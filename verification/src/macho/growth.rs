//! A stamped Mach-O executable can be read where its `__LINKEDIT` segment has room to grow.

use vstd::prelude::*;

use crate::align;
use crate::bytes;
use crate::error::RuntimeDataError;
use crate::footer::FOOTER_LEN;
use crate::macho;
use crate::macho::command;
use crate::macho::final_layout;
use crate::macho::laws;
use crate::macho::layout;
use crate::macho::round_trip;
use crate::macho::segment;
use crate::macho::stamp;
use crate::macho::{
    LinkeditSegment, MachOLayout, MachoScanView, LC_CODE_SIGNATURE, LC_SEGMENT_64,
    MACHO_SIGNATURE_ALIGNMENT,
};
use crate::object_file;
use crate::object_file::{MACHO_HEADER_LEN, SEGMENT_COMMAND_LEN};
use crate::payload;
use crate::runtime_reader;
use crate::runtime_reader::{FooterSearchSpec, LocatedView, Target, MAX_HEADER_LEN};

verus! {

/// Whether the ranges that segments take are not empty, lie in the file, and start no higher than
/// the highest segment.
pub open spec fn has_sound_ranges(scan: MachoScanView, file_len: u64) -> bool {
    &&& forall|i: int|
        0 <= i < scan.segment_ranges.len() ==> {
            let range = #[trigger] scan.segment_ranges[i];
            range.0 < range.1 <= file_len && range.0 <= scan.max_segment_fileoff
        }
    &&& forall|i: int|
        0 <= i < scan.virtual_ranges.len() ==> {
            let range = #[trigger] scan.virtual_ranges[i];
            range.0 < range.1 && range.0 <= scan.max_segment_vmaddr
        }
}

/// Whether `right` starts with what `left` holds.
pub open spec fn extends(left: Seq<(u64, u64)>, right: Seq<(u64, u64)>) -> bool {
    &&& left.len() <= right.len()
    &&& forall|i: int| 0 <= i < left.len() ==> #[trigger] right[i] == left[i]
}

/// Whether `later` notes what `earlier` does, and more.
pub open spec fn is_later(earlier: MachoScanView, later: MachoScanView) -> bool {
    &&& extends(earlier.segment_ranges, later.segment_ranges)
    &&& extends(earlier.virtual_ranges, later.virtual_ranges)
    &&& earlier.max_segment_fileoff <= later.max_segment_fileoff
    &&& earlier.max_segment_vmaddr <= later.max_segment_vmaddr
}

/// A load command adds to what was noted.
proof fn lemma_command_adds(
    scan: MachoScanView,
    raw: Seq<u8>,
    file_len: u64,
    command_end: u64,
    next: MachoScanView,
)
    requires
        command::scan_command(scan, raw, file_len, command_end) == Ok::<
            MachoScanView,
            RuntimeDataError,
        >(next),
        has_sound_ranges(scan, file_len),
    ensures
        has_sound_ranges(next, file_len),
        is_later(scan, next),
{
    if bytes::le_u32(raw, 0) == LC_SEGMENT_64 {
        let fields = segment::segment_fields(raw);
        let mapped = segment::with_segment_ranges(scan, fields);
        let sections = segment::scan_sections(mapped, raw, 0, file_len)->Ok_0;
        laws::lemma_sections_leave_the_rest(mapped, raw, 0, file_len, sections);
        assert(next.segment_ranges == mapped.segment_ranges);
        assert(next.virtual_ranges == mapped.virtual_ranges);
    }
}

/// Load commands add to what was noted, take eight bytes or more each, and a code signature
/// command takes eight more.
proof fn lemma_commands_add(
    scan: MachoScanView,
    prefix: Seq<u8>,
    count: nat,
    file_len: u64,
    last: MachoScanView,
)
    requires
        laws::is_sound_scan(scan, file_len),
        has_sound_ranges(scan, file_len),
        scan.command_offset <= prefix.len() <= usize::MAX,
        layout::scan_commands(scan, prefix, count, file_len) == Ok::<
            MachoScanView,
            RuntimeDataError,
        >(last),
    ensures
        has_sound_ranges(last, file_len),
        is_later(scan, last),
        scan.command_offset + 8 * count <= last.command_offset,
        scan.code_signature is None && last.code_signature is Some ==> scan.command_offset + 8
            * count + 8 <= last.command_offset,
    decreases count,
{
    if count > 0 {
        let raw = round_trip::command_at(prefix, scan.command_offset as int);
        let next = command::scan_command(scan, raw, file_len, prefix.len() as u64)->Ok_0;
        laws::lemma_command_keeps_scan_sound(scan, raw, file_len, prefix.len() as u64, next);
        round_trip::lemma_command_effect(scan, raw, file_len, prefix.len() as u64, next);
        lemma_command_adds(scan, raw, file_len, prefix.len() as u64, next);
        lemma_commands_add(next, prefix, (count - 1) as nat, file_len, last);
    }
}

/// The range of a `__LINKEDIT` segment that is still to come is noted behind those noted so far.
proof fn lemma_linkedit_comes_later(
    scan: MachoScanView,
    prefix: Seq<u8>,
    count: nat,
    file_len: u64,
    last: MachoScanView,
) -> (at: int)
    requires
        laws::is_sound_scan(scan, file_len),
        has_sound_ranges(scan, file_len),
        scan.command_offset <= prefix.len() <= usize::MAX,
        layout::scan_commands(scan, prefix, count, file_len) == Ok::<
            MachoScanView,
            RuntimeDataError,
        >(last),
        scan.linkedit is None,
        last.linkedit is Some,
        last.linkedit->0.filesize != 0,
    ensures
        scan.segment_ranges.len() <= at < last.segment_ranges.len(),
        last.segment_ranges[at].0 == last.linkedit->0.fileoff,
    decreases count,
{
    let raw = round_trip::command_at(prefix, scan.command_offset as int);
    let next = command::scan_command(scan, raw, file_len, prefix.len() as u64)->Ok_0;
    laws::lemma_command_keeps_scan_sound(scan, raw, file_len, prefix.len() as u64, next);
    round_trip::lemma_command_effect(scan, raw, file_len, prefix.len() as u64, next);
    lemma_command_adds(scan, raw, file_len, prefix.len() as u64, next);
    if next.linkedit is Some {
        round_trip::lemma_positions(next, prefix, (count - 1) as nat, file_len, last);
        lemma_commands_add(next, prefix, (count - 1) as nat, file_len, last);
        let fields = segment::segment_fields(raw);
        let mapped = segment::with_segment_ranges(scan, fields);
        let sections = segment::scan_sections(mapped, raw, 0, file_len)->Ok_0;
        laws::lemma_sections_leave_the_rest(mapped, raw, 0, file_len, sections);
        assert(next.segment_ranges == mapped.segment_ranges);
        let at = scan.segment_ranges.len() as int;
        assert(next.segment_ranges[at].0 == fields.fileoff);
        at
    } else {
        lemma_linkedit_comes_later(next, prefix, (count - 1) as nat, file_len, last)
    }
}

/// A template and what its stamp does to it: `prefix` is its header with the load commands, of
/// which `last` is the scan, and the sizes are those of the files and of the `__LINKEDIT` segment
/// of the stamped executable.
pub struct Growth {
    pub prefix: Seq<u8>,
    pub found: MachOLayout,
    pub last: MachoScanView,
    pub file_len: u64,
    pub stamped_len: u64,
    pub vmsize: u64,
    pub filesize: u64,
}

/// The size in memory of the `__LINKEDIT` segment whose command starts at `at`.
pub open spec fn linkedit_vmsize(prefix: Seq<u8>, at: int) -> u64 {
    bytes::le_u64(prefix, at + 32)
}

/// Whether these are the template and the sizes of a stamp.
pub open spec fn is_stamp(growth: Growth) -> bool {
    let found = growth.found;
    &&& round_trip::is_layout_of_prefix(growth.prefix, found)
    &&& growth.prefix.len() <= usize::MAX
    &&& growth.last.linkedit == Some(
        LinkeditSegment {
            command_offset: found.linkedit_command_offset,
            vmaddr: found.linkedit_vmaddr,
            fileoff: found.linkedit_fileoff,
            filesize: found.linkedit_filesize,
        },
    )
    &&& growth.last.code_signature == found.code_signature
    &&& growth.last.max_segment_fileoff == found.linkedit_fileoff
    &&& growth.last.max_segment_vmaddr == found.linkedit_vmaddr
    &&& !layout::any_overlap(growth.last.segment_ranges)
    &&& has_sound_ranges(growth.last, growth.file_len)
    &&& found.linkedit_fileoff + found.linkedit_filesize == growth.file_len
    &&& found.linkedit_fileoff + growth.filesize == growth.stamped_len
    &&& 0 < growth.filesize <= growth.vmsize
}

/// Whether the segment of this template can grow as its stamp asks, within the address space.
pub open spec fn is_growth(growth: Growth) -> bool {
    &&& is_stamp(growth)
    &&& growth.found.linkedit_vmaddr + growth.vmsize <= u64::MAX
}

/// Whether `scan` is how far the scan of the template has come with `count` load commands to go.
pub open spec fn is_on_the_way(growth: Growth, scan: MachoScanView, count: nat) -> bool {
    &&& laws::is_sound_scan(scan, growth.file_len)
    &&& has_sound_ranges(scan, growth.file_len)
    &&& scan.command_offset <= growth.prefix.len()
    &&& layout::scan_commands(scan, growth.prefix, count, growth.file_len) == Ok::<
        MachoScanView,
        RuntimeDataError,
    >(growth.last)
}

/// Whether `new` holds `item` at `at`, where `old` holds what starts at the same place, or nothing
/// where `had` is false, and whether the two are the same otherwise.
pub open spec fn has_grown(
    old: Seq<(u64, u64)>,
    new: Seq<(u64, u64)>,
    at: int,
    had: bool,
    item: (u64, u64),
) -> bool {
    let after = if had {
        at + 1
    } else {
        at
    };
    &&& 0 <= at && after <= old.len()
    &&& had ==> old[at].0 == item.0
    &&& new == old.take(at).push(item) + old.skip(after)
}

/// Whether `new` is `old` but for the range of the `__LINKEDIT` segment.
pub open spec fn have_grown(
    old: Seq<(u64, u64)>,
    new: Seq<(u64, u64)>,
    had: bool,
    item: (u64, u64),
) -> bool {
    exists|at: int| has_grown(old, new, at, had, item)
}

/// Whether the two scans agree on all that a stamp leaves as it is.
pub open spec fn agree(growth: Growth, scan: MachoScanView, stamped: MachoScanView) -> bool {
    &&& stamped.code_signature is None
    &&& stamped.first_section_offset == scan.first_section_offset
    &&& scan.first_section_offset matches Some(first) ==> first <= growth.stamped_len
    &&& stamped.max_segment_vmaddr == scan.max_segment_vmaddr
    &&& stamped.max_segment_fileoff == scan.max_segment_fileoff
    &&& stamped.referenced_ranges == scan.referenced_ranges
    &&& stamped.executable_section_ranges == scan.executable_section_ranges
    &&& stamped.has_macos_platform_command == scan.has_macos_platform_command
    &&& stamped.entry_point == scan.entry_point
    &&& stamped.reader_capability == scan.reader_capability
    &&& stamped.text_segment_count == scan.text_segment_count
    &&& stamped.dylinker_count == scan.dylinker_count
}

/// Whether the segments of the two scans are the same but for the `__LINKEDIT` segment.
pub open spec fn have_same_segments(growth: Growth, scan: MachoScanView, stamped: MachoScanView) -> bool {
    let found = growth.found;
    match scan.linkedit {
        None => {
            &&& stamped.linkedit is None
            &&& stamped.segment_ranges == scan.segment_ranges
            &&& stamped.virtual_ranges == scan.virtual_ranges
        },
        Some(linkedit) => {
            &&& stamped.linkedit == Some(
                LinkeditSegment {
                    command_offset: round_trip::stamped_offset(
                        found,
                        linkedit.command_offset as int,
                    ) as usize,
                    filesize: growth.filesize,
                    ..linkedit
                },
            )
            &&& have_grown(
                scan.segment_ranges,
                stamped.segment_ranges,
                found.linkedit_filesize != 0,
                (found.linkedit_fileoff, growth.stamped_len),
            )
            &&& have_grown(
                scan.virtual_ranges,
                stamped.virtual_ranges,
                linkedit_vmsize(growth.prefix, found.linkedit_command_offset as int) != 0,
                (found.linkedit_vmaddr, (found.linkedit_vmaddr + growth.vmsize) as u64),
            )
        },
    }
}

/// What is noted behind the range of the `__LINKEDIT` segment is noted in both.
proof fn lemma_grown_push(
    old: Seq<(u64, u64)>,
    new: Seq<(u64, u64)>,
    had: bool,
    item: (u64, u64),
    more: (u64, u64),
)
    requires
        have_grown(old, new, had, item),
    ensures
        have_grown(old.push(more), new.push(more), had, item),
{
    let at = choose|at: int| has_grown(old, new, at, had, item);
    let after = if had {
        at + 1
    } else {
        at
    };
    assert(old.push(more).take(at) =~= old.take(at));
    assert(old.push(more).skip(after) =~= old.skip(after).push(more));
    assert(new.push(more) =~= old.push(more).take(at).push(item) + old.push(more).skip(after));
    assert(has_grown(old.push(more), new.push(more), at, had, item));
}

/// Every segment but the `__LINKEDIT` segment ends before that one starts.
proof fn lemma_segment_ends_first(
    growth: Growth,
    scan: MachoScanView,
    stamped: MachoScanView,
    count: nat,
)
    requires
        is_growth(growth),
        is_on_the_way(growth, scan, count),
        count > 0,
        have_same_segments(growth, scan, stamped),
        ({
            let raw = round_trip::command_at(growth.prefix, scan.command_offset as int);
            &&& bytes::le_u32(raw, 0) == LC_SEGMENT_64
            &&& !segment::segment_fields(raw).is_linkedit
        }),
    ensures
        ({
            let raw = round_trip::command_at(growth.prefix, scan.command_offset as int);
            let fields = segment::segment_fields(raw);
            fields.fileoff + fields.filesize <= growth.found.linkedit_fileoff
        }),
{
    let prefix = growth.prefix;
    let file_len = growth.file_len;
    let raw = round_trip::command_at(prefix, scan.command_offset as int);
    let fields = segment::segment_fields(raw);
    let next = command::scan_command(scan, raw, file_len, prefix.len() as u64)->Ok_0;
    laws::lemma_command_keeps_scan_sound(scan, raw, file_len, prefix.len() as u64, next);
    lemma_command_adds(scan, raw, file_len, prefix.len() as u64, next);
    lemma_commands_add(next, prefix, (count - 1) as nat, file_len, growth.last);
    let mapped = segment::with_segment_ranges(scan, fields);
    let sections = segment::scan_sections(mapped, raw, 0, file_len)->Ok_0;
    laws::lemma_sections_leave_the_rest(mapped, raw, 0, file_len, sections);
    assert(next.segment_ranges == mapped.segment_ranges);
    assert(fields.fileoff <= next.max_segment_fileoff);
    if fields.filesize != 0 && growth.found.linkedit_filesize != 0 {
        let own = scan.segment_ranges.len() as int;
        let ranges = growth.last.segment_ranges;
        assert(next.segment_ranges[own] == (
            fields.fileoff,
            (fields.fileoff + fields.filesize) as u64,
        ));
        assert(ranges[own] == next.segment_ranges[own]);
        let other = if scan.linkedit is Some {
            let at = choose|at: int|
                has_grown(
                    scan.segment_ranges,
                    stamped.segment_ranges,
                    at,
                    true,
                    (growth.found.linkedit_fileoff, growth.stamped_len),
                );
            assert(next.segment_ranges[at] == scan.segment_ranges[at]);
            assert(ranges[at] == next.segment_ranges[at]);
            at
        } else {
            lemma_linkedit_comes_later(next, prefix, (count - 1) as nat, file_len, growth.last)
        };
        assert(ranges[other].0 == growth.found.linkedit_fileoff);
        assert(own != other);
        if own < other {
            assert(!layout::overlap(ranges[own], ranges[other]));
        } else {
            assert(!layout::overlap(ranges[other], ranges[own]));
        }
    }
}

/// Whether the sections of the segment command `raw` that have bytes in the file end by `limit`.
pub open spec fn sections_end_by(raw: Seq<u8>, limit: u64) -> bool {
    forall|i: int|
        0 <= i < object_file::segment_section_count(raw) && segment::has_file_data(
            segment::section_fields(raw, i).kind,
        ) ==> (#[trigger] object_file::section_file_offset(raw, i) matches Some(offset) ==> offset
            + segment::section_fields(raw, i).size <= limit)
}

/// Whether the sections that `count` load commands of `prefix` declare, from `offset` on, end by
/// `limit` in the file.
pub open spec fn all_sections_end_by(prefix: Seq<u8>, offset: int, count: nat, limit: u64) -> bool
    decreases count,
{
    let raw = round_trip::command_at(prefix, offset);
    count > 0 ==> {
        &&& bytes::le_u32(raw, 0) == LC_SEGMENT_64 ==> sections_end_by(raw, limit)
        &&& all_sections_end_by(prefix, offset + raw.len(), (count - 1) as nat, limit)
    }
}

/// Sections are read from the stamped executable as from the template.
proof fn lemma_same_sections(
    growth: Growth,
    scan: MachoScanView,
    stamped: MachoScanView,
    raw: Seq<u8>,
    index: int,
)
    requires
        0 <= index,
        agree(growth, scan, stamped),
        segment::scan_sections(scan, raw, index, growth.file_len) is Ok,
        segment::segment_fields(raw).fileoff + segment::segment_fields(raw).filesize
            <= growth.stamped_len,
        sections_end_by(raw, growth.stamped_len),
    ensures
        segment::scan_sections(stamped, raw, index, growth.stamped_len) is Ok,
        agree(
            growth,
            segment::scan_sections(scan, raw, index, growth.file_len)->Ok_0,
            segment::scan_sections(stamped, raw, index, growth.stamped_len)->Ok_0,
        ),
    decreases object_file::segment_section_count(raw) - index,
{
    if index < object_file::segment_section_count(raw) {
        let next = segment::scan_section(scan, raw, index, growth.file_len)->Ok_0;
        let fields = segment::segment_fields(raw);
        let section = segment::section_fields(raw, index);
        let offset = object_file::section_file_offset(raw, index)->0;
        assert(segment::section_error(stamped, fields, section, offset, growth.stamped_len) is None);
        let stamped_next = segment::scan_section(stamped, raw, index, growth.stamped_len)->Ok_0;
        assert(agree(growth, next, stamped_next));
        lemma_same_sections(growth, next, stamped_next, raw, index + 1);
    }
}

/// A segment other than the `__LINKEDIT` segment is read from the stamped executable as from the
/// template.
proof fn lemma_same_segment(
    growth: Growth,
    scan: MachoScanView,
    stamped: MachoScanView,
    raw: Seq<u8>,
    command_end: u64,
    stamped_command_end: u64,
)
    requires
        agree(growth, scan, stamped),
        have_same_segments(growth, scan, stamped),
        stamped_command_end <= command_end,
        segment::scan_segment(scan, raw, growth.file_len, command_end) is Ok,
        !segment::segment_fields(raw).is_linkedit,
        segment::segment_fields(raw).fileoff + segment::segment_fields(raw).filesize
            <= growth.stamped_len,
        sections_end_by(raw, growth.stamped_len),
    ensures
        ({
            let next = segment::scan_segment(scan, raw, growth.file_len, command_end);
            let stamped_next = segment::scan_segment(
                stamped,
                raw,
                growth.stamped_len,
                stamped_command_end,
            );
            &&& stamped_next is Ok
            &&& agree(growth, next->Ok_0, stamped_next->Ok_0)
            &&& have_same_segments(growth, next->Ok_0, stamped_next->Ok_0)
        }),
{
    let fields = segment::segment_fields(raw);
    let found = growth.found;
    assert(segment::segment_error(stamped, fields, growth.stamped_len, stamped_command_end)
        is None);
    let mapped = segment::with_segment_ranges(scan, fields);
    let stamped_mapped = segment::with_segment_ranges(stamped, fields);
    assert(agree(growth, mapped, stamped_mapped));
    lemma_same_sections(growth, mapped, stamped_mapped, raw, 0);
    let sections = segment::scan_sections(mapped, raw, 0, growth.file_len)->Ok_0;
    let stamped_sections = segment::scan_sections(
        stamped_mapped,
        raw,
        0,
        growth.stamped_len,
    )->Ok_0;
    laws::lemma_sections_leave_the_rest(mapped, raw, 0, growth.file_len, sections);
    laws::lemma_sections_leave_the_rest(
        stamped_mapped,
        raw,
        0,
        growth.stamped_len,
        stamped_sections,
    );
    if scan.linkedit is Some {
        if fields.filesize != 0 {
            lemma_grown_push(
                scan.segment_ranges,
                stamped.segment_ranges,
                found.linkedit_filesize != 0,
                (found.linkedit_fileoff, growth.stamped_len),
                (fields.fileoff, (fields.fileoff + fields.filesize) as u64),
            );
        }
        if fields.vmsize != 0 {
            lemma_grown_push(
                scan.virtual_ranges,
                stamped.virtual_ranges,
                linkedit_vmsize(growth.prefix, found.linkedit_command_offset as int) != 0,
                (found.linkedit_vmaddr, (found.linkedit_vmaddr + growth.vmsize) as u64),
                (fields.vmaddr, (fields.vmaddr + fields.vmsize) as u64),
            );
        }
    }
}

/// A load command that is neither that of a segment nor that of a code signature is read from the
/// stamped executable as from the template.
proof fn lemma_same_other_command(
    growth: Growth,
    scan: MachoScanView,
    stamped: MachoScanView,
    raw: Seq<u8>,
    command_end: u64,
    stamped_command_end: u64,
)
    requires
        agree(growth, scan, stamped),
        have_same_segments(growth, scan, stamped),
        command::scan_command(scan, raw, growth.file_len, command_end) is Ok,
        bytes::le_u32(raw, 0) != LC_SEGMENT_64,
        bytes::le_u32(raw, 0) != LC_CODE_SIGNATURE,
    ensures
        ({
            let next = command::scan_command(scan, raw, growth.file_len, command_end);
            let stamped_next = command::scan_command(
                stamped,
                raw,
                growth.stamped_len,
                stamped_command_end,
            );
            &&& stamped_next is Ok
            &&& agree(growth, next->Ok_0, stamped_next->Ok_0)
            &&& have_same_segments(growth, next->Ok_0, stamped_next->Ok_0)
        }),
{
}

/// The command of the `__LINKEDIT` segment in the stamped executable is that of the template but
/// for the sizes of the segment.
#[verifier::rlimit(40)]
proof fn lemma_linkedit_command(growth: Growth)
    requires
        is_stamp(growth),
        growth.found.linkedit_command_offset + SEGMENT_COMMAND_LEN <= growth.prefix.len(),
    ensures
        ({
            let found = growth.found;
            let offset = found.linkedit_command_offset as int;
            let commands = round_trip::stamped_commands(
                growth.prefix,
                found,
                growth.vmsize,
                growth.filesize,
            );
            let at = round_trip::stamped_offset(found, offset);
            let raw = growth.prefix.subrange(offset, offset + SEGMENT_COMMAND_LEN);
            let stamped_raw = commands.subrange(at, at + SEGMENT_COMMAND_LEN);
            &&& at + SEGMENT_COMMAND_LEN <= commands.len()
            &&& segment::segment_fields(stamped_raw) == (segment::SegmentFields {
                vmsize: growth.vmsize,
                filesize: growth.filesize,
                ..segment::segment_fields(raw)
            })
            &&& segment::segment_fields(raw).vmsize == linkedit_vmsize(growth.prefix, offset)
        }),
{
    let found = growth.found;
    let prefix = growth.prefix;
    let offset = found.linkedit_command_offset as int;
    let rewritten = stamp::stamped_prefix(prefix, found, growth.vmsize, growth.filesize);
    let commands = round_trip::stamped_commands(prefix, found, growth.vmsize, growth.filesize);
    let at = round_trip::stamped_offset(found, offset);
    let raw = prefix.subrange(offset, offset + SEGMENT_COMMAND_LEN);
    let stamped_raw = commands.subrange(at, at + SEGMENT_COMMAND_LEN);
    assert(rewritten.len() == prefix.len());
    round_trip::lemma_command_bytes(prefix, found, growth.vmsize, growth.filesize, offset, 32);
    round_trip::lemma_command_bytes(
        prefix,
        found,
        growth.vmsize,
        growth.filesize,
        offset + 56,
        16,
    );
    let head = prefix.subrange(offset, offset + 32);
    let tail = prefix.subrange(offset + 56, offset + SEGMENT_COMMAND_LEN);
    assert(commands.subrange(at, at + 32) == head);
    assert(commands.subrange(at + 56, at + SEGMENT_COMMAND_LEN) == tail);
    assert(stamped_raw.take(32) =~= commands.subrange(at, at + 32));
    assert(raw.take(32) =~= head);
    assert(stamped_raw.skip(56) =~= commands.subrange(at + 56, at + SEGMENT_COMMAND_LEN));
    assert(raw.skip(56) =~= tail);
    assert(stamped_raw.subrange(8, 19) =~= head.subrange(8, 19));
    assert(raw.subrange(8, 19) =~= head.subrange(8, 19));
    assert(stamped_raw.subrange(8, 15) =~= head.subrange(8, 15));
    assert(raw.subrange(8, 15) =~= head.subrange(8, 15));
    assert(stamped_raw.subrange(24, 32) =~= head.subrange(24, 32));
    assert(raw.subrange(24, 32) =~= head.subrange(24, 32));
    bytes::lemma_le_u64_window(stamped_raw, 24, raw, 24);
    let vmsize = bytes::u64_bytes(growth.vmsize);
    let filesize = bytes::u64_bytes(growth.filesize);
    assert(stamped_raw.subrange(32, 40) =~= vmsize.subrange(0, 8));
    assert(stamped_raw.subrange(40, 48) =~= raw.subrange(40, 48));
    assert(stamped_raw.subrange(48, 56) =~= filesize.subrange(0, 8));
    bytes::lemma_le_u64_window(stamped_raw, 32, vmsize, 0);
    bytes::lemma_le_u64_window(stamped_raw, 40, raw, 40);
    bytes::lemma_le_u64_window(stamped_raw, 48, filesize, 0);
    bytes::lemma_u64_round_trip(growth.vmsize);
    bytes::lemma_u64_round_trip(growth.filesize);
    assert(stamped_raw.subrange(56, 60) =~= tail.subrange(0, 4));
    assert(raw.subrange(56, 60) =~= tail.subrange(0, 4));
    assert(stamped_raw.subrange(60, 64) =~= tail.subrange(4, 8));
    assert(raw.subrange(60, 64) =~= tail.subrange(4, 8));
    assert(stamped_raw.subrange(64, 68) =~= tail.subrange(8, 12));
    assert(raw.subrange(64, 68) =~= tail.subrange(8, 12));
    bytes::lemma_le_u32_window(stamped_raw, 56, raw, 56);
    bytes::lemma_le_u32_window(stamped_raw, 60, raw, 60);
    bytes::lemma_le_u32_window(stamped_raw, 64, raw, 64);
    assert(raw.subrange(32, 40) =~= prefix.subrange(offset + 32, offset + 40));
    bytes::lemma_le_u64_window(raw, 32, prefix, offset + 32);
}

/// The `__LINKEDIT` segment is read from the stamped executable with its new sizes.
proof fn lemma_linkedit_grows(
    growth: Growth,
    scan: MachoScanView,
    stamped: MachoScanView,
    raw: Seq<u8>,
    stamped_raw: Seq<u8>,
    command_end: u64,
    stamped_command_end: u64,
)
    requires
        is_growth(growth),
        agree(growth, scan, stamped),
        have_same_segments(growth, scan, stamped),
        scan.linkedit is None,
        scan.command_offset == growth.found.linkedit_command_offset,
        stamped.command_offset == round_trip::stamped_offset(
            growth.found,
            scan.command_offset as int,
        ),
        segment::scan_segment(scan, raw, growth.file_len, command_end) is Ok,
        segment::segment_fields(raw).is_linkedit,
        segment::segment_fields(raw).vmaddr == growth.found.linkedit_vmaddr,
        segment::segment_fields(raw).fileoff == growth.found.linkedit_fileoff,
        segment::segment_fields(raw).filesize == growth.found.linkedit_filesize,
        segment::segment_fields(raw).vmsize == linkedit_vmsize(
            growth.prefix,
            growth.found.linkedit_command_offset as int,
        ),
        stamped_raw.len() == raw.len(),
        segment::segment_fields(stamped_raw) == (segment::SegmentFields {
            vmsize: growth.vmsize,
            filesize: growth.filesize,
            ..segment::segment_fields(raw)
        }),
    ensures
        ({
            let next = segment::scan_segment(scan, raw, growth.file_len, command_end);
            let stamped_next = segment::scan_segment(
                stamped,
                stamped_raw,
                growth.stamped_len,
                stamped_command_end,
            );
            &&& stamped_next is Ok
            &&& agree(growth, next->Ok_0, stamped_next->Ok_0)
            &&& have_same_segments(growth, next->Ok_0, stamped_next->Ok_0)
        }),
{
    let fields = segment::segment_fields(raw);
    let stamped_fields = segment::segment_fields(stamped_raw);
    let found = growth.found;
    assert(!fields.is_text) by {
        if fields.is_text {
            assert(raw.subrange(8, 19)[2] == raw[10]);
            assert(raw.subrange(8, 15)[2] == raw[10]);
            assert(segment::linkedit_name()[2] != segment::text_name()[2]);
        }
    }
    assert(segment::segment_error(
        stamped,
        stamped_fields,
        growth.stamped_len,
        stamped_command_end,
    ) is None);
    let next = segment::scan_segment(scan, raw, growth.file_len, command_end)->Ok_0;
    let stamped_next = segment::scan_segment(
        stamped,
        stamped_raw,
        growth.stamped_len,
        stamped_command_end,
    )->Ok_0;
    let item = (found.linkedit_fileoff, growth.stamped_len);
    let old = scan.segment_ranges;
    let at = old.len() as int;
    assert(next.segment_ranges.take(at) =~= old);
    assert(stamped_next.segment_ranges =~= old.push(item));
    let after = if found.linkedit_filesize != 0 {
        at + 1
    } else {
        at
    };
    assert(next.segment_ranges.skip(after) =~= Seq::empty());
    assert(has_grown(
        next.segment_ranges,
        stamped_next.segment_ranges,
        at,
        found.linkedit_filesize != 0,
        item,
    ));
    let mapped = (found.linkedit_vmaddr, (found.linkedit_vmaddr + growth.vmsize) as u64);
    let old_mapped = scan.virtual_ranges;
    let at_mapped = old_mapped.len() as int;
    assert(next.virtual_ranges.take(at_mapped) =~= old_mapped);
    assert(stamped_next.virtual_ranges =~= old_mapped.push(mapped));
    let after_mapped = if fields.vmsize != 0 {
        at_mapped + 1
    } else {
        at_mapped
    };
    assert(next.virtual_ranges.skip(after_mapped) =~= Seq::empty());
    assert(has_grown(
        next.virtual_ranges,
        stamped_next.virtual_ranges,
        at_mapped,
        fields.vmsize != 0,
        mapped,
    ));
}

/// The segment command at the offset of the `__LINKEDIT` segment is that of this segment.
proof fn lemma_linkedit_is_here(
    growth: Growth,
    scan: MachoScanView,
    count: nat,
    raw: Seq<u8>,
    next: MachoScanView,
)
    requires
        is_stamp(growth),
        is_on_the_way(growth, scan, count),
        count > 0,
        raw == round_trip::command_at(growth.prefix, scan.command_offset as int),
        bytes::le_u32(raw, 0) == LC_SEGMENT_64,
        next == command::scan_command(
            scan,
            raw,
            growth.file_len,
            growth.prefix.len() as u64,
        )->Ok_0,
        scan.command_offset == growth.found.linkedit_command_offset,
        scan.linkedit is Some ==> scan.linkedit == growth.last.linkedit,
    ensures
        scan.linkedit is None,
        raw.len() == SEGMENT_COMMAND_LEN,
        segment::segment_fields(raw).is_linkedit,
        segment::segment_fields(raw).vmaddr == growth.found.linkedit_vmaddr,
        segment::segment_fields(raw).fileoff == growth.found.linkedit_fileoff,
        segment::segment_fields(raw).filesize == growth.found.linkedit_filesize,
{
    let prefix = growth.prefix;
    let file_len = growth.file_len;
    let rest = (count - 1) as nat;
    laws::lemma_command_keeps_scan_sound(scan, raw, file_len, prefix.len() as u64, next);
    round_trip::lemma_command_effect(scan, raw, file_len, prefix.len() as u64, next);
    round_trip::lemma_positions(next, prefix, rest, file_len, growth.last);
    assert(raw.len() >= SEGMENT_COMMAND_LEN);
    assert(scan.linkedit is None);
    assert(next.linkedit is Some);
}

/// Whether the scan of the stamped executable is as far as that of the template, and says the same
/// but for the sizes of the `__LINKEDIT` segment.
pub open spec fn are_alike(
    growth: Growth,
    scan: MachoScanView,
    count: nat,
    stamped: MachoScanView,
    stamped_count: nat,
) -> bool {
    &&& round_trip::is_as_far(growth.found, scan, count, stamped, stamped_count)
    &&& agree(growth, scan, stamped)
    &&& have_same_segments(growth, scan, stamped)
    &&& scan.linkedit is Some ==> scan.linkedit == growth.last.linkedit
}

/// The load commands of the stamped executable, with its header.
pub open spec fn grown_commands(growth: Growth) -> Seq<u8> {
    round_trip::stamped_commands(growth.prefix, growth.found, growth.vmsize, growth.filesize)
}

/// A segment is read from the stamped executable as from the template, or with its new sizes.
proof fn lemma_segment_is_accepted(
    growth: Growth,
    scan: MachoScanView,
    count: nat,
    stamped: MachoScanView,
    raw: Seq<u8>,
    stamped_raw: Seq<u8>,
)
    requires
        is_growth(growth),
        is_on_the_way(growth, scan, count),
        count > 0,
        agree(growth, scan, stamped),
        have_same_segments(growth, scan, stamped),
        scan.linkedit is Some ==> scan.linkedit == growth.last.linkedit,
        raw == round_trip::command_at(growth.prefix, scan.command_offset as int),
        stamped.command_offset == round_trip::stamped_offset(
            growth.found,
            scan.command_offset as int,
        ),
        scan.command_offset + raw.len() <= growth.prefix.len(),
        stamped.command_offset + raw.len() <= grown_commands(growth).len(),
        grown_commands(growth).len() <= growth.prefix.len(),
        stamped_raw == grown_commands(growth).subrange(
            stamped.command_offset as int,
            stamped.command_offset + raw.len(),
        ),
        scan.command_offset != growth.found.linkedit_command_offset ==> stamped_raw == raw,
        bytes::le_u32(raw, 0) == LC_SEGMENT_64,
        sections_end_by(raw, growth.stamped_len),
    ensures
        ({
            let next = segment::scan_segment(
                scan,
                raw,
                growth.file_len,
                growth.prefix.len() as u64,
            );
            let stamped_next = segment::scan_segment(
                stamped,
                stamped_raw,
                growth.stamped_len,
                grown_commands(growth).len() as u64,
            );
            &&& stamped_next is Ok
            &&& agree(growth, next->Ok_0, stamped_next->Ok_0)
            &&& have_same_segments(growth, next->Ok_0, stamped_next->Ok_0)
        }),
{
    let prefix = growth.prefix;
    let file_len = growth.file_len;
    let offset = scan.command_offset as int;
    let command_end = prefix.len() as u64;
    let stamped_command_end = grown_commands(growth).len() as u64;
    let next = command::scan_command(scan, raw, file_len, command_end)->Ok_0;
    if offset == growth.found.linkedit_command_offset {
        lemma_linkedit_is_here(growth, scan, count, raw, next);
        assert(raw =~= prefix.subrange(offset, offset + raw.len()));
        lemma_linkedit_command(growth);
        lemma_linkedit_grows(
            growth,
            scan,
            stamped,
            raw,
            stamped_raw,
            command_end,
            stamped_command_end,
        );
    } else {
        laws::lemma_command_keeps_scan_sound(scan, raw, file_len, command_end, next);
        round_trip::lemma_positions(next, prefix, (count - 1) as nat, file_len, growth.last);
        assert(!segment::segment_fields(raw).is_linkedit);
        lemma_segment_ends_first(growth, scan, stamped, count);
        lemma_same_segment(growth, scan, stamped, raw, command_end, stamped_command_end);
    }
}

/// A load command other than that of the code signature says the same in the stamped executable
/// as in the template.
proof fn lemma_command_says_the_same(
    growth: Growth,
    scan: MachoScanView,
    count: nat,
    stamped: MachoScanView,
    raw: Seq<u8>,
    stamped_raw: Seq<u8>,
)
    requires
        is_growth(growth),
        is_on_the_way(growth, scan, count),
        count > 0,
        agree(growth, scan, stamped),
        have_same_segments(growth, scan, stamped),
        scan.linkedit is Some ==> scan.linkedit == growth.last.linkedit,
        raw == round_trip::command_at(growth.prefix, scan.command_offset as int),
        stamped.command_offset == round_trip::stamped_offset(
            growth.found,
            scan.command_offset as int,
        ),
        scan.command_offset + raw.len() <= growth.prefix.len(),
        stamped.command_offset + raw.len() <= grown_commands(growth).len(),
        grown_commands(growth).len() <= growth.prefix.len(),
        stamped_raw == grown_commands(growth).subrange(
            stamped.command_offset as int,
            stamped.command_offset + raw.len(),
        ),
        scan.command_offset != growth.found.linkedit_command_offset || bytes::le_u32(raw, 0)
            != LC_SEGMENT_64 ==> stamped_raw == raw,
        bytes::le_u32(stamped_raw, 0) == bytes::le_u32(raw, 0),
        bytes::le_u32(raw, 0) != LC_CODE_SIGNATURE,
        bytes::le_u32(raw, 0) == LC_SEGMENT_64 ==> sections_end_by(raw, growth.stamped_len),
    ensures
        ({
            let next = command::scan_command(
                scan,
                raw,
                growth.file_len,
                growth.prefix.len() as u64,
            );
            let stamped_next = command::scan_command(
                stamped,
                stamped_raw,
                growth.stamped_len,
                grown_commands(growth).len() as u64,
            );
            &&& stamped_next is Ok
            &&& agree(growth, next->Ok_0, stamped_next->Ok_0)
            &&& have_same_segments(growth, next->Ok_0, stamped_next->Ok_0)
            &&& stamped_next->Ok_0.command_offset == stamped.command_offset + raw.len()
        }),
{
    if bytes::le_u32(raw, 0) == LC_SEGMENT_64 {
        lemma_segment_is_accepted(growth, scan, count, stamped, raw, stamped_raw);
    } else {
        lemma_same_other_command(
            growth,
            scan,
            stamped,
            raw,
            growth.prefix.len() as u64,
            grown_commands(growth).len() as u64,
        );
    }
}

/// A load command other than that of the code signature is accepted in the stamped executable as
/// in the template.
#[verifier::rlimit(20)]
proof fn lemma_command_is_accepted(
    growth: Growth,
    scan: MachoScanView,
    count: nat,
    stamped: MachoScanView,
    stamped_count: nat,
)
    requires
        is_growth(growth),
        is_on_the_way(growth, scan, count),
        count > 0,
        are_alike(growth, scan, count, stamped, stamped_count),
        ({
            let raw = round_trip::command_at(growth.prefix, scan.command_offset as int);
            &&& bytes::le_u32(raw, 0) != LC_CODE_SIGNATURE
            &&& bytes::le_u32(raw, 0) == LC_SEGMENT_64 ==> sections_end_by(
                raw,
                growth.stamped_len,
            )
        }),
    ensures
        ({
            let raw = round_trip::command_at(growth.prefix, scan.command_offset as int);
            let next = command::scan_command(
                scan,
                raw,
                growth.file_len,
                growth.prefix.len() as u64,
            )->Ok_0;
            let commands = grown_commands(growth);
            let table = commands.skip(stamped.command_offset as int);
            let stamped_next = command::scan_command(
                stamped,
                round_trip::command_at(commands, stamped.command_offset as int),
                growth.stamped_len,
                commands.len() as u64,
            );
            &&& stamped_count > 0
            &&& object_file::starts_with_load_command(table)
            &&& stamped_next is Ok
            &&& is_on_the_way(growth, next, (count - 1) as nat)
            &&& are_alike(
                growth,
                next,
                (count - 1) as nat,
                stamped_next->Ok_0,
                (stamped_count - 1) as nat,
            )
        }),
{
    let prefix = growth.prefix;
    let found = growth.found;
    let file_len = growth.file_len;
    let last = growth.last;
    let command_end = prefix.len() as u64;
    let rest = (count - 1) as nat;
    let offset = scan.command_offset as int;
    let raw = round_trip::command_at(prefix, offset);
    let next = command::scan_command(scan, raw, file_len, command_end)->Ok_0;
    let commands = grown_commands(growth);
    let stamped_raw = round_trip::command_at(commands, stamped.command_offset as int);
    laws::lemma_command_keeps_scan_sound(scan, raw, file_len, command_end, next);
    round_trip::lemma_command_effect(scan, raw, file_len, command_end, next);
    lemma_command_adds(scan, raw, file_len, command_end, next);
    round_trip::lemma_positions(next, prefix, rest, file_len, last);
    laws::lemma_commands_keep_scan_sound(next, prefix, rest, file_len, last);
    round_trip::lemma_positions(scan, prefix, count, file_len, last);
    round_trip::lemma_same_command(
        prefix,
        found,
        growth.vmsize,
        growth.filesize,
        scan,
        next,
        file_len,
        last,
        count,
    );
    assert(commands.len() <= prefix.len()) by {
        assert(stamp::stamped_prefix(prefix, found, growth.vmsize, growth.filesize).len()
            == prefix.len());
    }
    assert(stamped_raw =~= commands.subrange(
        stamped.command_offset as int,
        stamped.command_offset + raw.len(),
    ));
    assert(stamped_count > 0) by {
        if stamped_count == 0 {
            assert(count == 1);
            assert(last == next);
        }
    }
    assert(bytes::le_u32(raw, 0) != LC_SEGMENT_64 ==> offset != found.linkedit_command_offset);
    lemma_command_says_the_same(growth, scan, count, stamped, raw, stamped_raw);
}

/// The load commands of the stamped executable are accepted as those of the template are.
proof fn lemma_commands_are_accepted(
    growth: Growth,
    scan: MachoScanView,
    count: nat,
    stamped: MachoScanView,
    stamped_count: nat,
)
    requires
        is_growth(growth),
        is_on_the_way(growth, scan, count),
        are_alike(growth, scan, count, stamped, stamped_count),
        all_sections_end_by(
            growth.prefix,
            scan.command_offset as int,
            count,
            growth.stamped_len,
        ),
    ensures
        ({
            let result = layout::scan_commands(
                stamped,
                grown_commands(growth),
                stamped_count,
                growth.stamped_len,
            );
            &&& result is Ok
            &&& are_alike(growth, growth.last, 0, result->Ok_0, 0)
        }),
    decreases count,
{
    let prefix = growth.prefix;
    let raw = round_trip::command_at(prefix, scan.command_offset as int);
    let command_end = prefix.len() as u64;
    if count == 0 {
        assert(growth.last == scan);
        assert(stamped_count == 0);
    } else {
        let next = command::scan_command(scan, raw, growth.file_len, command_end)->Ok_0;
        let rest = (count - 1) as nat;
        laws::lemma_command_keeps_scan_sound(scan, raw, growth.file_len, command_end, next);
        if bytes::le_u32(raw, 0) == LC_CODE_SIGNATURE {
            lemma_signature_is_left_out(growth, scan, count, stamped, stamped_count);
            lemma_commands_are_accepted(growth, next, rest, stamped, stamped_count);
        } else {
            lemma_command_is_accepted(growth, scan, count, stamped, stamped_count);
            let commands = grown_commands(growth);
            let stamped_next = command::scan_command(
                stamped,
                round_trip::command_at(commands, stamped.command_offset as int),
                growth.stamped_len,
                commands.len() as u64,
            )->Ok_0;
            lemma_commands_are_accepted(
                growth,
                next,
                rest,
                stamped_next,
                (stamped_count - 1) as nat,
            );
        }
    }
}

/// The scan of the stamped executable is as far behind the code signature command of the template
/// as it is in front of it.
proof fn lemma_signature_is_left_out(
    growth: Growth,
    scan: MachoScanView,
    count: nat,
    stamped: MachoScanView,
    stamped_count: nat,
)
    requires
        is_growth(growth),
        is_on_the_way(growth, scan, count),
        count > 0,
        are_alike(growth, scan, count, stamped, stamped_count),
        bytes::le_u32(
            round_trip::command_at(growth.prefix, scan.command_offset as int),
            0,
        ) == LC_CODE_SIGNATURE,
    ensures
        ({
            let raw = round_trip::command_at(growth.prefix, scan.command_offset as int);
            let next = command::scan_command(
                scan,
                raw,
                growth.file_len,
                growth.prefix.len() as u64,
            )->Ok_0;
            &&& is_on_the_way(growth, next, (count - 1) as nat)
            &&& are_alike(growth, next, (count - 1) as nat, stamped, stamped_count)
        }),
{
    let prefix = growth.prefix;
    let file_len = growth.file_len;
    let command_end = prefix.len() as u64;
    let raw = round_trip::command_at(prefix, scan.command_offset as int);
    let next = command::scan_command(scan, raw, file_len, command_end)->Ok_0;
    laws::lemma_command_keeps_scan_sound(scan, raw, file_len, command_end, next);
    round_trip::lemma_command_effect(scan, raw, file_len, command_end, next);
    lemma_command_adds(scan, raw, file_len, command_end, next);
    round_trip::lemma_positions(next, prefix, (count - 1) as nat, file_len, growth.last);
}

/// Ranges that did not overlap do not where the highest of them grows.
proof fn lemma_grown_ranges_do_not_overlap(
    old: Seq<(u64, u64)>,
    new: Seq<(u64, u64)>,
    had: bool,
    item: (u64, u64),
)
    requires
        have_grown(old, new, had, item),
        !layout::any_overlap(old),
        forall|i: int|
            0 <= i < old.len() ==> (#[trigger] old[i]).0 < old[i].1 && old[i].0 <= item.0,
        !had ==> forall|i: int| 0 <= i < old.len() ==> (#[trigger] old[i]).1 <= item.0,
    ensures
        !layout::any_overlap(new),
{
    let at = choose|at: int| has_grown(old, new, at, had, item);
    let before = |i: int|
        if i < at || had {
            i
        } else {
            i - 1
        };
    assert forall|i: int| 0 <= i < new.len() && i != at implies #[trigger] new[i] == old[before(i)]
        && 0 <= before(i) < old.len() && (had ==> before(i) != at) && new[i].1 <= item.0 by {
        if had {
            if i < at {
                assert(!layout::overlap(old[i], old[at]));
            } else {
                assert(!layout::overlap(old[at], old[i]));
            }
        }
    }
    assert forall|i: int, j: int| 0 <= i < j < new.len() implies !layout::overlap(
        #[trigger] new[i],
        #[trigger] new[j],
    ) by {
        if i != at && j != at {
            assert(!layout::overlap(old[before(i)], old[before(j)]));
        }
    }
}

/// Link-edit data lies in the `__LINKEDIT` segment as long as that reaches behind it.
proof fn lemma_link_edit_data_is_accepted(
    ranges: Seq<(u64, u64)>,
    index: int,
    floor: u64,
    linkedit: LinkeditSegment,
    file_len: u64,
    end: u64,
    grown: LinkeditSegment,
    grown_len: u64,
)
    requires
        0 <= index,
        layout::referenced_end(ranges, index, floor, linkedit, file_len) == Ok::<
            u64,
            RuntimeDataError,
        >(end),
        floor <= linkedit.fileoff + linkedit.filesize,
        grown.fileoff == linkedit.fileoff,
        end <= grown_len,
        grown.fileoff + grown.filesize == grown_len,
    ensures
        layout::referenced_end(ranges, index, floor, grown, grown_len) == Ok::<
            u64,
            RuntimeDataError,
        >(end),
    decreases ranges.len() - index,
{
    if index < ranges.len() {
        laws::lemma_referenced_end(ranges, index, floor, linkedit, file_len, end);
        let (offset, size) = ranges[index];
        let reached = (offset + size) as u64;
        let next = if reached > floor {
            reached
        } else {
            floor
        };
        lemma_link_edit_data_is_accepted(
            ranges,
            index + 1,
            next,
            linkedit,
            file_len,
            end,
            grown,
            grown_len,
        );
    }
}

/// Sections that are accepted end in the file.
proof fn lemma_sections_end_in_file(
    scan: MachoScanView,
    raw: Seq<u8>,
    index: int,
    file_len: u64,
)
    requires
        0 <= index,
        segment::scan_sections(scan, raw, index, file_len) is Ok,
    ensures
        forall|i: int|
            index <= i < object_file::segment_section_count(raw) && segment::has_file_data(
                segment::section_fields(raw, i).kind,
            ) ==> (#[trigger] object_file::section_file_offset(raw, i) matches Some(offset)
                ==> offset + segment::section_fields(raw, i).size <= file_len),
    decreases object_file::segment_section_count(raw) - index,
{
    if index < object_file::segment_section_count(raw) {
        let next = segment::scan_section(scan, raw, index, file_len)->Ok_0;
        lemma_sections_end_in_file(next, raw, index + 1, file_len);
    }
}

/// The sections of an accepted executable end in the file.
proof fn lemma_all_sections_end_in_file(
    scan: MachoScanView,
    prefix: Seq<u8>,
    count: nat,
    file_len: u64,
    limit: u64,
)
    requires
        laws::is_sound_scan(scan, file_len),
        scan.command_offset <= prefix.len() <= usize::MAX,
        layout::scan_commands(scan, prefix, count, file_len) is Ok,
        file_len <= limit,
    ensures
        all_sections_end_by(prefix, scan.command_offset as int, count, limit),
    decreases count,
{
    if count > 0 {
        let raw = round_trip::command_at(prefix, scan.command_offset as int);
        let next = command::scan_command(scan, raw, file_len, prefix.len() as u64)->Ok_0;
        laws::lemma_command_keeps_scan_sound(scan, raw, file_len, prefix.len() as u64, next);
        if bytes::le_u32(raw, 0) == LC_SEGMENT_64 {
            let mapped = segment::with_segment_ranges(scan, segment::segment_fields(raw));
            lemma_sections_end_in_file(mapped, raw, 0, file_len);
        }
        lemma_all_sections_end_in_file(next, prefix, (count - 1) as nat, file_len, limit);
    }
}

/// What the load commands of the accepted executable `image` say.
pub open spec fn scan_of(image: Seq<u8>) -> MachoScanView {
    let header = layout::macho_header(image);
    layout::scan_commands(
        macho::initial_scan(),
        image.take(MACHO_HEADER_LEN + header.commands_len),
        header.command_count as nat,
        image.len() as u64,
    )->Ok_0
}

/// How many bytes the file gets that a stamp with these sizes makes of the executable `image`.
pub open spec fn grown_len(image: Seq<u8>, sizes: stamp::StampSizes) -> u64 {
    (layout::macho_layout(image)->Ok_0.linkedit_fileoff + sizes.linkedit_filesize) as u64
}

/// Whether the `__LINKEDIT` segment of the executable `image` can take these sizes: the segment
/// does not reach past the address space, nothing is mapped where it grows to, and no section
/// ends behind the file, which can get shorter where a code signature is taken off.
pub open spec fn has_room_to_grow(image: Seq<u8>, sizes: stamp::StampSizes) -> bool {
    let found = layout::macho_layout(image)->Ok_0;
    let ranges = scan_of(image).virtual_ranges;
    &&& found.linkedit_vmaddr + sizes.linkedit_vmsize <= u64::MAX
    &&& linkedit_vmsize(image, found.linkedit_command_offset as int) != 0 || forall|i: int|
        0 <= i < ranges.len() ==> (#[trigger] ranges[i]).1 <= found.linkedit_vmaddr
    &&& image.len() <= grown_len(image, sizes) || all_sections_end_by(
        image.take(found.prefix_len as int),
        MACHO_HEADER_LEN as int,
        found.command_count as nat,
        grown_len(image, sizes),
    )
}

/// What a stamp does to the executable `image`.
pub open spec fn growth_of(image: Seq<u8>, sizes: stamp::StampSizes, stamped_len: u64) -> Growth {
    let found = layout::macho_layout(image)->Ok_0;
    Growth {
        prefix: image.take(found.prefix_len as int),
        found,
        last: scan_of(image),
        file_len: image.len() as u64,
        stamped_len,
        vmsize: sizes.linkedit_vmsize,
        filesize: sizes.linkedit_filesize,
    }
}

/// The sizes of a stamp are those that the file and its `__LINKEDIT` segment get.
proof fn lemma_stamp_sizes(
    image: Seq<u8>,
    header: Seq<u8>,
    bundle: Seq<u8>,
    platform: Seq<char>,
    stamped: Seq<u8>,
)
    requires
        image.len() <= usize::MAX,
        stamped.len() <= usize::MAX,
        stamp::stamped_macho(image, header, bundle, bundle.len() as u64, platform) == Ok::<
            Seq<u8>,
            RuntimeDataError,
        >(stamped),
    ensures
        ({
            let found = layout::macho_layout(image)->Ok_0;
            let sizes = round_trip::sizes_of(image, header, bundle);
            &&& found.linkedit_fileoff + sizes.linkedit_filesize == stamped.len()
            &&& 0 < sizes.linkedit_filesize <= sizes.linkedit_vmsize
            &&& found.max_non_signature_data_end <= sizes.payload_offset
            &&& sizes.payload_offset <= stamped.len()
            &&& found.linkedit_fileoff <= sizes.payload_offset
            &&& stamp::page_size(found.cpu_type) is Some
        }),
{
    let found = layout::macho_layout(image)->Ok_0;
    let sizes = round_trip::sizes_of(image, header, bundle);
    let page = stamp::page_size(found.cpu_type)->0;
    round_trip::lemma_how_it_was_stamped(image, header, bundle, platform, stamped);
    round_trip::lemma_stamped_bytes(image, found, sizes, header, bundle, stamped);
    laws::law_accepted_macho_layout(image, found);
    let base = stamp::unsigned_end(found, image.len() as u64);
    align::lemma_aligned(base as int, MACHO_SIGNATURE_ALIGNMENT as int);
    assert(payload::payload_bytes(header, bundle).len() == header.len() + bundle.len()
        + FOOTER_LEN) by {
        crate::footer::law_footer_round_trip(payload::footer_of(header, bundle));
    }
    align::lemma_aligned(sizes.linkedit_filesize as int, page as int);
}

/// The scan of an accepted executable that ends with its `__LINKEDIT` segment is one that a stamp
/// can go by.
proof fn lemma_stamp_of(
    image: Seq<u8>,
    header: Seq<u8>,
    bundle: Seq<u8>,
    platform: Seq<char>,
    stamped: Seq<u8>,
)
    requires
        image.len() <= usize::MAX,
        stamped.len() <= usize::MAX,
        stamp::stamped_macho(image, header, bundle, bundle.len() as u64, platform) == Ok::<
            Seq<u8>,
            RuntimeDataError,
        >(stamped),
    ensures
        ({
            let found = layout::macho_layout(image)->Ok_0;
            let sizes = round_trip::sizes_of(image, header, bundle);
            let growth = growth_of(image, sizes, stamped.len() as u64);
            &&& grown_len(image, sizes) == stamped.len()
            &&& is_stamp(growth)
            &&& is_on_the_way(growth, macho::initial_scan(), found.command_count as nat)
            &&& 8 * round_trip::stamped_command_count(found) <= round_trip::stamped_commands_len(
                found,
            )
        }),
{
    let found = layout::macho_layout(image)->Ok_0;
    let sizes = round_trip::sizes_of(image, header, bundle);
    let growth = growth_of(image, sizes, stamped.len() as u64);
    let count = found.command_count as nat;
    lemma_stamp_sizes(image, header, bundle, platform, stamped);
    round_trip::lemma_how_it_was_stamped(image, header, bundle, platform, stamped);
    round_trip::lemma_stamped_bytes(image, found, sizes, header, bundle, stamped);
    laws::law_accepted_macho_layout(image, found);
    lemma_commands_add(
        macho::initial_scan(),
        growth.prefix,
        count,
        growth.file_len,
        growth.last,
    );
}

/// Where the segment has room to grow, all sections of the template end within the stamped file.
proof fn lemma_growth_of(
    image: Seq<u8>,
    header: Seq<u8>,
    bundle: Seq<u8>,
    platform: Seq<char>,
    stamped: Seq<u8>,
)
    requires
        image.len() <= usize::MAX,
        stamped.len() <= usize::MAX,
        stamp::stamped_macho(image, header, bundle, bundle.len() as u64, platform) == Ok::<
            Seq<u8>,
            RuntimeDataError,
        >(stamped),
        has_room_to_grow(image, round_trip::sizes_of(image, header, bundle)),
    ensures
        ({
            let found = layout::macho_layout(image)->Ok_0;
            let sizes = round_trip::sizes_of(image, header, bundle);
            let growth = growth_of(image, sizes, stamped.len() as u64);
            &&& is_growth(growth)
            &&& is_on_the_way(growth, macho::initial_scan(), found.command_count as nat)
            &&& all_sections_end_by(
                growth.prefix,
                MACHO_HEADER_LEN as int,
                found.command_count as nat,
                growth.stamped_len,
            )
            &&& 8 * round_trip::stamped_command_count(found) <= round_trip::stamped_commands_len(
                found,
            )
        }),
{
    let found = layout::macho_layout(image)->Ok_0;
    let sizes = round_trip::sizes_of(image, header, bundle);
    let growth = growth_of(image, sizes, stamped.len() as u64);
    lemma_stamp_of(image, header, bundle, platform, stamped);
    if image.len() <= stamped.len() {
        lemma_all_sections_end_in_file(
            macho::initial_scan(),
            growth.prefix,
            found.command_count as nat,
            growth.file_len,
            growth.stamped_len,
        );
    }
}

/// The header of the stamped executable is accepted.
proof fn lemma_stamped_header_is_accepted(
    image: Seq<u8>,
    header: Seq<u8>,
    bundle: Seq<u8>,
    sizes: stamp::StampSizes,
    stamped: Seq<u8>,
)
    requires
        round_trip::is_stamped(
            image,
            layout::macho_layout(image)->Ok_0,
            sizes,
            header,
            bundle,
            stamped,
        ),
        8 * round_trip::stamped_command_count(layout::macho_layout(image)->Ok_0)
            <= round_trip::stamped_commands_len(layout::macho_layout(image)->Ok_0),
    ensures
        ({
            let found = layout::macho_layout(image)->Ok_0;
            &&& layout::macho_header_error(stamped) is None
            &&& layout::macho_header(stamped) == (layout::MachoHeader {
                command_count: round_trip::stamped_command_count(found),
                commands_len: round_trip::stamped_commands_len(found),
                ..layout::macho_header(image)
            })
            &&& stamped.take(MACHO_HEADER_LEN + round_trip::stamped_commands_len(found))
                == round_trip::stamped_commands(
                image.take(found.prefix_len as int),
                found,
                sizes.linkedit_vmsize,
                sizes.linkedit_filesize,
            )
        }),
{
    let found = layout::macho_layout(image)->Ok_0;
    let prefix = image.take(found.prefix_len as int);
    round_trip::lemma_stamped_bytes(image, found, sizes, header, bundle, stamped);
    laws::law_accepted_macho_layout(image, found);
    layout::lemma_header_of_prefix(image, found.prefix_len as int);
    round_trip::lemma_stamped_header(
        prefix,
        found,
        sizes.linkedit_vmsize,
        sizes.linkedit_filesize,
        stamped,
    );
    assert forall|i: int| 0 <= i < 4 implies #[trigger] stamped[i] == image[i] by {
        assert(stamped.subrange(0, 16)[i] == prefix.subrange(0, 16)[i]);
    }
}

/// The load commands of the stamped executable add up to a layout.
proof fn lemma_grown_scan_is_accepted(
    growth: Growth,
    header: layout::MachoHeader,
    stamped_header: layout::MachoHeader,
    stamped: MachoScanView,
)
    requires
        is_growth(growth),
        are_alike(growth, growth.last, 0, stamped, 0),
        growth.last.command_offset == growth.found.prefix_len,
        layout::scanned_layout(growth.last, header, growth.file_len) == Ok::<
            MachOLayout,
            RuntimeDataError,
        >(growth.found),
        stamped_header == (layout::MachoHeader {
            command_count: round_trip::stamped_command_count(growth.found),
            commands_len: round_trip::stamped_commands_len(growth.found),
            ..header
        }),
        growth.found.max_non_signature_data_end <= growth.stamped_len,
        linkedit_vmsize(growth.prefix, growth.found.linkedit_command_offset as int) != 0
            || forall|i: int|
            0 <= i < growth.last.virtual_ranges.len() ==> (
            #[trigger] growth.last.virtual_ranges[i]).1 <= growth.found.linkedit_vmaddr,
    ensures
        layout::scanned_layout(stamped, stamped_header, growth.stamped_len) matches Ok(grown) && {
            &&& grown.cpu_type == growth.found.cpu_type
            &&& grown.code_signature is None
            &&& grown.prefix_len <= growth.found.prefix_len
            &&& grown.linkedit_fileoff == growth.found.linkedit_fileoff
            &&& grown.linkedit_filesize == growth.filesize
            &&& grown.linkedit_vmaddr == growth.found.linkedit_vmaddr
            &&& grown.max_segment_fileoff == growth.last.max_segment_fileoff
            &&& grown.max_segment_vmaddr == growth.last.max_segment_vmaddr
        },
{
    let found = growth.found;
    let last = growth.last;
    lemma_grown_ranges_do_not_overlap(
        last.segment_ranges,
        stamped.segment_ranges,
        found.linkedit_filesize != 0,
        (found.linkedit_fileoff, growth.stamped_len),
    );
    lemma_grown_ranges_do_not_overlap(
        last.virtual_ranges,
        stamped.virtual_ranges,
        linkedit_vmsize(growth.prefix, found.linkedit_command_offset as int) != 0,
        (found.linkedit_vmaddr, (found.linkedit_vmaddr + growth.vmsize) as u64),
    );
    lemma_link_edit_data_is_accepted(
        last.referenced_ranges,
        0,
        0,
        last.linkedit->0,
        growth.file_len,
        found.max_non_signature_data_end,
        stamped.linkedit->0,
        growth.stamped_len,
    );
}

/// The layout of the stamped executable is accepted.
proof fn lemma_stamped_layout_is_accepted(
    image: Seq<u8>,
    header: Seq<u8>,
    bundle: Seq<u8>,
    sizes: stamp::StampSizes,
    stamped: Seq<u8>,
    growth: Growth,
)
    requires
        round_trip::is_stamped(image, growth.found, sizes, header, bundle, stamped),
        stamped.len() <= usize::MAX,
        growth == growth_of(image, sizes, stamped.len() as u64),
        is_growth(growth),
        is_on_the_way(growth, macho::initial_scan(), growth.found.command_count as nat),
        all_sections_end_by(
            growth.prefix,
            MACHO_HEADER_LEN as int,
            growth.found.command_count as nat,
            growth.stamped_len,
        ),
        8 * round_trip::stamped_command_count(growth.found) <= round_trip::stamped_commands_len(
            growth.found,
        ),
        growth.found.max_non_signature_data_end <= growth.stamped_len,
        linkedit_vmsize(growth.prefix, growth.found.linkedit_command_offset as int) != 0
            || forall|i: int|
            0 <= i < growth.last.virtual_ranges.len() ==> (
            #[trigger] growth.last.virtual_ranges[i]).1 <= growth.found.linkedit_vmaddr,
    ensures
        layout::macho_layout(stamped) matches Ok(grown) && {
            &&& grown.cpu_type == growth.found.cpu_type
            &&& grown.code_signature is None
            &&& grown.linkedit_fileoff == growth.found.linkedit_fileoff
            &&& final_layout::final_layout_error(grown, stamped.len() as u64) is None
        },
{
    let found = growth.found;
    let initial = macho::initial_scan();
    let count = round_trip::stamped_command_count(found) as nat;
    laws::law_accepted_macho_layout(image, found);
    assert(are_alike(growth, initial, found.command_count as nat, initial, count));
    lemma_commands_are_accepted(growth, initial, found.command_count as nat, initial, count);
    let grown_scan = layout::scan_commands(
        initial,
        grown_commands(growth),
        count,
        growth.stamped_len,
    )->Ok_0;
    let grown_header = layout::MachoHeader {
        command_count: round_trip::stamped_command_count(found),
        commands_len: round_trip::stamped_commands_len(found),
        ..layout::macho_header(image)
    };
    lemma_grown_scan_is_accepted(
        growth,
        layout::macho_header(image),
        grown_header,
        grown_scan,
    );
    lemma_stamped_header_is_accepted(image, header, bundle, sizes, stamped);
    assert(layout::macho_layout(stamped) == layout::scanned_layout(
        grown_scan,
        grown_header,
        growth.stamped_len,
    ));
}

/// The size in memory of the `__LINKEDIT` segment is read from the load commands.
proof fn lemma_vmsize_of_prefix(image: Seq<u8>, found: MachOLayout)
    requires
        image.len() <= usize::MAX,
        layout::macho_layout(image) == Ok::<MachOLayout, RuntimeDataError>(found),
    ensures
        linkedit_vmsize(
            image.take(found.prefix_len as int),
            found.linkedit_command_offset as int,
        ) == linkedit_vmsize(image, found.linkedit_command_offset as int),
{
    let prefix = image.take(found.prefix_len as int);
    let at = found.linkedit_command_offset as int;
    laws::law_accepted_macho_layout(image, found);
    assert(prefix.subrange(at + 32, at + 40) =~= image.subrange(at + 32, at + 40));
    bytes::lemma_le_u64_window(prefix, at + 32, image, at + 32);
}

/// A payload that ends the `__LINKEDIT` segment of an unsigned executable, and with it the file, is
/// found.
proof fn lemma_payload_is_found(
    stamped: Seq<u8>,
    grown: MachOLayout,
    header: Seq<u8>,
    bundle: Seq<u8>,
)
    requires
        stamped.len() <= usize::MAX,
        header.len() <= MAX_HEADER_LEN,
        layout::macho_layout(stamped) == Ok::<MachOLayout, RuntimeDataError>(grown),
        grown.code_signature is None,
        final_layout::final_layout_error(grown, stamped.len() as u64) is None,
        stamp::page_size(grown.cpu_type) is Some,
        grown.linkedit_fileoff + payload::payload_bytes(header, bundle).len() <= stamped.len(),
        stamped.skip(stamped.len() - payload::payload_bytes(header, bundle).len())
            == payload::payload_bytes(header, bundle),
    ensures
        runtime_reader::macho_runtime_data(stamped) is Ok,
{
    let search = FooterSearchSpec {
        data_end: stamped.len() as u64,
        alignment: 1,
        minimum_payload_offset: grown.linkedit_fileoff,
    };
    crate::footer::law_footer_round_trip(payload::footer_of(header, bundle));
    round_trip::lemma_payload_at_end(
        stamped,
        Target::MachO { cpu_type: grown.cpu_type, cpu_subtype: grown.cpu_subtype },
        search,
        header,
        bundle,
    );
}

/// The layout of a stamped executable whose segment had room to grow is accepted.
proof fn lemma_grown_layout(
    image: Seq<u8>,
    header: Seq<u8>,
    bundle: Seq<u8>,
    platform: Seq<char>,
    stamped: Seq<u8>,
)
    requires
        image.len() <= usize::MAX,
        stamped.len() <= usize::MAX,
        stamp::stamped_macho(image, header, bundle, bundle.len() as u64, platform) == Ok::<
            Seq<u8>,
            RuntimeDataError,
        >(stamped),
        has_room_to_grow(image, round_trip::sizes_of(image, header, bundle)),
    ensures
        layout::macho_layout(stamped) matches Ok(grown) && {
            &&& grown.code_signature is None
            &&& final_layout::final_layout_error(grown, stamped.len() as u64) is None
            &&& stamp::page_size(grown.cpu_type) is Some
            &&& grown.linkedit_fileoff + payload::payload_bytes(header, bundle).len()
                <= stamped.len()
        },
        stamped.skip(stamped.len() - payload::payload_bytes(header, bundle).len())
            == payload::payload_bytes(header, bundle),
{
    let found = layout::macho_layout(image)->Ok_0;
    let sizes = round_trip::sizes_of(image, header, bundle);
    let growth = growth_of(image, sizes, stamped.len() as u64);
    lemma_growth_of(image, header, bundle, platform, stamped);
    lemma_stamp_sizes(image, header, bundle, platform, stamped);
    round_trip::lemma_how_it_was_stamped(image, header, bundle, platform, stamped);
    round_trip::lemma_stamped_bytes(image, found, sizes, header, bundle, stamped);
    lemma_vmsize_of_prefix(image, found);
    lemma_stamped_layout_is_accepted(image, header, bundle, sizes, stamped, growth);
}

/// A stamped Mach-O executable can be read, and reads back as it was stamped, where the
/// `__LINKEDIT` segment of its template has room to grow.
pub proof fn law_stamped_macho_can_be_read(
    image: Seq<u8>,
    header: Seq<u8>,
    bundle: Seq<u8>,
    platform: Seq<char>,
    stamped: Seq<u8>,
)
    requires
        image.len() <= usize::MAX,
        stamped.len() <= usize::MAX,
        header.len() <= MAX_HEADER_LEN,
        stamp::stamped_macho(image, header, bundle, bundle.len() as u64, platform) == Ok::<
            Seq<u8>,
            RuntimeDataError,
        >(stamped),
        has_room_to_grow(image, round_trip::sizes_of(image, header, bundle)),
    ensures
        runtime_reader::macho_runtime_data(stamped) == Ok::<Option<LocatedView>, RuntimeDataError>(
            Some(
                runtime_reader::stamped_data(
                    Target::MachO {
                        cpu_type: layout::macho_layout(image)->Ok_0.cpu_type,
                        cpu_subtype: layout::macho_layout(image)->Ok_0.cpu_subtype,
                    },
                    header,
                    bundle,
                    stamped.len() - FOOTER_LEN - bundle.len(),
                ),
            ),
        ),
        stamped.subrange(
            stamped.len() - FOOTER_LEN - bundle.len(),
            stamped.len() - FOOTER_LEN,
        ) == bundle,
        layout::macho_layout(stamped) matches Ok(grown) && {
            &&& grown.code_signature is None
            &&& grown.linkedit_fileoff + grown.linkedit_filesize == stamped.len()
        },
{
    lemma_grown_layout(image, header, bundle, platform, stamped);
    let grown = layout::macho_layout(stamped)->Ok_0;
    lemma_payload_is_found(stamped, grown, header, bundle);
    round_trip::law_stamped_macho_reads_back(image, header, bundle, platform, stamped);
}

/// Where the load commands of the stamped executable are accepted, all sections end within its
/// file, and its `__LINKEDIT` segment does not reach past the address space.
proof fn lemma_accepted_commands_have_room(
    growth: Growth,
    scan: MachoScanView,
    count: nat,
    stamped: MachoScanView,
    stamped_count: nat,
)
    requires
        is_stamp(growth),
        is_on_the_way(growth, scan, count),
        round_trip::is_as_far(growth.found, scan, count, stamped, stamped_count),
        scan.linkedit is Some ==> scan.linkedit == growth.last.linkedit,
        layout::scan_commands(
            stamped,
            grown_commands(growth),
            stamped_count,
            growth.stamped_len,
        ) is Ok,
    ensures
        all_sections_end_by(
            growth.prefix,
            scan.command_offset as int,
            count,
            growth.stamped_len,
        ),
        scan.linkedit is None ==> growth.found.linkedit_vmaddr + growth.vmsize <= u64::MAX,
    decreases count,
{
    let prefix = growth.prefix;
    let file_len = growth.file_len;
    let last = growth.last;
    let command_end = prefix.len() as u64;
    round_trip::lemma_positions(scan, prefix, count, file_len, last);
    if count > 0 {
        let rest = (count - 1) as nat;
        let offset = scan.command_offset as int;
        let raw = round_trip::command_at(prefix, offset);
        let next = command::scan_command(scan, raw, file_len, command_end)->Ok_0;
        laws::lemma_command_keeps_scan_sound(scan, raw, file_len, command_end, next);
        round_trip::lemma_command_effect(scan, raw, file_len, command_end, next);
        lemma_command_adds(scan, raw, file_len, command_end, next);
        round_trip::lemma_positions(next, prefix, rest, file_len, last);
        if bytes::le_u32(raw, 0) == LC_CODE_SIGNATURE {
            lemma_accepted_commands_have_room(growth, next, rest, stamped, stamped_count);
        } else {
            round_trip::lemma_same_command(
                prefix,
                growth.found,
                growth.vmsize,
                growth.filesize,
                scan,
                next,
                file_len,
                last,
                count,
            );
            if stamped_count == 0 {
                assert(count == 1);
                assert(last == next);
            }
            let commands = grown_commands(growth);
            let stamped_raw = round_trip::command_at(commands, stamped.command_offset as int);
            let stamped_next = command::scan_command(
                stamped,
                stamped_raw,
                growth.stamped_len,
                commands.len() as u64,
            )->Ok_0;
            assert(stamped_raw =~= commands.subrange(
                stamped.command_offset as int,
                stamped.command_offset + raw.len(),
            ));
            lemma_accepted_command_has_room(growth, scan, count, stamped, raw, stamped_raw);
            lemma_accepted_commands_have_room(
                growth,
                next,
                rest,
                stamped_next,
                (stamped_count - 1) as nat,
            );
        }
    }
}

/// Where a load command of the stamped executable is accepted, its sections end within the file,
/// and its segment does not reach past the address space.
proof fn lemma_accepted_command_has_room(
    growth: Growth,
    scan: MachoScanView,
    count: nat,
    stamped: MachoScanView,
    raw: Seq<u8>,
    stamped_raw: Seq<u8>,
)
    requires
        is_stamp(growth),
        is_on_the_way(growth, scan, count),
        count > 0,
        scan.linkedit is Some ==> scan.linkedit == growth.last.linkedit,
        raw == round_trip::command_at(growth.prefix, scan.command_offset as int),
        scan.command_offset + raw.len() <= growth.prefix.len(),
        stamped.command_offset == round_trip::stamped_offset(
            growth.found,
            scan.command_offset as int,
        ),
        stamped.command_offset + raw.len() <= grown_commands(growth).len(),
        stamped_raw.len() == raw.len(),
        stamped_raw == grown_commands(growth).subrange(
            stamped.command_offset as int,
            stamped.command_offset + raw.len(),
        ),
        bytes::le_u32(stamped_raw, 0) == bytes::le_u32(raw, 0),
        scan.command_offset != growth.found.linkedit_command_offset ==> stamped_raw == raw,
        command::scan_command(
            stamped,
            stamped_raw,
            growth.stamped_len,
            grown_commands(growth).len() as u64,
        ) is Ok,
    ensures
        bytes::le_u32(raw, 0) == LC_SEGMENT_64 ==> sections_end_by(raw, growth.stamped_len),
        bytes::le_u32(raw, 0) == LC_SEGMENT_64 && scan.command_offset
            == growth.found.linkedit_command_offset ==> growth.found.linkedit_vmaddr
            + growth.vmsize <= u64::MAX,
{
    if bytes::le_u32(raw, 0) == LC_SEGMENT_64 {
        assert(segment::scan_segment(
            stamped,
            stamped_raw,
            growth.stamped_len,
            grown_commands(growth).len() as u64,
        ) is Ok);
        if scan.command_offset == growth.found.linkedit_command_offset {
            lemma_accepted_linkedit_has_room(growth, scan, count, stamped, raw, stamped_raw);
        } else {
            let mapped = segment::with_segment_ranges(stamped, segment::segment_fields(raw));
            lemma_sections_end_in_file(mapped, raw, 0, growth.stamped_len);
        }
    }
}

/// Where the `__LINKEDIT` segment of the stamped executable is accepted, it does not reach past the
/// address space.
proof fn lemma_accepted_linkedit_has_room(
    growth: Growth,
    scan: MachoScanView,
    count: nat,
    stamped: MachoScanView,
    raw: Seq<u8>,
    stamped_raw: Seq<u8>,
)
    requires
        is_stamp(growth),
        is_on_the_way(growth, scan, count),
        count > 0,
        scan.linkedit is Some ==> scan.linkedit == growth.last.linkedit,
        raw == round_trip::command_at(growth.prefix, scan.command_offset as int),
        bytes::le_u32(raw, 0) == LC_SEGMENT_64,
        scan.command_offset == growth.found.linkedit_command_offset,
        scan.command_offset + raw.len() <= growth.prefix.len(),
        stamped.command_offset == round_trip::stamped_offset(
            growth.found,
            scan.command_offset as int,
        ),
        stamped.command_offset + raw.len() <= grown_commands(growth).len(),
        stamped_raw.len() == raw.len(),
        stamped_raw == grown_commands(growth).subrange(
            stamped.command_offset as int,
            stamped.command_offset + raw.len(),
        ),
        segment::scan_segment(
            stamped,
            stamped_raw,
            growth.stamped_len,
            grown_commands(growth).len() as u64,
        ) is Ok,
    ensures
        sections_end_by(raw, growth.stamped_len),
        growth.found.linkedit_vmaddr + growth.vmsize <= u64::MAX,
{
    let offset = scan.command_offset as int;
    let next = command::scan_command(
        scan,
        raw,
        growth.file_len,
        growth.prefix.len() as u64,
    )->Ok_0;
    lemma_linkedit_is_here(growth, scan, count, raw, next);
    assert(raw =~= growth.prefix.subrange(offset, offset + raw.len()));
    lemma_linkedit_command(growth);
    assert(segment::segment_error(
        stamped,
        segment::segment_fields(stamped_raw),
        growth.stamped_len,
        grown_commands(growth).len() as u64,
    ) is None);
    assert(segment::segment_fields(stamped_raw).section_count == 0);
    assert(object_file::segment_section_count(raw) == 0);
}

/// Where the ranges do not overlap once the highest of them has come to them, none of the others
/// reaches into it.
proof fn lemma_nothing_reaches_in(old: Seq<(u64, u64)>, new: Seq<(u64, u64)>, item: (u64, u64))
    requires
        have_grown(old, new, false, item),
        !layout::any_overlap(new),
        item.0 < item.1,
        forall|i: int| 0 <= i < old.len() ==> (#[trigger] old[i]).0 <= item.0,
    ensures
        forall|i: int| 0 <= i < old.len() ==> (#[trigger] old[i]).1 <= item.0,
{
    let at = choose|at: int| has_grown(old, new, at, false, item);
    assert(new[at] == item);
    assert forall|i: int| 0 <= i < old.len() implies (#[trigger] old[i]).1 <= item.0 by {
        if i < at {
            assert(new[i] == old[i]);
            assert(!layout::overlap(new[i], new[at]));
        } else {
            assert(new[i + 1] == old[i]);
            assert(!layout::overlap(new[at], new[i + 1]));
        }
    }
}

/// Where the layout of a stamped Mach-O executable is accepted, the `__LINKEDIT` segment of its
/// template had room to grow.
pub proof fn law_readable_macho_had_room(
    image: Seq<u8>,
    header: Seq<u8>,
    bundle: Seq<u8>,
    platform: Seq<char>,
    stamped: Seq<u8>,
)
    requires
        image.len() <= usize::MAX,
        stamped.len() <= usize::MAX,
        stamp::stamped_macho(image, header, bundle, bundle.len() as u64, platform) == Ok::<
            Seq<u8>,
            RuntimeDataError,
        >(stamped),
        layout::macho_layout(stamped) is Ok,
    ensures
        has_room_to_grow(image, round_trip::sizes_of(image, header, bundle)),
{
    let found = layout::macho_layout(image)->Ok_0;
    let sizes = round_trip::sizes_of(image, header, bundle);
    let growth = growth_of(image, sizes, stamped.len() as u64);
    lemma_stamp_of(image, header, bundle, platform, stamped);
    round_trip::lemma_how_it_was_stamped(image, header, bundle, platform, stamped);
    lemma_vmsize_of_prefix(image, found);
    lemma_accepted_layout_has_room(image, header, bundle, sizes, stamped, growth);
}

/// Where the layout of the stamped executable is accepted, its segment had room to grow.
proof fn lemma_accepted_layout_has_room(
    image: Seq<u8>,
    header: Seq<u8>,
    bundle: Seq<u8>,
    sizes: stamp::StampSizes,
    stamped: Seq<u8>,
    growth: Growth,
)
    requires
        round_trip::is_stamped(image, growth.found, sizes, header, bundle, stamped),
        stamped.len() <= usize::MAX,
        growth == growth_of(image, sizes, stamped.len() as u64),
        is_stamp(growth),
        is_on_the_way(growth, macho::initial_scan(), growth.found.command_count as nat),
        8 * round_trip::stamped_command_count(growth.found) <= round_trip::stamped_commands_len(
            growth.found,
        ),
        layout::macho_layout(stamped) is Ok,
    ensures
        growth.found.linkedit_vmaddr + growth.vmsize <= u64::MAX,
        all_sections_end_by(
            growth.prefix,
            MACHO_HEADER_LEN as int,
            growth.found.command_count as nat,
            growth.stamped_len,
        ),
        linkedit_vmsize(growth.prefix, growth.found.linkedit_command_offset as int) != 0
            || forall|i: int|
            0 <= i < growth.last.virtual_ranges.len() ==> (
            #[trigger] growth.last.virtual_ranges[i]).1 <= growth.found.linkedit_vmaddr,
{
    let found = growth.found;
    let initial = macho::initial_scan();
    let count = round_trip::stamped_command_count(found) as nat;
    laws::law_accepted_macho_layout(image, found);
    lemma_stamped_header_is_accepted(image, header, bundle, sizes, stamped);
    let result = layout::scan_commands(
        initial,
        grown_commands(growth),
        count,
        growth.stamped_len,
    );
    assert(result is Ok);
    lemma_accepted_commands_have_room(
        growth,
        initial,
        found.command_count as nat,
        initial,
        count,
    );
    assert(are_alike(growth, initial, found.command_count as nat, initial, count));
    lemma_commands_are_accepted(growth, initial, found.command_count as nat, initial, count);
    assert(!layout::any_overlap(result->Ok_0.virtual_ranges));
    if linkedit_vmsize(growth.prefix, found.linkedit_command_offset as int) == 0 {
        lemma_nothing_reaches_in(
            growth.last.virtual_ranges,
            result->Ok_0.virtual_ranges,
            (found.linkedit_vmaddr, (found.linkedit_vmaddr + growth.vmsize) as u64),
        );
    }
}

} // verus!
