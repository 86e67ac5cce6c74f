//! What holds of every Mach-O executable whose layout is accepted.

use vstd::prelude::*;

use crate::error::RuntimeDataError;
use crate::macho;
use crate::macho::command;
use crate::macho::layout;
use crate::macho::segment;
use crate::macho::{
    LinkeditSegment, MachOLayout, MachoScanView, LC_SEGMENT_64, MACHO_CODE_SIGNATURE_LEN,
};
use crate::object_file;
use crate::object_file::{MACHO_HEADER_LEN, SEGMENT_COMMAND_LEN};

verus! {

/// What the load commands read so far keep to.
pub open spec fn is_sound_scan(scan: MachoScanView, file_len: u64) -> bool {
    &&& MACHO_HEADER_LEN <= scan.command_offset
    &&& scan.linkedit matches Some(linkedit) ==> {
        &&& MACHO_HEADER_LEN <= linkedit.command_offset
        &&& linkedit.command_offset + SEGMENT_COMMAND_LEN <= scan.command_offset
        &&& linkedit.fileoff + linkedit.filesize <= file_len
        &&& linkedit.fileoff <= scan.max_segment_fileoff
        &&& linkedit.vmaddr <= scan.max_segment_vmaddr
    }
    &&& scan.code_signature matches Some((at, offset, size)) ==> {
        &&& MACHO_HEADER_LEN <= at
        &&& at + MACHO_CODE_SIGNATURE_LEN <= scan.command_offset
        &&& offset <= u32::MAX
        &&& size <= u32::MAX
    }
    &&& scan.linkedit matches Some(linkedit) ==> (scan.code_signature matches Some((at, _, _)) ==> {
        ||| at + MACHO_CODE_SIGNATURE_LEN <= linkedit.command_offset
        ||| linkedit.command_offset + SEGMENT_COMMAND_LEN <= at
    })
}

/// Whether the two scans agree on all that sections leave as it is.
pub open spec fn same_but_for_sections(left: MachoScanView, right: MachoScanView) -> bool {
    &&& left.command_offset == right.command_offset
    &&& left.linkedit == right.linkedit
    &&& left.max_segment_vmaddr == right.max_segment_vmaddr
    &&& left.max_segment_fileoff == right.max_segment_fileoff
    &&& left.code_signature == right.code_signature
    &&& left.segment_ranges == right.segment_ranges
    &&& left.virtual_ranges == right.virtual_ranges
    &&& left.has_macos_platform_command == right.has_macos_platform_command
    &&& left.entry_point == right.entry_point
    &&& left.text_segment_count == right.text_segment_count
    &&& left.dylinker_count == right.dylinker_count
}

/// Sections leave alone what is said of segments and of other commands.
pub proof fn lemma_sections_leave_the_rest(
    scan: MachoScanView,
    raw: Seq<u8>,
    index: int,
    file_len: u64,
    last: MachoScanView,
)
    requires
        segment::scan_sections(scan, raw, index, file_len) == Ok::<
            MachoScanView,
            RuntimeDataError,
        >(last),
    ensures
        same_but_for_sections(scan, last),
    decreases object_file::segment_section_count(raw) - index,
{
    if index < object_file::segment_section_count(raw) {
        let next = segment::scan_section(scan, raw, index, file_len)->Ok_0;
        lemma_sections_leave_the_rest(next, raw, index + 1, file_len, last);
    }
}

/// A load command that is accepted keeps the scan sound.
pub proof fn lemma_command_keeps_scan_sound(
    scan: MachoScanView,
    raw: Seq<u8>,
    file_len: u64,
    command_end: u64,
    next: MachoScanView,
)
    requires
        is_sound_scan(scan, file_len),
        scan.command_offset + raw.len() <= usize::MAX,
        command::scan_command(scan, raw, file_len, command_end) == Ok::<
            MachoScanView,
            RuntimeDataError,
        >(next),
    ensures
        is_sound_scan(next, file_len),
        next.command_offset == scan.command_offset + raw.len(),
{
    let kind = crate::bytes::le_u32(raw, 0);
    if kind == LC_SEGMENT_64 {
        let fields = segment::segment_fields(raw);
        let mapped = segment::with_segment_ranges(scan, fields);
        let sections = segment::scan_sections(mapped, raw, 0, file_len)->Ok_0;
        lemma_sections_leave_the_rest(mapped, raw, 0, file_len, sections);
    }
}

/// Load commands that are accepted keep the scan sound.
pub proof fn lemma_commands_keep_scan_sound(
    scan: MachoScanView,
    prefix: Seq<u8>,
    count: nat,
    file_len: u64,
    last: MachoScanView,
)
    requires
        is_sound_scan(scan, file_len),
        scan.command_offset <= prefix.len() <= usize::MAX,
        layout::scan_commands(scan, prefix, count, file_len) == Ok::<
            MachoScanView,
            RuntimeDataError,
        >(last),
    ensures
        is_sound_scan(last, file_len),
        scan.command_offset <= last.command_offset <= prefix.len(),
        count == 0 ==> last == scan,
    decreases count,
{
    if count > 0 {
        let table = prefix.skip(scan.command_offset as int);
        let raw = table.take(object_file::load_command_size(table) as int);
        let next = command::scan_command(scan, raw, file_len, prefix.len() as u64)->Ok_0;
        lemma_command_keeps_scan_sound(scan, raw, file_len, prefix.len() as u64, next);
        lemma_commands_keep_scan_sound(next, prefix, (count - 1) as nat, file_len, last);
    }
}

/// Link-edit data that is accepted lies in the `__LINKEDIT` segment.
pub proof fn lemma_referenced_end(
    ranges: Seq<(u64, u64)>,
    index: int,
    floor: u64,
    linkedit: LinkeditSegment,
    file_len: u64,
    end: u64,
)
    requires
        0 <= index,
        layout::referenced_end(ranges, index, floor, linkedit, file_len) == Ok::<
            u64,
            RuntimeDataError,
        >(end),
        floor <= linkedit.fileoff + linkedit.filesize,
    ensures
        floor <= end <= linkedit.fileoff + linkedit.filesize,
        forall|i: int|
            index <= i < ranges.len() ==> linkedit.fileoff <= (#[trigger] ranges[i]).0
                && ranges[i].0 + ranges[i].1 <= end,
    decreases ranges.len() - index,
{
    if index < ranges.len() {
        let (offset, size) = ranges[index];
        let reached = (offset + size) as u64;
        let next = if reached > floor {
            reached
        } else {
            floor
        };
        lemma_referenced_end(ranges, index + 1, next, linkedit, file_len, end);
    }
}

/// In an accepted executable the header and the load commands lie in the file and the commands
/// fill the declared bytes, sections start behind them, the `__LINKEDIT` segment lies in the file
/// and holds all link-edit data, and the commands of the segment and of the code signature are
/// two separate ones.
pub proof fn law_accepted_macho_layout(image: Seq<u8>, found: MachOLayout)
    requires
        image.len() <= usize::MAX,
        layout::macho_layout(image) == Ok::<MachOLayout, RuntimeDataError>(found),
    ensures
        found.prefix_len == MACHO_HEADER_LEN + found.commands_len,
        found.prefix_len <= image.len(),
        found.command_count >= 1,
        found.first_section_offset matches Some(first) ==> found.prefix_len <= first
            <= image.len(),
        found.linkedit_fileoff + found.linkedit_filesize <= image.len(),
        found.linkedit_fileoff <= found.max_segment_fileoff,
        found.linkedit_vmaddr <= found.max_segment_vmaddr,
        found.max_non_signature_data_end <= found.linkedit_fileoff + found.linkedit_filesize,
        MACHO_HEADER_LEN <= found.linkedit_command_offset,
        found.linkedit_command_offset + SEGMENT_COMMAND_LEN <= found.prefix_len,
        found.code_signature matches Some((at, _, _)) ==> {
            &&& MACHO_HEADER_LEN <= at
            &&& at + MACHO_CODE_SIGNATURE_LEN <= found.prefix_len
            &&& {
                ||| at + MACHO_CODE_SIGNATURE_LEN <= found.linkedit_command_offset
                ||| found.linkedit_command_offset + SEGMENT_COMMAND_LEN <= at
            }
        },
{
    let header = layout::macho_header(image);
    let prefix = image.take(MACHO_HEADER_LEN + header.commands_len);
    let file_len = image.len() as u64;
    let scan = layout::scan_commands(
        macho::initial_scan(),
        prefix,
        header.command_count as nat,
        file_len,
    )->Ok_0;
    lemma_commands_keep_scan_sound(
        macho::initial_scan(),
        prefix,
        header.command_count as nat,
        file_len,
        scan,
    );
    lemma_referenced_end(
        scan.referenced_ranges,
        0,
        0,
        scan.linkedit->0,
        file_len,
        found.max_non_signature_data_end,
    );
}

} // verus!
