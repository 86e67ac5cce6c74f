//! A stamped Mach-O executable reads back as it was stamped.

use vstd::prelude::*;

use crate::align;
use crate::bytes;
use crate::error::RuntimeDataError;
use crate::footer;
use crate::footer::FOOTER_LEN;
use crate::macho;
use crate::macho::command;
use crate::macho::laws;
use crate::macho::layout;
use crate::macho::segment;
use crate::macho::stamp;
use crate::macho::{
    MachOLayout, MachoScanView, LC_CODE_SIGNATURE, LC_SEGMENT_64, MACHO_CODE_SIGNATURE_LEN,
    MACHO_SIGNATURE_ALIGNMENT,
};
use crate::object_file;
use crate::object_file::{MACHO_HEADER_LEN, SEGMENT_COMMAND_LEN};
use crate::payload;
use crate::runtime_reader;
use crate::runtime_reader::{FooterSearchSpec, LocatedView, Target, MAX_HEADER_LEN};

verus! {

/// Where the command of the code signature and that of the `__LINKEDIT` segment come to lie
/// among the load commands.
pub proof fn lemma_positions(
    scan: MachoScanView,
    prefix: Seq<u8>,
    count: nat,
    file_len: u64,
    last: MachoScanView,
)
    requires
        laws::is_sound_scan(scan, file_len),
        scan.command_offset <= prefix.len() <= usize::MAX,
        layout::scan_commands(scan, prefix, count, file_len) == Ok::<
            MachoScanView,
            RuntimeDataError,
        >(last),
    ensures
        match scan.code_signature {
            Some(_) => last.code_signature == scan.code_signature,
            None => last.code_signature matches Some((at, _, _)) ==> scan.command_offset <= at,
        },
        match scan.linkedit {
            Some(_) => last.linkedit == scan.linkedit,
            None => last.linkedit matches Some(linkedit) ==> scan.command_offset
                <= linkedit.command_offset,
        },
    decreases count,
{
    if count > 0 {
        let table = prefix.skip(scan.command_offset as int);
        let raw = table.take(object_file::load_command_size(table) as int);
        let next = command::scan_command(scan, raw, file_len, prefix.len() as u64)->Ok_0;
        laws::lemma_command_keeps_scan_sound(scan, raw, file_len, prefix.len() as u64, next);
        lemma_command_effect(scan, raw, file_len, prefix.len() as u64, next);
        lemma_positions(next, prefix, (count - 1) as nat, file_len, last);
    }
}

/// Only a code signature command sets the code signature, and only a segment command sets the
/// `__LINKEDIT` segment; neither replaces the other.
pub proof fn lemma_command_effect(
    scan: MachoScanView,
    raw: Seq<u8>,
    file_len: u64,
    command_end: u64,
    next: MachoScanView,
)
    requires
        command::scan_command(scan, raw, file_len, command_end) == Ok::<
            MachoScanView,
            RuntimeDataError,
        >(next),
    ensures
        bytes::le_u32(raw, 0) == LC_CODE_SIGNATURE ==> scan.code_signature is None && raw.len()
            == MACHO_CODE_SIGNATURE_LEN && next.linkedit == scan.linkedit && (
        next.code_signature matches Some((at, _, _)) && at == scan.command_offset),
        bytes::le_u32(raw, 0) != LC_CODE_SIGNATURE ==> next.code_signature == scan.code_signature,
        next.linkedit != scan.linkedit ==> {
            &&& bytes::le_u32(raw, 0) == LC_SEGMENT_64
            &&& scan.linkedit is None
            &&& next.linkedit matches Some(linkedit) && linkedit.command_offset
                == scan.command_offset
            &&& raw.len() == SEGMENT_COMMAND_LEN
        },
        raw.len() % 8 == 0,
{
    if bytes::le_u32(raw, 0) == LC_SEGMENT_64 {
        let fields = segment::segment_fields(raw);
        let mapped = segment::with_segment_ranges(scan, fields);
        let sections = segment::scan_sections(mapped, raw, 0, file_len)->Ok_0;
        laws::lemma_sections_leave_the_rest(mapped, raw, 0, file_len, sections);
    }
}

/// Where a load command that starts at `offset` starts in the stamped executable.
pub open spec fn stamped_offset(found: MachOLayout, offset: int) -> int {
    match found.code_signature {
        Some((at, _, _)) if at < offset => offset - MACHO_CODE_SIGNATURE_LEN,
        _ => offset,
    }
}

/// How many load commands the stamped executable has.
pub open spec fn stamped_command_count(found: MachOLayout) -> u32 {
    if found.code_signature is Some {
        (found.command_count - 1) as u32
    } else {
        found.command_count
    }
}

/// How many bytes the load commands of the stamped executable take.
pub open spec fn stamped_commands_len(found: MachOLayout) -> u32 {
    if found.code_signature is Some {
        (found.commands_len - MACHO_CODE_SIGNATURE_LEN) as u32
    } else {
        found.commands_len
    }
}

/// Whether `found` is laid out as that of an accepted executable with this header and these load
/// commands.
pub open spec fn is_layout_of_prefix(prefix: Seq<u8>, found: MachOLayout) -> bool {
    &&& prefix.len() == found.prefix_len
    &&& found.prefix_len == MACHO_HEADER_LEN + found.commands_len
    &&& found.command_count >= 1
    &&& MACHO_HEADER_LEN <= found.linkedit_command_offset
    &&& found.linkedit_command_offset + SEGMENT_COMMAND_LEN <= found.prefix_len
    &&& found.code_signature matches Some((at, _, _)) ==> {
        &&& MACHO_HEADER_LEN <= at
        &&& at + MACHO_CODE_SIGNATURE_LEN <= found.prefix_len
        &&& {
            ||| at + MACHO_CODE_SIGNATURE_LEN <= found.linkedit_command_offset
            ||| found.linkedit_command_offset + SEGMENT_COMMAND_LEN <= at
        }
    }
}

/// The header and the load commands of the stamped executable.
pub open spec fn stamped_commands(prefix: Seq<u8>, found: MachOLayout, vmsize: u64, filesize: u64) -> Seq<
    u8,
> {
    stamp::stamped_prefix(prefix, found, vmsize, filesize).take(
        MACHO_HEADER_LEN + stamped_commands_len(found),
    )
}

/// A load command that is not rewritten has the same bytes in the stamped executable.
pub proof fn lemma_command_bytes(
    prefix: Seq<u8>,
    found: MachOLayout,
    vmsize: u64,
    filesize: u64,
    offset: int,
    len: int,
)
    requires
        is_layout_of_prefix(prefix, found),
        MACHO_HEADER_LEN <= offset,
        0 <= len,
        offset + len <= prefix.len(),
        found.code_signature matches Some((at, _, _)) ==> offset + len <= at || at
            + MACHO_CODE_SIGNATURE_LEN <= offset,
        offset + len <= found.linkedit_command_offset + 32 || found.linkedit_command_offset + 56
            <= offset,
    ensures
        ({
            let commands = stamped_commands(prefix, found, vmsize, filesize);
            let at = stamped_offset(found, offset);
            &&& commands.len() == MACHO_HEADER_LEN + stamped_commands_len(found)
            &&& MACHO_HEADER_LEN <= at
            &&& at + len <= commands.len()
            &&& commands.subrange(at, at + len) == prefix.subrange(offset, offset + len)
        }),
{
    let rewritten = stamp::stamped_prefix(prefix, found, vmsize, filesize);
    let commands = stamped_commands(prefix, found, vmsize, filesize);
    let at = stamped_offset(found, offset);
    assert(rewritten.len() == prefix.len());
    assert(commands.subrange(at, at + len) =~= prefix.subrange(offset, offset + len));
}

/// The header of the stamped executable counts its load commands.
pub proof fn lemma_stamped_header(
    prefix: Seq<u8>,
    found: MachOLayout,
    vmsize: u64,
    filesize: u64,
    stamped: Seq<u8>,
)
    requires
        is_layout_of_prefix(prefix, found),
        prefix.len() <= stamped.len(),
        stamped.take(prefix.len() as int) == stamp::stamped_prefix(
            prefix,
            found,
            vmsize,
            filesize,
        ),
    ensures
        layout::macho_header(stamped) == (layout::MachoHeader {
            command_count: stamped_command_count(found),
            commands_len: stamped_commands_len(found),
            ..layout::macho_header(prefix)
        }),
        stamped.subrange(0, 16) == prefix.subrange(0, 16),
        stamped.take(MACHO_HEADER_LEN + stamped_commands_len(found)) == stamped_commands(
            prefix,
            found,
            vmsize,
            filesize,
        ),
{
    let rewritten = stamp::stamped_prefix(prefix, found, vmsize, filesize);
    assert(rewritten.len() == prefix.len());
    assert(stamped.subrange(0, 16) =~= rewritten.subrange(0, 16));
    assert(rewritten.subrange(0, 16) =~= prefix.subrange(0, 16));
    lemma_header_field(stamped, prefix, 4);
    lemma_header_field(stamped, prefix, 8);
    lemma_header_field(stamped, prefix, 12);
    assert(stamped.subrange(24, 28) =~= rewritten.subrange(24, 28));
    assert(rewritten.subrange(24, 28) =~= prefix.subrange(24, 28));
    bytes::lemma_le_u32_window(stamped, 24, prefix, 24);
    let count = bytes::u32_bytes(stamped_command_count(found));
    let len = bytes::u32_bytes(stamped_commands_len(found));
    assert(stamped.subrange(16, 20) =~= rewritten.subrange(16, 20));
    assert(rewritten.subrange(16, 20) =~= count.subrange(0, 4));
    assert(stamped.subrange(20, 24) =~= rewritten.subrange(20, 24));
    assert(rewritten.subrange(20, 24) =~= len.subrange(0, 4));
    bytes::lemma_le_u32_window(stamped, 16, count, 0);
    bytes::lemma_le_u32_window(stamped, 20, len, 0);
    bytes::lemma_u32_round_trip(stamped_command_count(found));
    bytes::lemma_u32_round_trip(stamped_commands_len(found));
    assert(stamped.take(MACHO_HEADER_LEN + stamped_commands_len(found)) =~= stamped_commands(
        prefix,
        found,
        vmsize,
        filesize,
    ));
}

/// A field among the first sixteen bytes reads the same.
proof fn lemma_header_field(left: Seq<u8>, right: Seq<u8>, at: int)
    requires
        16 <= left.len(),
        16 <= right.len(),
        left.subrange(0, 16) == right.subrange(0, 16),
        0 <= at && at + 4 <= 16,
    ensures
        bytes::le_u32(left, at) == bytes::le_u32(right, at),
{
    assert(left.subrange(at, at + 4) =~= left.subrange(0, 16).subrange(at, at + 4));
    assert(right.subrange(at, at + 4) =~= right.subrange(0, 16).subrange(at, at + 4));
    bytes::lemma_le_u32_window(left, at, right, at);
}

/// Whether the scan of the stamped executable is as far as that of the template.
pub open spec fn is_as_far(
    found: MachOLayout,
    scan: MachoScanView,
    count: nat,
    stamped_scan: MachoScanView,
    stamped_count: nat,
) -> bool {
    &&& stamped_scan.command_offset == stamped_offset(found, scan.command_offset as int)
    &&& match found.code_signature {
        Some((at, _, _)) => if scan.command_offset <= at {
            scan.code_signature is None && stamped_count + 1 == count
        } else {
            scan.code_signature == found.code_signature && at + MACHO_CODE_SIGNATURE_LEN
                <= scan.command_offset && stamped_count == count
        },
        None => scan.code_signature is None && stamped_count == count,
    }
}

/// The load command that starts at `scan.command_offset` has the same kind and size in the
/// stamped executable, and unless it is that of the `__LINKEDIT` segment the same bytes.
pub proof fn lemma_same_command(
    prefix: Seq<u8>,
    found: MachOLayout,
    vmsize: u64,
    filesize: u64,
    scan: MachoScanView,
    next: MachoScanView,
    file_len: u64,
    last: MachoScanView,
    count: nat,
)
    requires
        is_layout_of_prefix(prefix, found),
        laws::is_sound_scan(scan, file_len),
        count > 0,
        scan.command_offset <= prefix.len() <= usize::MAX,
        layout::scan_commands(scan, prefix, count, file_len) == Ok::<
            MachoScanView,
            RuntimeDataError,
        >(last),
        next == command::scan_command(
            scan,
            command_at(prefix, scan.command_offset as int),
            file_len,
            prefix.len() as u64,
        )->Ok_0,
        last.linkedit matches Some(linkedit) && linkedit.command_offset
            == found.linkedit_command_offset,
        last.code_signature == found.code_signature,
        scan.linkedit is Some ==> scan.linkedit == last.linkedit,
        bytes::le_u32(command_at(prefix, scan.command_offset as int), 0) != LC_CODE_SIGNATURE,
        found.code_signature matches Some((at, _, _)) ==> scan.command_offset < at || at
            + MACHO_CODE_SIGNATURE_LEN <= scan.command_offset,
    ensures
        ({
            let commands = stamped_commands(prefix, found, vmsize, filesize);
            let offset = scan.command_offset as int;
            let raw = command_at(prefix, offset);
            let stamped_raw = command_at(commands, stamped_offset(found, offset));
            let table = commands.skip(stamped_offset(found, offset));
            &&& MACHO_HEADER_LEN <= stamped_offset(found, offset) <= commands.len()
            &&& table.len() >= object_file::LOAD_COMMAND_LEN
            &&& object_file::starts_with_load_command(table)
            &&& stamped_raw.len() == raw.len()
            &&& bytes::le_u32(stamped_raw, 0) == bytes::le_u32(raw, 0)
            &&& offset != found.linkedit_command_offset ==> stamped_raw == raw
            &&& stamped_offset(found, next.command_offset as int) == stamped_offset(found, offset)
                + raw.len()
            &&& next.command_offset == offset + raw.len()
            &&& next.command_offset <= prefix.len()
        }),
{
    let commands = stamped_commands(prefix, found, vmsize, filesize);
    let offset = scan.command_offset as int;
    let raw = command_at(prefix, offset);
    let size = raw.len() as int;
    let old_table = prefix.skip(offset);
    let at = stamped_offset(found, offset);
    let table = commands.skip(at);
    laws::lemma_command_keeps_scan_sound(scan, raw, file_len, prefix.len() as u64, next);
    lemma_command_effect(scan, raw, file_len, prefix.len() as u64, next);
    lemma_positions(next, prefix, (count - 1) as nat, file_len, last);
    laws::lemma_commands_keep_scan_sound(next, prefix, (count - 1) as nat, file_len, last);
    assert(size == object_file::load_command_size(old_table));
    assert(raw =~= prefix.subrange(offset, offset + size));
    let head = if offset == found.linkedit_command_offset {
        8
    } else {
        size
    };
    assert(offset == found.linkedit_command_offset || offset + size
        <= found.linkedit_command_offset || found.linkedit_command_offset + SEGMENT_COMMAND_LEN
        <= offset);
    lemma_command_bytes(prefix, found, vmsize, filesize, offset, head);
    lemma_command_bytes(prefix, found, vmsize, filesize, offset, 8);
    let window = prefix.subrange(offset, offset + 8);
    assert(commands.subrange(at, at + 8) == window);
    assert(table.subrange(4, 8) =~= window.subrange(4, 8));
    assert(old_table.subrange(4, 8) =~= window.subrange(4, 8));
    bytes::lemma_le_u32_window(table, 4, old_table, 4);
    assert(at + size <= commands.len()) by {
        if offset == found.linkedit_command_offset {
            lemma_stamped_room(prefix, found, vmsize, filesize, offset, size);
        }
    }
    let stamped_raw = command_at(commands, at);
    assert(stamped_raw =~= commands.subrange(at, at + size));
    assert(stamped_raw.subrange(0, 4) =~= window.subrange(0, 4));
    assert(raw.subrange(0, 4) =~= window.subrange(0, 4));
    bytes::lemma_le_u32_window(stamped_raw, 0, raw, 0);
}

/// The load command that starts at `offset`.
pub open spec fn command_at(prefix: Seq<u8>, offset: int) -> Seq<u8> {
    let table = prefix.skip(offset);
    table.take(object_file::load_command_size(table) as int)
}

/// The command of the `__LINKEDIT` segment still lies among the load commands.
proof fn lemma_stamped_room(
    prefix: Seq<u8>,
    found: MachOLayout,
    vmsize: u64,
    filesize: u64,
    offset: int,
    size: int,
)
    requires
        is_layout_of_prefix(prefix, found),
        MACHO_HEADER_LEN <= offset,
        0 <= size,
        offset + size <= prefix.len(),
        found.code_signature matches Some((at, _, _)) ==> offset + size <= at || at
            + MACHO_CODE_SIGNATURE_LEN <= offset,
    ensures
        stamped_offset(found, offset) + size <= stamped_commands(
            prefix,
            found,
            vmsize,
            filesize,
        ).len(),
{
    assert(stamp::stamped_prefix(prefix, found, vmsize, filesize).len() == prefix.len());
}

/// Where the stamped executable is accepted, no code signature is found in it.
proof fn lemma_no_signature_left(
    prefix: Seq<u8>,
    found: MachOLayout,
    vmsize: u64,
    filesize: u64,
    scan: MachoScanView,
    count: nat,
    file_len: u64,
    last: MachoScanView,
    stamped_scan: MachoScanView,
    stamped_count: nat,
    stamped_len: u64,
    stamped_last: MachoScanView,
)
    requires
        is_layout_of_prefix(prefix, found),
        laws::is_sound_scan(scan, file_len),
        scan.command_offset <= prefix.len() <= usize::MAX,
        layout::scan_commands(scan, prefix, count, file_len) == Ok::<
            MachoScanView,
            RuntimeDataError,
        >(last),
        layout::scan_commands(
            stamped_scan,
            stamped_commands(prefix, found, vmsize, filesize),
            stamped_count,
            stamped_len,
        ) == Ok::<MachoScanView, RuntimeDataError>(stamped_last),
        last.linkedit matches Some(linkedit) && linkedit.command_offset
            == found.linkedit_command_offset,
        last.code_signature == found.code_signature,
        is_as_far(found, scan, count, stamped_scan, stamped_count),
        stamped_scan.code_signature is None,
    ensures
        stamped_last.code_signature is None,
    decreases count,
{
    lemma_positions(scan, prefix, count, file_len, last);
    if count > 0 {
        let offset = scan.command_offset as int;
        let raw = command_at(prefix, offset);
        let next = command::scan_command(scan, raw, file_len, prefix.len() as u64)->Ok_0;
        laws::lemma_command_keeps_scan_sound(scan, raw, file_len, prefix.len() as u64, next);
        lemma_command_effect(scan, raw, file_len, prefix.len() as u64, next);
        lemma_positions(next, prefix, (count - 1) as nat, file_len, last);
        if bytes::le_u32(raw, 0) == LC_CODE_SIGNATURE {
            lemma_no_signature_left(
                prefix,
                found,
                vmsize,
                filesize,
                next,
                (count - 1) as nat,
                file_len,
                last,
                stamped_scan,
                stamped_count,
                stamped_len,
                stamped_last,
            );
        } else {
            lemma_same_command(
                prefix,
                found,
                vmsize,
                filesize,
                scan,
                next,
                file_len,
                last,
                count,
            );
            if stamped_count == 0 {
                assert(count == 1);
                assert(last == next);
            }
            let commands = stamped_commands(prefix, found, vmsize, filesize);
            let stamped_raw = command_at(commands, stamped_scan.command_offset as int);
            let stamped_next = command::scan_command(
                stamped_scan,
                stamped_raw,
                stamped_len,
                commands.len() as u64,
            )->Ok_0;
            lemma_command_effect(
                stamped_scan,
                stamped_raw,
                stamped_len,
                commands.len() as u64,
                stamped_next,
            );
            lemma_no_signature_left(
                prefix,
                found,
                vmsize,
                filesize,
                next,
                (count - 1) as nat,
                file_len,
                last,
                stamped_next,
                (stamped_count - 1) as nat,
                stamped_len,
                stamped_last,
            );
        }
    }
}

/// What an accepted executable and its stamped version have to do with each other.
pub open spec fn is_stamped(
    image: Seq<u8>,
    found: MachOLayout,
    sizes: stamp::StampSizes,
    header: Seq<u8>,
    bundle: Seq<u8>,
    stamped: Seq<u8>,
) -> bool {
    &&& image.len() <= usize::MAX
    &&& layout::macho_layout(image) == Ok::<MachOLayout, RuntimeDataError>(found)
    &&& crate::macho::final_layout::final_layout_error(found, image.len() as u64) is None
    &&& sizes.payload_offset >= found.linkedit_fileoff
    &&& stamped == bytes::resized(
        bytes::overwritten(
            image,
            0,
            stamp::stamped_prefix(
                image.take(found.prefix_len as int),
                found,
                sizes.linkedit_vmsize,
                sizes.linkedit_filesize,
            ),
        ),
        sizes.payload_offset as nat,
    ) + payload::payload_bytes(header, bundle)
}

/// The stamped executable starts with the rewritten load commands and ends with the payload.
pub proof fn lemma_stamped_bytes(
    image: Seq<u8>,
    found: MachOLayout,
    sizes: stamp::StampSizes,
    header: Seq<u8>,
    bundle: Seq<u8>,
    stamped: Seq<u8>,
)
    requires
        is_stamped(image, found, sizes, header, bundle, stamped),
    ensures
        is_layout_of_prefix(image.take(found.prefix_len as int), found),
        stamped.len() == sizes.payload_offset + payload::payload_bytes(header, bundle).len(),
        found.prefix_len <= sizes.payload_offset,
        stamped.take(found.prefix_len as int) == stamp::stamped_prefix(
            image.take(found.prefix_len as int),
            found,
            sizes.linkedit_vmsize,
            sizes.linkedit_filesize,
        ),
        stamped.skip(sizes.payload_offset as int) == payload::payload_bytes(header, bundle),
{
    laws::law_accepted_macho_layout(image, found);
    let prefix = image.take(found.prefix_len as int);
    let rewritten = stamp::stamped_prefix(
        prefix,
        found,
        sizes.linkedit_vmsize,
        sizes.linkedit_filesize,
    );
    assert(rewritten.len() == prefix.len());
    let written = bytes::overwritten(image, 0, rewritten);
    bytes::lemma_overwritten(image, 0, rewritten);
    let resized = bytes::resized(written, sizes.payload_offset as nat);
    assert(resized.len() == sizes.payload_offset);
    assert(stamped.take(found.prefix_len as int) =~= rewritten);
    assert(stamped.skip(sizes.payload_offset as int) =~= payload::payload_bytes(header, bundle));
}

/// Where the stamped executable is accepted, it has no code signature, and is for the CPU that
/// the template is for.
proof fn lemma_stamped_layout_is_unsigned(
    image: Seq<u8>,
    found: MachOLayout,
    sizes: stamp::StampSizes,
    header: Seq<u8>,
    bundle: Seq<u8>,
    stamped: Seq<u8>,
    stamped_found: MachOLayout,
)
    requires
        is_stamped(image, found, sizes, header, bundle, stamped),
        stamped.len() <= usize::MAX,
        layout::macho_layout(stamped) == Ok::<MachOLayout, RuntimeDataError>(stamped_found),
    ensures
        stamped_found.code_signature is None,
        stamped_found.cpu_type == found.cpu_type,
        stamped_found.cpu_subtype == found.cpu_subtype,
{
    lemma_stamped_bytes(image, found, sizes, header, bundle, stamped);
    laws::law_accepted_macho_layout(image, found);
    let prefix = image.take(found.prefix_len as int);
    let image_header = layout::macho_header(image);
    layout::lemma_header_of_prefix(image, found.prefix_len as int);
    lemma_stamped_header(
        prefix,
        found,
        sizes.linkedit_vmsize,
        sizes.linkedit_filesize,
        stamped,
    );
    let file_len = image.len() as u64;
    let last = layout::scan_commands(
        macho::initial_scan(),
        prefix,
        found.command_count as nat,
        file_len,
    )->Ok_0;
    let stamped_last = layout::scan_commands(
        macho::initial_scan(),
        stamped_commands(prefix, found, sizes.linkedit_vmsize, sizes.linkedit_filesize),
        stamped_command_count(found) as nat,
        stamped.len() as u64,
    )->Ok_0;
    lemma_no_signature_left(
        prefix,
        found,
        sizes.linkedit_vmsize,
        sizes.linkedit_filesize,
        macho::initial_scan(),
        found.command_count as nat,
        file_len,
        last,
        macho::initial_scan(),
        stamped_command_count(found) as nat,
        stamped.len() as u64,
        stamped_last,
    );
}

/// The runtime data that is found where a payload ends the data.
pub proof fn lemma_payload_at_end(
    stamped: Seq<u8>,
    target: Target,
    search: FooterSearchSpec,
    header: Seq<u8>,
    bundle: Seq<u8>,
)
    requires
        header.len() <= MAX_HEADER_LEN,
        stamped.len() <= u64::MAX,
        payload::payload_bytes(header, bundle).len() <= stamped.len(),
        search.data_end == stamped.len(),
        stamped.skip(stamped.len() - payload::payload_bytes(header, bundle).len())
            == payload::payload_bytes(header, bundle),
    ensures
        ({
            let bundle_offset = stamped.len() - FOOTER_LEN - bundle.len();
            let payload_start = bundle_offset - header.len();
            let result = runtime_reader::search_from(stamped, target, search, 0);
            &&& payload_start < search.minimum_payload_offset ==> result is Err
            &&& payload_start >= search.minimum_payload_offset ==> result == Ok::<
                Option<LocatedView>,
                RuntimeDataError,
            >(
                Some(runtime_reader::stamped_data(target, header, bundle, bundle_offset)),
            )
            &&& 0 <= bundle_offset
            &&& stamped.subrange(bundle_offset, bundle_offset + bundle.len()) == bundle
        }),
{
    let view = payload::footer_of(header, bundle);
    let footer_data = footer::footer_bytes(view);
    let payload = payload::payload_bytes(header, bundle);
    footer::law_footer_round_trip(view);
    let len = stamped.len() as int;
    let payload_start = len - payload.len();
    let tail = stamped.skip(payload_start);
    assert(payload.len() == header.len() + bundle.len() + FOOTER_LEN);
    assert(stamped.subrange(len - FOOTER_LEN, len) =~= footer_data) by {
        assert(stamped.subrange(len - FOOTER_LEN, len) =~= tail.subrange(
            payload.len() - FOOTER_LEN,
            payload.len() as int,
        ));
    }
    assert(stamped.subrange(payload_start, payload_start + header.len()) =~= header) by {
        assert(stamped.subrange(payload_start, payload_start + header.len()) =~= tail.subrange(
            0,
            header.len() as int,
        ));
    }
    assert(header.len() == 0 ==> header =~= Seq::empty());
    assert(stamped.subrange(payload_start + header.len(), len - FOOTER_LEN) =~= bundle) by {
        assert(stamped.subrange(payload_start + header.len(), len - FOOTER_LEN)
            =~= tail.subrange(header.len() as int, payload.len() - FOOTER_LEN));
    }
    assert(footer::magic_ends_at(stamped, len)) by {
        assert(footer_data.subrange(84, 100) =~= footer::footer_magic());
        assert(stamped.subrange(len - 16, len) =~= footer_data.subrange(84, 100));
    }
    assert(bytes::all_zero(stamped.subrange(len, len)));
}

/// The sizes with which a header and a bundle are stamped onto the executable `image`.
pub open spec fn sizes_of(image: Seq<u8>, header: Seq<u8>, bundle: Seq<u8>) -> stamp::StampSizes {
    let found = layout::macho_layout(image)->Ok_0;
    stamp::stamp_sizes(
        found,
        (header.len() + bundle.len() as u64 + FOOTER_LEN) as u64,
        image.len() as u64,
        stamp::page_size(found.cpu_type)->0,
    )->Ok_0
}

/// A stamp leaves the executable behind that its sizes say.
pub proof fn lemma_how_it_was_stamped(
    image: Seq<u8>,
    header: Seq<u8>,
    bundle: Seq<u8>,
    platform: Seq<char>,
    stamped: Seq<u8>,
)
    requires
        image.len() <= usize::MAX,
        stamp::stamped_macho(image, header, bundle, bundle.len() as u64, platform) == Ok::<
            Seq<u8>,
            RuntimeDataError,
        >(stamped),
    ensures
        layout::macho_layout(image) is Ok,
        is_stamped(
            image,
            layout::macho_layout(image)->Ok_0,
            sizes_of(image, header, bundle),
            header,
            bundle,
            stamped,
        ),
{
    let found = layout::macho_layout(image)->Ok_0;
    let base = stamp::unsigned_end(found, image.len() as u64);
    align::lemma_aligned(base as int, MACHO_SIGNATURE_ALIGNMENT as int);
    laws::law_accepted_macho_layout(image, found);
}

/// A stamped Mach-O executable starts as its template does.
pub proof fn lemma_stamped_magic(
    image: Seq<u8>,
    header: Seq<u8>,
    bundle: Seq<u8>,
    platform: Seq<char>,
    stamped: Seq<u8>,
)
    requires
        image.len() <= usize::MAX,
        stamp::stamped_macho(image, header, bundle, bundle.len() as u64, platform) == Ok::<
            Seq<u8>,
            RuntimeDataError,
        >(stamped),
    ensures
        4 <= image.len(),
        4 <= stamped.len(),
        forall|i: int| 0 <= i < 4 ==> #[trigger] stamped[i] == image[i],
{
    let found = layout::macho_layout(image)->Ok_0;
    let sizes = sizes_of(image, header, bundle);
    let prefix = image.take(found.prefix_len as int);
    lemma_how_it_was_stamped(image, header, bundle, platform, stamped);
    lemma_stamped_bytes(image, found, sizes, header, bundle, stamped);
    laws::law_accepted_macho_layout(image, found);
    lemma_stamped_header(
        prefix,
        found,
        sizes.linkedit_vmsize,
        sizes.linkedit_filesize,
        stamped,
    );
    assert forall|i: int| 0 <= i < 4 implies #[trigger] stamped[i] == image[i] by {
        assert(stamped.subrange(0, 16)[i] == prefix.subrange(0, 16)[i]);
    }
}

/// A stamped Mach-O executable that can be read at all reads back as it was stamped: with the
/// header, and with the bundle in front of the footer, where there is one.
#[verifier::rlimit(20)]
pub proof fn law_stamped_macho_reads_back(
    image: Seq<u8>,
    header: Seq<u8>,
    bundle: Seq<u8>,
    platform: Seq<char>,
    stamped: Seq<u8>,
)
    requires
        image.len() <= usize::MAX,
        stamped.len() <= usize::MAX,
        header.len() <= MAX_HEADER_LEN,
        stamp::stamped_macho(image, header, bundle, bundle.len() as u64, platform) == Ok::<
            Seq<u8>,
            RuntimeDataError,
        >(stamped),
        runtime_reader::macho_runtime_data(stamped) is Ok,
    ensures
        layout::macho_layout(image) is Ok,
        runtime_reader::macho_runtime_data(stamped) == Ok::<Option<LocatedView>, RuntimeDataError>(
            Some(
                runtime_reader::stamped_data(
                    Target::MachO {
                        cpu_type: layout::macho_layout(image)->Ok_0.cpu_type,
                        cpu_subtype: layout::macho_layout(image)->Ok_0.cpu_subtype,
                    },
                    header,
                    bundle,
                    stamped.len() - FOOTER_LEN - bundle.len(),
                ),
            ),
        ),
        0 <= stamped.len() - FOOTER_LEN - bundle.len(),
        stamped.subrange(
            stamped.len() - FOOTER_LEN - bundle.len(),
            stamped.len() - FOOTER_LEN,
        ) == bundle,
{
    let found = layout::macho_layout(image)->Ok_0;
    let sizes = sizes_of(image, header, bundle);
    lemma_how_it_was_stamped(image, header, bundle, platform, stamped);
    lemma_stamped_bytes(image, found, sizes, header, bundle, stamped);
    let stamped_found = layout::macho_layout(stamped)->Ok_0;
    lemma_stamped_layout_is_unsigned(
        image,
        found,
        sizes,
        header,
        bundle,
        stamped,
        stamped_found,
    );
    let search = FooterSearchSpec {
        data_end: stamped.len() as u64,
        alignment: 1,
        minimum_payload_offset: stamped_found.linkedit_fileoff,
    };
    lemma_payload_at_end(
        stamped,
        Target::MachO { cpu_type: found.cpu_type, cpu_subtype: found.cpu_subtype },
        search,
        header,
        bundle,
    );
}

/// A stamped Mach-O executable that can be read at all has no code signature, and the runtime
/// data ends its `__LINKEDIT` segment and with it the file.
pub proof fn law_stamped_macho_is_unsigned(
    image: Seq<u8>,
    header: Seq<u8>,
    bundle: Seq<u8>,
    platform: Seq<char>,
    stamped: Seq<u8>,
)
    requires
        image.len() <= usize::MAX,
        stamped.len() <= usize::MAX,
        stamp::stamped_macho(image, header, bundle, bundle.len() as u64, platform) == Ok::<
            Seq<u8>,
            RuntimeDataError,
        >(stamped),
        runtime_reader::macho_runtime_data(stamped) is Ok,
    ensures
        layout::macho_layout(stamped) matches Ok(found) && {
            &&& found.code_signature is None
            &&& found.linkedit_fileoff + found.linkedit_filesize == stamped.len()
        },
        payload::payload_bytes(header, bundle).len() <= stamped.len(),
        stamped.skip(stamped.len() - payload::payload_bytes(header, bundle).len())
            == payload::payload_bytes(header, bundle),
{
    let found = layout::macho_layout(image)->Ok_0;
    let sizes = sizes_of(image, header, bundle);
    lemma_how_it_was_stamped(image, header, bundle, platform, stamped);
    lemma_stamped_bytes(image, found, sizes, header, bundle, stamped);
    lemma_stamped_layout_is_unsigned(
        image,
        found,
        sizes,
        header,
        bundle,
        stamped,
        layout::macho_layout(stamped)->Ok_0,
    );
}

} // verus!
