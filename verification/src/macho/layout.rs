//! The layout that the load commands of an executable add up to.

use vstd::prelude::*;
use vstd::slice::slice_subrange;

use crate::bytes;
use crate::bytes::read_u32;
use crate::error::{invalid_data, RuntimeDataError};
use crate::macho;
use crate::macho::command;
use crate::macho::command::add_command;
use crate::macho::{
    LinkeditSegment, MachOLayout, MachoScan, MachoScanView, CPU_SUBTYPE_ARM64_ALL,
    CPU_SUBTYPE_X86_64_ALL, CPU_TYPE_ARM64, CPU_TYPE_X86_64, MAX_MACHO_LOAD_COMMAND_BYTES,
    MH_ALLOW_STACK_EXECUTION, MH_DYLDLINK_PIE, MH_EXECUTE,
};
use crate::object_file;
use crate::object_file::{
    macho_header_is_little_endian, macho_load_commands, LOAD_COMMAND_LEN, MACHO_HEADER_LEN,
};

verus! {

/// The fields of a Mach-O header.
#[derive(Clone, Copy, Debug)]
pub struct MachoHeader {
    pub cpu_type: u32,
    pub cpu_subtype: u32,
    pub file_type: u32,
    pub command_count: u32,
    pub commands_len: u32,
    pub flags: u32,
}

/// The fields of the little-endian Mach-O header at the start of `image`.
pub open spec fn macho_header(image: Seq<u8>) -> MachoHeader {
    MachoHeader {
        cpu_type: bytes::le_u32(image, 4),
        cpu_subtype: bytes::le_u32(image, 8),
        file_type: bytes::le_u32(image, 12),
        command_count: object_file::macho_command_count(image),
        commands_len: object_file::macho_commands_len(image),
        flags: bytes::le_u32(image, 24),
    }
}

/// Whether every CPU of its type runs code of this subtype.
pub open spec fn is_supported_subtype(cpu_type: u32, cpu_subtype: u32) -> bool {
    if cpu_type == CPU_TYPE_X86_64 {
        cpu_subtype == CPU_SUBTYPE_X86_64_ALL
    } else if cpu_type == CPU_TYPE_ARM64 {
        cpu_subtype == CPU_SUBTYPE_ARM64_ALL
    } else {
        true
    }
}

/// Why the header at the start of `image` is refused.
pub open spec fn macho_header_error(image: Seq<u8>) -> Option<RuntimeDataError> {
    let header = macho_header(image);
    if image.len() < MACHO_HEADER_LEN {
        Some(RuntimeDataError::UnexpectedEof)
    } else if !object_file::has_macho_header(image) {
        Some(invalid_data("Unsupported Mach-O header"))
    } else if !object_file::has_little_endian_macho_magic(image) {
        Some(invalid_data("big-endian Mach-O binaries are not supported"))
    } else if header.file_type != MH_EXECUTE {
        Some(invalid_data("Mach-O runtime template is not an executable image"))
    } else if header.flags & MH_DYLDLINK_PIE != MH_DYLDLINK_PIE || header.flags
        & MH_ALLOW_STACK_EXECUTION == MH_ALLOW_STACK_EXECUTION {
        Some(invalid_data("Mach-O runtime template has unsupported executable flags"))
    } else if !is_supported_subtype(header.cpu_type, header.cpu_subtype) {
        Some(RuntimeDataError::MachoCpuSubtype(header.cpu_subtype))
    } else if header.commands_len > MAX_MACHO_LOAD_COMMAND_BYTES {
        Some(RuntimeDataError::MachoCommandTable(header.commands_len as u64))
    } else if header.command_count > header.commands_len / 8 {
        Some(invalid_data("Mach-O load command count exceeds its command table"))
    } else if MACHO_HEADER_LEN + header.commands_len > image.len() {
        Some(invalid_data("Mach-O load commands extend past end of file"))
    } else {
        None
    }
}

/// The scan after `count` more load commands of `prefix`, the header and its load commands.
pub open spec fn scan_commands(
    scan: MachoScanView,
    prefix: Seq<u8>,
    count: nat,
    file_len: u64,
) -> Result<MachoScanView, RuntimeDataError>
    decreases count,
{
    let table = prefix.skip(scan.command_offset as int);
    if count == 0 {
        Ok(scan)
    } else if table.len() < LOAD_COMMAND_LEN {
        Err(invalid_data("Invalid Mach-O load command header"))
    } else if !object_file::starts_with_load_command(table) {
        Err(invalid_data("Invalid Mach-O load command size"))
    } else {
        let raw = table.take(object_file::load_command_size(table) as int);
        match command::scan_command(scan, raw, file_len, prefix.len() as u64) {
            Err(error) => Err(error),
            Ok(next) => scan_commands(next, prefix, (count - 1) as nat, file_len),
        }
    }
}

/// Whether the two ranges, each given by start and end, have something in common.
pub open spec fn overlap(left: (u64, u64), right: (u64, u64)) -> bool {
    left.0 < right.1 && right.0 < left.1
}

/// Whether any two of the ranges have something in common.
pub open spec fn any_overlap(ranges: Seq<(u64, u64)>) -> bool {
    exists|i: int, j: int| 0 <= i < j < ranges.len() && overlap(#[trigger] ranges[i], #[trigger] ranges[j])
}

/// Whether one of the ranges, each given by start and end, holds `point`.
pub open spec fn any_holds(ranges: Seq<(u64, u64)>, point: u64) -> bool {
    exists|i: int| 0 <= i < ranges.len() && (#[trigger] ranges[i]).0 <= point < ranges[i].1
}

/// The larger one of `floor` and the highest end of the ranges from `index` on, each of which,
/// given by offset and size, has to lie in the `__LINKEDIT` segment.
pub open spec fn referenced_end(
    ranges: Seq<(u64, u64)>,
    index: int,
    floor: u64,
    linkedit: LinkeditSegment,
    file_len: u64,
) -> Result<u64, RuntimeDataError>
    decreases ranges.len() - index,
{
    if index >= ranges.len() {
        Ok(floor)
    } else {
        let (offset, size) = ranges[index];
        if offset + size > u64::MAX {
            Err(invalid_data("Mach-O referenced file range overflow"))
        } else if offset + size > file_len {
            Err(invalid_data("Mach-O load command references data past end of file"))
        } else if offset < linkedit.fileoff || offset + size > linkedit.fileoff
            + linkedit.filesize {
            Err(invalid_data("Mach-O link-edit data extends outside __LINKEDIT"))
        } else {
            let end = (offset + size) as u64;
            referenced_end(
                ranges,
                index + 1,
                if end > floor {
                    end
                } else {
                    floor
                },
                linkedit,
                file_len,
            )
        }
    }
}

/// Why the load commands as a whole are refused, apart from their link-edit data.
pub open spec fn scan_error(scan: MachoScanView, command_end: int) -> Option<RuntimeDataError> {
    if scan.command_offset != command_end {
        Some(invalid_data("Mach-O load command size does not match header"))
    } else if !scan.has_macos_platform_command {
        Some(invalid_data("Mach-O runtime template has no macOS target platform command"))
    } else if scan.text_segment_count != 1 {
        Some(invalid_data("Mach-O runtime template must have exactly one __TEXT segment"))
    } else if scan.dylinker_count != 1 {
        Some(invalid_data("Mach-O runtime template must load exactly one /usr/lib/dyld"))
    } else if scan.entry_point is None {
        Some(invalid_data("Mach-O runtime template has no LC_MAIN entry point"))
    } else if !any_holds(scan.executable_section_ranges, scan.entry_point->0) {
        Some(invalid_data("Mach-O LC_MAIN entry point is outside executable file data"))
    } else if any_overlap(scan.segment_ranges) {
        Some(invalid_data("Mach-O file segments overlap"))
    } else if any_overlap(scan.virtual_ranges) {
        Some(invalid_data("Mach-O virtual segments overlap"))
    } else if scan.linkedit is None {
        Some(invalid_data("Mach-O binary has no __LINKEDIT segment"))
    } else {
        None
    }
}

/// The layout that a whole scan adds up to.
pub open spec fn scanned_layout(scan: MachoScanView, header: MachoHeader, file_len: u64) -> Result<
    MachOLayout,
    RuntimeDataError,
> {
    let command_end = MACHO_HEADER_LEN + header.commands_len;
    let linkedit = scan.linkedit->0;
    match scan_error(scan, command_end) {
        Some(error) => Err(error),
        None => match referenced_end(scan.referenced_ranges, 0, 0, linkedit, file_len) {
            Err(error) => Err(error),
            Ok(end) => if scan.first_section_offset matches Some(first) && (first < command_end
                || first > file_len) {
                Err(invalid_data("Mach-O load commands overlap section data"))
            } else {
                Ok(
                    MachOLayout {
                        cpu_type: header.cpu_type,
                        cpu_subtype: header.cpu_subtype,
                        command_count: header.command_count,
                        commands_len: header.commands_len,
                        prefix_len: command_end as usize,
                        first_section_offset: scan.first_section_offset,
                        linkedit_command_offset: linkedit.command_offset,
                        linkedit_vmaddr: linkedit.vmaddr,
                        linkedit_fileoff: linkedit.fileoff,
                        linkedit_filesize: linkedit.filesize,
                        max_segment_vmaddr: scan.max_segment_vmaddr,
                        max_segment_fileoff: scan.max_segment_fileoff,
                        max_non_signature_data_end: end,
                        code_signature: scan.code_signature,
                        reader_capability: scan.reader_capability,
                    },
                )
            },
        },
    }
}

/// The layout of the Mach-O executable `image`.
pub open spec fn macho_layout(image: Seq<u8>) -> Result<MachOLayout, RuntimeDataError> {
    let header = macho_header(image);
    match macho_header_error(image) {
        Some(error) => Err(error),
        None => match scan_commands(
            macho::initial_scan(),
            image.take(MACHO_HEADER_LEN + header.commands_len),
            header.command_count as nat,
            image.len() as u64,
        ) {
            Err(error) => Err(error),
            Ok(scan) => scanned_layout(scan, header, image.len() as u64),
        },
    }
}

/// The fields of the header at the start of `image`.
fn read_macho_header(image: &[u8]) -> (result: Result<MachoHeader, RuntimeDataError>)
    ensures
        result == (match macho_header_error(image@) {
            Some(error) => Err(error),
            None => Ok(macho_header(image@)),
        }),
{
    if image.len() < MACHO_HEADER_LEN {
        return Err(RuntimeDataError::UnexpectedEof);
    }
    match macho_header_is_little_endian(image) {
        Err(_) => {
            return Err(invalid_data("Unsupported Mach-O header"));
        },
        Ok(little_endian) => {
            if !little_endian {
                return Err(invalid_data("big-endian Mach-O binaries are not supported"));
            }
        },
    }
    let header: MachoHeader = MachoHeader {
        cpu_type: read_u32(image, 4),
        cpu_subtype: read_u32(image, 8),
        file_type: read_u32(image, 12),
        command_count: read_u32(image, 16),
        commands_len: read_u32(image, 20),
        flags: read_u32(image, 24),
    };
    if header.file_type != MH_EXECUTE {
        return Err(invalid_data("Mach-O runtime template is not an executable image"));
    }
    if header.flags & MH_DYLDLINK_PIE != MH_DYLDLINK_PIE || header.flags & MH_ALLOW_STACK_EXECUTION
        == MH_ALLOW_STACK_EXECUTION {
        return Err(invalid_data("Mach-O runtime template has unsupported executable flags"));
    }
    let expected_subtype: u32 = if header.cpu_type == CPU_TYPE_X86_64 {
        CPU_SUBTYPE_X86_64_ALL
    } else if header.cpu_type == CPU_TYPE_ARM64 {
        CPU_SUBTYPE_ARM64_ALL
    } else {
        header.cpu_subtype
    };
    if header.cpu_subtype != expected_subtype {
        return Err(RuntimeDataError::MachoCpuSubtype(header.cpu_subtype));
    }
    if header.commands_len > MAX_MACHO_LOAD_COMMAND_BYTES {
        return Err(RuntimeDataError::MachoCommandTable(header.commands_len as u64));
    }
    if header.command_count > header.commands_len / 8 {
        return Err(invalid_data("Mach-O load command count exceeds its command table"));
    }
    if MACHO_HEADER_LEN + header.commands_len as usize > image.len() {
        return Err(invalid_data("Mach-O load commands extend past end of file"));
    }
    Ok(header)
}

/// Reads the load commands of `prefix`, the header and its load commands.
fn read_commands(prefix: &[u8], header: MachoHeader, file_len: u64) -> (result: Result<
    MachoScan,
    RuntimeDataError,
>)
    requires
        object_file::has_macho_header(prefix@),
        object_file::has_little_endian_macho_magic(prefix@),
        header == macho_header(prefix@),
        prefix.len() == MACHO_HEADER_LEN + header.commands_len,
    ensures
        match scan_commands(
            macho::initial_scan(),
            prefix@,
            header.command_count as nat,
            file_len,
        ) {
            Ok(scan) => result is Ok && result->Ok_0@ == scan,
            Err(error) => result is Err && result->Err_0 == error,
        },
{
    let mut scan: MachoScan = MachoScan {
        command_offset: MACHO_HEADER_LEN,
        first_section_offset: None,
        linkedit: None,
        max_segment_vmaddr: 0,
        max_segment_fileoff: 0,
        code_signature: None,
        segment_ranges: Vec::new(),
        virtual_ranges: Vec::new(),
        referenced_ranges: Vec::new(),
        executable_section_ranges: Vec::new(),
        has_macos_platform_command: false,
        entry_point: None,
        reader_capability: None,
        text_segment_count: 0,
        dylinker_count: 0,
    };
    assert(scan@ =~= macho::initial_scan());
    let ghost count = header.command_count as nat;
    let ghost expected = object_file::load_commands_in(
        prefix@.skip(MACHO_HEADER_LEN as int),
        count,
    );
    let commands: Vec<Result<&[u8], object::Error>> = match macho_load_commands(prefix) {
        Ok(commands) => commands,
        Err(_) => {
            return Err(invalid_data("Invalid Mach-O load command table size"));
        },
    };
    assert(expected.skip(0) =~= expected);
    let mut index: usize = 0;
    while index < commands.len()
        invariant
            index <= commands.len(),
            commands.len() == expected.len(),
            index <= count,
            count == header.command_count,
            prefix.len() == MACHO_HEADER_LEN + header.commands_len,
            MACHO_HEADER_LEN <= scan.command_offset <= prefix.len(),
            forall|i: int|
                0 <= i < expected.len() ==> match #[trigger] expected[i] {
                    Some(command) => commands[i] is Ok && commands[i]->Ok_0@ == command,
                    None => commands[i] is Err,
                },
            expected.skip(index as int) == object_file::load_commands_in(
                prefix@.skip(scan.command_offset as int),
                (count - index) as nat,
            ),
            scan_commands(scan@, prefix@, (count - index) as nat, file_len) == scan_commands(
                macho::initial_scan(),
                prefix@,
                count,
                file_len,
            ),
        decreases commands.len() - index,
    {
        let ghost table = prefix@.skip(scan.command_offset as int);
        let ghost size = object_file::load_command_size(table) as int;
        let ghost rest = expected.skip(index as int);
        assert(rest[0] == expected[index as int]);
        match &commands[index] {
            Err(_) => {
                proof {
                    assert(expected[index as int] is None);
                    assert(rest.len() > 0 && count - index > 0);
                    if object_file::starts_with_load_command(table) {
                        assert(rest[0] == Some(table.take(size)));
                    }
                }
                if prefix.len() - scan.command_offset < LOAD_COMMAND_LEN {
                    return Err(invalid_data("Invalid Mach-O load command header"));
                }
                return Err(invalid_data("Invalid Mach-O load command size"));
            },
            Ok(raw) => {
                assert(object_file::starts_with_load_command(table));
                assert(raw@ == table.take(size));
                add_command(&mut scan, raw, file_len, prefix.len() as u64)?;
                proof {
                    assert(table.skip(size) =~= prefix@.skip(scan.command_offset as int));
                    assert(expected.skip(index + 1) =~= rest.skip(1));
                    assert(rest.skip(1) =~= object_file::load_commands_in(
                        table.skip(size),
                        (count - index - 1) as nat,
                    ));
                }
                index = index + 1;
            },
        }
    }
    assert(expected.skip(index as int).len() == 0);
    assert(count - index == 0);
    Ok(scan)
}

/// Whether any two of the ranges have something in common.
fn ranges_overlap(ranges: &Vec<(u64, u64)>) -> (found: bool)
    ensures
        found == any_overlap(ranges@),
{
    let mut i: usize = 0;
    while i < ranges.len()
        invariant
            i <= ranges.len(),
            forall|a: int, b: int|
                0 <= a < i && a < b < ranges.len() ==> !overlap(
                    #[trigger] ranges@[a],
                    #[trigger] ranges@[b],
                ),
        decreases ranges.len() - i,
    {
        let mut j: usize = i + 1;
        while j < ranges.len()
            invariant
                i < j <= ranges.len(),
                forall|a: int, b: int|
                    0 <= a < i && a < b < ranges.len() ==> !overlap(
                        #[trigger] ranges@[a],
                        #[trigger] ranges@[b],
                    ),
                forall|b: int| i < b < j ==> !overlap(ranges@[i as int], #[trigger] ranges@[b]),
            decreases ranges.len() - j,
        {
            if ranges[i].0 < ranges[j].1 && ranges[j].0 < ranges[i].1 {
                assert(overlap(ranges@[i as int], ranges@[j as int]));
                return true;
            }
            j = j + 1;
        }
        i = i + 1;
    }
    false
}

/// Whether one of the ranges holds `point`.
fn ranges_hold(ranges: &Vec<(u64, u64)>, point: u64) -> (found: bool)
    ensures
        found == any_holds(ranges@, point),
{
    let mut i: usize = 0;
    while i < ranges.len()
        invariant
            i <= ranges.len(),
            forall|a: int|
                0 <= a < i ==> !((#[trigger] ranges@[a]).0 <= point && point < ranges@[a].1),
        decreases ranges.len() - i,
    {
        if ranges[i].0 <= point && point < ranges[i].1 {
            assert(ranges@[i as int].0 <= point < ranges@[i as int].1);
            return true;
        }
        i = i + 1;
    }
    false
}

/// The highest end of the ranges, each of which has to lie in the `__LINKEDIT` segment.
fn check_referenced_ranges(ranges: &Vec<(u64, u64)>, linkedit: LinkeditSegment, file_len: u64) -> (
    result: Result<u64, RuntimeDataError>)
    ensures
        result == referenced_end(ranges@, 0, 0, linkedit, file_len),
{
    let mut highest: u64 = 0;
    let mut index: usize = 0;
    while index < ranges.len()
        invariant
            index <= ranges.len(),
            referenced_end(ranges@, index as int, highest, linkedit, file_len) == referenced_end(
                ranges@,
                0,
                0,
                linkedit,
                file_len,
            ),
        decreases ranges.len() - index,
    {
        let (offset, size): (u64, u64) = ranges[index];
        if size > u64::MAX - offset {
            return Err(invalid_data("Mach-O referenced file range overflow"));
        }
        let end: u64 = offset + size;
        if end > file_len {
            return Err(invalid_data("Mach-O load command references data past end of file"));
        }
        if offset < linkedit.fileoff || end as u128 > linkedit.fileoff as u128
            + linkedit.filesize as u128 {
            return Err(invalid_data("Mach-O link-edit data extends outside __LINKEDIT"));
        }
        if end > highest {
            highest = end;
        }
        index = index + 1;
    }
    Ok(highest)
}

/// Refuses load commands that do not describe a runtime.
fn check_scan(scan: &MachoScan, command_end: usize) -> (result: Result<(), RuntimeDataError>)
    ensures
        result == (match scan_error(scan@, command_end as int) {
            Some(error) => Err(error),
            None => Ok(()),
        }),
{
    if scan.command_offset != command_end {
        return Err(invalid_data("Mach-O load command size does not match header"));
    }
    if !scan.has_macos_platform_command {
        return Err(invalid_data("Mach-O runtime template has no macOS target platform command"));
    }
    if scan.text_segment_count != 1 {
        return Err(invalid_data("Mach-O runtime template must have exactly one __TEXT segment"));
    }
    if scan.dylinker_count != 1 {
        return Err(invalid_data("Mach-O runtime template must load exactly one /usr/lib/dyld"));
    }
    match scan.entry_point {
        None => {
            return Err(invalid_data("Mach-O runtime template has no LC_MAIN entry point"));
        },
        Some(entry_point) => {
            if !ranges_hold(&scan.executable_section_ranges, entry_point) {
                return Err(
                    invalid_data("Mach-O LC_MAIN entry point is outside executable file data"),
                );
            }
        },
    }
    if ranges_overlap(&scan.segment_ranges) {
        return Err(invalid_data("Mach-O file segments overlap"));
    }
    if ranges_overlap(&scan.virtual_ranges) {
        return Err(invalid_data("Mach-O virtual segments overlap"));
    }
    if scan.linkedit.is_none() {
        return Err(invalid_data("Mach-O binary has no __LINKEDIT segment"));
    }
    Ok(())
}

/// The layout that a whole scan adds up to.
fn layout_of_scan(scan: &MachoScan, header: MachoHeader, file_len: u64) -> (result: Result<
    MachOLayout,
    RuntimeDataError,
>)
    requires
        MACHO_HEADER_LEN + header.commands_len <= usize::MAX,
    ensures
        result == scanned_layout(scan@, header, file_len),
{
    let command_end: usize = MACHO_HEADER_LEN + header.commands_len as usize;
    check_scan(scan, command_end)?;
    let linkedit: LinkeditSegment = match scan.linkedit {
        Some(linkedit) => linkedit,
        None => {
            return Err(invalid_data("Mach-O binary has no __LINKEDIT segment"));
        },
    };
    let max_non_signature_data_end: u64 = check_referenced_ranges(
        &scan.referenced_ranges,
        linkedit,
        file_len,
    )?;
    if let Some(first) = scan.first_section_offset {
        if first < command_end as u64 || first > file_len {
            return Err(invalid_data("Mach-O load commands overlap section data"));
        }
    }
    Ok(
        MachOLayout {
            cpu_type: header.cpu_type,
            cpu_subtype: header.cpu_subtype,
            command_count: header.command_count,
            commands_len: header.commands_len,
            prefix_len: command_end,
            first_section_offset: scan.first_section_offset,
            linkedit_command_offset: linkedit.command_offset,
            linkedit_vmaddr: linkedit.vmaddr,
            linkedit_fileoff: linkedit.fileoff,
            linkedit_filesize: linkedit.filesize,
            max_segment_vmaddr: scan.max_segment_vmaddr,
            max_segment_fileoff: scan.max_segment_fileoff,
            max_non_signature_data_end,
            code_signature: scan.code_signature,
            reader_capability: scan.reader_capability,
        },
    )
}

/// The layout of the Mach-O executable `image`, or why a runtime cannot be stamped onto it.
pub fn read_macho_layout(image: &[u8]) -> (result: Result<MachOLayout, RuntimeDataError>)
    ensures
        result == macho_layout(image@),
{
    let header: MachoHeader = read_macho_header(image)?;
    let prefix: &[u8] = slice_subrange(
        image,
        0,
        MACHO_HEADER_LEN + header.commands_len as usize,
    );
    proof {
        assert(prefix@ =~= image@.take(MACHO_HEADER_LEN + header.commands_len));
        lemma_header_of_prefix(image@, prefix.len() as int);
    }
    let scan: MachoScan = read_commands(prefix, header, image.len() as u64)?;
    layout_of_scan(&scan, header, image.len() as u64)
}

/// The header of an image is that of every prefix that holds it.
pub proof fn lemma_header_of_prefix(image: Seq<u8>, len: int)
    requires
        MACHO_HEADER_LEN <= len <= image.len(),
    ensures
        macho_header(image.take(len)) == macho_header(image),
        object_file::has_macho_header(image.take(len)) == object_file::has_macho_header(image),
        object_file::has_little_endian_macho_magic(image.take(len))
            == object_file::has_little_endian_macho_magic(image),
{
    let prefix = image.take(len);
    assert forall|at: int| 0 <= at <= 28 implies #[trigger] bytes::le_u32(prefix, at)
        == bytes::le_u32(image, at) by {
        assert(prefix.subrange(at, at + 4) =~= image.subrange(at, at + 4));
        bytes::lemma_le_u32_window(prefix, at, image, at);
    }
}

} // verus!
