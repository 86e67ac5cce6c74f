//! Load commands.

use vstd::prelude::*;

use crate::bytes;
use crate::bytes::{read_u32, read_u64, same_bytes};
use crate::error::{invalid_data, RuntimeDataError};
use crate::macho;
use crate::macho::segment;
use crate::macho::segment::add_segment;
use crate::macho::{
    add_macho_byte_range, add_macho_counted_range, require_macho_command_size, MachoScan,
    MachoScanView, LC_ATOM_INFO, LC_BUILD_VERSION, LC_CODE_SIGNATURE, LC_DATA_IN_CODE,
    LC_DYLD_CHAINED_FIXUPS, LC_DYLD_EXPORTS_TRIE, LC_DYLD_INFO, LC_DYLD_INFO_ONLY,
    LC_DYLIB_CODE_SIGN_DRS, LC_DYSYMTAB, LC_FUNCTION_STARTS, LC_FUNCTION_VARIANTS,
    LC_FUNCTION_VARIANT_FIXUPS, LC_LAZY_LOAD_DYLIB, LC_LAZY_LOAD_DYLIB_INFO,
    LC_LINKER_OPTIMIZATION_HINT, LC_LOAD_DYLIB, LC_LOAD_DYLINKER, LC_LOAD_UPWARD_DYLIB,
    LC_LOAD_WEAK_DYLIB, LC_MAIN, LC_REEXPORT_DYLIB, LC_SEGMENT_64, LC_SEGMENT_SPLIT_INFO,
    LC_SOURCE_VERSION, LC_SYMTAB, LC_THREAD, LC_UNIXTHREAD, LC_UUID, LC_VERSION_MIN_IPHONEOS,
    LC_VERSION_MIN_MACOSX, LC_VERSION_MIN_TVOS, LC_VERSION_MIN_WATCHOS, MACHO_CODE_SIGNATURE_LEN,
    PLATFORM_MACOS,
};

verus! {

/// `/usr/lib/dyld`.
pub open spec fn dyld_path() -> Seq<u8> {
    seq![0x2f, 0x75, 0x73, 0x72, 0x2f, 0x6c, 0x69, 0x62, 0x2f, 0x64, 0x79, 0x6c, 0x64]
}

/// Why a load command whose kind fixes its size is refused for its size.
pub open spec fn fixed_command_error(raw: Seq<u8>, expected: int) -> Option<RuntimeDataError> {
    if raw.len() < expected {
        Some(invalid_data("Invalid Mach-O command size"))
    } else {
        macho::command_size_error(raw, expected)
    }
}

/// Whether `kind` names link-edit data by its offset and size.
pub open spec fn is_linkedit_data(kind: u32) -> bool {
    kind == LC_SEGMENT_SPLIT_INFO || kind == LC_FUNCTION_STARTS || kind == LC_DATA_IN_CODE || kind
        == LC_DYLIB_CODE_SIGN_DRS || kind == LC_LINKER_OPTIMIZATION_HINT || kind
        == LC_DYLD_EXPORTS_TRIE || kind == LC_DYLD_CHAINED_FIXUPS || kind == LC_ATOM_INFO || kind
        == LC_FUNCTION_VARIANTS || kind == LC_FUNCTION_VARIANT_FIXUPS || kind
        == LC_LAZY_LOAD_DYLIB_INFO
}

/// Whether `kind` names a library to load.
pub open spec fn is_dylib(kind: u32) -> bool {
    kind == LC_LOAD_DYLIB || kind == LC_LOAD_WEAK_DYLIB || kind == LC_REEXPORT_DYLIB || kind
        == LC_LAZY_LOAD_DYLIB || kind == LC_LOAD_UPWARD_DYLIB
}

/// The first index from `from` on at which `raw` holds a zero byte, or its length.
pub open spec fn first_zero(raw: Seq<u8>, from: int) -> int
    decreases raw.len() - from,
{
    if from >= raw.len() {
        raw.len() as int
    } else if raw[from] == 0 {
        from
    } else {
        first_zero(raw, from + 1)
    }
}

/// The zero-terminated string at `offset` in a load command.
pub open spec fn command_string(raw: Seq<u8>, offset: int) -> Option<Seq<u8>> {
    if first_zero(raw, offset) < raw.len() {
        Some(raw.subrange(offset, first_zero(raw, offset)))
    } else {
        None
    }
}

/// The scan after a command that names the target platform and its tools.
pub open spec fn scan_build_version(scan: MachoScanView, raw: Seq<u8>) -> Result<
    MachoScanView,
    RuntimeDataError,
> {
    if scan.has_macos_platform_command {
        Err(invalid_data("Mach-O runtime template has multiple target platform commands"))
    } else if raw.len() < 24 {
        Err(invalid_data("Invalid Mach-O command size"))
    } else if raw.len() != 24 + 8 * bytes::le_u32(raw, 20) {
        Err(invalid_data("Mach-O load command has an invalid size"))
    } else if bytes::le_u32(raw, 8) != PLATFORM_MACOS {
        Err(RuntimeDataError::MachoTarget(bytes::le_u32(raw, 8)))
    } else {
        Ok(MachoScanView { has_macos_platform_command: true, ..scan })
    }
}

/// The scan after a command that names the oldest supported macOS version.
pub open spec fn scan_version_min(scan: MachoScanView, raw: Seq<u8>) -> Result<
    MachoScanView,
    RuntimeDataError,
> {
    if scan.has_macos_platform_command {
        Err(invalid_data("Mach-O runtime template has multiple target platform commands"))
    } else {
        match fixed_command_error(raw, 16) {
            Some(error) => Err(error),
            None => Ok(MachoScanView { has_macos_platform_command: true, ..scan }),
        }
    }
}

/// The scan after a command that names the entry point.
pub open spec fn scan_main(scan: MachoScanView, raw: Seq<u8>) -> Result<
    MachoScanView,
    RuntimeDataError,
> {
    if scan.entry_point is Some {
        Err(invalid_data("Mach-O runtime template has multiple entry points"))
    } else {
        match fixed_command_error(raw, 24) {
            Some(error) => Err(error),
            None => if bytes::le_u64(raw, 16) != 0 {
                Err(invalid_data("Mach-O runtime template requests a custom main stack size"))
            } else {
                Ok(MachoScanView { entry_point: Some(bytes::le_u64(raw, 8)), ..scan })
            },
        }
    }
}

/// The range that the two fields at `at` give as offset and size.
pub open spec fn field_range(raw: Seq<u8>, at: int) -> Seq<(u64, u64)> {
    macho::byte_range(bytes::le_u32(raw, at) as u64, bytes::le_u32(raw, at + 4) as u64)
}

/// The range that the two fields at `at` give as offset and count of entries.
pub open spec fn field_table(raw: Seq<u8>, at: int, entry_size: int) -> Seq<(u64, u64)> {
    macho::counted_range(bytes::le_u32(raw, at), bytes::le_u32(raw, at + 4), entry_size)
}

/// The scan with more link-edit data.
pub open spec fn with_referenced(scan: MachoScanView, ranges: Seq<(u64, u64)>) -> MachoScanView {
    MachoScanView { referenced_ranges: scan.referenced_ranges + ranges, ..scan }
}

/// The link-edit data of a dynamic linker information command.
pub open spec fn dyld_info_ranges(raw: Seq<u8>) -> Seq<(u64, u64)> {
    field_range(raw, 8) + field_range(raw, 16) + field_range(raw, 24) + field_range(raw, 32)
        + field_range(raw, 40)
}

/// The link-edit data of a symbol table command.
pub open spec fn symtab_ranges(raw: Seq<u8>) -> Seq<(u64, u64)> {
    field_table(raw, 8, 16) + field_range(raw, 16)
}

/// The link-edit data of a dynamic symbol table command.
pub open spec fn dysymtab_ranges(raw: Seq<u8>) -> Seq<(u64, u64)> {
    field_table(raw, 32, 8) + field_table(raw, 40, 56) + field_table(raw, 48, 4) + field_table(
        raw,
        56,
        4,
    ) + field_table(raw, 64, segment::RELOCATION_INFO_LEN as int) + field_table(
        raw,
        72,
        segment::RELOCATION_INFO_LEN as int,
    )
}

/// The scan after a command of a fixed size that names link-edit data.
pub open spec fn scan_ranges(
    scan: MachoScanView,
    raw: Seq<u8>,
    expected: int,
    ranges: Seq<(u64, u64)>,
) -> Result<MachoScanView, RuntimeDataError> {
    match fixed_command_error(raw, expected) {
        Some(error) => Err(error),
        None => Ok(with_referenced(scan, ranges)),
    }
}

/// The scan after a command that names the dynamic linker.
pub open spec fn scan_dylinker(scan: MachoScanView, raw: Seq<u8>) -> Result<
    MachoScanView,
    RuntimeDataError,
> {
    if raw.len() < 12 {
        Err(invalid_data("Invalid Mach-O command size"))
    } else {
        match command_string(raw, bytes::le_u32(raw, 8) as int) {
            None => Err(invalid_data("Invalid load command string offset")),
            Some(path) => if path != dyld_path() {
                Err(invalid_data("Mach-O runtime template uses an unsupported dynamic linker"))
            } else if scan.dylinker_count == u8::MAX {
                Err(invalid_data("Mach-O dynamic linker count overflow"))
            } else {
                Ok(MachoScanView { dylinker_count: (scan.dylinker_count + 1) as u8, ..scan })
            },
        }
    }
}

/// The scan after a command that names a library.
pub open spec fn scan_dylib(scan: MachoScanView, raw: Seq<u8>) -> Result<
    MachoScanView,
    RuntimeDataError,
> {
    if raw.len() < 24 {
        Err(invalid_data("Invalid Mach-O command size"))
    } else {
        match command_string(raw, bytes::le_u32(raw, 8) as int) {
            None => Err(invalid_data("Invalid load command string offset")),
            Some(path) => if path.len() == 0 {
                Err(invalid_data("Mach-O dylib command has an empty path"))
            } else {
                Ok(scan)
            },
        }
    }
}

/// The scan after a code signature command.
pub open spec fn scan_code_signature(scan: MachoScanView, raw: Seq<u8>) -> Result<
    MachoScanView,
    RuntimeDataError,
> {
    if raw.len() != MACHO_CODE_SIGNATURE_LEN {
        Err(invalid_data("Mach-O code signature command has an invalid size"))
    } else if scan.code_signature is Some {
        Err(invalid_data("Mach-O binary has multiple code signatures"))
    } else {
        Ok(
            MachoScanView {
                code_signature: Some(
                    (
                        scan.command_offset,
                        bytes::le_u32(raw, 8) as u64,
                        bytes::le_u32(raw, 12) as u64,
                    ),
                ),
                ..scan
            },
        )
    }
}

/// The scan after the load command `raw`, whose kind is `kind`, with the offset of the next
/// command left as it was.
pub open spec fn scan_command_of_kind(
    scan: MachoScanView,
    kind: u32,
    raw: Seq<u8>,
    file_len: u64,
    command_end: u64,
) -> Result<MachoScanView, RuntimeDataError> {
    if kind == LC_SEGMENT_64 {
        segment::scan_segment(scan, raw, file_len, command_end)
    } else if kind == LC_BUILD_VERSION {
        scan_build_version(scan, raw)
    } else if kind == LC_VERSION_MIN_MACOSX {
        scan_version_min(scan, raw)
    } else if kind == LC_VERSION_MIN_IPHONEOS || kind == LC_VERSION_MIN_TVOS || kind
        == LC_VERSION_MIN_WATCHOS {
        Err(invalid_data("Mach-O runtime template does not target macOS"))
    } else if kind == LC_MAIN {
        scan_main(scan, raw)
    } else if kind == LC_THREAD || kind == LC_UNIXTHREAD {
        Err(invalid_data("legacy Mach-O thread entry points are not supported"))
    } else if kind == LC_DYLD_INFO || kind == LC_DYLD_INFO_ONLY {
        scan_ranges(scan, raw, 48, dyld_info_ranges(raw))
    } else if kind == LC_SYMTAB {
        scan_ranges(scan, raw, 24, symtab_ranges(raw))
    } else if kind == LC_DYSYMTAB {
        scan_ranges(scan, raw, 80, dysymtab_ranges(raw))
    } else if is_linkedit_data(kind) {
        scan_ranges(scan, raw, 16, field_range(raw, 8))
    } else if kind == LC_LOAD_DYLINKER {
        scan_dylinker(scan, raw)
    } else if is_dylib(kind) {
        scan_dylib(scan, raw)
    } else if kind == LC_UUID {
        scan_ranges(scan, raw, 24, Seq::empty())
    } else if kind == LC_SOURCE_VERSION {
        scan_ranges(scan, raw, 16, Seq::empty())
    } else if kind == LC_CODE_SIGNATURE {
        scan_code_signature(scan, raw)
    } else {
        Err(RuntimeDataError::MachoLoadCommand(kind))
    }
}

/// The scan after the load command `raw`.
pub open spec fn scan_command(
    scan: MachoScanView,
    raw: Seq<u8>,
    file_len: u64,
    command_end: u64,
) -> Result<MachoScanView, RuntimeDataError> {
    if raw.len() % 8 != 0 {
        Err(invalid_data("Mach-O load command has an invalid size"))
    } else {
        match scan_command_of_kind(scan, bytes::le_u32(raw, 0), raw, file_len, command_end) {
            Err(error) => Err(error),
            Ok(next) => Ok(
                MachoScanView {
                    command_offset: (scan.command_offset + raw.len()) as usize,
                    ..next
                },
            ),
        }
    }
}

/// Whether `result` and `scan` are what `expected` says of the scan after a command.
pub open spec fn scanned(
    expected: Result<MachoScanView, RuntimeDataError>,
    result: Result<(), RuntimeDataError>,
    scan: MachoScanView,
) -> bool {
    match expected {
        Ok(next) => result is Ok && scan == next,
        Err(error) => result == Err::<(), RuntimeDataError>(error),
    }
}

/// Refuses a load command that has not the size that its kind fixes.
fn require_fixed_size(raw: &[u8], expected: usize) -> (result: Result<(), RuntimeDataError>)
    ensures
        result == (match fixed_command_error(raw@, expected as int) {
            Some(error) => Err(error),
            None => Ok(()),
        }),
{
    if raw.len() < expected {
        return Err(invalid_data("Invalid Mach-O command size"));
    }
    require_macho_command_size(raw, expected)
}

/// The zero-terminated string at `offset` in the load command `raw`.
fn read_command_string(raw: &[u8], offset: u32) -> (result: Result<Vec<u8>, RuntimeDataError>)
    ensures
        match command_string(raw@, offset as int) {
            Some(string) => result is Ok && result->Ok_0@ == string,
            None => result == Err::<Vec<u8>, RuntimeDataError>(
                invalid_data("Invalid load command string offset"),
            ),
        },
{
    let start: usize = offset as usize;
    let mut string: Vec<u8> = Vec::new();
    let mut end: usize = start;
    while end < raw.len()
        invariant
            start <= end,
            start == offset,
            start <= raw.len() ==> end <= raw.len(),
            start > raw.len() ==> end == start,
            end <= raw.len() ==> string@ == raw@.subrange(start as int, end as int),
            first_zero(raw@, start as int) == first_zero(raw@, end as int),
        decreases raw.len() - end,
    {
        if raw[end] == 0 {
            return Ok(string);
        }
        string.push(raw[end]);
        assert(raw@.subrange(start as int, end + 1) =~= raw@.subrange(start as int, end as int).push(
            raw@[end as int],
        ));
        end = end + 1;
    }
    Err(invalid_data("Invalid load command string offset"))
}

/// Adds the range that the two fields at `at` give as offset and size.
fn add_field_range(ranges: &mut Vec<(u64, u64)>, raw: &[u8], at: usize)
    requires
        at + 8 <= raw.len(),
    ensures
        final(ranges)@ == old(ranges)@ + field_range(raw@, at as int),
{
    add_macho_byte_range(ranges, read_u32(raw, at) as u64, read_u32(raw, at + 4) as u64);
}

/// Adds the range that the two fields at `at` give as offset and count of entries.
fn add_field_table(ranges: &mut Vec<(u64, u64)>, raw: &[u8], at: usize, entry_size: usize)
    requires
        at + 8 <= raw.len(),
        entry_size <= 64,
    ensures
        final(ranges)@ == old(ranges)@ + field_table(raw@, at as int, entry_size as int),
{
    let count: u32 = read_u32(raw, at + 4);
    assert(count * entry_size <= u64::MAX) by (nonlinear_arith)
        requires
            entry_size <= 64,
    ;
    let _ = add_macho_counted_range(ranges, read_u32(raw, at), count, entry_size);
}

/// Notes a command that names the target platform and its tools.
fn add_build_version(scan: &mut MachoScan, raw: &[u8]) -> (result: Result<(), RuntimeDataError>)
    ensures
        scanned(scan_build_version(old(scan)@, raw@), result, final(scan)@),
{
    if scan.has_macos_platform_command {
        return Err(
            invalid_data("Mach-O runtime template has multiple target platform commands"),
        );
    }
    if raw.len() < 24 {
        return Err(invalid_data("Invalid Mach-O command size"));
    }
    if raw.len() as u64 != 24 + 8 * read_u32(raw, 20) as u64 {
        return Err(invalid_data("Mach-O load command has an invalid size"));
    }
    let platform: u32 = read_u32(raw, 8);
    if platform != PLATFORM_MACOS {
        return Err(RuntimeDataError::MachoTarget(platform));
    }
    scan.has_macos_platform_command = true;
    Ok(())
}

/// Notes a command that names the oldest supported macOS version.
fn add_version_min(scan: &mut MachoScan, raw: &[u8]) -> (result: Result<(), RuntimeDataError>)
    ensures
        scanned(scan_version_min(old(scan)@, raw@), result, final(scan)@),
{
    if scan.has_macos_platform_command {
        return Err(
            invalid_data("Mach-O runtime template has multiple target platform commands"),
        );
    }
    require_fixed_size(raw, 16)?;
    scan.has_macos_platform_command = true;
    Ok(())
}

/// Notes a command that names the entry point.
fn add_main(scan: &mut MachoScan, raw: &[u8]) -> (result: Result<(), RuntimeDataError>)
    ensures
        scanned(scan_main(old(scan)@, raw@), result, final(scan)@),
{
    if scan.entry_point.is_some() {
        return Err(invalid_data("Mach-O runtime template has multiple entry points"));
    }
    require_fixed_size(raw, 24)?;
    if read_u64(raw, 16) != 0 {
        return Err(invalid_data("Mach-O runtime template requests a custom main stack size"));
    }
    scan.entry_point = Some(read_u64(raw, 8));
    Ok(())
}

/// Notes the link-edit data of a dynamic linker information command.
fn add_dyld_info(scan: &mut MachoScan, raw: &[u8]) -> (result: Result<(), RuntimeDataError>)
    ensures
        scanned(
            scan_ranges(old(scan)@, raw@, 48, dyld_info_ranges(raw@)),
            result,
            final(scan)@,
        ),
{
    let ghost before = scan@;
    require_fixed_size(raw, 48)?;
    add_field_range(&mut scan.referenced_ranges, raw, 8);
    add_field_range(&mut scan.referenced_ranges, raw, 16);
    add_field_range(&mut scan.referenced_ranges, raw, 24);
    add_field_range(&mut scan.referenced_ranges, raw, 32);
    add_field_range(&mut scan.referenced_ranges, raw, 40);
    assert(scan@ =~= with_referenced(before, dyld_info_ranges(raw@)));
    Ok(())
}

/// Notes the link-edit data of a symbol table command.
fn add_symtab(scan: &mut MachoScan, raw: &[u8]) -> (result: Result<(), RuntimeDataError>)
    ensures
        scanned(scan_ranges(old(scan)@, raw@, 24, symtab_ranges(raw@)), result, final(scan)@),
{
    let ghost before = scan@;
    require_fixed_size(raw, 24)?;
    add_field_table(&mut scan.referenced_ranges, raw, 8, 16);
    add_field_range(&mut scan.referenced_ranges, raw, 16);
    assert(scan@ =~= with_referenced(before, symtab_ranges(raw@)));
    Ok(())
}

/// Notes the link-edit data of a dynamic symbol table command.
fn add_dysymtab(scan: &mut MachoScan, raw: &[u8]) -> (result: Result<(), RuntimeDataError>)
    ensures
        scanned(scan_ranges(old(scan)@, raw@, 80, dysymtab_ranges(raw@)), result, final(scan)@),
{
    let ghost before = scan@;
    require_fixed_size(raw, 80)?;
    add_field_table(&mut scan.referenced_ranges, raw, 32, 8);
    add_field_table(&mut scan.referenced_ranges, raw, 40, 56);
    add_field_table(&mut scan.referenced_ranges, raw, 48, 4);
    add_field_table(&mut scan.referenced_ranges, raw, 56, 4);
    add_field_table(&mut scan.referenced_ranges, raw, 64, segment::RELOCATION_INFO_LEN);
    add_field_table(&mut scan.referenced_ranges, raw, 72, segment::RELOCATION_INFO_LEN);
    assert(scan@ =~= with_referenced(before, dysymtab_ranges(raw@)));
    Ok(())
}

/// Notes the link-edit data that a command names by its offset and size.
fn add_linkedit_data(scan: &mut MachoScan, raw: &[u8]) -> (result: Result<(), RuntimeDataError>)
    ensures
        scanned(scan_ranges(old(scan)@, raw@, 16, field_range(raw@, 8)), result, final(scan)@),
{
    let ghost before = scan@;
    require_fixed_size(raw, 16)?;
    add_field_range(&mut scan.referenced_ranges, raw, 8);
    assert(scan@ =~= with_referenced(before, field_range(raw@, 8)));
    Ok(())
}

/// Notes a command that names the dynamic linker.
fn add_dylinker(scan: &mut MachoScan, raw: &[u8]) -> (result: Result<(), RuntimeDataError>)
    ensures
        scanned(scan_dylinker(old(scan)@, raw@), result, final(scan)@),
{
    if raw.len() < 12 {
        return Err(invalid_data("Invalid Mach-O command size"));
    }
    let path: Vec<u8> = read_command_string(raw, read_u32(raw, 8))?;
    let dyld: [u8; 13] = [
        0x2f, 0x75, 0x73, 0x72, 0x2f, 0x6c, 0x69, 0x62, 0x2f, 0x64, 0x79, 0x6c, 0x64,
    ];
    assert(dyld@ =~= dyld_path());
    if !same_bytes(&path, &dyld) {
        return Err(invalid_data("Mach-O runtime template uses an unsupported dynamic linker"));
    }
    if scan.dylinker_count == u8::MAX {
        return Err(invalid_data("Mach-O dynamic linker count overflow"));
    }
    scan.dylinker_count = scan.dylinker_count + 1;
    Ok(())
}

/// Refuses a library command without a path.
fn check_dylib(raw: &[u8]) -> (result: Result<(), RuntimeDataError>)
    ensures
        forall|scan: MachoScanView| #[trigger]
            scanned(scan_dylib(scan, raw@), result, scan),
{
    if raw.len() < 24 {
        return Err(invalid_data("Invalid Mach-O command size"));
    }
    let path: Vec<u8> = read_command_string(raw, read_u32(raw, 8))?;
    if path.len() == 0 {
        return Err(invalid_data("Mach-O dylib command has an empty path"));
    }
    Ok(())
}

/// Notes a code signature command.
fn add_code_signature(scan: &mut MachoScan, raw: &[u8]) -> (result: Result<(), RuntimeDataError>)
    ensures
        scanned(scan_code_signature(old(scan)@, raw@), result, final(scan)@),
{
    if raw.len() != MACHO_CODE_SIGNATURE_LEN {
        return Err(invalid_data("Mach-O code signature command has an invalid size"));
    }
    if scan.code_signature.is_some() {
        return Err(invalid_data("Mach-O binary has multiple code signatures"));
    }
    scan.code_signature =
    Some((scan.command_offset, read_u32(raw, 8) as u64, read_u32(raw, 12) as u64));
    Ok(())
}

/// Notes the load command `raw`, whose kind is `kind`.
fn add_command_of_kind(
    scan: &mut MachoScan,
    kind: u32,
    raw: &[u8],
    file_len: u64,
    command_end: u64,
) -> (result: Result<(), RuntimeDataError>)
    ensures
        scanned(
            scan_command_of_kind(old(scan)@, kind, raw@, file_len, command_end),
            result,
            final(scan)@,
        ),
{
    if kind == LC_SEGMENT_64 {
        add_segment(scan, raw, file_len, command_end)
    } else if kind == LC_BUILD_VERSION {
        add_build_version(scan, raw)
    } else if kind == LC_VERSION_MIN_MACOSX {
        add_version_min(scan, raw)
    } else if kind == LC_VERSION_MIN_IPHONEOS || kind == LC_VERSION_MIN_TVOS || kind
        == LC_VERSION_MIN_WATCHOS {
        Err(invalid_data("Mach-O runtime template does not target macOS"))
    } else if kind == LC_MAIN {
        add_main(scan, raw)
    } else if kind == LC_THREAD || kind == LC_UNIXTHREAD {
        Err(invalid_data("legacy Mach-O thread entry points are not supported"))
    } else if kind == LC_DYLD_INFO || kind == LC_DYLD_INFO_ONLY {
        add_dyld_info(scan, raw)
    } else if kind == LC_SYMTAB {
        add_symtab(scan, raw)
    } else if kind == LC_DYSYMTAB {
        add_dysymtab(scan, raw)
    } else if kind == LC_SEGMENT_SPLIT_INFO || kind == LC_FUNCTION_STARTS || kind
        == LC_DATA_IN_CODE || kind == LC_DYLIB_CODE_SIGN_DRS || kind
        == LC_LINKER_OPTIMIZATION_HINT || kind == LC_DYLD_EXPORTS_TRIE || kind
        == LC_DYLD_CHAINED_FIXUPS || kind == LC_ATOM_INFO || kind == LC_FUNCTION_VARIANTS || kind
        == LC_FUNCTION_VARIANT_FIXUPS || kind == LC_LAZY_LOAD_DYLIB_INFO {
        add_linkedit_data(scan, raw)
    } else if kind == LC_LOAD_DYLINKER {
        add_dylinker(scan, raw)
    } else if kind == LC_LOAD_DYLIB || kind == LC_LOAD_WEAK_DYLIB || kind == LC_REEXPORT_DYLIB
        || kind == LC_LAZY_LOAD_DYLIB || kind == LC_LOAD_UPWARD_DYLIB {
        let result = check_dylib(raw);
        assert(scanned(scan_dylib(scan@, raw@), result, scan@));
        result
    } else if kind == LC_UUID {
        let result = require_fixed_size(raw, 24);
        assert(with_referenced(scan@, Seq::empty()) =~= scan@);
        result
    } else if kind == LC_SOURCE_VERSION {
        let result = require_fixed_size(raw, 16);
        assert(with_referenced(scan@, Seq::empty()) =~= scan@);
        result
    } else if kind == LC_CODE_SIGNATURE {
        add_code_signature(scan, raw)
    } else {
        Err(RuntimeDataError::MachoLoadCommand(kind))
    }
}

/// Notes the load command `raw`.
pub(crate) fn add_command(scan: &mut MachoScan, raw: &[u8], file_len: u64, command_end: u64) -> (result:
    Result<(), RuntimeDataError>)
    requires
        raw.len() >= 4,
        old(scan).command_offset + raw.len() <= usize::MAX,
    ensures
        scanned(scan_command(old(scan)@, raw@, file_len, command_end), result, final(scan)@),
{
    let next_command_offset: usize = scan.command_offset + raw.len();
    if raw.len() % 8 != 0 {
        return Err(invalid_data("Mach-O load command has an invalid size"));
    }
    add_command_of_kind(scan, read_u32(raw, 0), raw, file_len, command_end)?;
    scan.command_offset = next_command_offset;
    Ok(())
}

} // verus!
