//! The layout of 64-bit Mach-O executables.

use vstd::prelude::*;

use crate::error::{invalid_data, RuntimeDataError};
use crate::object_file::MACHO_HEADER_LEN;

pub mod acceptance;
pub mod command;
pub mod final_layout;
pub mod growth;
pub mod laws;
pub mod layout;
pub mod preservation;
pub mod round_trip;
pub mod segment;
pub mod signing;
pub mod stamp;

verus! {

/// The most bytes of load commands that are read.
pub const MAX_MACHO_LOAD_COMMAND_BYTES: u32 = 1024 * 1024;

/// The alignment of a code signature in the file.
pub const MACHO_SIGNATURE_ALIGNMENT: u64 = 16;

/// The bytes of a code signature command.
pub const MACHO_CODE_SIGNATURE_LEN: usize = 16;

pub const CPU_TYPE_X86_64: u32 = 0x0100_0007;

pub const CPU_SUBTYPE_X86_64_ALL: u32 = 3;

pub const CPU_TYPE_ARM64: u32 = 0x0100_000c;

pub const CPU_SUBTYPE_ARM64_ALL: u32 = 0;

pub const MH_EXECUTE: u32 = 2;

pub const MH_DYLDLINK_PIE: u32 = 0x20_0004;

pub const MH_ALLOW_STACK_EXECUTION: u32 = 0x2_0000;

pub const VM_PROT_READ: u32 = 1;

pub const VM_PROT_WRITE: u32 = 2;

pub const VM_PROT_EXECUTE: u32 = 4;

pub const PLATFORM_MACOS: u32 = 1;

pub const S_REGULAR: u32 = 0;

pub const S_ZEROFILL: u32 = 0x1;

pub const S_GB_ZEROFILL: u32 = 0xc;

pub const S_THREAD_LOCAL_ZEROFILL: u32 = 0x12;

pub const LC_SYMTAB: u32 = 0x2;

pub const LC_THREAD: u32 = 0x4;

pub const LC_UNIXTHREAD: u32 = 0x5;

pub const LC_DYSYMTAB: u32 = 0xb;

pub const LC_LOAD_DYLIB: u32 = 0xc;

pub const LC_LOAD_DYLINKER: u32 = 0xe;

pub const LC_SEGMENT_64: u32 = 0x19;

pub const LC_UUID: u32 = 0x1b;

pub const LC_CODE_SIGNATURE: u32 = 0x1d;

pub const LC_SEGMENT_SPLIT_INFO: u32 = 0x1e;

pub const LC_LAZY_LOAD_DYLIB: u32 = 0x20;

pub const LC_DYLD_INFO: u32 = 0x22;

pub const LC_VERSION_MIN_MACOSX: u32 = 0x24;

pub const LC_VERSION_MIN_IPHONEOS: u32 = 0x25;

pub const LC_FUNCTION_STARTS: u32 = 0x26;

pub const LC_DATA_IN_CODE: u32 = 0x29;

pub const LC_SOURCE_VERSION: u32 = 0x2a;

pub const LC_DYLIB_CODE_SIGN_DRS: u32 = 0x2b;

pub const LC_LINKER_OPTIMIZATION_HINT: u32 = 0x2e;

pub const LC_VERSION_MIN_TVOS: u32 = 0x2f;

pub const LC_VERSION_MIN_WATCHOS: u32 = 0x30;

pub const LC_BUILD_VERSION: u32 = 0x32;

pub const LC_ATOM_INFO: u32 = 0x36;

pub const LC_FUNCTION_VARIANTS: u32 = 0x37;

pub const LC_FUNCTION_VARIANT_FIXUPS: u32 = 0x38;

pub const LC_LAZY_LOAD_DYLIB_INFO: u32 = 0x3a;

pub const LC_LOAD_WEAK_DYLIB: u32 = 0x8000_0018;

pub const LC_REEXPORT_DYLIB: u32 = 0x8000_001f;

pub const LC_DYLD_INFO_ONLY: u32 = 0x8000_0022;

pub const LC_LOAD_UPWARD_DYLIB: u32 = 0x8000_0023;

pub const LC_MAIN: u32 = 0x8000_0028;

pub const LC_DYLD_EXPORTS_TRIE: u32 = 0x8000_0033;

pub const LC_DYLD_CHAINED_FIXUPS: u32 = 0x8000_0034;

/// What a runtime needs to know of a Mach-O executable.
#[derive(Clone, Copy, Debug)]
pub struct MachOLayout {
    pub cpu_type: u32,
    pub cpu_subtype: u32,
    /// How many load commands there are.
    pub command_count: u32,
    /// How many bytes the load commands take.
    pub commands_len: u32,
    /// Where the header and the load commands end.
    pub prefix_len: usize,
    /// The lowest file offset of a section that has one.
    pub first_section_offset: Option<u64>,
    /// Where the command of the `__LINKEDIT` segment starts.
    pub linkedit_command_offset: usize,
    pub linkedit_vmaddr: u64,
    pub linkedit_fileoff: u64,
    pub linkedit_filesize: u64,
    pub max_segment_vmaddr: u64,
    pub max_segment_fileoff: u64,
    /// Where the last byte of link-edit data ends, apart from the code signature.
    pub max_non_signature_data_end: u64,
    /// Where the code signature command starts, and where the signature lies.
    pub code_signature: Option<(usize, u64, u64)>,
    /// Where the reader capability record lies.
    pub reader_capability: Option<(u64, u64)>,
}

/// The `__LINKEDIT` segment.
#[derive(Clone, Copy, Debug)]
pub struct LinkeditSegment {
    pub command_offset: usize,
    pub vmaddr: u64,
    pub fileoff: u64,
    pub filesize: u64,
}

/// What the load commands read so far say.
pub struct MachoScan {
    /// Where the next load command starts.
    pub command_offset: usize,
    pub first_section_offset: Option<u64>,
    pub linkedit: Option<LinkeditSegment>,
    pub max_segment_vmaddr: u64,
    pub max_segment_fileoff: u64,
    pub code_signature: Option<(usize, u64, u64)>,
    /// Start and end in the file of each segment that has file data.
    pub segment_ranges: Vec<(u64, u64)>,
    /// Start and end in memory of each segment that is mapped.
    pub virtual_ranges: Vec<(u64, u64)>,
    /// Offset and size of each piece of link-edit data.
    pub referenced_ranges: Vec<(u64, u64)>,
    /// Start and end in the file of each section that may be executed.
    pub executable_section_ranges: Vec<(u64, u64)>,
    pub has_macos_platform_command: bool,
    pub entry_point: Option<u64>,
    pub reader_capability: Option<(u64, u64)>,
    pub text_segment_count: u8,
    pub dylinker_count: u8,
}

/// The model of a [`MachoScan`].
#[verifier::ext_equal]
pub struct MachoScanView {
    pub command_offset: usize,
    pub first_section_offset: Option<u64>,
    pub linkedit: Option<LinkeditSegment>,
    pub max_segment_vmaddr: u64,
    pub max_segment_fileoff: u64,
    pub code_signature: Option<(usize, u64, u64)>,
    pub segment_ranges: Seq<(u64, u64)>,
    pub virtual_ranges: Seq<(u64, u64)>,
    pub referenced_ranges: Seq<(u64, u64)>,
    pub executable_section_ranges: Seq<(u64, u64)>,
    pub has_macos_platform_command: bool,
    pub entry_point: Option<u64>,
    pub reader_capability: Option<(u64, u64)>,
    pub text_segment_count: u8,
    pub dylinker_count: u8,
}

impl View for MachoScan {
    type V = MachoScanView;

    open spec fn view(&self) -> MachoScanView {
        MachoScanView {
            command_offset: self.command_offset,
            first_section_offset: self.first_section_offset,
            linkedit: self.linkedit,
            max_segment_vmaddr: self.max_segment_vmaddr,
            max_segment_fileoff: self.max_segment_fileoff,
            code_signature: self.code_signature,
            segment_ranges: self.segment_ranges@,
            virtual_ranges: self.virtual_ranges@,
            referenced_ranges: self.referenced_ranges@,
            executable_section_ranges: self.executable_section_ranges@,
            has_macos_platform_command: self.has_macos_platform_command,
            entry_point: self.entry_point,
            reader_capability: self.reader_capability,
            text_segment_count: self.text_segment_count,
            dylinker_count: self.dylinker_count,
        }
    }
}

/// A scan in which no load command was read.
pub open spec fn initial_scan() -> MachoScanView {
    MachoScanView {
        command_offset: MACHO_HEADER_LEN,
        first_section_offset: None,
        linkedit: None,
        max_segment_vmaddr: 0,
        max_segment_fileoff: 0,
        code_signature: None,
        segment_ranges: Seq::empty(),
        virtual_ranges: Seq::empty(),
        referenced_ranges: Seq::empty(),
        executable_section_ranges: Seq::empty(),
        has_macos_platform_command: false,
        entry_point: None,
        reader_capability: None,
        text_segment_count: 0,
        dylinker_count: 0,
    }
}

/// The range of a table of `count` entries, or none where it is empty.
pub open spec fn counted_range(offset: u32, count: u32, entry_size: int) -> Seq<(u64, u64)> {
    if count == 0 {
        Seq::empty()
    } else {
        seq![(offset as u64, (count * entry_size) as u64)]
    }
}

/// The range of `size` bytes, or none where there are no bytes.
pub open spec fn byte_range(offset: u64, size: u64) -> Seq<(u64, u64)> {
    if size == 0 {
        Seq::empty()
    } else {
        seq![(offset, size)]
    }
}

/// The range of a table of `count` entries of `entry_size` bytes, or `None` where it is empty.
pub fn macho_counted_range(offset: u32, count: u32, entry_size: usize) -> (range: Result<
    Option<(u64, u64)>,
    RuntimeDataError,
>)
    ensures
        count == 0 ==> range == Ok::<Option<(u64, u64)>, RuntimeDataError>(None),
        count != 0 && count * entry_size <= u64::MAX ==> range == Ok::<
            Option<(u64, u64)>,
            RuntimeDataError,
        >(Some((offset as u64, (count * entry_size) as u64))),
        count != 0 && count * entry_size > u64::MAX ==> range == Err::<
            Option<(u64, u64)>,
            RuntimeDataError,
        >(invalid_data("Mach-O table size overflow")),
{
    if count == 0 {
        return Ok(None);
    }
    match (count as u64).checked_mul(entry_size as u64) {
        Some(size) => Ok(Some((offset as u64, size))),
        None => Err(invalid_data("Mach-O table size overflow")),
    }
}

/// The range of `size` bytes, or `None` where there are no bytes.
pub fn macho_byte_range(offset: u64, size: u64) -> (range: Option<(u64, u64)>)
    ensures
        range == (if size == 0 {
            None
        } else {
            Some((offset, size))
        }),
{
    if size != 0 {
        Some((offset, size))
    } else {
        None
    }
}

/// Adds the range of a table of `count` entries, unless it is empty.
pub fn add_macho_counted_range(
    ranges: &mut Vec<(u64, u64)>,
    offset: u32,
    count: u32,
    entry_size: usize,
) -> (result: Result<(), RuntimeDataError>)
    ensures
        count * entry_size <= u64::MAX ==> result is Ok && final(ranges)@ == old(ranges)@
            + counted_range(offset, count, entry_size as int),
        count * entry_size > u64::MAX ==> result == Err::<(), RuntimeDataError>(
            invalid_data("Mach-O table size overflow"),
        ) && final(ranges)@ == old(ranges)@,
{
    let ghost before = ranges@;
    proof {
        assert(count == 0 ==> count * entry_size == 0) by (nonlinear_arith);
    }
    if let Some(range) = macho_counted_range(offset, count, entry_size)? {
        ranges.push(range);
    }
    assert(ranges@ =~= before + counted_range(offset, count, entry_size as int));
    Ok(())
}

/// Adds the range of `size` bytes, unless there are none.
pub fn add_macho_byte_range(ranges: &mut Vec<(u64, u64)>, offset: u64, size: u64)
    ensures
        final(ranges)@ == old(ranges)@ + byte_range(offset, size),
{
    let ghost before = ranges@;
    if let Some(range) = macho_byte_range(offset, size) {
        ranges.push(range);
    }
    assert(ranges@ =~= before + byte_range(offset, size));
}

/// The size of a load command whose kind fixes it.
pub open spec fn command_size_error(raw: Seq<u8>, expected: int) -> Option<RuntimeDataError> {
    if raw.len() != expected {
        Some(invalid_data("Mach-O load command has an invalid size"))
    } else {
        None
    }
}

/// Refuses a load command of another size than `expected`.
pub fn require_macho_command_size(raw: &[u8], expected: usize) -> (result: Result<
    (),
    RuntimeDataError,
>)
    ensures
        result == (match command_size_error(raw@, expected as int) {
            Some(error) => Err(error),
            None => Ok(()),
        }),
{
    if raw.len() != expected {
        return Err(invalid_data("Mach-O load command has an invalid size"));
    }
    Ok(())
}

} // verus!
