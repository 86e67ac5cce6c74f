//! What the `object` crate finds in an executable.
//!
//! `object` decides whether headers, load commands and section tables lie within the data, and
//! hands out their bytes. The fields in those bytes are read with [`crate::bytes`].

use object::endian::LittleEndian;
use object::macho::{MachHeader64, SegmentCommand64};
use object::pe::{ImageNtHeaders32, ImageNtHeaders64};
use object::pod::{bytes_of, bytes_of_slice, from_bytes};
use object::read::macho::{MachHeader, Segment};
use object::read::pe::PeFile;
use object::FileKind;
use vstd::prelude::*;

use crate::bytes;
use crate::macho::{S_GB_ZEROFILL, S_THREAD_LOCAL_ZEROFILL, S_ZEROFILL};
use crate::pe::PeKind;

verus! {

/// The error of the `object` crate.
#[verifier::external_type_specification]
#[verifier::external_body]
pub struct ExObjectError(object::Error);

/// The bytes of a 64-bit Mach-O header.
pub const MACHO_HEADER_LEN: usize = 32;

/// The bytes of a load command's kind and size.
pub const LOAD_COMMAND_LEN: usize = 8;

/// The bytes of a 64-bit segment command before its sections.
pub const SEGMENT_COMMAND_LEN: usize = 72;

/// The bytes of a 64-bit section of a segment command.
pub const SECTION_LEN: usize = 80;

/// The bytes of a DOS header.
pub const DOS_HEADER_LEN: usize = 64;

/// Where a DOS header holds the offset of the NT headers.
pub const NT_HEADERS_POINTER: usize = 60;

/// The NT headers before the optional header: a signature and a file header.
pub const OPTIONAL_HEADER_START: usize = 24;

/// The bytes of an entry of the section table.
pub const SECTION_HEADER_LEN: usize = 40;

/// Whether `data` starts with the magic of a little-endian 64-bit Mach-O header.
pub open spec fn has_little_endian_macho_magic(data: Seq<u8>) -> bool {
    data[0] == 0xcf && data[1] == 0xfa && data[2] == 0xed && data[3] == 0xfe
}

/// Whether `data` starts with the magic of a big-endian 64-bit Mach-O header.
pub open spec fn has_big_endian_macho_magic(data: Seq<u8>) -> bool {
    data[0] == 0xfe && data[1] == 0xed && data[2] == 0xfa && data[3] == 0xcf
}

/// Whether `data` starts with a 64-bit Mach-O header of either byte order.
pub open spec fn has_macho_header(data: Seq<u8>) -> bool {
    data.len() >= MACHO_HEADER_LEN && (has_little_endian_macho_magic(data)
        || has_big_endian_macho_magic(data))
}

/// How many load commands a little-endian Mach-O header counts.
pub open spec fn macho_command_count(data: Seq<u8>) -> u32 {
    bytes::le_u32(data, 16)
}

/// How many bytes of load commands a little-endian Mach-O header counts.
pub open spec fn macho_commands_len(data: Seq<u8>) -> u32 {
    bytes::le_u32(data, 20)
}

/// The size that the load command at the start of `table` declares.
pub open spec fn load_command_size(table: Seq<u8>) -> u32 {
    bytes::le_u32(table, 4)
}

/// Whether `table` starts with a whole load command.
pub open spec fn starts_with_load_command(table: Seq<u8>) -> bool {
    table.len() >= LOAD_COMMAND_LEN && LOAD_COMMAND_LEN <= load_command_size(table)
        <= table.len()
}

/// The bytes of each of the first `count` load commands of `table`, up to the first one that
/// does not lie within `table`, in whose place stands `None`.
pub open spec fn load_commands_in(table: Seq<u8>, count: nat) -> Seq<Option<Seq<u8>>>
    decreases count,
{
    if count == 0 {
        Seq::empty()
    } else if !starts_with_load_command(table) {
        seq![None]
    } else {
        let size = load_command_size(table) as int;
        seq![Some(table.take(size))] + load_commands_in(table.skip(size), (count - 1) as nat)
    }
}

/// Whether the Mach-O header at the start of `data` is little-endian.
///
/// `MachHeader64::parse` reads the 32 bytes of the header and accepts the 64-bit magic of either
/// byte order; `is_little_endian` tells which of them it is.
#[verifier::external_body]
pub(crate) fn macho_header_is_little_endian(data: &[u8]) -> (result: Result<bool, object::Error>)
    ensures
        result is Ok <==> has_macho_header(data@),
        result matches Ok(little_endian) ==> little_endian == has_little_endian_macho_magic(data@),
{
    let header = MachHeader64::<LittleEndian>::parse(data, 0)?;
    Ok(header.is_little_endian())
}

/// The load commands behind the little-endian Mach-O header at the start of `data`.
///
/// `MachHeader64::load_commands` takes the declared bytes behind the header, and its iterator
/// yields the bytes of each declared command, or an error for the first that is shorter than its
/// kind and size or reaches past the declared bytes, and nothing after an error.
#[verifier::external_body]
pub(crate) fn macho_load_commands<'a>(data: &'a [u8]) -> (result: Result<
    Vec<Result<&'a [u8], object::Error>>,
    object::Error,
>)
    requires
        has_macho_header(data@),
        has_little_endian_macho_magic(data@),
        data.len() == MACHO_HEADER_LEN + macho_commands_len(data@),
    ensures
        result is Ok,
        result matches Ok(commands) ==> {
            let expected = load_commands_in(
                data@.skip(MACHO_HEADER_LEN as int),
                macho_command_count(data@) as nat,
            );
            &&& commands.len() == expected.len()
            &&& forall|i: int|
                0 <= i < expected.len() ==> match #[trigger] expected[i] {
                    Some(command) => commands[i] is Ok && commands[i]->Ok_0@ == command,
                    None => commands[i] is Err,
                }
        },
{
    let header = MachHeader64::<LittleEndian>::parse(data, 0)?;
    let commands = header.load_commands(LittleEndian, data, 0)?;
    Ok(commands.map(|command| command.map(|command| command.raw_data())).collect())
}

/// How many sections a 64-bit segment command declares.
pub open spec fn segment_section_count(segment: Seq<u8>) -> u32 {
    bytes::le_u32(segment, 64)
}

/// The 32-bit file offset that section `index` of a 64-bit segment command declares.
pub open spec fn declared_section_offset(segment: Seq<u8>, index: int) -> u32 {
    bytes::le_u32(segment, SEGMENT_COMMAND_LEN + index * SECTION_LEN + 48)
}

/// Where a 64-bit segment command starts its segment in the file.
pub open spec fn segment_file_start(segment: Seq<u8>) -> u64 {
    bytes::le_u64(segment, 40)
}

/// The sum of `left` and `right` in 64 bits.
pub open spec fn wrapped_sum(left: int, right: int) -> u64 {
    ((left + right) % 0x1_0000_0000_0000_0000) as u64
}

/// Where a 64-bit segment command ends its segment in the file.
pub open spec fn segment_file_end(segment: Seq<u8>) -> u64 {
    wrapped_sum(segment_file_start(segment) as int, bytes::le_u64(segment, 48) as int)
}

/// How many bytes section `index` of a 64-bit segment command has in the file, or `None` where
/// its kind has none.
pub open spec fn section_file_size(segment: Seq<u8>, index: int) -> Option<u64> {
    let at = SEGMENT_COMMAND_LEN + index * SECTION_LEN;
    let kind = bytes::le_u32(segment, at + 64) & 0xff;
    if kind == S_ZEROFILL || kind == S_GB_ZEROFILL || kind == S_THREAD_LOCAL_ZEROFILL {
        None
    } else {
        Some(bytes::le_u64(segment, at + 40))
    }
}

/// The lowest offset that is not below `previous` and whose lower 32 bits are `declared`.
pub open spec fn offset_not_below(previous: u64, declared: u32) -> u64 {
    let near = previous - previous % 0x1_0000_0000 + declared;
    if near < previous {
        wrapped_sum(near, 0x1_0000_0000)
    } else {
        near as u64
    }
}

/// Where the file data of the sections before `index` of a large segment ends, which is where the
/// segment starts where they have none.
pub open spec fn sections_file_end(segment: Seq<u8>, index: int) -> u64
    decreases index,
{
    if index <= 0 {
        segment_file_start(segment)
    } else {
        let previous = sections_file_end(segment, index - 1);
        match section_file_size(segment, index - 1) {
            Some(size) => wrapped_sum(
                offset_not_below(previous, declared_section_offset(segment, index - 1)) as int,
                size as int,
            ),
            None => previous,
        }
    }
}

/// The file offset of section `index` of a 64-bit segment command, or `None` where there is none.
///
/// A section declares the lower 32 bits of its offset. In a segment that ends within the first
/// 4 GiB these are all of it. In a larger one, a section with file data starts behind the data of
/// the sections before it, at the next offset with these bits, and has to end within the segment.
#[verifier::opaque]
pub open spec fn section_file_offset(segment: Seq<u8>, index: int) -> Option<u64> {
    let declared = declared_section_offset(segment, index);
    if segment_file_end(segment) <= u32::MAX {
        Some(declared as u64)
    } else {
        match section_file_size(segment, index) {
            None => Some(declared as u64),
            Some(size) => {
                let offset = offset_not_below(sections_file_end(segment, index), declared);
                if wrapped_sum(offset as int, size as int) > segment_file_end(segment) {
                    None
                } else {
                    Some(offset)
                }
            },
        }
    }
}

/// The file offset of each section of a 64-bit segment command, up to the first that has none.
///
/// `Segment::section_offsets` hands out the declared offset of each section of a segment that
/// ends within the first 4 GiB. In a larger segment it makes up the upper bits of the offsets from
/// the order of the sections, and ends with an error at the first that would reach past the
/// segment.
#[verifier::external_body]
pub(crate) fn macho_section_offsets(segment: &[u8]) -> (offsets: Vec<Result<u64, object::Error>>)
    requires
        segment.len() == SEGMENT_COMMAND_LEN + segment_section_count(segment@) * SECTION_LEN,
    ensures
        offsets.len() <= segment_section_count(segment@),
        forall|i: int|
            #![trigger section_file_offset(segment@, i)]
            #![trigger offsets@[i]]
            0 <= i < offsets.len() ==> match section_file_offset(segment@, i) {
                Some(offset) => offsets[i] == Ok::<u64, object::Error>(offset),
                None => offsets[i] is Err && i + 1 == offsets.len(),
            },
        offsets.len() < segment_section_count(segment@) ==> offsets.len() > 0
            && offsets@.last() is Err,
{
    let Ok((command, tail)) = from_bytes::<SegmentCommand64<LittleEndian>>(segment) else {
        return Vec::new();
    };
    let sections = command.sections(LittleEndian, tail).unwrap_or_default();
    let offsets = command.section_offsets(LittleEndian, sections);
    offsets.map(|section| section.map(|(_, offset)| offset)).collect()
}

/// Whether `image` starts as a DOS program does.
pub open spec fn has_dos_magic(image: Seq<u8>) -> bool {
    image.len() >= 2 && image[0] == 0x4d && image[1] == 0x5a
}

/// Where a DOS program holds its NT headers.
pub open spec fn nt_headers_offset(image: Seq<u8>) -> int {
    bytes::le_u32(image, NT_HEADERS_POINTER as int) as int
}

/// Whether the NT headers start with their signature.
pub open spec fn has_nt_signature(image: Seq<u8>) -> bool {
    bytes::le_u32(image, nt_headers_offset(image)) == 0x4550
}

/// The magic of the optional header.
pub open spec fn optional_header_magic(image: Seq<u8>) -> u16 {
    bytes::le_u16(image, nt_headers_offset(image) + OPTIONAL_HEADER_START)
}

/// The magic that an optional header of `kind` starts with.
pub open spec fn optional_magic(kind: PeKind) -> u16 {
    match kind {
        PeKind::Pe32 => 0x10b,
        PeKind::Pe64 => 0x20b,
    }
}

/// The bytes of an optional header of `kind` before its data directories.
pub open spec fn optional_fixed_size(kind: PeKind) -> int {
    match kind {
        PeKind::Pe32 => 96,
        PeKind::Pe64 => 112,
    }
}

/// The kind of PE image that `image` is, or `None` where it is some other DOS program.
pub open spec fn pe_kind(image: Seq<u8>) -> Option<PeKind> {
    if image.len() < DOS_HEADER_LEN || nt_headers_offset(image) + OPTIONAL_HEADER_START
        + optional_fixed_size(PeKind::Pe32) > image.len() || !has_nt_signature(image) {
        None
    } else if optional_header_magic(image) == optional_magic(PeKind::Pe32) {
        Some(PeKind::Pe32)
    } else if optional_header_magic(image) == optional_magic(PeKind::Pe64) {
        Some(PeKind::Pe64)
    } else {
        None
    }
}

/// The kind of PE image that a DOS program is.
///
/// `FileKind::parse` looks at the signature of the NT headers and at the magic of the optional
/// header, both of which have to lie within the data with the rest of a PE32 optional header,
/// and refuses every other DOS program.
#[verifier::external_body]
pub(crate) fn pe_file_kind(image: &[u8]) -> (result: Result<Option<PeKind>, object::Error>)
    requires
        has_dos_magic(image@),
    ensures
        match pe_kind(image@) {
            Some(kind) => result == Ok::<Option<PeKind>, object::Error>(Some(kind)),
            None => result is Err,
        },
{
    Ok(match FileKind::parse(image)? {
        FileKind::Pe32 => Some(PeKind::Pe32),
        FileKind::Pe64 => Some(PeKind::Pe64),
        _ => None,
    })
}

/// The parts of a PE image that describe it.
pub struct PeTables {
    /// The signature, the file header and the optional header before its data directories.
    pub headers: Vec<u8>,
    /// The data directories.
    pub directories: Vec<u8>,
    /// The section table.
    pub sections: Vec<u8>,
}

/// The size that the file header declares for the optional header.
pub open spec fn optional_header_size(image: Seq<u8>) -> u16 {
    bytes::le_u16(image, nt_headers_offset(image) + 20)
}

/// How many sections the file header counts.
pub open spec fn pe_section_count(image: Seq<u8>) -> u16 {
    bytes::le_u16(image, nt_headers_offset(image) + 6)
}

/// How many data directories the optional header of `kind` counts.
pub open spec fn directory_count(image: Seq<u8>, kind: PeKind) -> u32 {
    bytes::le_u32(
        image,
        nt_headers_offset(image) + OPTIONAL_HEADER_START + optional_fixed_size(kind) - 4,
    )
}

/// Where the data directories of `kind` start.
pub open spec fn directories_offset(image: Seq<u8>, kind: PeKind) -> int {
    nt_headers_offset(image) + OPTIONAL_HEADER_START + optional_fixed_size(kind)
}

/// Where the section table starts.
pub open spec fn pe_section_table_offset(image: Seq<u8>) -> int {
    nt_headers_offset(image) + OPTIONAL_HEADER_START + optional_header_size(image)
}

/// Why the tables of a PE image of `kind` cannot be read, in the words of `object`.
pub open spec fn pe_tables_fault(image: Seq<u8>, kind: PeKind) -> Option<&'static str> {
    if image.len() < DOS_HEADER_LEN {
        Some("Invalid DOS header size or alignment")
    } else if !has_dos_magic(image) {
        Some("Invalid DOS magic")
    } else if directories_offset(image, kind) > image.len() {
        Some("Invalid PE headers offset or size")
    } else if !has_nt_signature(image) {
        Some("Invalid PE magic")
    } else if optional_header_magic(image) != optional_magic(kind) {
        Some("Invalid PE optional header magic")
    } else if optional_header_size(image) < optional_fixed_size(kind) {
        Some("PE optional header size is too small")
    } else if pe_section_table_offset(image) > image.len() {
        Some("Invalid PE optional header size")
    } else if 8 * directory_count(image, kind) > optional_header_size(image)
        - optional_fixed_size(kind) {
        Some("Invalid PE number of RVA and sizes")
    } else if pe_section_table_offset(image) + SECTION_HEADER_LEN * pe_section_count(image)
        > image.len() {
        Some("Invalid COFF/PE section headers")
    } else {
        None
    }
}

/// Whether `tables` are those of a PE image of `kind`.
pub open spec fn are_pe_tables(image: Seq<u8>, kind: PeKind, tables: PeTables) -> bool {
    let headers = nt_headers_offset(image);
    let directories = directories_offset(image, kind);
    let sections = pe_section_table_offset(image);
    &&& tables.headers@ == image.subrange(headers, directories)
    &&& tables.directories@ == image.subrange(
        directories,
        directories + 8 * directory_count(image, kind),
    )
    &&& tables.sections@ == image.subrange(
        sections,
        sections + SECTION_HEADER_LEN * pe_section_count(image),
    )
}

/// The tables of a PE32 image.
///
/// `PeFile::parse` finds the NT headers through the DOS header, and the data directories and the
/// section table through the NT headers, each of which has to lie within the data.
#[verifier::external_body]
pub(crate) fn pe32_tables(image: &[u8]) -> (result: Result<PeTables, object::Error>)
    ensures
        result is Err <==> pe_tables_fault(image@, PeKind::Pe32) is Some,
        result matches Ok(tables) ==> are_pe_tables(image@, PeKind::Pe32, tables),
{
    let file = PeFile::<ImageNtHeaders32>::parse(image)?;
    Ok(PeTables {
        headers: bytes_of(file.nt_headers()).to_vec(),
        directories: bytes_of_slice(file.data_directories().iter().as_slice()).to_vec(),
        sections: bytes_of_slice(file.section_table().iter().as_slice()).to_vec(),
    })
}

/// The tables of a PE32+ image, found as those of a PE32 image are.
#[verifier::external_body]
pub(crate) fn pe64_tables(image: &[u8]) -> (result: Result<PeTables, object::Error>)
    ensures
        result is Err <==> pe_tables_fault(image@, PeKind::Pe64) is Some,
        result matches Ok(tables) ==> are_pe_tables(image@, PeKind::Pe64, tables),
{
    let file = PeFile::<ImageNtHeaders64>::parse(image)?;
    Ok(PeTables {
        headers: bytes_of(file.nt_headers()).to_vec(),
        directories: bytes_of_slice(file.data_directories().iter().as_slice()).to_vec(),
        sections: bytes_of_slice(file.section_table().iter().as_slice()).to_vec(),
    })
}

} // verus!
