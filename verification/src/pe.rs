//! The layout of PE images.

use vstd::prelude::*;

use crate::align;
use crate::bytes;
use crate::capability::READER_CAPABILITY_RECORD_LEN;
use crate::error::{invalid_data, RuntimeDataError};
use crate::footer::FOOTER_LEN;
use crate::object_file;
use crate::object_file::{DOS_HEADER_LEN, OPTIONAL_HEADER_START, SECTION_HEADER_LEN};

pub mod acceptance;
pub mod certificate;
pub mod content;
pub mod laws;
pub mod preservation;
pub mod reader;
pub mod round_trip;
pub mod signing;
pub mod stamp;

verus! {

/// The alignment of the certificate table in the file.
pub const PE_CERTIFICATE_ALIGNMENT: u64 = 8;

/// The most bytes of headers that are read.
pub const MAX_PE_HEADER_BYTES: u64 = 16 * 1024 * 1024;

/// The largest PE32+ image that Windows loads.
pub const PE_MAX_IMAGE_SIZE: u64 = 2 * 1024 * 1024 * 1024;

/// The most sections that Windows loads.
pub const PE_MAX_SECTIONS: u16 = 96;

/// Below this section alignment, sections lie in the file as they do in memory.
pub const PE_PAGE_SIZE: u64 = 4 * 1024;

/// Initialized data that can be read.
pub const PE_ANCHOR_SECTION_CHARACTERISTICS: u32 = 0x4000_0040;

pub const IMAGE_FILE_EXECUTABLE_IMAGE: u16 = 0x0002;

pub const IMAGE_FILE_DLL: u16 = 0x2000;

pub const IMAGE_FILE_MACHINE_I386: u16 = 0x014c;

pub const IMAGE_FILE_MACHINE_AMD64: u16 = 0x8664;

pub const IMAGE_FILE_MACHINE_ARM64: u16 = 0xaa64;

/// The two kinds of PE images.
#[derive(Clone, Copy, Debug, PartialEq, Eq, Structural)]
pub enum PeKind {
    /// A PE32 image.
    Pe32,
    /// A PE32+ image.
    Pe64,
}

/// The section that holds the footer of a stamped image.
#[derive(Clone, Copy, Debug)]
pub struct PeAnchorLayout {
    pub offset: u64,
    pub raw_size: u64,
    pub raw_end: u64,
    pub virtual_end: u64,
}

/// The certificate table of a signed image.
#[derive(Clone, Copy, Debug)]
pub struct PeCertificateLayout {
    pub offset: u64,
    pub size: u64,
}

/// What a runtime needs to know of a PE image.
#[derive(Clone, Copy, Debug)]
pub struct PeImageLayout {
    pub kind: PeKind,
    pub machine: u16,
    pub file_header_offset: usize,
    pub optional_header_offset: usize,
    pub section_table_offset: usize,
    /// Where the Security Directory entry lies, where there is one.
    pub security_directory_offset: Option<usize>,
    pub section_count: u16,
    pub size_of_headers: u64,
    pub size_of_image: u32,
    pub size_of_initialized_data: u32,
    pub file_alignment: u64,
    pub section_alignment: u64,
    /// The lowest file offset of a section with file data.
    pub first_section_offset: Option<u64>,
    /// Where the headers and the sections end in the file.
    pub max_raw_end: u64,
    /// Where the sections end in memory.
    pub max_virtual_end: u64,
    pub anchor: Option<PeAnchorLayout>,
    pub certificate: Option<PeCertificateLayout>,
    /// Where the reader capability record lies.
    pub reader_capability: Option<(u64, u64)>,
}

/// The fields of the NT headers.
#[derive(Clone, Copy, Debug)]
pub struct PeHeaders {
    pub machine: u16,
    pub section_count: u16,
    pub optional_header_size: u16,
    pub characteristics: u16,
    pub size_of_initialized_data: u32,
    pub section_alignment: u64,
    pub file_alignment: u64,
    pub size_of_image: u32,
    pub size_of_headers: u64,
    pub directory_count: u32,
}

/// The fields of the NT headers `raw` of an image of `kind`.
pub open spec fn pe_headers(raw: Seq<u8>, kind: PeKind) -> PeHeaders {
    PeHeaders {
        machine: bytes::le_u16(raw, 4),
        section_count: bytes::le_u16(raw, 6),
        optional_header_size: bytes::le_u16(raw, 20),
        characteristics: bytes::le_u16(raw, 22),
        size_of_initialized_data: bytes::le_u32(raw, 32),
        section_alignment: bytes::le_u32(raw, 56) as u64,
        file_alignment: bytes::le_u32(raw, 60) as u64,
        size_of_image: bytes::le_u32(raw, 80),
        size_of_headers: bytes::le_u32(raw, 84) as u64,
        directory_count: bytes::le_u32(raw, 20 + object_file::optional_fixed_size(kind)),
    }
}

/// Whether `value` is a power of two.
pub open spec fn is_power_of_two(value: nat) -> bool
    decreases value,
{
    value == 1 || (value > 1 && value % 2 == 0 && is_power_of_two(value / 2))
}

/// Whether sections lie in the file as they do in memory.
pub open spec fn is_low_alignment(section_alignment: u64) -> bool {
    section_alignment < PE_PAGE_SIZE
}

/// Whether Windows loads an image with these alignments.
pub open spec fn are_valid_alignments(file_alignment: u64, section_alignment: u64) -> bool {
    &&& is_power_of_two(file_alignment as nat)
    &&& 512 <= file_alignment <= 64 * 1024
    &&& is_power_of_two(section_alignment as nat)
    &&& if is_low_alignment(section_alignment) {
        section_alignment == file_alignment
    } else {
        section_alignment >= file_alignment
    }
}

/// Why the headers of an image are refused, whose section table ends at `section_table_end`.
pub open spec fn pe_headers_error(
    headers: PeHeaders,
    kind: PeKind,
    section_table_end: int,
    file_len: u64,
) -> Option<RuntimeDataError> {
    if headers.characteristics & IMAGE_FILE_EXECUTABLE_IMAGE != IMAGE_FILE_EXECUTABLE_IMAGE
        || headers.characteristics & IMAGE_FILE_DLL == IMAGE_FILE_DLL {
        Some(invalid_data("PE runtime template is not an executable image"))
    } else if headers.section_count == 0 || headers.section_count > PE_MAX_SECTIONS {
        Some(invalid_data("PE section count is outside the loader limit"))
    } else if headers.size_of_headers > MAX_PE_HEADER_BYTES {
        Some(invalid_data("PE SizeOfHeaders exceeds the 16777216-byte limit"))
    } else if headers.size_of_headers > file_len || section_table_end > headers.size_of_headers {
        Some(invalid_data("PE headers extend past end of file"))
    } else if !are_valid_alignments(headers.file_alignment, headers.section_alignment) {
        Some(invalid_data("PE section alignment is invalid"))
    } else if headers.size_of_headers % headers.file_alignment != 0 {
        Some(invalid_data("PE SizeOfHeaders is not file-aligned"))
    } else if headers.size_of_image as u64 % headers.section_alignment != 0 {
        Some(invalid_data("PE SizeOfImage is not section-aligned"))
    } else if kind == PeKind::Pe64 && headers.size_of_image > PE_MAX_IMAGE_SIZE {
        Some(invalid_data("PE32+ SizeOfImage exceeds the 2 GiB loader limit"))
    } else {
        None
    }
}

/// The fields of an entry of the section table.
#[derive(Clone, Copy, Debug)]
pub struct PeSection {
    pub is_anchor: bool,
    pub is_reader_capability: bool,
    pub virtual_size: u64,
    pub virtual_address: u64,
    pub size: u64,
    pub offset: u64,
    pub characteristics: u32,
}

/// `.cship`, filled up to the eight bytes of a section name.
pub open spec fn anchor_section_name() -> Seq<u8> {
    seq![0x2e, 0x63, 0x73, 0x68, 0x69, 0x70, 0, 0]
}

/// `.cscap`, filled up to the eight bytes of a section name.
pub open spec fn capability_section_name() -> Seq<u8> {
    seq![0x2e, 0x63, 0x73, 0x63, 0x61, 0x70, 0, 0]
}

/// Entry `index` of the section table `table`.
pub open spec fn pe_section(table: Seq<u8>, index: int) -> PeSection {
    let at = index * SECTION_HEADER_LEN;
    PeSection {
        is_anchor: table.subrange(at, at + 8) == anchor_section_name(),
        is_reader_capability: table.subrange(at, at + 8) == capability_section_name(),
        virtual_size: bytes::le_u32(table, at + 8) as u64,
        virtual_address: bytes::le_u32(table, at + 12) as u64,
        size: bytes::le_u32(table, at + 16) as u64,
        offset: bytes::le_u32(table, at + 20) as u64,
        characteristics: bytes::le_u32(table, at + 36),
    }
}

/// The bytes that a section takes in memory.
pub open spec fn virtual_span(section: PeSection) -> int {
    if section.virtual_size >= section.size {
        section.virtual_size as int
    } else {
        section.size as int
    }
}

/// What the entries of the section table read so far say.
#[derive(Clone, Copy, Debug)]
pub struct PeScan {
    pub first_section_offset: Option<u64>,
    pub max_raw_end: u64,
    pub max_virtual_end: u64,
    pub previous_raw_end: Option<u64>,
    pub previous_virtual_end: Option<u64>,
    pub anchor: Option<PeAnchorLayout>,
    pub reader_capability: Option<(u64, u64)>,
}

/// A scan in which no entry was read.
pub open spec fn initial_pe_scan(headers: PeHeaders) -> PeScan {
    PeScan {
        first_section_offset: None,
        max_raw_end: headers.size_of_headers,
        max_virtual_end: 0,
        previous_raw_end: None,
        previous_virtual_end: None,
        anchor: None,
        reader_capability: None,
    }
}

/// Why the file range of a section is refused.
pub open spec fn raw_range_error(
    scan: PeScan,
    headers: PeHeaders,
    section: PeSection,
    file_len: u64,
) -> Option<RuntimeDataError> {
    if section.is_anchor && scan.anchor is Some {
        Some(invalid_data("PE binary has multiple conda-ship anchor sections"))
    } else if section.offset + section.size > file_len {
        Some(invalid_data("PE section extends past end of file"))
    } else if section.size == 0 {
        None
    } else if section.offset < headers.size_of_headers {
        Some(invalid_data("PE section overlaps its headers"))
    } else if section.offset % headers.file_alignment != 0 || section.size % headers.file_alignment
        != 0 {
        Some(invalid_data("PE raw section is not file-aligned"))
    } else if is_low_alignment(headers.section_alignment) && section.offset
        != section.virtual_address {
        Some(
            invalid_data(
                "low-alignment PE section file offset does not match its virtual address",
            ),
        )
    } else if scan.previous_raw_end matches Some(previous) && section.offset < previous {
        Some(invalid_data("PE raw sections overlap or are not ordered by virtual address"))
    } else {
        None
    }
}

/// Why the memory range of a section is refused.
pub open spec fn virtual_range_error(
    scan: PeScan,
    headers: PeHeaders,
    section: PeSection,
) -> Option<RuntimeDataError> {
    let alignment = headers.section_alignment as int;
    if virtual_span(section) == 0 {
        None
    } else if section.virtual_address % headers.section_alignment != 0 {
        Some(invalid_data("PE virtual section is not section-aligned"))
    } else {
        match scan.previous_virtual_end {
            Some(previous) => if section.virtual_address != align::aligned(
                previous as int,
                alignment,
            ) {
                Some(invalid_data("PE virtual sections are not adjacent"))
            } else {
                None
            },
            None => if section.virtual_address < align::aligned(
                headers.size_of_headers as int,
                alignment,
            ) {
                Some(invalid_data("PE virtual section overlaps its headers"))
            } else {
                None
            },
        }
    }
}

/// Whether a section holds `len` bytes of read-only data in as little room as its image allows.
pub open spec fn holds_record(section: PeSection, headers: PeHeaders, len: u64) -> bool {
    &&& section.virtual_size == len
    &&& section.size == align::aligned(len as int, headers.file_alignment as int)
    &&& section.characteristics == PE_ANCHOR_SECTION_CHARACTERISTICS
}

/// Why a section is refused.
pub open spec fn pe_section_error(
    scan: PeScan,
    headers: PeHeaders,
    section: PeSection,
    file_len: u64,
) -> Option<RuntimeDataError> {
    if let Some(error) = raw_range_error(scan, headers, section, file_len) {
        Some(error)
    } else if let Some(error) = virtual_range_error(scan, headers, section) {
        Some(error)
    } else if section.is_anchor && !holds_record(section, headers, FOOTER_LEN) {
        Some(invalid_data("PE conda-ship anchor section has an invalid layout"))
    } else if section.is_reader_capability && scan.reader_capability is Some {
        Some(invalid_data("PE binary has multiple reader capability sections"))
    } else if section.is_reader_capability && !holds_record(section, headers, READER_CAPABILITY_RECORD_LEN) {
        Some(invalid_data("PE reader capability section has an invalid layout"))
    } else {
        None
    }
}

/// The scan with a section.
pub open spec fn with_pe_section(scan: PeScan, section: PeSection) -> PeScan {
    let raw_end = (section.offset + section.size) as u64;
    let virtual_end = (section.virtual_address + virtual_span(section)) as u64;
    PeScan {
        first_section_offset: if section.size == 0 {
            scan.first_section_offset
        } else {
            match scan.first_section_offset {
                Some(first) if first <= section.offset => Some(first),
                _ => Some(section.offset),
            }
        },
        max_raw_end: if section.size != 0 && raw_end > scan.max_raw_end {
            raw_end
        } else {
            scan.max_raw_end
        },
        max_virtual_end: if virtual_span(section) != 0 && virtual_end > scan.max_virtual_end {
            virtual_end
        } else {
            scan.max_virtual_end
        },
        previous_raw_end: if section.size != 0 {
            Some(raw_end)
        } else {
            scan.previous_raw_end
        },
        previous_virtual_end: if virtual_span(section) != 0 {
            Some(virtual_end)
        } else {
            scan.previous_virtual_end
        },
        anchor: if section.is_anchor {
            Some(
                PeAnchorLayout {
                    offset: section.offset,
                    raw_size: section.size,
                    raw_end,
                    virtual_end,
                },
            )
        } else {
            scan.anchor
        },
        reader_capability: if section.is_reader_capability {
            Some((section.offset, section.size))
        } else {
            scan.reader_capability
        },
    }
}

/// The scan after the entries of the section table `table` from `index` on.
pub open spec fn scan_pe_sections(
    scan: PeScan,
    headers: PeHeaders,
    table: Seq<u8>,
    index: int,
    file_len: u64,
) -> Result<PeScan, RuntimeDataError>
    decreases headers.section_count - index,
{
    if index >= headers.section_count {
        Ok(scan)
    } else {
        let section = pe_section(table, index);
        match pe_section_error(scan, headers, section, file_len) {
            Some(error) => Err(error),
            None => scan_pe_sections(
                with_pe_section(scan, section),
                headers,
                table,
                index + 1,
                file_len,
            ),
        }
    }
}

/// Why the sections as a whole are refused.
pub open spec fn pe_scan_error(scan: PeScan, headers: PeHeaders) -> Option<RuntimeDataError> {
    if align::aligned(scan.max_virtual_end as int, headers.section_alignment as int)
        > headers.size_of_image {
        Some(invalid_data("PE sections extend past SizeOfImage"))
    } else if scan.anchor matches Some(anchor) && (anchor.raw_end != scan.max_raw_end
        || anchor.virtual_end != scan.max_virtual_end) {
        Some(invalid_data("PE conda-ship anchor is not the final section"))
    } else {
        None
    }
}

/// The certificate table that the data directories name, which has to end the file.
pub open spec fn certificate_layout(
    headers: PeHeaders,
    directories: Seq<u8>,
    max_raw_end: u64,
    file_len: u64,
) -> Result<Option<PeCertificateLayout>, RuntimeDataError> {
    if headers.directory_count <= 4 {
        Ok(None)
    } else {
        let offset = bytes::le_u32(directories, 32) as u64;
        let size = bytes::le_u32(directories, 36) as u64;
        if offset == 0 && size == 0 {
            Ok(None)
        } else if offset == 0 || size == 0 {
            Err(invalid_data("PE security directory has an incomplete certificate range"))
        } else if offset % PE_CERTIFICATE_ALIGNMENT != 0 {
            Err(invalid_data("PE certificate table offset is not aligned"))
        } else if size < 8 {
            Err(invalid_data("PE certificate table is too small"))
        } else if offset + size != file_len {
            Err(invalid_data("PE certificate table is not the final data in the file"))
        } else if offset < max_raw_end {
            Err(invalid_data("PE certificate table overlaps image data"))
        } else {
            Ok(Some(PeCertificateLayout { offset, size }))
        }
    }
}

/// Where the Security Directory entry of an image lies, where there is one.
pub open spec fn security_directory(headers: PeHeaders, kind: PeKind, optional: int) -> Option<
    usize,
> {
    let offset = optional + object_file::optional_fixed_size(kind) + 32;
    if headers.directory_count > 4 && offset + 8 <= optional + headers.optional_header_size {
        Some(offset as usize)
    } else {
        None
    }
}

/// The layout of an image of `kind` with these tables, whose NT headers lie at `nt_headers`.
pub open spec fn pe_layout_of_tables(
    raw_headers: Seq<u8>,
    directories: Seq<u8>,
    sections: Seq<u8>,
    kind: PeKind,
    nt_headers: int,
    file_len: u64,
) -> Result<PeImageLayout, RuntimeDataError> {
    let headers = pe_headers(raw_headers, kind);
    let optional = nt_headers + OPTIONAL_HEADER_START;
    let section_table = optional + headers.optional_header_size;
    let section_table_end = section_table + headers.section_count * SECTION_HEADER_LEN;
    match pe_headers_error(headers, kind, section_table_end, file_len) {
        Some(error) => Err(error),
        None => match scan_pe_sections(
            initial_pe_scan(headers),
            headers,
            sections,
            0,
            file_len,
        ) {
            Err(error) => Err(error),
            Ok(scan) => match pe_scan_error(scan, headers) {
                Some(error) => Err(error),
                None => match certificate_layout(headers, directories, scan.max_raw_end, file_len) {
                    Err(error) => Err(error),
                    Ok(certificate) => Ok(
                        PeImageLayout {
                            kind,
                            machine: headers.machine,
                            file_header_offset: (nt_headers + 4) as usize,
                            optional_header_offset: optional as usize,
                            section_table_offset: section_table as usize,
                            security_directory_offset: security_directory(headers, kind, optional),
                            section_count: headers.section_count,
                            size_of_headers: headers.size_of_headers,
                            size_of_image: headers.size_of_image,
                            size_of_initialized_data: headers.size_of_initialized_data,
                            file_alignment: headers.file_alignment,
                            section_alignment: headers.section_alignment,
                            first_section_offset: scan.first_section_offset,
                            max_raw_end: scan.max_raw_end,
                            max_virtual_end: scan.max_virtual_end,
                            anchor: scan.anchor,
                            certificate,
                            reader_capability: scan.reader_capability,
                        },
                    ),
                },
            },
        },
    }
}

/// The kind of PE image that the DOS program `image` is.
pub open spec fn dos_program_kind(image: Seq<u8>) -> Result<PeKind, RuntimeDataError> {
    match object_file::pe_kind(image) {
        Some(kind) => Ok(kind),
        None => if image.len() < 16 {
            Err(invalid_data("Could not read file magic"))
        } else {
            Err(invalid_data("Unknown MS-DOS file"))
        },
    }
}

/// The layout of the PE image `image`.
pub open spec fn pe_layout(image: Seq<u8>) -> Result<PeImageLayout, RuntimeDataError> {
    if image.len() < DOS_HEADER_LEN {
        Err(RuntimeDataError::UnexpectedEof)
    } else {
        match dos_program_kind(image) {
            Err(error) => Err(error),
            Ok(kind) => match object_file::pe_tables_fault(image, kind) {
                Some(fault) => Err(invalid_data(fault)),
                None => {
                    let nt_headers = object_file::nt_headers_offset(image);
                    let directories = object_file::directories_offset(image, kind);
                    let sections = object_file::pe_section_table_offset(image);
                    pe_layout_of_tables(
                        image.subrange(nt_headers, directories),
                        image.subrange(
                            directories,
                            directories + 8 * object_file::directory_count(image, kind),
                        ),
                        image.subrange(
                            sections,
                            sections + SECTION_HEADER_LEN * object_file::pe_section_count(image),
                        ),
                        kind,
                        nt_headers,
                        image.len() as u64,
                    )
                },
            },
        }
    }
}

} // verus!
