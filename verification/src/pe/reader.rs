//! Reading the layout of PE images.

use vstd::prelude::*;

use crate::align::align_up;
use crate::bytes;
use crate::bytes::{holds_at, read_u16, read_u32};
use crate::capability::READER_CAPABILITY_RECORD_LEN;
use crate::error::{invalid_data, RuntimeDataError};
use crate::footer::FOOTER_LEN;
use crate::object_file;
use crate::object_file::{
    pe32_tables, pe64_tables, pe_file_kind, PeTables, DOS_HEADER_LEN, NT_HEADERS_POINTER,
    OPTIONAL_HEADER_START, SECTION_HEADER_LEN,
};
use crate::pe;
use crate::pe::{
    PeAnchorLayout, PeCertificateLayout, PeHeaders, PeImageLayout, PeKind, PeScan, PeSection,
    IMAGE_FILE_DLL, IMAGE_FILE_EXECUTABLE_IMAGE, MAX_PE_HEADER_BYTES,
    PE_ANCHOR_SECTION_CHARACTERISTICS, PE_CERTIFICATE_ALIGNMENT, PE_MAX_IMAGE_SIZE,
    PE_MAX_SECTIONS, PE_PAGE_SIZE,
};

verus! {

/// The bytes of an optional header of `kind` before its data directories.
pub fn optional_fixed_size(kind: PeKind) -> (size: usize)
    ensures
        size == object_file::optional_fixed_size(kind),
{
    match kind {
        PeKind::Pe32 => 96,
        PeKind::Pe64 => 112,
    }
}

/// The fields of the NT headers `raw` of an image of `kind`.
fn read_pe_headers(raw: &[u8], kind: PeKind) -> (headers: PeHeaders)
    requires
        raw.len() == OPTIONAL_HEADER_START + object_file::optional_fixed_size(kind),
    ensures
        headers == pe::pe_headers(raw@, kind),
{
    PeHeaders {
        machine: read_u16(raw, 4),
        section_count: read_u16(raw, 6),
        optional_header_size: read_u16(raw, 20),
        characteristics: read_u16(raw, 22),
        size_of_initialized_data: read_u32(raw, 32),
        section_alignment: read_u32(raw, 56) as u64,
        file_alignment: read_u32(raw, 60) as u64,
        size_of_image: read_u32(raw, 80),
        size_of_headers: read_u32(raw, 84) as u64,
        directory_count: read_u32(raw, 20 + optional_fixed_size(kind)),
    }
}

/// Whether `value` is a power of two.
fn power_of_two(value: u64) -> (result: bool)
    ensures
        result == pe::is_power_of_two(value as nat),
    decreases value,
{
    if value == 1 {
        true
    } else if value == 0 || value % 2 != 0 {
        false
    } else {
        power_of_two(value / 2)
    }
}

/// Whether Windows loads an image with these alignments.
fn valid_alignments(file_alignment: u64, section_alignment: u64) -> (valid: bool)
    ensures
        valid == pe::are_valid_alignments(file_alignment, section_alignment),
{
    if !power_of_two(file_alignment) || file_alignment < 512 || file_alignment > 64 * 1024
        || !power_of_two(section_alignment) {
        false
    } else if section_alignment < PE_PAGE_SIZE {
        section_alignment == file_alignment
    } else {
        section_alignment >= file_alignment
    }
}

/// Refuses headers of an image that a runtime cannot be stamped onto.
fn check_pe_headers(
    headers: PeHeaders,
    kind: PeKind,
    section_table_end: u64,
    file_len: u64,
) -> (result: Result<(), RuntimeDataError>)
    ensures
        result == (match pe::pe_headers_error(
            headers,
            kind,
            section_table_end as int,
            file_len,
        ) {
            Some(error) => Err(error),
            None => Ok(()),
        }),
{
    if headers.characteristics & IMAGE_FILE_EXECUTABLE_IMAGE != IMAGE_FILE_EXECUTABLE_IMAGE
        || headers.characteristics & IMAGE_FILE_DLL == IMAGE_FILE_DLL {
        return Err(invalid_data("PE runtime template is not an executable image"));
    }
    if headers.section_count == 0 || headers.section_count > PE_MAX_SECTIONS {
        return Err(invalid_data("PE section count is outside the loader limit"));
    }
    if headers.size_of_headers > MAX_PE_HEADER_BYTES {
        return Err(invalid_data("PE SizeOfHeaders exceeds the 16777216-byte limit"));
    }
    if headers.size_of_headers > file_len || section_table_end > headers.size_of_headers {
        return Err(invalid_data("PE headers extend past end of file"));
    }
    if !valid_alignments(headers.file_alignment, headers.section_alignment) {
        return Err(invalid_data("PE section alignment is invalid"));
    }
    if headers.size_of_headers % headers.file_alignment != 0 {
        return Err(invalid_data("PE SizeOfHeaders is not file-aligned"));
    }
    if headers.size_of_image as u64 % headers.section_alignment != 0 {
        return Err(invalid_data("PE SizeOfImage is not section-aligned"));
    }
    if kind == PeKind::Pe64 && headers.size_of_image as u64 > PE_MAX_IMAGE_SIZE {
        return Err(invalid_data("PE32+ SizeOfImage exceeds the 2 GiB loader limit"));
    }
    Ok(())
}

/// Whether the numbers of a section are those of 32-bit fields.
pub open spec fn section_fits(section: PeSection) -> bool {
    &&& section.virtual_size <= u32::MAX
    &&& section.virtual_address <= u32::MAX
    &&& section.size <= u32::MAX
    &&& section.offset <= u32::MAX
}

/// Whether the ends in memory come from 32-bit fields.
pub open spec fn scan_fits(scan: PeScan) -> bool {
    &&& scan.max_virtual_end <= 2 * u32::MAX
    &&& scan.previous_virtual_end matches Some(previous) ==> previous <= 2 * u32::MAX
}

/// Whether the alignments and sizes are those that the headers of an accepted image have.
pub open spec fn headers_fit(headers: PeHeaders) -> bool {
    &&& 0 < headers.section_alignment <= u32::MAX
    &&& 0 < headers.file_alignment <= u32::MAX
    &&& headers.size_of_headers <= u32::MAX
}

/// Entry `index` of the section table `table`.
fn read_pe_section(table: &[u8], index: usize) -> (section: PeSection)
    requires
        (index + 1) * SECTION_HEADER_LEN <= table.len(),
    ensures
        section == pe::pe_section(table@, index as int),
        section_fits(section),
{
    let anchor: [u8; 8] = [0x2e, 0x63, 0x73, 0x68, 0x69, 0x70, 0, 0];
    let capability: [u8; 8] = [0x2e, 0x63, 0x73, 0x63, 0x61, 0x70, 0, 0];
    assert(anchor@ =~= pe::anchor_section_name());
    assert(capability@ =~= pe::capability_section_name());
    let at: usize = index * SECTION_HEADER_LEN;
    PeSection {
        is_anchor: holds_at(table, at, &anchor),
        is_reader_capability: holds_at(table, at, &capability),
        virtual_size: read_u32(table, at + 8) as u64,
        virtual_address: read_u32(table, at + 12) as u64,
        size: read_u32(table, at + 16) as u64,
        offset: read_u32(table, at + 20) as u64,
        characteristics: read_u32(table, at + 36),
    }
}

/// Refuses the file range of a section that does not follow those before it.
fn check_raw_range(scan: PeScan, headers: PeHeaders, section: PeSection, file_len: u64) -> (result:
    Result<(), RuntimeDataError>)
    requires
        headers_fit(headers),
        section_fits(section),
    ensures
        result == (match pe::raw_range_error(scan, headers, section, file_len) {
            Some(error) => Err(error),
            None => Ok(()),
        }),
{
    if section.is_anchor && scan.anchor.is_some() {
        return Err(invalid_data("PE binary has multiple conda-ship anchor sections"));
    }
    if section.offset + section.size > file_len {
        return Err(invalid_data("PE section extends past end of file"));
    }
    if section.size == 0 {
        return Ok(());
    }
    if section.offset < headers.size_of_headers {
        return Err(invalid_data("PE section overlaps its headers"));
    }
    if section.offset % headers.file_alignment != 0 || section.size % headers.file_alignment
        != 0 {
        return Err(invalid_data("PE raw section is not file-aligned"));
    }
    if headers.section_alignment < PE_PAGE_SIZE && section.offset != section.virtual_address {
        return Err(
            invalid_data(
                "low-alignment PE section file offset does not match its virtual address",
            ),
        );
    }
    if let Some(previous) = scan.previous_raw_end {
        if section.offset < previous {
            return Err(
                invalid_data("PE raw sections overlap or are not ordered by virtual address"),
            );
        }
    }
    Ok(())
}

/// Refuses the memory range of a section that does not follow the one before it.
fn check_virtual_range(scan: PeScan, headers: PeHeaders, section: PeSection) -> (result: Result<
    (),
    RuntimeDataError,
>)
    requires
        headers_fit(headers),
        section_fits(section),
        scan_fits(scan),
    ensures
        result == (match pe::virtual_range_error(scan, headers, section) {
            Some(error) => Err(error),
            None => Ok(()),
        }),
{
    if section.virtual_size == 0 && section.size == 0 {
        return Ok(());
    }
    if section.virtual_address % headers.section_alignment != 0 {
        return Err(invalid_data("PE virtual section is not section-aligned"));
    }
    match scan.previous_virtual_end {
        Some(previous) => {
            if section.virtual_address != align_up(previous, headers.section_alignment)? {
                return Err(invalid_data("PE virtual sections are not adjacent"));
            }
        },
        None => {
            if section.virtual_address < align_up(
                headers.size_of_headers,
                headers.section_alignment,
            )? {
                return Err(invalid_data("PE virtual section overlaps its headers"));
            }
        },
    }
    Ok(())
}

/// Whether a section holds `len` bytes of read-only data in as little room as its image allows.
fn section_holds_record(section: PeSection, headers: PeHeaders, len: u64) -> (result: Result<
    bool,
    RuntimeDataError,
>)
    requires
        headers_fit(headers),
        len <= u32::MAX,
    ensures
        result == Ok::<bool, RuntimeDataError>(pe::holds_record(section, headers, len)),
{
    let expected: u64 = align_up(len, headers.file_alignment)?;
    Ok(
        section.virtual_size == len && section.size == expected && section.characteristics
            == PE_ANCHOR_SECTION_CHARACTERISTICS,
    )
}

/// Refuses a section that does not follow those before it, or that claims to hold a footer or a
/// reader capability record where it cannot.
fn check_pe_section(scan: PeScan, headers: PeHeaders, section: PeSection, file_len: u64) -> (result:
    Result<(), RuntimeDataError>)
    requires
        headers_fit(headers),
        section_fits(section),
        scan_fits(scan),
    ensures
        result == (match pe::pe_section_error(scan, headers, section, file_len) {
            Some(error) => Err(error),
            None => Ok(()),
        }),
{
    check_raw_range(scan, headers, section, file_len)?;
    check_virtual_range(scan, headers, section)?;
    if section.is_anchor && !section_holds_record(section, headers, FOOTER_LEN)? {
        return Err(invalid_data("PE conda-ship anchor section has an invalid layout"));
    }
    if section.is_reader_capability {
        if scan.reader_capability.is_some() {
            return Err(invalid_data("PE binary has multiple reader capability sections"));
        }
        if !section_holds_record(section, headers, READER_CAPABILITY_RECORD_LEN)? {
            return Err(invalid_data("PE reader capability section has an invalid layout"));
        }
    }
    Ok(())
}

/// The scan with a section.
fn add_pe_section(scan: PeScan, section: PeSection) -> (next: PeScan)
    requires
        section_fits(section),
        scan_fits(scan),
    ensures
        next == pe::with_pe_section(scan, section),
        scan_fits(next),
{
    let mut next: PeScan = scan;
    let raw_end: u64 = section.offset + section.size;
    if section.size != 0 {
        next.previous_raw_end = Some(raw_end);
        match scan.first_section_offset {
            Some(first) => {
                if section.offset < first {
                    next.first_section_offset = Some(section.offset);
                }
            },
            None => {
                next.first_section_offset = Some(section.offset);
            },
        }
        if raw_end > scan.max_raw_end {
            next.max_raw_end = raw_end;
        }
    }
    let virtual_span: u64 = if section.virtual_size >= section.size {
        section.virtual_size
    } else {
        section.size
    };
    let virtual_end: u64 = section.virtual_address + virtual_span;
    if virtual_span != 0 {
        next.previous_virtual_end = Some(virtual_end);
        if virtual_end > scan.max_virtual_end {
            next.max_virtual_end = virtual_end;
        }
    }
    if section.is_anchor {
        next.anchor = Some(
            PeAnchorLayout {
                offset: section.offset,
                raw_size: section.size,
                raw_end,
                virtual_end,
            },
        );
    }
    if section.is_reader_capability {
        next.reader_capability = Some((section.offset, section.size));
    }
    next
}

/// Reads the entries of the section table `table`.
fn read_pe_sections(headers: PeHeaders, table: &[u8], file_len: u64) -> (result: Result<
    PeScan,
    RuntimeDataError,
>)
    requires
        headers_fit(headers),
        table.len() == headers.section_count * SECTION_HEADER_LEN,
    ensures
        result == pe::scan_pe_sections(
            pe::initial_pe_scan(headers),
            headers,
            table@,
            0,
            file_len,
        ),
        result matches Ok(scan) ==> scan_fits(scan),
{
    let mut scan: PeScan = PeScan {
        first_section_offset: None,
        max_raw_end: headers.size_of_headers,
        max_virtual_end: 0,
        previous_raw_end: None,
        previous_virtual_end: None,
        anchor: None,
        reader_capability: None,
    };
    let count: usize = headers.section_count as usize;
    let mut index: usize = 0;
    while index < count
        invariant
            index <= count,
            count == headers.section_count,
            headers_fit(headers),
            table.len() == headers.section_count * SECTION_HEADER_LEN,
            scan_fits(scan),
            pe::scan_pe_sections(scan, headers, table@, index as int, file_len)
                == pe::scan_pe_sections(
                pe::initial_pe_scan(headers),
                headers,
                table@,
                0,
                file_len,
            ),
        decreases count - index,
    {
        let section: PeSection = read_pe_section(table, index);
        check_pe_section(scan, headers, section, file_len)?;
        scan = add_pe_section(scan, section);
        index = index + 1;
    }
    Ok(scan)
}

/// Refuses sections that reach past the image, or that follow the anchor section.
fn check_pe_scan(scan: PeScan, headers: PeHeaders) -> (result: Result<(), RuntimeDataError>)
    requires
        headers_fit(headers),
        scan_fits(scan),
    ensures
        result == (match pe::pe_scan_error(scan, headers) {
            Some(error) => Err(error),
            None => Ok(()),
        }),
{
    if align_up(scan.max_virtual_end, headers.section_alignment)? > headers.size_of_image as u64 {
        return Err(invalid_data("PE sections extend past SizeOfImage"));
    }
    if let Some(anchor) = scan.anchor {
        if anchor.raw_end != scan.max_raw_end || anchor.virtual_end != scan.max_virtual_end {
            return Err(invalid_data("PE conda-ship anchor is not the final section"));
        }
    }
    Ok(())
}

/// The certificate table that the data directories name, which has to end the file.
fn read_certificate_layout(
    headers: PeHeaders,
    directories: &[u8],
    max_raw_end: u64,
    file_len: u64,
) -> (result: Result<Option<PeCertificateLayout>, RuntimeDataError>)
    requires
        directories.len() == 8 * headers.directory_count,
    ensures
        result == pe::certificate_layout(headers, directories@, max_raw_end, file_len),
{
    if headers.directory_count <= 4 {
        return Ok(None);
    }
    let offset: u64 = read_u32(directories, 32) as u64;
    let size: u64 = read_u32(directories, 36) as u64;
    if offset == 0 && size == 0 {
        return Ok(None);
    }
    if offset == 0 || size == 0 {
        return Err(invalid_data("PE security directory has an incomplete certificate range"));
    }
    if offset % PE_CERTIFICATE_ALIGNMENT != 0 {
        return Err(invalid_data("PE certificate table offset is not aligned"));
    }
    if size < 8 {
        return Err(invalid_data("PE certificate table is too small"));
    }
    if offset + size != file_len {
        return Err(invalid_data("PE certificate table is not the final data in the file"));
    }
    if offset < max_raw_end {
        return Err(invalid_data("PE certificate table overlaps image data"));
    }
    Ok(Some(PeCertificateLayout { offset, size }))
}

/// The layout of an image of `kind` with these tables, whose NT headers lie at `pe_offset`.
pub fn pe_layout_from_file(
    tables: &PeTables,
    kind: PeKind,
    pe_offset: usize,
    file_len: u64,
) -> (result: Result<PeImageLayout, RuntimeDataError>)
    requires
        tables.headers@.len() == OPTIONAL_HEADER_START + object_file::optional_fixed_size(kind),
        tables.directories@.len() == 8 * pe::pe_headers(tables.headers@, kind).directory_count,
        tables.sections@.len() == SECTION_HEADER_LEN * pe::pe_headers(
            tables.headers@,
            kind,
        ).section_count,
        pe_offset + OPTIONAL_HEADER_START + pe::pe_headers(
            tables.headers@,
            kind,
        ).optional_header_size + tables.sections@.len() <= usize::MAX,
    ensures
        result == pe::pe_layout_of_tables(
            tables.headers@,
            tables.directories@,
            tables.sections@,
            kind,
            pe_offset as int,
            file_len,
        ),
{
    let headers: PeHeaders = read_pe_headers(&tables.headers, kind);
    let file_header_offset: usize = pe_offset + 4;
    let optional_header_offset: usize = pe_offset + OPTIONAL_HEADER_START;
    let section_table_offset: usize = optional_header_offset
        + headers.optional_header_size as usize;
    let section_table_end: usize = section_table_offset + headers.section_count as usize
        * SECTION_HEADER_LEN;
    check_pe_headers(headers, kind, section_table_end as u64, file_len)?;
    let fixed_size: usize = optional_fixed_size(kind);
    let security_directory_offset: Option<usize> = if headers.directory_count > 4 && fixed_size
        + 40 <= headers.optional_header_size as usize {
        Some(optional_header_offset + fixed_size + 32)
    } else {
        None
    };
    let scan: PeScan = read_pe_sections(headers, &tables.sections, file_len)?;
    check_pe_scan(scan, headers)?;
    let certificate: Option<PeCertificateLayout> = read_certificate_layout(
        headers,
        &tables.directories,
        scan.max_raw_end,
        file_len,
    )?;
    Ok(
        PeImageLayout {
            kind,
            machine: headers.machine,
            file_header_offset,
            optional_header_offset,
            section_table_offset,
            security_directory_offset,
            section_count: headers.section_count,
            size_of_headers: headers.size_of_headers,
            size_of_image: headers.size_of_image,
            size_of_initialized_data: headers.size_of_initialized_data,
            file_alignment: headers.file_alignment,
            section_alignment: headers.section_alignment,
            first_section_offset: scan.first_section_offset,
            max_raw_end: scan.max_raw_end,
            max_virtual_end: scan.max_virtual_end,
            anchor: scan.anchor,
            certificate,
            reader_capability: scan.reader_capability,
        },
    )
}

/// Why the tables of the PE image `image` of `kind` cannot be read.
fn find_pe_tables_fault(image: &[u8], kind: PeKind) -> (fault: &'static str)
    requires
        object_file::pe_kind(image@) == Some(kind),
        object_file::has_dos_magic(image@),
        object_file::pe_tables_fault(image@, kind) is Some,
    ensures
        object_file::pe_tables_fault(image@, kind) == Some(fault),
{
    let len: u64 = image.len() as u64;
    let nt_headers: u64 = read_u32(image, NT_HEADERS_POINTER) as u64;
    let fixed_size: u64 = optional_fixed_size(kind) as u64;
    let directories: u64 = nt_headers + OPTIONAL_HEADER_START as u64 + fixed_size;
    if directories > len {
        return "Invalid PE headers offset or size";
    }
    let at: usize = nt_headers as usize;
    let optional_header_size: u64 = read_u16(image, at + 20) as u64;
    if optional_header_size < fixed_size {
        return "PE optional header size is too small";
    }
    if nt_headers + OPTIONAL_HEADER_START as u64 + optional_header_size > len {
        return "Invalid PE optional header size";
    }
    let directory_count: u64 = read_u32(image, directories as usize - 4) as u64;
    if 8 * directory_count > optional_header_size - fixed_size {
        return "Invalid PE number of RVA and sizes";
    }
    "Invalid COFF/PE section headers"
}

/// The kind of PE image that the DOS program `image` is.
pub fn read_dos_program_kind(image: &[u8]) -> (result: Result<PeKind, RuntimeDataError>)
    requires
        object_file::has_dos_magic(image@),
    ensures
        result == pe::dos_program_kind(image@),
        match result {
            Ok(kind) => object_file::pe_kind(image@) == Some(kind),
            Err(error) => object_file::pe_kind(image@) is None && error == (if image@.len() < 16 {
                RuntimeDataError::InvalidData("Could not read file magic")
            } else {
                RuntimeDataError::InvalidData("Unknown MS-DOS file")
            }),
        },
{
    match pe_file_kind(image) {
        Ok(Some(kind)) => Ok(kind),
        _ => {
            if image.len() < 16 {
                Err(invalid_data("Could not read file magic"))
            } else {
                Err(invalid_data("Unknown MS-DOS file"))
            }
        },
    }
}

/// The layout of the PE image `image`, or why a runtime cannot be stamped onto it.
pub fn read_pe_layout(image: &[u8]) -> (result: Result<PeImageLayout, RuntimeDataError>)
    requires
        object_file::has_dos_magic(image@),
    ensures
        result == pe::pe_layout(image@),
{
    if image.len() < DOS_HEADER_LEN {
        return Err(RuntimeDataError::UnexpectedEof);
    }
    let pe_offset: u32 = read_u32(image, NT_HEADERS_POINTER);
    let kind: PeKind = read_dos_program_kind(image)?;
    let found: Result<PeTables, object::Error> = match kind {
        PeKind::Pe32 => pe32_tables(image),
        PeKind::Pe64 => pe64_tables(image),
    };
    match found {
        Err(_) => Err(invalid_data(find_pe_tables_fault(image, kind))),
        Ok(tables) => {
            proof {
                lemma_fields_of_tables(image@, kind);
            }
            pe_layout_from_file(&tables, kind, pe_offset as usize, image.len() as u64)
        },
    }
}

/// The NT headers that are handed out say of the other tables what those in the image say.
pub proof fn lemma_fields_of_tables(image: Seq<u8>, kind: PeKind)
    requires
        object_file::pe_tables_fault(image, kind) is None,
    ensures
        ({
            let raw = image.subrange(
                object_file::nt_headers_offset(image),
                object_file::directories_offset(image, kind),
            );
            let headers = pe::pe_headers(raw, kind);
            &&& headers.directory_count == object_file::directory_count(image, kind)
            &&& headers.section_count == object_file::pe_section_count(image)
            &&& headers.optional_header_size == object_file::optional_header_size(image)
        }),
{
    let start = object_file::nt_headers_offset(image);
    let end = object_file::directories_offset(image, kind);
    let raw = image.subrange(start, end);
    let last = 20 + object_file::optional_fixed_size(kind);
    assert(raw.subrange(6, 8) =~= image.subrange(start + 6, start + 8));
    assert(raw.subrange(20, 22) =~= image.subrange(start + 20, start + 22));
    assert(raw.subrange(last, last + 4) =~= image.subrange(start + last, start + last + 4));
    bytes::lemma_le_u16_window(raw, 6, image, start + 6);
    bytes::lemma_le_u16_window(raw, 20, image, start + 20);
    bytes::lemma_le_u32_window(raw, last, image, start + last);
}

} // verus!
