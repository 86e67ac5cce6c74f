//! What holds of every PE image whose layout is accepted.

use vstd::prelude::*;

use crate::align;
use crate::capability::READER_CAPABILITY_RECORD_LEN;
use crate::error::RuntimeDataError;
use crate::footer::FOOTER_LEN;
use crate::object_file::SECTION_HEADER_LEN;
use crate::pe;
use crate::pe::{PeHeaders, PeImageLayout, PeKind, PeScan, PeSection};

verus! {

/// What the sections read so far keep to.
pub open spec fn is_sound_scan(scan: PeScan, headers: PeHeaders, file_len: u64) -> bool {
    &&& headers.size_of_headers <= scan.max_raw_end <= file_len
    &&& scan.first_section_offset matches Some(first) ==> headers.size_of_headers <= first
        <= scan.max_raw_end
    &&& scan.previous_raw_end matches Some(previous) ==> previous <= scan.max_raw_end
    &&& scan.anchor matches Some(anchor) ==> {
        &&& anchor.offset + anchor.raw_size == anchor.raw_end
        &&& anchor.raw_size == align::aligned(FOOTER_LEN as int, headers.file_alignment as int)
        &&& anchor.raw_size >= FOOTER_LEN
        &&& headers.size_of_headers <= anchor.offset
        &&& anchor.raw_end <= scan.max_raw_end
    }
    &&& scan.reader_capability matches Some((offset, size)) ==> {
        &&& offset + size <= file_len
        &&& size == align::aligned(
            READER_CAPABILITY_RECORD_LEN as int,
            headers.file_alignment as int,
        )
        &&& headers.size_of_headers <= offset
    }
}

/// A section that is accepted keeps the scan sound.
proof fn lemma_section_keeps_scan_sound(
    scan: PeScan,
    headers: PeHeaders,
    table: Seq<u8>,
    index: int,
    file_len: u64,
)
    requires
        is_sound_scan(scan, headers, file_len),
        headers.file_alignment > 0,
        pe::pe_section_error(scan, headers, pe::pe_section(table, index), file_len) is None,
    ensures
        is_sound_scan(
            pe::with_pe_section(scan, pe::pe_section(table, index)),
            headers,
            file_len,
        ),
{
    align::lemma_aligned(FOOTER_LEN as int, headers.file_alignment as int);
    align::lemma_aligned(READER_CAPABILITY_RECORD_LEN as int, headers.file_alignment as int);
}

/// Sections that are accepted keep the scan sound.
pub proof fn lemma_sections_keep_scan_sound(
    scan: PeScan,
    headers: PeHeaders,
    table: Seq<u8>,
    index: int,
    file_len: u64,
    last: PeScan,
)
    requires
        is_sound_scan(scan, headers, file_len),
        headers.file_alignment > 0,
        pe::scan_pe_sections(scan, headers, table, index, file_len) == Ok::<
            PeScan,
            RuntimeDataError,
        >(last),
    ensures
        is_sound_scan(last, headers, file_len),
    decreases headers.section_count - index,
{
    if index < headers.section_count {
        lemma_section_keeps_scan_sound(scan, headers, table, index, file_len);
        lemma_sections_keep_scan_sound(
            pe::with_pe_section(scan, pe::pe_section(table, index)),
            headers,
            table,
            index + 1,
            file_len,
            last,
        );
    }
}

/// In an accepted image the headers come before the sections, the anchor section and the reader
/// capability section lie whole in the file, the anchor is the last section, and a certificate
/// table ends the file behind all sections.
pub proof fn law_accepted_pe_layout(image: Seq<u8>, layout: PeImageLayout)
    requires
        image.len() <= u64::MAX,
        pe::pe_layout(image) == Ok::<PeImageLayout, RuntimeDataError>(layout),
    ensures
        layout.size_of_headers <= layout.max_raw_end <= image.len(),
        layout.section_table_offset + layout.section_count * SECTION_HEADER_LEN
            <= layout.size_of_headers,
        1 <= layout.section_count <= pe::PE_MAX_SECTIONS,
        512 <= layout.file_alignment <= layout.section_alignment,
        layout.size_of_image as u64 % layout.section_alignment == 0,
        align::aligned(layout.max_virtual_end as int, layout.section_alignment as int)
            <= layout.size_of_image,
        layout.kind == PeKind::Pe64 ==> layout.size_of_image <= pe::PE_MAX_IMAGE_SIZE,
        layout.first_section_offset matches Some(first) ==> layout.size_of_headers <= first
            <= layout.max_raw_end,
        layout.anchor matches Some(anchor) ==> {
            &&& anchor.offset + anchor.raw_size == anchor.raw_end
            &&& anchor.raw_size == align::aligned(FOOTER_LEN as int, layout.file_alignment as int)
            &&& anchor.raw_size >= FOOTER_LEN
            &&& layout.size_of_headers <= anchor.offset
            &&& anchor.raw_end == layout.max_raw_end
            &&& anchor.virtual_end == layout.max_virtual_end
        },
        layout.reader_capability matches Some((offset, size)) ==> {
            &&& offset + size <= image.len()
            &&& READER_CAPABILITY_RECORD_LEN <= size
        },
        layout.certificate matches Some(certificate) ==> {
            &&& certificate.offset + certificate.size == image.len()
            &&& certificate.offset % pe::PE_CERTIFICATE_ALIGNMENT == 0
            &&& layout.max_raw_end <= certificate.offset
        },
{
    let kind = layout.kind;
    let nt_headers = crate::object_file::nt_headers_offset(image);
    let directories = crate::object_file::directories_offset(image, kind);
    let sections = crate::object_file::pe_section_table_offset(image);
    let headers = pe::pe_headers(image.subrange(nt_headers, directories), kind);
    let table = image.subrange(
        sections,
        sections + SECTION_HEADER_LEN * crate::object_file::pe_section_count(image),
    );
    let file_len = image.len() as u64;
    let scan = pe::scan_pe_sections(
        pe::initial_pe_scan(headers),
        headers,
        table,
        0,
        file_len,
    )->Ok_0;
    lemma_sections_keep_scan_sound(
        pe::initial_pe_scan(headers),
        headers,
        table,
        0,
        file_len,
        scan,
    );
    align::lemma_aligned(READER_CAPABILITY_RECORD_LEN as int, headers.file_alignment as int);
}

/// The ends of the sections in memory come from 32-bit fields.
proof fn lemma_sections_fit(
    scan: PeScan,
    headers: PeHeaders,
    table: Seq<u8>,
    index: int,
    file_len: u64,
    last: PeScan,
)
    requires
        scan.max_virtual_end <= 2 * u32::MAX,
        scan.max_raw_end <= 2 * u32::MAX,
        pe::scan_pe_sections(scan, headers, table, index, file_len) == Ok::<
            PeScan,
            RuntimeDataError,
        >(last),
    ensures
        last.max_virtual_end <= 2 * u32::MAX,
        last.max_raw_end <= 2 * u32::MAX,
    decreases headers.section_count - index,
{
    if index < headers.section_count {
        lemma_sections_fit(
            pe::with_pe_section(scan, pe::pe_section(table, index)),
            headers,
            table,
            index + 1,
            file_len,
            last,
        );
    }
}

/// The headers of an accepted image lie in the order in which they are named, and their numbers
/// come from 32-bit fields.
pub proof fn lemma_accepted_pe_headers(image: Seq<u8>, layout: PeImageLayout)
    requires
        image.len() <= u64::MAX,
        pe::pe_layout(image) == Ok::<PeImageLayout, RuntimeDataError>(layout),
    ensures
        layout.optional_header_offset == layout.file_header_offset + 20,
        layout.optional_header_offset + crate::object_file::optional_fixed_size(layout.kind)
            <= layout.section_table_offset,
        layout.security_directory_offset matches Some(offset) ==> {
            &&& layout.optional_header_offset + crate::object_file::optional_fixed_size(
                layout.kind,
            ) <= offset
            &&& offset + 8 <= layout.section_table_offset
        },
        layout.size_of_headers <= pe::MAX_PE_HEADER_BYTES,
        layout.file_alignment <= 64 * 1024,
        layout.section_alignment <= u32::MAX,
        layout.max_virtual_end <= 2 * u32::MAX,
        layout.max_raw_end <= 2 * u32::MAX,
{
    let kind = layout.kind;
    let nt_headers = crate::object_file::nt_headers_offset(image);
    let directories = crate::object_file::directories_offset(image, kind);
    let sections = crate::object_file::pe_section_table_offset(image);
    let headers = pe::pe_headers(image.subrange(nt_headers, directories), kind);
    let table = image.subrange(
        sections,
        sections + SECTION_HEADER_LEN * crate::object_file::pe_section_count(image),
    );
    pe::reader::lemma_fields_of_tables(image, kind);
    lemma_sections_fit(
        pe::initial_pe_scan(headers),
        headers,
        table,
        0,
        image.len() as u64,
        pe::scan_pe_sections(
            pe::initial_pe_scan(headers),
            headers,
            table,
            0,
            image.len() as u64,
        )->Ok_0,
    );
}

/// Where the data of a section ends in the file.
pub open spec fn raw_end(section: PeSection) -> int {
    section.offset + section.size
}

/// Where a section ends in memory.
pub open spec fn virtual_end(section: PeSection) -> int {
    section.virtual_address + pe::virtual_span(section)
}

/// A section that is accepted comes behind the headers and behind every section before it.
proof fn lemma_later_section(
    scan: PeScan,
    headers: PeHeaders,
    table: Seq<u8>,
    index: int,
    file_len: u64,
    later: int,
)
    requires
        0 < headers.section_alignment,
        pe::scan_pe_sections(scan, headers, table, index, file_len) is Ok,
        index <= later < headers.section_count,
    ensures
        ({
            let section = pe::pe_section(table, later);
            &&& section.size != 0 ==> headers.size_of_headers <= section.offset && raw_end(section)
                <= file_len
            &&& section.size != 0 ==> (scan.previous_raw_end matches Some(end) ==> end
                <= section.offset)
            &&& pe::virtual_span(section) != 0 ==> (scan.previous_virtual_end matches Some(end)
                ==> end <= section.virtual_address)
        }),
    decreases later - index,
{
    let section = pe::pe_section(table, index);
    if let Some(end) = scan.previous_virtual_end {
        align::lemma_aligned(end as int, headers.section_alignment as int);
    }
    if index < later {
        lemma_later_section(
            pe::with_pe_section(scan, section),
            headers,
            table,
            index + 1,
            file_len,
            later,
        );
    }
}

/// Two sections that are accepted in one scan do not overlap.
proof fn lemma_two_sections(
    scan: PeScan,
    headers: PeHeaders,
    table: Seq<u8>,
    index: int,
    file_len: u64,
    earlier: int,
    later: int,
)
    requires
        0 < headers.section_alignment,
        pe::scan_pe_sections(scan, headers, table, index, file_len) is Ok,
        index <= earlier < later < headers.section_count,
    ensures
        ({
            let first = pe::pe_section(table, earlier);
            let second = pe::pe_section(table, later);
            &&& first.size != 0 && second.size != 0 ==> raw_end(first) <= second.offset
            &&& pe::virtual_span(first) != 0 && pe::virtual_span(second) != 0 ==> virtual_end(first)
                <= second.virtual_address
        }),
    decreases earlier - index,
{
    let next = pe::with_pe_section(scan, pe::pe_section(table, index));
    if index < earlier {
        lemma_two_sections(next, headers, table, index + 1, file_len, earlier, later);
    } else {
        lemma_later_section(next, headers, table, index + 1, file_len, later);
    }
}

/// In an accepted image no two sections overlap, neither in the file nor in memory: each comes
/// behind the headers and behind all sections that the table lists before it.
pub proof fn law_pe_sections_do_not_overlap(
    image: Seq<u8>,
    layout: PeImageLayout,
    earlier: int,
    later: int,
)
    requires
        image.len() <= u64::MAX,
        pe::pe_layout(image) == Ok::<PeImageLayout, RuntimeDataError>(layout),
        0 <= earlier < later < layout.section_count,
    ensures
        ({
            let start = layout.section_table_offset as int;
            let table = image.subrange(start, start + SECTION_HEADER_LEN * layout.section_count);
            let first = pe::pe_section(table, earlier);
            let second = pe::pe_section(table, later);
            &&& first.size != 0 ==> layout.size_of_headers <= first.offset
            &&& first.size != 0 && second.size != 0 ==> raw_end(first) <= second.offset
            &&& pe::virtual_span(first) != 0 && pe::virtual_span(second) != 0 ==> virtual_end(first)
                <= second.virtual_address
        }),
{
    let kind = layout.kind;
    let nt_headers = crate::object_file::nt_headers_offset(image);
    let directories = crate::object_file::directories_offset(image, kind);
    let sections = crate::object_file::pe_section_table_offset(image);
    let headers = pe::pe_headers(image.subrange(nt_headers, directories), kind);
    let table = image.subrange(
        sections,
        sections + SECTION_HEADER_LEN * crate::object_file::pe_section_count(image),
    );
    pe::reader::lemma_fields_of_tables(image, kind);
    law_accepted_pe_layout(image, layout);
    assert(layout.section_table_offset == sections);
    lemma_later_section(
        pe::initial_pe_scan(headers),
        headers,
        table,
        0,
        image.len() as u64,
        earlier,
    );
    lemma_two_sections(
        pe::initial_pe_scan(headers),
        headers,
        table,
        0,
        image.len() as u64,
        earlier,
        later,
    );
}

} // verus!
