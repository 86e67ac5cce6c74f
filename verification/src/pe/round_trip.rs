//! A stamped PE image reads back as it was stamped.

use vstd::prelude::*;

use crate::align;
use crate::bytes;
use crate::error::RuntimeDataError;
use crate::footer;
use crate::footer::FOOTER_LEN;
use crate::object_file;
use crate::object_file::{DOS_HEADER_LEN, NT_HEADERS_POINTER, SECTION_HEADER_LEN};
use crate::payload;
use crate::pe;
use crate::pe::laws;
use crate::pe::stamp;
use crate::pe::stamp::PeStampPlan;
use crate::pe::{PeAnchorLayout, PeHeaders, PeImageLayout, PeKind, PeScan, PeSection};
use crate::runtime_reader;
use crate::runtime_reader::{LocatedView, MAX_HEADER_LEN};

verus! {

/// Whether `layout` and `plan` are such that the headers can be rewritten.
pub open spec fn headers_can_be_rewritten(
    headers: Seq<u8>,
    layout: PeImageLayout,
    plan: PeStampPlan,
) -> bool {
    let optional = layout.optional_header_offset;
    &&& headers.len() == layout.size_of_headers
    &&& optional == layout.file_header_offset + 20
    &&& layout.file_header_offset >= 4
    &&& optional + object_file::optional_fixed_size(layout.kind) + 32
        == plan.security_directory_offset
    &&& plan.security_directory_offset + 8 <= layout.section_table_offset
    &&& plan.section_header_offset == layout.section_table_offset + layout.section_count
        * SECTION_HEADER_LEN
    &&& plan.section_header_offset + SECTION_HEADER_LEN <= headers.len()
}

/// Whether rewriting leaves alone the `len` bytes from `at` on.
pub open spec fn is_left_alone(layout: PeImageLayout, plan: PeStampPlan, at: int, len: int) -> bool {
    let file_header = layout.file_header_offset;
    let optional = layout.optional_header_offset;
    let directory = plan.security_directory_offset;
    let section = plan.section_header_offset;
    &&& 0 <= at
    &&& 0 <= len
    &&& at + len <= layout.size_of_headers
    &&& at + len <= file_header + 2 || file_header + 4 <= at
    &&& at + len <= optional + 8 || optional + 12 <= at
    &&& at + len <= optional + 56 || optional + 60 <= at
    &&& at + len <= optional + 64 || optional + 68 <= at
    &&& at + len <= directory || directory + 8 <= at
    &&& at + len <= section || section + SECTION_HEADER_LEN <= at
}

/// Rewriting the headers leaves their length and everything but the rewritten fields as it was.
proof fn lemma_rewritten_headers(
    headers: Seq<u8>,
    layout: PeImageLayout,
    plan: PeStampPlan,
    at: int,
    len: int,
)
    requires
        headers_can_be_rewritten(headers, layout, plan),
        is_left_alone(layout, plan, at, len),
    ensures
        stamp::stamped_headers(headers, layout, plan).len() == headers.len(),
        stamp::stamped_headers(headers, layout, plan).subrange(at, at + len) == headers.subrange(
            at,
            at + len,
        ),
{
    let rewritten = stamp::stamped_headers(headers, layout, plan);
    assert(stamp::anchor_section_header(plan).len() == SECTION_HEADER_LEN);
    assert(rewritten.subrange(at, at + len) =~= headers.subrange(at, at + len));
}

/// Rewriting the headers leaves the rewritten fields with their new values.
proof fn lemma_rewritten_fields(headers: Seq<u8>, layout: PeImageLayout, plan: PeStampPlan)
    requires
        headers_can_be_rewritten(headers, layout, plan),
    ensures
        ({
            let rewritten = stamp::stamped_headers(headers, layout, plan);
            let optional = layout.optional_header_offset as int;
            let directory = plan.security_directory_offset as int;
            let section = plan.section_header_offset as int;
            &&& rewritten.len() == headers.len()
            &&& rewritten.subrange(
                layout.file_header_offset + 2,
                layout.file_header_offset + 4,
            ) == bytes::u16_bytes(plan.section_count)
            &&& rewritten.subrange(optional + 8, optional + 12) == bytes::u32_bytes(
                plan.size_of_initialized_data,
            )
            &&& rewritten.subrange(optional + 56, optional + 60) == bytes::u32_bytes(
                plan.size_of_image,
            )
            &&& rewritten.subrange(directory, directory + 8) == bytes::zeros(8)
            &&& rewritten.subrange(section, section + SECTION_HEADER_LEN)
                == stamp::anchor_section_header(plan)
        }),
{
    let rewritten = stamp::stamped_headers(headers, layout, plan);
    let optional = layout.optional_header_offset as int;
    let directory = plan.security_directory_offset as int;
    let section = plan.section_header_offset as int;
    assert(stamp::anchor_section_header(plan).len() == SECTION_HEADER_LEN);
    assert(rewritten.subrange(layout.file_header_offset + 2, layout.file_header_offset + 4)
        =~= bytes::u16_bytes(plan.section_count));
    assert(rewritten.subrange(optional + 8, optional + 12) =~= bytes::u32_bytes(
        plan.size_of_initialized_data,
    ));
    assert(rewritten.subrange(optional + 56, optional + 60) =~= bytes::u32_bytes(
        plan.size_of_image,
    ));
    assert(rewritten.subrange(directory, directory + 8) =~= bytes::zeros(8));
    assert(rewritten.subrange(section, section + SECTION_HEADER_LEN)
        =~= stamp::anchor_section_header(plan));
}

/// Whether `image` has this layout, and `stamped` starts with its headers as `plan` rewrites
/// them, which leaves the NT headers where they were.
pub open spec fn starts_with_rewritten_headers(
    image: Seq<u8>,
    layout: PeImageLayout,
    plan: PeStampPlan,
    stamped: Seq<u8>,
) -> bool {
    let len = layout.size_of_headers as int;
    &&& image.len() <= u64::MAX
    &&& pe::pe_layout(image) == Ok::<PeImageLayout, RuntimeDataError>(layout)
    &&& headers_can_be_rewritten(image.take(len), layout, plan)
    &&& len <= stamped.len()
    &&& stamped.take(len) == stamp::stamped_headers(image.take(len), layout, plan)
    &&& object_file::nt_headers_offset(stamped) == object_file::nt_headers_offset(image)
}

/// What rewriting leaves alone is the same in both images.
proof fn lemma_left_alone(
    image: Seq<u8>,
    layout: PeImageLayout,
    plan: PeStampPlan,
    stamped: Seq<u8>,
    at: int,
    len: int,
)
    requires
        starts_with_rewritten_headers(image, layout, plan, stamped),
        is_left_alone(layout, plan, at, len),
    ensures
        stamped.subrange(at, at + len) == image.subrange(at, at + len),
{
    laws::law_accepted_pe_layout(image, layout);
    let headers = image.take(layout.size_of_headers as int);
    let rewritten = stamped.take(layout.size_of_headers as int);
    lemma_rewritten_headers(headers, layout, plan, at, len);
    assert(stamped.subrange(at, at + len) =~= rewritten.subrange(at, at + len));
    assert(image.subrange(at, at + len) =~= headers.subrange(at, at + len));
}

/// A `u32` that rewriting leaves alone is the same in both images.
proof fn lemma_u32_left_alone(
    image: Seq<u8>,
    layout: PeImageLayout,
    plan: PeStampPlan,
    stamped: Seq<u8>,
    at: int,
)
    requires
        starts_with_rewritten_headers(image, layout, plan, stamped),
        is_left_alone(layout, plan, at, 4),
    ensures
        bytes::le_u32(stamped, at) == bytes::le_u32(image, at),
{
    laws::law_accepted_pe_layout(image, layout);
    lemma_left_alone(image, layout, plan, stamped, at, 4);
    bytes::lemma_le_u32_window(stamped, at, image, at);
}

/// A `u16` that rewriting leaves alone is the same in both images.
proof fn lemma_u16_left_alone(
    image: Seq<u8>,
    layout: PeImageLayout,
    plan: PeStampPlan,
    stamped: Seq<u8>,
    at: int,
)
    requires
        starts_with_rewritten_headers(image, layout, plan, stamped),
        is_left_alone(layout, plan, at, 2),
    ensures
        bytes::le_u16(stamped, at) == bytes::le_u16(image, at),
{
    laws::law_accepted_pe_layout(image, layout);
    lemma_left_alone(image, layout, plan, stamped, at, 2);
    bytes::lemma_le_u16_window(stamped, at, image, at);
}

/// The NT headers of an image with this layout.
pub open spec fn headers_of(image: Seq<u8>, kind: PeKind) -> PeHeaders {
    pe::pe_headers(
        image.subrange(
            object_file::nt_headers_offset(image),
            object_file::directories_offset(image, kind),
        ),
        kind,
    )
}

/// The section table of an image.
pub open spec fn section_table_of(image: Seq<u8>) -> Seq<u8> {
    let start = object_file::pe_section_table_offset(image);
    image.subrange(start, start + SECTION_HEADER_LEN * object_file::pe_section_count(image))
}

/// The fields of the NT headers read the same in the headers and in the image.
pub proof fn lemma_headers_in_image(image: Seq<u8>, kind: PeKind)
    requires
        object_file::pe_tables_fault(image, kind) is None,
    ensures
        ({
            let start = object_file::nt_headers_offset(image);
            let headers = headers_of(image, kind);
            &&& headers.machine == bytes::le_u16(image, start + 4)
            &&& headers.section_count == bytes::le_u16(image, start + 6)
            &&& headers.optional_header_size == bytes::le_u16(image, start + 20)
            &&& headers.characteristics == bytes::le_u16(image, start + 22)
            &&& headers.size_of_initialized_data == bytes::le_u32(image, start + 32)
            &&& headers.section_alignment == bytes::le_u32(image, start + 56)
            &&& headers.file_alignment == bytes::le_u32(image, start + 60)
            &&& headers.size_of_image == bytes::le_u32(image, start + 80)
            &&& headers.size_of_headers == bytes::le_u32(image, start + 84)
            &&& headers.directory_count == object_file::directory_count(image, kind)
        }),
{
    let start = object_file::nt_headers_offset(image);
    let end = object_file::directories_offset(image, kind);
    let raw = image.subrange(start, end);
    assert forall|at: int| 0 <= at && at + 4 <= raw.len() implies #[trigger] bytes::le_u32(raw, at)
        == bytes::le_u32(image, start + at) by {
        assert(raw.subrange(at, at + 4) =~= image.subrange(start + at, start + at + 4));
        bytes::lemma_le_u32_window(raw, at, image, start + at);
    }
    assert forall|at: int| 0 <= at && at + 2 <= raw.len() implies #[trigger] bytes::le_u16(raw, at)
        == bytes::le_u16(image, start + at) by {
        assert(raw.subrange(at, at + 2) =~= image.subrange(start + at, start + at + 2));
        bytes::lemma_le_u16_window(raw, at, image, start + at);
    }
}

/// The tables of the stamped image can be read, and its NT headers say what those of the template
/// say, but for the fields that were rewritten.
proof fn lemma_stamped_headers_read(
    image: Seq<u8>,
    layout: PeImageLayout,
    plan: PeStampPlan,
    stamped: Seq<u8>,
)
    requires
        starts_with_rewritten_headers(image, layout, plan, stamped),
        plan.section_count == layout.section_count + 1,
    ensures
        object_file::has_dos_magic(image),
        object_file::has_dos_magic(stamped),
        object_file::pe_kind(image) == Some(layout.kind),
        object_file::pe_kind(stamped) == Some(layout.kind),
        object_file::pe_tables_fault(image, layout.kind) is None,
        object_file::pe_tables_fault(stamped, layout.kind) is None,
        headers_of(stamped, layout.kind) == (PeHeaders {
            section_count: plan.section_count,
            size_of_initialized_data: plan.size_of_initialized_data,
            size_of_image: plan.size_of_image,
            ..headers_of(image, layout.kind)
        }),
        object_file::pe_section_table_offset(stamped) == layout.section_table_offset,
        object_file::pe_section_table_offset(image) == layout.section_table_offset,
        object_file::pe_section_count(stamped) == plan.section_count,
        object_file::pe_section_count(image) == layout.section_count,
{
    let kind = layout.kind;
    let start = object_file::nt_headers_offset(image);
    let fixed = object_file::optional_fixed_size(kind);
    laws::law_accepted_pe_layout(image, layout);
    laws::lemma_accepted_pe_headers(image, layout);
    pe::reader::lemma_fields_of_tables(image, kind);
    assert(layout.file_header_offset == start + 4);
    lemma_u32_left_alone(image, layout, plan, stamped, start);
    lemma_u16_left_alone(image, layout, plan, stamped, start + 4);
    lemma_u16_left_alone(image, layout, plan, stamped, start + 20);
    lemma_u16_left_alone(image, layout, plan, stamped, start + 22);
    lemma_u16_left_alone(image, layout, plan, stamped, start + 24);
    lemma_u32_left_alone(image, layout, plan, stamped, start + 56);
    lemma_u32_left_alone(image, layout, plan, stamped, start + 60);
    lemma_u32_left_alone(image, layout, plan, stamped, start + 84);
    lemma_u32_left_alone(image, layout, plan, stamped, start + 20 + fixed);
    lemma_magic_left_alone(image, layout, plan, stamped);
    lemma_rewritten_in_stamped(image, layout, plan, stamped);
    lemma_headers_in_image(image, kind);
    lemma_headers_in_image(stamped, kind);
}

/// The stamped image starts as a DOS program, as the template does.
proof fn lemma_magic_left_alone(
    image: Seq<u8>,
    layout: PeImageLayout,
    plan: PeStampPlan,
    stamped: Seq<u8>,
)
    requires
        starts_with_rewritten_headers(image, layout, plan, stamped),
    ensures
        object_file::has_dos_magic(image),
        object_file::has_dos_magic(stamped),
{
    laws::law_accepted_pe_layout(image, layout);
    laws::lemma_accepted_pe_headers(image, layout);
    assert(layout.file_header_offset == object_file::nt_headers_offset(image) + 4);
    lemma_left_alone(image, layout, plan, stamped, 0, 2);
    assert(stamped.subrange(0, 2)[0] == image.subrange(0, 2)[0]);
    assert(stamped.subrange(0, 2)[1] == image.subrange(0, 2)[1]);
}

/// The rewritten fields read in the stamped image as they were written.
proof fn lemma_rewritten_in_stamped(
    image: Seq<u8>,
    layout: PeImageLayout,
    plan: PeStampPlan,
    stamped: Seq<u8>,
)
    requires
        starts_with_rewritten_headers(image, layout, plan, stamped),
    ensures
        bytes::le_u16(stamped, layout.file_header_offset + 2) == plan.section_count,
        bytes::le_u32(stamped, layout.optional_header_offset + 8) == plan.size_of_initialized_data,
        bytes::le_u32(stamped, layout.optional_header_offset + 56) == plan.size_of_image,
        stamped.subrange(
            plan.security_directory_offset as int,
            plan.security_directory_offset + 8,
        ) == bytes::zeros(8),
        stamped.subrange(
            plan.section_header_offset as int,
            plan.section_header_offset + SECTION_HEADER_LEN,
        ) == stamp::anchor_section_header(plan),
{
    let headers = image.take(layout.size_of_headers as int);
    let rewritten = stamped.take(layout.size_of_headers as int);
    let count = layout.file_header_offset + 2;
    let data = layout.optional_header_offset + 8;
    let size = layout.optional_header_offset + 56;
    let directory = plan.security_directory_offset as int;
    let section = plan.section_header_offset as int;
    lemma_rewritten_fields(headers, layout, plan);
    assert(stamped.subrange(count, count + 2) =~= rewritten.subrange(count, count + 2));
    assert(stamped.subrange(data, data + 4) =~= rewritten.subrange(data, data + 4));
    assert(stamped.subrange(size, size + 4) =~= rewritten.subrange(size, size + 4));
    assert(stamped.subrange(directory, directory + 8) =~= rewritten.subrange(
        directory,
        directory + 8,
    ));
    assert(stamped.subrange(section, section + SECTION_HEADER_LEN) =~= rewritten.subrange(
        section,
        section + SECTION_HEADER_LEN,
    ));
    let count_bytes = bytes::u16_bytes(plan.section_count);
    let data_bytes = bytes::u32_bytes(plan.size_of_initialized_data);
    let size_bytes = bytes::u32_bytes(plan.size_of_image);
    assert(count_bytes.subrange(0, 2) =~= count_bytes);
    assert(data_bytes.subrange(0, 4) =~= data_bytes);
    assert(size_bytes.subrange(0, 4) =~= size_bytes);
    bytes::lemma_le_u16_window(stamped, count, count_bytes, 0);
    bytes::lemma_le_u32_window(stamped, data, data_bytes, 0);
    bytes::lemma_le_u32_window(stamped, size, size_bytes, 0);
    bytes::lemma_u16_round_trip(plan.section_count);
    bytes::lemma_u32_round_trip(plan.size_of_initialized_data);
    bytes::lemma_u32_round_trip(plan.size_of_image);
}

/// Equal entries of two section tables read the same.
proof fn lemma_section_window(left: Seq<u8>, i: int, right: Seq<u8>, j: int)
    requires
        0 <= i,
        (i + 1) * SECTION_HEADER_LEN <= left.len(),
        0 <= j,
        (j + 1) * SECTION_HEADER_LEN <= right.len(),
        left.subrange(i * SECTION_HEADER_LEN, (i + 1) * SECTION_HEADER_LEN) == right.subrange(
            j * SECTION_HEADER_LEN,
            (j + 1) * SECTION_HEADER_LEN,
        ),
    ensures
        pe::pe_section(left, i) == pe::pe_section(right, j),
{
    let a = i * SECTION_HEADER_LEN;
    let b = j * SECTION_HEADER_LEN;
    let entry = left.subrange(a, a + SECTION_HEADER_LEN);
    assert(entry == right.subrange(b, b + SECTION_HEADER_LEN));
    assert(left.subrange(a, a + 8) =~= entry.subrange(0, 8));
    assert(right.subrange(b, b + 8) =~= entry.subrange(0, 8));
    assert forall|at: int| 0 <= at && at + 4 <= SECTION_HEADER_LEN implies #[trigger] bytes::le_u32(
        left,
        a + at,
    ) == bytes::le_u32(right, b + at) by {
        assert(left.subrange(a + at, a + at + 4) =~= entry.subrange(at, at + 4));
        assert(right.subrange(b + at, b + at + 4) =~= entry.subrange(at, at + 4));
        bytes::lemma_le_u32_window(left, a + at, right, b + at);
    }
    assert(bytes::le_u32(left, a + 8) == bytes::le_u32(right, b + 8));
    assert(bytes::le_u32(left, a + 12) == bytes::le_u32(right, b + 12));
    assert(bytes::le_u32(left, a + 16) == bytes::le_u32(right, b + 16));
    assert(bytes::le_u32(left, a + 20) == bytes::le_u32(right, b + 20));
    assert(bytes::le_u32(left, a + 36) == bytes::le_u32(right, b + 36));
}

/// The entries of the template's section table are those of the stamped image, in front of the
/// anchor section.
proof fn lemma_sections_left_alone(
    image: Seq<u8>,
    layout: PeImageLayout,
    plan: PeStampPlan,
    stamped: Seq<u8>,
    index: int,
)
    requires
        starts_with_rewritten_headers(image, layout, plan, stamped),
        plan.section_count == layout.section_count + 1,
        0 <= index < layout.section_count,
    ensures
        pe::pe_section(section_table_of(stamped), index) == pe::pe_section(
            section_table_of(image),
            index,
        ),
{
    lemma_stamped_headers_read(image, layout, plan, stamped);
    laws::law_accepted_pe_layout(image, layout);
    laws::lemma_accepted_pe_headers(image, layout);
    let table = layout.section_table_offset as int;
    let at = table + index * SECTION_HEADER_LEN;
    assert(index * SECTION_HEADER_LEN + SECTION_HEADER_LEN <= layout.section_count
        * SECTION_HEADER_LEN) by (nonlinear_arith)
        requires
            index + 1 <= layout.section_count,
            SECTION_HEADER_LEN == 40,
    ;
    lemma_left_alone(image, layout, plan, stamped, at, SECTION_HEADER_LEN as int);
    let from = index * SECTION_HEADER_LEN;
    let to = (index + 1) * SECTION_HEADER_LEN;
    assert(section_table_of(stamped).subrange(from, to) =~= stamped.subrange(
        at,
        at + SECTION_HEADER_LEN,
    ));
    assert(section_table_of(image).subrange(from, to) =~= image.subrange(
        at,
        at + SECTION_HEADER_LEN,
    ));
    lemma_section_window(section_table_of(stamped), index, section_table_of(image), index);
}

/// The last entry of the stamped image's section table is the anchor section.
proof fn lemma_anchor_section_reads(
    image: Seq<u8>,
    layout: PeImageLayout,
    plan: PeStampPlan,
    stamped: Seq<u8>,
)
    requires
        starts_with_rewritten_headers(image, layout, plan, stamped),
        plan.section_count == layout.section_count + 1,
    ensures
        ({
            let section = pe::pe_section(
                section_table_of(stamped),
                layout.section_count as int,
            );
            &&& section.is_anchor
            &&& !section.is_reader_capability
            &&& section.virtual_size == FOOTER_LEN
            &&& section.virtual_address == plan.anchor_virtual_address
            &&& section.size == plan.anchor_raw_size
            &&& section.offset == plan.anchor_offset
            &&& section.characteristics == pe::PE_ANCHOR_SECTION_CHARACTERISTICS
        }),
{
    lemma_stamped_headers_read(image, layout, plan, stamped);
    lemma_rewritten_in_stamped(image, layout, plan, stamped);
    let entry = stamp::anchor_section_header(plan);
    let index = layout.section_count as int;
    let table = section_table_of(stamped);
    let from = index * SECTION_HEADER_LEN;
    let to = (index + 1) * SECTION_HEADER_LEN;
    assert(to == from + SECTION_HEADER_LEN);
    assert(table.subrange(from, to) =~= stamped.subrange(
        plan.section_header_offset as int,
        plan.section_header_offset + SECTION_HEADER_LEN,
    ));
    assert(entry.len() == SECTION_HEADER_LEN);
    assert(entry.subrange(0, SECTION_HEADER_LEN as int) =~= entry);
    lemma_section_window(table, index, entry, 0);
    assert(entry.subrange(0, 8) =~= pe::anchor_section_name());
    assert(pe::anchor_section_name()[3] != pe::capability_section_name()[3]);
    lemma_entry_field(entry, 8, FOOTER_LEN as u32);
    lemma_entry_field(entry, 12, plan.anchor_virtual_address);
    lemma_entry_field(entry, 16, plan.anchor_raw_size);
    lemma_entry_field(entry, 20, plan.anchor_offset);
    lemma_entry_field(entry, 36, pe::PE_ANCHOR_SECTION_CHARACTERISTICS);
}

/// A field of an entry reads as it was written.
proof fn lemma_entry_field(entry: Seq<u8>, at: int, value: u32)
    requires
        0 <= at && at + 4 <= entry.len(),
        entry.subrange(at, at + 4) =~= bytes::u32_bytes(value),
    ensures
        bytes::le_u32(entry, at) == value,
{
    let field = bytes::u32_bytes(value);
    assert(field.subrange(0, 4) =~= field);
    bytes::lemma_le_u32_window(entry, at, field, 0);
    bytes::lemma_u32_round_trip(value);
}

/// What the sections read so far keep to, so that another section fits behind them.
pub open spec fn is_ordered_scan(scan: PeScan, headers: PeHeaders) -> bool {
    &&& scan.max_raw_end % headers.file_alignment == 0
    &&& scan.previous_raw_end matches Some(previous) ==> previous <= scan.max_raw_end
    &&& match scan.previous_virtual_end {
        Some(previous) => previous == scan.max_virtual_end && headers.size_of_headers < previous,
        None => scan.max_virtual_end == 0,
    }
    &&& scan.first_section_offset is Some ==> scan.previous_virtual_end is Some
    &&& scan.first_section_offset is None ==> scan.max_raw_end == headers.size_of_headers
    &&& pe::is_low_alignment(headers.section_alignment) && scan.first_section_offset is Some
        ==> scan.max_raw_end <= scan.max_virtual_end
    &&& scan.first_section_offset matches Some(first) ==> first <= scan.max_raw_end
}

/// A section that is accepted keeps the scan ordered.
proof fn lemma_section_keeps_scan_ordered(
    scan: PeScan,
    headers: PeHeaders,
    table: Seq<u8>,
    index: int,
    file_len: u64,
)
    requires
        is_ordered_scan(scan, headers),
        0 < headers.file_alignment,
        0 < headers.section_alignment,
        headers.size_of_headers <= u32::MAX,
        pe::pe_section_error(scan, headers, pe::pe_section(table, index), file_len) is None,
    ensures
        is_ordered_scan(pe::with_pe_section(scan, pe::pe_section(table, index)), headers),
{
    let section = pe::pe_section(table, index);
    align::lemma_aligned(headers.size_of_headers as int, headers.section_alignment as int);
    if let Some(previous) = scan.previous_virtual_end {
        align::lemma_aligned(previous as int, headers.section_alignment as int);
    }
    if section.size != 0 {
        let alignment = headers.file_alignment as int;
        vstd::arithmetic::div_mod::lemma_mod_adds(
            section.offset as int,
            section.size as int,
            alignment,
        );
        assert((section.offset + section.size) % alignment == 0);
    }
}

/// The template's sections are accepted in the stamped image as they were before, and leave the
/// anchor section to be read.
proof fn lemma_scan_reaches_anchor(
    scan: PeScan,
    headers: PeHeaders,
    stamped_headers: PeHeaders,
    table: Seq<u8>,
    stamped_table: Seq<u8>,
    index: int,
    file_len: u64,
    stamped_len: u64,
    last: PeScan,
)
    requires
        is_ordered_scan(scan, headers),
        0 < headers.file_alignment,
        0 < headers.section_alignment,
        headers.size_of_headers <= u32::MAX,
        stamped_headers.section_count == headers.section_count + 1,
        stamped_headers.size_of_headers == headers.size_of_headers,
        stamped_headers.file_alignment == headers.file_alignment,
        stamped_headers.section_alignment == headers.section_alignment,
        0 <= index <= headers.section_count,
        forall|i: int|
            0 <= i < headers.section_count ==> #[trigger] pe::pe_section(stamped_table, i)
                == pe::pe_section(table, i),
        file_len <= stamped_len,
        pe::scan_pe_sections(scan, headers, table, index, file_len) == Ok::<
            PeScan,
            RuntimeDataError,
        >(last),
    ensures
        is_ordered_scan(last, headers),
        pe::scan_pe_sections(scan, stamped_headers, stamped_table, index, stamped_len)
            == pe::scan_pe_sections(
            last,
            stamped_headers,
            stamped_table,
            headers.section_count as int,
            stamped_len,
        ),
    decreases headers.section_count - index,
{
    if index < headers.section_count {
        let section = pe::pe_section(table, index);
        assert(pe::pe_section(stamped_table, index) == section);
        lemma_section_keeps_scan_ordered(scan, headers, table, index, file_len);
        assert(pe::pe_section_error(scan, stamped_headers, section, stamped_len) is None);
        lemma_scan_reaches_anchor(
            pe::with_pe_section(scan, section),
            headers,
            stamped_headers,
            table,
            stamped_table,
            index + 1,
            file_len,
            stamped_len,
            last,
        );
    }
}

/// Whether `plan` is how an accepted template with this layout is stamped.
pub open spec fn is_plan_for(image: Seq<u8>, layout: PeImageLayout, plan: PeStampPlan, content_len: u64) -> bool {
    &&& image.len() <= u64::MAX
    &&& pe::pe_layout(image) == Ok::<PeImageLayout, RuntimeDataError>(layout)
    &&& layout.anchor is None
    &&& image.len() == layout.max_raw_end
    &&& layout.security_directory_offset is Some
    &&& layout.first_section_offset is Some
    &&& layout.section_table_offset + (layout.section_count + 1) * SECTION_HEADER_LEN
        <= layout.size_of_headers
    &&& stamp::pe_stamp_plan(layout, content_len) == Ok::<PeStampPlan, RuntimeDataError>(plan)
}

/// The anchor section lies behind everything else, in the file and in memory.
pub proof fn lemma_plan(image: Seq<u8>, layout: PeImageLayout, plan: PeStampPlan, content_len: u64)
    requires
        is_plan_for(image, layout, plan, content_len),
    ensures
        headers_can_be_rewritten(image.take(layout.size_of_headers as int), layout, plan),
        plan.section_count == layout.section_count + 1,
        plan.section_count <= pe::PE_MAX_SECTIONS,
        image.len() <= plan.anchor_offset,
        layout.max_raw_end <= plan.anchor_offset,
        plan.anchor_offset as u64 % layout.file_alignment == 0,
        plan.anchor_raw_size as u64 % layout.file_alignment == 0,
        plan.anchor_raw_size == align::aligned(FOOTER_LEN as int, layout.file_alignment as int),
        plan.anchor_raw_size >= FOOTER_LEN,
        plan.anchor_virtual_address == align::aligned(
            layout.max_virtual_end as int,
            layout.section_alignment as int,
        ),
        plan.anchor_virtual_address as u64 % layout.section_alignment == 0,
        pe::is_low_alignment(layout.section_alignment) ==> plan.anchor_offset
            == plan.anchor_virtual_address,
        align::aligned(
            plan.anchor_virtual_address + plan.anchor_raw_size,
            layout.section_alignment as int,
        ) <= plan.size_of_image,
        plan.size_of_image as u64 % layout.section_alignment == 0,
        layout.kind == PeKind::Pe64 ==> plan.size_of_image <= pe::PE_MAX_IMAGE_SIZE,
        pe::content::content_layout(
            (plan.anchor_offset + plan.anchor_raw_size) as u64,
            content_len,
        ) == Ok::<(u64, u64), RuntimeDataError>((plan.payload_start, plan.payload_end)),
        plan.anchor_offset + plan.anchor_raw_size <= plan.payload_start,
        plan.payload_start + content_len == plan.payload_end,
        plan.payload_end <= u32::MAX,
{
    let kind = layout.kind;
    let headers = headers_of(image, kind);
    let table = section_table_of(image);
    let file_len = image.len() as u64;
    let scan = pe::scan_pe_sections(
        pe::initial_pe_scan(headers),
        headers,
        table,
        0,
        file_len,
    )->Ok_0;
    let alignment = layout.section_alignment as int;
    laws::law_accepted_pe_layout(image, layout);
    laws::lemma_accepted_pe_headers(image, layout);
    lemma_scan_reaches_anchor(
        pe::initial_pe_scan(headers),
        headers,
        PeHeaders { section_count: (headers.section_count + 1) as u16, ..headers },
        table,
        table,
        0,
        file_len,
        file_len,
        scan,
    );
    align::lemma_aligned(layout.max_virtual_end as int, alignment);
    align::lemma_aligned(FOOTER_LEN as int, layout.file_alignment as int);
    let virtual_address = align::aligned(layout.max_virtual_end as int, alignment);
    let offset = if pe::is_low_alignment(layout.section_alignment) {
        virtual_address
    } else {
        layout.max_raw_end as int
    };
    let raw_size = align::aligned(FOOTER_LEN as int, layout.file_alignment as int);
    align::lemma_aligned(virtual_address + raw_size, alignment);
    pe::content::law_content_layout(
        (offset + raw_size) as u64,
        content_len,
        plan.payload_start,
        plan.payload_end,
    );
}

/// The layout of an image once `plan` was carried out on it.
pub open spec fn layout_with_anchor(layout: PeImageLayout, plan: PeStampPlan) -> PeImageLayout {
    let raw_end = (plan.anchor_offset + plan.anchor_raw_size) as u64;
    let virtual_end = (plan.anchor_virtual_address + plan.anchor_raw_size) as u64;
    PeImageLayout {
        section_count: plan.section_count,
        size_of_image: plan.size_of_image,
        size_of_initialized_data: plan.size_of_initialized_data,
        max_raw_end: raw_end,
        max_virtual_end: virtual_end,
        anchor: Some(
            PeAnchorLayout {
                offset: plan.anchor_offset as u64,
                raw_size: plan.anchor_raw_size as u64,
                raw_end,
                virtual_end,
            },
        ),
        certificate: None,
        ..layout
    }
}

/// The sections that are read in the template.
pub open spec fn sections_read_in(image: Seq<u8>, kind: PeKind) -> Result<PeScan, RuntimeDataError> {
    let headers = headers_of(image, kind);
    pe::scan_pe_sections(
        pe::initial_pe_scan(headers),
        headers,
        section_table_of(image),
        0,
        image.len() as u64,
    )
}

/// The anchor section is accepted behind the sections of the template.
proof fn lemma_stamped_sections(
    image: Seq<u8>,
    layout: PeImageLayout,
    plan: PeStampPlan,
    content_len: u64,
    stamped: Seq<u8>,
)
    requires
        is_plan_for(image, layout, plan, content_len),
        starts_with_rewritten_headers(image, layout, plan, stamped),
        plan.payload_start <= stamped.len() <= u64::MAX,
    ensures
        sections_read_in(stamped, layout.kind) == Ok::<PeScan, RuntimeDataError>(
            pe::with_pe_section(
                sections_read_in(image, layout.kind)->Ok_0,
                pe::pe_section(section_table_of(stamped), layout.section_count as int),
            ),
        ),
{
    let kind = layout.kind;
    let headers = headers_of(image, kind);
    let rewritten = headers_of(stamped, kind);
    let table = section_table_of(image);
    let stamped_table = section_table_of(stamped);
    let count = layout.section_count as int;
    let stamped_len = stamped.len() as u64;
    laws::law_accepted_pe_layout(image, layout);
    laws::lemma_accepted_pe_headers(image, layout);
    lemma_plan(image, layout, plan, content_len);
    lemma_stamped_headers_read(image, layout, plan, stamped);
    assert forall|i: int| 0 <= i < headers.section_count implies #[trigger] pe::pe_section(
        stamped_table,
        i,
    ) == pe::pe_section(table, i) by {
        lemma_sections_left_alone(image, layout, plan, stamped, i);
    }
    let scan = sections_read_in(image, kind)->Ok_0;
    lemma_scan_reaches_anchor(
        pe::initial_pe_scan(headers),
        headers,
        rewritten,
        table,
        stamped_table,
        0,
        image.len() as u64,
        stamped_len,
        scan,
    );
    lemma_anchor_section_reads(image, layout, plan, stamped);
    let anchor = pe::pe_section(stamped_table, count);
    assert(pe::raw_range_error(scan, rewritten, anchor, stamped_len) is None);
    assert(pe::virtual_range_error(scan, rewritten, anchor) is None);
    assert(pe::pe_section_error(scan, rewritten, anchor, stamped_len) is None);
    let last = pe::with_pe_section(scan, anchor);
    assert(pe::scan_pe_sections(last, rewritten, stamped_table, count + 1, stamped_len) == Ok::<
        PeScan,
        RuntimeDataError,
    >(last));
    assert(pe::initial_pe_scan(rewritten) == pe::initial_pe_scan(headers));
}

/// The headers of the stamped image are accepted.
proof fn lemma_stamped_headers_accepted(
    image: Seq<u8>,
    layout: PeImageLayout,
    plan: PeStampPlan,
    content_len: u64,
    stamped: Seq<u8>,
)
    requires
        is_plan_for(image, layout, plan, content_len),
        starts_with_rewritten_headers(image, layout, plan, stamped),
        stamped.len() <= u64::MAX,
    ensures
        pe::pe_headers_error(
            headers_of(stamped, layout.kind),
            layout.kind,
            layout.section_table_offset + plan.section_count * SECTION_HEADER_LEN,
            stamped.len() as u64,
        ) is None,
        headers_of(stamped, layout.kind).optional_header_size == layout.section_table_offset
            - layout.optional_header_offset,
        headers_of(stamped, layout.kind).machine == layout.machine,
        pe::security_directory(
            headers_of(stamped, layout.kind),
            layout.kind,
            layout.optional_header_offset as int,
        ) == layout.security_directory_offset,
{
    laws::law_accepted_pe_layout(image, layout);
    laws::lemma_accepted_pe_headers(image, layout);
    lemma_plan(image, layout, plan, content_len);
    lemma_stamped_headers_read(image, layout, plan, stamped);
}

/// The stamped image is accepted, with the layout of the template and the anchor section.
#[verifier::rlimit(40)]
pub proof fn lemma_stamped_layout(
    image: Seq<u8>,
    layout: PeImageLayout,
    plan: PeStampPlan,
    content_len: u64,
    stamped: Seq<u8>,
)
    requires
        is_plan_for(image, layout, plan, content_len),
        starts_with_rewritten_headers(image, layout, plan, stamped),
        plan.payload_start <= stamped.len() <= u64::MAX,
    ensures
        pe::pe_layout(stamped) == Ok::<PeImageLayout, RuntimeDataError>(
            layout_with_anchor(layout, plan),
        ),
{
    let kind = layout.kind;
    let rewritten = headers_of(stamped, kind);
    let scan = sections_read_in(image, kind)->Ok_0;
    let anchor = pe::pe_section(section_table_of(stamped), layout.section_count as int);
    let last = pe::with_pe_section(scan, anchor);
    lemma_plan(image, layout, plan, content_len);
    lemma_stamped_headers_read(image, layout, plan, stamped);
    lemma_stamped_headers_accepted(image, layout, plan, content_len, stamped);
    lemma_stamped_sections(image, layout, plan, content_len, stamped);
    lemma_anchor_section_reads(image, layout, plan, stamped);
    lemma_no_certificate(image, layout, plan, stamped);
    lemma_last_scan(image, layout, plan, content_len, anchor);
    assert(pe::pe_scan_error(last, rewritten) is None);
}

/// What the sections of the stamped image add up to.
proof fn lemma_last_scan(
    image: Seq<u8>,
    layout: PeImageLayout,
    plan: PeStampPlan,
    content_len: u64,
    anchor: PeSection,
)
    requires
        is_plan_for(image, layout, plan, content_len),
        anchor.is_anchor,
        !anchor.is_reader_capability,
        anchor.virtual_size == FOOTER_LEN,
        anchor.virtual_address == plan.anchor_virtual_address,
        anchor.size == plan.anchor_raw_size,
        anchor.offset == plan.anchor_offset,
    ensures
        ({
            let last = pe::with_pe_section(sections_read_in(image, layout.kind)->Ok_0, anchor);
            let stamped = layout_with_anchor(layout, plan);
            &&& last.first_section_offset == stamped.first_section_offset
            &&& last.max_raw_end == stamped.max_raw_end
            &&& last.max_virtual_end == stamped.max_virtual_end
            &&& last.anchor == stamped.anchor
            &&& last.reader_capability == stamped.reader_capability
        }),
{
    laws::law_accepted_pe_layout(image, layout);
    lemma_plan(image, layout, plan, content_len);
    align::lemma_aligned(layout.max_virtual_end as int, layout.section_alignment as int);
}

/// The stamped image names no certificate table.
proof fn lemma_no_certificate(
    image: Seq<u8>,
    layout: PeImageLayout,
    plan: PeStampPlan,
    stamped: Seq<u8>,
)
    requires
        starts_with_rewritten_headers(image, layout, plan, stamped),
        plan.section_count == layout.section_count + 1,
        layout.security_directory_offset is Some,
    ensures
        ({
            let directories = object_file::directories_offset(stamped, layout.kind);
            forall|max_raw_end: u64, file_len: u64|
                #[trigger] pe::certificate_layout(
                    headers_of(stamped, layout.kind),
                    stamped.subrange(
                        directories,
                        directories + 8 * object_file::directory_count(stamped, layout.kind),
                    ),
                    max_raw_end,
                    file_len,
                ) == Ok::<Option<pe::PeCertificateLayout>, RuntimeDataError>(None)
        }),
{
    let kind = layout.kind;
    lemma_stamped_headers_read(image, layout, plan, stamped);
    lemma_rewritten_in_stamped(image, layout, plan, stamped);
    lemma_headers_in_image(stamped, kind);
    lemma_headers_in_image(image, kind);
    laws::law_accepted_pe_layout(image, layout);
    laws::lemma_accepted_pe_headers(image, layout);
    let start = object_file::directories_offset(stamped, kind);
    let directories = stamped.subrange(
        start,
        start + 8 * object_file::directory_count(stamped, kind),
    );
    let zeros = bytes::zeros(8);
    assert(directories.subrange(32, 36) =~= zeros.subrange(0, 4)) by {
        assert(directories.subrange(32, 40) =~= zeros);
        assert(directories.subrange(32, 36) =~= directories.subrange(32, 40).subrange(0, 4));
    }
    assert(directories.subrange(36, 40) =~= zeros.subrange(4, 8)) by {
        assert(directories.subrange(32, 40) =~= zeros);
        assert(directories.subrange(36, 40) =~= directories.subrange(32, 40).subrange(4, 8));
    }
    bytes::lemma_le_u32_window(directories, 32, zeros, 0);
    bytes::lemma_le_u32_window(directories, 36, zeros, 4);
    assert(bytes::le_u32(zeros, 0) == 0 && bytes::le_u32(zeros, 4) == 0) by {
        reveal(bytes::le_u32);
    }
}

/// The bytes of a stamped image behind its headers.
pub proof fn lemma_stamped_bytes(
    image: Seq<u8>,
    layout: PeImageLayout,
    plan: PeStampPlan,
    header: Seq<u8>,
    bundle: Seq<u8>,
    stamped: Seq<u8>,
)
    requires
        is_plan_for(image, layout, plan, (header.len() + bundle.len()) as u64),
        header.len() + bundle.len() <= u64::MAX,
        stamped == bytes::overwritten(
            bytes::overwritten(
                bytes::resized(
                    bytes::resized(image, (plan.anchor_offset + plan.anchor_raw_size) as nat),
                    plan.payload_start as nat,
                ) + header + bundle,
                plan.anchor_offset as int,
                footer::footer_bytes(payload::footer_of(header, bundle)),
            ),
            0,
            stamp::stamped_headers(image.take(layout.size_of_headers as int), layout, plan),
        ),
    ensures
        stamped.len() == plan.payload_end,
        stamped.take(layout.size_of_headers as int) == stamp::stamped_headers(
            image.take(layout.size_of_headers as int),
            layout,
            plan,
        ),
        stamped.subrange(plan.anchor_offset as int, plan.anchor_offset + FOOTER_LEN)
            == footer::footer_bytes(payload::footer_of(header, bundle)),
        bytes::all_zero(
            stamped.subrange(
                plan.anchor_offset + FOOTER_LEN,
                plan.anchor_offset + plan.anchor_raw_size,
            ),
        ),
        bytes::all_zero(
            stamped.subrange(
                plan.anchor_offset + plan.anchor_raw_size,
                plan.payload_start as int,
            ),
        ),
        stamped.subrange(plan.payload_start as int, plan.payload_start + header.len()) == header,
        stamped.subrange(
            plan.payload_start + header.len(),
            plan.payload_start + header.len() + bundle.len(),
        ) == bundle,
{
    let content_len = (header.len() + bundle.len()) as u64;
    laws::law_accepted_pe_layout(image, layout);
    lemma_plan(image, layout, plan, content_len);
    footer::law_footer_round_trip(payload::footer_of(header, bundle));
    let headers = image.take(layout.size_of_headers as int);
    let rewritten = stamp::stamped_headers(headers, layout, plan);
    let footer_data = footer::footer_bytes(payload::footer_of(header, bundle));
    lemma_rewritten_fields(headers, layout, plan);
    let room = bytes::resized(
        bytes::resized(image, (plan.anchor_offset + plan.anchor_raw_size) as nat),
        plan.payload_start as nat,
    );
    assert(room.len() == plan.payload_start);
    assert forall|i: int| plan.anchor_offset <= i < plan.payload_start implies #[trigger] room[i]
        == 0 by {}
    let filled = room + header + bundle;
    let anchored = bytes::overwritten(filled, plan.anchor_offset as int, footer_data);
    assert(filled.len() == plan.payload_end);
    bytes::lemma_overwritten(filled, plan.anchor_offset as int, footer_data);
    bytes::lemma_overwritten(anchored, 0, rewritten);
    assert(stamped.take(layout.size_of_headers as int) =~= rewritten);
    assert(stamped.subrange(plan.anchor_offset as int, plan.anchor_offset + FOOTER_LEN)
        =~= footer_data);
    assert(stamped.subrange(plan.payload_start as int, plan.payload_start + header.len())
        =~= header);
    assert(stamped.subrange(
        plan.payload_start + header.len(),
        plan.payload_start + header.len() + bundle.len(),
    ) =~= bundle);
}

/// The runtime data that is found in an image without a certificate table whose anchor section
/// holds the footer of the header and the bundle behind it.
proof fn lemma_anchored_data(
    stamped: Seq<u8>,
    layout: PeImageLayout,
    anchor: PeAnchorLayout,
    header: Seq<u8>,
    bundle: Seq<u8>,
    payload_start: u64,
)
    requires
        header.len() <= MAX_HEADER_LEN,
        header.len() + bundle.len() <= u64::MAX,
        layout.certificate is None,
        anchor.offset + FOOTER_LEN <= anchor.raw_end,
        pe::content::content_layout(
            anchor.raw_end,
            (header.len() + bundle.len()) as u64,
        ) == Ok::<(u64, u64), RuntimeDataError>((payload_start, stamped.len() as u64)),
        payload_start + header.len() + bundle.len() == stamped.len(),
        stamped.len() <= u32::MAX,
        stamped.subrange(anchor.offset as int, anchor.offset + FOOTER_LEN)
            == footer::footer_bytes(payload::footer_of(header, bundle)),
        bytes::all_zero(stamped.subrange(anchor.offset + FOOTER_LEN, anchor.raw_end as int)),
        bytes::all_zero(stamped.subrange(anchor.raw_end as int, payload_start as int)),
        stamped.subrange(payload_start as int, payload_start + header.len()) == header,
    ensures
        runtime_reader::anchored_data(stamped, layout, anchor) == Ok::<
            Option<LocatedView>,
            RuntimeDataError,
        >(
            Some(
                runtime_reader::stamped_data(
                    runtime_reader::Target::Pe { machine: layout.machine, kind: layout.kind },
                    header,
                    bundle,
                    stamped.len() - bundle.len(),
                ),
            ),
        ),
{
    assert(header.len() == 0 ==> header =~= Seq::empty());
    footer::law_footer_round_trip(payload::footer_of(header, bundle));
}

/// Whether writing `written` at `at` leaves the field of the DOS header as it is that says where
/// the NT headers lie.
pub open spec fn leaves_pointer(image: Seq<u8>, at: int, written: Seq<u8>) -> bool {
    forall|i: int|
        0 <= i < written.len() && NT_HEADERS_POINTER <= at + i < DOS_HEADER_LEN
            ==> #[trigger] written[i] == image[at + i]
}

/// Whether a stamp leaves the NT headers of the image `image` where they are.
///
/// Of the fields that a stamp rewrites, the section count and the size of initialized data, which
/// grows by the raw size of the anchor section, are those that can lie within the DOS header.
pub open spec fn keeps_nt_headers(image: Seq<u8>) -> bool {
    let start = object_file::nt_headers_offset(image);
    let section_count = bytes::le_u16(image, start + 6) + 1;
    let file_alignment = bytes::le_u32(image, start + 60) as int;
    let initialized_data = bytes::le_u32(image, start + 32) + align::aligned(
        FOOTER_LEN as int,
        file_alignment,
    );
    &&& leaves_pointer(image, start + 6, bytes::u16_bytes(section_count as u16))
    &&& leaves_pointer(image, start + 32, bytes::u32_bytes(initialized_data as u32))
}

/// A stamp leaves the NT headers where they are in every image whose NT headers start behind its
/// DOS header.
pub proof fn law_headers_behind_the_dos_header_are_kept(image: Seq<u8>)
    requires
        DOS_HEADER_LEN <= object_file::nt_headers_offset(image),
    ensures
        keeps_nt_headers(image),
{
}

/// The field of the DOS header that says where the NT headers lie is the same in two images if
/// and only if its bytes are.
proof fn lemma_same_pointer(image: Seq<u8>, other: Seq<u8>)
    requires
        DOS_HEADER_LEN <= image.len(),
        DOS_HEADER_LEN <= other.len(),
    ensures
        object_file::nt_headers_offset(other) == object_file::nt_headers_offset(image) <==> (forall|
            i: int,
        |
            NT_HEADERS_POINTER <= i < DOS_HEADER_LEN ==> #[trigger] other[i] == image[i]),
{
    let at = NT_HEADERS_POINTER as int;
    let left = other.subrange(at, at + 4);
    let right = image.subrange(at, at + 4);
    bytes::lemma_u32_bytes_of_le(other, at);
    bytes::lemma_u32_bytes_of_le(image, at);
    if object_file::nt_headers_offset(other) == object_file::nt_headers_offset(image) {
        assert forall|i: int| at <= i < DOS_HEADER_LEN implies #[trigger] other[i] == image[i] by {
            assert(left[i - at] == right[i - at]);
        }
    }
    if forall|i: int| at <= i < DOS_HEADER_LEN ==> #[trigger] other[i] == image[i] {
        assert(left =~= right);
        bytes::lemma_le_u32_window(other, at, image, at);
    }
}

/// What rewriting the headers leaves of the DOS header.
proof fn lemma_rewritten_dos_header(
    headers: Seq<u8>,
    layout: PeImageLayout,
    plan: PeStampPlan,
    i: int,
)
    requires
        headers_can_be_rewritten(headers, layout, plan),
        0 <= i < DOS_HEADER_LEN,
    ensures
        ({
            let count = layout.file_header_offset + 2;
            let data = layout.optional_header_offset + 8;
            stamp::stamped_headers(headers, layout, plan)[i] == (if count <= i < count + 2 {
                bytes::u16_bytes(plan.section_count)[i - count]
            } else if data <= i < data + 4 {
                bytes::u32_bytes(plan.size_of_initialized_data)[i - data]
            } else {
                headers[i]
            })
        }),
{
    let count = layout.file_header_offset + 2;
    let data = layout.optional_header_offset + 8;
    let rewritten = stamp::stamped_headers(headers, layout, plan);
    if count <= i < count + 2 {
        lemma_rewritten_fields(headers, layout, plan);
        assert(rewritten.subrange(count, count + 2)[i - count] == rewritten[i]);
    } else if data <= i < data + 4 {
        lemma_rewritten_fields(headers, layout, plan);
        assert(rewritten.subrange(data, data + 4)[i - data] == rewritten[i]);
    } else {
        lemma_rewritten_headers(headers, layout, plan, i, 1);
        assert(rewritten.subrange(i, i + 1)[0] == headers.subrange(i, i + 1)[0]);
    }
}

/// The bytes of a DOS header into which `count` is written at `start + 6` and `data` at
/// `start + 32`.
pub open spec fn rewritten_byte(
    image: Seq<u8>,
    start: int,
    count: Seq<u8>,
    data: Seq<u8>,
    i: int,
) -> u8 {
    if start + 6 <= i < start + 8 {
        count[i - (start + 6)]
    } else if start + 32 <= i < start + 36 {
        data[i - (start + 32)]
    } else {
        image[i]
    }
}

/// Two fields that are written into a DOS header leave its pointer as it is if and only if each
/// of them does.
proof fn lemma_pointer_is_left(
    image: Seq<u8>,
    start: int,
    count: Seq<u8>,
    data: Seq<u8>,
    stamped: Seq<u8>,
)
    requires
        count.len() == 2,
        data.len() == 4,
        forall|i: int|
            0 <= i < DOS_HEADER_LEN ==> #[trigger] stamped[i] == rewritten_byte(
                image,
                start,
                count,
                data,
                i,
            ),
    ensures
        (forall|i: int|
            NT_HEADERS_POINTER <= i < DOS_HEADER_LEN ==> #[trigger] stamped[i] == image[i]) <==> (
        leaves_pointer(image, start + 6, count) && leaves_pointer(image, start + 32, data)),
{
    if forall|i: int|
        NT_HEADERS_POINTER <= i < DOS_HEADER_LEN ==> #[trigger] stamped[i] == image[i] {
        assert forall|i: int|
            0 <= i < count.len() && NT_HEADERS_POINTER <= start + 6 + i < DOS_HEADER_LEN implies
            #[trigger] count[i] == image[start + 6 + i] by {
            assert(stamped[start + 6 + i] == image[start + 6 + i]);
        }
        assert forall|i: int|
            0 <= i < data.len() && NT_HEADERS_POINTER <= start + 32 + i < DOS_HEADER_LEN implies
            #[trigger] data[i] == image[start + 32 + i] by {
            assert(stamped[start + 32 + i] == image[start + 32 + i]);
        }
    }
    if leaves_pointer(image, start + 6, count) && leaves_pointer(image, start + 32, data) {
        assert forall|i: int| NT_HEADERS_POINTER <= i < DOS_HEADER_LEN implies
            #[trigger] stamped[i] == image[i] by {
            if start + 6 <= i < start + 8 {
                assert(count[i - (start + 6)] == image[start + 6 + (i - (start + 6))]);
            } else if start + 32 <= i < start + 36 {
                assert(data[i - (start + 32)] == image[start + 32 + (i - (start + 32))]);
            }
        }
    }
}

/// The numbers that a stamp counts up are those that the NT headers give.
proof fn lemma_counted_up(
    image: Seq<u8>,
    layout: PeImageLayout,
    plan: PeStampPlan,
    content_len: u64,
)
    requires
        is_plan_for(image, layout, plan, content_len),
    ensures
        ({
            let start = object_file::nt_headers_offset(image);
            &&& layout.file_header_offset == start + 4
            &&& layout.optional_header_offset == start + 24
            &&& plan.section_count == bytes::le_u16(image, start + 6) + 1
            &&& plan.size_of_initialized_data == bytes::le_u32(image, start + 32)
                + align::aligned(FOOTER_LEN as int, bytes::le_u32(image, start + 60) as int)
        }),
{
    lemma_plan(image, layout, plan, content_len);
    laws::lemma_accepted_pe_headers(image, layout);
    lemma_headers_in_image(image, layout.kind);
}

/// A stamp leaves the NT headers where they are in exactly the images of which
/// [`keeps_nt_headers`] says so.
#[verifier::rlimit(40)]
pub proof fn law_stamp_keeps_nt_headers(
    image: Seq<u8>,
    header: Seq<u8>,
    bundle: Seq<u8>,
    platform: Seq<char>,
    stamped: Seq<u8>,
)
    requires
        image.len() <= u64::MAX,
        header.len() + bundle.len() <= u64::MAX,
        stamp::stamped_pe(image, header, bundle, bundle.len() as u64, platform) == Ok::<
            Seq<u8>,
            RuntimeDataError,
        >(stamped),
    ensures
        object_file::nt_headers_offset(stamped) == object_file::nt_headers_offset(image)
            <==> keeps_nt_headers(image),
{
    let layout = pe::pe_layout(image)->Ok_0;
    let content_len = (header.len() + bundle.len()) as u64;
    let plan = stamp::pe_stamp_plan(layout, content_len)->Ok_0;
    lemma_plan(image, layout, plan, content_len);
    lemma_stamped_bytes(image, layout, plan, header, bundle, stamped);
    lemma_stamp_keeps_nt_headers(image, layout, plan, content_len, stamped);
}

/// Rewritten headers leave the NT headers where they are in exactly the images of which
/// [`keeps_nt_headers`] says so.
proof fn lemma_stamp_keeps_nt_headers(
    image: Seq<u8>,
    layout: PeImageLayout,
    plan: PeStampPlan,
    content_len: u64,
    stamped: Seq<u8>,
)
    requires
        is_plan_for(image, layout, plan, content_len),
        headers_can_be_rewritten(image.take(layout.size_of_headers as int), layout, plan),
        layout.size_of_headers <= stamped.len(),
        stamped.take(layout.size_of_headers as int) == stamp::stamped_headers(
            image.take(layout.size_of_headers as int),
            layout,
            plan,
        ),
    ensures
        object_file::nt_headers_offset(stamped) == object_file::nt_headers_offset(image)
            <==> keeps_nt_headers(image),
{
    let start = object_file::nt_headers_offset(image);
    let headers = image.take(layout.size_of_headers as int);
    let count = bytes::u16_bytes(plan.section_count);
    let data = bytes::u32_bytes(plan.size_of_initialized_data);
    laws::law_accepted_pe_layout(image, layout);
    lemma_counted_up(image, layout, plan, content_len);
    assert forall|i: int| 0 <= i < DOS_HEADER_LEN implies #[trigger] stamped[i] == rewritten_byte(
        image,
        start,
        count,
        data,
        i,
    ) by {
        lemma_rewritten_dos_header(headers, layout, plan, i);
        assert(stamped.take(layout.size_of_headers as int)[i] == stamped[i]);
        assert(headers[i] == image[i]);
    }
    lemma_pointer_is_left(image, start, count, data, stamped);
    lemma_same_pointer(image, stamped);
}

/// A PE image that was stamped reads back as it was stamped: with the header, and with the bundle
/// at its end, where there is one.
///
/// Left out are images whose NT headers overlap the field of the DOS header that says where they
/// lie, in such a way that rewriting them moves them.
pub proof fn law_stamped_pe_reads_back(
    image: Seq<u8>,
    header: Seq<u8>,
    bundle: Seq<u8>,
    platform: Seq<char>,
    stamped: Seq<u8>,
)
    requires
        image.len() <= u64::MAX,
        header.len() <= MAX_HEADER_LEN,
        header.len() + bundle.len() <= u64::MAX,
        stamp::stamped_pe(image, header, bundle, bundle.len() as u64, platform) == Ok::<
            Seq<u8>,
            RuntimeDataError,
        >(stamped),
        keeps_nt_headers(image),
    ensures
        object_file::has_dos_magic(stamped),
        pe::dos_program_kind(stamped) is Ok,
        pe::pe_layout(image) is Ok,
        runtime_reader::pe_runtime_data(stamped) == Ok::<Option<LocatedView>, RuntimeDataError>(
            Some(
                runtime_reader::stamped_data(
                    runtime_reader::Target::Pe {
                        machine: pe::pe_layout(image)->Ok_0.machine,
                        kind: pe::pe_layout(image)->Ok_0.kind,
                    },
                    header,
                    bundle,
                    stamped.len() - bundle.len(),
                ),
            ),
        ),
        bundle.len() <= stamped.len(),
        stamped.skip(stamped.len() - bundle.len()) == bundle,
{
    let layout = pe::pe_layout(image)->Ok_0;
    let content_len = (header.len() + bundle.len()) as u64;
    let plan = stamp::pe_stamp_plan(layout, content_len)->Ok_0;
    let found = layout_with_anchor(layout, plan);
    law_stamp_keeps_nt_headers(image, header, bundle, platform, stamped);
    lemma_plan(image, layout, plan, content_len);
    lemma_stamped_bytes(image, layout, plan, header, bundle, stamped);
    laws::law_accepted_pe_layout(image, layout);
    assert(starts_with_rewritten_headers(image, layout, plan, stamped));
    lemma_stamped_layout(image, layout, plan, content_len, stamped);
    lemma_stamped_headers_read(image, layout, plan, stamped);
    lemma_anchored_data(stamped, found, found.anchor->0, header, bundle, plan.payload_start);
    assert(runtime_reader::pe_layout_data(stamped, found) == runtime_reader::anchored_data(
        stamped,
        found,
        found.anchor->0,
    ));
    assert(stamped.skip(stamped.len() - bundle.len()) =~= stamped.subrange(
        plan.payload_start + header.len(),
        plan.payload_start + header.len() + bundle.len(),
    ));
}

} // verus!
