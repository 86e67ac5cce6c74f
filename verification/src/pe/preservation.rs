//! What a stamp leaves of a PE image as it was.

use vstd::prelude::*;

use crate::align;
use crate::bytes;
use crate::digest;
use crate::error::RuntimeDataError;
use crate::executable;
use crate::footer;
use crate::object_file::SECTION_HEADER_LEN;
use crate::payload;
use crate::pe;
use crate::pe::laws;
use crate::pe::round_trip;
use crate::pe::stamp;
use crate::pe::stamp::PeStampPlan;
use crate::pe::{PeImageLayout, PeKind};

verus! {

/// The headers with all fields rewritten.
proof fn lemma_headers(headers: Seq<u8>, layout: PeImageLayout, plan: PeStampPlan, rewritten: Seq<u8>)
    requires
        round_trip::headers_can_be_rewritten(headers, layout, plan),
        rewritten == stamp::stamped_headers(headers, layout, plan),
    ensures
        rewritten.len() == headers.len(),
        ({
            let file_header = layout.file_header_offset as int;
            let optional = layout.optional_header_offset as int;
            let directory = plan.security_directory_offset as int;
            let section = plan.section_header_offset as int;
            &&& bytes::le_u16(rewritten, file_header + 2) == plan.section_count
            &&& bytes::le_u32(rewritten, optional + 8) == plan.size_of_initialized_data
            &&& bytes::le_u32(rewritten, optional + 56) == plan.size_of_image
            &&& bytes::le_u32(rewritten, optional + 64) == 0
            &&& rewritten.subrange(section, section + 40) == stamp::anchor_section_header(plan)
            &&& forall|i: int| directory <= i < directory + 8 ==> #[trigger] rewritten[i] == 0
            &&& forall|i: int|
                0 <= i < headers.len() && !(file_header + 2 <= i < file_header + 4) && !(optional
                    + 8 <= i < optional + 12) && !(optional + 56 <= i < optional + 60) && !(optional
                    + 64 <= i < optional + 68) && !(directory <= i < directory + 8) && !(section
                    <= i < section + 40) ==> #[trigger] rewritten[i] == headers[i]
        }),
{
    let file_header = layout.file_header_offset as int;
    let optional = layout.optional_header_offset as int;
    let directory = plan.security_directory_offset as int;
    let section = plan.section_header_offset as int;
    let count_bytes = bytes::u16_bytes(plan.section_count);
    let data_bytes = bytes::u32_bytes(plan.size_of_initialized_data);
    let size_bytes = bytes::u32_bytes(plan.size_of_image);
    let checksum_bytes = bytes::u32_bytes(0);
    let entry = stamp::anchor_section_header(plan);
    assert(entry.len() == 40);
    let counted = bytes::overwritten(headers, file_header + 2, count_bytes);
    bytes::lemma_overwritten(headers, file_header + 2, count_bytes);
    let sized = bytes::overwritten(counted, optional + 8, data_bytes);
    bytes::lemma_overwritten(counted, optional + 8, data_bytes);
    let grown = bytes::overwritten(sized, optional + 56, size_bytes);
    bytes::lemma_overwritten(sized, optional + 56, size_bytes);
    let unsummed = bytes::overwritten(grown, optional + 64, checksum_bytes);
    bytes::lemma_overwritten(grown, optional + 64, checksum_bytes);
    let unsigned = bytes::overwritten(unsummed, directory, bytes::zeros(8));
    bytes::lemma_overwritten(unsummed, directory, bytes::zeros(8));
    bytes::lemma_overwritten(unsigned, section, entry);
    assert(rewritten == bytes::overwritten(unsigned, section, entry));
    assert(rewritten.subrange(file_header + 2, file_header + 4) =~= count_bytes.subrange(0, 2));
    assert(rewritten.subrange(optional + 8, optional + 12) =~= data_bytes.subrange(0, 4));
    assert(rewritten.subrange(optional + 56, optional + 60) =~= size_bytes.subrange(0, 4));
    assert(rewritten.subrange(optional + 64, optional + 68) =~= checksum_bytes.subrange(0, 4));
    assert(rewritten.subrange(section, section + 40) =~= entry);
    bytes::lemma_le_u16_window(rewritten, file_header + 2, count_bytes, 0);
    bytes::lemma_le_u32_window(rewritten, optional + 8, data_bytes, 0);
    bytes::lemma_le_u32_window(rewritten, optional + 56, size_bytes, 0);
    bytes::lemma_le_u32_window(rewritten, optional + 64, checksum_bytes, 0);
    bytes::lemma_u16_round_trip(plan.section_count);
    bytes::lemma_u32_round_trip(plan.size_of_initialized_data);
    bytes::lemma_u32_round_trip(plan.size_of_image);
    bytes::lemma_u32_round_trip(0);
}

/// The entry of the anchor section where it lies in the image.
proof fn lemma_entry(stamped: Seq<u8>, section: int, plan: PeStampPlan)
    requires
        0 <= section,
        section + 40 <= stamped.len(),
        stamped.subrange(section, section + 40) == stamp::anchor_section_header(plan),
    ensures
        stamped.subrange(section, section + 8) == seq![0x2eu8, 0x63, 0x73, 0x68, 0x69, 0x70, 0, 0],
        bytes::le_u32(stamped, section + 8) == 100,
        bytes::le_u32(stamped, section + 12) == plan.anchor_virtual_address,
        bytes::le_u32(stamped, section + 16) == plan.anchor_raw_size,
        bytes::le_u32(stamped, section + 20) == plan.anchor_offset,
        forall|i: int| section + 24 <= i < section + 36 ==> #[trigger] stamped[i] == 0,
        bytes::le_u32(stamped, section + 36) == 0x4000_0040,
{
    let entry = stamp::anchor_section_header(plan);
    assert(stamped.subrange(section, section + 8) =~= entry.subrange(0, 8));
    assert(entry.subrange(0, 8) =~= pe::anchor_section_name());
    lemma_entry_field(stamped, section, entry, 8, 100);
    lemma_entry_field(stamped, section, entry, 12, plan.anchor_virtual_address);
    lemma_entry_field(stamped, section, entry, 16, plan.anchor_raw_size);
    lemma_entry_field(stamped, section, entry, 20, plan.anchor_offset);
    lemma_entry_field(stamped, section, entry, 36, 0x4000_0040);
    assert forall|i: int| section + 24 <= i < section + 36 implies #[trigger] stamped[i] == 0 by {
        assert(stamped.subrange(section, section + 40)[i - section] == entry[i - section]);
    }
}

/// A field of an entry of the section table reads in the image as it was written.
proof fn lemma_entry_field(stamped: Seq<u8>, section: int, entry: Seq<u8>, at: int, value: u32)
    requires
        0 <= section,
        section + 40 <= stamped.len(),
        stamped.subrange(section, section + 40) == entry,
        entry.len() == 40,
        0 <= at,
        at + 4 <= 40,
        entry.subrange(at, at + 4) =~= bytes::u32_bytes(value),
    ensures
        bytes::le_u32(stamped, section + at) == value,
{
    let value_bytes = bytes::u32_bytes(value);
    assert(stamped.subrange(section + at, section + at + 4) =~= entry.subrange(at, at + 4));
    assert(value_bytes.subrange(0, 4) =~= value_bytes);
    bytes::lemma_le_u32_window(stamped, section + at, value_bytes, 0);
    bytes::lemma_u32_round_trip(value);
}

/// The plan by which an image was stamped, and how it was carried out.
proof fn lemma_how_it_was_stamped(
    image: Seq<u8>,
    layout: PeImageLayout,
    header: Seq<u8>,
    bundle: Seq<u8>,
    bundle_len: u64,
    platform: Seq<char>,
    stamped: Seq<u8>,
) -> (plan: PeStampPlan)
    requires
        image.len() <= usize::MAX,
        header.len() + bundle_len <= u64::MAX,
        pe::pe_layout(image) == Ok::<PeImageLayout, RuntimeDataError>(layout),
        stamp::stamped_pe(image, header, bundle, bundle_len, platform) == Ok::<
            Seq<u8>,
            RuntimeDataError,
        >(stamped),
    ensures
        bundle.len() == bundle_len,
        stamp::pe_template_error(layout, platform, image.len() as u64) is None,
        round_trip::is_plan_for(image, layout, plan, (header.len() + bundle_len) as u64),
        bytes::all_zero(
            image.take(layout.size_of_headers as int).subrange(
                plan.section_header_offset as int,
                plan.section_header_offset + SECTION_HEADER_LEN,
            ),
        ),
        stamped == bytes::overwritten(
            bytes::overwritten(
                bytes::resized(
                    bytes::resized(image, (plan.anchor_offset + plan.anchor_raw_size) as nat),
                    plan.payload_start as nat,
                ) + header + bundle,
                plan.anchor_offset as int,
                footer::footer_bytes(payload::footer_of(header, bundle)),
            ),
            0,
            stamp::stamped_headers(image.take(layout.size_of_headers as int), layout, plan),
        ),
{
    stamp::pe_stamp_plan(layout, (header.len() + bundle_len) as u64)->Ok_0
}

/// The bytes of a stamped image that come from the template, and those that are zero.
proof fn lemma_kept_bytes(
    image: Seq<u8>,
    layout: PeImageLayout,
    plan: PeStampPlan,
    header: Seq<u8>,
    bundle: Seq<u8>,
    stamped: Seq<u8>,
)
    requires
        layout.size_of_headers <= image.len() <= plan.anchor_offset,
        plan.anchor_raw_size >= 100,
        plan.anchor_offset + plan.anchor_raw_size <= plan.payload_start,
        footer::footer_bytes(payload::footer_of(header, bundle)).len() == 100,
        stamp::stamped_headers(
            image.take(layout.size_of_headers as int),
            layout,
            plan,
        ).len() == layout.size_of_headers,
        stamped == bytes::overwritten(
            bytes::overwritten(
                bytes::resized(
                    bytes::resized(image, (plan.anchor_offset + plan.anchor_raw_size) as nat),
                    plan.payload_start as nat,
                ) + header + bundle,
                plan.anchor_offset as int,
                footer::footer_bytes(payload::footer_of(header, bundle)),
            ),
            0,
            stamp::stamped_headers(image.take(layout.size_of_headers as int), layout, plan),
        ),
    ensures
        forall|i: int|
            layout.size_of_headers <= i < image.len() ==> #[trigger] stamped[i] == image[i],
        forall|i: int| image.len() <= i < plan.anchor_offset ==> #[trigger] stamped[i] == 0,
        forall|i: int|
            plan.anchor_offset + 100 <= i < plan.payload_start ==> #[trigger] stamped[i] == 0,
{
    let headers = image.take(layout.size_of_headers as int);
    let rewritten = stamp::stamped_headers(headers, layout, plan);
    let anchor_end = plan.anchor_offset + plan.anchor_raw_size;
    let room = bytes::resized(
        bytes::resized(image, anchor_end as nat),
        plan.payload_start as nat,
    );
    let filled = room + header + bundle;
    let footer_data = footer::footer_bytes(payload::footer_of(header, bundle));
    let anchored = bytes::overwritten(filled, plan.anchor_offset as int, footer_data);
    bytes::lemma_overwritten(filled, plan.anchor_offset as int, footer_data);
    bytes::lemma_overwritten(anchored, 0, rewritten);
}

/// The parts of a stamped image.
proof fn lemma_parts(
    image: Seq<u8>,
    layout: PeImageLayout,
    header: Seq<u8>,
    bundle: Seq<u8>,
    bundle_len: u64,
    platform: Seq<char>,
    stamped: Seq<u8>,
) -> (plan: PeStampPlan)
    requires
        image.len() <= usize::MAX,
        header.len() + bundle_len <= u64::MAX,
        pe::pe_layout(image) == Ok::<PeImageLayout, RuntimeDataError>(layout),
        stamp::stamped_pe(image, header, bundle, bundle_len, platform) == Ok::<
            Seq<u8>,
            RuntimeDataError,
        >(stamped),
    ensures
        bundle.len() == bundle_len,
        stamp::pe_template_error(layout, platform, image.len() as u64) is None,
        round_trip::is_plan_for(image, layout, plan, (header.len() + bundle_len) as u64),
        round_trip::headers_can_be_rewritten(
            image.take(layout.size_of_headers as int),
            layout,
            plan,
        ),
        stamped.take(layout.size_of_headers as int) == stamp::stamped_headers(
            image.take(layout.size_of_headers as int),
            layout,
            plan,
        ),
        bytes::all_zero(
            image.subrange(
                plan.section_header_offset as int,
                plan.section_header_offset + SECTION_HEADER_LEN,
            ),
        ),
        layout.size_of_headers <= image.len() <= plan.anchor_offset,
        stamped.len() == plan.payload_end,
        plan.payload_end == plan.payload_start + header.len() + bundle.len(),
        forall|i: int|
            layout.size_of_headers <= i < image.len() ==> #[trigger] stamped[i] == image[i],
        forall|i: int| image.len() <= i < plan.anchor_offset ==> #[trigger] stamped[i] == 0,
        forall|i: int|
            plan.anchor_offset + 100 <= i < plan.payload_start ==> #[trigger] stamped[i] == 0,
        stamped.subrange(plan.anchor_offset as int, plan.anchor_offset + 100)
            == footer::footer_bytes(payload::footer_of(header, bundle)),
        stamped.subrange(plan.payload_start as int, plan.payload_start + header.len()) == header,
        stamped.subrange(plan.payload_start + header.len(), stamped.len() as int) == bundle,
{
    let plan = lemma_how_it_was_stamped(
        image,
        layout,
        header,
        bundle,
        bundle_len,
        platform,
        stamped,
    );
    lemma_parts_of_plan(image, layout, plan, header, bundle, stamped);
    plan
}

/// The parts of an image that was stamped by this plan.
proof fn lemma_parts_of_plan(
    image: Seq<u8>,
    layout: PeImageLayout,
    plan: PeStampPlan,
    header: Seq<u8>,
    bundle: Seq<u8>,
    stamped: Seq<u8>,
)
    requires
        image.len() <= usize::MAX,
        header.len() + bundle.len() <= u64::MAX,
        round_trip::is_plan_for(image, layout, plan, (header.len() + bundle.len()) as u64),
        bytes::all_zero(
            image.take(layout.size_of_headers as int).subrange(
                plan.section_header_offset as int,
                plan.section_header_offset + SECTION_HEADER_LEN,
            ),
        ),
        stamped == bytes::overwritten(
            bytes::overwritten(
                bytes::resized(
                    bytes::resized(image, (plan.anchor_offset + plan.anchor_raw_size) as nat),
                    plan.payload_start as nat,
                ) + header + bundle,
                plan.anchor_offset as int,
                footer::footer_bytes(payload::footer_of(header, bundle)),
            ),
            0,
            stamp::stamped_headers(image.take(layout.size_of_headers as int), layout, plan),
        ),
    ensures
        round_trip::headers_can_be_rewritten(
            image.take(layout.size_of_headers as int),
            layout,
            plan,
        ),
        stamped.take(layout.size_of_headers as int) == stamp::stamped_headers(
            image.take(layout.size_of_headers as int),
            layout,
            plan,
        ),
        bytes::all_zero(
            image.subrange(
                plan.section_header_offset as int,
                plan.section_header_offset + SECTION_HEADER_LEN,
            ),
        ),
        layout.size_of_headers <= image.len() <= plan.anchor_offset,
        stamped.len() == plan.payload_end,
        plan.payload_end == plan.payload_start + header.len() + bundle.len(),
        forall|i: int|
            layout.size_of_headers <= i < image.len() ==> #[trigger] stamped[i] == image[i],
        forall|i: int| image.len() <= i < plan.anchor_offset ==> #[trigger] stamped[i] == 0,
        forall|i: int|
            plan.anchor_offset + 100 <= i < plan.payload_start ==> #[trigger] stamped[i] == 0,
        stamped.subrange(plan.anchor_offset as int, plan.anchor_offset + 100)
            == footer::footer_bytes(payload::footer_of(header, bundle)),
        stamped.subrange(plan.payload_start as int, plan.payload_start + header.len()) == header,
        stamped.subrange(plan.payload_start + header.len(), stamped.len() as int) == bundle,
{
    let content_len = (header.len() + bundle.len()) as u64;
    laws::law_accepted_pe_layout(image, layout);
    round_trip::lemma_plan(image, layout, plan, content_len);
    round_trip::lemma_stamped_bytes(image, layout, plan, header, bundle, stamped);
    footer::law_footer_layout(payload::footer_of(header, bundle));
    let headers = image.take(layout.size_of_headers as int);
    lemma_headers(headers, layout, plan, stamp::stamped_headers(headers, layout, plan));
    lemma_kept_bytes(image, layout, plan, header, bundle, stamped);
    let slot = plan.section_header_offset as int;
    assert(image.subrange(slot, slot + 40) =~= headers.subrange(slot, slot + 40));
}

/// A stamp leaves everything behind the headers of a PE image as it was, with nothing but zeros
/// between the end of the template and the anchor section, which starts with the footer and is
/// filled up with zeros. The header and the bundle follow behind fewer than eight more zeros and
/// end the file at a multiple of eight.
pub proof fn law_stamp_keeps_the_sections(
    image: Seq<u8>,
    layout: PeImageLayout,
    header: Seq<u8>,
    bundle: Seq<u8>,
    bundle_len: u64,
    platform: Seq<char>,
    stamped: Seq<u8>,
)
    requires
        image.len() <= usize::MAX,
        header.len() + bundle_len <= u64::MAX,
        pe::pe_layout(image) == Ok::<PeImageLayout, RuntimeDataError>(layout),
        stamp::stamped_pe(image, header, bundle, bundle_len, platform) == Ok::<
            Seq<u8>,
            RuntimeDataError,
        >(stamped),
    ensures
        bundle.len() == bundle_len,
        ({
            let section = layout.section_table_offset + 40 * layout.section_count;
            let anchor = bytes::le_u32(stamped, section + 20);
            let anchor_end = anchor + bytes::le_u32(stamped, section + 16);
            let start = stamped.len() - (header.len() + bundle.len());
            &&& layout.size_of_headers <= image.len() <= anchor
            &&& forall|i: int|
                layout.size_of_headers <= i < image.len() ==> #[trigger] stamped[i] == image[i]
            &&& forall|i: int| image.len() <= i < anchor ==> #[trigger] stamped[i] == 0
            &&& bytes::le_u64(stamped, anchor as int) == header.len()
            &&& bytes::le_u64(stamped, anchor + 8) == bundle.len()
            &&& stamped.subrange(anchor + 16, anchor + 48) == digest::sha256_digest(header)@
            &&& stamped.subrange(anchor + 48, anchor + 80) == digest::sha256_digest(bundle)@
            &&& bytes::le_u32(stamped, anchor + 80) == 1
            &&& stamped.subrange(anchor + 84, anchor + 100) == seq![
                0x43u8, 0x4f, 0x4e, 0x44, 0x41, 0x5f, 0x53, 0x48, 0x49, 0x50, 0x5f, 0x56, 0x30,
                0x30, 0x30, 0x31,
            ]
            &&& anchor + 100 <= anchor_end <= start < anchor_end + 8
            &&& forall|i: int| anchor + 100 <= i < start ==> #[trigger] stamped[i] == 0
            &&& stamped.len() % 8 == 0
            &&& stamped.len() <= u32::MAX
            &&& stamped.subrange(start, start + header.len()) == header
            &&& stamped.subrange(start + header.len(), stamped.len() as int) == bundle
        }),
{
    let plan = lemma_parts(image, layout, header, bundle, bundle_len, platform, stamped);
    laws::law_accepted_pe_layout(image, layout);
    round_trip::lemma_plan(image, layout, plan, (header.len() + bundle_len) as u64);
    lemma_headers_of_stamped(image, layout, plan, stamped);
    let section = plan.section_header_offset as int;
    lemma_entry(stamped, section, plan);
    lemma_footer_at(stamped, plan.anchor_offset as int, header, bundle);
    assert(section == layout.section_table_offset + 40 * layout.section_count);
    pe::content::law_content_layout(
        (plan.anchor_offset + plan.anchor_raw_size) as u64,
        (header.len() + bundle_len) as u64,
        plan.payload_start,
        plan.payload_end,
    );
}

/// The footer of a header and a bundle where it lies in the image.
proof fn lemma_footer_at(stamped: Seq<u8>, at: int, header: Seq<u8>, bundle: Seq<u8>)
    requires
        0 <= at,
        at + 100 <= stamped.len(),
        header.len() <= u64::MAX,
        bundle.len() <= u64::MAX,
        stamped.subrange(at, at + 100) == footer::footer_bytes(payload::footer_of(header, bundle)),
    ensures
        bytes::le_u64(stamped, at) == header.len(),
        bytes::le_u64(stamped, at + 8) == bundle.len(),
        stamped.subrange(at + 16, at + 48) == digest::sha256_digest(header)@,
        stamped.subrange(at + 48, at + 80) == digest::sha256_digest(bundle)@,
        bytes::le_u32(stamped, at + 80) == 1,
        stamped.subrange(at + 84, at + 100) == seq![
            0x43u8, 0x4f, 0x4e, 0x44, 0x41, 0x5f, 0x53, 0x48, 0x49, 0x50, 0x5f, 0x56, 0x30, 0x30,
            0x30, 0x31,
        ],
{
    footer::law_footer_layout(payload::footer_of(header, bundle));
    lemma_footer_window(
        stamped,
        at,
        footer::footer_bytes(payload::footer_of(header, bundle)),
    );
}

/// The fields of a footer read the same where it lies in the image.
proof fn lemma_footer_window(stamped: Seq<u8>, at: int, data: Seq<u8>)
    requires
        0 <= at,
        at + 100 <= stamped.len(),
        stamped.subrange(at, at + 100) == data,
    ensures
        bytes::le_u64(stamped, at) == bytes::le_u64(data, 0),
        bytes::le_u64(stamped, at + 8) == bytes::le_u64(data, 8),
        stamped.subrange(at + 16, at + 48) == data.subrange(16, 48),
        stamped.subrange(at + 48, at + 80) == data.subrange(48, 80),
        bytes::le_u32(stamped, at + 80) == bytes::le_u32(data, 80),
        stamped.subrange(at + 84, at + 100) == data.subrange(84, 100),
{
    assert(stamped.subrange(at, at + 8) =~= data.subrange(0, 8));
    assert(stamped.subrange(at + 8, at + 16) =~= data.subrange(8, 16));
    assert(stamped.subrange(at + 16, at + 48) =~= data.subrange(16, 48));
    assert(stamped.subrange(at + 48, at + 80) =~= data.subrange(48, 80));
    assert(stamped.subrange(at + 80, at + 84) =~= data.subrange(80, 84));
    assert(stamped.subrange(at + 84, at + 100) =~= data.subrange(84, 100));
    bytes::lemma_le_u64_window(stamped, at, data, 0);
    bytes::lemma_le_u64_window(stamped, at + 8, data, 8);
    bytes::lemma_le_u32_window(stamped, at + 80, data, 80);
}

/// The headers of a stamped image.
proof fn lemma_headers_of_stamped(
    image: Seq<u8>,
    layout: PeImageLayout,
    plan: PeStampPlan,
    stamped: Seq<u8>,
)
    requires
        layout.size_of_headers <= image.len() <= stamped.len(),
        round_trip::headers_can_be_rewritten(
            image.take(layout.size_of_headers as int),
            layout,
            plan,
        ),
        stamped.take(layout.size_of_headers as int) == stamp::stamped_headers(
            image.take(layout.size_of_headers as int),
            layout,
            plan,
        ),
    ensures
        ({
            let file_header = layout.file_header_offset as int;
            let optional = layout.optional_header_offset as int;
            let directory = plan.security_directory_offset as int;
            let section = plan.section_header_offset as int;
            &&& bytes::le_u16(stamped, file_header + 2) == plan.section_count
            &&& bytes::le_u32(stamped, optional + 8) == plan.size_of_initialized_data
            &&& bytes::le_u32(stamped, optional + 56) == plan.size_of_image
            &&& bytes::le_u32(stamped, optional + 64) == 0
            &&& stamped.subrange(section, section + 40) == stamp::anchor_section_header(plan)
            &&& forall|i: int| directory <= i < directory + 8 ==> #[trigger] stamped[i] == 0
            &&& forall|i: int|
                0 <= i < layout.size_of_headers && !(file_header + 2 <= i < file_header + 4) && !(
                optional + 8 <= i < optional + 12) && !(optional + 56 <= i < optional + 60) && !(
                optional + 64 <= i < optional + 68) && !(directory <= i < directory + 8) && !(
                section <= i < section + 40) ==> #[trigger] stamped[i] == image[i]
        }),
{
    let headers = image.take(layout.size_of_headers as int);
    let rewritten = stamp::stamped_headers(headers, layout, plan);
    lemma_headers(headers, layout, plan, rewritten);
    assert forall|i: int| 0 <= i < layout.size_of_headers implies #[trigger] stamped[i]
        == rewritten[i] by {
        assert(stamped.take(layout.size_of_headers as int)[i] == rewritten[i]);
    }
    let count = layout.file_header_offset + 2;
    let optional = layout.optional_header_offset as int;
    let section = plan.section_header_offset as int;
    assert(stamped.subrange(count, count + 2) =~= rewritten.subrange(count, count + 2));
    assert(stamped.subrange(optional + 8, optional + 12) =~= rewritten.subrange(
        optional + 8,
        optional + 12,
    ));
    assert(stamped.subrange(optional + 56, optional + 60) =~= rewritten.subrange(
        optional + 56,
        optional + 60,
    ));
    assert(stamped.subrange(optional + 64, optional + 68) =~= rewritten.subrange(
        optional + 64,
        optional + 68,
    ));
    assert(stamped.subrange(section, section + 40) =~= rewritten.subrange(section, section + 40));
    bytes::lemma_le_u16_window(stamped, count, rewritten, count);
    bytes::lemma_le_u32_window(stamped, optional + 8, rewritten, optional + 8);
    bytes::lemma_le_u32_window(stamped, optional + 56, rewritten, optional + 56);
    bytes::lemma_le_u32_window(stamped, optional + 64, rewritten, optional + 64);
}

/// A stamp rewrites as little as it can of the headers of a PE image: it adds the entry of the
/// anchor section where there were zeros, counts it, makes the sizes of the image and of its data
/// cover it, and takes out the checksum and the certificate table. All other bytes stay.
pub proof fn law_stamp_keeps_the_headers(
    image: Seq<u8>,
    layout: PeImageLayout,
    header: Seq<u8>,
    bundle: Seq<u8>,
    bundle_len: u64,
    platform: Seq<char>,
    stamped: Seq<u8>,
)
    requires
        image.len() <= usize::MAX,
        header.len() + bundle_len <= u64::MAX,
        pe::pe_layout(image) == Ok::<PeImageLayout, RuntimeDataError>(layout),
        stamp::stamped_pe(image, header, bundle, bundle_len, platform) == Ok::<
            Seq<u8>,
            RuntimeDataError,
        >(stamped),
    ensures
        layout.security_directory_offset is Some,
        ({
            let file_header = layout.file_header_offset as int;
            let optional = layout.optional_header_offset as int;
            let directory = layout.security_directory_offset->0 as int;
            let section = layout.section_table_offset + 40 * layout.section_count;
            let address = bytes::le_u32(stamped, section + 12);
            let raw_size = bytes::le_u32(stamped, section + 16);
            let offset = bytes::le_u32(stamped, section + 20);
            let size_of_image = bytes::le_u32(stamped, optional + 56);
            let alignment = layout.section_alignment;
            &&& forall|i: int|
                0 <= i < layout.size_of_headers && !(file_header + 2 <= i < file_header + 4) && !(
                optional + 8 <= i < optional + 12) && !(optional + 56 <= i < optional + 60) && !(
                optional + 64 <= i < optional + 68) && !(directory <= i < directory + 8) && !(
                section <= i < section + 40) ==> #[trigger] stamped[i] == image[i]
            &&& bytes::le_u16(stamped, file_header + 2) == layout.section_count + 1
            &&& bytes::le_u32(stamped, optional + 8) == layout.size_of_initialized_data + raw_size
            &&& size_of_image as u64 % alignment == 0
            &&& layout.size_of_image <= size_of_image
            &&& address + raw_size <= size_of_image
            &&& size_of_image == layout.size_of_image || size_of_image < address + raw_size
                + alignment
            &&& bytes::le_u32(stamped, optional + 64) == 0
            &&& forall|i: int| directory <= i < directory + 8 ==> #[trigger] stamped[i] == 0
            &&& forall|i: int| section <= i < section + 40 ==> #[trigger] image[i] == 0
            &&& stamped.subrange(section, section + 8) == seq![
                0x2eu8, 0x63, 0x73, 0x68, 0x69, 0x70, 0, 0,
            ]
            &&& bytes::le_u32(stamped, section + 8) == 100
            &&& address as u64 % alignment == 0
            &&& layout.max_virtual_end <= address < layout.max_virtual_end + alignment
            &&& raw_size as u64 % layout.file_alignment == 0
            &&& 100 <= raw_size < 100 + layout.file_alignment
            &&& offset == (if alignment < 4096 {
                address as int
            } else {
                image.len() as int
            })
            &&& forall|i: int| section + 24 <= i < section + 36 ==> #[trigger] stamped[i] == 0
            &&& bytes::le_u32(stamped, section + 36) == 0x4000_0040
        }),
{
    let plan = lemma_parts(image, layout, header, bundle, bundle_len, platform, stamped);
    lemma_headers_by_plan(image, layout, plan, (header.len() + bundle_len) as u64, stamped);
}

/// The headers of an image that was stamped by this plan.
proof fn lemma_headers_by_plan(
    image: Seq<u8>,
    layout: PeImageLayout,
    plan: PeStampPlan,
    content_len: u64,
    stamped: Seq<u8>,
)
    requires
        image.len() <= usize::MAX,
        round_trip::is_plan_for(image, layout, plan, content_len),
        layout.size_of_headers <= image.len() <= stamped.len(),
        stamped.take(layout.size_of_headers as int) == stamp::stamped_headers(
            image.take(layout.size_of_headers as int),
            layout,
            plan,
        ),
        bytes::all_zero(
            image.subrange(
                plan.section_header_offset as int,
                plan.section_header_offset + SECTION_HEADER_LEN,
            ),
        ),
    ensures
        layout.security_directory_offset is Some,
        ({
            let file_header = layout.file_header_offset as int;
            let optional = layout.optional_header_offset as int;
            let directory = layout.security_directory_offset->0 as int;
            let section = layout.section_table_offset + 40 * layout.section_count;
            let address = bytes::le_u32(stamped, section + 12);
            let raw_size = bytes::le_u32(stamped, section + 16);
            let offset = bytes::le_u32(stamped, section + 20);
            let size_of_image = bytes::le_u32(stamped, optional + 56);
            let alignment = layout.section_alignment;
            &&& forall|i: int|
                0 <= i < layout.size_of_headers && !(file_header + 2 <= i < file_header + 4) && !(
                optional + 8 <= i < optional + 12) && !(optional + 56 <= i < optional + 60) && !(
                optional + 64 <= i < optional + 68) && !(directory <= i < directory + 8) && !(
                section <= i < section + 40) ==> #[trigger] stamped[i] == image[i]
            &&& bytes::le_u16(stamped, file_header + 2) == layout.section_count + 1
            &&& bytes::le_u32(stamped, optional + 8) == layout.size_of_initialized_data + raw_size
            &&& size_of_image as u64 % alignment == 0
            &&& layout.size_of_image <= size_of_image
            &&& address + raw_size <= size_of_image
            &&& size_of_image == layout.size_of_image || size_of_image < address + raw_size
                + alignment
            &&& bytes::le_u32(stamped, optional + 64) == 0
            &&& forall|i: int| directory <= i < directory + 8 ==> #[trigger] stamped[i] == 0
            &&& forall|i: int| section <= i < section + 40 ==> #[trigger] image[i] == 0
            &&& stamped.subrange(section, section + 8) == seq![
                0x2eu8, 0x63, 0x73, 0x68, 0x69, 0x70, 0, 0,
            ]
            &&& bytes::le_u32(stamped, section + 8) == 100
            &&& address as u64 % alignment == 0
            &&& layout.max_virtual_end <= address < layout.max_virtual_end + alignment
            &&& raw_size as u64 % layout.file_alignment == 0
            &&& 100 <= raw_size < 100 + layout.file_alignment
            &&& offset == (if alignment < 4096 {
                address as int
            } else {
                image.len() as int
            })
            &&& forall|i: int| section + 24 <= i < section + 36 ==> #[trigger] stamped[i] == 0
            &&& bytes::le_u32(stamped, section + 36) == 0x4000_0040
        }),
{
    laws::law_accepted_pe_layout(image, layout);
    laws::lemma_accepted_pe_headers(image, layout);
    round_trip::lemma_plan(image, layout, plan, content_len);
    lemma_headers_of_stamped(image, layout, plan, stamped);
    let section = plan.section_header_offset as int;
    lemma_entry(stamped, section, plan);
    lemma_plan_numbers(layout, plan, content_len);
    assert(section == layout.section_table_offset + 40 * layout.section_count);
    let slot = image.subrange(section, section + 40);
    assert forall|i: int| section <= i < section + 40 implies #[trigger] image[i] == 0 by {
        assert(slot[i - section] == 0);
    }
}

/// The numbers of a plan.
proof fn lemma_plan_numbers(layout: PeImageLayout, plan: PeStampPlan, content_len: u64)
    requires
        stamp::pe_stamp_plan(layout, content_len) == Ok::<PeStampPlan, RuntimeDataError>(plan),
        0 < layout.file_alignment <= 64 * 1024,
        0 < layout.section_alignment <= u32::MAX,
        layout.max_raw_end <= u32::MAX,
        layout.max_virtual_end <= 2 * u32::MAX,
        layout.size_of_image as u64 % layout.section_alignment == 0,
        align::aligned(layout.max_virtual_end as int, layout.section_alignment as int)
            <= layout.size_of_image,
    ensures
        plan.section_count == layout.section_count + 1,
        plan.size_of_initialized_data == layout.size_of_initialized_data + plan.anchor_raw_size,
        plan.size_of_image as u64 % layout.section_alignment == 0,
        layout.size_of_image <= plan.size_of_image,
        plan.anchor_virtual_address + plan.anchor_raw_size <= plan.size_of_image,
        plan.size_of_image == layout.size_of_image || plan.size_of_image
            < plan.anchor_virtual_address + plan.anchor_raw_size + layout.section_alignment,
        plan.anchor_virtual_address as u64 % layout.section_alignment == 0,
        layout.max_virtual_end <= plan.anchor_virtual_address < layout.max_virtual_end
            + layout.section_alignment,
        plan.anchor_raw_size as u64 % layout.file_alignment == 0,
        100 <= plan.anchor_raw_size < 100 + layout.file_alignment,
        plan.anchor_offset == (if layout.section_alignment < 4096 {
            plan.anchor_virtual_address as int
        } else {
            layout.max_raw_end as int
        }),
{
    let alignment = layout.section_alignment as int;
    align::lemma_aligned(layout.max_virtual_end as int, alignment);
    align::lemma_aligned(100, layout.file_alignment as int);
    let address = align::aligned(layout.max_virtual_end as int, alignment);
    let raw_size = align::aligned(100, layout.file_alignment as int);
    align::lemma_aligned(address + raw_size, alignment);
}

/// Which images are for a platform.
proof fn lemma_platform(machine: u16, kind: PeKind, platform: Seq<char>)
    ensures
        executable::pe_platform_error(machine, kind, platform) is None <==> {
            ||| platform == ""@
            ||| platform == "win-32"@ && machine == 0x014c && kind == PeKind::Pe32
            ||| platform == "win-64"@ && machine == 0x8664 && kind == PeKind::Pe64
            ||| platform == "win-arm64"@ && machine == 0xaa64 && kind == PeKind::Pe64
        },
{
    executable::lemma_platforms_differ();
}

/// Where the numbers of a plan fit their fields.
proof fn lemma_plan_fits(
    layout: PeImageLayout,
    content_len: u64,
    address: int,
    raw_size: int,
    required: int,
)
    requires
        0 < layout.file_alignment <= 64 * 1024,
        0 < layout.section_alignment <= u32::MAX,
        layout.max_raw_end <= 2 * u32::MAX,
        layout.max_virtual_end <= 2 * u32::MAX,
        layout.kind == PeKind::Pe64 ==> layout.size_of_image <= 0x8000_0000,
        address == align::aligned(layout.max_virtual_end as int, layout.section_alignment as int),
        raw_size == align::aligned(100, layout.file_alignment as int),
        required == align::aligned(address + raw_size, layout.section_alignment as int),
    ensures
        stamp::pe_stamp_plan(layout, content_len) is Ok <==> {
            let offset = if layout.section_alignment < 4096 {
                address
            } else {
                layout.max_raw_end as int
            };
            &&& offset + raw_size + content_len <= 0xffff_fff8
            &&& required <= u32::MAX
            &&& layout.kind == PeKind::Pe64 ==> required <= 0x8000_0000
            &&& layout.size_of_initialized_data + raw_size <= u32::MAX
            &&& layout.section_count < 96
        },
{
    let alignment = layout.section_alignment as int;
    align::lemma_aligned(layout.max_virtual_end as int, alignment);
    align::lemma_aligned(100, layout.file_alignment as int);
    let offset = if layout.section_alignment < 4096 {
        address
    } else {
        layout.max_raw_end as int
    };
    align::lemma_aligned(offset + raw_size + content_len, 8);
}

/// A PE image is stamped exactly where it is for the platform that is asked for, neither stamped
/// nor signed, has nothing behind its sections, a Security Directory entry, room for one more
/// entry of the section table, all zeros, and where the sizes of the stamped image still fit
/// their fields: the anchor section lies at `address` in memory, takes `raw_size` bytes, and an
/// image of `required` bytes holds it.
#[verifier::rlimit(40)]
pub proof fn law_when_a_pe_is_stamped(
    image: Seq<u8>,
    layout: PeImageLayout,
    header: Seq<u8>,
    bundle: Seq<u8>,
    bundle_len: u64,
    platform: Seq<char>,
    address: int,
    raw_size: int,
    required: int,
)
    requires
        image.len() <= usize::MAX,
        header.len() + bundle_len <= u64::MAX,
        pe::pe_layout(image) == Ok::<PeImageLayout, RuntimeDataError>(layout),
        address % layout.section_alignment as int == 0,
        layout.max_virtual_end <= address < layout.max_virtual_end + layout.section_alignment,
        raw_size % layout.file_alignment as int == 0,
        100 <= raw_size < 100 + layout.file_alignment,
        required % layout.section_alignment as int == 0,
        address + raw_size <= required < address + raw_size + layout.section_alignment,
    ensures
        stamp::stamped_pe(image, header, bundle, bundle_len, platform) is Ok <==> {
            let section = layout.section_table_offset + 40 * layout.section_count;
            let offset = if layout.section_alignment < 4096 {
                address
            } else {
                image.len() as int
            };
            &&& {
                ||| platform == ""@
                ||| platform == "win-32"@ && layout.machine == 0x014c && layout.kind == PeKind::Pe32
                ||| platform == "win-64"@ && layout.machine == 0x8664 && layout.kind == PeKind::Pe64
                ||| platform == "win-arm64"@ && layout.machine == 0xaa64 && layout.kind
                    == PeKind::Pe64
            }
            &&& layout.anchor is None
            &&& layout.certificate is None
            &&& image.len() == layout.max_raw_end
            &&& layout.security_directory_offset is Some
            &&& layout.first_section_offset matches Some(first) && section + 40 <= first
            &&& section + 40 <= layout.size_of_headers
            &&& forall|i: int| section <= i < section + 40 ==> #[trigger] image[i] == 0
            &&& offset + raw_size + header.len() + bundle_len <= 0xffff_fff8
            &&& required <= u32::MAX
            &&& layout.kind == PeKind::Pe64 ==> required <= 0x8000_0000
            &&& layout.size_of_initialized_data + raw_size <= u32::MAX
            &&& layout.section_count < 96
            &&& bundle.len() == bundle_len
        },
{
    laws::law_accepted_pe_layout(image, layout);
    laws::lemma_accepted_pe_headers(image, layout);
    let alignment = layout.section_alignment as int;
    align::law_aligned_is_the_next_multiple(layout.max_virtual_end as int, alignment, address);
    align::law_aligned_is_the_next_multiple(100, layout.file_alignment as int, raw_size);
    align::law_aligned_is_the_next_multiple(address + raw_size, alignment, required);
    let content_len = (header.len() + bundle_len) as u64;
    lemma_platform(layout.machine, layout.kind, platform);
    lemma_plan_fits(layout, content_len, address, raw_size, required);
    let section = layout.section_table_offset + 40 * layout.section_count;
    if section + 40 <= layout.size_of_headers {
        lemma_slot(image, layout.size_of_headers as int, section);
    }
}

/// Whether a slot of the section table is all zeros, as the headers have it and as the image has
/// it.
proof fn lemma_slot(image: Seq<u8>, headers_len: int, section: int)
    requires
        0 <= section,
        section + 40 <= headers_len <= image.len(),
    ensures
        bytes::all_zero(image.take(headers_len).subrange(section, section + 40)) <==> (forall|i: int|
            section <= i < section + 40 ==> #[trigger] image[i] == 0),
{
    let slot = image.take(headers_len).subrange(section, section + 40);
    assert(slot =~= image.subrange(section, section + 40));
    if bytes::all_zero(slot) {
        assert forall|i: int| section <= i < section + 40 implies #[trigger] image[i] == 0 by {
            assert(slot[i - section] == 0);
        }
    }
}

} // verus!
