//! What a signature does to the runtime data of a PE image: nothing.

use vstd::prelude::*;

use crate::bytes;
use crate::digest;
use crate::error::{invalid_data, RuntimeDataError};
use crate::footer;
use crate::footer::{FOOTER_LEN, FOOTER_MAGIC_LEN};
use crate::object_file;
use crate::object_file::SECTION_HEADER_LEN;
use crate::pe;
use crate::pe::certificate;
use crate::pe::laws;
use crate::pe::round_trip;
use crate::pe::{
    PeAnchorLayout, PeCertificateLayout, PeHeaders, PeImageLayout, PeKind, PeScan,
    PE_CERTIFICATE_ALIGNMENT,
};
use crate::runtime_reader;
use crate::runtime_reader::{FooterSearchSpec, LocatedView};

verus! {

/// Whether byte `at` of the headers is one that signing rewrites: it belongs to the checksum or
/// to the Security Directory entry.
pub open spec fn is_signing_field(layout: PeImageLayout, at: int) -> bool {
    ||| layout.optional_header_offset + 64 <= at < layout.optional_header_offset + 68
    ||| (layout.security_directory_offset matches Some(directory) && directory <= at < directory
        + 8)
}

/// Whether `other` is at least as long as `image`, and starts with the same headers but for the
/// fields that signing rewrites.
pub open spec fn has_same_headers(image: Seq<u8>, layout: PeImageLayout, other: Seq<u8>) -> bool {
    &&& image.len() <= other.len() <= u64::MAX
    &&& pe::pe_layout(image) == Ok::<PeImageLayout, RuntimeDataError>(layout)
    &&& forall|i: int|
        0 <= i < layout.size_of_headers && !is_signing_field(layout, i) ==> #[trigger] other[i]
            == image[i]
}

/// A window of the headers that signing leaves alone is the same in both images.
proof fn lemma_same_window(image: Seq<u8>, layout: PeImageLayout, other: Seq<u8>, at: int, len: int)
    requires
        has_same_headers(image, layout, other),
        0 <= at,
        0 <= len,
        at + len <= layout.size_of_headers,
        forall|i: int| at <= i < at + len ==> !is_signing_field(layout, i),
    ensures
        at + len <= image.len(),
        other.subrange(at, at + len) == image.subrange(at, at + len),
        len == 2 ==> bytes::le_u16(other, at) == bytes::le_u16(image, at),
        len == 4 ==> bytes::le_u32(other, at) == bytes::le_u32(image, at),
{
    laws::law_accepted_pe_layout(image, layout);
    assert(other.subrange(at, at + len) =~= image.subrange(at, at + len));
    if len == 2 {
        bytes::lemma_le_u16_window(other, at, image, at);
    }
    if len == 4 {
        bytes::lemma_le_u32_window(other, at, image, at);
    }
}

/// Two images with the same headers have the same tables, apart from the data directories.
proof fn lemma_same_tables(image: Seq<u8>, layout: PeImageLayout, other: Seq<u8>)
    requires
        has_same_headers(image, layout, other),
    ensures
        object_file::has_dos_magic(image),
        object_file::has_dos_magic(other),
        object_file::pe_kind(image) == Some(layout.kind),
        object_file::pe_kind(other) == Some(layout.kind),
        object_file::pe_tables_fault(image, layout.kind) is None,
        object_file::pe_tables_fault(other, layout.kind) is None,
        object_file::nt_headers_offset(other) == object_file::nt_headers_offset(image),
        object_file::directory_count(other, layout.kind) == object_file::directory_count(
            image,
            layout.kind,
        ),
        round_trip::headers_of(other, layout.kind) == round_trip::headers_of(image, layout.kind),
        round_trip::section_table_of(other) == round_trip::section_table_of(image),
        object_file::pe_section_table_offset(image) == layout.section_table_offset,
        object_file::pe_section_count(image) == layout.section_count,
{
    let kind = layout.kind;
    let start = object_file::nt_headers_offset(image);
    let fixed = object_file::optional_fixed_size(kind);
    laws::law_accepted_pe_layout(image, layout);
    laws::lemma_accepted_pe_headers(image, layout);
    pe::reader::lemma_fields_of_tables(image, kind);
    assert(layout.optional_header_offset == start + 24);
    assert(layout.section_count * SECTION_HEADER_LEN >= 40);
    lemma_same_window(image, layout, other, 0, 2);
    assert(other.subrange(0, 2)[0] == image.subrange(0, 2)[0]);
    assert(other.subrange(0, 2)[1] == image.subrange(0, 2)[1]);
    lemma_same_window(image, layout, other, 60, 4);
    lemma_same_window(image, layout, other, start, 4);
    lemma_same_window(image, layout, other, start + 4, 2);
    lemma_same_window(image, layout, other, start + 6, 2);
    lemma_same_window(image, layout, other, start + 20, 2);
    lemma_same_window(image, layout, other, start + 22, 2);
    lemma_same_window(image, layout, other, start + 24, 2);
    lemma_same_window(image, layout, other, start + 32, 4);
    lemma_same_window(image, layout, other, start + 56, 4);
    lemma_same_window(image, layout, other, start + 60, 4);
    lemma_same_window(image, layout, other, start + 80, 4);
    lemma_same_window(image, layout, other, start + 84, 4);
    lemma_same_window(image, layout, other, start + 20 + fixed, 4);
    let table = layout.section_table_offset as int;
    lemma_same_window(
        image,
        layout,
        other,
        table,
        layout.section_count * SECTION_HEADER_LEN,
    );
    round_trip::lemma_headers_in_image(image, kind);
    round_trip::lemma_headers_in_image(other, kind);
}

/// Sections that are accepted in a file are accepted in a longer one.
proof fn lemma_sections_in_longer_file(
    scan: PeScan,
    headers: PeHeaders,
    table: Seq<u8>,
    index: int,
    file_len: u64,
    longer: u64,
    last: PeScan,
)
    requires
        file_len <= longer,
        pe::scan_pe_sections(scan, headers, table, index, file_len) == Ok::<
            PeScan,
            RuntimeDataError,
        >(last),
    ensures
        pe::scan_pe_sections(scan, headers, table, index, longer) == Ok::<PeScan, RuntimeDataError>(
            last,
        ),
    decreases headers.section_count - index,
{
    if index < headers.section_count {
        let section = pe::pe_section(table, index);
        lemma_sections_in_longer_file(
            pe::with_pe_section(scan, section),
            headers,
            table,
            index + 1,
            file_len,
            longer,
            last,
        );
    }
}

/// The data directories of an image.
pub open spec fn directories_of(image: Seq<u8>, kind: PeKind) -> Seq<u8> {
    let start = object_file::directories_offset(image, kind);
    image.subrange(start, start + 8 * object_file::directory_count(image, kind))
}

/// An image with the same headers has the same layout, with the certificate table that its own
/// data directories name.
#[verifier::rlimit(30)]
proof fn lemma_same_layout(image: Seq<u8>, layout: PeImageLayout, other: Seq<u8>)
    requires
        has_same_headers(image, layout, other),
    ensures
        pe::pe_layout(other) == (match pe::certificate_layout(
            round_trip::headers_of(other, layout.kind),
            directories_of(other, layout.kind),
            layout.max_raw_end,
            other.len() as u64,
        ) {
            Err(error) => Err(error),
            Ok(certificate) => Ok(PeImageLayout { certificate, ..layout }),
        }),
{
    let kind = layout.kind;
    lemma_same_tables(image, layout, other);
    laws::law_accepted_pe_layout(image, layout);
    let headers = round_trip::headers_of(image, kind);
    let scan = round_trip::sections_read_in(image, kind)->Ok_0;
    lemma_sections_in_longer_file(
        pe::initial_pe_scan(headers),
        headers,
        round_trip::section_table_of(image),
        0,
        image.len() as u64,
        other.len() as u64,
        scan,
    );
}

/// Where the runtime data of an image with this layout has to end.
pub open spec fn data_end(image: Seq<u8>, layout: PeImageLayout) -> int {
    match layout.certificate {
        Some(table) => table.offset as int,
        None => image.len() as int,
    }
}

/// Two images whose bytes are the same from the anchor section to the end of the runtime data
/// hold the same runtime data.
proof fn lemma_same_anchored_data(
    image: Seq<u8>,
    layout: PeImageLayout,
    other: Seq<u8>,
    other_layout: PeImageLayout,
    anchor: PeAnchorLayout,
)
    requires
        other_layout.machine == layout.machine,
        other_layout.kind == layout.kind,
        data_end(other, other_layout) == data_end(image, layout),
        data_end(image, layout) <= image.len(),
        data_end(image, layout) <= other.len(),
        anchor.offset + FOOTER_LEN <= anchor.raw_end <= data_end(image, layout),
        forall|i: int|
            anchor.offset <= i < data_end(image, layout) ==> #[trigger] other[i] == image[i],
    ensures
        runtime_reader::anchored_data(other, other_layout, anchor)
            == runtime_reader::anchored_data(image, layout, anchor),
{
    let start = anchor.offset as int;
    let footer_end = anchor.offset + FOOTER_LEN;
    let raw_end = anchor.raw_end as int;
    assert(other.subrange(start, footer_end) =~= image.subrange(start, footer_end));
    assert(other.subrange(footer_end, raw_end) =~= image.subrange(footer_end, raw_end));
    if let Ok(Some(footer)) = footer::decoded_footer(image.subrange(start, footer_end)) {
        if footer.header_len + footer.bundle_len <= u64::MAX {
            let content_len = (footer.header_len + footer.bundle_len) as u64;
            if let Ok((payload_start, payload_end)) = pe::content::content_layout(
                anchor.raw_end,
                content_len,
            ) {
                if payload_end == data_end(image, layout) {
                    pe::content::law_content_layout(
                        anchor.raw_end,
                        content_len,
                        payload_start,
                        payload_end,
                    );
                    let from = payload_start as int;
                    let to = payload_start + footer.header_len;
                    assert(other.subrange(raw_end, from) =~= image.subrange(raw_end, from));
                    assert(other.subrange(from, to) =~= image.subrange(from, to));
                }
            }
        }
    }
}

/// Two files that are the same up to the end of a search for the magic of a footer both hold it,
/// or neither does.
proof fn lemma_same_magic(image: Seq<u8>, other: Seq<u8>, search: FooterSearchSpec)
    requires
        search.data_end <= image.len(),
        search.data_end <= other.len(),
        other.take(search.data_end as int) == image.take(search.data_end as int),
    ensures
        runtime_reader::magic_exists(other, search) == runtime_reader::magic_exists(image, search),
{
    let end = search.data_end as int;
    assert forall|padding: int|
        0 <= padding < search.alignment && padding + FOOTER_MAGIC_LEN <= end implies (
    #[trigger] footer::magic_ends_at(image, end - padding)) == footer::magic_ends_at(
        other,
        end - padding,
    ) by {
        let from = end - padding - FOOTER_MAGIC_LEN;
        let to = end - padding;
        assert(image.subrange(from, to) =~= image.take(end).subrange(from, to));
        assert(other.subrange(from, to) =~= other.take(end).subrange(from, to));
    }
    if runtime_reader::magic_exists(image, search) {
        let padding = choose|padding: int|
            0 <= padding < search.alignment && padding + FOOTER_MAGIC_LEN <= search.data_end
                && #[trigger] footer::magic_ends_at(image, search.data_end - padding);
        assert(footer::magic_ends_at(other, search.data_end - padding));
    }
    if runtime_reader::magic_exists(other, search) {
        let padding = choose|padding: int|
            0 <= padding < search.alignment && padding + FOOTER_MAGIC_LEN <= search.data_end
                && #[trigger] footer::magic_ends_at(other, search.data_end - padding);
        assert(footer::magic_ends_at(image, search.data_end - padding));
    }
}

/// What lies inside the certificate table of a signed image has no part in its runtime data: two
/// images that differ in nothing but the contents of their certificate tables, both of which are
/// filled by their entries, hold the same runtime data, or are refused for the same reason.
pub proof fn law_certificates_hold_no_runtime_data(
    image: Seq<u8>,
    layout: PeImageLayout,
    table: PeCertificateLayout,
    other: Seq<u8>,
)
    requires
        image.len() <= u64::MAX,
        pe::pe_layout(image) == Ok::<PeImageLayout, RuntimeDataError>(layout),
        layout.certificate == Some(table),
        other.len() == image.len(),
        other.take(table.offset as int) == image.take(table.offset as int),
        certificate::certificate_entries_error(image, table, 0, 0) is None,
        certificate::certificate_entries_error(other, table, 0, 0) is None,
    ensures
        runtime_reader::pe_runtime_data(other) == runtime_reader::pe_runtime_data(image),
{
    laws::law_accepted_pe_layout(image, layout);
    laws::lemma_accepted_pe_headers(image, layout);
    let end = table.offset as int;
    assert forall|i: int| 0 <= i < end implies #[trigger] other[i] == image[i] by {
        assert(other.take(end)[i] == image.take(end)[i]);
    }
    lemma_same_tables(image, layout, other);
    lemma_same_layout(image, layout, other);
    pe::reader::lemma_fields_of_tables(image, layout.kind);
    assert(directories_of(other, layout.kind) =~= directories_of(image, layout.kind));
    assert(pe::pe_layout(other) == pe::pe_layout(image));
    match layout.anchor {
        Some(anchor) => {
            lemma_same_anchored_data(image, layout, other, layout, anchor);
        },
        None => {
            lemma_same_magic(
                image,
                other,
                FooterSearchSpec {
                    data_end: table.offset,
                    alignment: PE_CERTIFICATE_ALIGNMENT,
                    minimum_payload_offset: layout.max_raw_end,
                },
            );
        },
    }
}

/// The image `image` with this layout once it is signed: with a certificate table behind it, an
/// entry in the data directories that names it, and a new checksum.
pub open spec fn signed_pe(
    image: Seq<u8>,
    layout: PeImageLayout,
    checksum: u32,
    certificates: Seq<u8>,
) -> Seq<u8> {
    bytes::overwritten(
        bytes::overwritten(
            image,
            layout.optional_header_offset + 64,
            bytes::u32_bytes(checksum),
        ),
        layout.security_directory_offset->0 as int,
        bytes::u32_bytes(image.len() as u32) + bytes::u32_bytes(certificates.len() as u32),
    ) + certificates
}

/// The certificate table of the image once it is signed.
pub open spec fn signed_table(image: Seq<u8>, certificates: Seq<u8>) -> PeCertificateLayout {
    PeCertificateLayout { offset: image.len() as u64, size: certificates.len() as u64 }
}

/// A signed image has the headers that it had before, but for the fields that signing rewrites.
proof fn lemma_signed_bytes(
    image: Seq<u8>,
    layout: PeImageLayout,
    checksum: u32,
    certificates: Seq<u8>,
)
    requires
        image.len() + certificates.len() <= u64::MAX,
        pe::pe_layout(image) == Ok::<PeImageLayout, RuntimeDataError>(layout),
        layout.security_directory_offset is Some,
    ensures
        ({
            let signed = signed_pe(image, layout, checksum, certificates);
            let directory = layout.security_directory_offset->0 as int;
            &&& signed.len() == image.len() + certificates.len()
            &&& has_same_headers(image, layout, signed)
            &&& forall|i: int|
                layout.size_of_headers <= i < image.len() ==> #[trigger] signed[i] == image[i]
            &&& signed.subrange(directory, directory + 4) == bytes::u32_bytes(image.len() as u32)
            &&& signed.subrange(directory + 4, directory + 8) == bytes::u32_bytes(
                certificates.len() as u32,
            )
        }),
{
    laws::law_accepted_pe_layout(image, layout);
    laws::lemma_accepted_pe_headers(image, layout);
    let checksum_at = layout.optional_header_offset + 64;
    let directory = layout.security_directory_offset->0 as int;
    let entry = bytes::u32_bytes(image.len() as u32) + bytes::u32_bytes(certificates.len() as u32);
    let summed = bytes::overwritten(image, checksum_at, bytes::u32_bytes(checksum));
    bytes::lemma_overwritten(image, checksum_at, bytes::u32_bytes(checksum));
    bytes::lemma_overwritten(summed, directory, entry);
    let signed = signed_pe(image, layout, checksum, certificates);
    assert(signed.subrange(directory, directory + 4) =~= bytes::u32_bytes(image.len() as u32));
    assert(signed.subrange(directory + 4, directory + 8) =~= bytes::u32_bytes(
        certificates.len() as u32,
    ));
}

/// The data directories of a signed image name its certificate table.
proof fn lemma_signed_directory(
    image: Seq<u8>,
    layout: PeImageLayout,
    checksum: u32,
    certificates: Seq<u8>,
)
    requires
        image.len() <= u32::MAX,
        certificates.len() <= u32::MAX,
        pe::pe_layout(image) == Ok::<PeImageLayout, RuntimeDataError>(layout),
        layout.security_directory_offset is Some,
    ensures
        ({
            let signed = signed_pe(image, layout, checksum, certificates);
            let directories = directories_of(signed, layout.kind);
            &&& round_trip::headers_of(signed, layout.kind).directory_count > 4
            &&& bytes::le_u32(directories, 32) == image.len()
            &&& bytes::le_u32(directories, 36) == certificates.len()
        }),
{
    let kind = layout.kind;
    let signed = signed_pe(image, layout, checksum, certificates);
    let directories = directories_of(signed, kind);
    let directory = layout.security_directory_offset->0 as int;
    let offset_bytes = bytes::u32_bytes(image.len() as u32);
    let size_bytes = bytes::u32_bytes(certificates.len() as u32);
    laws::law_accepted_pe_layout(image, layout);
    laws::lemma_accepted_pe_headers(image, layout);
    lemma_signed_bytes(image, layout, checksum, certificates);
    lemma_same_tables(image, layout, signed);
    round_trip::lemma_headers_in_image(signed, kind);
    assert(object_file::directories_offset(signed, kind) + 32 == directory);
    assert(directories.subrange(32, 36) =~= signed.subrange(directory, directory + 4));
    assert(directories.subrange(36, 40) =~= signed.subrange(directory + 4, directory + 8));
    assert(offset_bytes.subrange(0, 4) =~= offset_bytes);
    assert(size_bytes.subrange(0, 4) =~= size_bytes);
    bytes::lemma_le_u32_window(directories, 32, offset_bytes, 0);
    bytes::lemma_le_u32_window(directories, 36, size_bytes, 0);
    bytes::lemma_u32_round_trip(image.len() as u32);
    bytes::lemma_u32_round_trip(certificates.len() as u32);
}

/// A stamped image can be signed: what was read from it before is read from it afterwards.
pub proof fn law_signing_keeps_pe_runtime_data(
    image: Seq<u8>,
    layout: PeImageLayout,
    found: LocatedView,
    checksum: u32,
    certificates: Seq<u8>,
)
    requires
        image.len() <= u64::MAX,
        pe::pe_layout(image) == Ok::<PeImageLayout, RuntimeDataError>(layout),
        layout.anchor is Some,
        layout.certificate is None,
        layout.security_directory_offset is Some,
        runtime_reader::pe_runtime_data(image) == Ok::<Option<LocatedView>, RuntimeDataError>(
            Some(found),
        ),
        8 <= certificates.len() <= u32::MAX,
        certificate::certificate_entries_error(
            signed_pe(image, layout, checksum, certificates),
            signed_table(image, certificates),
            0,
            0,
        ) is None,
    ensures
        runtime_reader::pe_runtime_data(signed_pe(image, layout, checksum, certificates)) == Ok::<
            Option<LocatedView>,
            RuntimeDataError,
        >(Some(found)),
{
    let signed = signed_pe(image, layout, checksum, certificates);
    let anchor = layout.anchor->0;
    let table = signed_table(image, certificates);
    laws::law_accepted_pe_layout(image, layout);
    laws::lemma_accepted_pe_headers(image, layout);
    let footer = footer::decoded_footer(
        image.subrange(anchor.offset as int, anchor.offset + FOOTER_LEN),
    )->Ok_0->0;
    let content_len = (footer.header_len + footer.bundle_len) as u64;
    let (payload_start, payload_end) = pe::content::content_layout(
        anchor.raw_end,
        content_len,
    )->Ok_0;
    pe::content::law_content_layout(anchor.raw_end, content_len, payload_start, payload_end);
    assert(image.len() == payload_end);
    lemma_signed_bytes(image, layout, checksum, certificates);
    lemma_signed_directory(image, layout, checksum, certificates);
    lemma_same_layout(image, layout, signed);
    let signed_layout = PeImageLayout { certificate: Some(table), ..layout };
    assert(pe::pe_layout(signed) == Ok::<PeImageLayout, RuntimeDataError>(signed_layout));
    lemma_same_anchored_data(image, layout, signed, signed_layout, anchor);
}

/// A stamp leaves an anchor section behind.
pub proof fn law_stamped_pe_is_anchored(
    image: Seq<u8>,
    header: Seq<u8>,
    bundle: Seq<u8>,
    platform: Seq<char>,
    stamped: Seq<u8>,
)
    requires
        image.len() <= u64::MAX,
        header.len() + bundle.len() <= u64::MAX,
        pe::stamp::stamped_pe(image, header, bundle, bundle.len() as u64, platform) == Ok::<
            Seq<u8>,
            RuntimeDataError,
        >(stamped),
        round_trip::keeps_nt_headers(image),
    ensures
        pe::pe_layout(stamped) is Ok,
        pe::pe_layout(stamped)->Ok_0.anchor is Some,
        pe::pe_layout(stamped)->Ok_0.certificate is None,
        pe::pe_layout(stamped)->Ok_0.security_directory_offset is Some,
        pe::pe_layout(stamped)->Ok_0.machine == pe::pe_layout(image)->Ok_0.machine,
        pe::pe_layout(stamped)->Ok_0.kind == pe::pe_layout(image)->Ok_0.kind,
{
    let layout = pe::pe_layout(image)->Ok_0;
    let content_len = (header.len() + bundle.len()) as u64;
    let plan = pe::stamp::pe_stamp_plan(layout, content_len)->Ok_0;
    round_trip::law_stamp_keeps_nt_headers(image, header, bundle, platform, stamped);
    round_trip::lemma_plan(image, layout, plan, content_len);
    round_trip::lemma_stamped_bytes(image, layout, plan, header, bundle, stamped);
    laws::law_accepted_pe_layout(image, layout);
    round_trip::lemma_stamped_layout(image, layout, plan, content_len, stamped);
}

/// A stamped image is not stamped again: another stamp for the same platform is refused in words
/// that say so, whatever it holds.
pub proof fn law_stamped_pe_is_not_stamped_again(
    image: Seq<u8>,
    header: Seq<u8>,
    bundle: Seq<u8>,
    platform: Seq<char>,
    stamped: Seq<u8>,
    other_header: Seq<u8>,
    other_bundle: Seq<u8>,
    other_bundle_len: u64,
)
    requires
        image.len() <= u64::MAX,
        header.len() + bundle.len() <= u64::MAX,
        pe::stamp::stamped_pe(image, header, bundle, bundle.len() as u64, platform) == Ok::<
            Seq<u8>,
            RuntimeDataError,
        >(stamped),
        round_trip::keeps_nt_headers(image),
    ensures
        pe::stamp::stamped_pe(stamped, other_header, other_bundle, other_bundle_len, platform)
            == Err::<Seq<u8>, RuntimeDataError>(
            invalid_data("PE runtime template already contains a conda-ship anchor section"),
        ),
{
    law_stamped_pe_is_anchored(image, header, bundle, platform, stamped);
}

/// The anchor section speaks for the runtime data of an image: the header hashes to the digest in
/// the footer there and has the length that it gives, the bundle has to hash to the other digest,
/// and both together end where the certificate table starts, or else the file.
pub proof fn law_anchor_speaks_for_the_data(
    image: Seq<u8>,
    layout: PeImageLayout,
    anchor: PeAnchorLayout,
    found: LocatedView,
)
    requires
        image.len() <= u64::MAX,
        pe::pe_layout(image) == Ok::<PeImageLayout, RuntimeDataError>(layout),
        layout.anchor == Some(anchor),
        runtime_reader::pe_runtime_data(image) == Ok::<Option<LocatedView>, RuntimeDataError>(
            Some(found),
        ),
    ensures
        footer::decoded_footer(
            image.subrange(anchor.offset as int, anchor.offset + FOOTER_LEN),
        ) matches Ok(Some(footer)) && {
            &&& found.header_bytes.len() == footer.header_len
            &&& digest::sha256_digest(found.header_bytes)@ == footer.header_sha256
            &&& match found.bundle {
                Some(bundle) => {
                    &&& bundle.len == footer.bundle_len
                    &&& bundle.sha256 == footer.bundle_sha256
                    &&& bundle.offset + bundle.len == data_end(image, layout)
                },
                None => footer.bundle_len == 0,
            }
        },
{
    laws::law_accepted_pe_layout(image, layout);
    let footer = footer::decoded_footer(
        image.subrange(anchor.offset as int, anchor.offset + FOOTER_LEN),
    )->Ok_0->0;
    let content_len = (footer.header_len + footer.bundle_len) as u64;
    let (payload_start, payload_end) = pe::content::content_layout(
        anchor.raw_end,
        content_len,
    )->Ok_0;
    pe::content::law_content_layout(anchor.raw_end, content_len, payload_start, payload_end);
}

} // verus!
