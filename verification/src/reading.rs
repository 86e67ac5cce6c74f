//! What holds of the runtime data that is found in an executable, whatever its kind.

use vstd::prelude::*;

use crate::bundle::BundleView;
use crate::bytes;
use crate::digest;
use crate::error::RuntimeDataError;
use crate::executable;
use crate::executable::BinaryFormat;
use crate::footer;
use crate::footer::FooterView;
use crate::macho::layout;
use crate::macho::MachOLayout;
use crate::pe;
use crate::pe::content;
use crate::pe::{PeAnchorLayout, PeImageLayout};
use crate::runtime_reader;
use crate::runtime_reader::{FooterSearchSpec, LocatedView, Target};

verus! {

/// Runtime data that is found is what the footer says of it.
proof fn lemma_payload_found(
    image: Seq<u8>,
    target: Target,
    start: u64,
    footer: FooterView,
    found: LocatedView,
)
    requires
        runtime_reader::payload_data(image, target, start, footer) == Ok::<
            Option<LocatedView>,
            RuntimeDataError,
        >(Some(found)),
    ensures
        found.target == target,
        found.header_bytes.len() == footer.header_len,
        footer.header_len <= 16 * 1024 * 1024,
        footer.header_len > 0 ==> start + footer.header_len <= image.len() && found.header_bytes
            == image.subrange(start as int, start + footer.header_len),
        digest::sha256_digest(found.header_bytes)@ == footer.header_sha256,
        match found.bundle {
            Some(bundle) => {
                &&& footer.bundle_len > 0
                &&& bundle.len == footer.bundle_len
                &&& bundle.sha256 == footer.bundle_sha256
                &&& start + footer.header_len <= u64::MAX ==> bundle.offset == start
                    + footer.header_len
            },
            None => footer.bundle_len == 0,
        },
{
}

/// The fields of a footer are those of the hundred bytes of the image that hold it.
proof fn lemma_footer_fields(image: Seq<u8>, at: int, footer: FooterView)
    requires
        0 <= at,
        at + 100 <= image.len(),
        footer::decoded_footer(image.subrange(at, at + 100)) == Ok::<
            Option<FooterView>,
            RuntimeDataError,
        >(Some(footer)),
    ensures
        footer.header_len == bytes::le_u64(image, at),
        footer.bundle_len == bytes::le_u64(image, at + 8),
        footer.header_sha256 == image.subrange(at + 16, at + 48),
        footer.bundle_sha256 == image.subrange(at + 48, at + 80),
        bytes::le_u32(image, at + 80) == 1,
        image.subrange(at + 84, at + 100) == seq![
            0x43u8, 0x4f, 0x4e, 0x44, 0x41, 0x5f, 0x53, 0x48, 0x49, 0x50, 0x5f, 0x56, 0x30,
            0x30, 0x30, 0x31,
        ],
{
    let window = image.subrange(at, at + 100);
    assert(window.subrange(0, 8) =~= image.subrange(at, at + 8));
    assert(window.subrange(8, 16) =~= image.subrange(at + 8, at + 16));
    assert(window.subrange(16, 48) =~= image.subrange(at + 16, at + 48));
    assert(window.subrange(48, 80) =~= image.subrange(at + 48, at + 80));
    assert(window.subrange(80, 84) =~= image.subrange(at + 80, at + 84));
    assert(window.subrange(84, 100) =~= image.subrange(at + 84, at + 100));
    bytes::lemma_le_u64_window(window, 0, image, at);
    bytes::lemma_le_u64_window(window, 8, image, at + 8);
    bytes::lemma_le_u32_window(window, 80, image, at + 80);
}

/// Where the footer of runtime data starts that a search from `padding` on finds: right before
/// the end of the data but for fewer zeros than there are places, and right behind the data.
proof fn lemma_search_found(
    image: Seq<u8>,
    target: Target,
    search: FooterSearchSpec,
    padding: nat,
    found: LocatedView,
) -> (at: int)
    requires
        runtime_reader::search_from(image, target, search, padding) == Ok::<
            Option<LocatedView>,
            RuntimeDataError,
        >(Some(found)),
        search.data_end <= image.len(),
        search.alignment > 0,
    ensures
        0 <= at,
        at + 100 <= search.data_end < at + 100 + search.alignment,
        forall|i: int| at + 100 <= i < search.data_end ==> #[trigger] image[i] == 0,
        footer::decoded_footer(image.subrange(at, at + 100)) matches Ok(Some(footer)) && {
            let start = at - footer.header_len - footer.bundle_len;
            &&& 0 <= start
            &&& search.minimum_payload_offset <= start
            &&& runtime_reader::payload_data(image, target, start as u64, footer) == Ok::<
                Option<LocatedView>,
                RuntimeDataError,
            >(Some(found))
        },
    decreases runtime_reader::footer_places(search) - padding,
{
    let footer_end = search.data_end - padding;
    let footer_start = footer_end - 100;
    if footer_start < 0 || !footer::magic_ends_at(image, footer_end) {
        lemma_search_found(image, target, search, padding + 1, found)
    } else {
        let gap = image.subrange(footer_end, search.data_end as int);
        assert forall|i: int| footer_end <= i < search.data_end implies #[trigger] image[i]
            == 0 by {
            assert(gap[i - footer_end] == 0);
        }
        footer_start
    }
}

/// The anchored runtime data of a PE image ends the file or comes right before its certificate
/// table, behind the section with its footer and fewer than eight zeros.
proof fn lemma_anchored_found(
    image: Seq<u8>,
    layout: PeImageLayout,
    anchor: PeAnchorLayout,
    found: LocatedView,
) -> (start: int)
    requires
        runtime_reader::anchored_data(image, layout, anchor) == Ok::<
            Option<LocatedView>,
            RuntimeDataError,
        >(Some(found)),
        anchor.offset + 100 <= anchor.raw_end <= image.len(),
        layout.certificate matches Some(table) ==> table.offset <= image.len(),
    ensures
        anchor.raw_end <= start < anchor.raw_end + 8,
        forall|i: int| anchor.offset + 100 <= i < start ==> #[trigger] image[i] == 0,
        footer::decoded_footer(image.subrange(anchor.offset as int, anchor.offset + 100)) matches Ok(
            Some(footer),
        ) && {
            &&& start + footer.header_len + footer.bundle_len == (match layout.certificate {
                Some(table) => table.offset as int,
                None => image.len() as int,
            })
            &&& runtime_reader::payload_data(
                image,
                Target::Pe { machine: layout.machine, kind: layout.kind },
                start as u64,
                footer,
            ) == Ok::<Option<LocatedView>, RuntimeDataError>(Some(found))
        },
{
    let footer_end = anchor.offset + 100;
    let footer = footer::decoded_footer(image.subrange(anchor.offset as int, footer_end))->Ok_0->0;
    let content_len = (footer.header_len + footer.bundle_len) as u64;
    let (start, end) = content::content_layout(anchor.raw_end, content_len)->Ok_0;
    content::law_content_layout(anchor.raw_end, content_len, start, end);
    let section = image.subrange(footer_end, anchor.raw_end as int);
    let gap = image.subrange(anchor.raw_end as int, start as int);
    assert forall|i: int| footer_end <= i < start implies #[trigger] image[i] == 0 by {
        if i < anchor.raw_end {
            assert(section[i - footer_end] == 0);
        } else {
            assert(gap[i - anchor.raw_end] == 0);
        }
    }
    start as int
}

/// Runtime data that is found in an executable is what a footer in it says: the header has the
/// length and the digest that the footer gives, and the bundle comes right behind the header with
/// the length and the digest that the footer gives.
///
/// The footer ends the executable, or comes right before its Mach-O code signature but for fewer
/// zeros than sixteen; in a PE image it may start the anchor section instead. In an anchored image
/// the data ends the file or comes right before the certificate table; elsewhere it comes right
/// before the footer.
pub proof fn law_found_data_is_what_its_footer_says(image: Seq<u8>, found: LocatedView) -> (place: (
    int,
    int,
))
    requires
        image.len() <= usize::MAX,
        runtime_reader::runtime_data_in(image) == Ok::<Option<LocatedView>, RuntimeDataError>(
            Some(found),
        ),
    ensures
        ({
            let (at, start) = place;
            let header_len = bytes::le_u64(image, at);
            let bundle_len = bytes::le_u64(image, at + 8);
            &&& 0 <= at
            &&& at + 100 <= image.len()
            &&& image.subrange(at + 84, at + 100) == seq![
                0x43u8, 0x4f, 0x4e, 0x44, 0x41, 0x5f, 0x53, 0x48, 0x49, 0x50, 0x5f, 0x56, 0x30,
                0x30, 0x30, 0x31,
            ]
            &&& bytes::le_u32(image, at + 80) == 1
            &&& header_len <= 16 * 1024 * 1024
            &&& 0 <= start
            &&& start + header_len + bundle_len <= image.len()
            &&& found.header_bytes == image.subrange(start, start + header_len)
            &&& digest::sha256_digest(found.header_bytes)@ == image.subrange(at + 16, at + 48)
            &&& match found.bundle {
                Some(bundle) => {
                    &&& bundle_len > 0
                    &&& bundle.offset == start + header_len
                    &&& bundle.len == bundle_len
                    &&& bundle.sha256 == image.subrange(at + 48, at + 80)
                },
                None => bundle_len == 0,
            }
            &&& match executable::binary_format(image) {
                Ok(BinaryFormat::Other) => {
                    &&& found.target == Target::Other
                    &&& start + header_len + bundle_len == at
                    &&& at + 100 == image.len()
                },
                Ok(BinaryFormat::MachO64) => layout::macho_layout(image) matches Ok(accepted) && {
                    &&& found.target == Target::MachO {
                        cpu_type: accepted.cpu_type,
                        cpu_subtype: accepted.cpu_subtype,
                    }
                    &&& start + header_len + bundle_len == at
                    &&& accepted.linkedit_fileoff <= start
                    &&& match accepted.code_signature {
                        Some((_, offset, _)) => {
                            &&& at + 100 <= offset < at + 116
                            &&& forall|i: int| at + 100 <= i < offset ==> #[trigger] image[i] == 0
                        },
                        None => at + 100 == image.len(),
                    }
                },
                Ok(BinaryFormat::Pe) => pe::pe_layout(image) matches Ok(accepted) && {
                    &&& found.target == Target::Pe {
                        machine: accepted.machine,
                        kind: accepted.kind,
                    }
                    &&& match accepted.anchor {
                        Some(anchor) => {
                            &&& at == anchor.offset
                            &&& anchor.raw_end <= start < anchor.raw_end + 8
                            &&& forall|i: int| at + 100 <= i < start ==> #[trigger] image[i] == 0
                            &&& start + header_len + bundle_len == (match accepted.certificate {
                                Some(table) => table.offset as int,
                                None => image.len() as int,
                            })
                        },
                        None => {
                            &&& accepted.certificate is None
                            &&& start + header_len + bundle_len == at
                            &&& at + 100 == image.len()
                            &&& accepted.max_raw_end <= start
                        },
                    }
                },
                _ => false,
            }
        }),
{
    match executable::binary_format(image) {
        Ok(BinaryFormat::MachO64) => {
            let (search, cpu_type, cpu_subtype) = runtime_reader::macho_search(image)->Ok_0;
            let target = Target::MachO { cpu_type, cpu_subtype };
            let accepted = layout::macho_layout(image)->Ok_0;
            crate::macho::laws::law_accepted_macho_layout(image, accepted);
            assert(search.data_end <= image.len());
            let at = lemma_search_found(image, target, search, 0, found);
            lemma_found_before_footer(image, target, at, search.minimum_payload_offset, found)
        },
        Ok(BinaryFormat::Pe) => {
            let accepted = pe::pe_layout(image)->Ok_0;
            let target = Target::Pe { machine: accepted.machine, kind: accepted.kind };
            pe::laws::law_accepted_pe_layout(image, accepted);
            match accepted.anchor {
                Some(anchor) => {
                    let start = lemma_anchored_found(image, accepted, anchor, found);
                    let at = anchor.offset as int;
                    let footer = footer::decoded_footer(
                        image.subrange(anchor.offset as int, anchor.offset + 100),
                    )->Ok_0->0;
                    lemma_footer_fields(image, at, footer);
                    lemma_payload_found(image, target, start as u64, footer, found);
                    assert(found.header_bytes =~= image.subrange(start, start + footer.header_len));
                    (at, start)
                },
                None => {
                    let search = FooterSearchSpec {
                        data_end: image.len() as u64,
                        alignment: 1,
                        minimum_payload_offset: accepted.max_raw_end,
                    };
                    let at = lemma_search_found(image, target, search, 0, found);
                    lemma_found_before_footer(image, target, at, accepted.max_raw_end, found)
                },
            }
        },
        _ => {
            let search = FooterSearchSpec {
                data_end: image.len() as u64,
                alignment: 1,
                minimum_payload_offset: 0,
            };
            let at = lemma_search_found(image, Target::Other, search, 0, found);
            lemma_found_before_footer(image, Target::Other, at, 0, found)
        },
    }
}

/// Runtime data that comes right before its footer is what the footer says of it.
proof fn lemma_found_before_footer(
    image: Seq<u8>,
    target: Target,
    at: int,
    minimum: u64,
    found: LocatedView,
) -> (place: (int, int))
    requires
        0 <= at,
        at + 100 <= image.len() <= usize::MAX,
        footer::decoded_footer(image.subrange(at, at + 100)) matches Ok(Some(footer)) && {
            let start = at - footer.header_len - footer.bundle_len;
            &&& 0 <= start
            &&& minimum <= start
            &&& runtime_reader::payload_data(image, target, start as u64, footer) == Ok::<
                Option<LocatedView>,
                RuntimeDataError,
            >(Some(found))
        },
    ensures
        place.0 == at,
        ({
            let start = place.1;
            let header_len = bytes::le_u64(image, at);
            let bundle_len = bytes::le_u64(image, at + 8);
            &&& image.subrange(at + 84, at + 100) == seq![
                0x43u8, 0x4f, 0x4e, 0x44, 0x41, 0x5f, 0x53, 0x48, 0x49, 0x50, 0x5f, 0x56, 0x30,
                0x30, 0x30, 0x31,
            ]
            &&& bytes::le_u32(image, at + 80) == 1
            &&& header_len <= 16 * 1024 * 1024
            &&& 0 <= start
            &&& minimum <= start
            &&& start + header_len + bundle_len == at
            &&& found.target == target
            &&& found.header_bytes == image.subrange(start, start + header_len)
            &&& digest::sha256_digest(found.header_bytes)@ == image.subrange(at + 16, at + 48)
            &&& match found.bundle {
                Some(bundle) => {
                    &&& bundle_len > 0
                    &&& bundle.offset == start + header_len
                    &&& bundle.len == bundle_len
                    &&& bundle.sha256 == image.subrange(at + 48, at + 80)
                },
                None => bundle_len == 0,
            }
        }),
{
    let footer = footer::decoded_footer(image.subrange(at, at + 100))->Ok_0->0;
    let start = at - footer.header_len - footer.bundle_len;
    lemma_footer_fields(image, at, footer);
    lemma_payload_found(image, target, start as u64, footer, found);
    assert(found.header_bytes =~= image.subrange(start, start + footer.header_len));
    (at, start)
}

/// A search finds the footer that ends right before the end of the data but for fewer zeros than
/// there are places.
proof fn lemma_search_finds(
    image: Seq<u8>,
    target: Target,
    search: FooterSearchSpec,
    padding: nat,
    at: int,
)
    requires
        0 <= at,
        at + 100 <= search.data_end <= image.len(),
        padding <= search.data_end - (at + 100) < search.alignment,
        forall|i: int| at + 100 <= i < search.data_end ==> #[trigger] image[i] == 0,
        footer::magic_ends_at(image, at + 100),
    ensures
        runtime_reader::search_from(image, target, search, padding)
            == runtime_reader::data_at_footer(
            image,
            target,
            at as u64,
            search.minimum_payload_offset,
            image.subrange(at, at + 100),
        ),
    decreases search.alignment - padding,
{
    let end = search.data_end - padding;
    if end > at + 100 {
        assert(!footer::magic_ends_at(image, end)) by {
            let tail = image.subrange(end - 16, end);
            assert(tail[15] == image[end - 1]);
            assert(footer::footer_magic()[15] == 0x31);
        }
        lemma_search_finds(image, target, search, padding + 1, at);
    } else {
        let gap = image.subrange(at + 100, search.data_end as int);
        assert forall|i: int| 0 <= i < gap.len() implies #[trigger] gap[i] == 0 by {
            assert(gap[i] == image[at + 100 + i]);
        }
    }
}

/// The hundred bytes with the magic and the version of a footer are decoded.
proof fn lemma_footer_decodes(image: Seq<u8>, at: int)
    requires
        0 <= at,
        at + 100 <= image.len(),
        image.subrange(at + 84, at + 100) == seq![
            0x43u8, 0x4f, 0x4e, 0x44, 0x41, 0x5f, 0x53, 0x48, 0x49, 0x50, 0x5f, 0x56, 0x30, 0x30,
            0x30, 0x31,
        ],
        bytes::le_u32(image, at + 80) == 1,
    ensures
        footer::magic_ends_at(image, at + 100),
        footer::decoded_footer(image.subrange(at, at + 100)) == Ok::<
            Option<FooterView>,
            RuntimeDataError,
        >(
            Some(
                FooterView {
                    header_len: bytes::le_u64(image, at),
                    bundle_len: bytes::le_u64(image, at + 8),
                    header_sha256: image.subrange(at + 16, at + 48),
                    bundle_sha256: image.subrange(at + 48, at + 80),
                },
            ),
        ),
{
    let window = image.subrange(at, at + 100);
    assert(window.subrange(0, 8) =~= image.subrange(at, at + 8));
    assert(window.subrange(8, 16) =~= image.subrange(at + 8, at + 16));
    assert(window.subrange(16, 48) =~= image.subrange(at + 16, at + 48));
    assert(window.subrange(48, 80) =~= image.subrange(at + 48, at + 80));
    assert(window.subrange(80, 84) =~= image.subrange(at + 80, at + 84));
    assert(window.subrange(84, 100) =~= image.subrange(at + 84, at + 100));
    bytes::lemma_le_u64_window(window, 0, image, at);
    bytes::lemma_le_u64_window(window, 8, image, at + 8);
    bytes::lemma_le_u32_window(window, 80, image, at + 80);
}

/// A footer that ends an executable, or comes right before its Mach-O code signature but for fewer
/// zeros than sixteen, is found: where the bytes before it are as long as it says and the header
/// has the digest that it says, they are the runtime data, and where the digest differs they are
/// refused.
pub proof fn law_a_footer_at_the_end_is_read(image: Seq<u8>, at: int)
    requires
        image.len() <= usize::MAX,
        0 <= at,
        at + 100 <= image.len(),
        image.subrange(at + 84, at + 100) == seq![
            0x43u8, 0x4f, 0x4e, 0x44, 0x41, 0x5f, 0x53, 0x48, 0x49, 0x50, 0x5f, 0x56, 0x30, 0x30,
            0x30, 0x31,
        ],
        bytes::le_u32(image, at + 80) == 1,
        bytes::le_u64(image, at) <= 16 * 1024 * 1024,
        bytes::le_u64(image, at) + bytes::le_u64(image, at + 8) <= at,
        match executable::binary_format(image) {
            Ok(BinaryFormat::Other) => at + 100 == image.len(),
            Ok(BinaryFormat::MachO64) => runtime_reader::macho_search(image) is Ok
                && layout::macho_layout(image)->Ok_0.linkedit_fileoff <= at - bytes::le_u64(
                image,
                at,
            ) - bytes::le_u64(image, at + 8) && match layout::macho_layout(
                image,
            )->Ok_0.code_signature {
                Some((_, offset, _)) => at + 100 <= offset < at + 116 && (forall|i: int|
                    at + 100 <= i < offset ==> #[trigger] image[i] == 0),
                None => at + 100 == image.len(),
            },
            Ok(BinaryFormat::Pe) => pe::pe_layout(image) is Ok && pe::pe_layout(
                image,
            )->Ok_0.anchor is None && pe::pe_layout(image)->Ok_0.certificate is None
                && pe::pe_layout(image)->Ok_0.max_raw_end <= at - bytes::le_u64(image, at)
                - bytes::le_u64(image, at + 8) && at + 100 == image.len(),
            _ => false,
        },
    ensures
        ({
            let header_len = bytes::le_u64(image, at);
            let bundle_len = bytes::le_u64(image, at + 8);
            let start = at - header_len - bundle_len;
            let target = match executable::binary_format(image) {
                Ok(BinaryFormat::MachO64) => Target::MachO {
                    cpu_type: layout::macho_layout(image)->Ok_0.cpu_type,
                    cpu_subtype: layout::macho_layout(image)->Ok_0.cpu_subtype,
                },
                Ok(BinaryFormat::Pe) => Target::Pe {
                    machine: pe::pe_layout(image)->Ok_0.machine,
                    kind: pe::pe_layout(image)->Ok_0.kind,
                },
                _ => Target::Other,
            };
            runtime_reader::runtime_data_in(image) == (if digest::sha256_digest(
                image.subrange(start, start + header_len),
            )@ != image.subrange(at + 16, at + 48) {
                Err::<Option<LocatedView>, RuntimeDataError>(
                    RuntimeDataError::InvalidData("runtime data header checksum mismatch"),
                )
            } else {
                Ok(
                    Some(
                        LocatedView {
                            target: target,
                            header_bytes: image.subrange(start, start + header_len),
                            bundle: if bundle_len == 0 {
                                None
                            } else {
                                Some(
                                    BundleView {
                                        offset: (start + header_len) as u64,
                                        len: bundle_len,
                                        sha256: image.subrange(at + 48, at + 80),
                                    },
                                )
                            },
                        },
                    ),
                )
            })
        }),
{
    lemma_footer_decodes(image, at);
    let header_len = bytes::le_u64(image, at);
    let bundle_len = bytes::le_u64(image, at + 8);
    let start = at - header_len - bundle_len;
    assert(header_len == 0 ==> image.subrange(start, start + header_len) =~= Seq::empty());
    match executable::binary_format(image) {
        Ok(BinaryFormat::MachO64) => {
            let (search, cpu_type, cpu_subtype) = runtime_reader::macho_search(image)->Ok_0;
            lemma_search_finds(image, Target::MachO { cpu_type, cpu_subtype }, search, 0, at);
        },
        Ok(BinaryFormat::Pe) => {
            let accepted = pe::pe_layout(image)->Ok_0;
            let search = FooterSearchSpec {
                data_end: image.len() as u64,
                alignment: 1,
                minimum_payload_offset: accepted.max_raw_end,
            };
            let target = Target::Pe { machine: accepted.machine, kind: accepted.kind };
            lemma_search_finds(image, target, search, 0, at);
        },
        _ => {
            let search = FooterSearchSpec {
                data_end: image.len() as u64,
                alignment: 1,
                minimum_payload_offset: 0,
            };
            lemma_search_finds(image, Target::Other, search, 0, at);
        },
    }
}

/// An executable that is neither a Mach-O file nor a PE image and does not end in the magic of a
/// footer has no runtime data; one that does end in it, with another version behind it, is refused.
pub proof fn law_without_a_footer_nothing_is_found(image: Seq<u8>)
    requires
        image.len() <= usize::MAX,
        executable::binary_format(image) == Ok::<BinaryFormat, RuntimeDataError>(
            BinaryFormat::Other,
        ),
    ensures
        image.len() < 100 || image.subrange(image.len() - 16, image.len() as int) != seq![
            0x43u8, 0x4f, 0x4e, 0x44, 0x41, 0x5f, 0x53, 0x48, 0x49, 0x50, 0x5f, 0x56, 0x30, 0x30,
            0x30, 0x31,
        ]
            ==> runtime_reader::runtime_data_in(image) == Ok::<
            Option<LocatedView>,
            RuntimeDataError,
        >(None),
        image.len() >= 100 && image.subrange(image.len() - 16, image.len() as int) == seq![
            0x43u8, 0x4f, 0x4e, 0x44, 0x41, 0x5f, 0x53, 0x48, 0x49, 0x50, 0x5f, 0x56, 0x30, 0x30,
            0x30, 0x31,
        ]
            && bytes::le_u32(image, image.len() - 20) != 1 ==> runtime_reader::runtime_data_in(
            image,
        ) == Err::<Option<LocatedView>, RuntimeDataError>(
            RuntimeDataError::FooterVersion(bytes::le_u32(image, image.len() - 20)),
        ),
{
    let search = FooterSearchSpec {
        data_end: image.len() as u64,
        alignment: 1,
        minimum_payload_offset: 0,
    };
    assert(runtime_reader::search_from(image, Target::Other, search, 1) == Ok::<
        Option<LocatedView>,
        RuntimeDataError,
    >(None));
    if image.len() >= 100 {
        let at = image.len() - 100;
        let window = image.subrange(at, at + 100);
        assert(window.subrange(80, 84) =~= image.subrange(at + 80, at + 84));
        assert(window.subrange(84, 100) =~= image.subrange(at + 84, at + 100));
        bytes::lemma_le_u32_window(window, 80, image, at + 80);
    }
}

/// The footer of an anchored PE image is read: where the anchor section is filled up with zeros
/// and the runtime data behind it, with at most seven zeros before it, ends the file or comes right
/// before an accepted certificate table, the header with the digest that the footer says and the
/// bundle behind it are the runtime data, and where the digest differs they are refused.
pub proof fn law_an_anchored_footer_is_read(image: Seq<u8>, layout: PeImageLayout, start: int)
    requires
        image.len() <= usize::MAX,
        executable::binary_format(image) == Ok::<BinaryFormat, RuntimeDataError>(BinaryFormat::Pe),
        pe::pe_layout(image) == Ok::<PeImageLayout, RuntimeDataError>(layout),
        layout.anchor is Some,
        layout.certificate matches Some(table) ==> pe::certificate::certificate_entries_error(
            image,
            table,
            0,
            0,
        ) is None,
        ({
            let at = layout.anchor->0.offset as int;
            let header_len = bytes::le_u64(image, at);
            let bundle_len = bytes::le_u64(image, at + 8);
            let end = match layout.certificate {
                Some(table) => table.offset as int,
                None => image.len() as int,
            };
            &&& image.subrange(at + 84, at + 100) == seq![
                0x43u8, 0x4f, 0x4e, 0x44, 0x41, 0x5f, 0x53, 0x48, 0x49, 0x50, 0x5f, 0x56, 0x30, 0x30,
                0x30, 0x31,
            ]
            &&& bytes::le_u32(image, at + 80) == 1
            &&& header_len <= 16 * 1024 * 1024
            &&& layout.anchor->0.raw_end <= start < layout.anchor->0.raw_end + 8
            &&& forall|i: int| at + 100 <= i < start ==> #[trigger] image[i] == 0
            &&& start + header_len + bundle_len == end
            &&& end % 8 == 0
            &&& end <= u32::MAX
        }),
    ensures
        ({
            let at = layout.anchor->0.offset as int;
            let header_len = bytes::le_u64(image, at);
            let bundle_len = bytes::le_u64(image, at + 8);
            let target = Target::Pe { machine: layout.machine, kind: layout.kind };
            runtime_reader::runtime_data_in(image) == (if digest::sha256_digest(
                image.subrange(start, start + header_len),
            )@ != image.subrange(at + 16, at + 48) {
                Err::<Option<LocatedView>, RuntimeDataError>(
                    RuntimeDataError::InvalidData("runtime data header checksum mismatch"),
                )
            } else {
                Ok(
                    Some(
                        LocatedView {
                            target: target,
                            header_bytes: image.subrange(start, start + header_len),
                            bundle: if bundle_len == 0 {
                                None
                            } else {
                                Some(
                                    BundleView {
                                        offset: (start + header_len) as u64,
                                        len: bundle_len,
                                        sha256: image.subrange(at + 48, at + 80),
                                    },
                                )
                            },
                        },
                    ),
                )
            })
        }),
{
    pe::laws::law_accepted_pe_layout(image, layout);
    let anchor = layout.anchor->0;
    let at = anchor.offset as int;
    lemma_footer_decodes(image, at);
    let header_len = bytes::le_u64(image, at);
    let content_len = (header_len + bytes::le_u64(image, at + 8)) as u64;
    assert(header_len == 0 ==> image.subrange(start, start + header_len) =~= Seq::empty());
    let section = image.subrange(at + 100, anchor.raw_end as int);
    let gap = image.subrange(anchor.raw_end as int, start);
    assert forall|i: int| 0 <= i < section.len() implies #[trigger] section[i] == 0 by {
        assert(section[i] == image[at + 100 + i]);
    }
    assert forall|i: int| 0 <= i < gap.len() implies #[trigger] gap[i] == 0 by {
        assert(gap[i] == image[anchor.raw_end + i]);
    }
    crate::align::law_aligned_is_the_next_multiple(
        anchor.raw_end + content_len,
        8,
        start + content_len,
    );
    assert(content::content_layout(anchor.raw_end, content_len) == Ok::<
        (u64, u64),
        RuntimeDataError,
    >((start as u64, (start + content_len) as u64)));
}

/// A search finds nothing where no footer ends at one of the places from `padding` on.
proof fn lemma_search_finds_nothing(
    image: Seq<u8>,
    target: Target,
    search: FooterSearchSpec,
    padding: nat,
)
    requires
        search.data_end <= image.len(),
        search.alignment > 0,
        forall|end: int|
            100 <= end <= search.data_end - padding && search.data_end < end + search.alignment
                ==> #[trigger] image.subrange(end - 16, end) != seq![
                    0x43u8, 0x4f, 0x4e, 0x44, 0x41, 0x5f, 0x53, 0x48, 0x49, 0x50, 0x5f, 0x56, 0x30, 0x30,
                    0x30, 0x31,
                ],
    ensures
        runtime_reader::search_from(image, target, search, padding) == Ok::<
            Option<LocatedView>,
            RuntimeDataError,
        >(None),
    decreases search.alignment - padding,
{
    if padding < search.alignment {
        let end = search.data_end - padding;
        if end >= 100 {
            assert(image.subrange(end - 16, end) != footer::footer_magic());
        }
        lemma_search_finds_nothing(image, target, search, padding + 1);
    }
}

/// A Mach-O executable whose layout is accepted is searched for a footer exactly where its
/// `__LINKEDIT` segment ends it, any code signature ends the segment behind all other link-edit
/// data, and it is for a CPU that runtimes are built for.
pub proof fn law_which_macho_files_are_searched(image: Seq<u8>, found: MachOLayout)
    requires
        image.len() <= usize::MAX,
        layout::macho_layout(image) == Ok::<MachOLayout, RuntimeDataError>(found),
    ensures
        runtime_reader::macho_search(image) is Ok <==> {
            &&& found.linkedit_fileoff + found.linkedit_filesize == image.len()
            &&& found.linkedit_fileoff == found.max_segment_fileoff
            &&& found.linkedit_vmaddr == found.max_segment_vmaddr
            &&& found.prefix_len <= found.linkedit_fileoff
            &&& match found.code_signature {
                Some((_, offset, size)) => {
                    &&& size > 0
                    &&& offset + size == image.len()
                    &&& found.linkedit_fileoff <= offset
                    &&& found.max_non_signature_data_end <= offset
                    &&& offset % 16 == 0
                },
                None => true,
            }
            &&& found.cpu_type == 0x0100_0007 || found.cpu_type == 0x0100_000c
        },
{
}

/// A Mach-O executable that is searched has no runtime data where no footer ends right before the
/// end of the file, or less than sixteen bytes before the code signature.
pub proof fn law_nothing_is_found_in_a_plain_macho_file(image: Seq<u8>, found: MachOLayout)
    requires
        image.len() <= usize::MAX,
        executable::binary_format(image) == Ok::<BinaryFormat, RuntimeDataError>(
            BinaryFormat::MachO64,
        ),
        layout::macho_layout(image) == Ok::<MachOLayout, RuntimeDataError>(found),
        runtime_reader::macho_search(image) is Ok,
        forall|end: int|
            100 <= end && (match found.code_signature {
                Some((_, offset, _)) => end <= offset < end + 16,
                None => end == image.len(),
            }) ==> #[trigger] image.subrange(end - 16, end) != seq![
                    0x43u8, 0x4f, 0x4e, 0x44, 0x41, 0x5f, 0x53, 0x48, 0x49, 0x50, 0x5f, 0x56, 0x30, 0x30,
                    0x30, 0x31,
                ],
    ensures
        runtime_reader::runtime_data_in(image) == Ok::<Option<LocatedView>, RuntimeDataError>(None),
{
    let (search, cpu_type, cpu_subtype) = runtime_reader::macho_search(image)->Ok_0;
    lemma_search_finds_nothing(image, Target::MachO { cpu_type, cpu_subtype }, search, 0);
}

/// What is found in a PE image without an anchor section that does not end in a footer: nothing
/// where it is not signed, or where it is and no magic of a footer ends less than eight bytes
/// before its certificate table. With such a magic, a signed image is refused, and so is one whose
/// certificate table is.
pub proof fn law_without_an_anchor_nothing_is_found(image: Seq<u8>, layout: PeImageLayout)
    requires
        image.len() <= usize::MAX,
        executable::binary_format(image) == Ok::<BinaryFormat, RuntimeDataError>(BinaryFormat::Pe),
        pe::pe_layout(image) == Ok::<PeImageLayout, RuntimeDataError>(layout),
        layout.anchor is None,
    ensures
        match layout.certificate {
            None => image.len() < 100 || image.subrange(image.len() - 16, image.len() as int)
                != seq![
                    0x43u8, 0x4f, 0x4e, 0x44, 0x41, 0x5f, 0x53, 0x48, 0x49, 0x50, 0x5f, 0x56, 0x30, 0x30,
                    0x30, 0x31,
                ] ==> runtime_reader::runtime_data_in(image) == Ok::<
                Option<LocatedView>,
                RuntimeDataError,
            >(None),
            Some(table) => match pe::certificate::certificate_entries_error(image, table, 0, 0) {
                Some(error) => runtime_reader::runtime_data_in(image) == Err::<
                    Option<LocatedView>,
                    RuntimeDataError,
                >(error),
                None => {
                    let is_stamped = exists|end: int|
                        16 <= end <= table.offset < end + 8 && #[trigger] image.subrange(
                            end - 16,
                            end,
                        ) == seq![
                            0x43u8, 0x4f, 0x4e, 0x44, 0x41, 0x5f, 0x53, 0x48, 0x49, 0x50, 0x5f, 0x56, 0x30, 0x30,
                            0x30, 0x31,
                        ];
                    runtime_reader::runtime_data_in(image) == (if is_stamped {
                        Err::<Option<LocatedView>, RuntimeDataError>(
                            RuntimeDataError::InvalidData(
                                "signed PE runtime data has no authenticated anchor section",
                            ),
                        )
                    } else {
                        Ok(None)
                    })
                },
            },
        },
{
    match layout.certificate {
        None => {
            let search = FooterSearchSpec {
                data_end: image.len() as u64,
                alignment: 1,
                minimum_payload_offset: layout.max_raw_end,
            };
            let target = Target::Pe { machine: layout.machine, kind: layout.kind };
            if image.len() < 100 || image.subrange(image.len() - 16, image.len() as int)
                != footer::footer_magic() {
                lemma_search_finds_nothing(image, target, search, 0);
            }
        },
        Some(table) => {
            let search = FooterSearchSpec {
                data_end: table.offset,
                alignment: 8,
                minimum_payload_offset: layout.max_raw_end,
            };
            if runtime_reader::magic_exists(image, search) {
                let padding = choose|padding: int|
                    0 <= padding < search.alignment && padding + 16 <= search.data_end
                        && #[trigger] footer::magic_ends_at(image, search.data_end - padding);
                let end = search.data_end - padding;
                assert(image.subrange(end - 16, end) == footer::footer_magic());
            }
            if exists|end: int|
                16 <= end <= table.offset < end + 8 && #[trigger] image.subrange(end - 16, end)
                    == footer::footer_magic() {
                let end = choose|end: int|
                    16 <= end <= table.offset < end + 8 && #[trigger] image.subrange(end - 16, end)
                        == footer::footer_magic();
                let padding = table.offset - end;
                assert(footer::magic_ends_at(image, search.data_end - padding));
            }
        },
    }
}

/// A footer at the end of an executable that is neither a Mach-O file nor a PE image is refused
/// where it speaks of more bytes than come before it, or of a header that is too long.
pub proof fn law_a_footer_that_reaches_too_far_is_refused(image: Seq<u8>)
    requires
        100 <= image.len() <= usize::MAX,
        executable::binary_format(image) == Ok::<BinaryFormat, RuntimeDataError>(
            BinaryFormat::Other,
        ),
        image.subrange(image.len() - 16, image.len() as int) == seq![
            0x43u8, 0x4f, 0x4e, 0x44, 0x41, 0x5f, 0x53, 0x48, 0x49, 0x50, 0x5f, 0x56, 0x30, 0x30,
            0x30, 0x31,
        ],
        bytes::le_u32(image, image.len() - 20) == 1,
    ensures
        ({
            let at = image.len() - 100;
            let header_len = bytes::le_u64(image, at);
            let bundle_len = bytes::le_u64(image, at + 8);
            &&& header_len + bundle_len > u64::MAX ==> runtime_reader::runtime_data_in(image)
                == Err::<Option<LocatedView>, RuntimeDataError>(
                RuntimeDataError::InvalidData("runtime data length overflow"),
            )
            &&& at < header_len + bundle_len <= u64::MAX ==> runtime_reader::runtime_data_in(image)
                == Err::<Option<LocatedView>, RuntimeDataError>(
                RuntimeDataError::InvalidData("runtime data footer points before start of file"),
            )
            &&& header_len + bundle_len <= at && header_len > 16 * 1024 * 1024
                ==> runtime_reader::runtime_data_in(image) == Err::<
                Option<LocatedView>,
                RuntimeDataError,
            >(RuntimeDataError::HeaderTooLarge(header_len))
        }),
{
    let at = image.len() - 100;
    lemma_footer_decodes(image, at);
    let search = FooterSearchSpec {
        data_end: image.len() as u64,
        alignment: 1,
        minimum_payload_offset: 0,
    };
    lemma_search_finds(image, Target::Other, search, 0, at);
}

} // verus!
