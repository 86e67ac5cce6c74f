//! What a signature does to the runtime data of a Mach-O executable: nothing.

use vstd::prelude::*;

use crate::align;
use crate::bytes;
use crate::error::RuntimeDataError;
use crate::footer;
use crate::footer::{FOOTER_LEN, FOOTER_MAGIC_LEN};
use crate::macho::laws;
use crate::macho::layout;
use crate::macho::{MachOLayout, MACHO_SIGNATURE_ALIGNMENT};
use crate::object_file::MACHO_HEADER_LEN;
use crate::runtime_reader;
use crate::runtime_reader::{FooterSearchSpec, LocatedView, Target};

verus! {

/// Two files of the same length that start with the same header and load commands have the same
/// layout.
proof fn lemma_same_layout(image: Seq<u8>, found: MachOLayout, other: Seq<u8>)
    requires
        image.len() <= usize::MAX,
        other.len() == image.len(),
        layout::macho_layout(image) == Ok::<MachOLayout, RuntimeDataError>(found),
        other.take(found.prefix_len as int) == image.take(found.prefix_len as int),
    ensures
        layout::macho_layout(other) == layout::macho_layout(image),
{
    laws::law_accepted_macho_layout(image, found);
    let len = found.prefix_len as int;
    layout::lemma_header_of_prefix(image, len);
    layout::lemma_header_of_prefix(other, len);
    let header = layout::macho_header(image);
    assert(layout::macho_header(other) == header);
    assert(other.take(MACHO_HEADER_LEN + header.commands_len) == image.take(
        MACHO_HEADER_LEN + header.commands_len,
    ));
}

/// The runtime data of which a footer speaks is the same in two files that are the same up to
/// the footer.
proof fn lemma_same_data_at_footer(
    image: Seq<u8>,
    other: Seq<u8>,
    target: Target,
    footer_start: u64,
    image_minimum: u64,
    other_minimum: u64,
    from: int,
    footer_data: Seq<u8>,
)
    requires
        0 <= from,
        from <= image_minimum,
        other_minimum <= image_minimum,
        footer_start <= image.len(),
        footer_start <= other.len(),
        forall|i: int| from <= i < footer_start ==> #[trigger] other[i] == image[i],
        image_minimum == other_minimum || runtime_reader::data_at_footer(
            image,
            target,
            footer_start,
            image_minimum,
            footer_data,
        ) is Ok,
    ensures
        runtime_reader::data_at_footer(other, target, footer_start, other_minimum, footer_data)
            == runtime_reader::data_at_footer(
            image,
            target,
            footer_start,
            image_minimum,
            footer_data,
        ),
{
    if let Ok(Some(footer)) = footer::decoded_footer(footer_data) {
        let payload_len = footer.header_len + footer.bundle_len;
        if payload_len <= footer_start && footer_start - payload_len >= image_minimum {
            let start = footer_start - payload_len;
            let end = start + footer.header_len;
            assert(other.subrange(start, end) =~= image.subrange(start, end));
        }
    }
}

/// A search for a footer finds the same in two files that are the same up to its end.
proof fn lemma_same_search(
    image: Seq<u8>,
    other: Seq<u8>,
    target: Target,
    search: FooterSearchSpec,
    padding: nat,
)
    requires
        search.data_end <= image.len(),
        search.data_end <= other.len(),
        forall|i: int| 0 <= i < search.data_end ==> #[trigger] other[i] == image[i],
    ensures
        runtime_reader::search_from(other, target, search, padding)
            == runtime_reader::search_from(image, target, search, padding),
    decreases runtime_reader::footer_places(search) - padding,
{
    let footer_end = search.data_end - padding;
    let footer_start = footer_end - FOOTER_LEN;
    if padding < runtime_reader::footer_places(search) {
        lemma_same_search(image, other, target, search, padding + 1);
        if footer_start >= 0 {
            let magic_start = footer_end - FOOTER_MAGIC_LEN;
            assert(other.subrange(magic_start, footer_end) =~= image.subrange(
                magic_start,
                footer_end,
            ));
            assert(other.subrange(footer_end, search.data_end as int) =~= image.subrange(
                footer_end,
                search.data_end as int,
            ));
            assert(other.subrange(footer_start, footer_end) =~= image.subrange(
                footer_start,
                footer_end,
            ));
            lemma_same_data_at_footer(
                image,
                other,
                target,
                footer_start as u64,
                search.minimum_payload_offset,
                search.minimum_payload_offset,
                0,
                image.subrange(footer_start, footer_end),
            );
        }
    }
}

/// What lies inside a code signature has no part in the runtime data: two executables that
/// differ in nothing but the contents of their code signatures hold the same runtime data, or are
/// refused for the same reason.
pub proof fn law_signatures_hold_no_runtime_data(
    image: Seq<u8>,
    found: MachOLayout,
    command: usize,
    offset: u64,
    size: u64,
    other: Seq<u8>,
)
    requires
        image.len() <= usize::MAX,
        layout::macho_layout(image) == Ok::<MachOLayout, RuntimeDataError>(found),
        found.code_signature == Some((command, offset, size)),
        found.prefix_len <= offset <= image.len(),
        other.len() == image.len(),
        other.take(offset as int) == image.take(offset as int),
    ensures
        runtime_reader::macho_runtime_data(other) == runtime_reader::macho_runtime_data(image),
{
    let len = found.prefix_len as int;
    let end = offset as int;
    laws::law_accepted_macho_layout(image, found);
    assert(other.take(len) =~= other.take(end).take(len));
    assert(image.take(len) =~= image.take(end).take(len));
    lemma_same_layout(image, found, other);
    assert forall|i: int| 0 <= i < end implies #[trigger] other[i] == image[i] by {
        assert(other.take(end)[i] == image.take(end)[i]);
    }
    if let Ok((search, cpu_type, cpu_subtype)) = runtime_reader::macho_search(image) {
        lemma_same_search(
            image,
            other,
            Target::MachO { cpu_type, cpu_subtype },
            search,
            0,
        );
    }
}

/// Whether `signed` holds the link-edit data of the unsigned executable `image`, from `from` on,
/// and zeros between it and the code signature at `offset`, which starts at the next multiple of
/// the alignment.
pub open spec fn holds_unsigned_data(image: Seq<u8>, from: int, signed: Seq<u8>, offset: int) -> bool {
    &&& offset == align::aligned(image.len() as int, MACHO_SIGNATURE_ALIGNMENT as int)
    &&& offset <= signed.len()
    &&& forall|i: int| from <= i < image.len() ==> #[trigger] signed[i] == image[i]
    &&& forall|i: int| image.len() <= i < offset ==> #[trigger] signed[i] == 0
}

/// No footer ends in the zeros in front of a code signature, so the search goes on to where the
/// unsigned executable ended.
proof fn lemma_search_passes_padding(
    image: Seq<u8>,
    from: int,
    signed: Seq<u8>,
    target: Target,
    search: FooterSearchSpec,
    padding: nat,
)
    requires
        FOOTER_LEN <= image.len(),
        holds_unsigned_data(image, from, signed, search.data_end as int),
        search.alignment == MACHO_SIGNATURE_ALIGNMENT,
        image.len() + padding <= search.data_end,
    ensures
        runtime_reader::search_from(signed, target, search, padding)
            == runtime_reader::search_from(
            signed,
            target,
            search,
            (search.data_end - image.len()) as nat,
        ),
    decreases search.data_end - image.len() - padding,
{
    align::lemma_aligned(image.len() as int, MACHO_SIGNATURE_ALIGNMENT as int);
    let footer_end = search.data_end - padding;
    if image.len() + padding < search.data_end {
        assert(!footer::magic_ends_at(signed, footer_end)) by {
            let window = signed.subrange(footer_end - FOOTER_MAGIC_LEN, footer_end);
            assert(window[15] == signed[footer_end - 1]);
            assert(signed[footer_end - 1] == 0);
            assert(footer::footer_magic()[15] == 0x31);
        }
        lemma_search_passes_padding(image, from, signed, target, search, padding + 1);
    }
}

/// A stamped executable can be signed: what was read from it before is read from it afterwards,
/// where the signature comes behind the link-edit data, at the next multiple of its alignment,
/// and the signed executable is one that can be read.
pub proof fn law_signing_keeps_macho_runtime_data(
    image: Seq<u8>,
    unsigned: MachOLayout,
    located: LocatedView,
    signed: Seq<u8>,
    signed_layout: MachOLayout,
    command: usize,
    offset: u64,
    size: u64,
)
    requires
        image.len() <= usize::MAX,
        signed.len() <= usize::MAX,
        layout::macho_layout(image) == Ok::<MachOLayout, RuntimeDataError>(unsigned),
        unsigned.code_signature is None,
        runtime_reader::macho_runtime_data(image) == Ok::<Option<LocatedView>, RuntimeDataError>(
            Some(located),
        ),
        layout::macho_layout(signed) == Ok::<MachOLayout, RuntimeDataError>(signed_layout),
        runtime_reader::macho_search(signed) is Ok,
        signed_layout.code_signature == Some((command, offset, size)),
        signed_layout.cpu_type == unsigned.cpu_type,
        signed_layout.cpu_subtype == unsigned.cpu_subtype,
        signed_layout.linkedit_fileoff == unsigned.linkedit_fileoff,
        holds_unsigned_data(image, unsigned.linkedit_fileoff as int, signed, offset as int),
    ensures
        runtime_reader::macho_runtime_data(signed) == Ok::<Option<LocatedView>, RuntimeDataError>(
            Some(located),
        ),
{
    let from = unsigned.linkedit_fileoff as int;
    let len = image.len() as int;
    let target = Target::MachO {
        cpu_type: unsigned.cpu_type,
        cpu_subtype: unsigned.cpu_subtype,
    };
    let search = FooterSearchSpec {
        data_end: offset,
        alignment: MACHO_SIGNATURE_ALIGNMENT,
        minimum_payload_offset: signed_layout.linkedit_fileoff,
    };
    let padding = (offset - len) as nat;
    align::lemma_aligned(len, MACHO_SIGNATURE_ALIGNMENT as int);
    laws::law_accepted_macho_layout(image, unsigned);
    lemma_unsigned_footer(image, target, unsigned.linkedit_fileoff);
    lemma_search_passes_padding(image, from, signed, target, search, 0);
    let footer_start = len - FOOTER_LEN;
    assert(signed.subrange(footer_start, len) =~= image.subrange(footer_start, len));
    assert(signed.subrange(len - FOOTER_MAGIC_LEN, len) =~= image.subrange(
        len - FOOTER_MAGIC_LEN,
        len,
    ));
    assert(bytes::all_zero(signed.subrange(len, offset as int)));
    lemma_same_data_at_footer(
        image,
        signed,
        target,
        footer_start as u64,
        unsigned.linkedit_fileoff,
        signed_layout.linkedit_fileoff,
        from,
        image.subrange(footer_start, len),
    );
    assert(runtime_reader::search_from(signed, target, search, padding)
        == runtime_reader::data_at_footer(
        signed,
        target,
        footer_start as u64,
        search.minimum_payload_offset,
        signed.subrange(footer_start, len),
    ));
}

/// Runtime data that is found at the end of a file has its footer there.
proof fn lemma_unsigned_footer(image: Seq<u8>, target: Target, minimum: u64)
    requires
        image.len() <= u64::MAX,
        runtime_reader::search_from(
            image,
            target,
            FooterSearchSpec {
                data_end: image.len() as u64,
                alignment: 1,
                minimum_payload_offset: minimum,
            },
            0,
        ) matches Ok(Some(_)),
    ensures
        minimum + FOOTER_LEN <= image.len(),
        footer::magic_ends_at(image, image.len() as int),
        runtime_reader::search_from(
            image,
            target,
            FooterSearchSpec {
                data_end: image.len() as u64,
                alignment: 1,
                minimum_payload_offset: minimum,
            },
            0,
        ) == runtime_reader::data_at_footer(
            image,
            target,
            (image.len() - FOOTER_LEN) as u64,
            minimum,
            image.subrange(image.len() - FOOTER_LEN, image.len() as int),
        ),
{
    reveal_with_fuel(runtime_reader::search_from, 2);
}

} // verus!
