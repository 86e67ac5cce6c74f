//! What holds of stamping and reading together.

use vstd::prelude::*;

use crate::bundle;
use crate::bytes;
use crate::digest;
use crate::error::RuntimeDataError;
use crate::executable;
use crate::executable::BinaryFormat;
use crate::footer::FOOTER_LEN;
use crate::macho;
use crate::object_file;
use crate::object_file::DOS_HEADER_LEN;
use crate::payload;
use crate::pe;
use crate::runtime_data;
use crate::runtime_reader;
use crate::runtime_reader::{FooterSearchSpec, LocatedView, Target, MAX_HEADER_LEN};

verus! {

/// Whether the stamp left the executable what it was: of the same kind, and, where it is a PE
/// image, with its NT headers where they were.
pub open spec fn is_of_the_same_kind(image: Seq<u8>, stamped: Seq<u8>) -> bool {
    &&& executable::binary_format(stamped) == executable::binary_format(image)
    &&& executable::binary_format(image) == Ok::<BinaryFormat, RuntimeDataError>(BinaryFormat::Pe)
        ==> object_file::nt_headers_offset(stamped) == object_file::nt_headers_offset(image)
}

/// Whether a stamp of this header and this bundle leaves the executable `image` what it is.
///
/// It always does for a Mach-O executable. It does for a PE image whose NT headers it does not
/// move. It does for any other file, unless that is shorter than a magic and goes on, with what is
/// appended, as one.
pub open spec fn keeps_its_kind(image: Seq<u8>, header: Seq<u8>, embedded: Seq<u8>) -> bool {
    match executable::binary_format(image) {
        Ok(BinaryFormat::Pe) => pe::round_trip::keeps_nt_headers(image),
        Ok(BinaryFormat::Other) => image.len() >= 4 || executable::binary_format(
            (image + payload::payload_bytes(header, embedded)).take(4),
        ) == Ok::<BinaryFormat, RuntimeDataError>(BinaryFormat::Other),
        _ => true,
    }
}

/// Whether what was found in `stamped` is this header and this bundle.
pub open spec fn holds(stamped: Seq<u8>, found: LocatedView, header: Seq<u8>, embedded: Seq<u8>) -> bool {
    &&& found.header_bytes == header
    &&& match found.bundle {
        Some(view) => {
            &&& view.len == embedded.len()
            &&& embedded.len() > 0
            &&& bundle::bundle_bytes(view, stamped) == embedded
            &&& forall|truncated: &'static str| #[trigger]
                bundle::bundle_error(view, stamped, truncated) is None
        },
        None => embedded.len() == 0,
    }
}

/// What is found of a payload is the header and the bundle that it holds.
proof fn lemma_found_payload(
    stamped: Seq<u8>,
    target: Target,
    header: Seq<u8>,
    embedded: Seq<u8>,
    offset: int,
)
    requires
        stamped.len() <= u64::MAX,
        0 <= offset,
        offset + embedded.len() <= stamped.len(),
        stamped.subrange(offset, offset + embedded.len()) == embedded,
    ensures
        holds(
            stamped,
            runtime_reader::stamped_data(target, header, embedded, offset),
            header,
            embedded,
        ),
{
}

/// An executable that is neither Mach-O nor PE reads back as it was stamped, as long as the stamp
/// does not make it look like one of them.
pub proof fn law_stamped_other_reads_back(
    image: Seq<u8>,
    header: Seq<u8>,
    embedded: Seq<u8>,
    platform: Seq<char>,
    stamped: Seq<u8>,
)
    requires
        stamped.len() <= u64::MAX,
        header.len() <= MAX_HEADER_LEN,
        executable::binary_format(image) == Ok::<BinaryFormat, RuntimeDataError>(
            BinaryFormat::Other,
        ),
        runtime_data::stamped_image(image, header, embedded, embedded.len() as u64, platform)
            == Ok::<Seq<u8>, RuntimeDataError>(stamped),
        keeps_its_kind(image, header, embedded),
    ensures
        runtime_reader::runtime_data_in(stamped) == Ok::<Option<LocatedView>, RuntimeDataError>(
            Some(
                runtime_reader::stamped_data(
                    Target::Other,
                    header,
                    embedded,
                    (image.len() + header.len()) as int,
                ),
            ),
        ),
        stamped.subrange(
            (image.len() + header.len()) as int,
            (image.len() + header.len() + embedded.len()) as int,
        ) == embedded,
{
    assert(stamped == image + payload::payload_bytes(header, embedded));
    lemma_other_keeps_its_kind(image, header, embedded);
    lemma_appended_payload(image, header, embedded);
}

/// What is appended to an executable that is neither Mach-O nor PE leaves its kind as it is in
/// exactly the cases in which it is said to.
proof fn lemma_other_keeps_its_kind(image: Seq<u8>, header: Seq<u8>, embedded: Seq<u8>)
    requires
        executable::binary_format(image) == Ok::<BinaryFormat, RuntimeDataError>(
            BinaryFormat::Other,
        ),
    ensures
        executable::binary_format(image + payload::payload_bytes(header, embedded))
            == executable::binary_format(image) <==> keeps_its_kind(image, header, embedded),
{
    let stamped = image + payload::payload_bytes(header, embedded);
    let start = stamped.take(4);
    crate::footer::law_footer_round_trip(payload::footer_of(header, embedded));
    assert(stamped.len() >= FOOTER_LEN);
    assert forall|i: int| 0 <= i < image.len() implies stamped[i] == image[i] by {}
    assert forall|i: int| 0 <= i < 4 implies start[i] == stamped[i] by {}
}

/// A stamp leaves an executable what it is in exactly the cases in which it is said to.
pub proof fn law_stamp_keeps_the_kind(
    image: Seq<u8>,
    header: Seq<u8>,
    embedded: Seq<u8>,
    bundle_len: u64,
    platform: Seq<char>,
    stamped: Seq<u8>,
)
    requires
        image.len() <= usize::MAX,
        stamped.len() <= usize::MAX,
        header.len() <= MAX_HEADER_LEN,
        header.len() + embedded.len() <= u64::MAX,
        runtime_data::stamped_image(image, header, embedded, bundle_len, platform) == Ok::<
            Seq<u8>,
            RuntimeDataError,
        >(stamped),
    ensures
        is_of_the_same_kind(image, stamped) <==> keeps_its_kind(image, header, embedded),
{
    lemma_bundle_len(image, header, embedded, bundle_len, platform, stamped);
    match executable::binary_format(image) {
        Ok(BinaryFormat::MachO64) => {
            macho::round_trip::lemma_stamped_magic(image, header, embedded, platform, stamped);
        },
        Ok(BinaryFormat::Pe) => {
            pe::round_trip::law_stamp_keeps_nt_headers(
                image,
                header,
                embedded,
                platform,
                stamped,
            );
            if keeps_its_kind(image, header, embedded) {
                pe::round_trip::law_stamped_pe_reads_back(
                    image,
                    header,
                    embedded,
                    platform,
                    stamped,
                );
            }
        },
        _ => {
            lemma_other_keeps_its_kind(image, header, embedded);
        },
    }
}

/// A payload that was appended to a file is found at its end.
proof fn lemma_appended_payload(image: Seq<u8>, header: Seq<u8>, embedded: Seq<u8>)
    requires
        image.len() + payload::payload_bytes(header, embedded).len() <= u64::MAX,
        header.len() <= MAX_HEADER_LEN,
    ensures
        ({
            let stamped = image + payload::payload_bytes(header, embedded);
            let offset = (image.len() + header.len()) as int;
            &&& runtime_reader::search_from(
                stamped,
                Target::Other,
                FooterSearchSpec {
                    data_end: stamped.len() as u64,
                    alignment: 1,
                    minimum_payload_offset: 0,
                },
                0,
            ) == Ok::<Option<LocatedView>, RuntimeDataError>(
                Some(runtime_reader::stamped_data(Target::Other, header, embedded, offset)),
            )
            &&& stamped.subrange(offset, offset + embedded.len()) == embedded
        }),
{
    let payload = payload::payload_bytes(header, embedded);
    let stamped = image + payload;
    crate::footer::law_footer_round_trip(payload::footer_of(header, embedded));
    assert(payload.len() == header.len() + embedded.len() + FOOTER_LEN);
    assert(stamped.skip(stamped.len() - payload.len()) =~= payload);
    macho::round_trip::lemma_payload_at_end(
        stamped,
        Target::Other,
        FooterSearchSpec {
            data_end: stamped.len() as u64,
            alignment: 1,
            minimum_payload_offset: 0,
        },
        header,
        embedded,
    );
}

/// A header that is a JSON object leaves every executable what it is, as long as the NT headers of
/// a PE image start behind its DOS header.
pub proof fn law_json_headers_keep_the_kind(image: Seq<u8>, header: Seq<u8>, embedded: Seq<u8>)
    requires
        header.len() > 0,
        header[0] == 0x7b,
        executable::binary_format(image) == Ok::<BinaryFormat, RuntimeDataError>(BinaryFormat::Pe)
            ==> DOS_HEADER_LEN <= object_file::nt_headers_offset(image),
    ensures
        keeps_its_kind(image, header, embedded),
{
    let stamped = image + payload::payload_bytes(header, embedded);
    crate::footer::law_footer_round_trip(payload::footer_of(header, embedded));
    assert(stamped.len() >= FOOTER_LEN);
    if executable::binary_format(image) == Ok::<BinaryFormat, RuntimeDataError>(BinaryFormat::Pe) {
        pe::round_trip::law_headers_behind_the_dos_header_are_kept(image);
    } else if image.len() < 4 {
        let start = stamped.take(4);
        assert forall|i: int| 0 <= i < image.len() implies start[i] == image[i] by {}
        assert(start[image.len() as int] == 0x7b);
    }
}

/// What was appended to an executable is read back from it: the header byte for byte, and the
/// bundle, whole and with the digest that the footer promises.
///
/// Left out are stamps that change what kind of executable the file looks like.
pub proof fn law_read_gives_back_what_was_appended(
    image: Seq<u8>,
    schema_version: u32,
    platform: Seq<char>,
    header: Seq<u8>,
    embedded: Seq<u8>,
    bundle_len: u64,
    stamped: Seq<u8>,
    found: LocatedView,
)
    requires
        image.len() <= usize::MAX,
        stamped.len() <= usize::MAX,
        runtime_data::appended(image, schema_version, platform, header, embedded, bundle_len)
            == Ok::<(Seq<u8>, LocatedView), RuntimeDataError>((stamped, found)),
        keeps_its_kind(image, header, embedded),
    ensures
        runtime_reader::runtime_data_in(stamped) == Ok::<Option<LocatedView>, RuntimeDataError>(
            Some(found),
        ),
        holds(stamped, found, header, embedded),
        bundle_len == embedded.len(),
        found.header_bytes == header,
        match found.bundle {
            Some(view) => {
                &&& embedded.len() > 0
                &&& view.len == embedded.len()
                &&& view.offset + view.len <= stamped.len()
                &&& stamped.subrange(view.offset as int, view.offset + view.len) == embedded
                &&& view.sha256 == digest::sha256_digest(embedded)@
            },
            None => embedded.len() == 0,
        },
{
    lemma_bundle_len(image, header, embedded, bundle_len, platform, stamped);
    law_stamp_keeps_the_kind(image, header, embedded, bundle_len, platform, stamped);
    match executable::binary_format(image) {
        Ok(BinaryFormat::MachO64) => {
            macho::round_trip::law_stamped_macho_reads_back(
                image,
                header,
                embedded,
                platform,
                stamped,
            );
            lemma_found_payload(
                stamped,
                found.target,
                header,
                embedded,
                stamped.len() - FOOTER_LEN - embedded.len(),
            );
        },
        Ok(BinaryFormat::Pe) => {
            pe::round_trip::law_stamped_pe_reads_back(image, header, embedded, platform, stamped);
            let offset = stamped.len() - embedded.len();
            assert(stamped.skip(offset) =~= stamped.subrange(offset, offset + embedded.len()));
            lemma_found_payload(stamped, found.target, header, embedded, offset);
        },
        _ => {
            law_stamped_other_reads_back(image, header, embedded, platform, stamped);
            assert(stamped.len() == image.len() + payload::payload_bytes(header, embedded).len());
            lemma_found_payload(
                stamped,
                Target::Other,
                header,
                embedded,
                (image.len() + header.len()) as int,
            );
        },
    }
}

/// A header and a bundle that were stamped onto an executable can be read from it, so that
/// appending them succeeds; for a Mach-O executable, where its `__LINKEDIT` segment has room to
/// grow.
///
/// Left out are stamps that change what kind of executable the file looks like.
pub proof fn law_what_was_stamped_can_be_read(
    image: Seq<u8>,
    schema_version: u32,
    platform: Seq<char>,
    header: Seq<u8>,
    embedded: Seq<u8>,
    bundle_len: u64,
    stamped: Seq<u8>,
)
    requires
        image.len() <= usize::MAX,
        stamped.len() <= usize::MAX,
        payload::preparation_error(schema_version, header.len() as int, bundle_len) is None,
        runtime_data::stamped_image(image, header, embedded, bundle_len, platform) == Ok::<
            Seq<u8>,
            RuntimeDataError,
        >(stamped),
        keeps_its_kind(image, header, embedded),
        executable::binary_format(image) == Ok::<BinaryFormat, RuntimeDataError>(
            BinaryFormat::MachO64,
        ) ==> macho::growth::has_room_to_grow(
            image,
            macho::round_trip::sizes_of(image, header, embedded),
        ),
    ensures
        runtime_data::appended(image, schema_version, platform, header, embedded, bundle_len)
            matches Ok((executable, _)) && executable == stamped,
{
    lemma_bundle_len(image, header, embedded, bundle_len, platform, stamped);
    law_stamp_keeps_the_kind(image, header, embedded, bundle_len, platform, stamped);
    match executable::binary_format(image) {
        Ok(BinaryFormat::MachO64) => {
            macho::growth::law_stamped_macho_can_be_read(
                image,
                header,
                embedded,
                platform,
                stamped,
            );
        },
        Ok(BinaryFormat::Pe) => {
            pe::round_trip::law_stamped_pe_reads_back(image, header, embedded, platform, stamped);
        },
        _ => {
            law_stamped_other_reads_back(image, header, embedded, platform, stamped);
        },
    }
}

/// A stamp is written exactly where the header has the one schema version and is no longer than a
/// reader takes, all lengths fit, the executable can be stamped, and the stamp is found again.
pub proof fn law_when_a_stamp_is_written(
    image: Seq<u8>,
    schema_version: u32,
    platform: Seq<char>,
    header: Seq<u8>,
    embedded: Seq<u8>,
    bundle_len: u64,
)
    ensures
        runtime_data::appended(image, schema_version, platform, header, embedded, bundle_len) is Ok
            <==> {
            &&& schema_version == 1
            &&& header.len() <= 16 * 1024 * 1024
            &&& header.len() + bundle_len + 100 <= u64::MAX
            &&& runtime_data::stamped_image(
                image,
                header,
                embedded,
                bundle_len,
                platform,
            ) matches Ok(stamped) && runtime_reader::runtime_data_in(stamped) matches Ok(Some(_))
        },
        runtime_data::appended(
            image,
            schema_version,
            platform,
            header,
            embedded,
            bundle_len,
        ) matches Ok((stamped, found)) ==> {
            &&& runtime_data::stamped_image(image, header, embedded, bundle_len, platform) == Ok::<
                Seq<u8>,
                RuntimeDataError,
            >(stamped)
            &&& runtime_reader::runtime_data_in(stamped) == Ok::<
                Option<LocatedView>,
                RuntimeDataError,
            >(Some(found))
        },
{
}

/// Each kind of executable is stamped and read in its own way, and a Mach-O file of another kind
/// than the little-endian 64-bit one in none.
pub proof fn law_each_kind_has_its_own_stamp(
    image: Seq<u8>,
    header: Seq<u8>,
    embedded: Seq<u8>,
    bundle_len: u64,
    platform: Seq<char>,
)
    ensures
        ({
            let stamped = runtime_data::stamped_image(
                image,
                header,
                embedded,
                bundle_len,
                platform,
            );
            let found = runtime_reader::runtime_data_in(image);
            match executable::binary_format(image) {
                Err(error) => {
                    &&& stamped == Err::<Seq<u8>, RuntimeDataError>(error)
                    &&& found == Err::<Option<LocatedView>, RuntimeDataError>(error)
                },
                Ok(BinaryFormat::MachO64) => {
                    &&& stamped == macho::stamp::stamped_macho(
                        image,
                        header,
                        embedded,
                        bundle_len,
                        platform,
                    )
                    &&& found == runtime_reader::macho_runtime_data(image)
                },
                Ok(BinaryFormat::Pe) => {
                    &&& stamped == pe::stamp::stamped_pe(
                        image,
                        header,
                        embedded,
                        bundle_len,
                        platform,
                    )
                    &&& found == runtime_reader::pe_runtime_data(image)
                },
                Ok(BinaryFormat::UnsupportedMachO(description)) => {
                    &&& stamped == Err::<Seq<u8>, RuntimeDataError>(
                        RuntimeDataError::UnsupportedMachO(description),
                    )
                    &&& found == Err::<Option<LocatedView>, RuntimeDataError>(
                        RuntimeDataError::UnsupportedMachO(description),
                    )
                },
                Ok(BinaryFormat::Other) => true,
            }
        }),
{
}

/// A bundle that was stamped has the length that was expected of it.
proof fn lemma_bundle_len(
    image: Seq<u8>,
    header: Seq<u8>,
    embedded: Seq<u8>,
    bundle_len: u64,
    platform: Seq<char>,
    stamped: Seq<u8>,
)
    requires
        runtime_data::stamped_image(image, header, embedded, bundle_len, platform) == Ok::<
            Seq<u8>,
            RuntimeDataError,
        >(stamped),
    ensures
        bundle_len == embedded.len(),
{
}

/// A stamp on an executable that is neither a Mach-O file nor a PE image leaves it as it is, in
/// front of the header, the bundle and their footer; it succeeds exactly where as many bytes of the
/// bundle were read as expected.
pub proof fn law_stamp_is_appended_to_other_files(
    image: Seq<u8>,
    header: Seq<u8>,
    bundle: Seq<u8>,
    bundle_len: u64,
    platform: Seq<char>,
)
    requires
        header.len() <= u64::MAX,
        executable::binary_format(image) == Ok::<BinaryFormat, RuntimeDataError>(
            BinaryFormat::Other,
        ),
    ensures
        runtime_data::stamped_image(image, header, bundle, bundle_len, platform) is Ok
            <==> bundle.len() == bundle_len,
        runtime_data::stamped_image(image, header, bundle, bundle_len, platform) matches Ok(stamped)
            ==> {
            let start = image.len() as int;
            let header_end = start + header.len();
            let at = header_end + bundle.len();
            &&& stamped.len() == at + 100
            &&& stamped.take(start) == image
            &&& stamped.subrange(start, header_end) == header
            &&& stamped.subrange(header_end, at) == bundle
            &&& bytes::le_u64(stamped, at) == header.len()
            &&& bytes::le_u64(stamped, at + 8) == bundle.len()
            &&& stamped.subrange(at + 16, at + 48) == digest::sha256_digest(header)@
            &&& stamped.subrange(at + 48, at + 80) == digest::sha256_digest(bundle)@
            &&& bytes::le_u32(stamped, at + 80) == 1
            &&& stamped.subrange(at + 84, at + 100) == seq![
                0x43u8, 0x4f, 0x4e, 0x44, 0x41, 0x5f, 0x53, 0x48, 0x49, 0x50, 0x5f, 0x56, 0x30,
                0x30, 0x30, 0x31,
            ]
        },
{
    if bundle.len() == bundle_len {
        payload::law_payload_lies_behind(image, header, bundle);
    }
}

} // verus!
