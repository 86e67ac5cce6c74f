//! Finding the runtime data of a stamped executable.

use vstd::prelude::*;
use vstd::slice::{slice_subrange, slice_to_vec};

use crate::bundle::{BundleView, EmbeddedBundle};
use crate::bytes;
use crate::bytes::{holds_at, is_all_zero, same_bytes};
use crate::digest;
use crate::digest::sha256;
use crate::error::{invalid_data, RuntimeDataError};
use crate::executable;
use crate::executable::{detect_binary_format, BinaryFormat};
use crate::footer;
use crate::footer::{
    decode_footer, footer_magic_bytes, DecodedFooter, FooterView, FOOTER_LEN, FOOTER_MAGIC_LEN,
};
use crate::macho::final_layout;
use crate::macho::final_layout::validate_macho_final_layout;
use crate::macho::layout;
use crate::macho::layout::read_macho_layout;
use crate::macho::{MachOLayout, CPU_TYPE_ARM64, CPU_TYPE_X86_64, MACHO_SIGNATURE_ALIGNMENT};
use crate::pe;
use crate::pe::certificate;
use crate::pe::certificate::validate_pe_certificate_table;
use crate::pe::content;
use crate::pe::content::pe_runtime_content_layout;
use crate::pe::reader::read_pe_layout;
use crate::pe::{PeAnchorLayout, PeImageLayout, PeKind, PE_CERTIFICATE_ALIGNMENT};
use crate::reading;

verus! {

/// The longest header that is read.
pub const MAX_HEADER_LEN: u64 = 16 * 1024 * 1024;

/// What an executable runs on, as far as its headers say.
#[derive(Clone, Copy, Debug)]
pub enum Target {
    /// A Mach-O executable for this CPU.
    MachO {
        cpu_type: u32,
        cpu_subtype: u32,
    },
    /// A PE image of this kind for this machine.
    Pe {
        machine: u16,
        kind: PeKind,
    },
    /// Any other executable.
    Other,
}

/// The runtime data of an executable, with a header that is still to be parsed.
pub struct LocatedRuntimeData {
    pub target: Target,
    pub header_bytes: Vec<u8>,
    pub bundle: Option<EmbeddedBundle>,
}

/// The model of a [`LocatedRuntimeData`].
#[verifier::ext_equal]
pub struct LocatedView {
    pub target: Target,
    pub header_bytes: Seq<u8>,
    pub bundle: Option<BundleView>,
}

impl View for LocatedRuntimeData {
    type V = LocatedView;

    open spec fn view(&self) -> LocatedView {
        LocatedView {
            target: self.target,
            header_bytes: self.header_bytes@,
            bundle: match self.bundle {
                Some(bundle) => Some(bundle@),
                None => None,
            },
        }
    }
}

/// The runtime data that is found where this header and this bundle, which lies at
/// `bundle_offset`, were stamped onto an executable for `target`.
pub open spec fn stamped_data(
    target: Target,
    header: Seq<u8>,
    bundle: Seq<u8>,
    bundle_offset: int,
) -> LocatedView {
    LocatedView {
        target,
        header_bytes: header,
        bundle: if bundle.len() > 0 {
            Some(
                BundleView {
                    offset: bundle_offset as u64,
                    len: bundle.len() as u64,
                    sha256: digest::sha256_digest(bundle)@,
                },
            )
        } else {
            None
        },
    }
}

/// Whether `result` is what `expected` says of a search for runtime data.
pub open spec fn located(
    expected: Result<Option<LocatedView>, RuntimeDataError>,
    result: Result<Option<LocatedRuntimeData>, RuntimeDataError>,
) -> bool {
    match expected {
        Ok(Some(view)) => result is Ok && result->Ok_0 is Some && result->Ok_0->0@ == view,
        Ok(None) => result is Ok && result->Ok_0 is None,
        Err(error) => result is Err && result->Err_0 == error,
    }
}

/// The runtime data that starts at `payload_start` and of which `footer` speaks.
pub open spec fn payload_data(
    image: Seq<u8>,
    target: Target,
    payload_start: u64,
    footer: FooterView,
) -> Result<Option<LocatedView>, RuntimeDataError> {
    let header_end = payload_start + footer.header_len;
    let header_bytes = if footer.header_len == 0 {
        Seq::empty()
    } else {
        image.subrange(payload_start as int, header_end)
    };
    if footer.header_len > MAX_HEADER_LEN {
        Err(RuntimeDataError::HeaderTooLarge(footer.header_len))
    } else if footer.header_len > 0 && header_end > image.len() {
        Err(RuntimeDataError::UnexpectedEof)
    } else if digest::sha256_digest(header_bytes)@ != footer.header_sha256 {
        Err(invalid_data("runtime data header checksum mismatch"))
    } else {
        Ok(
            Some(
                LocatedView {
                    target,
                    header_bytes,
                    bundle: if footer.bundle_len > 0 {
                        Some(
                            BundleView {
                                offset: header_end as u64,
                                len: footer.bundle_len,
                                sha256: footer.bundle_sha256,
                            },
                        )
                    } else {
                        None
                    },
                },
            ),
        )
    }
}

/// The runtime data that starts at `payload_start` and of which `decoded` speaks.
pub fn read_runtime_data_payload(
    image: &[u8],
    target: Target,
    payload_start: u64,
    decoded: &DecodedFooter,
) -> (result: Result<Option<LocatedRuntimeData>, RuntimeDataError>)
    ensures
        located(payload_data(image@, target, payload_start, decoded@), result),
        match result {
            Ok(Some(found)) => {
                &&& decoded.header_len <= 16 * 1024 * 1024
                &&& found.target == target
                &&& found.header_bytes@.len() == decoded.header_len
                &&& decoded.header_len > 0 ==> payload_start + decoded.header_len <= image@.len()
                &&& forall|i: int|
                    0 <= i < decoded.header_len ==> #[trigger] found.header_bytes@[i]
                        == image@[payload_start + i]
                &&& digest::sha256_digest(found.header_bytes@)@ == decoded.header_sha256@
                &&& match found.bundle {
                    Some(bundle) => {
                        &&& decoded.bundle_len > 0
                        &&& bundle.offset == payload_start + decoded.header_len
                        &&& bundle.len == decoded.bundle_len
                        &&& bundle.sha256@ == decoded.bundle_sha256@
                    },
                    None => decoded.bundle_len == 0,
                }
            },
            Ok(None) => false,
            Err(RuntimeDataError::HeaderTooLarge(len)) => len == decoded.header_len && len > 16
                * 1024 * 1024,
            Err(RuntimeDataError::UnexpectedEof) => decoded.header_len > 0 && payload_start
                + decoded.header_len > image@.len(),
            Err(error) => {
                &&& error == RuntimeDataError::InvalidData("runtime data header checksum mismatch")
                &&& digest::sha256_digest(
                    if decoded.header_len == 0 {
                        Seq::empty()
                    } else {
                        image@.subrange(payload_start as int, payload_start + decoded.header_len)
                    },
                )@ != decoded.header_sha256@
            },
        },
{
    if decoded.header_len > MAX_HEADER_LEN {
        return Err(RuntimeDataError::HeaderTooLarge(decoded.header_len));
    }
    let len: u64 = image.len() as u64;
    if decoded.header_len > 0 && (payload_start > len || decoded.header_len > len - payload_start) {
        return Err(RuntimeDataError::UnexpectedEof);
    }
    let header_end: u64 = payload_start + decoded.header_len;
    let header: &[u8] = if decoded.header_len == 0 {
        slice_subrange(image, 0, 0)
    } else {
        slice_subrange(image, payload_start as usize, header_end as usize)
    };
    assert(decoded.header_len == 0 ==> header@ =~= Seq::empty());
    if !same_bytes(&sha256(header), &decoded.header_sha256) {
        return Err(invalid_data("runtime data header checksum mismatch"));
    }
    let bundle: Option<EmbeddedBundle> = if decoded.bundle_len > 0 {
        Some(
            EmbeddedBundle {
                offset: header_end,
                len: decoded.bundle_len,
                sha256: decoded.bundle_sha256,
            },
        )
    } else {
        None
    };
    Ok(Some(LocatedRuntimeData { target, header_bytes: slice_to_vec(header), bundle }))
}

/// The runtime data that ends where the footer `footer_data` starts, at `footer_start`.
pub open spec fn data_at_footer(
    image: Seq<u8>,
    target: Target,
    footer_start: u64,
    min_payload_start: u64,
    footer_data: Seq<u8>,
) -> Result<Option<LocatedView>, RuntimeDataError> {
    match footer::decoded_footer(footer_data) {
        Err(error) => Err(error),
        Ok(None) => Ok(None),
        Ok(Some(footer)) => {
            let payload_len = footer.header_len + footer.bundle_len;
            if payload_len > u64::MAX {
                Err(invalid_data("runtime data length overflow"))
            } else if payload_len > footer_start {
                Err(invalid_data("runtime data footer points before start of file"))
            } else if footer_start - payload_len < min_payload_start {
                Err(
                    invalid_data(
                        "runtime data payload starts before the platform's minimum payload offset",
                    ),
                )
            } else {
                payload_data(image, target, (footer_start - payload_len) as u64, footer)
            }
        },
    }
}

/// The runtime data that ends where the footer `footer_data` starts, at `footer_start`.
pub fn read_runtime_data_at_footer(
    image: &[u8],
    target: Target,
    footer_start: u64,
    min_payload_start: u64,
    footer_data: &[u8],
) -> (result: Result<Option<LocatedRuntimeData>, RuntimeDataError>)
    requires
        footer_data.len() == FOOTER_LEN,
    ensures
        located(
            data_at_footer(image@, target, footer_start, min_payload_start, footer_data@),
            result,
        ),
        result matches Ok(Some(found)) ==> {
            let header_len = bytes::le_u64(footer_data@, 0);
            let bundle_len = bytes::le_u64(footer_data@, 8);
            let start = footer_start - header_len - bundle_len;
            &&& bytes::le_u32(footer_data@, 80) == 1
            &&& 0 <= start
            &&& min_payload_start <= start
            &&& found.target == target
            &&& found.header_bytes@.len() == header_len
            &&& header_len > 0 ==> start + header_len <= image@.len()
            &&& forall|i: int|
                0 <= i < header_len ==> #[trigger] found.header_bytes@[i] == image@[start + i]
            &&& digest::sha256_digest(found.header_bytes@)@ == footer_data@.subrange(16, 48)
            &&& match found.bundle {
                Some(bundle) => {
                    &&& bundle_len > 0
                    &&& bundle.offset == start + header_len
                    &&& bundle.len == bundle_len
                    &&& bundle.sha256@ == footer_data@.subrange(48, 80)
                },
                None => bundle_len == 0,
            }
        },
{
    let decoded: DecodedFooter = match decode_footer(footer_data)? {
        Some(decoded) => decoded,
        None => {
            return Ok(None);
        },
    };
    if decoded.bundle_len > u64::MAX - decoded.header_len {
        return Err(invalid_data("runtime data length overflow"));
    }
    let payload_len: u64 = decoded.header_len + decoded.bundle_len;
    if payload_len > footer_start {
        return Err(invalid_data("runtime data footer points before start of file"));
    }
    let payload_start: u64 = footer_start - payload_len;
    if payload_start < min_payload_start {
        return Err(
            invalid_data(
                "runtime data payload starts before the platform's minimum payload offset",
            ),
        );
    }
    read_runtime_data_payload(image, target, payload_start, &decoded)
}

/// Where to look for a footer.
#[derive(Clone, Copy, Debug)]
pub struct FooterSearchSpec {
    /// Where the data ends that may hold a footer.
    pub data_end: u64,
    /// The footer ends less than this many bytes before that end, with zeros in between.
    pub alignment: u64,
    /// The lowest offset at which runtime data may start.
    pub minimum_payload_offset: u64,
}

/// How many places there are at which the footer may end.
pub open spec fn footer_places(search: FooterSearchSpec) -> int {
    if search.alignment == 0 {
        1
    } else {
        search.alignment as int
    }
}

/// The runtime data of the first footer that ends `padding` bytes or more before the end of the
/// data.
pub open spec fn search_from(
    image: Seq<u8>,
    target: Target,
    search: FooterSearchSpec,
    padding: nat,
) -> Result<Option<LocatedView>, RuntimeDataError>
    decreases footer_places(search) - padding,
{
    let footer_end = search.data_end - padding;
    let footer_start = footer_end - FOOTER_LEN;
    if padding >= footer_places(search) {
        Ok(None)
    } else if footer_start < 0 {
        search_from(image, target, search, padding + 1)
    } else if footer_end > image.len() {
        Err(RuntimeDataError::UnexpectedEof)
    } else if !footer::magic_ends_at(image, footer_end) {
        search_from(image, target, search, padding + 1)
    } else if search.data_end > image.len() {
        Err(RuntimeDataError::UnexpectedEof)
    } else if !bytes::all_zero(image.subrange(footer_end, search.data_end as int)) {
        Err(invalid_data("runtime data footer has nonzero platform alignment padding"))
    } else {
        data_at_footer(
            image,
            target,
            footer_start as u64,
            search.minimum_payload_offset,
            image.subrange(footer_start, footer_end),
        )
    }
}

/// The runtime data of the last footer before the end of the data that `footer_search` names.
pub fn read_runtime_data_with_search_spec(
    image: &[u8],
    target: Target,
    footer_search: FooterSearchSpec,
) -> (result: Result<Option<LocatedRuntimeData>, RuntimeDataError>)
    ensures
        located(search_from(image@, target, footer_search, 0), result),
{
    let len: u64 = image.len() as u64;
    let places: u64 = if footer_search.alignment == 0 {
        1
    } else {
        footer_search.alignment
    };
    let mut padding: u64 = 0;
    while padding < places
        invariant
            len == image.len(),
            padding <= places,
            places == footer_places(footer_search),
            search_from(image@, target, footer_search, padding as nat) == search_from(
                image@,
                target,
                footer_search,
                0,
            ),
        decreases places - padding,
    {
        if padding > footer_search.data_end || footer_search.data_end - padding < FOOTER_LEN {
            padding = padding + 1;
            continue ;
        }
        let footer_end: u64 = footer_search.data_end - padding;
        if footer_end > len {
            return Err(RuntimeDataError::UnexpectedEof);
        }
        let footer_start: u64 = footer_end - FOOTER_LEN;
        if !holds_at(
            image,
            (footer_end - FOOTER_MAGIC_LEN) as usize,
            &footer_magic_bytes(),
        ) {
            padding = padding + 1;
            continue ;
        }
        if footer_search.data_end > len {
            return Err(RuntimeDataError::UnexpectedEof);
        }
        if !is_all_zero(
            slice_subrange(image, footer_end as usize, footer_search.data_end as usize),
        ) {
            return Err(
                invalid_data("runtime data footer has nonzero platform alignment padding"),
            );
        }
        return read_runtime_data_at_footer(
            image,
            target,
            footer_start,
            footer_search.minimum_payload_offset,
            slice_subrange(image, footer_start as usize, footer_end as usize),
        );
    }
    Ok(None)
}

/// Whether the magic of a footer ends at one of the places that `search` names.
pub open spec fn magic_exists(image: Seq<u8>, search: FooterSearchSpec) -> bool {
    exists|padding: int|
        0 <= padding < search.alignment && padding + FOOTER_MAGIC_LEN <= search.data_end
            && #[trigger] footer::magic_ends_at(image, search.data_end - padding)
}

/// Whether the magic of a footer ends at one of the places that `footer_search` names.
pub fn footer_magic_exists_with_search_spec(image: &[u8], footer_search: FooterSearchSpec) -> (result:
    Result<bool, RuntimeDataError>)
    ensures
        result == (if footer_search.alignment > 0 && footer_search.data_end >= FOOTER_MAGIC_LEN
            && footer_search.data_end > image.len() {
            Err(RuntimeDataError::UnexpectedEof)
        } else {
            Ok(magic_exists(image@, footer_search))
        }),
        result == Ok::<bool, RuntimeDataError>(true) ==> exists|end: int|
            {
                &&& 16 <= end <= footer_search.data_end <= image@.len()
                &&& footer_search.data_end < end + footer_search.alignment
                &&& #[trigger] image@.subrange(end - 16, end) == seq![
                    0x43u8, 0x4f, 0x4e, 0x44, 0x41, 0x5f, 0x53, 0x48, 0x49, 0x50, 0x5f, 0x56, 0x30,
                    0x30, 0x30, 0x31,
                ]
            },
        result == Ok::<bool, RuntimeDataError>(false) ==> forall|end: int|
            16 <= end <= footer_search.data_end < end + footer_search.alignment
                ==> #[trigger] image@.subrange(end - 16, end) != seq![
                0x43u8, 0x4f, 0x4e, 0x44, 0x41, 0x5f, 0x53, 0x48, 0x49, 0x50, 0x5f, 0x56, 0x30,
                0x30, 0x30, 0x31,
            ],
{
    if footer_search.alignment == 0 || footer_search.data_end < FOOTER_MAGIC_LEN {
        return Ok(false);
    }
    if footer_search.data_end > image.len() as u64 {
        return Err(RuntimeDataError::UnexpectedEof);
    }
    let mut padding: u64 = 0;
    while padding < footer_search.alignment && padding <= footer_search.data_end - FOOTER_MAGIC_LEN
        invariant
            padding <= footer_search.alignment,
            FOOTER_MAGIC_LEN <= footer_search.data_end <= image.len(),
            forall|p: int|
                0 <= p < padding ==> !(#[trigger] footer::magic_ends_at(
                    image@,
                    footer_search.data_end - p,
                )),
        decreases footer_search.alignment - padding,
    {
        let magic_start: u64 = footer_search.data_end - padding - FOOTER_MAGIC_LEN;
        if holds_at(image, magic_start as usize, &footer_magic_bytes()) {
            assert(footer::magic_ends_at(image@, footer_search.data_end - padding));
            proof {
                let end = footer_search.data_end - padding;
                assert(image@.subrange(end - 16, end) == footer::footer_magic());
            }
            return Ok(true);
        }
        assert(!footer::magic_ends_at(image@, footer_search.data_end - padding as int));
        padding = padding + 1;
    }
    proof {
        assert forall|end: int|
            16 <= end <= footer_search.data_end < end
                + footer_search.alignment implies #[trigger] image@.subrange(end - 16, end)
            != footer::footer_magic() by {
            let p = footer_search.data_end - end;
            assert(!footer::magic_ends_at(image@, footer_search.data_end - p));
        }
    }
    Ok(false)
}

/// The bytes that are looked at together where a range has to be zero.
pub const ZERO_CHUNK_LEN: u64 = 4096;

/// How many of the `len` bytes from `offset` on lie in a file of `file_len` bytes.
pub open spec fn available(file_len: int, offset: u64, len: u64) -> int {
    if offset >= file_len {
        0
    } else if len > file_len - offset {
        file_len - offset
    } else {
        len as int
    }
}

/// Why an image is refused that has to be zero in `len` bytes from `offset` on. Where it ends
/// before that, only whole chunks are looked at.
pub open spec fn zero_range_error(image: Seq<u8>, offset: u64, len: u64, message: &'static str) -> Option<
    RuntimeDataError,
> {
    let there = available(image.len() as int, offset, len);
    let looked_at = if there == len {
        there
    } else {
        there - there % ZERO_CHUNK_LEN as int
    };
    if looked_at > 0 && !bytes::all_zero(image.subrange(offset as int, offset + looked_at)) {
        Some(invalid_data(message))
    } else if there < len {
        Some(RuntimeDataError::UnexpectedEof)
    } else {
        None
    }
}

/// Refuses an image that is not zero in `len` bytes from `offset` on, and says so in the words
/// of `message`.
pub fn ensure_zero_file_range(
    image: &[u8],
    offset: u64,
    len: u64,
    message: &'static str,
) -> (result: Result<(), RuntimeDataError>)
    ensures
        result == (match zero_range_error(image@, offset, len, message) {
            Some(error) => Err(error),
            None => Ok(()),
        }),
        result is Ok <==> len == 0 || (offset + len <= image@.len() && (forall|i: int|
            offset <= i < offset + len ==> #[trigger] image@[i] == 0)),
        result matches Err(error) ==> error == RuntimeDataError::InvalidData(message) || (error
            == RuntimeDataError::UnexpectedEof && offset + len > image@.len()),
{
    proof {
        if len > 0 && offset + len <= image@.len() {
            let range = image@.subrange(offset as int, offset + len);
            if bytes::all_zero(range) {
                assert forall|i: int| offset <= i < offset + len implies #[trigger] image@[i]
                    == 0 by {
                    assert(range[i - offset] == 0);
                }
            }
        }
    }
    let file_len: u64 = image.len() as u64;
    let there: u64 = if offset >= file_len {
        0
    } else if len > file_len - offset {
        file_len - offset
    } else {
        len
    };
    let looked_at: u64 = if there == len {
        there
    } else {
        there - there % ZERO_CHUNK_LEN
    };
    if looked_at > 0 && !is_all_zero(
        slice_subrange(image, offset as usize, (offset + looked_at) as usize),
    ) {
        return Err(invalid_data(message));
    }
    if there < len {
        return Err(RuntimeDataError::UnexpectedEof);
    }
    Ok(())
}

/// The runtime data of a PE image whose footer lies in its anchor section.
pub open spec fn anchored_data(image: Seq<u8>, layout: PeImageLayout, anchor: PeAnchorLayout) -> Result<
    Option<LocatedView>,
    RuntimeDataError,
> {
    let footer_end = anchor.offset + FOOTER_LEN;
    let target = Target::Pe { machine: layout.machine, kind: layout.kind };
    let expected_end = match layout.certificate {
        Some(certificate) => certificate.offset as int,
        None => image.len() as int,
    };
    match footer::decoded_footer(image.subrange(anchor.offset as int, footer_end)) {
        Err(error) => Err(error),
        Ok(None) => Err(
            invalid_data("PE conda-ship anchor section has no runtime data footer"),
        ),
        Ok(Some(footer)) => if !bytes::all_zero(
            image.subrange(footer_end, anchor.raw_end as int),
        ) {
            Err(invalid_data("PE conda-ship anchor section padding is not zero"))
        } else if footer.header_len + footer.bundle_len > u64::MAX {
            Err(invalid_data("runtime data length overflow"))
        } else {
            match content::content_layout(
                anchor.raw_end,
                (footer.header_len + footer.bundle_len) as u64,
            ) {
                Err(error) => Err(error),
                Ok((payload_start, payload_end)) => if payload_end != expected_end {
                    Err(
                        invalid_data(
                            "PE runtime data does not end at the certificate table offset",
                        ),
                    )
                } else if !bytes::all_zero(
                    image.subrange(anchor.raw_end as int, payload_start as int),
                ) {
                    Err(invalid_data("PE runtime data alignment padding is not zero"))
                } else {
                    payload_data(image, target, payload_start, footer)
                },
            }
        },
    }
}

/// The runtime data of the PE image `image` with this layout.
pub open spec fn pe_layout_data(image: Seq<u8>, layout: PeImageLayout) -> Result<
    Option<LocatedView>,
    RuntimeDataError,
> {
    let target = Target::Pe { machine: layout.machine, kind: layout.kind };
    match layout.certificate {
        Some(table) => match certificate::certificate_entries_error(image, table, 0, 0) {
            Some(error) => Err(error),
            None => match layout.anchor {
                Some(anchor) => anchored_data(image, layout, anchor),
                None => if magic_exists(
                    image,
                    FooterSearchSpec {
                        data_end: table.offset,
                        alignment: PE_CERTIFICATE_ALIGNMENT,
                        minimum_payload_offset: layout.max_raw_end,
                    },
                ) {
                    Err(
                        invalid_data("signed PE runtime data has no authenticated anchor section"),
                    )
                } else {
                    Ok(None)
                },
            },
        },
        None => match layout.anchor {
            Some(anchor) => anchored_data(image, layout, anchor),
            None => search_from(
                image,
                target,
                FooterSearchSpec {
                    data_end: image.len() as u64,
                    alignment: 1,
                    minimum_payload_offset: layout.max_raw_end,
                },
                0,
            ),
        },
    }
}

/// The runtime data of the PE image `image`.
pub open spec fn pe_runtime_data(image: Seq<u8>) -> Result<Option<LocatedView>, RuntimeDataError> {
    match pe::pe_layout(image) {
        Err(error) => Err(error),
        Ok(layout) => pe_layout_data(image, layout),
    }
}

/// The runtime data of a PE image whose footer lies in its anchor section.
fn read_anchored_data(image: &[u8], layout: &PeImageLayout, anchor: PeAnchorLayout) -> (result:
    Result<Option<LocatedRuntimeData>, RuntimeDataError>)
    requires
        anchor.offset + anchor.raw_size == anchor.raw_end,
        FOOTER_LEN <= anchor.raw_size,
        anchor.raw_end <= image.len(),
        layout.certificate matches Some(table) ==> table.offset <= image.len(),
    ensures
        located(anchored_data(image@, *layout, anchor), result),
{
    let footer_end: u64 = anchor.offset + FOOTER_LEN;
    let decoded: DecodedFooter = match decode_footer(
        slice_subrange(image, anchor.offset as usize, footer_end as usize),
    )? {
        Some(decoded) => decoded,
        None => {
            return Err(
                invalid_data("PE conda-ship anchor section has no runtime data footer"),
            );
        },
    };
    ensure_zero_file_range(
        image,
        footer_end,
        anchor.raw_size - FOOTER_LEN,
        "PE conda-ship anchor section padding is not zero",
    )?;
    if decoded.bundle_len > u64::MAX - decoded.header_len {
        return Err(invalid_data("runtime data length overflow"));
    }
    let content_len: u64 = decoded.header_len + decoded.bundle_len;
    let (payload_start, payload_end): (u64, u64) = pe_runtime_content_layout(
        anchor.raw_end,
        content_len,
    )?;
    proof {
        content::law_content_layout(anchor.raw_end, content_len, payload_start, payload_end);
    }
    let expected_end: u64 = match layout.certificate {
        Some(table) => table.offset,
        None => image.len() as u64,
    };
    if payload_end != expected_end {
        return Err(
            invalid_data("PE runtime data does not end at the certificate table offset"),
        );
    }
    ensure_zero_file_range(
        image,
        anchor.raw_end,
        payload_start - anchor.raw_end,
        "PE runtime data alignment padding is not zero",
    )?;
    read_runtime_data_payload(
        image,
        Target::Pe { machine: layout.machine, kind: layout.kind },
        payload_start,
        &decoded,
    )
}

/// The runtime data of the PE image `image`.
///
/// A stamped image has its footer in the anchor section, in front of the header and the bundle;
/// a signature leaves all three in place. Without that section, an unsigned image may end in a
/// footer, and a signed one may not.
pub fn read_pe_runtime_data(image: &[u8]) -> (result: Result<
    Option<LocatedRuntimeData>,
    RuntimeDataError,
>)
    requires
        crate::object_file::has_dos_magic(image@),
    ensures
        located(pe_runtime_data(image@), result),
{
    let file_len: u64 = image.len() as u64;
    let layout: PeImageLayout = read_pe_layout(image)?;
    proof {
        pe::laws::law_accepted_pe_layout(image@, layout);
    }
    if let Some(table) = layout.certificate {
        validate_pe_certificate_table(image, table)?;
    }
    match layout.anchor {
        Some(anchor) => read_anchored_data(image, &layout, anchor),
        None => {
            if let Some(table) = layout.certificate {
                let legacy_footer_search: FooterSearchSpec = FooterSearchSpec {
                    data_end: table.offset,
                    alignment: PE_CERTIFICATE_ALIGNMENT,
                    minimum_payload_offset: layout.max_raw_end,
                };
                if footer_magic_exists_with_search_spec(image, legacy_footer_search)? {
                    return Err(
                        invalid_data("signed PE runtime data has no authenticated anchor section"),
                    );
                }
                return Ok(None);
            }
            read_runtime_data_with_search_spec(
                image,
                Target::Pe { machine: layout.machine, kind: layout.kind },
                FooterSearchSpec {
                    data_end: file_len,
                    alignment: 1,
                    minimum_payload_offset: layout.max_raw_end,
                },
            )
        },
    }
}

/// Where to look for a footer in the Mach-O executable `image`, and the CPU that it is for.
pub open spec fn macho_search(image: Seq<u8>) -> Result<
    (FooterSearchSpec, u32, u32),
    RuntimeDataError,
> {
    let file_len = image.len() as u64;
    match layout::macho_layout(image) {
        Err(error) => Err(error),
        Ok(layout) => match final_layout::final_layout_error(layout, file_len) {
            Some(error) => Err(error),
            None => if layout.cpu_type != CPU_TYPE_X86_64 && layout.cpu_type != CPU_TYPE_ARM64 {
                Err(RuntimeDataError::MachoCpuType(layout.cpu_type))
            } else {
                let (data_end, alignment) = match layout.code_signature {
                    Some((_, offset, _)) => (offset, MACHO_SIGNATURE_ALIGNMENT),
                    None => (file_len, 1),
                };
                Ok(
                    (
                        FooterSearchSpec {
                            data_end,
                            alignment,
                            minimum_payload_offset: layout.linkedit_fileoff,
                        },
                        layout.cpu_type,
                        layout.cpu_subtype,
                    ),
                )
            },
        },
    }
}

/// Where to look for a footer in the Mach-O executable `image`, and the CPU that it is for: the
/// footer ends the file, or comes right before the code signature and the zeros that align it.
pub fn macho_footer_search_spec(image: &[u8]) -> (result: Result<
    (FooterSearchSpec, u32, u32),
    RuntimeDataError,
>)
    ensures
        result == macho_search(image@),
        result matches Ok((search, cpu_type, cpu_subtype)) ==> (layout::macho_layout(
            image@,
        ) matches Ok(found) && {
            &&& cpu_type == found.cpu_type
            &&& cpu_subtype == found.cpu_subtype
            &&& cpu_type == 0x0100_0007 || cpu_type == 0x0100_000c
            &&& search.minimum_payload_offset == found.linkedit_fileoff
            &&& match found.code_signature {
                Some((_, offset, _)) => search.data_end == offset && search.alignment == 16,
                None => search.data_end == image@.len() && search.alignment == 1,
            }
        }),
{
    let file_len: u64 = image.len() as u64;
    let layout: MachOLayout = read_macho_layout(image)?;
    validate_macho_final_layout(&layout, file_len)?;
    if layout.cpu_type != CPU_TYPE_X86_64 && layout.cpu_type != CPU_TYPE_ARM64 {
        return Err(RuntimeDataError::MachoCpuType(layout.cpu_type));
    }
    let (data_end, alignment): (u64, u64) = match layout.code_signature {
        Some((_, offset, _)) => (offset, MACHO_SIGNATURE_ALIGNMENT),
        None => (file_len, 1),
    };
    Ok(
        (
            FooterSearchSpec {
                data_end,
                alignment,
                minimum_payload_offset: layout.linkedit_fileoff,
            },
            layout.cpu_type,
            layout.cpu_subtype,
        ),
    )
}

/// The runtime data of the Mach-O executable `image`.
pub open spec fn macho_runtime_data(image: Seq<u8>) -> Result<
    Option<LocatedView>,
    RuntimeDataError,
> {
    match macho_search(image) {
        Err(error) => Err(error),
        Ok((search, cpu_type, cpu_subtype)) => search_from(
            image,
            Target::MachO { cpu_type, cpu_subtype },
            search,
            0,
        ),
    }
}

/// The runtime data of the executable `image`.
pub open spec fn runtime_data_in(image: Seq<u8>) -> Result<Option<LocatedView>, RuntimeDataError> {
    match executable::binary_format(image) {
        Err(error) => Err(error),
        Ok(BinaryFormat::MachO64) => macho_runtime_data(image),
        Ok(BinaryFormat::UnsupportedMachO(description)) => Err(
            RuntimeDataError::UnsupportedMachO(description),
        ),
        Ok(BinaryFormat::Pe) => pe_runtime_data(image),
        Ok(BinaryFormat::Other) => search_from(
            image,
            Target::Other,
            FooterSearchSpec {
                data_end: image.len() as u64,
                alignment: 1,
                minimum_payload_offset: 0,
            },
            0,
        ),
    }
}

/// The runtime data of the executable `image`, or `None` where it has none.
pub fn read_from_file(image: &[u8]) -> (result: Result<
    Option<LocatedRuntimeData>,
    RuntimeDataError,
>)
    ensures
        located(runtime_data_in(image@), result),
        result matches Ok(Some(found)) ==> exists|at: int|
            {
                &&& 0 <= at
                &&& at + 100 <= image@.len()
                &&& bytes::le_u32(image@, at + 80) == 1
                &&& found.header_bytes@.len() == #[trigger] bytes::le_u64(image@, at)
                &&& digest::sha256_digest(found.header_bytes@)@ == image@.subrange(at + 16, at + 48)
                &&& match found.bundle {
                    Some(bundle) => bundle.len == bytes::le_u64(image@, at + 8) && bundle.sha256@
                        == image@.subrange(at + 48, at + 80),
                    None => bytes::le_u64(image@, at + 8) == 0,
                }
            },
{
    proof {
        assert(image@.len() == image.len());
        if let Ok(Some(found)) = runtime_data_in(image@) {
            reading::law_found_data_is_what_its_footer_says(image@, found);
        }
    }
    match detect_binary_format(image)? {
        BinaryFormat::MachO64 => {
            let (footer_search, cpu_type, cpu_subtype): (FooterSearchSpec, u32, u32) =
                macho_footer_search_spec(image)?;
            read_runtime_data_with_search_spec(
                image,
                Target::MachO { cpu_type, cpu_subtype },
                footer_search,
            )
        },
        BinaryFormat::UnsupportedMachO(description) => Err(
            RuntimeDataError::UnsupportedMachO(description),
        ),
        BinaryFormat::Pe => read_pe_runtime_data(image),
        BinaryFormat::Other => read_runtime_data_with_search_spec(
            image,
            Target::Other,
            FooterSearchSpec {
                data_end: image.len() as u64,
                alignment: 1,
                minimum_payload_offset: 0,
            },
        ),
    }
}

} // verus!
