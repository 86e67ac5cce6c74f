//! The runtime data that is stamped onto an executable.

use vstd::prelude::*;
use vstd::slice::slice_subrange;

use crate::bytes;
use crate::bytes::append_bytes;
use crate::digest;
use crate::digest::sha256;
use crate::error::{invalid_data, RuntimeDataError};
use crate::footer;
use crate::footer::{encode_footer, FooterView, FOOTER_LEN, FORMAT_VERSION};
use crate::runtime_reader::MAX_HEADER_LEN;

verus! {

/// A header that is ready to be stamped, and the length of the bundle that goes with it.
pub struct PreparedRuntimeData {
    pub header_bytes: Vec<u8>,
    pub header_len: u64,
    pub bundle_len: u64,
    pub header_sha256: [u8; 32],
    pub payload_len: u64,
}

impl PreparedRuntimeData {
    /// Whether the lengths and the digest are those of the header.
    pub open spec fn well_formed(self) -> bool {
        &&& self.header_len == self.header_bytes@.len()
        &&& self.header_len <= MAX_HEADER_LEN
        &&& self.header_sha256 == digest::sha256_digest(self.header_bytes@)
        &&& self.payload_len == self.header_len + self.bundle_len + FOOTER_LEN
    }
}

/// Why a header of `header_len` bytes with this schema version is not stamped together with a
/// bundle of `bundle_len` bytes.
pub open spec fn preparation_error(schema_version: u32, header_len: int, bundle_len: u64) -> Option<
    RuntimeDataError,
> {
    if schema_version != FORMAT_VERSION {
        Some(RuntimeDataError::SchemaVersion(schema_version))
    } else if header_len > MAX_HEADER_LEN {
        Some(RuntimeDataError::HeaderTooLarge(header_len as u64))
    } else if header_len + bundle_len + FOOTER_LEN > u64::MAX {
        Some(invalid_data("runtime data length overflow"))
    } else {
        None
    }
}

/// Prepares a header with this schema version, given as bytes, for being stamped together with a
/// bundle of `bundle_len` bytes.
pub fn prepare_runtime_data(schema_version: u32, header_bytes: Vec<u8>, bundle_len: u64) -> (result:
    Result<PreparedRuntimeData, RuntimeDataError>)
    ensures
        match preparation_error(schema_version, header_bytes@.len() as int, bundle_len) {
            Some(error) => result is Err && result->Err_0 == error,
            None => {
                &&& result is Ok
                &&& result->Ok_0.well_formed()
                &&& result->Ok_0.header_bytes@ == header_bytes@
                &&& result->Ok_0.bundle_len == bundle_len
            },
        },
        match result {
            Ok(prepared) => {
                &&& schema_version == 1
                &&& header_bytes@.len() <= 16 * 1024 * 1024
                &&& prepared.header_bytes@ == header_bytes@
                &&& prepared.header_len == header_bytes@.len()
                &&& prepared.bundle_len == bundle_len
                &&& prepared.header_sha256 == digest::sha256_digest(header_bytes@)
                &&& prepared.payload_len == header_bytes@.len() + bundle_len + 100
            },
            Err(RuntimeDataError::SchemaVersion(version)) => version == schema_version
                && schema_version != 1,
            Err(RuntimeDataError::HeaderTooLarge(len)) => schema_version == 1 && len
                == header_bytes@.len() && len > 16 * 1024 * 1024,
            Err(RuntimeDataError::InvalidData(message)) => {
                &&& message == "runtime data length overflow"
                &&& schema_version == 1
                &&& header_bytes@.len() <= 16 * 1024 * 1024
                &&& header_bytes@.len() + bundle_len + 100 > u64::MAX
            },
            Err(_) => false,
        },
{
    if schema_version != FORMAT_VERSION {
        return Err(RuntimeDataError::SchemaVersion(schema_version));
    }
    let header_len: u64 = header_bytes.len() as u64;
    if header_len > MAX_HEADER_LEN {
        return Err(RuntimeDataError::HeaderTooLarge(header_len));
    }
    if bundle_len > u64::MAX - header_len - FOOTER_LEN {
        return Err(invalid_data("runtime data length overflow"));
    }
    let header_sha256: [u8; 32] = sha256(&header_bytes);
    Ok(
        PreparedRuntimeData {
            header_bytes,
            header_len,
            bundle_len,
            header_sha256,
            payload_len: header_len + bundle_len + FOOTER_LEN,
        },
    )
}

/// The footer of this header and this bundle.
pub open spec fn footer_of(header: Seq<u8>, bundle: Seq<u8>) -> FooterView {
    FooterView {
        header_len: header.len() as u64,
        bundle_len: bundle.len() as u64,
        header_sha256: digest::sha256_digest(header)@,
        bundle_sha256: digest::sha256_digest(bundle)@,
    }
}

/// This header and this bundle with their footer behind them.
pub open spec fn payload_bytes(header: Seq<u8>, bundle: Seq<u8>) -> Seq<u8> {
    header + bundle + footer::footer_bytes(footer_of(header, bundle))
}

/// Why a bundle of which `actual` bytes were read is not stamped where `declared` bytes were
/// expected.
pub open spec fn bundle_len_error(actual: int, declared: u64) -> Option<RuntimeDataError> {
    if actual > declared {
        Some(invalid_data("runtime data bundle grew while being read"))
    } else if actual < declared {
        Some(invalid_data("runtime data bundle changed while being read"))
    } else {
        None
    }
}

/// The bytes of a bundle that are copied together.
pub const BUNDLE_CHUNK_LEN: u64 = 64 * 1024;

/// What is written of this header and this bundle where `declared` bytes of the bundle were
/// expected: of a bundle that grew, the whole chunks that do not reach past these.
pub open spec fn written_content(header: Seq<u8>, bundle: Seq<u8>, declared: u64) -> Seq<u8> {
    if bundle.len() > declared {
        header + bundle.take(declared - declared % BUNDLE_CHUNK_LEN)
    } else {
        header + bundle
    }
}

/// Appends the header and the bundle, and hands back their footer.
pub fn write_runtime_content(
    output: &mut Vec<u8>,
    bundle: &[u8],
    prepared: &PreparedRuntimeData,
) -> (result: Result<[u8; 100], RuntimeDataError>)
    requires
        prepared.well_formed(),
    ensures
        match bundle_len_error(bundle@.len() as int, prepared.bundle_len) {
            Some(error) => {
                &&& result is Err
                &&& result->Err_0 == error
                &&& final(output)@ == old(output)@ + written_content(
                    prepared.header_bytes@,
                    bundle@,
                    prepared.bundle_len,
                )
            },
            None => {
                &&& result is Ok
                &&& result->Ok_0@ == footer::footer_bytes(
                    footer_of(prepared.header_bytes@, bundle@),
                )
                &&& final(output)@ == old(output)@ + prepared.header_bytes@ + bundle@
            },
        },
        match result {
            Ok(footer) => {
                &&& bundle@.len() == prepared.bundle_len
                &&& bytes::le_u64(footer@, 0) == prepared.header_bytes@.len()
                &&& bytes::le_u64(footer@, 8) == bundle@.len()
                &&& footer@.subrange(16, 48) == digest::sha256_digest(prepared.header_bytes@)@
                &&& footer@.subrange(48, 80) == digest::sha256_digest(bundle@)@
                &&& bytes::le_u32(footer@, 80) == 1
                &&& footer@.subrange(84, 100) == seq![
                    0x43u8, 0x4f, 0x4e, 0x44, 0x41, 0x5f, 0x53, 0x48, 0x49, 0x50, 0x5f, 0x56, 0x30,
                    0x30, 0x30, 0x31,
                ]
                &&& final(output)@ == old(output)@ + prepared.header_bytes@ + bundle@
            },
            Err(error) => {
                &&& bundle@.len() != prepared.bundle_len
                &&& error == (if bundle@.len() > prepared.bundle_len {
                    RuntimeDataError::InvalidData("runtime data bundle grew while being read")
                } else {
                    RuntimeDataError::InvalidData("runtime data bundle changed while being read")
                })
                &&& bundle@.len() < prepared.bundle_len ==> final(output)@ == old(output)@
                    + prepared.header_bytes@ + bundle@
                &&& bundle@.len() > prepared.bundle_len ==> final(output)@ == old(output)@
                    + prepared.header_bytes@ + bundle@.take(
                    prepared.bundle_len - prepared.bundle_len % 65536,
                )
            },
        },
{
    let ghost before = output@;
    append_bytes(output, &prepared.header_bytes);
    let copied_bundle_len: u64 = bundle.len() as u64;
    if copied_bundle_len > prepared.bundle_len {
        let fitting: u64 = prepared.bundle_len - prepared.bundle_len % BUNDLE_CHUNK_LEN;
        let chunks: &[u8] = slice_subrange(bundle, 0, fitting as usize);
        append_bytes(output, chunks);
        assert(chunks@ =~= bundle@.take(fitting as int));
        assert(output@ =~= before + (prepared.header_bytes@ + bundle@.take(fitting as int)));
        assert(output@ =~= before + prepared.header_bytes@ + bundle@.take(fitting as int));
        return Err(invalid_data("runtime data bundle grew while being read"));
    }
    append_bytes(output, bundle);
    assert(output@ =~= before + (prepared.header_bytes@ + bundle@));
    assert(output@ =~= before + prepared.header_bytes@ + bundle@);
    if copied_bundle_len != prepared.bundle_len {
        return Err(invalid_data("runtime data bundle changed while being read"));
    }
    Ok(
        encode_footer(
            prepared.header_len,
            prepared.bundle_len,
            prepared.header_sha256,
            sha256(bundle),
        ),
    )
}

/// Appends the header, the bundle and their footer.
pub fn write_runtime_payload(
    output: &mut Vec<u8>,
    bundle: &[u8],
    prepared: &PreparedRuntimeData,
) -> (result: Result<(), RuntimeDataError>)
    requires
        prepared.well_formed(),
    ensures
        match bundle_len_error(bundle@.len() as int, prepared.bundle_len) {
            Some(error) => {
                &&& result is Err
                &&& result->Err_0 == error
                &&& final(output)@ == old(output)@ + written_content(
                    prepared.header_bytes@,
                    bundle@,
                    prepared.bundle_len,
                )
            },
            None => result is Ok && final(output)@ == old(output)@ + payload_bytes(
                prepared.header_bytes@,
                bundle@,
            ),
        },
        result is Ok <==> bundle@.len() == prepared.bundle_len,
        result is Ok ==> {
            let start = old(output)@.len() as int;
            let header_end = start + prepared.header_bytes@.len();
            let end = header_end + bundle@.len();
            &&& final(output)@.len() == end + 100
            &&& final(output)@.take(start) == old(output)@
            &&& final(output)@.subrange(start, header_end) == prepared.header_bytes@
            &&& final(output)@.subrange(header_end, end) == bundle@
            &&& bytes::le_u64(final(output)@, end) == prepared.header_bytes@.len()
            &&& bytes::le_u64(final(output)@, end + 8) == bundle@.len()
            &&& final(output)@.subrange(end + 16, end + 48) == digest::sha256_digest(
                prepared.header_bytes@,
            )@
            &&& final(output)@.subrange(end + 48, end + 80) == digest::sha256_digest(bundle@)@
            &&& bytes::le_u32(final(output)@, end + 80) == 1
            &&& final(output)@.subrange(end + 84, end + 100) == seq![
                0x43u8, 0x4f, 0x4e, 0x44, 0x41, 0x5f, 0x53, 0x48, 0x49, 0x50, 0x5f, 0x56, 0x30,
                0x30, 0x30, 0x31,
            ]
        },
{
    let ghost before = output@;
    let footer: [u8; 100] = write_runtime_content(output, bundle, prepared)?;
    append_bytes(output, &footer);
    assert(output@ =~= before + payload_bytes(prepared.header_bytes@, bundle@));
    proof {
        law_payload_lies_behind(before, prepared.header_bytes@, bundle@);
    }
    Ok(())
}

/// A payload behind some data leaves the data as it is, and holds the header, the bundle and a
/// footer with their lengths and digests, in this order.
pub proof fn law_payload_lies_behind(before: Seq<u8>, header: Seq<u8>, bundle: Seq<u8>)
    requires
        header.len() <= u64::MAX,
        bundle.len() <= u64::MAX,
    ensures
        ({
            let whole = before + payload_bytes(header, bundle);
            let start = before.len() as int;
            let header_end = start + header.len();
            let end = header_end + bundle.len();
            &&& whole.len() == end + 100
            &&& whole.take(start) == before
            &&& whole.subrange(start, header_end) == header
            &&& whole.subrange(header_end, end) == bundle
            &&& bytes::le_u64(whole, end) == header.len()
            &&& bytes::le_u64(whole, end + 8) == bundle.len()
            &&& whole.subrange(end + 16, end + 48) == digest::sha256_digest(header)@
            &&& whole.subrange(end + 48, end + 80) == digest::sha256_digest(bundle)@
            &&& bytes::le_u32(whole, end + 80) == 1
            &&& whole.subrange(end + 84, end + 100) == seq![
                0x43u8, 0x4f, 0x4e, 0x44, 0x41, 0x5f, 0x53, 0x48, 0x49, 0x50, 0x5f, 0x56, 0x30,
                0x30, 0x30, 0x31,
            ]
        }),
{
    let footer = footer::footer_bytes(footer_of(header, bundle));
    footer::law_footer_layout(footer_of(header, bundle));
    let whole = before + payload_bytes(header, bundle);
    let start = before.len() as int;
    let header_end = start + header.len();
    let end = header_end + bundle.len();
    assert(whole =~= before + header + bundle + footer);
    assert(whole.take(start) =~= before);
    assert(whole.subrange(start, header_end) =~= header);
    assert(whole.subrange(header_end, end) =~= bundle);
    assert(whole.subrange(end, end + 8) =~= footer.subrange(0, 8));
    assert(whole.subrange(end + 8, end + 16) =~= footer.subrange(8, 16));
    assert(whole.subrange(end + 16, end + 48) =~= footer.subrange(16, 48));
    assert(whole.subrange(end + 48, end + 80) =~= footer.subrange(48, 80));
    assert(whole.subrange(end + 80, end + 84) =~= footer.subrange(80, 84));
    assert(whole.subrange(end + 84, end + 100) =~= footer.subrange(84, 100));
    bytes::lemma_le_u64_window(whole, end, footer, 0);
    bytes::lemma_le_u64_window(whole, end + 8, footer, 8);
    bytes::lemma_le_u32_window(whole, end + 80, footer, 80);
}

} // verus!
