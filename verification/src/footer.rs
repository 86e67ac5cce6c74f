//! The footer that says where runtime data lies and what it has to hash to.
//!
//! A footer is a hundred bytes long: the lengths of the header and of the bundle, eight bytes
//! each, their SHA-256 digests, four bytes of format version, and a magic of sixteen bytes.

use vstd::prelude::*;

use crate::bytes;
use crate::bytes::{encode_u32, encode_u64, holds_at, read_u32, read_u64};
use crate::error::RuntimeDataError;

verus! {

/// The version of the runtime data format.
pub const FORMAT_VERSION: u32 = 1;

/// The bytes of a footer.
pub const FOOTER_LEN: u64 = 100;

/// The bytes of the magic at the end of a footer.
pub const FOOTER_MAGIC_LEN: u64 = 16;

/// `CONDA_SHIP_V0001`, the magic at the end of a footer.
pub open spec fn footer_magic() -> Seq<u8> {
    seq![
        0x43, 0x4f, 0x4e, 0x44, 0x41, 0x5f, 0x53, 0x48, 0x49, 0x50, 0x5f, 0x56, 0x30, 0x30, 0x30,
        0x31,
    ]
}

/// What a footer says.
#[derive(Clone, Copy, Debug)]
pub struct DecodedFooter {
    pub header_len: u64,
    pub bundle_len: u64,
    pub header_sha256: [u8; 32],
    pub bundle_sha256: [u8; 32],
}

/// The model of a [`DecodedFooter`].
#[verifier::ext_equal]
pub struct FooterView {
    pub header_len: u64,
    pub bundle_len: u64,
    pub header_sha256: Seq<u8>,
    pub bundle_sha256: Seq<u8>,
}

impl View for DecodedFooter {
    type V = FooterView;

    open spec fn view(&self) -> FooterView {
        FooterView {
            header_len: self.header_len,
            bundle_len: self.bundle_len,
            header_sha256: self.header_sha256@,
            bundle_sha256: self.bundle_sha256@,
        }
    }
}

/// The bytes of a footer.
pub open spec fn footer_bytes(footer: FooterView) -> Seq<u8> {
    bytes::u64_bytes(footer.header_len) + bytes::u64_bytes(footer.bundle_len)
        + footer.header_sha256 + footer.bundle_sha256 + bytes::u32_bytes(FORMAT_VERSION)
        + footer_magic()
}

/// Whether the magic of a footer ends right before `end`.
pub open spec fn magic_ends_at(data: Seq<u8>, end: int) -> bool {
    data.subrange(end - FOOTER_MAGIC_LEN, end) == footer_magic()
}

/// What the hundred bytes `footer` say, or `None` where they are no footer.
pub open spec fn decoded_footer(footer: Seq<u8>) -> Result<Option<FooterView>, RuntimeDataError> {
    if !magic_ends_at(footer, FOOTER_LEN as int) {
        Ok(None)
    } else if bytes::le_u32(footer, 80) != FORMAT_VERSION {
        Err(RuntimeDataError::FooterVersion(bytes::le_u32(footer, 80)))
    } else {
        Ok(
            Some(
                FooterView {
                    header_len: bytes::le_u64(footer, 0),
                    bundle_len: bytes::le_u64(footer, 8),
                    header_sha256: footer.subrange(16, 48),
                    bundle_sha256: footer.subrange(48, 80),
                },
            ),
        )
    }
}

/// The magic at the end of a footer.
pub fn footer_magic_bytes() -> (magic: [u8; 16])
    ensures
        magic@ == footer_magic(),
        magic@ == seq![
            0x43u8, 0x4f, 0x4e, 0x44, 0x41, 0x5f, 0x53, 0x48, 0x49, 0x50, 0x5f, 0x56, 0x30, 0x30,
            0x30, 0x31,
        ],
{
    let magic: [u8; 16] = [
        0x43, 0x4f, 0x4e, 0x44, 0x41, 0x5f, 0x53, 0x48, 0x49, 0x50, 0x5f, 0x56, 0x30, 0x30, 0x30,
        0x31,
    ];
    assert(magic@ =~= footer_magic());
    magic
}

/// Copies `field` into `footer` at `at`.
fn put_field(footer: &mut [u8; 100], at: usize, field: &[u8])
    requires
        at + field.len() <= 100,
    ensures
        forall|i: int|
            0 <= i < 100 ==> #[trigger] final(footer)@[i] == (if at <= i < at + field.len() {
                field@[i - at]
            } else {
                old(footer)@[i]
            }),
{
    let ghost before = footer@;
    let mut i: usize = 0;
    while i < field.len()
        invariant
            i <= field.len(),
            at + field.len() <= 100,
            forall|j: int|
                0 <= j < 100 ==> #[trigger] footer@[j] == (if at <= j < at + i {
                    field@[j - at]
                } else {
                    before[j]
                }),
        decreases field.len() - i,
    {
        footer[at + i] = field[i];
        i = i + 1;
    }
}

/// The footer of a header and a bundle with these lengths and digests.
pub fn encode_footer(
    header_len: u64,
    bundle_len: u64,
    header_sha256: [u8; 32],
    bundle_sha256: [u8; 32],
) -> (footer: [u8; 100])
    ensures
        footer@ == footer_bytes(
            FooterView {
                header_len,
                bundle_len,
                header_sha256: header_sha256@,
                bundle_sha256: bundle_sha256@,
            },
        ),
        bytes::le_u64(footer@, 0) == header_len,
        bytes::le_u64(footer@, 8) == bundle_len,
        footer@.subrange(16, 48) == header_sha256@,
        footer@.subrange(48, 80) == bundle_sha256@,
        bytes::le_u32(footer@, 80) == 1,
        footer@.subrange(84, 100) == seq![
            0x43u8, 0x4f, 0x4e, 0x44, 0x41, 0x5f, 0x53, 0x48, 0x49, 0x50, 0x5f, 0x56, 0x30, 0x30,
            0x30, 0x31,
        ],
{
    let mut footer: [u8; 100] = [0; 100];
    put_field(&mut footer, 0, &encode_u64(header_len));
    put_field(&mut footer, 8, &encode_u64(bundle_len));
    put_field(&mut footer, 16, &header_sha256);
    put_field(&mut footer, 48, &bundle_sha256);
    put_field(&mut footer, 80, &encode_u32(FORMAT_VERSION));
    put_field(&mut footer, 84, &footer_magic_bytes());
    assert(footer@ =~= footer_bytes(
        FooterView {
            header_len,
            bundle_len,
            header_sha256: header_sha256@,
            bundle_sha256: bundle_sha256@,
        },
    ));
    proof {
        law_footer_layout(
            FooterView {
                header_len,
                bundle_len,
                header_sha256: header_sha256@,
                bundle_sha256: bundle_sha256@,
            },
        );
    }
    footer
}

/// The thirty-two bytes of `data` from `at` on.
pub(crate) fn digest_at(data: &[u8], at: usize) -> (digest: [u8; 32])
    requires
        at + 32 <= data.len(),
    ensures
        digest@ == data@.subrange(at as int, at + 32),
{
    let mut digest: [u8; 32] = [0; 32];
    let mut i: usize = 0;
    while i < 32
        invariant
            i <= 32,
            at + 32 <= data.len(),
            forall|j: int| 0 <= j < i ==> #[trigger] digest@[j] == data@[at + j],
        decreases 32 - i,
    {
        digest[i] = data[at + i];
        i = i + 1;
    }
    assert(digest@ =~= data@.subrange(at as int, at + 32));
    digest
}

/// What the hundred bytes `footer` say, or `None` where they are no footer.
pub fn decode_footer(footer: &[u8]) -> (result: Result<Option<DecodedFooter>, RuntimeDataError>)
    requires
        footer.len() == FOOTER_LEN,
    ensures
        match decoded_footer(footer@) {
            Ok(Some(view)) => result is Ok && result->Ok_0 is Some && result->Ok_0->0@ == view,
            Ok(None) => result == Ok::<Option<DecodedFooter>, RuntimeDataError>(None),
            Err(error) => result == Err::<Option<DecodedFooter>, RuntimeDataError>(error),
        },
        result == Ok::<Option<DecodedFooter>, RuntimeDataError>(None) <==> footer@.subrange(84, 100)
            != seq![
            0x43u8, 0x4f, 0x4e, 0x44, 0x41, 0x5f, 0x53, 0x48, 0x49, 0x50, 0x5f, 0x56, 0x30, 0x30,
            0x30, 0x31,
        ],
        result matches Ok(Some(decoded)) ==> {
            &&& bytes::le_u32(footer@, 80) == 1
            &&& decoded.header_len == bytes::le_u64(footer@, 0)
            &&& decoded.bundle_len == bytes::le_u64(footer@, 8)
            &&& decoded.header_sha256@ == footer@.subrange(16, 48)
            &&& decoded.bundle_sha256@ == footer@.subrange(48, 80)
        },
        result matches Err(error) ==> bytes::le_u32(footer@, 80) != 1 && error
            == RuntimeDataError::FooterVersion(bytes::le_u32(footer@, 80)),
{
    if !holds_at(footer, 84, &footer_magic_bytes()) {
        return Ok(None);
    }
    let version: u32 = read_u32(footer, 80);
    if version != FORMAT_VERSION {
        return Err(RuntimeDataError::FooterVersion(version));
    }
    Ok(
        Some(
            DecodedFooter {
                header_len: read_u64(footer, 0),
                bundle_len: read_u64(footer, 8),
                header_sha256: digest_at(footer, 16),
                bundle_sha256: digest_at(footer, 48),
            },
        ),
    )
}

/// A footer is a hundred bytes: the two lengths come first, then the two digests, the version
/// and the magic.
pub proof fn law_footer_layout(footer: FooterView)
    requires
        footer.header_sha256.len() == 32,
        footer.bundle_sha256.len() == 32,
    ensures
        footer_bytes(footer).len() == 100,
        bytes::le_u64(footer_bytes(footer), 0) == footer.header_len,
        bytes::le_u64(footer_bytes(footer), 8) == footer.bundle_len,
        footer_bytes(footer).subrange(16, 48) == footer.header_sha256,
        footer_bytes(footer).subrange(48, 80) == footer.bundle_sha256,
        bytes::le_u32(footer_bytes(footer), 80) == 1,
        footer_bytes(footer).subrange(84, 100) == seq![
            0x43u8, 0x4f, 0x4e, 0x44, 0x41, 0x5f, 0x53, 0x48, 0x49, 0x50, 0x5f, 0x56, 0x30, 0x30,
            0x30, 0x31,
        ],
{
    law_footer_round_trip(footer);
}

/// What a footer was encoded from is decoded from it.
pub proof fn law_footer_round_trip(footer: FooterView)
    requires
        footer.header_sha256.len() == 32,
        footer.bundle_sha256.len() == 32,
    ensures
        footer_bytes(footer).len() == FOOTER_LEN,
        decoded_footer(footer_bytes(footer)) == Ok::<Option<FooterView>, RuntimeDataError>(
            Some(footer),
        ),
{
    let encoded = footer_bytes(footer);
    bytes::lemma_u64_round_trip(footer.header_len);
    bytes::lemma_u64_round_trip(footer.bundle_len);
    bytes::lemma_u32_round_trip(FORMAT_VERSION);
    let header_len = bytes::u64_bytes(footer.header_len);
    let bundle_len = bytes::u64_bytes(footer.bundle_len);
    let version = bytes::u32_bytes(FORMAT_VERSION);
    assert(encoded.subrange(0, 8) =~= header_len.subrange(0, 8));
    assert(encoded.subrange(8, 16) =~= bundle_len.subrange(0, 8));
    assert(encoded.subrange(80, 84) =~= version.subrange(0, 4));
    bytes::lemma_le_u64_window(encoded, 0, header_len, 0);
    bytes::lemma_le_u64_window(encoded, 8, bundle_len, 0);
    bytes::lemma_le_u32_window(encoded, 80, version, 0);
    assert(encoded.subrange(84, 100) =~= footer_magic());
    assert(encoded.subrange(16, 48) =~= footer.header_sha256);
    assert(encoded.subrange(48, 80) =~= footer.bundle_sha256);
}

/// Bytes that decode as a footer are those that its contents are encoded to.
pub proof fn law_footer_is_canonical(data: Seq<u8>, footer: FooterView)
    requires
        data.len() == FOOTER_LEN,
        decoded_footer(data) == Ok::<Option<FooterView>, RuntimeDataError>(Some(footer)),
    ensures
        data == footer_bytes(footer),
{
    bytes::lemma_u64_bytes_of_le(data, 0);
    bytes::lemma_u64_bytes_of_le(data, 8);
    bytes::lemma_u32_bytes_of_le(data, 80);
    let parts = data.subrange(0, 8) + data.subrange(8, 16) + data.subrange(16, 48) + data.subrange(
        48,
        80,
    ) + data.subrange(80, 84) + data.subrange(84, 100);
    assert(data =~= parts);
}

} // verus!
