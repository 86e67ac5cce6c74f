//! The record by which a runtime template declares that it reads signed layouts.

use vstd::prelude::*;
use vstd::slice::slice_subrange;

use crate::bytes;
use crate::bytes::{append_bytes, encode_u32, holds_at, is_all_zero, read_u32};
use crate::error::{invalid_data, RuntimeDataError};
use crate::footer::FORMAT_VERSION;
use crate::executable;
use crate::executable::{detect_binary_format, BinaryFormat};
use crate::macho::layout;
use crate::macho::layout::read_macho_layout;
use crate::macho::MachOLayout;
use crate::pe;
use crate::pe::reader::read_pe_layout;
use crate::pe::PeImageLayout;

verus! {

/// The bytes of a reader capability record.
pub const READER_CAPABILITY_RECORD_LEN: u64 = 48;

/// The version of reader capability records.
pub const READER_CAPABILITY_VERSION: u32 = 1;

/// The layout kind of a template that reads signed Mach-O executables.
pub const MACHO_READER_LAYOUT_KIND: u32 = 1;

/// The layout kind of a template that reads signed PE images.
pub const PE_READER_LAYOUT_KIND: u32 = 2;

/// `CONDA_SHIP_READ1`, the magic at the start of a record.
pub open spec fn reader_capability_magic() -> Seq<u8> {
    seq![
        0x43, 0x4f, 0x4e, 0x44, 0x41, 0x5f, 0x53, 0x48, 0x49, 0x50, 0x5f, 0x52, 0x45, 0x41, 0x44,
        0x31,
    ]
}

/// A reader capability record.
#[derive(Clone, Copy, Debug)]
pub struct ReaderCapabilityRecord {
    pub magic: [u8; 16],
    pub record_version: u32,
    pub footer_version: u32,
    pub layout_kind: u32,
    pub flags: u32,
    pub reserved: [u8; 16],
}

/// The bytes of a record of this layout kind.
pub open spec fn capability_record_bytes(layout_kind: u32) -> Seq<u8> {
    reader_capability_magic() + bytes::u32_bytes(READER_CAPABILITY_VERSION) + bytes::u32_bytes(
        FORMAT_VERSION,
    ) + bytes::u32_bytes(layout_kind) + bytes::u32_bytes(0) + bytes::zeros(16)
}

/// The magic at the start of a record.
fn reader_capability_magic_bytes() -> (magic: [u8; 16])
    ensures
        magic@ == reader_capability_magic(),
{
    let magic: [u8; 16] = [
        0x43, 0x4f, 0x4e, 0x44, 0x41, 0x5f, 0x53, 0x48, 0x49, 0x50, 0x5f, 0x52, 0x45, 0x41, 0x44,
        0x31,
    ];
    assert(magic@ =~= reader_capability_magic());
    magic
}

/// The record of a template that reads layouts of this kind.
pub fn reader_capability_record(layout_kind: u32) -> (record: ReaderCapabilityRecord)
    ensures
        record.magic@ == reader_capability_magic(),
        record.magic@ == seq![
            0x43u8, 0x4f, 0x4e, 0x44, 0x41, 0x5f, 0x53, 0x48, 0x49, 0x50, 0x5f, 0x52, 0x45, 0x41,
            0x44, 0x31,
        ],
        record.record_version == 1,
        record.footer_version == 1,
        forall|i: int| 0 <= i < 16 ==> #[trigger] record.reserved@[i] == 0,
        record.record_version == READER_CAPABILITY_VERSION,
        record.footer_version == FORMAT_VERSION,
        record.layout_kind == layout_kind,
        record.flags == 0,
        record.reserved@ == bytes::zeros(16),
        record.record_bytes() == capability_record_bytes(layout_kind),
{
    let record: ReaderCapabilityRecord = ReaderCapabilityRecord {
        magic: reader_capability_magic_bytes(),
        record_version: READER_CAPABILITY_VERSION,
        footer_version: FORMAT_VERSION,
        layout_kind,
        flags: 0,
        reserved: [0; 16],
    };
    assert(record.reserved@ =~= bytes::zeros(16));
    record
}

impl ReaderCapabilityRecord {
    /// The bytes of the record.
    pub open spec fn record_bytes(self) -> Seq<u8> {
        self.magic@ + bytes::u32_bytes(self.record_version) + bytes::u32_bytes(self.footer_version)
            + bytes::u32_bytes(self.layout_kind) + bytes::u32_bytes(self.flags) + self.reserved@
    }

    /// The bytes of the record, as a template holds them.
    pub fn to_bytes(&self) -> (record: Vec<u8>)
        ensures
            record@ == self.record_bytes(),
            record@.len() == 48,
            record@.subrange(0, 16) == self.magic@,
            bytes::le_u32(record@, 16) == self.record_version,
            bytes::le_u32(record@, 20) == self.footer_version,
            bytes::le_u32(record@, 24) == self.layout_kind,
            bytes::le_u32(record@, 28) == self.flags,
            record@.subrange(32, 48) == self.reserved@,
    {
        let mut record: Vec<u8> = Vec::new();
        append_bytes(&mut record, &self.magic);
        append_bytes(&mut record, &encode_u32(self.record_version));
        append_bytes(&mut record, &encode_u32(self.footer_version));
        append_bytes(&mut record, &encode_u32(self.layout_kind));
        append_bytes(&mut record, &encode_u32(self.flags));
        append_bytes(&mut record, &self.reserved);
        assert(record@ =~= self.record_bytes());
        proof {
            assert(record@.subrange(0, 16) =~= self.magic@);
            assert(record@.subrange(32, 48) =~= self.reserved@);
            lemma_written_field(record@, 16, self.record_version);
            lemma_written_field(record@, 20, self.footer_version);
            lemma_written_field(record@, 24, self.layout_kind);
            lemma_written_field(record@, 28, self.flags);
        }
        record
    }
}

/// Whether the record at `offset` is one of this layout kind.
pub open spec fn is_capability_record(image: Seq<u8>, offset: int, layout_kind: u32) -> bool {
    &&& image.subrange(offset, offset + 16) == reader_capability_magic()
    &&& bytes::le_u32(image, offset + 16) == READER_CAPABILITY_VERSION
    &&& bytes::le_u32(image, offset + 20) == FORMAT_VERSION
    &&& bytes::le_u32(image, offset + 24) == layout_kind
    &&& bytes::le_u32(image, offset + 28) == 0
    &&& bytes::all_zero(image.subrange(offset + 32, offset + 48))
}

/// The smaller one of the two.
pub open spec fn lower(left: int, right: int) -> int {
    if left <= right {
        left
    } else {
        right
    }
}

/// Why `image` is refused, whose record is said to lie at `location`, offset and size of the
/// section that holds it.
pub open spec fn capability_error(
    image: Seq<u8>,
    location: Option<(u64, u64)>,
    layout_kind: u32,
) -> Option<RuntimeDataError> {
    match location {
        None => Some(
            invalid_data("runtime template does not declare the signed-layout reader ABI"),
        ),
        Some((offset, storage_len)) => if storage_len < READER_CAPABILITY_RECORD_LEN {
            Some(invalid_data("runtime template reader capability record is truncated"))
        } else if offset + READER_CAPABILITY_RECORD_LEN > image.len() {
            Some(RuntimeDataError::UnexpectedEof)
        } else if !is_capability_record(image, offset as int, layout_kind) {
            Some(invalid_data("runtime template reader capability record is invalid"))
        } else if !bytes::all_zero(
            image.subrange(
                offset + READER_CAPABILITY_RECORD_LEN,
                lower(offset + storage_len, image.len() as int),
            ),
        ) {
            Some(invalid_data("runtime template reader capability section has nonzero padding"))
        } else {
            None
        },
    }
}

/// An image is accepted for its record exactly where the record is one of the layout kind and
/// nothing but zeros follows it in its section.
proof fn lemma_accepted_record(image: Seq<u8>, offset: u64, storage_len: u64, layout_kind: u32)
    ensures
        capability_error(image, Some((offset, storage_len)), layout_kind) is None <==> {
            &&& 48 <= storage_len
            &&& offset + 48 <= image.len()
            &&& image.subrange(offset as int, offset + 16) == seq![
            0x43u8, 0x4f, 0x4e, 0x44, 0x41, 0x5f, 0x53, 0x48, 0x49, 0x50, 0x5f, 0x52, 0x45,
            0x41, 0x44, 0x31,
            ]
            &&& bytes::le_u32(image, offset + 16) == 1
            &&& bytes::le_u32(image, offset + 20) == 1
            &&& bytes::le_u32(image, offset + 24) == layout_kind
            &&& bytes::le_u32(image, offset + 28) == 0
            &&& (forall|i: int|
                offset + 32 <= i < offset + storage_len && i < image.len() ==> #[trigger] image[i]
                    == 0)
        },
{
    if 48 <= storage_len && offset + 48 <= image.len() {
        let end = lower(offset + storage_len, image.len() as int);
        let reserved = image.subrange(offset + 32, offset + 48);
        let padding = image.subrange(offset + 48, end);
        if bytes::all_zero(reserved) && bytes::all_zero(padding) {
            assert forall|i: int|
                offset + 32 <= i < offset + storage_len && i < image.len() implies #[trigger] image[i]
                == 0 by {
                if i < offset + 48 {
                    assert(reserved[i - (offset + 32)] == 0);
                } else {
                    assert(padding[i - (offset + 48)] == 0);
                }
            }
        }
    }
}

/// Refuses an image without a reader capability record of this layout kind at `location`.
pub fn validate_reader_capability_record(
    image: &[u8],
    location: Option<(u64, u64)>,
    expected_layout_kind: u32,
) -> (result: Result<(), RuntimeDataError>)
    ensures
        result == (match capability_error(image@, location, expected_layout_kind) {
            Some(error) => Err(error),
            None => Ok(()),
        }),
        result is Ok <==> (location matches Some((offset, storage_len)) && {
            &&& 48 <= storage_len
            &&& offset + 48 <= image@.len()
            &&& image@.subrange(offset as int, offset + 16) == seq![
                0x43u8, 0x4f, 0x4e, 0x44, 0x41, 0x5f, 0x53, 0x48, 0x49, 0x50, 0x5f, 0x52, 0x45,
                0x41, 0x44, 0x31,
            ]
            &&& bytes::le_u32(image@, offset + 16) == 1
            &&& bytes::le_u32(image@, offset + 20) == 1
            &&& bytes::le_u32(image@, offset + 24) == expected_layout_kind
            &&& bytes::le_u32(image@, offset + 28) == 0
            &&& (forall|i: int|
                offset + 32 <= i < offset + storage_len && i < image@.len() ==> #[trigger] image@[i]
                    == 0)
        }),
        location is None ==> result is Err && result->Err_0 == RuntimeDataError::InvalidData(
            "runtime template does not declare the signed-layout reader ABI",
        ),
        location matches Some((offset, storage_len)) && storage_len < 48 ==> result is Err
            && result->Err_0 == RuntimeDataError::InvalidData(
            "runtime template reader capability record is truncated",
        ),
{
    proof {
        if let Some((offset, storage_len)) = location {
            lemma_accepted_record(image@, offset, storage_len, expected_layout_kind);
        }
    }
    let (offset, storage_len): (u64, u64) = match location {
        Some(location) => location,
        None => {
            return Err(
                invalid_data("runtime template does not declare the signed-layout reader ABI"),
            );
        },
    };
    if storage_len < READER_CAPABILITY_RECORD_LEN {
        return Err(invalid_data("runtime template reader capability record is truncated"));
    }
    let len: u64 = image.len() as u64;
    if len < READER_CAPABILITY_RECORD_LEN || offset > len - READER_CAPABILITY_RECORD_LEN {
        return Err(RuntimeDataError::UnexpectedEof);
    }
    let at: usize = offset as usize;
    if !holds_at(image, at, &reader_capability_magic_bytes()) || read_u32(image, at + 16)
        != READER_CAPABILITY_VERSION || read_u32(image, at + 20) != FORMAT_VERSION || read_u32(
        image,
        at + 24,
    ) != expected_layout_kind || read_u32(image, at + 28) != 0 || !is_all_zero(
        slice_subrange(image, at + 32, at + 48),
    ) {
        return Err(invalid_data("runtime template reader capability record is invalid"));
    }
    let end: usize = if storage_len > len - offset {
        image.len()
    } else {
        (offset + storage_len) as usize
    };
    if !is_all_zero(slice_subrange(image, at + 48, end)) {
        return Err(
            invalid_data("runtime template reader capability section has nonzero padding"),
        );
    }
    Ok(())
}

/// Why a runtime template is refused for what it declares of its reader.
pub open spec fn template_reader_error(image: Seq<u8>) -> Option<RuntimeDataError> {
    match executable::binary_format(image) {
        Err(error) => Some(error),
        Ok(BinaryFormat::MachO64) => match layout::macho_layout(image) {
            Err(error) => Some(error),
            Ok(layout) => capability_error(
                image,
                layout.reader_capability,
                MACHO_READER_LAYOUT_KIND,
            ),
        },
        Ok(BinaryFormat::Pe) => match pe::pe_layout(image) {
            Err(error) => Some(error),
            Ok(layout) => capability_error(image, layout.reader_capability, PE_READER_LAYOUT_KIND),
        },
        Ok(_) => None,
    }
}

/// Refuses a Mach-O or PE template that does not declare that it reads signed layouts.
pub fn validate_runtime_template_reader(image: &[u8]) -> (result: Result<(), RuntimeDataError>)
    ensures
        result == (match template_reader_error(image@) {
            Some(error) => Err(error),
            None => Ok(()),
        }),
        result is Ok <==> match executable::binary_format(image@) {
            Err(_) => false,
            Ok(BinaryFormat::MachO64) => layout::macho_layout(image@) matches Ok(found)
                && found.reader_capability matches Some((offset, storage_len)) && {
                &&& 48 <= storage_len
                &&& offset + 48 <= image@.len()
                &&& image@.subrange(offset as int, offset + 16) == seq![
                    0x43u8, 0x4f, 0x4e, 0x44, 0x41, 0x5f, 0x53, 0x48, 0x49, 0x50, 0x5f, 0x52, 0x45,
                    0x41, 0x44, 0x31,
                ]
                &&& bytes::le_u32(image@, offset + 16) == 1
                &&& bytes::le_u32(image@, offset + 20) == 1
                &&& bytes::le_u32(image@, offset + 24) == 1
                &&& bytes::le_u32(image@, offset + 28) == 0
                &&& (forall|i: int|
                    offset + 32 <= i < offset + storage_len && i < image@.len() ==> #[trigger] image@[i]
                        == 0)
            },
            Ok(BinaryFormat::Pe) => pe::pe_layout(image@) matches Ok(found)
                && found.reader_capability matches Some((offset, storage_len)) && {
                &&& 48 <= storage_len
                &&& offset + 48 <= image@.len()
                &&& image@.subrange(offset as int, offset + 16) == seq![
                    0x43u8, 0x4f, 0x4e, 0x44, 0x41, 0x5f, 0x53, 0x48, 0x49, 0x50, 0x5f, 0x52, 0x45,
                    0x41, 0x44, 0x31,
                ]
                &&& bytes::le_u32(image@, offset + 16) == 1
                &&& bytes::le_u32(image@, offset + 20) == 1
                &&& bytes::le_u32(image@, offset + 24) == 2
                &&& bytes::le_u32(image@, offset + 28) == 0
                &&& (forall|i: int|
                    offset + 32 <= i < offset + storage_len && i < image@.len() ==> #[trigger] image@[i]
                        == 0)
            },
            Ok(_) => true,
        },
{
    match detect_binary_format(image)? {
        BinaryFormat::MachO64 => {
            let layout: MachOLayout = read_macho_layout(image)?;
            validate_reader_capability_record(
                image,
                layout.reader_capability,
                MACHO_READER_LAYOUT_KIND,
            )
        },
        BinaryFormat::Pe => {
            let layout: PeImageLayout = read_pe_layout(image)?;
            validate_reader_capability_record(
                image,
                layout.reader_capability,
                PE_READER_LAYOUT_KIND,
            )
        },
        _ => Ok(()),
    }
}

/// A record that a template was built with is accepted where it lies, with any zero padding
/// behind it.
pub proof fn law_declared_capability_is_accepted(
    image: Seq<u8>,
    offset: u64,
    storage_len: u64,
    layout_kind: u32,
)
    requires
        READER_CAPABILITY_RECORD_LEN <= storage_len,
        offset + storage_len <= image.len(),
        image.subrange(offset as int, offset + 48) == capability_record_bytes(layout_kind),
        bytes::all_zero(image.subrange(offset + 48, offset + storage_len)),
    ensures
        capability_error(image, Some((offset, storage_len)), layout_kind) is None,
{
    let at = offset as int;
    let record = capability_record_bytes(layout_kind);
    assert(image.subrange(at, at + 16) =~= record.subrange(0, 16));
    assert(record.subrange(0, 16) =~= reader_capability_magic());
    lemma_record_field(image, at, layout_kind, 16, READER_CAPABILITY_VERSION);
    lemma_record_field(image, at, layout_kind, 20, FORMAT_VERSION);
    lemma_record_field(image, at, layout_kind, 24, layout_kind);
    lemma_record_field(image, at, layout_kind, 28, 0);
    assert(image.subrange(at + 32, at + 48) =~= record.subrange(32, 48));
    assert(record.subrange(32, 48) =~= bytes::zeros(16));
}

/// A field reads as it was written.
proof fn lemma_written_field(record: Seq<u8>, at: int, value: u32)
    requires
        0 <= at && at + 4 <= record.len(),
        record.subrange(at, at + 4) =~= bytes::u32_bytes(value),
    ensures
        bytes::le_u32(record, at) == value,
{
    let field_bytes = bytes::u32_bytes(value);
    assert(field_bytes.subrange(0, 4) =~= field_bytes);
    bytes::lemma_le_u32_window(record, at, field_bytes, 0);
    bytes::lemma_u32_round_trip(value);
}

/// The field at `field` of a record reads as it was written.
proof fn lemma_record_field(image: Seq<u8>, at: int, layout_kind: u32, field: int, value: u32)
    requires
        0 <= at && at + 48 <= image.len(),
        image.subrange(at, at + 48) == capability_record_bytes(layout_kind),
        16 <= field <= 28,
        capability_record_bytes(layout_kind).subrange(field, field + 4) =~= bytes::u32_bytes(value),
    ensures
        bytes::le_u32(image, at + field) == value,
{
    let record = capability_record_bytes(layout_kind);
    let field_bytes = bytes::u32_bytes(value);
    assert(image.subrange(at + field, at + field + 4) =~= record.subrange(field, field + 4));
    assert(field_bytes.subrange(0, 4) =~= field_bytes);
    bytes::lemma_le_u32_window(image, at + field, field_bytes, 0);
    bytes::lemma_u32_round_trip(value);
}

} // verus!
