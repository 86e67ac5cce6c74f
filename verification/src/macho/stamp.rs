//! Stamping runtime data onto Mach-O executables.
//!
//! The runtime data ends the `__LINKEDIT` segment and with it the file. A code signature is
//! taken off first, with its load command; where there is none, the header has to have room for
//! one, so that the stamped executable can be signed.

use vstd::prelude::*;
use vstd::slice::{slice_subrange, slice_to_vec};

use crate::align;
use crate::align::align_up;
use crate::bytes;
use crate::bytes::{append_bytes, encode_u32, encode_u64, is_all_zero, overwrite, resize};
use crate::error::{invalid_data, RuntimeDataError};
use crate::executable;
use crate::executable::validate_macho_platform;
use crate::footer::FOOTER_LEN;
use crate::macho::final_layout;
use crate::macho::final_layout::validate_macho_final_layout;
use crate::macho::laws;
use crate::macho::layout;
use crate::macho::layout::read_macho_layout;
use crate::macho::preservation;
use crate::macho::{
    MachOLayout, CPU_TYPE_ARM64, CPU_TYPE_X86_64, MACHO_CODE_SIGNATURE_LEN,
    MACHO_SIGNATURE_ALIGNMENT,
};
use crate::payload;
use crate::payload::{write_runtime_payload, PreparedRuntimeData};

verus! {

/// The size of the pages that a CPU maps segments in.
pub open spec fn page_size(cpu_type: u32) -> Option<u64> {
    if cpu_type == CPU_TYPE_X86_64 {
        Some(0x1000)
    } else if cpu_type == CPU_TYPE_ARM64 {
        Some(0x4000)
    } else {
        None
    }
}

/// Why no code signature command fits behind the load commands.
pub open spec fn signature_room_error(image: Seq<u8>, found: MachOLayout) -> Option<
    RuntimeDataError,
> {
    let room_end = found.prefix_len + MACHO_CODE_SIGNATURE_LEN;
    if found.first_section_offset is None || room_end > found.first_section_offset->0 {
        Some(invalid_data("Mach-O header has no room for a code signature command"))
    } else if !bytes::all_zero(image.subrange(found.prefix_len as int, room_end)) {
        Some(invalid_data("Mach-O code signature command slot is not zero-filled"))
    } else {
        None
    }
}

/// Where the executable ends without its code signature.
pub open spec fn unsigned_end(found: MachOLayout, file_len: u64) -> u64 {
    match found.code_signature {
        Some((_, offset, _)) => offset,
        None => file_len,
    }
}

/// The header and the load commands without the code signature command at `at`.
pub open spec fn without_signature_command(prefix: Seq<u8>, at: int) -> Seq<u8> {
    prefix.take(at) + prefix.skip(at + MACHO_CODE_SIGNATURE_LEN) + bytes::zeros(
        MACHO_CODE_SIGNATURE_LEN as nat,
    )
}

/// The header and the load commands without a code signature command, and with these sizes of
/// the `__LINKEDIT` segment in memory and in the file.
pub open spec fn stamped_prefix(
    prefix: Seq<u8>,
    found: MachOLayout,
    vmsize: u64,
    filesize: u64,
) -> Seq<u8> {
    let linkedit = found.linkedit_command_offset as int;
    let (commands, linkedit, count, len) = match found.code_signature {
        Some((at, _, _)) => (
            without_signature_command(prefix, at as int),
            if at < linkedit {
                linkedit - MACHO_CODE_SIGNATURE_LEN
            } else {
                linkedit
            },
            (found.command_count - 1) as u32,
            (found.commands_len - MACHO_CODE_SIGNATURE_LEN) as u32,
        ),
        None => (prefix, linkedit, found.command_count, found.commands_len),
    };
    let resized = bytes::overwritten(
        bytes::overwritten(commands, linkedit + 32, bytes::u64_bytes(vmsize)),
        linkedit + 48,
        bytes::u64_bytes(filesize),
    );
    bytes::overwritten(
        bytes::overwritten(resized, 16, bytes::u32_bytes(count)),
        20,
        bytes::u32_bytes(len),
    )
}

/// The sizes of a stamped executable.
pub struct StampSizes {
    pub payload_offset: u64,
    pub linkedit_filesize: u64,
    pub linkedit_vmsize: u64,
}

/// The sizes of the executable once `payload_len` bytes are stamped onto it.
pub open spec fn stamp_sizes(found: MachOLayout, payload_len: u64, file_len: u64, page: u64) -> Result<
    StampSizes,
    RuntimeDataError,
> {
    match align::aligned_up(unsigned_end(found, file_len), MACHO_SIGNATURE_ALIGNMENT) {
        Err(error) => Err(error),
        Ok(payload_offset) => {
            let payload_end = payload_offset + payload_len;
            if payload_end > u64::MAX {
                Err(invalid_data("Mach-O runtime data range overflow"))
            } else {
                match align::aligned_up(payload_end as u64, MACHO_SIGNATURE_ALIGNMENT) {
                    Err(error) => Err(error),
                    Ok(signature_offset) => if signature_offset > u32::MAX {
                        Err(
                            invalid_data(
                                "Mach-O runtime data is too large for a code signature offset",
                            ),
                        )
                    } else {
                        let linkedit_filesize = (payload_end - found.linkedit_fileoff) as u64;
                        match align::aligned_up(linkedit_filesize, page) {
                            Err(error) => Err(error),
                            Ok(linkedit_vmsize) => Ok(
                                StampSizes { payload_offset, linkedit_filesize, linkedit_vmsize },
                            ),
                        }
                    },
                }
            }
        },
    }
}

/// The Mach-O executable `image` with this layout once it is stamped.
pub open spec fn stamped_macho_layout(
    image: Seq<u8>,
    found: MachOLayout,
    header: Seq<u8>,
    bundle: Seq<u8>,
    bundle_len: u64,
    platform: Seq<char>,
) -> Result<Seq<u8>, RuntimeDataError> {
    let file_len = image.len() as u64;
    let payload_len = (header.len() + bundle_len + FOOTER_LEN) as u64;
    let prefix = image.take(found.prefix_len as int);
    if let Some(error) = final_layout::final_layout_error(found, file_len) {
        Err(error)
    } else if let Some(error) = executable::macho_platform_error(
        found.cpu_type,
        found.cpu_subtype,
        platform,
    ) {
        Err(error)
    } else if page_size(found.cpu_type) is None {
        Err(RuntimeDataError::MachoCpuType(found.cpu_type))
    } else if found.code_signature is None && signature_room_error(image, found) is Some {
        Err(signature_room_error(image, found)->0)
    } else {
        match stamp_sizes(found, payload_len, file_len, page_size(found.cpu_type)->0) {
            Err(error) => Err(error),
            Ok(sizes) => match payload::bundle_len_error(bundle.len() as int, bundle_len) {
                Some(error) => Err(error),
                None => Ok(
                    bytes::resized(
                        bytes::overwritten(
                            image,
                            0,
                            stamped_prefix(
                                prefix,
                                found,
                                sizes.linkedit_vmsize,
                                sizes.linkedit_filesize,
                            ),
                        ),
                        sizes.payload_offset as nat,
                    ) + payload::payload_bytes(header, bundle),
                ),
            },
        }
    }
}

/// The Mach-O executable `image` once a header and a bundle are stamped onto it, of which
/// `bundle_len` bytes were expected.
pub open spec fn stamped_macho(
    image: Seq<u8>,
    header: Seq<u8>,
    bundle: Seq<u8>,
    bundle_len: u64,
    platform: Seq<char>,
) -> Result<Seq<u8>, RuntimeDataError> {
    match layout::macho_layout(image) {
        Err(error) => Err(error),
        Ok(found) => stamped_macho_layout(image, found, header, bundle, bundle_len, platform),
    }
}

/// Refuses an executable without room for a code signature command behind its load commands.
fn check_signature_room(image: &[u8], found: &MachOLayout) -> (result: Result<
    (),
    RuntimeDataError,
>)
    requires
        found.prefix_len <= image.len(),
        found.first_section_offset matches Some(first) ==> first <= image.len(),
    ensures
        result == (match signature_room_error(image@, *found) {
            Some(error) => Err(error),
            None => Ok(()),
        }),
{
    let room_end: u64 = match found.first_section_offset {
        Some(first) => {
            if first < found.prefix_len as u64 || first - (found.prefix_len as u64)
                < MACHO_CODE_SIGNATURE_LEN as u64 {
                return Err(
                    invalid_data("Mach-O header has no room for a code signature command"),
                );
            }
            found.prefix_len as u64 + MACHO_CODE_SIGNATURE_LEN as u64
        },
        None => {
            return Err(invalid_data("Mach-O header has no room for a code signature command"));
        },
    };
    if !is_all_zero(slice_subrange(image, found.prefix_len, room_end as usize)) {
        return Err(invalid_data("Mach-O code signature command slot is not zero-filled"));
    }
    Ok(())
}

/// The sizes of the executable once `payload_len` bytes are stamped onto it.
fn plan_stamp(found: &MachOLayout, payload_len: u64, file_len: u64, page: u64) -> (result: Result<
    StampSizes,
    RuntimeDataError,
>)
    requires
        found.linkedit_fileoff <= unsigned_end(*found, file_len),
    ensures
        result == stamp_sizes(*found, payload_len, file_len, page),
{
    let payload_base: u64 = match found.code_signature {
        Some((_, offset, _)) => offset,
        None => file_len,
    };
    let payload_offset: u64 = align_up(payload_base, MACHO_SIGNATURE_ALIGNMENT)?;
    proof {
        align::lemma_aligned(payload_base as int, MACHO_SIGNATURE_ALIGNMENT as int);
    }
    if payload_len > u64::MAX - payload_offset {
        return Err(invalid_data("Mach-O runtime data range overflow"));
    }
    let payload_end: u64 = payload_offset + payload_len;
    if align_up(payload_end, MACHO_SIGNATURE_ALIGNMENT)? > u32::MAX as u64 {
        return Err(invalid_data("Mach-O runtime data is too large for a code signature offset"));
    }
    let linkedit_filesize: u64 = payload_end - found.linkedit_fileoff;
    let linkedit_vmsize: u64 = align_up(linkedit_filesize, page)?;
    Ok(StampSizes { payload_offset, linkedit_filesize, linkedit_vmsize })
}

/// The header and the load commands without a code signature command, and with these sizes of
/// the `__LINKEDIT` segment in memory and in the file.
fn rewrite_prefix(prefix: &[u8], found: &MachOLayout, vmsize: u64, filesize: u64) -> (rewritten: Vec<
    u8,
>)
    requires
        prefix.len() == found.prefix_len,
        found.prefix_len == 32 + found.commands_len,
        found.command_count >= 1,
        32 <= found.linkedit_command_offset,
        found.linkedit_command_offset + 72 <= found.prefix_len,
        found.code_signature matches Some((at, _, _)) ==> {
            &&& 32 <= at
            &&& at + MACHO_CODE_SIGNATURE_LEN <= found.prefix_len
            &&& {
                ||| at + MACHO_CODE_SIGNATURE_LEN <= found.linkedit_command_offset
                ||| found.linkedit_command_offset + 72 <= at
            }
        },
    ensures
        rewritten@ == stamped_prefix(prefix@, *found, vmsize, filesize),
{
    let mut rewritten: Vec<u8> = slice_to_vec(prefix);
    let mut linkedit: usize = found.linkedit_command_offset;
    let mut count: u32 = found.command_count;
    let mut len: u32 = found.commands_len;
    if let Some((at, _, _)) = found.code_signature {
        rewritten = slice_to_vec(slice_subrange(prefix, 0, at));
        append_bytes(
            &mut rewritten,
            slice_subrange(prefix, at + MACHO_CODE_SIGNATURE_LEN, prefix.len()),
        );
        resize(&mut rewritten, prefix.len());
        assert(rewritten@ =~= without_signature_command(prefix@, at as int));
        if at < linkedit {
            linkedit = linkedit - MACHO_CODE_SIGNATURE_LEN;
        }
        count = count - 1;
        len = len - MACHO_CODE_SIGNATURE_LEN as u32;
    }
    overwrite(&mut rewritten, linkedit + 32, &encode_u64(vmsize));
    overwrite(&mut rewritten, linkedit + 48, &encode_u64(filesize));
    overwrite(&mut rewritten, 16, &encode_u32(count));
    overwrite(&mut rewritten, 20, &encode_u32(len));
    rewritten
}

/// The Mach-O executable `image` with the prepared header and the bundle stamped onto it.
pub fn write_macho_runtime_data(
    image: &[u8],
    bundle: &[u8],
    prepared: &PreparedRuntimeData,
    platform: &str,
) -> (result: Result<Vec<u8>, RuntimeDataError>)
    requires
        prepared.well_formed(),
    ensures
        match stamped_macho(
            image@,
            prepared.header_bytes@,
            bundle@,
            prepared.bundle_len,
            platform@,
        ) {
            Ok(stamped) => result is Ok && result->Ok_0@ == stamped,
            Err(error) => result is Err && result->Err_0 == error,
        },
        result matches Ok(stamped) ==> (layout::macho_layout(image@) matches Ok(found) && {
            let start = stamped@.len() - (prepared.header_bytes@.len() + bundle@.len() + 100);
            let end = match found.code_signature {
                Some((_, offset, _)) => offset as int,
                None => image@.len() as int,
            };
            &&& end <= start < end + 16
            &&& start % 16 == 0
            &&& forall|i: int| found.prefix_len <= i < end ==> #[trigger] stamped@[i] == image@[i]
            &&& forall|i: int| end <= i < start ==> #[trigger] stamped@[i] == 0
            &&& stamped@.subrange(start, start + prepared.header_bytes@.len())
                == prepared.header_bytes@
            &&& stamped@.subrange(start + prepared.header_bytes@.len(), stamped@.len() - 100)
                == bundle@
        }),
{
    let file_len: u64 = image.len() as u64;
    let found: MachOLayout = read_macho_layout(image)?;
    proof {
        laws::law_accepted_macho_layout(image@, found);
        if let Ok(stamped) = stamped_macho(
            image@,
            prepared.header_bytes@,
            bundle@,
            prepared.bundle_len,
            platform@,
        ) {
            preservation::law_stamp_keeps_the_program(
                image@,
                found,
                prepared.header_bytes@,
                bundle@,
                prepared.bundle_len,
                platform@,
                stamped,
            );
        }
    }
    validate_macho_final_layout(&found, file_len)?;
    validate_macho_platform(found.cpu_type, found.cpu_subtype, platform)?;
    let page: u64 = if found.cpu_type == CPU_TYPE_X86_64 {
        0x1000
    } else if found.cpu_type == CPU_TYPE_ARM64 {
        0x4000
    } else {
        return Err(RuntimeDataError::MachoCpuType(found.cpu_type));
    };
    if found.code_signature.is_none() {
        check_signature_room(image, &found)?;
    }
    let sizes: StampSizes = plan_stamp(&found, prepared.payload_len, file_len, page)?;
    let prefix: &[u8] = slice_subrange(image, 0, found.prefix_len);
    assert(prefix@ =~= image@.take(found.prefix_len as int));
    let rewritten: Vec<u8> = rewrite_prefix(
        prefix,
        &found,
        sizes.linkedit_vmsize,
        sizes.linkedit_filesize,
    );
    let mut output: Vec<u8> = slice_to_vec(image);
    overwrite(&mut output, 0, &rewritten);
    proof {
        let base = unsigned_end(found, file_len);
        align::lemma_aligned(base as int, MACHO_SIGNATURE_ALIGNMENT as int);
        let end = (sizes.payload_offset + prepared.payload_len) as u64;
        align::lemma_aligned(end as int, MACHO_SIGNATURE_ALIGNMENT as int);
    }
    resize(&mut output, sizes.payload_offset as usize);
    write_runtime_payload(&mut output, bundle, prepared)?;
    Ok(output)
}

} // verus!
