//! What has to hold of a whole Mach-O executable before and after it is stamped.

use vstd::prelude::*;

use crate::error::{invalid_data, RuntimeDataError};
use crate::macho::{MachOLayout, MACHO_SIGNATURE_ALIGNMENT};

verus! {

/// Why a file of `file_len` bytes with this code signature is refused.
pub open spec fn signature_error(
    layout: MachOLayout,
    offset: u64,
    size: u64,
    file_len: u64,
) -> Option<RuntimeDataError> {
    if size == 0 {
        Some(invalid_data("Mach-O code signature is empty"))
    } else if offset + size > u64::MAX {
        Some(invalid_data("Mach-O code signature range overflow"))
    } else if offset + size != file_len {
        Some(invalid_data("Mach-O code signature is not the final data in the file"))
    } else if offset < layout.linkedit_fileoff {
        Some(invalid_data("Mach-O code signature precedes __LINKEDIT"))
    } else if offset < layout.prefix_len {
        Some(invalid_data("Mach-O code signature overlaps its load commands"))
    } else if offset % MACHO_SIGNATURE_ALIGNMENT != 0 {
        Some(invalid_data("Mach-O code signature offset is not aligned"))
    } else if offset < layout.max_non_signature_data_end {
        Some(invalid_data("Mach-O code signature overlaps referenced file data"))
    } else {
        None
    }
}

/// Why a file of `file_len` bytes with this layout is refused: the `__LINKEDIT` segment has to
/// end the file, and the code signature, where there is one, has to end the segment.
pub open spec fn final_layout_error(layout: MachOLayout, file_len: u64) -> Option<
    RuntimeDataError,
> {
    let linkedit_end = layout.linkedit_fileoff + layout.linkedit_filesize;
    if linkedit_end > u64::MAX {
        Some(invalid_data("Mach-O __LINKEDIT range overflow"))
    } else if linkedit_end != file_len || layout.linkedit_fileoff != layout.max_segment_fileoff
        || layout.linkedit_vmaddr != layout.max_segment_vmaddr {
        Some(invalid_data("Mach-O __LINKEDIT segment is not the final file segment"))
    } else if layout.linkedit_fileoff < layout.prefix_len {
        Some(invalid_data("Mach-O __LINKEDIT segment overlaps its load commands"))
    } else {
        match layout.code_signature {
            Some((_, offset, size)) => signature_error(layout, offset, size, file_len),
            None => None,
        }
    }
}

/// Refuses a file of `file_len` bytes whose `__LINKEDIT` segment and code signature do not end
/// it.
pub fn validate_macho_final_layout(layout: &MachOLayout, file_len: u64) -> (result: Result<
    (),
    RuntimeDataError,
>)
    ensures
        result == (match final_layout_error(*layout, file_len) {
            Some(error) => Err(error),
            None => Ok(()),
        }),
        result is Ok <==> {
            &&& layout.linkedit_fileoff + layout.linkedit_filesize == file_len
            &&& layout.linkedit_fileoff == layout.max_segment_fileoff
            &&& layout.linkedit_vmaddr == layout.max_segment_vmaddr
            &&& layout.prefix_len <= layout.linkedit_fileoff
            &&& match layout.code_signature {
                Some((_, offset, size)) => {
                    &&& size > 0
                    &&& offset + size == file_len
                    &&& layout.linkedit_fileoff <= offset
                    &&& layout.max_non_signature_data_end <= offset
                    &&& offset % 16 == 0
                },
                None => true,
            }
        },
        result matches Err(error) ==> error == (if layout.linkedit_fileoff
            + layout.linkedit_filesize > u64::MAX {
            RuntimeDataError::InvalidData("Mach-O __LINKEDIT range overflow")
        } else if layout.linkedit_fileoff + layout.linkedit_filesize != file_len
            || layout.linkedit_fileoff != layout.max_segment_fileoff || layout.linkedit_vmaddr
            != layout.max_segment_vmaddr {
            RuntimeDataError::InvalidData("Mach-O __LINKEDIT segment is not the final file segment")
        } else if layout.linkedit_fileoff < layout.prefix_len {
            RuntimeDataError::InvalidData("Mach-O __LINKEDIT segment overlaps its load commands")
        } else {
            match layout.code_signature {
                Some((_, offset, size)) => if size == 0 {
                    RuntimeDataError::InvalidData("Mach-O code signature is empty")
                } else if offset + size > u64::MAX {
                    RuntimeDataError::InvalidData("Mach-O code signature range overflow")
                } else if offset + size != file_len {
                    RuntimeDataError::InvalidData(
                        "Mach-O code signature is not the final data in the file",
                    )
                } else if offset < layout.linkedit_fileoff {
                    RuntimeDataError::InvalidData("Mach-O code signature precedes __LINKEDIT")
                } else if offset % 16 != 0 {
                    RuntimeDataError::InvalidData("Mach-O code signature offset is not aligned")
                } else {
                    RuntimeDataError::InvalidData(
                        "Mach-O code signature overlaps referenced file data",
                    )
                },
                None => RuntimeDataError::UnexpectedEof,
            }
        }),
{
    if layout.linkedit_filesize > u64::MAX - layout.linkedit_fileoff {
        return Err(invalid_data("Mach-O __LINKEDIT range overflow"));
    }
    if layout.linkedit_fileoff + layout.linkedit_filesize != file_len || layout.linkedit_fileoff
        != layout.max_segment_fileoff || layout.linkedit_vmaddr != layout.max_segment_vmaddr {
        return Err(invalid_data("Mach-O __LINKEDIT segment is not the final file segment"));
    }
    if layout.linkedit_fileoff < layout.prefix_len as u64 {
        return Err(invalid_data("Mach-O __LINKEDIT segment overlaps its load commands"));
    }
    if let Some((_, offset, size)) = layout.code_signature {
        if size == 0 {
            return Err(invalid_data("Mach-O code signature is empty"));
        }
        if size > u64::MAX - offset {
            return Err(invalid_data("Mach-O code signature range overflow"));
        }
        if offset + size != file_len {
            return Err(invalid_data("Mach-O code signature is not the final data in the file"));
        }
        if offset < layout.linkedit_fileoff {
            return Err(invalid_data("Mach-O code signature precedes __LINKEDIT"));
        }
        if offset < layout.prefix_len as u64 {
            return Err(invalid_data("Mach-O code signature overlaps its load commands"));
        }
        if offset % MACHO_SIGNATURE_ALIGNMENT != 0 {
            return Err(invalid_data("Mach-O code signature offset is not aligned"));
        }
        if offset < layout.max_non_signature_data_end {
            return Err(invalid_data("Mach-O code signature overlaps referenced file data"));
        }
    }
    Ok(())
}

} // verus!
