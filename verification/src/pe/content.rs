//! Where the header and the bundle of a stamped PE image lie.

use vstd::prelude::*;

use crate::align;
use crate::align::align_up;
use crate::error::{invalid_data, RuntimeDataError};
use crate::pe::PE_CERTIFICATE_ALIGNMENT;

verus! {

/// Start and end of `content_len` bytes behind an anchor section that ends at `anchor_end`: they
/// end where a certificate table can start, with as little padding before them as that takes.
pub open spec fn content_layout(anchor_end: u64, content_len: u64) -> Result<
    (u64, u64),
    RuntimeDataError,
> {
    let unaligned_end = anchor_end + content_len;
    let alignment = PE_CERTIFICATE_ALIGNMENT as int;
    let payload_end = align::aligned(unaligned_end, alignment);
    if unaligned_end > u64::MAX {
        Err(invalid_data("PE runtime data range overflow"))
    } else if unaligned_end + (alignment - 1) > u64::MAX {
        Err(invalid_data("binary alignment overflow"))
    } else if payload_end > u32::MAX {
        Err(invalid_data("PE runtime data is too large for a certificate table offset"))
    } else {
        Ok(((payload_end - content_len) as u64, payload_end as u64))
    }
}

/// Start and end of `content_len` bytes behind an anchor section that ends at `anchor_end`.
pub fn pe_runtime_content_layout(anchor_end: u64, content_len: u64) -> (result: Result<
    (u64, u64),
    RuntimeDataError,
>)
    ensures
        result == content_layout(anchor_end, content_len),
        result is Ok <==> anchor_end + content_len <= 0xffff_fff8,
        result matches Ok((start, end)) ==> {
            &&& anchor_end <= start < anchor_end + 8
            &&& start + content_len == end
            &&& end % 8 == 0
        },
        result matches Err(error) ==> error == (if anchor_end + content_len > u64::MAX {
            RuntimeDataError::InvalidData("PE runtime data range overflow")
        } else if anchor_end + content_len > u64::MAX - 7 {
            RuntimeDataError::InvalidData("binary alignment overflow")
        } else {
            RuntimeDataError::InvalidData(
                "PE runtime data is too large for a certificate table offset",
            )
        }),
{
    proof {
        align::lemma_aligned(anchor_end + content_len, 8);
    }
    if content_len > u64::MAX - anchor_end {
        return Err(invalid_data("PE runtime data range overflow"));
    }
    let unaligned_end: u64 = anchor_end + content_len;
    let payload_end: u64 = align_up(unaligned_end, PE_CERTIFICATE_ALIGNMENT)?;
    if payload_end > u32::MAX as u64 {
        return Err(
            invalid_data("PE runtime data is too large for a certificate table offset"),
        );
    }
    proof {
        align::lemma_aligned(unaligned_end as int, PE_CERTIFICATE_ALIGNMENT as int);
    }
    Ok((anchor_end + (payload_end - unaligned_end), payload_end))
}

/// Content lies right behind the anchor section, with less than eight bytes of padding, fills
/// the file up to its end, and ends at a multiple of eight that a certificate table offset can
/// name.
pub proof fn law_content_layout(anchor_end: u64, content_len: u64, start: u64, end: u64)
    requires
        content_layout(anchor_end, content_len) == Ok::<(u64, u64), RuntimeDataError>(
            (start, end),
        ),
    ensures
        anchor_end <= start < anchor_end + PE_CERTIFICATE_ALIGNMENT,
        start + content_len == end,
        end % PE_CERTIFICATE_ALIGNMENT == 0,
        end <= u32::MAX,
{
    align::lemma_aligned(anchor_end + content_len, PE_CERTIFICATE_ALIGNMENT as int);
}

} // verus!
