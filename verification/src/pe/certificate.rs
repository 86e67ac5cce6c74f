//! The certificate table of a signed PE image.

use vstd::prelude::*;

use crate::align;
use crate::align::align_up;
use crate::bytes;
use crate::bytes::read_u32;
use crate::error::{invalid_data, RuntimeDataError};
use crate::pe::{PeCertificateLayout, PE_CERTIFICATE_ALIGNMENT};

verus! {

/// The most entries of a certificate table that are read.
pub const MAX_PE_CERTIFICATE_ENTRIES: u64 = 1024;

/// Why the entries of a certificate table from `cursor` on are refused, where `entries` come
/// before them: each starts with its length and fills a multiple of eight bytes, and together
/// they have to fill the table.
pub open spec fn certificate_entries_error(
    image: Seq<u8>,
    certificate: PeCertificateLayout,
    cursor: u64,
    entries: u64,
) -> Option<RuntimeDataError>
    decreases certificate.size - cursor,
{
    let at = certificate.offset + cursor;
    let entry_len = bytes::le_u32(image, at);
    let next = cursor + align::aligned(entry_len as int, PE_CERTIFICATE_ALIGNMENT as int);
    if cursor >= certificate.size {
        None
    } else if certificate.size - cursor < 8 {
        Some(invalid_data("PE certificate table entry is truncated"))
    } else if entries >= MAX_PE_CERTIFICATE_ENTRIES {
        Some(invalid_data("PE certificate table exceeds the 1024-entry limit"))
    } else if at + 8 > image.len() {
        Some(RuntimeDataError::UnexpectedEof)
    } else if entry_len < 8 {
        Some(invalid_data("PE certificate table entry is too small"))
    } else if next > u64::MAX {
        Some(invalid_data("PE certificate table entry range overflow"))
    } else if next > certificate.size {
        Some(invalid_data("PE certificate entries exceed the Security Directory size"))
    } else {
        proof {
            align::lemma_aligned(entry_len as int, PE_CERTIFICATE_ALIGNMENT as int);
        }
        certificate_entries_error(image, certificate, next as u64, (entries + 1) as u64)
    }
}

/// Where the entries of an accepted certificate table from `cursor` on start.
proof fn lemma_entries_from(
    image: Seq<u8>,
    certificate: PeCertificateLayout,
    cursor: u64,
    entries: u64,
) -> (starts: Seq<int>)
    requires
        certificate_entries_error(image, certificate, cursor, entries) is None,
        cursor <= certificate.size,
        entries <= 1024,
    ensures
        starts.len() >= 1,
        starts[0] == cursor,
        starts.last() == certificate.size,
        starts.len() - 1 + entries <= 1024,
        forall|i: int|
            0 <= i < starts.len() - 1 ==> {
                let at = certificate.offset + #[trigger] starts[i];
                let entry_len = bytes::le_u32(image, at);
                &&& at + 8 <= image.len()
                &&& entry_len >= 8
                &&& (starts[i + 1] - starts[i]) % 8 == 0
                &&& entry_len <= starts[i + 1] - starts[i] < entry_len + 8
            },
    decreases certificate.size - cursor,
{
    if cursor >= certificate.size {
        seq![cursor as int]
    } else {
        let entry_len = bytes::le_u32(image, certificate.offset + cursor);
        let step = align::aligned(entry_len as int, 8);
        align::lemma_aligned(entry_len as int, 8);
        let rest = lemma_entries_from(
            image,
            certificate,
            (cursor + step) as u64,
            (entries + 1) as u64,
        );
        let starts = seq![cursor as int] + rest;
        assert(starts[0] == cursor);
        assert(starts.last() == rest.last());
        assert forall|i: int| 0 <= i < starts.len() - 1 implies {
            let at = certificate.offset + #[trigger] starts[i];
            let entry_len = bytes::le_u32(image, at);
            &&& at + 8 <= image.len()
            &&& entry_len >= 8
            &&& (starts[i + 1] - starts[i]) % 8 == 0
            &&& entry_len <= starts[i + 1] - starts[i] < entry_len + 8
        } by {
            if i == 0 {
                assert(starts[1] == rest[0]);
            } else {
                assert(starts[i] == rest[i - 1]);
                assert(starts[i + 1] == rest[i]);
            }
        }
        starts
    }
}

/// A certificate table that is accepted is filled by its entries, at most 1024 of them: the first
/// starts the table, each has at least eight bytes and its length in front, the next one comes
/// at the next multiple of eight behind it, and the last one ends the table.
pub proof fn law_accepted_entries_fill_the_table(
    image: Seq<u8>,
    certificate: PeCertificateLayout,
) -> (starts: Seq<int>)
    requires
        certificate_entries_error(image, certificate, 0, 0) is None,
    ensures
        starts.len() >= 1,
        starts[0] == 0,
        starts.last() == certificate.size,
        starts.len() - 1 <= 1024,
        forall|i: int|
            0 <= i < starts.len() - 1 ==> {
                let at = certificate.offset + #[trigger] starts[i];
                let entry_len = bytes::le_u32(image, at);
                &&& at + 8 <= image.len()
                &&& entry_len >= 8
                &&& (starts[i + 1] - starts[i]) % 8 == 0
                &&& entry_len <= starts[i + 1] - starts[i] < entry_len + 8
            },
{
    lemma_entries_from(image, certificate, 0, 0)
}

/// Entries from one of the starts on that fill the rest of the table are accepted.
proof fn lemma_filled_from(
    image: Seq<u8>,
    certificate: PeCertificateLayout,
    starts: Seq<int>,
    entries: u64,
)
    requires
        starts.len() >= 1,
        0 <= starts[0] <= certificate.size,
        starts.last() == certificate.size,
        starts.len() - 1 + entries <= 1024,
        forall|i: int|
            0 <= i < starts.len() - 1 ==> {
                let at = certificate.offset + #[trigger] starts[i];
                let entry_len = bytes::le_u32(image, at);
                &&& at + 8 <= image.len()
                &&& entry_len >= 8
                &&& (starts[i + 1] - starts[i]) % 8 == 0
                &&& entry_len <= starts[i + 1] - starts[i] < entry_len + 8
            },
    ensures
        certificate_entries_error(image, certificate, starts[0] as u64, entries) is None,
    decreases starts.len(),
{
    if starts.len() > 1 {
        let rest = starts.skip(1);
        let entry_len = bytes::le_u32(image, certificate.offset + starts[0]);
        align::law_aligned_is_the_next_multiple(entry_len as int, 8, starts[1] - starts[0]);
        lemma_ascending(starts, 1);
        assert(rest[0] == starts[1]);
        assert(rest.last() == starts.last());
        assert forall|i: int| 0 <= i < rest.len() - 1 implies {
            let at = certificate.offset + #[trigger] rest[i];
            let entry_len = bytes::le_u32(image, at);
            &&& at + 8 <= image.len()
            &&& entry_len >= 8
            &&& (rest[i + 1] - rest[i]) % 8 == 0
            &&& entry_len <= rest[i + 1] - rest[i] < entry_len + 8
        } by {
            assert(rest[i] == starts[i + 1]);
            assert(rest[i + 1] == starts[i + 2]);
        }
        lemma_filled_from(image, certificate, rest, (entries + 1) as u64);
    }
}

/// Steps that all go up end no lower than they pass.
proof fn lemma_ascending(starts: Seq<int>, from: int)
    requires
        0 <= from < starts.len(),
        forall|i: int| 0 <= i < starts.len() - 1 ==> #[trigger] starts[i] <= starts[i + 1],
    ensures
        starts[from] <= starts.last(),
    decreases starts.len() - from,
{
    if from < starts.len() - 1 {
        assert(starts[from] <= starts[from + 1]);
        lemma_ascending(starts, from + 1);
    }
}

/// A certificate table that is filled by at most 1024 entries, each with its length in front, is
/// accepted.
pub proof fn law_a_filled_table_is_accepted(
    image: Seq<u8>,
    certificate: PeCertificateLayout,
    starts: Seq<int>,
)
    requires
        starts.len() >= 1,
        starts[0] == 0,
        starts.last() == certificate.size,
        starts.len() - 1 <= 1024,
        forall|i: int|
            0 <= i < starts.len() - 1 ==> {
                let at = certificate.offset + #[trigger] starts[i];
                let entry_len = bytes::le_u32(image, at);
                &&& at + 8 <= image.len()
                &&& entry_len >= 8
                &&& (starts[i + 1] - starts[i]) % 8 == 0
                &&& entry_len <= starts[i + 1] - starts[i] < entry_len + 8
            },
    ensures
        certificate_entries_error(image, certificate, 0, 0) is None,
{
    lemma_filled_from(image, certificate, starts, 0);
}

/// Refuses a certificate table that its entries do not fill.
pub fn validate_pe_certificate_table(image: &[u8], certificate: PeCertificateLayout) -> (result:
    Result<(), RuntimeDataError>)
    ensures
        result == (match certificate_entries_error(image@, certificate, 0, 0) {
            Some(error) => Err(error),
            None => Ok(()),
        }),
{
    let mut cursor: u64 = 0;
    let mut entry_count: u64 = 0;
    while cursor < certificate.size
        invariant
            entry_count <= MAX_PE_CERTIFICATE_ENTRIES,
            certificate_entries_error(image@, certificate, cursor, entry_count)
                == certificate_entries_error(image@, certificate, 0, 0),
        decreases certificate.size - cursor,
    {
        if certificate.size - cursor < 8 {
            return Err(invalid_data("PE certificate table entry is truncated"));
        }
        if entry_count >= MAX_PE_CERTIFICATE_ENTRIES {
            return Err(invalid_data("PE certificate table exceeds the 1024-entry limit"));
        }
        let len: u64 = image.len() as u64;
        if len < 8 || certificate.offset > len - 8 || cursor > len - 8 - certificate.offset {
            return Err(RuntimeDataError::UnexpectedEof);
        }
        let entry_len: u64 = read_u32(image, (certificate.offset + cursor) as usize) as u64;
        if entry_len < 8 {
            return Err(invalid_data("PE certificate table entry is too small"));
        }
        let aligned_len: u64 = align_up(entry_len, PE_CERTIFICATE_ALIGNMENT)?;
        proof {
            align::lemma_aligned(entry_len as int, PE_CERTIFICATE_ALIGNMENT as int);
        }
        if aligned_len > u64::MAX - cursor {
            return Err(invalid_data("PE certificate table entry range overflow"));
        }
        if cursor + aligned_len > certificate.size {
            return Err(
                invalid_data("PE certificate entries exceed the Security Directory size"),
            );
        }
        cursor = cursor + aligned_len;
        entry_count = entry_count + 1;
    }
    Ok(())
}

} // verus!
