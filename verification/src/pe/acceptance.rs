//! Which PE images are accepted.

use vstd::arithmetic::power2::pow2;
use vstd::prelude::*;

use crate::align;
use crate::bytes;
use crate::error::RuntimeDataError;
use crate::object_file;
use crate::pe;
use crate::pe::reader;
use crate::pe::round_trip;
use crate::pe::{PeHeaders, PeImageLayout, PeKind, PeScan, PeSection};

verus! {

/// The fields of an entry of the section table lie where the format has them, and its name says
/// what the section is for.
pub proof fn law_section_fields(table: Seq<u8>, index: int)
    ensures
        ({
            let at = 40 * index;
            let section = pe::pe_section(table, index);
            &&& section.virtual_size == bytes::le_u32(table, at + 8)
            &&& section.virtual_address == bytes::le_u32(table, at + 12)
            &&& section.size == bytes::le_u32(table, at + 16)
            &&& section.offset == bytes::le_u32(table, at + 20)
            &&& section.characteristics == bytes::le_u32(table, at + 36)
            &&& section.is_anchor <==> table.subrange(at, at + 8) == seq![
                0x2eu8, 0x63, 0x73, 0x68, 0x69, 0x70, 0, 0,
            ]
            &&& section.is_reader_capability <==> table.subrange(at, at + 8) == seq![
                0x2eu8, 0x63, 0x73, 0x63, 0x61, 0x70, 0, 0,
            ]
        }),
{
}

/// The powers of two are the numbers that halving brings to one.
proof fn lemma_power_of_two(value: nat)
    ensures
        pe::is_power_of_two(value) <==> (exists|k: nat| value == #[trigger] pow2(k)),
    decreases value,
{
    if value == 1 {
        vstd::arithmetic::power2::lemma2_to64();
        assert(pow2(0) == 1);
    } else if value > 1 {
        lemma_power_of_two(value / 2);
        if pe::is_power_of_two(value) {
            let k = choose|k: nat| value / 2 == #[trigger] pow2(k);
            vstd::arithmetic::power2::lemma_pow2_unfold(k + 1);
            assert(value == pow2(k + 1));
        }
        if exists|k: nat| value == #[trigger] pow2(k) {
            let k = choose|k: nat| value == #[trigger] pow2(k);
            if k == 0 {
                vstd::arithmetic::power2::lemma2_to64();
            } else {
                vstd::arithmetic::power2::lemma_pow2_unfold(k);
                assert(value / 2 == pow2((k - 1) as nat));
            }
        }
    } else {
        if exists|k: nat| value == #[trigger] pow2(k) {
            let k = choose|k: nat| value == #[trigger] pow2(k);
            vstd::arithmetic::power2::lemma_pow2_pos(k);
        }
    }
}

/// Whether a section takes room in memory.
spec fn is_mapped(section: PeSection) -> bool {
    section.virtual_size > 0 || section.size > 0
}

/// Where a section ends in the file.
spec fn raw_end(section: PeSection) -> int {
    section.offset + section.size
}

/// Where a section ends in memory.
spec fn virtual_end(section: PeSection) -> int {
    section.virtual_address + pe::virtual_span(section)
}

/// Whether a section is accepted by itself.
spec fn fits(headers: PeHeaders, section: PeSection, file_len: u64) -> bool {
    let file_alignment = headers.file_alignment;
    &&& section.offset + section.size <= file_len
    &&& section.size > 0 ==> {
        &&& headers.size_of_headers <= section.offset
        &&& section.offset % file_alignment == 0
        &&& section.size % file_alignment == 0
        &&& headers.section_alignment < 4096 ==> section.offset == section.virtual_address
    }
    &&& is_mapped(section) ==> {
        &&& section.virtual_address % headers.section_alignment == 0
        &&& headers.size_of_headers <= section.virtual_address
    }
    &&& section.is_anchor ==> {
        &&& section.virtual_size == 100
        &&& section.size % file_alignment == 0
        &&& 100 <= section.size < 100 + file_alignment
        &&& section.characteristics == 0x4000_0040
    }
    &&& section.is_reader_capability ==> {
        &&& section.virtual_size == 48
        &&& section.size % file_alignment == 0
        &&& 48 <= section.size < 48 + file_alignment
        &&& section.characteristics == 0x4000_0040
    }
}

/// Whether section `j` is accepted behind section `i`.
spec fn follows(headers: PeHeaders, table: Seq<u8>, i: int, j: int) -> bool {
    let earlier = pe::pe_section(table, i);
    let later = pe::pe_section(table, j);
    &&& !(earlier.is_anchor && later.is_anchor)
    &&& !(earlier.is_reader_capability && later.is_reader_capability)
    &&& earlier.size > 0 && later.size > 0 ==> raw_end(earlier) <= later.offset
    &&& is_mapped(earlier) && is_mapped(later) && nothing_between(table, i, j) ==> {
        &&& virtual_end(earlier) <= later.virtual_address
        &&& later.virtual_address < virtual_end(earlier) + headers.section_alignment
    }
}

/// Whether no section between the two takes room in memory.
spec fn nothing_between(table: Seq<u8>, i: int, j: int) -> bool {
    forall|k: int| i < k < j ==> !is_mapped(#[trigger] pe::pe_section(table, k))
}

/// Whether the first `count` sections are accepted.
spec fn all_fit(headers: PeHeaders, table: Seq<u8>, count: int, file_len: u64) -> bool {
    &&& forall|j: int|
        0 <= j < count ==> fits(headers, #[trigger] pe::pe_section(table, j), file_len)
    &&& forall|i: int, j: int|
        0 <= i < j < count ==> #[trigger] follows(headers, table, i, j)
}

/// Whether `scan` is what the first `count` sections add up to in the file.
spec fn sums_up_raw(scan: PeScan, headers: PeHeaders, table: Seq<u8>, count: int) -> bool {
    &&& match scan.previous_raw_end {
        Some(end) => {
            &&& exists|k: int|
                0 <= k < count && (#[trigger] pe::pe_section(table, k)).size > 0 && raw_end(
                    pe::pe_section(table, k),
                ) == end
            &&& forall|i: int|
                0 <= i < count && (#[trigger] pe::pe_section(table, i)).size > 0 ==> raw_end(
                    pe::pe_section(table, i),
                ) <= end
        },
        None => forall|i: int| 0 <= i < count ==> (#[trigger] pe::pe_section(table, i)).size == 0,
    }
    &&& headers.size_of_headers <= scan.max_raw_end
    &&& forall|i: int|
        0 <= i < count && (#[trigger] pe::pe_section(table, i)).size > 0 ==> raw_end(
            pe::pe_section(table, i),
        ) <= scan.max_raw_end
    &&& scan.max_raw_end == headers.size_of_headers || exists|k: int|
        0 <= k < count && (#[trigger] pe::pe_section(table, k)).size > 0 && raw_end(
            pe::pe_section(table, k),
        ) == scan.max_raw_end
    &&& match scan.first_section_offset {
        Some(first) => {
            &&& exists|k: int|
                0 <= k < count && (#[trigger] pe::pe_section(table, k)).size > 0 && pe::pe_section(
                    table,
                    k,
                ).offset == first
            &&& forall|i: int|
                0 <= i < count && (#[trigger] pe::pe_section(table, i)).size > 0 ==> first
                    <= pe::pe_section(table, i).offset
        },
        None => forall|i: int| 0 <= i < count ==> (#[trigger] pe::pe_section(table, i)).size == 0,
    }
}

/// Whether `scan` is what the first `count` sections add up to in memory.
spec fn sums_up_virtual(scan: PeScan, headers: PeHeaders, table: Seq<u8>, count: int) -> bool {
    &&& match scan.previous_virtual_end {
        Some(end) => {
            &&& headers.size_of_headers <= end
            &&& exists|k: int|
                0 <= k < count && is_mapped(#[trigger] pe::pe_section(table, k)) && virtual_end(
                    pe::pe_section(table, k),
                ) == end && nothing_between(table, k, count)
        },
        None => forall|i: int| 0 <= i < count ==> !is_mapped(#[trigger] pe::pe_section(table, i)),
    }
    &&& forall|i: int|
        0 <= i < count && is_mapped(#[trigger] pe::pe_section(table, i)) ==> virtual_end(
            pe::pe_section(table, i),
        ) <= scan.max_virtual_end
    &&& scan.max_virtual_end == 0 || exists|k: int|
        0 <= k < count && is_mapped(#[trigger] pe::pe_section(table, k)) && virtual_end(
            pe::pe_section(table, k),
        ) == scan.max_virtual_end
}

/// Whether `scan` names the sections with a purpose among the first `count`.
spec fn names(scan: PeScan, table: Seq<u8>, count: int) -> bool {
    &&& match scan.anchor {
        Some(anchor) => exists|k: int|
            {
                let section = #[trigger] pe::pe_section(table, k);
                &&& 0 <= k < count
                &&& section.is_anchor
                &&& anchor.offset == section.offset
                &&& anchor.raw_size == section.size
                &&& anchor.raw_end == raw_end(section)
                &&& anchor.virtual_end == virtual_end(section)
            },
        None => forall|i: int| 0 <= i < count ==> !(#[trigger] pe::pe_section(table, i)).is_anchor,
    }
    &&& match scan.reader_capability {
        Some((offset, size)) => exists|k: int|
            {
                let section = #[trigger] pe::pe_section(table, k);
                &&& 0 <= k < count
                &&& section.is_reader_capability
                &&& offset == section.offset
                &&& size == section.size
            },
        None => forall|i: int|
            0 <= i < count ==> !(#[trigger] pe::pe_section(table, i)).is_reader_capability,
    }
}

/// Whether the alignments are such that sections can be placed by them.
spec fn can_align(headers: PeHeaders) -> bool {
    0 < headers.file_alignment && 0 < headers.section_alignment
}

/// One more section in the file.
proof fn lemma_raw_step(
    scan: PeScan,
    headers: PeHeaders,
    table: Seq<u8>,
    count: int,
    file_len: u64,
)
    requires
        can_align(headers),
        0 <= count,
        sums_up_raw(scan, headers, table, count),
    ensures
        ({
            let section = pe::pe_section(table, count);
            &&& (section.offset + section.size <= file_len && (section.size > 0 ==> {
                &&& headers.size_of_headers <= section.offset
                &&& section.offset % headers.file_alignment == 0
                &&& section.size % headers.file_alignment == 0
                &&& headers.section_alignment < 4096 ==> section.offset == section.virtual_address
                &&& forall|i: int|
                    0 <= i < count && (#[trigger] pe::pe_section(table, i)).size > 0 ==> raw_end(
                        pe::pe_section(table, i),
                    ) <= section.offset
            })) <==> pe::raw_range_error(
                PeScan { anchor: None, ..scan },
                headers,
                section,
                file_len,
            ) is None
            &&& (section.size > 0 ==> forall|i: int|
                0 <= i < count && (#[trigger] pe::pe_section(table, i)).size > 0 ==> raw_end(
                    pe::pe_section(table, i),
                ) <= section.offset) ==> sums_up_raw(
                pe::with_pe_section(scan, section),
                headers,
                table,
                count + 1,
            )
        }),
{
    let section = pe::pe_section(table, count);
    let next = pe::with_pe_section(scan, section);
    if section.size > 0 {
        assert(raw_end(section) == next.previous_raw_end->0);
        if scan.max_raw_end != headers.size_of_headers {
            let k = choose|k: int|
                0 <= k < count && (#[trigger] pe::pe_section(table, k)).size > 0 && raw_end(
                    pe::pe_section(table, k),
                ) == scan.max_raw_end;
            assert(pe::pe_section(table, k).size > 0);
        }
        if let Some(first) = scan.first_section_offset {
            let k = choose|k: int|
                0 <= k < count && (#[trigger] pe::pe_section(table, k)).size > 0 && pe::pe_section(
                    table,
                    k,
                ).offset == first;
            assert(pe::pe_section(table, k).size > 0);
        }
    }
}

/// One more section in memory.
proof fn lemma_virtual_step(scan: PeScan, headers: PeHeaders, table: Seq<u8>, count: int)
    requires
        can_align(headers),
        0 <= count,
        sums_up_virtual(scan, headers, table, count),
    ensures
        ({
            let section = pe::pe_section(table, count);
            let placed = is_mapped(section) ==> {
                &&& section.virtual_address % headers.section_alignment == 0
                &&& headers.size_of_headers <= section.virtual_address
                &&& forall|i: int|
                    0 <= i < count && is_mapped(#[trigger] pe::pe_section(table, i))
                        && nothing_between(table, i, count) ==> {
                        &&& virtual_end(pe::pe_section(table, i)) <= section.virtual_address
                        &&& section.virtual_address < virtual_end(pe::pe_section(table, i))
                            + headers.section_alignment
                    }
            };
            &&& placed <==> pe::virtual_range_error(scan, headers, section) is None
            &&& placed ==> sums_up_virtual(
                pe::with_pe_section(scan, section),
                headers,
                table,
                count + 1,
            )
        }),
{
    let section = pe::pe_section(table, count);
    let next = pe::with_pe_section(scan, section);
    let alignment = headers.section_alignment as int;
    assert(is_mapped(section) <==> pe::virtual_span(section) != 0);
    match scan.previous_virtual_end {
        Some(end) => {
            let k = choose|k: int|
                0 <= k < count && is_mapped(#[trigger] pe::pe_section(table, k)) && virtual_end(
                    pe::pe_section(table, k),
                ) == end && nothing_between(table, k, count);
            assert forall|i: int|
                0 <= i < count && is_mapped(#[trigger] pe::pe_section(table, i)) && nothing_between(
                    table,
                    i,
                    count,
                ) implies i == k by {
                if i < k {
                    assert(!is_mapped(pe::pe_section(table, k)));
                }
            }
            align::law_aligned_is_the_next_multiple(
                end as int,
                alignment,
                section.virtual_address as int,
            );
            if !is_mapped(section) {
                assert(nothing_between(table, k, count + 1));
            }
        },
        None => {
            align::lemma_aligned(headers.size_of_headers as int, alignment);
            assert(section.virtual_address as int % alignment
                == section.virtual_address % headers.section_alignment);
        },
    }
    if is_mapped(section) {
        assert(nothing_between(table, count, count + 1));
        assert(virtual_end(section) == next.previous_virtual_end->0);
    }
    if scan.max_virtual_end != 0 {
        let k = choose|k: int|
            0 <= k < count && is_mapped(#[trigger] pe::pe_section(table, k)) && virtual_end(
                pe::pe_section(table, k),
            ) == scan.max_virtual_end;
        assert(is_mapped(pe::pe_section(table, k)));
    }
}

/// One more section with a name.
proof fn lemma_names_step(scan: PeScan, table: Seq<u8>, count: int)
    requires
        0 <= count,
        names(scan, table, count),
    ensures
        ({
            let section = pe::pe_section(table, count);
            &&& section.is_anchor ==> (scan.anchor is None <==> forall|i: int|
                0 <= i < count ==> !(#[trigger] pe::pe_section(table, i)).is_anchor)
            &&& section.is_reader_capability ==> (scan.reader_capability is None <==> forall|
                i: int,
            |
                0 <= i < count ==> !(#[trigger] pe::pe_section(table, i)).is_reader_capability)
            &&& names(pe::with_pe_section(scan, section), table, count + 1)
        }),
{
    let section = pe::pe_section(table, count);
    let next = pe::with_pe_section(scan, section);
    if section.is_anchor {
        assert(next.anchor is Some);
    } else if let Some(anchor) = scan.anchor {
        let k = choose|k: int|
            {
                let section = #[trigger] pe::pe_section(table, k);
                &&& 0 <= k < count
                &&& section.is_anchor
                &&& anchor.offset == section.offset
                &&& anchor.raw_size == section.size
                &&& anchor.raw_end == raw_end(section)
                &&& anchor.virtual_end == virtual_end(section)
            };
        assert(pe::pe_section(table, k).is_anchor);
    }
    if section.is_reader_capability {
        assert(next.reader_capability is Some);
    } else if let Some((offset, size)) = scan.reader_capability {
        let k = choose|k: int|
            {
                let section = #[trigger] pe::pe_section(table, k);
                &&& 0 <= k < count
                &&& section.is_reader_capability
                &&& offset == section.offset
                &&& size == section.size
            };
        assert(pe::pe_section(table, k).is_reader_capability);
    }
}

/// One more section is accepted exactly where it fits by itself and behind all before it.
proof fn lemma_section_step(
    scan: PeScan,
    headers: PeHeaders,
    table: Seq<u8>,
    count: int,
    file_len: u64,
)
    requires
        can_align(headers),
        0 <= count,
        sums_up_raw(scan, headers, table, count),
        sums_up_virtual(scan, headers, table, count),
        names(scan, table, count),
    ensures
        ({
            let section = pe::pe_section(table, count);
            let next = pe::with_pe_section(scan, section);
            let accepted = pe::pe_section_error(scan, headers, section, file_len) is None;
            &&& accepted <==> fits(headers, section, file_len) && (forall|i: int|
                0 <= i < count ==> #[trigger] follows(headers, table, i, count))
            &&& accepted ==> {
                &&& sums_up_raw(next, headers, table, count + 1)
                &&& sums_up_virtual(next, headers, table, count + 1)
                &&& names(next, table, count + 1)
            }
        }),
{
    let section = pe::pe_section(table, count);
    lemma_raw_step(scan, headers, table, count, file_len);
    lemma_virtual_step(scan, headers, table, count);
    lemma_names_step(scan, table, count);
    align::law_aligned_is_the_next_multiple(
        100,
        headers.file_alignment as int,
        section.size as int,
    );
    align::law_aligned_is_the_next_multiple(48, headers.file_alignment as int, section.size as int);
    let accepted = pe::pe_section_error(scan, headers, section, file_len) is None;
    let whole = fits(headers, section, file_len) && (forall|i: int|
        0 <= i < count ==> #[trigger] follows(headers, table, i, count));
    if accepted {
        assert forall|i: int| 0 <= i < count implies #[trigger] follows(headers, table, i, count) by {
            let earlier = pe::pe_section(table, i);
        }
    }
    if whole {
        assert forall|i: int| 0 <= i < count implies {
            let earlier = #[trigger] pe::pe_section(table, i);
            &&& !(earlier.is_anchor && section.is_anchor)
            &&& !(earlier.is_reader_capability && section.is_reader_capability)
            &&& earlier.size > 0 && section.size > 0 ==> raw_end(earlier) <= section.offset
            &&& is_mapped(earlier) && is_mapped(section) && nothing_between(table, i, count) ==> {
                &&& virtual_end(earlier) <= section.virtual_address
                &&& section.virtual_address < virtual_end(earlier) + headers.section_alignment
            }
        } by {
            assert(follows(headers, table, i, count));
        }
    }
}

/// The sections from `index` on are accepted behind those before them exactly where all of them
/// fit.
proof fn lemma_sections(
    scan: PeScan,
    headers: PeHeaders,
    table: Seq<u8>,
    index: int,
    file_len: u64,
)
    requires
        can_align(headers),
        0 <= index <= headers.section_count,
        all_fit(headers, table, index, file_len),
        sums_up_raw(scan, headers, table, index),
        sums_up_virtual(scan, headers, table, index),
        names(scan, table, index),
    ensures
        pe::scan_pe_sections(scan, headers, table, index, file_len) is Ok <==> all_fit(
            headers,
            table,
            headers.section_count as int,
            file_len,
        ),
        pe::scan_pe_sections(scan, headers, table, index, file_len) matches Ok(last) ==> {
            &&& sums_up_raw(last, headers, table, headers.section_count as int)
            &&& sums_up_virtual(last, headers, table, headers.section_count as int)
            &&& names(last, table, headers.section_count as int)
        },
    decreases headers.section_count - index,
{
    if index < headers.section_count {
        lemma_section_step(scan, headers, table, index, file_len);
        let section = pe::pe_section(table, index);
        if pe::pe_section_error(scan, headers, section, file_len) is None {
            assert(all_fit(headers, table, index + 1, file_len));
            lemma_sections(
                pe::with_pe_section(scan, section),
                headers,
                table,
                index + 1,
                file_len,
            );
        } else if all_fit(headers, table, headers.section_count as int, file_len) {
            assert(fits(headers, section, file_len));
            assert forall|i: int| 0 <= i < index implies #[trigger] follows(
                headers,
                table,
                i,
                index,
            ) by {}
        }
    }
}

/// What it takes for all sections to fit.
proof fn lemma_all_fit(headers: PeHeaders, table: Seq<u8>, file_len: u64)
    ensures
        all_fit(headers, table, headers.section_count as int, file_len) <==> {
            &&& forall|j: int|
                0 <= j < headers.section_count ==> {
                    let section = #[trigger] pe::pe_section(table, j);
                    &&& section.offset + section.size <= file_len
                    &&& section.size > 0 ==> {
                        &&& headers.size_of_headers <= section.offset
                        &&& section.offset % headers.file_alignment == 0
                        &&& section.size % headers.file_alignment == 0
                        &&& headers.section_alignment < 4096 ==> section.offset == section.virtual_address
                    }
                    &&& section.virtual_size > 0 || section.size > 0 ==> {
                        &&& section.virtual_address % headers.section_alignment == 0
                        &&& headers.size_of_headers <= section.virtual_address
                    }
                    &&& section.is_anchor ==> {
                        &&& section.virtual_size == 100
                        &&& section.size % headers.file_alignment == 0
                        &&& 100 <= section.size < 100 + headers.file_alignment
                        &&& section.characteristics == 0x4000_0040
                    }
                    &&& section.is_reader_capability ==> {
                        &&& section.virtual_size == 48
                        &&& section.size % headers.file_alignment == 0
                        &&& 48 <= section.size < 48 + headers.file_alignment
                        &&& section.characteristics == 0x4000_0040
                    }
                }
            &&& forall|i: int, j: int|
                0 <= i < j < headers.section_count ==> {
                    let earlier = #[trigger] pe::pe_section(table, i);
                    let later = #[trigger] pe::pe_section(table, j);
                    let end = earlier.virtual_address + (if earlier.virtual_size >= earlier.size {
                        earlier.virtual_size
                    } else {
                        earlier.size
                    });
                    &&& !(earlier.is_anchor && later.is_anchor)
                    &&& !(earlier.is_reader_capability && later.is_reader_capability)
                    &&& earlier.size > 0 && later.size > 0 ==> earlier.offset + earlier.size <= later.offset
                    &&& (earlier.virtual_size > 0 || earlier.size > 0) && (later.virtual_size > 0 || later.size
                        > 0) && (forall|k: int|
                        i < k < j ==> (#[trigger] pe::pe_section(table, k)).virtual_size == 0 && pe::pe_section(
                            table,
                            k,
                        ).size == 0) ==> end <= later.virtual_address < end + headers.section_alignment
                }
        },
{
    let count = headers.section_count as int;
    if all_fit(headers, table, count, file_len) {
        assert forall|i: int, j: int| 0 <= i < j < count implies {
            let earlier = #[trigger] pe::pe_section(table, i);
            let later = #[trigger] pe::pe_section(table, j);
            &&& !(earlier.is_anchor && later.is_anchor)
            &&& !(earlier.is_reader_capability && later.is_reader_capability)
            &&& earlier.size > 0 && later.size > 0 ==> raw_end(earlier) <= later.offset
            &&& is_mapped(earlier) && is_mapped(later) && nothing_between(table, i, j) ==> {
                &&& virtual_end(earlier) <= later.virtual_address
                &&& later.virtual_address < virtual_end(earlier) + headers.section_alignment
            }
        } by {
            assert(follows(headers, table, i, j));
        }
    }
}

/// What it takes for the sections as a whole to be accepted.
proof fn lemma_scan_error(scan: PeScan, headers: PeHeaders, table: Seq<u8>, file_len: u64)
    requires
        can_align(headers),
        headers.size_of_image as u64 % headers.section_alignment == 0,
        all_fit(headers, table, headers.section_count as int, file_len),
        sums_up_raw(scan, headers, table, headers.section_count as int),
        sums_up_virtual(scan, headers, table, headers.section_count as int),
        names(scan, table, headers.section_count as int),
    ensures
        pe::pe_scan_error(scan, headers) is None <==> {
            &&& forall|i: int|
                0 <= i < headers.section_count ==> {
                    let section = #[trigger] pe::pe_section(table, i);
                    section.virtual_size > 0 || section.size > 0 ==> section.virtual_address
                        + section.virtual_size <= headers.size_of_image && section.virtual_address + section.size <= headers.size_of_image
                }
            &&& forall|a: int, i: int|
                0 <= a < headers.section_count && 0 <= i < headers.section_count ==> {
                    let anchor = #[trigger] pe::pe_section(table, a);
                    let section = #[trigger] pe::pe_section(table, i);
                    anchor.is_anchor ==> {
                        &&& section.size > 0 ==> section.offset + section.size <= anchor.offset + anchor.size
                        &&& section.virtual_size > 0 || section.size > 0 ==> {
                            &&& section.virtual_address + section.virtual_size <= anchor.virtual_address
                                + anchor.size
                            &&& section.virtual_address + section.size <= anchor.virtual_address + anchor.size
                        }
                    }
                }
        },
{
    let count = headers.section_count as int;
    let alignment = headers.section_alignment as int;
    align::lemma_aligned(scan.max_virtual_end as int, alignment);
    assert(headers.size_of_image as int % alignment == headers.size_of_image as u64
        % headers.section_alignment);
    assert(align::aligned(scan.max_virtual_end as int, alignment) <= headers.size_of_image
        <==> scan.max_virtual_end <= headers.size_of_image);
    assert(scan.max_virtual_end <= headers.size_of_image <==> forall|i: int|
        0 <= i < count && is_mapped(#[trigger] pe::pe_section(table, i)) ==> virtual_end(
            pe::pe_section(table, i),
        ) <= headers.size_of_image);
    if let Some(anchor) = scan.anchor {
        let k = choose|k: int|
            {
                let section = #[trigger] pe::pe_section(table, k);
                &&& 0 <= k < count
                &&& section.is_anchor
                &&& anchor.offset == section.offset
                &&& anchor.raw_size == section.size
                &&& anchor.raw_end == raw_end(section)
                &&& anchor.virtual_end == virtual_end(section)
            };
        let found = pe::pe_section(table, k);
        assert(fits(headers, found, file_len));
        assert forall|a: int| 0 <= a < count && (#[trigger] pe::pe_section(table, a)).is_anchor
            implies a == k by {
            if a < k {
                assert(follows(headers, table, a, k));
            } else if k < a {
                assert(follows(headers, table, k, a));
            }
        }
        assert(virtual_end(found) == found.virtual_address + found.size);
    }
}

/// What it takes for the certificate table to be accepted.
proof fn lemma_certificate(
    scan: PeScan,
    headers: PeHeaders,
    table: Seq<u8>,
    directories: Seq<u8>,
    file_len: u64,
)
    requires
        sums_up_raw(scan, headers, table, headers.section_count as int),
    ensures
        pe::certificate_layout(headers, directories, scan.max_raw_end, file_len) is Ok <==> {
            let offset = bytes::le_u32(directories, 32);
            let size = bytes::le_u32(directories, 36);
            &&& headers.directory_count <= 4 || (offset == 0 && size == 0) || {
                &&& offset > 0
                &&& offset % 8 == 0
                &&& size >= 8
                &&& offset + size == file_len
                &&& headers.size_of_headers <= offset
                &&& forall|i: int|
                    0 <= i < headers.section_count ==> {
                        let section = #[trigger] pe::pe_section(table, i);
                        section.size > 0 ==> section.offset + section.size <= offset
                    }
            }
        },
{
}

/// The layout of an image whose tables can be read is what its headers, its sections and its data
/// directories add up to.
proof fn lemma_layout_of_tables(image: Seq<u8>, kind: PeKind)
    requires
        image.len() <= u64::MAX,
        object_file::pe_kind(image) == Some(kind),
        object_file::pe_tables_fault(image, kind) is None,
    ensures
        ({
            let headers = round_trip::headers_of(image, kind);
            let table = round_trip::section_table_of(image);
            let directories = object_file::directories_offset(image, kind);
            let entries = image.subrange(
                directories,
                directories + 8 * object_file::directory_count(image, kind),
            );
            let file_len = image.len() as u64;
            let sections = pe::scan_pe_sections(
                pe::initial_pe_scan(headers),
                headers,
                table,
                0,
                file_len,
            );
            pe::pe_layout(image) is Ok <==> {
                &&& pe::pe_headers_error(
                    headers,
                    kind,
                    object_file::pe_section_table_offset(image) + 40 * headers.section_count,
                    file_len,
                ) is None
                &&& sections is Ok
                &&& pe::pe_scan_error(sections->Ok_0, headers) is None
                &&& pe::certificate_layout(
                    headers,
                    entries,
                    sections->Ok_0.max_raw_end,
                    file_len,
                ) is Ok
            }
        }),
{
    reader::lemma_fields_of_tables(image, kind);
}

/// What it takes for the headers to be accepted.
proof fn lemma_headers(headers: PeHeaders, kind: PeKind, table_end: int, file_len: u64)
    ensures
        pe::pe_headers_error(headers, kind, table_end, file_len) is None <==> {
            &&& headers.characteristics & 0x0002 == 0x0002
            &&& headers.characteristics & 0x2000 != 0x2000
            &&& 1 <= headers.section_count <= 96
            &&& headers.size_of_headers <= 16 * 1024 * 1024
            &&& headers.size_of_headers <= file_len
            &&& table_end <= headers.size_of_headers
            &&& exists|k: nat| headers.file_alignment == #[trigger] pow2(k)
            &&& 512 <= headers.file_alignment <= 65536
            &&& exists|k: nat| headers.section_alignment == #[trigger] pow2(k)
            &&& if headers.section_alignment < 4096 {
                headers.section_alignment == headers.file_alignment
            } else {
                headers.section_alignment >= headers.file_alignment
            }
            &&& headers.size_of_headers % headers.file_alignment == 0
            &&& headers.size_of_image as u64 % headers.section_alignment == 0
            &&& kind == PeKind::Pe64 ==> headers.size_of_image <= 0x8000_0000
        },
{
    lemma_power_of_two(headers.file_alignment as nat);
    lemma_power_of_two(headers.section_alignment as nat);
}

/// The data directory entries read the same in the image and by themselves.
proof fn lemma_directories(image: Seq<u8>, kind: PeKind)
    requires
        object_file::pe_tables_fault(image, kind) is None,
        object_file::directory_count(image, kind) > 4,
    ensures
        ({
            let start = object_file::directories_offset(image, kind);
            let entries = image.subrange(
                start,
                start + 8 * object_file::directory_count(image, kind),
            );
            &&& bytes::le_u32(entries, 32) == bytes::le_u32(image, start + 32)
            &&& bytes::le_u32(entries, 36) == bytes::le_u32(image, start + 36)
        }),
{
    let start = object_file::directories_offset(image, kind);
    let entries = image.subrange(start, start + 8 * object_file::directory_count(image, kind));
    assert(entries.subrange(32, 36) =~= image.subrange(start + 32, start + 36));
    assert(entries.subrange(36, 40) =~= image.subrange(start + 36, start + 40));
    bytes::lemma_le_u32_window(entries, 32, image, start + 32);
    bytes::lemma_le_u32_window(entries, 36, image, start + 36);
}

/// A PE image whose tables can be read is accepted exactly where it is an executable image that Windows loads: its headers
/// lie in the file, its alignments are powers of two that go together, its sections lie aligned
/// behind the headers and one another, in the file and in memory without gaps, the sections with a
/// purpose have the shape for it and come once, nothing follows the anchor section, and a
/// certificate table ends the file behind all sections.
#[verifier::rlimit(60)]
pub proof fn law_which_pe_images_are_accepted(image: Seq<u8>, kind: PeKind)
    requires
        image.len() <= usize::MAX,
        object_file::pe_kind(image) == Some(kind),
        object_file::pe_tables_fault(image, kind) is None,
    ensures
        pe::pe_layout(image) is Ok <==> {
            let start = bytes::le_u32(image, 60) as int;
            let directories: int = start + (match kind {
                PeKind::Pe32 => 120int,
                PeKind::Pe64 => 136int,
            });
            let count = bytes::le_u16(image, start + 6);
            let characteristics = bytes::le_u16(image, start + 22);
            let table_start = start + 24 + bytes::le_u16(image, start + 20);
            let table = image.subrange(table_start, table_start + 40 * count);
            let section_alignment = bytes::le_u32(image, start + 56) as u64;
            let file_alignment = bytes::le_u32(image, start + 60) as u64;
            let size_of_image = bytes::le_u32(image, start + 80);
            let size_of_headers = bytes::le_u32(image, start + 84);
            let directory_count = bytes::le_u32(image, directories - 4);
            let certificate = bytes::le_u32(image, directories + 32);
            let certificate_size = bytes::le_u32(image, directories + 36);
            &&& characteristics & 0x0002 == 0x0002
            &&& characteristics & 0x2000 != 0x2000
            &&& 1 <= count <= 96
            &&& size_of_headers <= 16 * 1024 * 1024
            &&& size_of_headers <= image.len()
            &&& table_start + 40 * count <= size_of_headers
            &&& exists|k: nat| file_alignment == #[trigger] pow2(k)
            &&& 512 <= file_alignment <= 65536
            &&& exists|k: nat| section_alignment == #[trigger] pow2(k)
            &&& if section_alignment < 4096 {
                section_alignment == file_alignment
            } else {
                section_alignment >= file_alignment
            }
            &&& size_of_headers as u64 % file_alignment == 0
            &&& size_of_image as u64 % section_alignment == 0
            &&& kind == PeKind::Pe64 ==> size_of_image <= 0x8000_0000
            &&& forall|j: int|
                0 <= j < count ==> {
                    let section = #[trigger] pe::pe_section(table, j);
                    &&& section.offset + section.size <= image.len()
                    &&& section.size > 0 ==> {
                        &&& size_of_headers <= section.offset
                        &&& section.offset % file_alignment == 0
                        &&& section.size % file_alignment == 0
                        &&& section_alignment < 4096 ==> section.offset == section.virtual_address
                    }
                    &&& section.virtual_size > 0 || section.size > 0 ==> {
                        &&& section.virtual_address % section_alignment == 0
                        &&& size_of_headers <= section.virtual_address
                    }
                    &&& section.is_anchor ==> {
                        &&& section.virtual_size == 100
                        &&& section.size % file_alignment == 0
                        &&& 100 <= section.size < 100 + file_alignment
                        &&& section.characteristics == 0x4000_0040
                    }
                    &&& section.is_reader_capability ==> {
                        &&& section.virtual_size == 48
                        &&& section.size % file_alignment == 0
                        &&& 48 <= section.size < 48 + file_alignment
                        &&& section.characteristics == 0x4000_0040
                    }
                }
            &&& forall|i: int, j: int|
                0 <= i < j < count ==> {
                    let earlier = #[trigger] pe::pe_section(table, i);
                    let later = #[trigger] pe::pe_section(table, j);
                    let end = earlier.virtual_address + (if earlier.virtual_size >= earlier.size {
                        earlier.virtual_size
                    } else {
                        earlier.size
                    });
                    &&& !(earlier.is_anchor && later.is_anchor)
                    &&& !(earlier.is_reader_capability && later.is_reader_capability)
                    &&& earlier.size > 0 && later.size > 0 ==> earlier.offset + earlier.size <= later.offset
                    &&& (earlier.virtual_size > 0 || earlier.size > 0) && (later.virtual_size > 0 || later.size
                        > 0) && (forall|k: int|
                        i < k < j ==> (#[trigger] pe::pe_section(table, k)).virtual_size == 0 && pe::pe_section(
                            table,
                            k,
                        ).size == 0) ==> end <= later.virtual_address < end + section_alignment
                }
            &&& forall|i: int|
                0 <= i < count ==> {
                    let section = #[trigger] pe::pe_section(table, i);
                    section.virtual_size > 0 || section.size > 0 ==> section.virtual_address
                        + section.virtual_size <= size_of_image && section.virtual_address + section.size <= size_of_image
                }
            &&& forall|a: int, i: int|
                0 <= a < count && 0 <= i < count ==> {
                    let anchor = #[trigger] pe::pe_section(table, a);
                    let section = #[trigger] pe::pe_section(table, i);
                    anchor.is_anchor ==> {
                        &&& section.size > 0 ==> section.offset + section.size <= anchor.offset + anchor.size
                        &&& section.virtual_size > 0 || section.size > 0 ==> {
                            &&& section.virtual_address + section.virtual_size <= anchor.virtual_address
                                + anchor.size
                            &&& section.virtual_address + section.size <= anchor.virtual_address + anchor.size
                        }
                    }
                }
            &&& directory_count <= 4 || (certificate == 0 && certificate_size == 0) || {
                &&& certificate > 0
                &&& certificate % 8 == 0
                &&& certificate_size >= 8
                &&& certificate + certificate_size == image.len()
                &&& size_of_headers <= certificate
                &&& forall|i: int|
                    0 <= i < count ==> {
                        let section = #[trigger] pe::pe_section(table, i);
                        section.size > 0 ==> section.offset + section.size <= certificate
                    }
            }
        },
{
    let headers = round_trip::headers_of(image, kind);
    let table = round_trip::section_table_of(image);
    let file_len = image.len() as u64;
    let directories = object_file::directories_offset(image, kind);
    let table_start = object_file::pe_section_table_offset(image);
    let entries = image.subrange(
        directories,
        directories + 8 * object_file::directory_count(image, kind),
    );
    round_trip::lemma_headers_in_image(image, kind);
    lemma_layout_of_tables(image, kind);
    lemma_headers(headers, kind, table_start + 40 * headers.section_count, file_len);
    if pe::pe_headers_error(
        headers,
        kind,
        table_start + 40 * headers.section_count,
        file_len,
    ) is None {
        let initial = pe::initial_pe_scan(headers);
        assert(all_fit(headers, table, 0, file_len));
        assert(sums_up_raw(initial, headers, table, 0));
        assert(sums_up_virtual(initial, headers, table, 0));
        assert(names(initial, table, 0));
        lemma_sections(initial, headers, table, 0, file_len);
        lemma_all_fit(headers, table, file_len);
        if let Ok(scan) = pe::scan_pe_sections(initial, headers, table, 0, file_len) {
            lemma_scan_error(scan, headers, table, file_len);
            lemma_certificate(scan, headers, table, entries, file_len);
            if object_file::directory_count(image, kind) > 4 {
                lemma_directories(image, kind);
            }
        }
    }
}

/// Only a PE image whose tables can be read is accepted.
pub proof fn law_accepted_pe_images_have_tables(image: Seq<u8>)
    requires
        pe::pe_layout(image) is Ok,
    ensures
        object_file::pe_kind(image) matches Some(kind) && object_file::pe_tables_fault(image, kind)
            is None,
{
}

/// What the sections of an accepted image add up to.
proof fn lemma_layout_scan(image: Seq<u8>, layout: PeImageLayout) -> (scan: PeScan)
    requires
        image.len() <= usize::MAX,
        pe::pe_layout(image) == Ok::<PeImageLayout, RuntimeDataError>(layout),
    ensures
        ({
            let headers = round_trip::headers_of(image, layout.kind);
            let table = round_trip::section_table_of(image);
            let start = object_file::directories_offset(image, layout.kind);
            let entries = image.subrange(
                start,
                start + 8 * object_file::directory_count(image, layout.kind),
            );
            &&& object_file::pe_kind(image) == Some(layout.kind)
            &&& object_file::pe_tables_fault(image, layout.kind) is None
            &&& sums_up_raw(scan, headers, table, headers.section_count as int)
            &&& sums_up_virtual(scan, headers, table, headers.section_count as int)
            &&& names(scan, table, headers.section_count as int)
            &&& layout.first_section_offset == scan.first_section_offset
            &&& layout.max_raw_end == scan.max_raw_end
            &&& layout.max_virtual_end == scan.max_virtual_end
            &&& layout.anchor == scan.anchor
            &&& layout.reader_capability == scan.reader_capability
            &&& pe::certificate_layout(
                headers,
                entries,
                scan.max_raw_end,
                image.len() as u64,
            ) == Ok::<Option<pe::PeCertificateLayout>, RuntimeDataError>(layout.certificate)
            &&& layout.machine == headers.machine
            &&& layout.section_count == headers.section_count
            &&& layout.size_of_headers == headers.size_of_headers
            &&& layout.size_of_image == headers.size_of_image
            &&& layout.size_of_initialized_data == headers.size_of_initialized_data
            &&& layout.file_alignment == headers.file_alignment
            &&& layout.section_alignment == headers.section_alignment
            &&& layout.section_table_offset == object_file::pe_section_table_offset(image)
            &&& layout.file_header_offset == object_file::nt_headers_offset(image) + 4
            &&& layout.optional_header_offset == object_file::nt_headers_offset(image) + 24
            &&& layout.security_directory_offset == pe::security_directory(
                headers,
                layout.kind,
                layout.optional_header_offset as int,
            )
        }),
{
    let kind = layout.kind;
    let headers = round_trip::headers_of(image, kind);
    let table = round_trip::section_table_of(image);
    let initial = pe::initial_pe_scan(headers);
    let file_len = image.len() as u64;
    reader::lemma_fields_of_tables(image, kind);
    assert(all_fit(headers, table, 0, file_len));
    assert(sums_up_raw(initial, headers, table, 0));
    assert(sums_up_virtual(initial, headers, table, 0));
    assert(names(initial, table, 0));
    lemma_sections(initial, headers, table, 0, file_len);
    pe::scan_pe_sections(initial, headers, table, 0, file_len)->Ok_0
}

/// The layout of an accepted image says what its headers say.
pub proof fn law_pe_layout_says_what_the_headers_say(image: Seq<u8>, layout: PeImageLayout)
    requires
        image.len() <= usize::MAX,
        pe::pe_layout(image) == Ok::<PeImageLayout, RuntimeDataError>(layout),
    ensures
        image[0] == 0x4d,
        image[1] == 0x5a,
        ({
            let start = bytes::le_u32(image, 60) as int;
            let directories: int = start + (match layout.kind {
                PeKind::Pe32 => 120int,
                PeKind::Pe64 => 136int,
            });
            let directory_count = bytes::le_u32(image, directories - 4);
            let certificate = bytes::le_u32(image, directories + 32);
            let certificate_size = bytes::le_u32(image, directories + 36);
            &&& bytes::le_u32(image, start) == 0x4550
            &&& bytes::le_u16(image, start + 24) == (match layout.kind {
                PeKind::Pe32 => 0x10bu16,
                PeKind::Pe64 => 0x20bu16,
            })
            &&& layout.machine == bytes::le_u16(image, start + 4)
            &&& layout.section_count == bytes::le_u16(image, start + 6)
            &&& layout.file_header_offset == start + 4
            &&& layout.optional_header_offset == start + 24
            &&& layout.section_table_offset == start + 24 + bytes::le_u16(image, start + 20)
            &&& layout.size_of_initialized_data == bytes::le_u32(image, start + 32)
            &&& layout.section_alignment == bytes::le_u32(image, start + 56)
            &&& layout.file_alignment == bytes::le_u32(image, start + 60)
            &&& layout.size_of_image == bytes::le_u32(image, start + 80)
            &&& layout.size_of_headers == bytes::le_u32(image, start + 84)
            &&& match layout.security_directory_offset {
                Some(offset) => directory_count > 4 && offset == directories + 32,
                None => directory_count <= 4,
            }
            &&& match layout.certificate {
                Some(found) => {
                    &&& directory_count > 4
                    &&& found.offset == certificate
                    &&& found.size == certificate_size
                    &&& found.offset > 0
                },
                None => directory_count <= 4 || (certificate == 0 && certificate_size == 0),
            }
        }),
{
    lemma_layout_scan(image, layout);
    round_trip::lemma_headers_in_image(image, layout.kind);
    if object_file::directory_count(image, layout.kind) > 4 {
        lemma_directories(image, layout.kind);
    }
}

/// The layout of an accepted image says what its section table says: where the first section with
/// file data starts, where all of them end in the file and in memory, and where the sections with
/// a purpose lie.
pub proof fn law_pe_layout_says_what_the_sections_say(image: Seq<u8>, layout: PeImageLayout)
    requires
        image.len() <= usize::MAX,
        pe::pe_layout(image) == Ok::<PeImageLayout, RuntimeDataError>(layout),
    ensures
        ({
            let start = layout.section_table_offset as int;
            let count = layout.section_count;
            let table = image.subrange(start, start + 40 * count);
            &&& layout.size_of_headers <= layout.max_raw_end
            &&& forall|i: int|
                0 <= i < count ==> {
                    let section = #[trigger] pe::pe_section(table, i);
                    section.size > 0 ==> section.offset + section.size <= layout.max_raw_end
                }
            &&& layout.max_raw_end == layout.size_of_headers || exists|k: int|
                {
                    let section = #[trigger] pe::pe_section(table, k);
                    &&& 0 <= k < count
                    &&& section.size > 0
                    &&& section.offset + section.size == layout.max_raw_end
                }
            &&& forall|i: int|
                0 <= i < count ==> {
                    let section = #[trigger] pe::pe_section(table, i);
                    section.virtual_size > 0 || section.size > 0 ==> section.virtual_address
                        + section.virtual_size <= layout.max_virtual_end && section.virtual_address
                        + section.size <= layout.max_virtual_end
                }
            &&& layout.max_virtual_end == 0 || exists|k: int|
                {
                    let section = #[trigger] pe::pe_section(table, k);
                    &&& 0 <= k < count
                    &&& section.virtual_address + section.virtual_size == layout.max_virtual_end
                        || section.virtual_address + section.size == layout.max_virtual_end
                }
            &&& match layout.first_section_offset {
                Some(first) => {
                    &&& exists|k: int|
                        {
                            let section = #[trigger] pe::pe_section(table, k);
                            0 <= k < count && section.size > 0 && section.offset == first
                        }
                    &&& forall|i: int|
                        0 <= i < count ==> {
                            let section = #[trigger] pe::pe_section(table, i);
                            section.size > 0 ==> first <= section.offset
                        }
                },
                None => forall|i: int|
                    0 <= i < count ==> (#[trigger] pe::pe_section(table, i)).size == 0,
            }
            &&& match layout.anchor {
                Some(anchor) => exists|k: int|
                    {
                        let section = #[trigger] pe::pe_section(table, k);
                        &&& 0 <= k < count
                        &&& section.is_anchor
                        &&& anchor.offset == section.offset
                        &&& anchor.raw_size == section.size
                        &&& anchor.raw_end == section.offset + section.size
                    },
                None => forall|i: int|
                    0 <= i < count ==> !(#[trigger] pe::pe_section(table, i)).is_anchor,
            }
            &&& match layout.reader_capability {
                Some((offset, size)) => exists|k: int|
                    {
                        let section = #[trigger] pe::pe_section(table, k);
                        &&& 0 <= k < count
                        &&& section.is_reader_capability
                        &&& offset == section.offset
                        &&& size == section.size
                    },
                None => forall|i: int|
                    0 <= i < count ==> !(#[trigger] pe::pe_section(table, i)).is_reader_capability,
            }
        }),
{
    let scan = lemma_layout_scan(image, layout);
    lemma_sums_spelled_out(
        scan,
        round_trip::headers_of(image, layout.kind),
        round_trip::section_table_of(image),
    );
    reader::lemma_fields_of_tables(image, layout.kind);
}

/// What the sections add up to, spelled out.
proof fn lemma_sums_spelled_out(scan: PeScan, headers: PeHeaders, table: Seq<u8>)
    requires
        sums_up_raw(scan, headers, table, headers.section_count as int),
        sums_up_virtual(scan, headers, table, headers.section_count as int),
        names(scan, table, headers.section_count as int),
    ensures
        ({
            let count = headers.section_count;
            &&& headers.size_of_headers <= scan.max_raw_end
            &&& forall|i: int|
                0 <= i < count ==> {
                    let section = #[trigger] pe::pe_section(table, i);
                    section.size > 0 ==> section.offset + section.size <= scan.max_raw_end
                }
            &&& scan.max_raw_end == headers.size_of_headers || exists|k: int|
                {
                    let section = #[trigger] pe::pe_section(table, k);
                    &&& 0 <= k < count
                    &&& section.size > 0
                    &&& section.offset + section.size == scan.max_raw_end
                }
            &&& forall|i: int|
                0 <= i < count ==> {
                    let section = #[trigger] pe::pe_section(table, i);
                    section.virtual_size > 0 || section.size > 0 ==> section.virtual_address
                        + section.virtual_size <= scan.max_virtual_end && section.virtual_address
                        + section.size <= scan.max_virtual_end
                }
            &&& scan.max_virtual_end == 0 || exists|k: int|
                {
                    let section = #[trigger] pe::pe_section(table, k);
                    &&& 0 <= k < count
                    &&& section.virtual_address + section.virtual_size == scan.max_virtual_end
                        || section.virtual_address + section.size == scan.max_virtual_end
                }
            &&& match scan.first_section_offset {
                Some(first) => {
                    &&& exists|k: int|
                        {
                            let section = #[trigger] pe::pe_section(table, k);
                            0 <= k < count && section.size > 0 && section.offset == first
                        }
                    &&& forall|i: int|
                        0 <= i < count ==> {
                            let section = #[trigger] pe::pe_section(table, i);
                            section.size > 0 ==> first <= section.offset
                        }
                },
                None => forall|i: int|
                    0 <= i < count ==> (#[trigger] pe::pe_section(table, i)).size == 0,
            }
            &&& match scan.anchor {
                Some(anchor) => exists|k: int|
                    {
                        let section = #[trigger] pe::pe_section(table, k);
                        &&& 0 <= k < count
                        &&& section.is_anchor
                        &&& anchor.offset == section.offset
                        &&& anchor.raw_size == section.size
                        &&& anchor.raw_end == section.offset + section.size
                    },
                None => forall|i: int|
                    0 <= i < count ==> !(#[trigger] pe::pe_section(table, i)).is_anchor,
            }
            &&& match scan.reader_capability {
                Some((offset, size)) => exists|k: int|
                    {
                        let section = #[trigger] pe::pe_section(table, k);
                        &&& 0 <= k < count
                        &&& section.is_reader_capability
                        &&& offset == section.offset
                        &&& size == section.size
                    },
                None => forall|i: int|
                    0 <= i < count ==> !(#[trigger] pe::pe_section(table, i)).is_reader_capability,
            }
        }),
{
}

} // verus!
