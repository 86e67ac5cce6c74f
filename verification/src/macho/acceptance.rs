//! Which Mach-O executables are accepted.

use vstd::prelude::*;

use crate::bytes;
use crate::error::RuntimeDataError;
use crate::macho;
use crate::macho::command;
use crate::macho::layout;
use crate::macho::segment;
use crate::macho::{LinkeditSegment, MachOLayout, MachoScanView};
use crate::object_file;

verus! {

/// The fields of a segment command lie where the format has them, and its name says which segment
/// it is.
pub proof fn law_segment_fields(raw: Seq<u8>)
    ensures
        ({
            let fields = segment::segment_fields(raw);
            &&& fields.is_linkedit <==> raw.subrange(8, 19) == seq![
                0x5fu8, 0x5f, 0x4c, 0x49, 0x4e, 0x4b, 0x45, 0x44, 0x49, 0x54, 0,
            ]
            &&& fields.is_text <==> raw.subrange(8, 15) == seq![
                0x5fu8, 0x5f, 0x54, 0x45, 0x58, 0x54, 0,
            ]
            &&& fields.vmaddr == bytes::le_u64(raw, 24)
            &&& fields.vmsize == bytes::le_u64(raw, 32)
            &&& fields.fileoff == bytes::le_u64(raw, 40)
            &&& fields.filesize == bytes::le_u64(raw, 48)
            &&& fields.maxprot == bytes::le_u32(raw, 56)
            &&& fields.initprot == bytes::le_u32(raw, 60)
            &&& fields.section_count == bytes::le_u32(raw, 64)
        }),
{
}

/// The fields of a section lie where the format has them, and its name says what it is for.
pub proof fn law_section_fields(raw: Seq<u8>, index: int)
    ensures
        ({
            let at = 72 + 80 * index;
            let fields = segment::section_fields(raw, index);
            &&& fields.is_in_segment <==> raw.subrange(at + 16, at + 32) == raw.subrange(8, 24)
            &&& fields.is_reader_capability <==> raw.subrange(at, at + 16) == seq![
                0x5fu8, 0x5f, 0x63, 0x73, 0x68, 0x69, 0x70, 0x5f, 0x72, 0x65, 0x61, 0x64, 0x65,
                0x72, 0, 0,
            ]
            &&& fields.address == bytes::le_u64(raw, at + 32)
            &&& fields.size == bytes::le_u64(raw, at + 40)
            &&& fields.relocations_offset == bytes::le_u32(raw, at + 56)
            &&& fields.relocation_count == bytes::le_u32(raw, at + 60)
            &&& fields.kind == bytes::le_u32(raw, at + 64) & 0xff
            &&& fields.reserved1 == bytes::le_u32(raw, at + 68)
            &&& fields.reserved2 == bytes::le_u32(raw, at + 72)
            &&& fields.reserved3 == bytes::le_u32(raw, at + 76)
        }),
{
}

/// Whether a section has bytes in the file.
spec fn in_file(raw: Seq<u8>, i: int) -> bool {
    let kind = segment::section_fields(raw, i).kind;
    kind != 0x1 && kind != 0xc && kind != 0x12
}

/// Where a section starts in the file.
spec fn start_of(raw: Seq<u8>, i: int) -> int {
    object_file::section_file_offset(raw, i)->0 as int
}

/// Whether a section is accepted by itself.
spec fn section_fits(raw: Seq<u8>, i: int, file_len: u64) -> bool {
    let fields = segment::segment_fields(raw);
    let section = segment::section_fields(raw, i);
    let offset = start_of(raw, i);
    &&& object_file::section_file_offset(raw, i) is Some
    &&& section.is_in_segment
    &&& section.address + section.size <= u64::MAX
    &&& section.size > 0 ==> fields.vmaddr <= section.address && section.address + section.size
        <= fields.vmaddr + fields.vmsize
    &&& in_file(raw, i) ==> offset + section.size <= file_len
    &&& in_file(raw, i) && section.size > 0 ==> fields.fileoff <= offset && offset + section.size
        <= fields.fileoff + fields.filesize
    &&& section.is_reader_capability ==> {
        &&& fields.is_text
        &&& section.size == 48
        &&& section.kind == 0
        &&& section.relocation_count == 0
        &&& section.reserved1 == 0
        &&& section.reserved2 == 0
        &&& section.reserved3 == 0
    }
}

/// Whether a section holds the bytes of `range` in the file and may be executed.
spec fn executes(raw: Seq<u8>, i: int, range: (u64, u64)) -> bool {
    &&& in_file(raw, i)
    &&& segment::segment_fields(raw).initprot & 4 == 4
    &&& range.0 == start_of(raw, i)
    &&& range.1 == start_of(raw, i) + segment::section_fields(raw, i).size
}

/// Whether `range` holds the relocations of a section.
spec fn relocates(raw: Seq<u8>, i: int, range: (u64, u64)) -> bool {
    let section = segment::section_fields(raw, i);
    &&& section.relocation_count > 0
    &&& range.0 == section.relocations_offset
    &&& range.1 == 12 * section.relocation_count
}

/// Whether a section has bytes in the file from `offset` on, apart from the start of the file.
spec fn starts_at(raw: Seq<u8>, i: int, offset: u64) -> bool {
    in_file(raw, i) && offset == start_of(raw, i) && offset != 0
}

/// What the first `count` sections of a segment add to a scan.
spec fn adds_sections(before: MachoScanView, scan: MachoScanView, raw: Seq<u8>, count: int) -> bool {
    &&& forall|range: (u64, u64)|
        #![trigger scan.executable_section_ranges.contains(range)]
        scan.executable_section_ranges.contains(range) <==> (
        before.executable_section_ranges.contains(range) || exists|i: int|
            0 <= i < count && #[trigger] executes(raw, i, range))
    &&& forall|range: (u64, u64)|
        #![trigger scan.referenced_ranges.contains(range)]
        scan.referenced_ranges.contains(range) <==> (before.referenced_ranges.contains(range)
            || exists|i: int| 0 <= i < count && #[trigger] relocates(raw, i, range))
    &&& match scan.first_section_offset {
        Some(first) => {
            &&& before.first_section_offset == Some(first) || exists|i: int|
                0 <= i < count && #[trigger] starts_at(raw, i, first)
            &&& before.first_section_offset matches Some(earlier) ==> first <= earlier
            &&& forall|i: int, offset: u64|
                0 <= i < count && #[trigger] starts_at(raw, i, offset) ==> first <= offset
        },
        None => {
            &&& before.first_section_offset is None
            &&& forall|i: int, offset: u64| 0 <= i < count ==> !(#[trigger] starts_at(raw, i, offset))
        },
    }
    &&& match scan.reader_capability {
        Some((offset, size)) => before.reader_capability == Some((offset, size)) || exists|i: int|
            0 <= i < count && (#[trigger] segment::section_fields(raw, i)).is_reader_capability
                && offset == start_of(raw, i) && size == segment::section_fields(raw, i).size,
        None => before.reader_capability is None && forall|i: int|
            0 <= i < count ==> !(#[trigger] segment::section_fields(raw, i)).is_reader_capability,
    }
}

/// What a list with more behind it holds.
proof fn lemma_contains_added(list: Seq<(u64, u64)>, more: Seq<(u64, u64)>, item: (u64, u64))
    ensures
        (list + more).contains(item) <==> list.contains(item) || more.contains(item),
{
    let whole = list + more;
    if list.contains(item) {
        let i = list.index_of(item);
        assert(whole[i] == item);
    }
    if more.contains(item) {
        let i = more.index_of(item);
        assert(whole[list.len() + i] == item);
    }
    if whole.contains(item) {
        let i = whole.index_of(item);
        if i < list.len() {
            assert(list[i] == item);
        } else {
            assert(more[i - list.len()] == item);
        }
    }
}

/// What one section adds to the ranges of a scan.
proof fn lemma_section_ranges(
    before: MachoScanView,
    scan: MachoScanView,
    raw: Seq<u8>,
    index: int,
    next: MachoScanView,
)
    requires
        adds_sections(before, scan, raw, index),
        0 <= index,
        !segment::segment_fields(raw).is_linkedit,
        object_file::section_file_offset(raw, index) is Some,
        in_file(raw, index) ==> start_of(raw, index) + segment::section_fields(raw, index).size
            <= u64::MAX,
        next == segment::with_section(
            scan,
            segment::segment_fields(raw),
            segment::section_fields(raw, index),
            object_file::section_file_offset(raw, index)->0,
        ),
    ensures
        forall|range: (u64, u64)|
            #![trigger next.executable_section_ranges.contains(range)]
            next.executable_section_ranges.contains(range) <==> (
            before.executable_section_ranges.contains(range) || exists|i: int|
                0 <= i < index + 1 && #[trigger] executes(raw, i, range)),
        forall|range: (u64, u64)|
            #![trigger next.referenced_ranges.contains(range)]
            next.referenced_ranges.contains(range) <==> (before.referenced_ranges.contains(range)
                || exists|i: int| 0 <= i < index + 1 && #[trigger] relocates(raw, i, range)),
{
    let section = segment::section_fields(raw, index);
    let offset = object_file::section_file_offset(raw, index)->0;
    let is_executed = in_file(raw, index) && segment::segment_fields(raw).initprot & 4 == 4;
    let executed = if is_executed {
        seq![(offset, (offset + section.size) as u64)]
    } else {
        Seq::empty()
    };
    let relocations = macho::counted_range(
        section.relocations_offset,
        section.relocation_count,
        12,
    );
    assert(next.executable_section_ranges =~= scan.executable_section_ranges + executed);
    assert(next.referenced_ranges =~= scan.referenced_ranges + relocations);
    assert forall|range: (u64, u64)|
        #![trigger next.executable_section_ranges.contains(range)]
        next.executable_section_ranges.contains(range) <==> (
        before.executable_section_ranges.contains(range) || exists|i: int|
            0 <= i < index + 1 && #[trigger] executes(raw, i, range)) by {
        lemma_contains_added(scan.executable_section_ranges, executed, range);
        assert(executed.contains(range) <==> executes(raw, index, range)) by {
            if executes(raw, index, range) {
                assert(executed[0] == range);
            }
        }
    }
    assert forall|range: (u64, u64)|
        #![trigger next.referenced_ranges.contains(range)]
        next.referenced_ranges.contains(range) <==> (before.referenced_ranges.contains(range)
            || exists|i: int| 0 <= i < index + 1 && #[trigger] relocates(raw, i, range)) by {
        lemma_contains_added(scan.referenced_ranges, relocations, range);
        assert(relocations.contains(range) <==> relocates(raw, index, range)) by {
            if relocates(raw, index, range) {
                assert(relocations[0] == range);
            }
        }
    }
}

/// Whether a section is accepted behind `before` and the sections before it.
#[verifier::opaque]
spec fn section_follows(before: MachoScanView, raw: Seq<u8>, index: int) -> bool {
    segment::section_fields(raw, index).is_reader_capability ==> {
        &&& before.reader_capability is None
        &&& forall|i: int|
            0 <= i < index ==> !(#[trigger] segment::section_fields(raw, i)).is_reader_capability
    }
}

/// One more section of a segment.
proof fn lemma_section_step(
    before: MachoScanView,
    scan: MachoScanView,
    raw: Seq<u8>,
    index: int,
    file_len: u64,
)
    requires
        adds_sections(before, scan, raw, index),
        0 <= index,
        !segment::segment_fields(raw).is_linkedit,
    ensures
        segment::scan_section(scan, raw, index, file_len) is Ok <==> section_fits(
            raw,
            index,
            file_len,
        ) && section_follows(before, raw, index),
        segment::scan_section(scan, raw, index, file_len) matches Ok(next) ==> adds_sections(
            before,
            next,
            raw,
            index + 1,
        ),
{
    reveal(section_follows);
    let fields = segment::segment_fields(raw);
    let section = segment::section_fields(raw, index);
    assert(segment::has_file_data(section.kind) == in_file(raw, index));
    if let Ok(next) = segment::scan_section(scan, raw, index, file_len) {
        lemma_section_ranges(before, scan, raw, index, next);
        let offset = object_file::section_file_offset(raw, index)->0;
        assert(forall|at: u64|
            #[trigger] starts_at(raw, index, at) <==> in_file(raw, index) && offset != 0 && at
                == offset);
        if let Some(first) = scan.first_section_offset {
            if before.first_section_offset != Some(first) {
                let i = choose|i: int| 0 <= i < index && #[trigger] starts_at(raw, i, first);
                assert(starts_at(raw, i, first));
            }
        }
        if in_file(raw, index) && offset != 0 {
            assert(starts_at(raw, index, offset));
        }
        if section.is_reader_capability {
            assert(next.reader_capability == Some((offset, section.size)));
        } else if let Some((at, size)) = scan.reader_capability {
            if before.reader_capability != Some((at, size)) {
                let i = choose|i: int|
                    0 <= i < index && (#[trigger] segment::section_fields(
                        raw,
                        i,
                    )).is_reader_capability && at == start_of(raw, i) && size
                        == segment::section_fields(raw, i).size;
                assert(segment::section_fields(raw, i).is_reader_capability);
            }
        }
    }
}

/// Whether the sections of a segment from `index` on are accepted behind `before` and the
/// sections before them.
spec fn sections_fit(before: MachoScanView, raw: Seq<u8>, index: int, file_len: u64) -> bool {
    forall|i: int|
        index <= i < segment::segment_fields(raw).section_count ==> (#[trigger] section_fits(
            raw,
            i,
            file_len,
        )) && section_follows(before, raw, i)
}

/// The sections from `index` on are the one at `index` and those behind it.
proof fn lemma_sections_fit(before: MachoScanView, raw: Seq<u8>, index: int, file_len: u64)
    requires
        index < segment::segment_fields(raw).section_count,
    ensures
        sections_fit(before, raw, index, file_len) <==> section_fits(raw, index, file_len)
            && section_follows(before, raw, index) && sections_fit(
            before,
            raw,
            index + 1,
            file_len,
        ),
{
    if sections_fit(before, raw, index, file_len) {
        assert(section_fits(raw, index, file_len));
        assert forall|i: int|
            index + 1 <= i < segment::segment_fields(raw).section_count implies (
        #[trigger] section_fits(raw, i, file_len)) && section_follows(before, raw, i) by {}
    }
    if section_fits(raw, index, file_len) && section_follows(before, raw, index) && sections_fit(
        before,
        raw,
        index + 1,
        file_len,
    ) {
        assert forall|i: int|
            index <= i < segment::segment_fields(raw).section_count implies (
        #[trigger] section_fits(raw, i, file_len)) && section_follows(before, raw, i) by {
            if i > index {
                assert(index + 1 <= i);
            }
        }
    }
}

/// The sections of a segment from `index` on.
proof fn lemma_sections(
    before: MachoScanView,
    scan: MachoScanView,
    raw: Seq<u8>,
    index: int,
    file_len: u64,
)
    requires
        adds_sections(before, scan, raw, index),
        0 <= index <= segment::segment_fields(raw).section_count,
        segment::segment_fields(raw).is_linkedit ==> segment::segment_fields(raw).section_count
            == 0,
    ensures
        segment::scan_sections(scan, raw, index, file_len) is Ok <==> sections_fit(
            before,
            raw,
            index,
            file_len,
        ),
        segment::scan_sections(scan, raw, index, file_len) matches Ok(last) ==> adds_sections(
            before,
            last,
            raw,
            segment::segment_fields(raw).section_count as int,
        ),
    decreases segment::segment_fields(raw).section_count - index,
{
    if index < segment::segment_fields(raw).section_count {
        lemma_section_step(before, scan, raw, index, file_len);
        lemma_sections_fit(before, raw, index, file_len);
        if let Ok(next) = segment::scan_section(scan, raw, index, file_len) {
            lemma_sections(before, next, raw, index + 1, file_len);
        }
    }
}

/// Whether a load command maps a segment.
spec fn is_segment(raw: Seq<u8>) -> bool {
    bytes::le_u32(raw, 0) == 0x19
}

/// Whether a load command maps the `__TEXT` segment.
spec fn is_text(raw: Seq<u8>) -> bool {
    is_segment(raw) && segment::segment_fields(raw).is_text
}

/// Whether a load command maps the `__LINKEDIT` segment.
spec fn is_linkedit(raw: Seq<u8>) -> bool {
    is_segment(raw) && segment::segment_fields(raw).is_linkedit
}

/// Whether a load command names the target platform.
spec fn is_platform(raw: Seq<u8>) -> bool {
    bytes::le_u32(raw, 0) == 0x32 || bytes::le_u32(raw, 0) == 0x24
}

/// Whether a load command names the entry point.
spec fn is_main(raw: Seq<u8>) -> bool {
    bytes::le_u32(raw, 0) == 0x8000_0028
}

/// Whether a load command names the code signature.
spec fn is_signature(raw: Seq<u8>) -> bool {
    bytes::le_u32(raw, 0) == 0x1d
}

/// Whether a load command names the dynamic linker.
spec fn is_dylinker(raw: Seq<u8>) -> bool {
    bytes::le_u32(raw, 0) == 0xe
}

/// Whether a section of the segment is the one with the reader capability record, which lies at
/// `offset` and has `size` bytes.
spec fn records(raw: Seq<u8>, offset: u64, size: u64) -> bool {
    is_segment(raw) && exists|i: int|
        0 <= i < segment::segment_fields(raw).section_count && (#[trigger] segment::section_fields(
            raw,
            i,
        )).is_reader_capability && offset == start_of(raw, i) && size == segment::section_fields(
            raw,
            i,
        ).size
}

/// Whether a section of the segment is the one with the reader capability record.
spec fn declares(raw: Seq<u8>) -> bool {
    is_segment(raw) && exists|i: int|
        0 <= i < segment::segment_fields(raw).section_count && (#[trigger] segment::section_fields(
            raw,
            i,
        )).is_reader_capability
}

/// Whether a section of the segment holds the bytes of `range` in the file and may be executed.
spec fn runs(raw: Seq<u8>, range: (u64, u64)) -> bool {
    is_segment(raw) && exists|i: int|
        0 <= i < segment::segment_fields(raw).section_count && #[trigger] executes(raw, i, range)
}

/// Whether a section of the segment has bytes in the file from `offset` on, apart from the start
/// of the file.
spec fn begins(raw: Seq<u8>, offset: u64) -> bool {
    is_segment(raw) && exists|i: int|
        0 <= i < segment::segment_fields(raw).section_count && #[trigger] starts_at(raw, i, offset)
}

/// Whether the fields at `at` give `range` as offset and size.
spec fn names_bytes(raw: Seq<u8>, at: int, range: (u64, u64)) -> bool {
    &&& bytes::le_u32(raw, at + 4) > 0
    &&& range.0 == bytes::le_u32(raw, at)
    &&& range.1 == bytes::le_u32(raw, at + 4)
}

/// Whether the fields at `at` give `range` as offset and count of entries of `size` bytes.
spec fn names_table(raw: Seq<u8>, at: int, size: int, range: (u64, u64)) -> bool {
    &&& bytes::le_u32(raw, at + 4) > 0
    &&& range.0 == bytes::le_u32(raw, at)
    &&& range.1 == size * bytes::le_u32(raw, at + 4)
}

/// Whether `kind` is that of a load command that names link-edit data by offset and size alone.
spec fn is_data(kind: u32) -> bool {
    kind == 0x1e || kind == 0x26 || kind == 0x29 || kind == 0x2b || kind == 0x2e || kind
        == 0x8000_0033 || kind == 0x8000_0034 || kind == 0x36 || kind == 0x37 || kind == 0x38 || kind
        == 0x3a
}

/// Whether a load command names `range` as link-edit data.
spec fn references(raw: Seq<u8>, range: (u64, u64)) -> bool {
    let kind = bytes::le_u32(raw, 0);
    if kind == 0x19 {
        exists|i: int|
            0 <= i < segment::segment_fields(raw).section_count && #[trigger] relocates(
                raw,
                i,
                range,
            )
    } else if kind == 0x22 || kind == 0x8000_0022 {
        names_bytes(raw, 8, range) || names_bytes(raw, 16, range) || names_bytes(raw, 24, range)
            || names_bytes(raw, 32, range) || names_bytes(raw, 40, range)
    } else if kind == 0x2 {
        names_table(raw, 8, 16, range) || names_bytes(raw, 16, range)
    } else if kind == 0xb {
        names_table(raw, 32, 8, range) || names_table(raw, 40, 56, range) || names_table(
            raw,
            48,
            4,
            range,
        ) || names_table(raw, 56, 4, range) || names_table(raw, 64, 12, range) || names_table(
            raw,
            72,
            12,
            range,
        )
    } else {
        is_data(kind) && names_bytes(raw, 8, range)
    }
}

/// The ranges that a pair of fields gives.
proof fn lemma_field_ranges(raw: Seq<u8>, at: int, size: int, range: (u64, u64))
    requires
        0 < size <= 56,
    ensures
        command::field_range(raw, at).contains(range) <==> names_bytes(raw, at, range),
        command::field_table(raw, at, size).contains(range) <==> names_table(raw, at, size, range),
{
    let count = bytes::le_u32(raw, at + 4);
    assert(0 <= count * size <= u64::MAX) by (nonlinear_arith)
        requires
            0 < size <= 56,
            0 <= count <= u32::MAX,
    ;
    assert(count * size == size * count) by (nonlinear_arith);
    let named = command::field_range(raw, at);
    let table = command::field_table(raw, at, size);
    if names_bytes(raw, at, range) {
        assert(named[0] == range);
    }
    if names_table(raw, at, size, range) {
        assert(table[0] == range);
    }
}

/// The link-edit data that commands other than segments name.
proof fn lemma_named_ranges(raw: Seq<u8>, range: (u64, u64))
    ensures
        command::dyld_info_ranges(raw).contains(range) <==> names_bytes(raw, 8, range)
            || names_bytes(raw, 16, range) || names_bytes(raw, 24, range) || names_bytes(
            raw,
            32,
            range,
        ) || names_bytes(raw, 40, range),
        command::symtab_ranges(raw).contains(range) <==> names_table(raw, 8, 16, range)
            || names_bytes(raw, 16, range),
        command::dysymtab_ranges(raw).contains(range) <==> names_table(raw, 32, 8, range)
            || names_table(raw, 40, 56, range) || names_table(raw, 48, 4, range) || names_table(
            raw,
            56,
            4,
            range,
        ) || names_table(raw, 64, 12, range) || names_table(raw, 72, 12, range),
        command::field_range(raw, 8).contains(range) <==> names_bytes(raw, 8, range),
{
    let first = command::field_range(raw, 8);
    let second = command::field_range(raw, 16);
    let third = command::field_range(raw, 24);
    let fourth = command::field_range(raw, 32);
    let fifth = command::field_range(raw, 40);
    lemma_field_ranges(raw, 8, 16, range);
    lemma_field_ranges(raw, 16, 1, range);
    lemma_field_ranges(raw, 24, 1, range);
    lemma_field_ranges(raw, 32, 8, range);
    lemma_field_ranges(raw, 40, 56, range);
    lemma_contains_added(first, second, range);
    lemma_contains_added(first + second, third, range);
    lemma_contains_added(first + second + third, fourth, range);
    lemma_contains_added(first + second + third + fourth, fifth, range);
    lemma_contains_added(command::field_table(raw, 8, 16), second, range);
    let symbols = command::field_table(raw, 32, 8);
    let modules = command::field_table(raw, 40, 56);
    let externals = command::field_table(raw, 48, 4);
    let indirects = command::field_table(raw, 56, 4);
    let outer = command::field_table(raw, 64, 12);
    let inner = command::field_table(raw, 72, 12);
    lemma_field_ranges(raw, 48, 4, range);
    lemma_field_ranges(raw, 56, 4, range);
    lemma_field_ranges(raw, 64, 12, range);
    lemma_field_ranges(raw, 72, 12, range);
    lemma_contains_added(symbols, modules, range);
    lemma_contains_added(symbols + modules, externals, range);
    lemma_contains_added(symbols + modules + externals, indirects, range);
    lemma_contains_added(symbols + modules + externals + indirects, outer, range);
    lemma_contains_added(symbols + modules + externals + indirects + outer, inner, range);
}

/// The first zero byte from `from` on.
proof fn lemma_first_zero(raw: Seq<u8>, from: int)
    requires
        0 <= from,
    ensures
        from <= raw.len() ==> from <= command::first_zero(raw, from) <= raw.len(),
        from > raw.len() ==> command::first_zero(raw, from) == raw.len(),
        command::first_zero(raw, from) < raw.len() ==> raw[command::first_zero(raw, from)] == 0,
        forall|i: int| from <= i < command::first_zero(raw, from) ==> #[trigger] raw[i] != 0,
    decreases raw.len() - from,
{
    if from < raw.len() && raw[from] != 0 {
        lemma_first_zero(raw, from + 1);
    }
}

/// Whether a load command names `/usr/lib/dyld`.
spec fn names_dyld(raw: Seq<u8>) -> bool {
    let at = bytes::le_u32(raw, 8) as int;
    &&& at + 14 <= raw.len()
    &&& raw.subrange(at, at + 13) == seq![
        0x2fu8, 0x75, 0x73, 0x72, 0x2f, 0x6c, 0x69, 0x62, 0x2f, 0x64, 0x79, 0x6c, 0x64,
    ]
    &&& raw[at + 13] == 0
}

/// Whether a load command names a library by a path.
spec fn names_library(raw: Seq<u8>) -> bool {
    let at = bytes::le_u32(raw, 8) as int;
    &&& at < raw.len()
    &&& raw[at] != 0
    &&& exists|end: int| at < end < raw.len() && #[trigger] raw[end] == 0
}

/// What a load command with a string in it names.
proof fn lemma_command_string(raw: Seq<u8>)
    ensures
        ({
            let found = command::command_string(raw, bytes::le_u32(raw, 8) as int);
            &&& found == Some(command::dyld_path()) <==> names_dyld(raw)
            &&& found is Some && found->0.len() > 0 <==> names_library(raw)
        }),
{
    let at = bytes::le_u32(raw, 8) as int;
    let path = command::dyld_path();
    let end = command::first_zero(raw, at);
    lemma_first_zero(raw, at);
    if names_dyld(raw) {
        let text = raw.subrange(at, at + 13);
        assert forall|i: int| at <= i < at + 13 implies #[trigger] raw[i] != 0 by {
            assert(raw[i] == text[i - at]);
            assert(text[i - at] == path[i - at]);
        }
        assert(end == at + 13);
    }
    if command::command_string(raw, at) == Some(path) {
        assert(raw.subrange(at, end).len() == 13);
        assert(end == at + 13);
    }
    if names_library(raw) {
        let zero = choose|zero: int| at < zero < raw.len() && #[trigger] raw[zero] == 0;
        assert(end <= zero);
    }
    if end < raw.len() && end > at {
        assert(raw[end] == 0);
    }
}

/// Whether a segment command is accepted by itself.
spec fn segment_fits(raw: Seq<u8>, file_len: u64, command_end: u64) -> bool {
    let fields = segment::segment_fields(raw);
    &&& 72 <= raw.len()
    &&& raw.len() == 72 + 80 * fields.section_count
    &&& fields.vmaddr + fields.vmsize <= u64::MAX
    &&& fields.maxprot & fields.initprot == fields.initprot
    &&& (fields.initprot | fields.maxprot) & 6 != 6
    &&& fields.filesize <= fields.vmsize
    &&& fields.fileoff + fields.filesize <= file_len
    &&& fields.is_text ==> {
        &&& fields.fileoff == 0
        &&& fields.initprot & 5 == 5
        &&& fields.initprot & 2 != 2
        &&& command_end <= fields.filesize
    }
    &&& fields.is_linkedit ==> fields.initprot == 1 && fields.maxprot == 1 && fields.section_count
        == 0
    &&& forall|i: int| 0 <= i < fields.section_count ==> #[trigger] section_fits(raw, i, file_len)
    &&& forall|i: int, j: int|
        0 <= i < j < fields.section_count ==> !((#[trigger] segment::section_fields(
            raw,
            i,
        )).is_reader_capability && (#[trigger] segment::section_fields(
            raw,
            j,
        )).is_reader_capability)
}

/// Whether a load command is accepted by itself.
spec fn fits(raw: Seq<u8>, file_len: u64, command_end: u64) -> bool {
    let kind = bytes::le_u32(raw, 0);
    raw.len() % 8 == 0 && if kind == 0x19 {
        segment_fits(raw, file_len, command_end)
    } else if kind == 0x32 {
        24 <= raw.len() && raw.len() == 24 + 8 * bytes::le_u32(raw, 20) && bytes::le_u32(raw, 8)
            == 1
    } else if kind == 0x8000_0028 {
        raw.len() == 24 && bytes::le_u64(raw, 16) == 0
    } else if kind == 0x22 || kind == 0x8000_0022 {
        raw.len() == 48
    } else if kind == 0x2 || kind == 0x1b {
        raw.len() == 24
    } else if kind == 0xb {
        raw.len() == 80
    } else if kind == 0x24 || kind == 0x2a || kind == 0x1d || is_data(kind) {
        raw.len() == 16
    } else if kind == 0xe {
        12 <= raw.len() && names_dyld(raw)
    } else if kind == 0xc || kind == 0x8000_0018 || kind == 0x8000_001f || kind == 0x20 || kind
        == 0x8000_0023 {
        24 <= raw.len() && names_library(raw)
    } else {
        false
    }
}

/// Whether a scan takes the load command that comes next.
spec fn takes(scan: MachoScanView, raw: Seq<u8>) -> bool {
    &&& is_platform(raw) ==> !scan.has_macos_platform_command
    &&& is_main(raw) ==> scan.entry_point is None
    &&& is_linkedit(raw) ==> scan.linkedit is None
    &&& is_signature(raw) ==> scan.code_signature is None
    &&& is_text(raw) ==> scan.text_segment_count < 255
    &&& is_dylinker(raw) ==> scan.dylinker_count < 255
    &&& declares(raw) ==> scan.reader_capability is None
}

/// What a load command changes of a scan, apart from what sections add.
spec fn changes(scan: MachoScanView, raw: Seq<u8>, next: MachoScanView) -> bool {
    let fields = segment::segment_fields(raw);
    &&& next.has_macos_platform_command == (scan.has_macos_platform_command || is_platform(raw))
    &&& next.entry_point == (if is_main(raw) {
        Some(bytes::le_u64(raw, 8))
    } else {
        scan.entry_point
    })
    &&& next.linkedit == (if is_linkedit(raw) {
        Some(
            LinkeditSegment {
                command_offset: scan.command_offset,
                vmaddr: fields.vmaddr,
                fileoff: fields.fileoff,
                filesize: fields.filesize,
            },
        )
    } else {
        scan.linkedit
    })
    &&& next.code_signature == (if is_signature(raw) {
        Some(
            (
                scan.command_offset,
                bytes::le_u32(raw, 8) as u64,
                bytes::le_u32(raw, 12) as u64,
            ),
        )
    } else {
        scan.code_signature
    })
    &&& next.text_segment_count == scan.text_segment_count + (if is_text(raw) {
        1int
    } else {
        0
    })
    &&& next.dylinker_count == scan.dylinker_count + (if is_dylinker(raw) {
        1int
    } else {
        0
    })
    &&& next.max_segment_vmaddr == (if is_segment(raw) && fields.vmaddr > scan.max_segment_vmaddr {
        fields.vmaddr
    } else {
        scan.max_segment_vmaddr
    })
    &&& next.max_segment_fileoff == (if is_segment(raw) && fields.fileoff
        > scan.max_segment_fileoff {
        fields.fileoff
    } else {
        scan.max_segment_fileoff
    })
    &&& next.segment_ranges == (if is_segment(raw) && fields.filesize > 0 {
        scan.segment_ranges.push((fields.fileoff, (fields.fileoff + fields.filesize) as u64))
    } else {
        scan.segment_ranges
    })
    &&& next.virtual_ranges == (if is_segment(raw) && fields.vmsize > 0 {
        scan.virtual_ranges.push((fields.vmaddr, (fields.vmaddr + fields.vmsize) as u64))
    } else {
        scan.virtual_ranges
    })
}

/// What a load command and its sections add to a scan.
spec fn adds(scan: MachoScanView, raw: Seq<u8>, next: MachoScanView) -> bool {
    &&& forall|range: (u64, u64)|
        #![trigger next.referenced_ranges.contains(range)]
        next.referenced_ranges.contains(range) <==> (scan.referenced_ranges.contains(range)
            || references(raw, range))
    &&& forall|range: (u64, u64)|
        #![trigger next.executable_section_ranges.contains(range)]
        next.executable_section_ranges.contains(range) <==> (
        scan.executable_section_ranges.contains(range) || runs(raw, range))
    &&& match next.first_section_offset {
        Some(first) => {
            &&& scan.first_section_offset == Some(first) || begins(raw, first)
            &&& scan.first_section_offset matches Some(earlier) ==> first <= earlier
            &&& forall|offset: u64| #[trigger] begins(raw, offset) ==> first <= offset
        },
        None => {
            &&& scan.first_section_offset is None
            &&& forall|offset: u64| !(#[trigger] begins(raw, offset))
        },
    }
    &&& match next.reader_capability {
        Some((offset, size)) => scan.reader_capability == Some((offset, size)) || records(
            raw,
            offset,
            size,
        ),
        None => scan.reader_capability is None && !declares(raw),
    }
}

/// A load command that is no segment.
proof fn lemma_plain_command(
    scan: MachoScanView,
    raw: Seq<u8>,
    file_len: u64,
    command_end: u64,
)
    requires
        !is_segment(raw),
    ensures
        command::scan_command(scan, raw, file_len, command_end) is Ok <==> fits(
            raw,
            file_len,
            command_end,
        ) && takes(scan, raw),
        command::scan_command(scan, raw, file_len, command_end) matches Ok(next) ==> changes(
            scan,
            raw,
            next,
        ) && adds(scan, raw, next),
{
    lemma_command_string(raw);
    if let Ok(next) = command::scan_command(scan, raw, file_len, command_end) {
        assert forall|range: (u64, u64)|
            #![trigger next.referenced_ranges.contains(range)]
            next.referenced_ranges.contains(range) <==> (scan.referenced_ranges.contains(range)
                || references(raw, range)) by {
            lemma_named_ranges(raw, range);
            lemma_contains_added(
                scan.referenced_ranges,
                command::dyld_info_ranges(raw),
                range,
            );
            lemma_contains_added(scan.referenced_ranges, command::symtab_ranges(raw), range);
            lemma_contains_added(scan.referenced_ranges, command::dysymtab_ranges(raw), range);
            lemma_contains_added(scan.referenced_ranges, command::field_range(raw, 8), range);
            lemma_contains_added(scan.referenced_ranges, Seq::empty(), range);
        }
    }
}

/// A segment command.
proof fn lemma_segment_command(
    scan: MachoScanView,
    raw: Seq<u8>,
    file_len: u64,
    command_end: u64,
)
    requires
        is_segment(raw),
    ensures
        command::scan_command(scan, raw, file_len, command_end) is Ok <==> fits(
            raw,
            file_len,
            command_end,
        ) && takes(scan, raw),
        command::scan_command(scan, raw, file_len, command_end) matches Ok(next) ==> changes(
            scan,
            raw,
            next,
        ) && adds(scan, raw, next),
{
    let fields = segment::segment_fields(raw);
    let before = segment::with_segment_ranges(scan, fields);
    assert((2u32 | 4u32) == 6u32) by (bit_vector);
    assert((1u32 | 4u32) == 5u32) by (bit_vector);
    if 72 <= raw.len() && raw.len() == 72 + 80 * fields.section_count && segment::segment_error(
        scan,
        fields,
        file_len,
        command_end,
    ) is None {
        assert(adds_sections(before, before, raw, 0));
        lemma_sections(before, before, raw, 0, file_len);
        lemma_sections_spelled_out(before, raw, file_len);
        if let Ok(last) = segment::scan_sections(before, raw, 0, file_len) {
            macho::laws::lemma_sections_leave_the_rest(before, raw, 0, file_len, last);
        }
    }
}

/// The sections of a segment are accepted exactly where each fits and the reader capability record
/// comes once.
proof fn lemma_sections_spelled_out(before: MachoScanView, raw: Seq<u8>, file_len: u64)
    requires
        is_segment(raw),
    ensures
        sections_fit(before, raw, 0, file_len) <==> {
            let count = segment::segment_fields(raw).section_count;
            &&& forall|i: int| 0 <= i < count ==> #[trigger] section_fits(raw, i, file_len)
            &&& forall|i: int, j: int|
                0 <= i < j < count ==> !((#[trigger] segment::section_fields(
                    raw,
                    i,
                )).is_reader_capability && (#[trigger] segment::section_fields(
                    raw,
                    j,
                )).is_reader_capability)
            &&& declares(raw) ==> before.reader_capability is None
        },
{
    reveal(section_follows);
    let count = segment::segment_fields(raw).section_count as int;
    if sections_fit(before, raw, 0, file_len) {
        assert forall|i: int, j: int| 0 <= i < j < count implies !((
        #[trigger] segment::section_fields(raw, i)).is_reader_capability && (
        #[trigger] segment::section_fields(raw, j)).is_reader_capability) by {
            assert(section_fits(raw, j, file_len));
            assert(section_follows(before, raw, j));
        }
        if declares(raw) {
            let i = choose|i: int|
                0 <= i < count && (#[trigger] segment::section_fields(raw, i)).is_reader_capability;
            assert(section_fits(raw, i, file_len));
            assert(section_follows(before, raw, i));
        }
    }
}

/// A load command is accepted exactly where it fits by itself and the scan takes it.
proof fn lemma_command(scan: MachoScanView, raw: Seq<u8>, file_len: u64, command_end: u64)
    ensures
        command::scan_command(scan, raw, file_len, command_end) is Ok <==> fits(
            raw,
            file_len,
            command_end,
        ) && takes(scan, raw),
        command::scan_command(scan, raw, file_len, command_end) matches Ok(next) ==> changes(
            scan,
            raw,
            next,
        ) && adds(scan, raw, next),
{
    if is_segment(raw) {
        lemma_segment_command(scan, raw, file_len, command_end);
    } else {
        lemma_plain_command(scan, raw, file_len, command_end);
    }
}

/// How many of the first `count` load commands map the `__TEXT` segment.
spec fn text_count(commands: Seq<Seq<u8>>, count: int) -> int
    decreases count,
{
    if count <= 0 {
        0
    } else {
        text_count(commands, count - 1) + (if is_text(commands[count - 1]) {
            1int
        } else {
            0
        })
    }
}

/// How many of the first `count` load commands name the dynamic linker.
spec fn dylinker_count(commands: Seq<Seq<u8>>, count: int) -> int
    decreases count,
{
    if count <= 0 {
        0
    } else {
        dylinker_count(commands, count - 1) + (if is_dylinker(commands[count - 1]) {
            1int
        } else {
            0
        })
    }
}

/// Where the first `count` load commands map segments from the file.
spec fn file_ranges(commands: Seq<Seq<u8>>, count: int) -> Seq<(u64, u64)>
    decreases count,
{
    if count <= 0 {
        Seq::empty()
    } else {
        let raw = commands[count - 1];
        let fields = segment::segment_fields(raw);
        if is_segment(raw) && fields.filesize > 0 {
            file_ranges(commands, count - 1).push(
                (fields.fileoff, (fields.fileoff + fields.filesize) as u64),
            )
        } else {
            file_ranges(commands, count - 1)
        }
    }
}

/// Where the first `count` load commands map segments in memory.
spec fn memory_ranges(commands: Seq<Seq<u8>>, count: int) -> Seq<(u64, u64)>
    decreases count,
{
    if count <= 0 {
        Seq::empty()
    } else {
        let raw = commands[count - 1];
        let fields = segment::segment_fields(raw);
        if is_segment(raw) && fields.vmsize > 0 {
            memory_ranges(commands, count - 1).push(
                (fields.vmaddr, (fields.vmaddr + fields.vmsize) as u64),
            )
        } else {
            memory_ranges(commands, count - 1)
        }
    }
}

/// Whether `scan` is what the first `count` load commands, which start at `starts`, say by
/// themselves.
spec fn sums_up(scan: MachoScanView, starts: Seq<int>, commands: Seq<Seq<u8>>, count: int) -> bool {
    &&& scan.command_offset == starts[count]
    &&& scan.has_macos_platform_command <==> (exists|k: int|
        0 <= k < count && is_platform(#[trigger] commands[k]))
    &&& match scan.entry_point {
        Some(entry) => exists|k: int|
            0 <= k < count && is_main(#[trigger] commands[k]) && entry == bytes::le_u64(
                commands[k],
                8,
            ),
        None => forall|k: int| 0 <= k < count ==> !is_main(#[trigger] commands[k]),
    }
    &&& match scan.linkedit {
        Some(found) => exists|k: int|
            {
                let raw = #[trigger] commands[k];
                let fields = segment::segment_fields(raw);
                &&& 0 <= k < count
                &&& is_linkedit(raw)
                &&& found.command_offset == starts[k]
                &&& found.vmaddr == fields.vmaddr
                &&& found.fileoff == fields.fileoff
                &&& found.filesize == fields.filesize
            },
        None => forall|k: int| 0 <= k < count ==> !is_linkedit(#[trigger] commands[k]),
    }
    &&& match scan.code_signature {
        Some((at, offset, size)) => exists|k: int|
            {
                let raw = #[trigger] commands[k];
                &&& 0 <= k < count
                &&& is_signature(raw)
                &&& at == starts[k]
                &&& offset == bytes::le_u32(raw, 8)
                &&& size == bytes::le_u32(raw, 12)
            },
        None => forall|k: int| 0 <= k < count ==> !is_signature(#[trigger] commands[k]),
    }
    &&& scan.text_segment_count == text_count(commands, count)
    &&& scan.dylinker_count == dylinker_count(commands, count)
    &&& scan.segment_ranges == file_ranges(commands, count)
    &&& scan.virtual_ranges == memory_ranges(commands, count)
}

/// Whether `scan` holds the highest places that the first `count` load commands map segments to.
spec fn sums_up_places(scan: MachoScanView, commands: Seq<Seq<u8>>, count: int) -> bool {
    &&& forall|k: int|
        0 <= k < count && is_segment(#[trigger] commands[k]) ==> segment::segment_fields(
            commands[k],
        ).vmaddr <= scan.max_segment_vmaddr && segment::segment_fields(commands[k]).fileoff
            <= scan.max_segment_fileoff
    &&& scan.max_segment_vmaddr == 0 || exists|k: int|
        0 <= k < count && is_segment(#[trigger] commands[k]) && segment::segment_fields(
            commands[k],
        ).vmaddr == scan.max_segment_vmaddr
    &&& scan.max_segment_fileoff == 0 || exists|k: int|
        0 <= k < count && is_segment(#[trigger] commands[k]) && segment::segment_fields(
            commands[k],
        ).fileoff == scan.max_segment_fileoff
}

/// Whether `scan` is what the sections and the link-edit data of the first `count` load commands
/// add up to.
spec fn sums_up_data(scan: MachoScanView, commands: Seq<Seq<u8>>, count: int) -> bool {
    &&& forall|range: (u64, u64)|
        #![trigger scan.referenced_ranges.contains(range)]
        scan.referenced_ranges.contains(range) <==> (exists|k: int|
            0 <= k < count && references(#[trigger] commands[k], range))
    &&& forall|range: (u64, u64)|
        #![trigger scan.executable_section_ranges.contains(range)]
        scan.executable_section_ranges.contains(range) <==> (exists|k: int|
            0 <= k < count && runs(#[trigger] commands[k], range))
    &&& match scan.first_section_offset {
        Some(first) => {
            &&& exists|k: int| 0 <= k < count && begins(#[trigger] commands[k], first)
            &&& forall|k: int, offset: u64|
                0 <= k < count && #[trigger] begins(commands[k], offset) ==> first <= offset
        },
        None => forall|k: int, offset: u64|
            0 <= k < count ==> !(#[trigger] begins(commands[k], offset)),
    }
    &&& match scan.reader_capability {
        Some((offset, size)) => exists|k: int|
            0 <= k < count && records(#[trigger] commands[k], offset, size),
        None => forall|k: int| 0 <= k < count ==> !declares(#[trigger] commands[k]),
    }
}

/// Whether one load command may come before the other.
spec fn may_precede(earlier: Seq<u8>, later: Seq<u8>) -> bool {
    &&& !(is_platform(earlier) && is_platform(later))
    &&& !(is_main(earlier) && is_main(later))
    &&& !(is_linkedit(earlier) && is_linkedit(later))
    &&& !(is_signature(earlier) && is_signature(later))
    &&& !(declares(earlier) && declares(later))
}

/// A section with the reader capability record lies somewhere.
proof fn lemma_records(raw: Seq<u8>, offset: u64, size: u64)
    ensures
        records(raw, offset, size) ==> declares(raw),
{
    if records(raw, offset, size) {
        let i = choose|i: int|
            0 <= i < segment::segment_fields(raw).section_count && (
            #[trigger] segment::section_fields(raw, i)).is_reader_capability && offset == start_of(
                raw,
                i,
            ) && size == segment::section_fields(raw, i).size;
        assert(segment::section_fields(raw, i).is_reader_capability);
    }
}

/// A scan takes a load command exactly where it may come behind all before it.
proof fn lemma_takes(scan: MachoScanView, starts: Seq<int>, commands: Seq<Seq<u8>>, count: int)
    requires
        0 <= count < commands.len(),
        sums_up(scan, starts, commands, count),
        sums_up_data(scan, commands, count),
    ensures
        takes(scan, commands[count]) <==> {
            &&& forall|k: int|
                0 <= k < count ==> may_precede(#[trigger] commands[k], commands[count])
            &&& is_text(commands[count]) ==> text_count(commands, count) < 255
            &&& is_dylinker(commands[count]) ==> dylinker_count(commands, count) < 255
        },
{
    let raw = commands[count];
    if let Some((offset, size)) = scan.reader_capability {
        let k = choose|k: int| 0 <= k < count && records(#[trigger] commands[k], offset, size);
        lemma_records(commands[k], offset, size);
        assert(declares(commands[k]));
    }
    if takes(scan, raw) {
        assert forall|k: int| 0 <= k < count implies may_precede(#[trigger] commands[k], raw) by {}
    }
}

/// One more load command.
proof fn lemma_sums_step(
    scan: MachoScanView,
    starts: Seq<int>,
    commands: Seq<Seq<u8>>,
    count: int,
    next: MachoScanView,
)
    requires
        0 <= count < commands.len(),
        sums_up(scan, starts, commands, count),
        changes(scan, commands[count], next),
        next.command_offset == starts[count + 1],
    ensures
        sums_up(next, starts, commands, count + 1),
{
    let raw = commands[count];
    if is_main(raw) {
        assert(next.entry_point is Some);
    } else if let Some(entry) = scan.entry_point {
        let k = choose|k: int|
            0 <= k < count && is_main(#[trigger] commands[k]) && entry == bytes::le_u64(
                commands[k],
                8,
            );
        assert(is_main(commands[k]));
    }
    if is_linkedit(raw) {
        assert(next.linkedit is Some);
    } else if let Some(found) = scan.linkedit {
        let k = choose|k: int|
            {
                let raw = #[trigger] commands[k];
                let fields = segment::segment_fields(raw);
                &&& 0 <= k < count
                &&& is_linkedit(raw)
                &&& found.command_offset == starts[k]
                &&& found.vmaddr == fields.vmaddr
                &&& found.fileoff == fields.fileoff
                &&& found.filesize == fields.filesize
            };
        assert(is_linkedit(commands[k]));
    }
    if is_signature(raw) {
        assert(next.code_signature is Some);
    } else if let Some((at, offset, size)) = scan.code_signature {
        let k = choose|k: int|
            {
                let raw = #[trigger] commands[k];
                &&& 0 <= k < count
                &&& is_signature(raw)
                &&& at == starts[k]
                &&& offset == bytes::le_u32(raw, 8)
                &&& size == bytes::le_u32(raw, 12)
            };
        assert(is_signature(commands[k]));
    }
    if scan.has_macos_platform_command {
        let k = choose|k: int| 0 <= k < count && is_platform(#[trigger] commands[k]);
        assert(is_platform(commands[k]));
    }
}

/// One more load command and the places that it maps segments to.
proof fn lemma_places_step(
    scan: MachoScanView,
    commands: Seq<Seq<u8>>,
    count: int,
    next: MachoScanView,
)
    requires
        0 <= count < commands.len(),
        sums_up_places(scan, commands, count),
        changes(scan, commands[count], next),
    ensures
        sums_up_places(next, commands, count + 1),
{
    if scan.max_segment_vmaddr != 0 {
        let k = choose|k: int|
            0 <= k < count && is_segment(#[trigger] commands[k]) && segment::segment_fields(
                commands[k],
            ).vmaddr == scan.max_segment_vmaddr;
        assert(is_segment(commands[k]));
    }
    if scan.max_segment_fileoff != 0 {
        let k = choose|k: int|
            0 <= k < count && is_segment(#[trigger] commands[k]) && segment::segment_fields(
                commands[k],
            ).fileoff == scan.max_segment_fileoff;
        assert(is_segment(commands[k]));
    }
}

/// One more load command and its data.
proof fn lemma_data_step(
    scan: MachoScanView,
    commands: Seq<Seq<u8>>,
    count: int,
    next: MachoScanView,
)
    requires
        0 <= count < commands.len(),
        sums_up_data(scan, commands, count),
        adds(scan, commands[count], next),
    ensures
        sums_up_data(next, commands, count + 1),
{
    let raw = commands[count];
    assert forall|range: (u64, u64)|
        #![trigger next.referenced_ranges.contains(range)]
        next.referenced_ranges.contains(range) <==> (exists|k: int|
            0 <= k < count + 1 && references(#[trigger] commands[k], range)) by {
        if scan.referenced_ranges.contains(range) {
            let k = choose|k: int| 0 <= k < count && references(#[trigger] commands[k], range);
            assert(references(commands[k], range));
        }
        assert(references(raw, range) ==> references(commands[count], range));
    }
    assert forall|range: (u64, u64)|
        #![trigger next.executable_section_ranges.contains(range)]
        next.executable_section_ranges.contains(range) <==> (exists|k: int|
            0 <= k < count + 1 && runs(#[trigger] commands[k], range)) by {
        if scan.executable_section_ranges.contains(range) {
            let k = choose|k: int| 0 <= k < count && runs(#[trigger] commands[k], range);
            assert(runs(commands[k], range));
        }
        assert(runs(raw, range) ==> runs(commands[count], range));
    }
    if let Some(first) = next.first_section_offset {
        if scan.first_section_offset == Some(first) {
            let k = choose|k: int| 0 <= k < count && begins(#[trigger] commands[k], first);
            assert(begins(commands[k], first));
        } else {
            assert(begins(commands[count], first));
        }
        assert forall|k: int, offset: u64|
            0 <= k < count + 1 && #[trigger] begins(commands[k], offset) implies first
            <= offset by {
            if k < count {
                assert(scan.first_section_offset is Some);
            }
        }
    }
    if let Some((offset, size)) = next.reader_capability {
        if scan.reader_capability == Some((offset, size)) {
            let k = choose|k: int| 0 <= k < count && records(#[trigger] commands[k], offset, size);
            assert(records(commands[k], offset, size));
        } else {
            assert(records(commands[count], offset, size));
        }
    }
}

/// Whether `commands` are the load commands of `prefix`, the header and its load commands, that
/// start at `starts`.
spec fn is_chain(prefix: Seq<u8>, starts: Seq<int>, commands: Seq<Seq<u8>>) -> bool {
    &&& starts.len() == commands.len() + 1
    &&& forall|k: int|
        0 <= k < commands.len() ==> {
            &&& #[trigger] commands[k] == prefix.subrange(starts[k], starts[k + 1])
            &&& 0 <= starts[k]
            &&& starts[k] + 8 <= starts[k + 1] <= prefix.len()
            &&& bytes::le_u32(commands[k], 4) == starts[k + 1] - starts[k]
        }
}

/// The load command that starts at `offset`.
proof fn lemma_command_at(prefix: Seq<u8>, offset: int)
    requires
        0 <= offset,
        offset + 8 <= prefix.len(),
    ensures
        ({
            let table = prefix.skip(offset);
            let size = object_file::load_command_size(table) as int;
            &&& size == bytes::le_u32(prefix, offset + 4)
            &&& object_file::starts_with_load_command(table) <==> 8 <= size && offset + size
                <= prefix.len()
            &&& object_file::starts_with_load_command(table) ==> {
                &&& table.take(size) == prefix.subrange(offset, offset + size)
                &&& bytes::le_u32(table.take(size), 4) == size
            }
        }),
{
    let table = prefix.skip(offset);
    let size = object_file::load_command_size(table) as int;
    assert(table.subrange(4, 8) =~= prefix.subrange(offset + 4, offset + 8));
    bytes::lemma_le_u32_window(table, 4, prefix, offset + 4);
    if object_file::starts_with_load_command(table) {
        let raw = table.take(size);
        assert(raw =~= prefix.subrange(offset, offset + size));
        assert(raw.subrange(4, 8) =~= table.subrange(4, 8));
        bytes::lemma_le_u32_window(raw, 4, table, 4);
    }
}

/// Load commands that are scanned to the end lie one behind the other.
proof fn lemma_chain_found(scan: MachoScanView, prefix: Seq<u8>, count: nat, file_len: u64) -> (found: (
    Seq<int>,
    Seq<Seq<u8>>,
))
    requires
        scan.command_offset <= prefix.len() <= usize::MAX,
        layout::scan_commands(scan, prefix, count, file_len) is Ok,
    ensures
        is_chain(prefix, found.0, found.1),
        found.1.len() == count,
        found.0[0] == scan.command_offset,
    decreases count,
{
    if count == 0 {
        (seq![scan.command_offset as int], Seq::empty())
    } else {
        let offset = scan.command_offset as int;
        let table = prefix.skip(offset);
        lemma_command_at(prefix, offset);
        let size = object_file::load_command_size(table) as int;
        let raw = table.take(size);
        let next = command::scan_command(scan, raw, file_len, prefix.len() as u64)->Ok_0;
        let (rest_starts, rest) = lemma_chain_found(next, prefix, (count - 1) as nat, file_len);
        let starts = seq![offset] + rest_starts;
        let commands = seq![raw] + rest;
        assert forall|k: int| 0 <= k < commands.len() implies {
            &&& #[trigger] commands[k] == prefix.subrange(starts[k], starts[k + 1])
            &&& 0 <= starts[k]
            &&& starts[k] + 8 <= starts[k + 1] <= prefix.len()
            &&& bytes::le_u32(commands[k], 4) == starts[k + 1] - starts[k]
        } by {
            if k == 0 {
                assert(starts[1] == rest_starts[0]);
            } else {
                assert(commands[k] == rest[k - 1]);
                assert(starts[k] == rest_starts[k - 1]);
                assert(starts[k + 1] == rest_starts[k]);
            }
        }
        (starts, commands)
    }
}

/// Whether the first `count` load commands are accepted, by themselves and together.
spec fn all_fit(commands: Seq<Seq<u8>>, count: int, file_len: u64, command_end: u64) -> bool {
    &&& forall|k: int|
        0 <= k < count ==> fits(#[trigger] commands[k], file_len, command_end)
    &&& forall|k: int, l: int|
        0 <= k < l < count ==> may_precede(#[trigger] commands[k], #[trigger] commands[l])
}

/// Counts only go up.
proof fn lemma_counts(commands: Seq<Seq<u8>>, count: int, all: int)
    requires
        0 <= count <= all,
    ensures
        0 <= text_count(commands, count) <= text_count(commands, all),
        0 <= dylinker_count(commands, count) <= dylinker_count(commands, all),
    decreases all,
{
    if count < all {
        lemma_counts(commands, count, all - 1);
    } else if count > 0 {
        lemma_counts(commands, count - 1, all - 1);
    }
}

/// The load commands from `count` on.
proof fn lemma_scan(
    scan: MachoScanView,
    prefix: Seq<u8>,
    starts: Seq<int>,
    commands: Seq<Seq<u8>>,
    count: int,
    file_len: u64,
)
    requires
        prefix.len() <= usize::MAX,
        is_chain(prefix, starts, commands),
        0 <= count <= commands.len(),
        sums_up(scan, starts, commands, count),
        sums_up_places(scan, commands, count),
        sums_up_data(scan, commands, count),
        all_fit(commands, count, file_len, prefix.len() as u64),
    ensures
        ({
            let all = commands.len() as int;
            let result = layout::scan_commands(scan, prefix, (all - count) as nat, file_len);
            &&& result matches Ok(last) ==> {
                &&& sums_up(last, starts, commands, all)
                &&& sums_up_places(last, commands, all)
                &&& sums_up_data(last, commands, all)
                &&& all_fit(commands, all, file_len, prefix.len() as u64)
            }
            &&& all_fit(commands, all, file_len, prefix.len() as u64) && text_count(commands, all)
                <= 1 && dylinker_count(commands, all) <= 1 ==> result is Ok
        }),
    decreases commands.len() - count,
{
    let all = commands.len() as int;
    if count < all {
        let raw = commands[count];
        let command_end = prefix.len() as u64;
        let table = prefix.skip(scan.command_offset as int);
        lemma_command_at(prefix, starts[count]);
        assert(raw.subrange(4, 8) =~= prefix.subrange(starts[count] + 4, starts[count] + 8));
        bytes::lemma_le_u32_window(raw, 4, prefix, starts[count] + 4);
        assert(object_file::starts_with_load_command(table));
        assert(table.take(object_file::load_command_size(table) as int) =~= raw);
        lemma_command(scan, raw, file_len, command_end);
        lemma_takes(scan, starts, commands, count);
        lemma_counts(commands, count, all);
        lemma_counts(commands, count + 1, all);
        if let Ok(next) = command::scan_command(scan, raw, file_len, command_end) {
            lemma_sums_step(scan, starts, commands, count, next);
            lemma_places_step(scan, commands, count, next);
            lemma_data_step(scan, commands, count, next);
            lemma_fit_step(commands, count, file_len, command_end);
            lemma_scan(next, prefix, starts, commands, count + 1, file_len);
        } else if all_fit(commands, all, file_len, command_end) && text_count(commands, all) <= 1
            && dylinker_count(commands, all) <= 1 {
            assert(fits(commands[count], file_len, command_end));
            assert forall|k: int| 0 <= k < count implies may_precede(
                #[trigger] commands[k],
                raw,
            ) by {
                assert(may_precede(commands[k], commands[count]));
            }
        }
    }
}

/// One more load command is accepted.
proof fn lemma_fit_step(commands: Seq<Seq<u8>>, count: int, file_len: u64, command_end: u64)
    requires
        0 <= count < commands.len(),
        all_fit(commands, count, file_len, command_end),
        fits(commands[count], file_len, command_end),
        forall|k: int| 0 <= k < count ==> may_precede(#[trigger] commands[k], commands[count]),
    ensures
        all_fit(commands, count + 1, file_len, command_end),
{
}

/// Whether exactly one of the first `count` load commands maps the `__TEXT` segment.
proof fn lemma_one_text(commands: Seq<Seq<u8>>, count: int)
    requires
        0 <= count <= commands.len(),
    ensures
        text_count(commands, count) == 0 <==> (forall|k: int|
            0 <= k < count ==> !is_text(#[trigger] commands[k])),
        text_count(commands, count) <= 1 <==> (forall|k: int, l: int|
            0 <= k < l < count ==> !(is_text(#[trigger] commands[k]) && is_text(
                #[trigger] commands[l],
            ))),
        text_count(commands, count) >= 0,
    decreases count,
{
    if count > 0 {
        lemma_one_text(commands, count - 1);
        let last = commands[count - 1];
        if is_text(last) && text_count(commands, count - 1) > 0 {
            let k = choose|k: int| 0 <= k < count - 1 && is_text(#[trigger] commands[k]);
            assert(is_text(commands[k]) && is_text(commands[count - 1]));
        }
    }
}

/// Whether exactly one of the first `count` load commands names the dynamic linker.
proof fn lemma_one_dylinker(commands: Seq<Seq<u8>>, count: int)
    requires
        0 <= count <= commands.len(),
    ensures
        dylinker_count(commands, count) == 0 <==> (forall|k: int|
            0 <= k < count ==> !is_dylinker(#[trigger] commands[k])),
        dylinker_count(commands, count) <= 1 <==> (forall|k: int, l: int|
            0 <= k < l < count ==> !(is_dylinker(#[trigger] commands[k]) && is_dylinker(
                #[trigger] commands[l],
            ))),
        dylinker_count(commands, count) >= 0,
    decreases count,
{
    if count > 0 {
        lemma_one_dylinker(commands, count - 1);
        let last = commands[count - 1];
        if is_dylinker(last) && dylinker_count(commands, count - 1) > 0 {
            let k = choose|k: int| 0 <= k < count - 1 && is_dylinker(#[trigger] commands[k]);
            assert(is_dylinker(commands[k]) && is_dylinker(commands[count - 1]));
        }
    }
}

/// The overlaps in a list with one more range are those before and those with that range.
proof fn lemma_overlap_pushed(ranges: Seq<(u64, u64)>, range: (u64, u64))
    ensures
        layout::any_overlap(ranges.push(range)) <==> layout::any_overlap(ranges) || exists|i: int|
            0 <= i < ranges.len() && layout::overlap(#[trigger] ranges[i], range),
{
    let whole = ranges.push(range);
    if layout::any_overlap(ranges) {
        let (i, j) = choose|i: int, j: int|
            0 <= i < j < ranges.len() && layout::overlap(
                #[trigger] ranges[i],
                #[trigger] ranges[j],
            );
        assert(whole[i] == ranges[i] && whole[j] == ranges[j]);
        assert(layout::overlap(whole[i], whole[j]));
    }
    if exists|i: int| 0 <= i < ranges.len() && layout::overlap(#[trigger] ranges[i], range) {
        let i = choose|i: int|
            0 <= i < ranges.len() && layout::overlap(#[trigger] ranges[i], range);
        assert(whole[i] == ranges[i] && whole[ranges.len() as int] == range);
        assert(layout::overlap(whole[i], whole[ranges.len() as int]));
    }
    if layout::any_overlap(whole) {
        let (i, j) = choose|i: int, j: int|
            0 <= i < j < whole.len() && layout::overlap(#[trigger] whole[i], #[trigger] whole[j]);
        assert(whole[i] == ranges[i]);
        if j < ranges.len() {
            assert(whole[j] == ranges[j]);
            assert(layout::overlap(ranges[i], ranges[j]));
        } else {
            assert(layout::overlap(ranges[i], range));
        }
    }
}

/// Where a load command maps a segment from the file.
spec fn maps_file(raw: Seq<u8>, range: (u64, u64)) -> bool {
    let fields = segment::segment_fields(raw);
    &&& is_segment(raw)
    &&& fields.filesize > 0
    &&& range == (fields.fileoff, (fields.fileoff + fields.filesize) as u64)
}

/// Where a load command maps a segment in memory.
spec fn maps_memory(raw: Seq<u8>, range: (u64, u64)) -> bool {
    let fields = segment::segment_fields(raw);
    &&& is_segment(raw)
    &&& fields.vmsize > 0
    &&& range == (fields.vmaddr, (fields.vmaddr + fields.vmsize) as u64)
}

/// Whether the segments of two load commands overlap in the file.
spec fn share_file(left: Seq<u8>, right: Seq<u8>) -> bool {
    let a = segment::segment_fields(left);
    let b = segment::segment_fields(right);
    &&& is_segment(left)
    &&& is_segment(right)
    &&& a.filesize > 0
    &&& b.filesize > 0
    &&& layout::overlap(
        (a.fileoff, (a.fileoff + a.filesize) as u64),
        (b.fileoff, (b.fileoff + b.filesize) as u64),
    )
}

/// Whether the segments of two load commands overlap in memory.
spec fn share_memory(left: Seq<u8>, right: Seq<u8>) -> bool {
    let a = segment::segment_fields(left);
    let b = segment::segment_fields(right);
    &&& is_segment(left)
    &&& is_segment(right)
    &&& a.vmsize > 0
    &&& b.vmsize > 0
    &&& layout::overlap(
        (a.vmaddr, (a.vmaddr + a.vmsize) as u64),
        (b.vmaddr, (b.vmaddr + b.vmsize) as u64),
    )
}

/// The segments of the first `count` load commands overlap in the file exactly where two of them
/// do.
proof fn lemma_file_overlap(commands: Seq<Seq<u8>>, count: int)
    requires
        0 <= count <= commands.len(),
    ensures
        forall|range: (u64, u64)|
            #![trigger file_ranges(commands, count).contains(range)]
            file_ranges(commands, count).contains(range) <==> (exists|k: int|
                0 <= k < count && maps_file(#[trigger] commands[k], range)),
        layout::any_overlap(file_ranges(commands, count)) <==> (exists|k: int, l: int|
            0 <= k < l < count && share_file(#[trigger] commands[k], #[trigger] commands[l])),
    decreases count,
{
    if count > 0 {
        lemma_file_overlap(commands, count - 1);
        let raw = commands[count - 1];
        let fields = segment::segment_fields(raw);
        let before = file_ranges(commands, count - 1);
        let after = file_ranges(commands, count);
        let range = (fields.fileoff, (fields.fileoff + fields.filesize) as u64);
        if is_segment(raw) && fields.filesize > 0 {
            lemma_overlap_pushed(before, range);
            assert(after == before.push(range));
            assert forall|item: (u64, u64)|
                #![trigger after.contains(item)]
                after.contains(item) <==> (exists|k: int|
                    0 <= k < count && maps_file(#[trigger] commands[k], item)) by {
                lemma_contains_added(before, seq![range], item);
                assert(after =~= before + seq![range]);
                assert(seq![range].contains(item) <==> item == range) by {
                    assert(seq![range][0] == range);
                }
                if before.contains(item) {
                    let k = choose|k: int|
                        0 <= k < count - 1 && maps_file(#[trigger] commands[k], item);
                    assert(maps_file(commands[k], item));
                }
                if item == range {
                    assert(maps_file(commands[count - 1], item));
                }
            }
            lemma_file_overlap_pushed(commands, count, range);
        } else {
            assert(after == before);
            lemma_no_more(commands, count);
        }
    } else {
        assert(file_ranges(commands, count) =~= Seq::empty());
    }
}

/// A load command that maps nothing from the file overlaps with none.
proof fn lemma_no_more(commands: Seq<Seq<u8>>, count: int)
    requires
        0 < count <= commands.len(),
        !(is_segment(commands[count - 1]) && segment::segment_fields(commands[count - 1]).filesize
            > 0),
    ensures
        forall|range: (u64, u64)| !(#[trigger] maps_file(commands[count - 1], range)),
        (exists|k: int, l: int|
            0 <= k < l < count && share_file(#[trigger] commands[k], #[trigger] commands[l]))
            <==> (exists|k: int, l: int|
            0 <= k < l < count - 1 && share_file(#[trigger] commands[k], #[trigger] commands[l])),
{
    if exists|k: int, l: int|
        0 <= k < l < count && share_file(#[trigger] commands[k], #[trigger] commands[l]) {
        let (k, l) = choose|k: int, l: int|
            0 <= k < l < count && share_file(#[trigger] commands[k], #[trigger] commands[l]);
        assert(l < count - 1);
        assert(share_file(commands[k], commands[l]));
    }
}

/// A load command that maps a segment from the file overlaps with those whose ranges do.
proof fn lemma_file_overlap_pushed(commands: Seq<Seq<u8>>, count: int, range: (u64, u64))
    requires
        0 < count <= commands.len(),
        maps_file(commands[count - 1], range),
        forall|item: (u64, u64)|
            #![trigger file_ranges(commands, count - 1).contains(item)]
            file_ranges(commands, count - 1).contains(item) <==> (exists|k: int|
                0 <= k < count - 1 && maps_file(#[trigger] commands[k], item)),
    ensures
        ({
            let before = file_ranges(commands, count - 1);
            let overlaps = exists|k: int, l: int|
                0 <= k < l < count - 1 && share_file(
                    #[trigger] commands[k],
                    #[trigger] commands[l],
                );
            let all_overlaps = exists|k: int, l: int|
                0 <= k < l < count && share_file(#[trigger] commands[k], #[trigger] commands[l]);
            let pushed = exists|i: int|
                0 <= i < before.len() && layout::overlap(#[trigger] before[i], range);
            all_overlaps <==> overlaps || pushed
        }),
{
    let before = file_ranges(commands, count - 1);
    if exists|i: int| 0 <= i < before.len() && layout::overlap(#[trigger] before[i], range) {
        let i = choose|i: int|
            0 <= i < before.len() && layout::overlap(#[trigger] before[i], range);
        assert(before.contains(before[i]));
        let k = choose|k: int|
            0 <= k < count - 1 && maps_file(#[trigger] commands[k], before[i]);
        assert(share_file(commands[k], commands[count - 1]));
    }
    if exists|k: int, l: int|
        0 <= k < l < count && share_file(#[trigger] commands[k], #[trigger] commands[l]) {
        let (k, l) = choose|k: int, l: int|
            0 <= k < l < count && share_file(#[trigger] commands[k], #[trigger] commands[l]);
        if l < count - 1 {
            assert(share_file(commands[k], commands[l]));
        } else {
            let fields = segment::segment_fields(commands[k]);
            let item = (fields.fileoff, (fields.fileoff + fields.filesize) as u64);
            assert(maps_file(commands[k], item));
            assert(before.contains(item));
            let i = before.index_of(item);
            assert(layout::overlap(before[i], range));
        }
    }
    if exists|k: int, l: int|
        0 <= k < l < count - 1 && share_file(#[trigger] commands[k], #[trigger] commands[l]) {
        let (k, l) = choose|k: int, l: int|
            0 <= k < l < count - 1 && share_file(#[trigger] commands[k], #[trigger] commands[l]);
        assert(share_file(commands[k], commands[l]));
    }
}

/// The segments of the first `count` load commands overlap in memory exactly where two of them
/// do.
proof fn lemma_memory_overlap(commands: Seq<Seq<u8>>, count: int)
    requires
        0 <= count <= commands.len(),
    ensures
        forall|range: (u64, u64)|
            #![trigger memory_ranges(commands, count).contains(range)]
            memory_ranges(commands, count).contains(range) <==> (exists|k: int|
                0 <= k < count && maps_memory(#[trigger] commands[k], range)),
        layout::any_overlap(memory_ranges(commands, count)) <==> (exists|k: int, l: int|
            0 <= k < l < count && share_memory(#[trigger] commands[k], #[trigger] commands[l])),
    decreases count,
{
    if count > 0 {
        lemma_memory_overlap(commands, count - 1);
        let raw = commands[count - 1];
        let fields = segment::segment_fields(raw);
        let before = memory_ranges(commands, count - 1);
        let after = memory_ranges(commands, count);
        let range = (fields.vmaddr, (fields.vmaddr + fields.vmsize) as u64);
        if is_segment(raw) && fields.vmsize > 0 {
            lemma_overlap_pushed(before, range);
            assert(after == before.push(range));
            assert forall|item: (u64, u64)|
                #![trigger after.contains(item)]
                after.contains(item) <==> (exists|k: int|
                    0 <= k < count && maps_memory(#[trigger] commands[k], item)) by {
                lemma_contains_added(before, seq![range], item);
                assert(after =~= before + seq![range]);
                assert(seq![range].contains(item) <==> item == range) by {
                    assert(seq![range][0] == range);
                }
                if before.contains(item) {
                    let k = choose|k: int|
                        0 <= k < count - 1 && maps_memory(#[trigger] commands[k], item);
                    assert(maps_memory(commands[k], item));
                }
                if item == range {
                    assert(maps_memory(commands[count - 1], item));
                }
            }
            lemma_memory_overlap_pushed(commands, count, range);
        } else {
            assert(after == before);
            lemma_no_more_memory(commands, count);
        }
    } else {
        assert(memory_ranges(commands, count) =~= Seq::empty());
    }
}

/// A load command that maps nothing in memory overlaps with none.
proof fn lemma_no_more_memory(commands: Seq<Seq<u8>>, count: int)
    requires
        0 < count <= commands.len(),
        !(is_segment(commands[count - 1]) && segment::segment_fields(commands[count - 1]).vmsize
            > 0),
    ensures
        forall|range: (u64, u64)| !(#[trigger] maps_memory(commands[count - 1], range)),
        (exists|k: int, l: int|
            0 <= k < l < count && share_memory(#[trigger] commands[k], #[trigger] commands[l]))
            <==> (exists|k: int, l: int|
            0 <= k < l < count - 1 && share_memory(#[trigger] commands[k], #[trigger] commands[l])),
{
    if exists|k: int, l: int|
        0 <= k < l < count && share_memory(#[trigger] commands[k], #[trigger] commands[l]) {
        let (k, l) = choose|k: int, l: int|
            0 <= k < l < count && share_memory(#[trigger] commands[k], #[trigger] commands[l]);
        assert(l < count - 1);
        assert(share_memory(commands[k], commands[l]));
    }
}

/// A load command that maps a segment in memory overlaps with those whose ranges do.
proof fn lemma_memory_overlap_pushed(commands: Seq<Seq<u8>>, count: int, range: (u64, u64))
    requires
        0 < count <= commands.len(),
        maps_memory(commands[count - 1], range),
        forall|item: (u64, u64)|
            #![trigger memory_ranges(commands, count - 1).contains(item)]
            memory_ranges(commands, count - 1).contains(item) <==> (exists|k: int|
                0 <= k < count - 1 && maps_memory(#[trigger] commands[k], item)),
    ensures
        ({
            let before = memory_ranges(commands, count - 1);
            let overlaps = exists|k: int, l: int|
                0 <= k < l < count - 1 && share_memory(
                    #[trigger] commands[k],
                    #[trigger] commands[l],
                );
            let all_overlaps = exists|k: int, l: int|
                0 <= k < l < count && share_memory(#[trigger] commands[k], #[trigger] commands[l]);
            let pushed = exists|i: int|
                0 <= i < before.len() && layout::overlap(#[trigger] before[i], range);
            all_overlaps <==> overlaps || pushed
        }),
{
    let before = memory_ranges(commands, count - 1);
    if exists|i: int| 0 <= i < before.len() && layout::overlap(#[trigger] before[i], range) {
        let i = choose|i: int|
            0 <= i < before.len() && layout::overlap(#[trigger] before[i], range);
        assert(before.contains(before[i]));
        let k = choose|k: int|
            0 <= k < count - 1 && maps_memory(#[trigger] commands[k], before[i]);
        assert(share_memory(commands[k], commands[count - 1]));
    }
    if exists|k: int, l: int|
        0 <= k < l < count && share_memory(#[trigger] commands[k], #[trigger] commands[l]) {
        let (k, l) = choose|k: int, l: int|
            0 <= k < l < count && share_memory(#[trigger] commands[k], #[trigger] commands[l]);
        if l < count - 1 {
            assert(share_memory(commands[k], commands[l]));
        } else {
            let fields = segment::segment_fields(commands[k]);
            let item = (fields.vmaddr, (fields.vmaddr + fields.vmsize) as u64);
            assert(maps_memory(commands[k], item));
            assert(before.contains(item));
            let i = before.index_of(item);
            assert(layout::overlap(before[i], range));
        }
    }
    if exists|k: int, l: int|
        0 <= k < l < count - 1 && share_memory(#[trigger] commands[k], #[trigger] commands[l]) {
        let (k, l) = choose|k: int, l: int|
            0 <= k < l < count - 1 && share_memory(#[trigger] commands[k], #[trigger] commands[l]);
        assert(share_memory(commands[k], commands[l]));
    }
}

/// Whether `range`, given by offset and size, lies in the segment that a load command maps.
spec fn lies_in(range: (u64, u64), raw: Seq<u8>) -> bool {
    let fields = segment::segment_fields(raw);
    fields.fileoff <= range.0 && range.0 + range.1 <= fields.fileoff + fields.filesize
}

/// Link-edit data from `index` on is accepted exactly where it lies in the segment.
proof fn lemma_referenced_end(
    ranges: Seq<(u64, u64)>,
    index: int,
    floor: u64,
    linkedit: LinkeditSegment,
    file_len: u64,
)
    requires
        0 <= index <= ranges.len(),
        linkedit.fileoff + linkedit.filesize <= file_len,
    ensures
        layout::referenced_end(ranges, index, floor, linkedit, file_len) is Ok <==> (forall|i: int|
            index <= i < ranges.len() ==> linkedit.fileoff <= (#[trigger] ranges[i]).0
                && ranges[i].0 + ranges[i].1 <= linkedit.fileoff + linkedit.filesize),
        layout::referenced_end(ranges, index, floor, linkedit, file_len) matches Ok(end) ==> {
            &&& floor <= end
            &&& forall|i: int|
                index <= i < ranges.len() ==> (#[trigger] ranges[i]).0 + ranges[i].1 <= end
            &&& end == floor || exists|i: int|
                index <= i < ranges.len() && (#[trigger] ranges[i]).0 + ranges[i].1 == end
        },
    decreases ranges.len() - index,
{
    if index < ranges.len() {
        let (offset, size) = ranges[index];
        if linkedit.fileoff <= offset && offset + size <= linkedit.fileoff + linkedit.filesize {
            let reached = (offset + size) as u64;
            let next = if reached > floor {
                reached
            } else {
                floor
            };
            lemma_referenced_end(ranges, index + 1, next, linkedit, file_len);
            let result = layout::referenced_end(ranges, index, floor, linkedit, file_len);
            assert(result == layout::referenced_end(ranges, index + 1, next, linkedit, file_len));
            if result is Ok {
                assert forall|i: int| index <= i < ranges.len() implies linkedit.fileoff
                    <= (#[trigger] ranges[i]).0 && ranges[i].0 + ranges[i].1 <= linkedit.fileoff
                    + linkedit.filesize && ranges[i].0 + ranges[i].1 <= result->Ok_0 by {}
            }
        } else {
            assert(ranges[index] == (offset, size));
        }
    }
}

/// Whether the first load commands are accepted as a whole: those that there has to be one of are
/// there, segments do not overlap, all link-edit data lies in the `__LINKEDIT` segment, sections
/// start behind the load commands, and the entry point lies in a section that may be executed.
spec fn goes_together(commands: Seq<Seq<u8>>, command_end: u64) -> bool {
    let count = commands.len();
    &&& text_count(commands, count as int) == 1
    &&& dylinker_count(commands, count as int) == 1
    &&& exists|k: int| 0 <= k < count && is_platform(#[trigger] commands[k])
    &&& exists|k: int| 0 <= k < count && is_linkedit(#[trigger] commands[k])
    &&& exists|k: int, l: int, range: (u64, u64)|
        0 <= k < count && 0 <= l < count && is_main(#[trigger] commands[k]) && #[trigger] runs(
            commands[l],
            range,
        ) && range.0 <= bytes::le_u64(commands[k], 8) < range.1
    &&& forall|k: int, l: int|
        0 <= k < l < count ==> !share_file(#[trigger] commands[k], #[trigger] commands[l])
    &&& forall|k: int, l: int|
        0 <= k < l < count ==> !share_memory(#[trigger] commands[k], #[trigger] commands[l])
    &&& forall|k: int, m: int, range: (u64, u64)|
        0 <= k < count && 0 <= m < count && is_linkedit(#[trigger] commands[m])
            && #[trigger] references(commands[k], range) ==> lies_in(range, commands[m])
    &&& forall|k: int, offset: u64|
        0 <= k < count && #[trigger] begins(commands[k], offset) ==> command_end <= offset
}

/// Sections with bytes in the file start in the file.
proof fn lemma_begins(raw: Seq<u8>, file_len: u64, command_end: u64, offset: u64)
    requires
        fits(raw, file_len, command_end),
        begins(raw, offset),
    ensures
        offset <= file_len,
{
    let i = choose|i: int|
        0 <= i < segment::segment_fields(raw).section_count && #[trigger] starts_at(
            raw,
            i,
            offset,
        );
    assert(section_fits(raw, i, file_len));
}

/// The entry point lies in a section that may be executed.
proof fn lemma_entry(
    scan: MachoScanView,
    starts: Seq<int>,
    commands: Seq<Seq<u8>>,
    file_len: u64,
    command_end: u64,
)
    requires
        sums_up(scan, starts, commands, commands.len() as int),
        sums_up_data(scan, commands, commands.len() as int),
        all_fit(commands, commands.len() as int, file_len, command_end),
    ensures
        scan.entry_point is Some && layout::any_holds(
            scan.executable_section_ranges,
            scan.entry_point->0,
        ) <==> (exists|k: int, l: int, range: (u64, u64)|
            0 <= k < commands.len() && 0 <= l < commands.len() && is_main(#[trigger] commands[k])
                && #[trigger] runs(commands[l], range) && range.0 <= bytes::le_u64(commands[k], 8)
                < range.1),
{
    let ranges = scan.executable_section_ranges;
    let count = commands.len();
    if scan.entry_point is Some && layout::any_holds(ranges, scan.entry_point->0) {
        let entry = scan.entry_point->0;
        let k = choose|k: int|
            0 <= k < count && is_main(#[trigger] commands[k]) && entry == bytes::le_u64(
                commands[k],
                8,
            );
        let i = choose|i: int|
            0 <= i < ranges.len() && (#[trigger] ranges[i]).0 <= entry < ranges[i].1;
        assert(ranges.contains(ranges[i]));
        let l = choose|l: int| 0 <= l < count && runs(#[trigger] commands[l], ranges[i]);
        assert(is_main(commands[k]) && runs(commands[l], ranges[i]));
    }
    if exists|k: int, l: int, range: (u64, u64)|
        0 <= k < count && 0 <= l < count && is_main(#[trigger] commands[k]) && #[trigger] runs(
            commands[l],
            range,
        ) && range.0 <= bytes::le_u64(commands[k], 8) < range.1 {
        let (k, l, range) = choose|k: int, l: int, range: (u64, u64)|
            0 <= k < count && 0 <= l < count && is_main(#[trigger] commands[k]) && #[trigger] runs(
                commands[l],
                range,
            ) && range.0 <= bytes::le_u64(commands[k], 8) < range.1;
        assert(is_main(commands[k]));
        assert(scan.entry_point is Some);
        let entry = scan.entry_point->0;
        let same = choose|same: int|
            0 <= same < count && is_main(#[trigger] commands[same]) && entry == bytes::le_u64(
                commands[same],
                8,
            );
        if same < k {
            assert(may_precede(commands[same], commands[k]));
        } else if k < same {
            assert(may_precede(commands[k], commands[same]));
        }
        assert(runs(commands[l], range));
        assert(ranges.contains(range));
        let i = ranges.index_of(range);
        assert(ranges[i].0 <= entry < ranges[i].1);
    }
}

/// All link-edit data lies in the `__LINKEDIT` segment.
proof fn lemma_link_edit(
    scan: MachoScanView,
    starts: Seq<int>,
    commands: Seq<Seq<u8>>,
    file_len: u64,
    command_end: u64,
)
    requires
        sums_up(scan, starts, commands, commands.len() as int),
        sums_up_data(scan, commands, commands.len() as int),
        all_fit(commands, commands.len() as int, file_len, command_end),
        scan.linkedit is Some,
    ensures
        layout::referenced_end(scan.referenced_ranges, 0, 0, scan.linkedit->0, file_len) is Ok
            <==> (forall|k: int, m: int, range: (u64, u64)|
            0 <= k < commands.len() && 0 <= m < commands.len() && is_linkedit(
                #[trigger] commands[m],
            ) && #[trigger] references(commands[k], range) ==> lies_in(range, commands[m])),
        layout::referenced_end(scan.referenced_ranges, 0, 0, scan.linkedit->0, file_len) matches Ok(
            end,
        ) ==> {
            &&& forall|k: int, range: (u64, u64)|
                0 <= k < commands.len() && #[trigger] references(commands[k], range) ==> range.0
                    + range.1 <= end
            &&& end == 0 || exists|k: int, range: (u64, u64)|
                0 <= k < commands.len() && #[trigger] references(commands[k], range) && range.0
                    + range.1 == end
        },
{
    let count = commands.len();
    let found = scan.linkedit->0;
    let ranges = scan.referenced_ranges;
    let m = choose|k: int|
        {
            let raw = #[trigger] commands[k];
            let fields = segment::segment_fields(raw);
            &&& 0 <= k < count
            &&& is_linkedit(raw)
            &&& found.command_offset == starts[k]
            &&& found.vmaddr == fields.vmaddr
            &&& found.fileoff == fields.fileoff
            &&& found.filesize == fields.filesize
        };
    assert(fits(commands[m], file_len, command_end));
    assert forall|l: int| 0 <= l < count && is_linkedit(#[trigger] commands[l]) implies l == m by {
        if l < m {
            assert(may_precede(commands[l], commands[m]));
        } else if m < l {
            assert(may_precede(commands[m], commands[l]));
        }
    }
    lemma_referenced_end(ranges, 0, 0, found, file_len);
    assert forall|k: int, range: (u64, u64)|
        0 <= k < count && #[trigger] references(commands[k], range) implies ranges.contains(
        range,
    ) by {
        assert(commands[k] == commands[k]);
    }
    let result = layout::referenced_end(ranges, 0, 0, found, file_len);
    if result is Ok {
        assert forall|k: int, range: (u64, u64)|
            0 <= k < count && #[trigger] references(commands[k], range) implies lies_in(
            range,
            commands[m],
        ) && range.0 + range.1 <= result->Ok_0 by {
            assert(ranges.contains(range));
            let i = ranges.index_of(range);
            assert(ranges[i] == range);
        }
        if result->Ok_0 != 0 {
            let i = choose|i: int|
                0 <= i < ranges.len() && (#[trigger] ranges[i]).0 + ranges[i].1 == result->Ok_0;
            assert(ranges.contains(ranges[i]));
            let k = choose|k: int| 0 <= k < count && references(#[trigger] commands[k], ranges[i]);
            assert(references(commands[k], ranges[i]));
        }
    }
    if forall|k: int, m: int, range: (u64, u64)|
        0 <= k < count && 0 <= m < count && is_linkedit(#[trigger] commands[m])
            && #[trigger] references(commands[k], range) ==> lies_in(range, commands[m]) {
        assert forall|i: int| 0 <= i < ranges.len() implies found.fileoff <= (
        #[trigger] ranges[i]).0 && ranges[i].0 + ranges[i].1 <= found.fileoff + found.filesize by {
            assert(ranges.contains(ranges[i]));
            let k = choose|k: int| 0 <= k < count && references(#[trigger] commands[k], ranges[i]);
            assert(references(commands[k], ranges[i]));
            assert(lies_in(ranges[i], commands[m]));
        }
    }
}

/// A header is accepted exactly where it is that of a little-endian 64-bit executable that is
/// linked dynamically, can be loaded anywhere, keeps its stack from being executed, runs on every
/// CPU of its type, and whose load commands, no more than a mebibyte of them, lie in the file.
pub proof fn law_which_macho_headers_are_accepted(image: Seq<u8>)
    ensures
        layout::macho_header_error(image) is None <==> {
            let cpu_type = bytes::le_u32(image, 4);
            let cpu_subtype = bytes::le_u32(image, 8);
            let command_count = bytes::le_u32(image, 16);
            let commands_len = bytes::le_u32(image, 20);
            let flags = bytes::le_u32(image, 24);
            &&& 32 + commands_len <= image.len()
            &&& 32 <= image.len()
            &&& image.take(4) == seq![0xcfu8, 0xfa, 0xed, 0xfe]
            &&& bytes::le_u32(image, 12) == 2
            &&& flags & 0x20_0004 == 0x20_0004
            &&& flags & 0x2_0000 != 0x2_0000
            &&& cpu_type == 0x0100_0007 ==> cpu_subtype == 3
            &&& cpu_type == 0x0100_000c ==> cpu_subtype == 0
            &&& commands_len <= 1024 * 1024
            &&& 8 * command_count <= commands_len
        },
        layout::macho_layout(image) is Ok ==> layout::macho_header_error(image) is None,
{
    if 32 <= image.len() {
        let start = image.take(4);
        assert(start =~= seq![image[0], image[1], image[2], image[3]]);
        if start == seq![0xcfu8, 0xfa, 0xed, 0xfe] {
            assert(start[0] == 0xcf && start[1] == 0xfa && start[2] == 0xed && start[3] == 0xfe);
        }
    }
}

/// What a scan of all load commands comes to.
proof fn lemma_scanned(
    scan: MachoScanView,
    image: Seq<u8>,
    starts: Seq<int>,
    commands: Seq<Seq<u8>>,
)
    requires
        image.len() <= usize::MAX,
        32 + bytes::le_u32(image, 20) <= image.len(),
        sums_up(scan, starts, commands, commands.len() as int),
        sums_up_data(scan, commands, commands.len() as int),
        all_fit(
            commands,
            commands.len() as int,
            image.len() as u64,
            (32 + bytes::le_u32(image, 20)) as u64,
        ),
    ensures
        layout::scanned_layout(scan, layout::macho_header(image), image.len() as u64) is Ok <==> {
            &&& starts[commands.len() as int] == 32 + bytes::le_u32(image, 20)
            &&& goes_together(commands, (32 + bytes::le_u32(image, 20)) as u64)
        },
{
    let count = commands.len() as int;
    let file_len = image.len() as u64;
    let command_end = (32 + bytes::le_u32(image, 20)) as u64;
    lemma_one_text(commands, count);
    lemma_one_dylinker(commands, count);
    lemma_file_overlap(commands, count);
    lemma_memory_overlap(commands, count);
    lemma_entry(scan, starts, commands, file_len, command_end);
    if scan.linkedit is Some {
        lemma_link_edit(scan, starts, commands, file_len, command_end);
    }
    lemma_first_section(scan, commands, file_len, command_end);
    lemma_linkedit_is_there(scan, starts, commands);
}

/// The `__LINKEDIT` segment is found exactly where there is one.
proof fn lemma_linkedit_is_there(scan: MachoScanView, starts: Seq<int>, commands: Seq<Seq<u8>>)
    requires
        sums_up(scan, starts, commands, commands.len() as int),
    ensures
        scan.linkedit is Some <==> (exists|k: int|
            0 <= k < commands.len() && is_linkedit(#[trigger] commands[k])),
{
    if let Some(found) = scan.linkedit {
        let k = choose|k: int|
            {
                let raw = #[trigger] commands[k];
                let fields = segment::segment_fields(raw);
                &&& 0 <= k < commands.len()
                &&& is_linkedit(raw)
                &&& found.command_offset == starts[k]
                &&& found.vmaddr == fields.vmaddr
                &&& found.fileoff == fields.fileoff
                &&& found.filesize == fields.filesize
            };
        assert(is_linkedit(commands[k]));
    }
}

/// Sections start behind the load commands.
proof fn lemma_first_section(
    scan: MachoScanView,
    commands: Seq<Seq<u8>>,
    file_len: u64,
    command_end: u64,
)
    requires
        sums_up_data(scan, commands, commands.len() as int),
        all_fit(commands, commands.len() as int, file_len, command_end),
    ensures
        !(scan.first_section_offset matches Some(first) && (first < command_end || first
            > file_len)) <==> (forall|k: int, offset: u64|
            0 <= k < commands.len() && #[trigger] begins(commands[k], offset) ==> command_end
                <= offset),
{
    if let Some(first) = scan.first_section_offset {
        let k = choose|k: int| 0 <= k < commands.len() && begins(#[trigger] commands[k], first);
        assert(begins(commands[k], first));
        assert(fits(commands[k], file_len, command_end));
        lemma_begins(commands[k], file_len, command_end, first);
    }
}

/// An executable with these load commands is accepted exactly where they are accepted one by one
/// and go together.
proof fn lemma_layout(image: Seq<u8>, starts: Seq<int>, commands: Seq<Seq<u8>>)
    requires
        image.len() <= usize::MAX,
        layout::macho_header_error(image) is None,
        is_chain(image.take(32 + bytes::le_u32(image, 20)), starts, commands),
        commands.len() == bytes::le_u32(image, 16),
        starts[0] == 32,
    ensures
        layout::macho_layout(image) is Ok <==> {
            let command_end = (32 + bytes::le_u32(image, 20)) as u64;
            &&& starts[commands.len() as int] == command_end
            &&& all_fit(commands, commands.len() as int, image.len() as u64, command_end)
            &&& goes_together(commands, command_end)
        },
        layout::macho_layout(image) is Ok ==> ({
            let scan = layout::scan_commands(
                macho::initial_scan(),
                image.take(32 + bytes::le_u32(image, 20)),
                commands.len(),
                image.len() as u64,
            );
            &&& scan is Ok
            &&& sums_up(scan->Ok_0, starts, commands, commands.len() as int)
            &&& sums_up_places(scan->Ok_0, commands, commands.len() as int)
            &&& sums_up_data(scan->Ok_0, commands, commands.len() as int)
        }),
{
    let prefix = image.take(32 + bytes::le_u32(image, 20));
    let initial = macho::initial_scan();
    let file_len = image.len() as u64;
    let command_end = prefix.len() as u64;
    assert(file_ranges(commands, 0) =~= Seq::empty());
    assert(memory_ranges(commands, 0) =~= Seq::empty());
    assert(sums_up(initial, starts, commands, 0));
    assert(sums_up_places(initial, commands, 0));
    assert(sums_up_data(initial, commands, 0)) by {
        assert(forall|range: (u64, u64)| !initial.referenced_ranges.contains(range));
        assert(forall|range: (u64, u64)| !initial.executable_section_ranges.contains(range));
    }
    assert(all_fit(commands, 0, file_len, command_end));
    lemma_scan(initial, prefix, starts, commands, 0, file_len);
    lemma_one_text(commands, commands.len() as int);
    lemma_one_dylinker(commands, commands.len() as int);
    if let Ok(last) = layout::scan_commands(initial, prefix, commands.len(), file_len) {
        lemma_scanned(last, image, starts, commands);
    }
}

/// The load commands of an accepted executable.
proof fn lemma_commands_of(image: Seq<u8>) -> (found: (Seq<int>, Seq<Seq<u8>>))
    requires
        image.len() <= usize::MAX,
        layout::macho_layout(image) is Ok,
    ensures
        ({
            let (starts, commands) = found;
            let command_end = (32 + bytes::le_u32(image, 20)) as u64;
            &&& is_chain(image.take(command_end as int), starts, commands)
            &&& commands.len() == bytes::le_u32(image, 16)
            &&& starts[0] == 32
            &&& starts[commands.len() as int] == command_end
            &&& all_fit(commands, commands.len() as int, image.len() as u64, command_end)
            &&& goes_together(commands, command_end)
        }),
{
    law_which_macho_headers_are_accepted(image);
    let prefix = image.take(32 + bytes::le_u32(image, 20));
    let (starts, commands) = lemma_chain_found(
        macho::initial_scan(),
        prefix,
        bytes::le_u32(image, 16) as nat,
        image.len() as u64,
    );
    lemma_layout(image, starts, commands);
    (starts, commands)
}

/// Whether each load command is of a known kind and has the size and the fields that its kind
/// takes.
spec fn each_is_known(image: Seq<u8>, commands: Seq<Seq<u8>>) -> bool {
    &&& forall|k: int|
        0 <= k < commands.len() ==> {
            let raw = #[trigger] commands[k];
            let kind = bytes::le_u32(raw, 0);
            let text = bytes::le_u32(raw, 8) as int;
            &&& raw.len() % 8 == 0
            &&& {
                ||| kind == 0x19
                ||| kind == 0x32 && 24 <= raw.len() && raw.len() == 24 + 8 * bytes::le_u32(
                    raw,
                    20,
                ) && bytes::le_u32(raw, 8) == 1
                ||| kind == 0x8000_0028 && raw.len() == 24 && bytes::le_u64(raw, 16) == 0
                ||| (kind == 0x22 || kind == 0x8000_0022) && raw.len() == 48
                ||| (kind == 0x2 || kind == 0x1b) && raw.len() == 24
                ||| kind == 0xb && raw.len() == 80
                ||| (kind == 0x24 || kind == 0x2a || kind == 0x1d || kind == 0x1e || kind == 0x26
                    || kind == 0x29 || kind == 0x2b || kind == 0x2e || kind == 0x8000_0033
                    || kind == 0x8000_0034 || kind == 0x36 || kind == 0x37 || kind == 0x38
                    || kind == 0x3a) && raw.len() == 16
                ||| kind == 0xe && 12 <= raw.len() && text + 14 <= raw.len() && raw.subrange(
                    text,
                    text + 13,
                ) == seq![
                    0x2fu8, 0x75, 0x73, 0x72, 0x2f, 0x6c, 0x69, 0x62, 0x2f, 0x64, 0x79, 0x6c,
                    0x64,
                ] && raw[text + 13] == 0
                ||| (kind == 0xc || kind == 0x8000_0018 || kind == 0x8000_001f || kind == 0x20
                    || kind == 0x8000_0023) && 24 <= raw.len() && text < raw.len() && raw[text]
                    != 0 && (exists|end: int| text < end < raw.len() && #[trigger] raw[end] == 0)
            }
        }
    &&& forall|k: int|
        0 <= k < commands.len() && bytes::le_u32(#[trigger] commands[k], 0) == 0x19 ==> {
            let raw = commands[k];
            let fields = segment::segment_fields(raw);
            &&& 72 <= raw.len()
            &&& raw.len() == 72 + 80 * fields.section_count
            &&& fields.vmaddr + fields.vmsize <= u64::MAX
            &&& fields.maxprot & fields.initprot == fields.initprot
            &&& (fields.initprot | fields.maxprot) & 6 != 6
            &&& fields.filesize <= fields.vmsize
            &&& fields.fileoff + fields.filesize <= image.len()
            &&& fields.is_text ==> {
                &&& fields.fileoff == 0
                &&& fields.initprot & 5 == 5
                &&& fields.initprot & 2 != 2
                &&& 32 + bytes::le_u32(image, 20) <= fields.filesize
            }
            &&& fields.is_linkedit ==> fields.initprot == 1 && fields.maxprot == 1
                && fields.section_count == 0
        }
}

/// Whether the sections lie in their segments and behind the load commands.
spec fn sections_lie_right(image: Seq<u8>, commands: Seq<Seq<u8>>) -> bool {
    &&& forall|k: int, i: int|
        #![trigger segment::section_fields(commands[k], i)]
        #![trigger object_file::section_file_offset(commands[k], i)]
        0 <= k < commands.len() && bytes::le_u32(commands[k], 0) == 0x19 && 0 <= i
            < segment::segment_fields(commands[k]).section_count ==> {
            let raw = commands[k];
            let fields = segment::segment_fields(raw);
            let section = segment::section_fields(commands[k], i);
            let offset = object_file::section_file_offset(commands[k], i)->0;
            let in_file = section.kind != 0x1 && section.kind != 0xc && section.kind != 0x12;
            &&& object_file::section_file_offset(commands[k], i) is Some
            &&& section.is_in_segment
            &&& section.address + section.size <= u64::MAX
            &&& section.size > 0 ==> fields.vmaddr <= section.address && section.address
                + section.size <= fields.vmaddr + fields.vmsize
            &&& in_file ==> offset + section.size <= image.len()
            &&& in_file && section.size > 0 ==> fields.fileoff <= offset && offset + section.size
                <= fields.fileoff + fields.filesize
            &&& in_file && offset != 0 ==> 32 + bytes::le_u32(image, 20) <= offset
            &&& section.is_reader_capability ==> {
                &&& fields.is_text
                &&& section.size == 48
                &&& section.kind == 0
                &&& section.relocation_count == 0
                &&& section.reserved1 == 0
                &&& section.reserved2 == 0
                &&& section.reserved3 == 0
            }
        }
}

/// Whether no two load commands or segments are there that there may be one of, and no two
/// segments overlap.
spec fn come_once(commands: Seq<Seq<u8>>) -> bool {
    &&& forall|k: int, l: int|
        0 <= k < l < commands.len() ==> {
            let earlier = #[trigger] commands[k];
            let later = #[trigger] commands[l];
            let kind = bytes::le_u32(earlier, 0);
            let later_kind = bytes::le_u32(later, 0);
            let fields = segment::segment_fields(earlier);
            let later_fields = segment::segment_fields(later);
            &&& !((kind == 0x32 || kind == 0x24) && (later_kind == 0x32 || later_kind == 0x24))
            &&& !(kind == 0x8000_0028 && later_kind == 0x8000_0028)
            &&& !(kind == 0x1d && later_kind == 0x1d)
            &&& !(kind == 0xe && later_kind == 0xe)
            &&& kind == 0x19 && later_kind == 0x19 ==> {
                &&& !(fields.is_text && later_fields.is_text)
                &&& !(fields.is_linkedit && later_fields.is_linkedit)
                &&& fields.filesize > 0 && later_fields.filesize > 0 ==> {
                    ||| fields.fileoff + fields.filesize <= later_fields.fileoff
                    ||| later_fields.fileoff + later_fields.filesize <= fields.fileoff
                }
                &&& fields.vmsize > 0 && later_fields.vmsize > 0 ==> {
                    ||| fields.vmaddr + fields.vmsize <= later_fields.vmaddr
                    ||| later_fields.vmaddr + later_fields.vmsize <= fields.vmaddr
                }
            }
        }
}

/// Whether there is at most one reader capability record.
spec fn one_record(commands: Seq<Seq<u8>>) -> bool {
    &&& forall|k: int, i: int, l: int, j: int|
        0 <= k < commands.len() && 0 <= l < commands.len() && bytes::le_u32(commands[k], 0)
            == 0x19 && bytes::le_u32(commands[l], 0) == 0x19 && 0 <= i
            < segment::segment_fields(commands[k]).section_count && 0 <= j
            < segment::segment_fields(commands[l]).section_count && (
        #[trigger] segment::section_fields(commands[k], i)).is_reader_capability && (
        #[trigger] segment::section_fields(commands[l], j)).is_reader_capability ==> k == l && i
            == j
}

/// Whether the load commands and segments are there that there has to be one of.
spec fn are_there(commands: Seq<Seq<u8>>) -> bool {
    &&& exists|k: int|
        0 <= k < commands.len() && (bytes::le_u32(#[trigger] commands[k], 0) == 0x32
            || bytes::le_u32(commands[k], 0) == 0x24)
    &&& exists|k: int| 0 <= k < commands.len() && bytes::le_u32(#[trigger] commands[k], 0) == 0xe
    &&& exists|k: int|
        0 <= k < commands.len() && bytes::le_u32(#[trigger] commands[k], 0) == 0x19
            && segment::segment_fields(commands[k]).is_text
    &&& exists|k: int|
        0 <= k < commands.len() && bytes::le_u32(#[trigger] commands[k], 0) == 0x19
            && segment::segment_fields(commands[k]).is_linkedit
    &&& exists|k: int, l: int, i: int|
        {
            let entry = bytes::le_u64(commands[k], 8);
            let section = #[trigger] segment::section_fields(commands[l], i);
            let offset = object_file::section_file_offset(commands[l], i)->0;
            &&& 0 <= k < commands.len()
            &&& 0 <= l < commands.len()
            &&& bytes::le_u32(#[trigger] commands[k], 0) == 0x8000_0028
            &&& bytes::le_u32(commands[l], 0) == 0x19
            &&& 0 <= i < segment::segment_fields(commands[l]).section_count
            &&& segment::segment_fields(commands[l]).initprot & 4 == 4
            &&& section.kind != 0x1 && section.kind != 0xc && section.kind != 0x12
            &&& offset <= entry < offset + section.size
        }
}

/// Whether all link-edit data lies in the `__LINKEDIT` segment.
spec fn data_lies_right(commands: Seq<Seq<u8>>) -> bool {
    &&& forall|k: int, m: int, at: int|
        0 <= k < commands.len() && 0 <= m < commands.len() && bytes::le_u32(
            #[trigger] commands[m],
            0,
        ) == 0x19 && segment::segment_fields(commands[m]).is_linkedit ==> {
            let linkedit = segment::segment_fields(commands[m]);
            let kind = bytes::le_u32(commands[k], 0);
            let offset = #[trigger] bytes::le_u32(commands[k], at);
            let count = bytes::le_u32(commands[k], at + 4);
            let size: int = if (kind == 0x22 || kind == 0x8000_0022) && (at == 8 || at == 16
                || at == 24 || at == 32 || at == 40) {
                1
            } else if kind == 0x2 && at == 8 {
                16
            } else if kind == 0x2 && at == 16 {
                1
            } else if kind == 0xb && at == 32 {
                8
            } else if kind == 0xb && at == 40 {
                56
            } else if kind == 0xb && (at == 48 || at == 56) {
                4
            } else if kind == 0xb && (at == 64 || at == 72) {
                12
            } else if (kind == 0x1e || kind == 0x26 || kind == 0x29 || kind == 0x2b || kind
                == 0x2e || kind == 0x8000_0033 || kind == 0x8000_0034 || kind == 0x36 || kind
                == 0x37 || kind == 0x38 || kind == 0x3a) && at == 8 {
                1
            } else {
                0
            };
            size > 0 && count > 0 ==> linkedit.fileoff <= offset && offset + size * count
                <= linkedit.fileoff + linkedit.filesize
        }
    &&& forall|k: int, i: int, m: int|
        0 <= k < commands.len() && 0 <= m < commands.len() && bytes::le_u32(
            #[trigger] commands[m],
            0,
        ) == 0x19 && segment::segment_fields(commands[m]).is_linkedit && bytes::le_u32(
            commands[k],
            0,
        ) == 0x19 && 0 <= i < segment::segment_fields(commands[k]).section_count ==> {
            let linkedit = segment::segment_fields(commands[m]);
            let section = #[trigger] segment::section_fields(commands[k], i);
            section.relocation_count > 0 ==> linkedit.fileoff <= section.relocations_offset
                && section.relocations_offset + 12 * section.relocation_count
                <= linkedit.fileoff + linkedit.filesize
        }
}

/// Which ranges the fields of a load command name.
proof fn lemma_named_fields(raw: Seq<u8>, linkedit: Seq<u8>)
    requires
        forall|range: (u64, u64)| #[trigger] references(raw, range) ==> lies_in(range, linkedit),
        !is_segment(raw),
    ensures
        ({
            let kind = bytes::le_u32(raw, 0);
            &&& kind == 0x22 || kind == 0x8000_0022 ==> field_lies_in(raw, 8, 1, linkedit)
                && field_lies_in(raw, 16, 1, linkedit) && field_lies_in(raw, 24, 1, linkedit)
                && field_lies_in(raw, 32, 1, linkedit) && field_lies_in(raw, 40, 1, linkedit)
            &&& kind == 0x2 ==> field_lies_in(raw, 8, 16, linkedit) && field_lies_in(
                raw,
                16,
                1,
                linkedit,
            )
            &&& kind == 0xb ==> field_lies_in(raw, 32, 8, linkedit) && field_lies_in(
                raw,
                40,
                56,
                linkedit,
            ) && field_lies_in(raw, 48, 4, linkedit) && field_lies_in(raw, 56, 4, linkedit)
                && field_lies_in(raw, 64, 12, linkedit) && field_lies_in(raw, 72, 12, linkedit)
            &&& is_data(kind) ==> field_lies_in(raw, 8, 1, linkedit)
        }),
{
    lemma_range_of_field(raw, 8, 1);
    lemma_range_of_field(raw, 16, 1);
    lemma_range_of_field(raw, 24, 1);
    lemma_range_of_field(raw, 32, 1);
    lemma_range_of_field(raw, 40, 1);
    lemma_range_of_field(raw, 8, 16);
    lemma_range_of_field(raw, 32, 8);
    lemma_range_of_field(raw, 40, 56);
    lemma_range_of_field(raw, 48, 4);
    lemma_range_of_field(raw, 56, 4);
    lemma_range_of_field(raw, 64, 12);
    lemma_range_of_field(raw, 72, 12);
    assert(references(raw, range_of_field(raw, 8, 1)) ==> lies_in(
        range_of_field(raw, 8, 1),
        linkedit,
    ));
    assert(references(raw, range_of_field(raw, 16, 1)) ==> lies_in(
        range_of_field(raw, 16, 1),
        linkedit,
    ));
    assert(references(raw, range_of_field(raw, 24, 1)) ==> lies_in(
        range_of_field(raw, 24, 1),
        linkedit,
    ));
    assert(references(raw, range_of_field(raw, 32, 1)) ==> lies_in(
        range_of_field(raw, 32, 1),
        linkedit,
    ));
    assert(references(raw, range_of_field(raw, 40, 1)) ==> lies_in(
        range_of_field(raw, 40, 1),
        linkedit,
    ));
    assert(references(raw, range_of_field(raw, 8, 16)) ==> lies_in(
        range_of_field(raw, 8, 16),
        linkedit,
    ));
    assert(references(raw, range_of_field(raw, 32, 8)) ==> lies_in(
        range_of_field(raw, 32, 8),
        linkedit,
    ));
    assert(references(raw, range_of_field(raw, 40, 56)) ==> lies_in(
        range_of_field(raw, 40, 56),
        linkedit,
    ));
    assert(references(raw, range_of_field(raw, 48, 4)) ==> lies_in(
        range_of_field(raw, 48, 4),
        linkedit,
    ));
    assert(references(raw, range_of_field(raw, 56, 4)) ==> lies_in(
        range_of_field(raw, 56, 4),
        linkedit,
    ));
    assert(references(raw, range_of_field(raw, 64, 12)) ==> lies_in(
        range_of_field(raw, 64, 12),
        linkedit,
    ));
    assert(references(raw, range_of_field(raw, 72, 12)) ==> lies_in(
        range_of_field(raw, 72, 12),
        linkedit,
    ));
}

/// The range that the fields at `at` give as offset and count of entries of `size` bytes.
spec fn range_of_field(raw: Seq<u8>, at: int, size: int) -> (u64, u64) {
    (bytes::le_u32(raw, at) as u64, (size * bytes::le_u32(raw, at + 4)) as u64)
}

/// Whether the data that the fields at `at` name, where there is any, lies in the segment.
spec fn field_lies_in(raw: Seq<u8>, at: int, size: int, linkedit: Seq<u8>) -> bool {
    let fields = segment::segment_fields(linkedit);
    let offset = bytes::le_u32(raw, at);
    let count = bytes::le_u32(raw, at + 4);
    count > 0 ==> fields.fileoff <= offset && offset + size * count <= fields.fileoff
        + fields.filesize
}

/// The fields at `at` name their range.
proof fn lemma_range_of_field(raw: Seq<u8>, at: int, size: int)
    requires
        0 < size <= 56,
    ensures
        range_of_field(raw, at, size).1 == size * bytes::le_u32(raw, at + 4),
        bytes::le_u32(raw, at + 4) > 0 ==> names_table(
            raw,
            at,
            size,
            range_of_field(raw, at, size),
        ),
        bytes::le_u32(raw, at + 4) > 0 && size == 1 ==> names_bytes(
            raw,
            at,
            range_of_field(raw, at, size),
        ),
{
    let count = bytes::le_u32(raw, at + 4);
    assert(0 <= size * count <= u64::MAX) by (nonlinear_arith)
        requires
            0 < size <= 56,
            0 <= count <= u32::MAX,
    ;
}

/// The load commands of accepted executables, one by one.
#[verifier::rlimit(40)]
proof fn lemma_spelled_commands(image: Seq<u8>, commands: Seq<Seq<u8>>)
    requires
        image.len() <= usize::MAX,
        32 + bytes::le_u32(image, 20) <= image.len(),
        all_fit(
            commands,
            commands.len() as int,
            image.len() as u64,
            (32 + bytes::le_u32(image, 20)) as u64,
        ),
    ensures
        each_is_known(image, commands),
{
    let file_len = image.len() as u64;
    let command_end = (32 + bytes::le_u32(image, 20)) as u64;
    assert forall|k: int| 0 <= k < commands.len() implies fits(
        #[trigger] commands[k],
        file_len,
        command_end,
    ) by {}
}

/// A section of an accepted executable.
proof fn lemma_spelled_section(image: Seq<u8>, commands: Seq<Seq<u8>>, k: int, i: int)
    requires
        image.len() <= usize::MAX,
        32 + bytes::le_u32(image, 20) <= image.len(),
        all_fit(
            commands,
            commands.len() as int,
            image.len() as u64,
            (32 + bytes::le_u32(image, 20)) as u64,
        ),
        goes_together(commands, (32 + bytes::le_u32(image, 20)) as u64),
        0 <= k < commands.len(),
        bytes::le_u32(commands[k], 0) == 0x19,
        0 <= i < segment::segment_fields(commands[k]).section_count,
    ensures
        section_fits(commands[k], i, image.len() as u64),
        in_file(commands[k], i) && start_of(commands[k], i) != 0 ==> 32 + bytes::le_u32(image, 20)
            <= start_of(commands[k], i),
{
    let file_len = image.len() as u64;
    let command_end = (32 + bytes::le_u32(image, 20)) as u64;
    assert(fits(commands[k], file_len, command_end));
    assert(section_fits(commands[k], i, file_len));
    let offset = object_file::section_file_offset(commands[k], i)->0;
    if in_file(commands[k], i) && offset != 0 {
        assert(starts_at(commands[k], i, offset));
        assert(begins(commands[k], offset));
    }
}

/// The sections of accepted executables.
proof fn lemma_spelled_sections(image: Seq<u8>, commands: Seq<Seq<u8>>)
    requires
        image.len() <= usize::MAX,
        32 + bytes::le_u32(image, 20) <= image.len(),
        all_fit(
            commands,
            commands.len() as int,
            image.len() as u64,
            (32 + bytes::le_u32(image, 20)) as u64,
        ),
        goes_together(commands, (32 + bytes::le_u32(image, 20)) as u64),
    ensures
        sections_lie_right(image, commands),
{
    assert forall|k: int, i: int|
        #![trigger segment::section_fields(commands[k], i)]
        #![trigger object_file::section_file_offset(commands[k], i)]
        0 <= k < commands.len() && bytes::le_u32(commands[k], 0) == 0x19 && 0 <= i
            < segment::segment_fields(commands[k]).section_count implies{
            let raw = commands[k];
            let fields = segment::segment_fields(raw);
            let section = segment::section_fields(commands[k], i);
            let offset = object_file::section_file_offset(commands[k], i)->0;
            let in_file = section.kind != 0x1 && section.kind != 0xc && section.kind != 0x12;
            &&& object_file::section_file_offset(commands[k], i) is Some
            &&& section.is_in_segment
            &&& section.address + section.size <= u64::MAX
            &&& section.size > 0 ==> fields.vmaddr <= section.address && section.address
                + section.size <= fields.vmaddr + fields.vmsize
            &&& in_file ==> offset + section.size <= image.len()
            &&& in_file && section.size > 0 ==> fields.fileoff <= offset && offset + section.size
                <= fields.fileoff + fields.filesize
            &&& in_file && offset != 0 ==> 32 + bytes::le_u32(image, 20) <= offset
            &&& section.is_reader_capability ==> {
                &&& fields.is_text
                &&& section.size == 48
                &&& section.kind == 0
                &&& section.relocation_count == 0
                &&& section.reserved1 == 0
                &&& section.reserved2 == 0
                &&& section.reserved3 == 0
            }
        } by {
        lemma_spelled_section(image, commands, k, i);
    }
}

/// The load commands of accepted executables, two by two.
#[verifier::rlimit(40)]
proof fn lemma_spelled_pairs(image: Seq<u8>, commands: Seq<Seq<u8>>)
    requires
        image.len() <= usize::MAX,
        32 + bytes::le_u32(image, 20) <= image.len(),
        all_fit(
            commands,
            commands.len() as int,
            image.len() as u64,
            (32 + bytes::le_u32(image, 20)) as u64,
        ),
        goes_together(commands, (32 + bytes::le_u32(image, 20)) as u64),
    ensures
        come_once(commands),
        one_record(commands),
{
    let file_len = image.len() as u64;
    let command_end = (32 + bytes::le_u32(image, 20)) as u64;
    let count = commands.len() as int;
    lemma_one_text(commands, count);
    lemma_one_dylinker(commands, count);
    assert forall|k: int, l: int| 0 <= k < l < count implies {
        &&& fits(#[trigger] commands[k], file_len, command_end)
        &&& fits(#[trigger] commands[l], file_len, command_end)
        &&& may_precede(commands[k], commands[l])
        &&& !share_file(commands[k], commands[l])
        &&& !share_memory(commands[k], commands[l])
        &&& !(is_text(commands[k]) && is_text(commands[l]))
        &&& !(is_dylinker(commands[k]) && is_dylinker(commands[l]))
    } by {}
    assert forall|k: int, i: int, l: int, j: int|
        0 <= k < commands.len() && 0 <= l < commands.len() && bytes::le_u32(commands[k], 0) == 0x19
            && bytes::le_u32(commands[l], 0) == 0x19 && 0 <= i < segment::segment_fields(
            commands[k],
        ).section_count && 0 <= j < segment::segment_fields(commands[l]).section_count && (
        #[trigger] segment::section_fields(commands[k], i)).is_reader_capability && (
        #[trigger] segment::section_fields(commands[l], j)).is_reader_capability implies k == l && i
        == j by {
        assert(declares(commands[k]));
        assert(declares(commands[l]));
        if k < l {
            assert(may_precede(commands[k], commands[l]));
        } else if l < k {
            assert(may_precede(commands[l], commands[k]));
        } else {
            assert(fits(commands[k], file_len, command_end));
        }
    }
}

/// The load commands that are there in accepted executables.
#[verifier::rlimit(40)]
proof fn lemma_spelled_presence(image: Seq<u8>, commands: Seq<Seq<u8>>)
    requires
        image.len() <= usize::MAX,
        32 + bytes::le_u32(image, 20) <= image.len(),
        all_fit(
            commands,
            commands.len() as int,
            image.len() as u64,
            (32 + bytes::le_u32(image, 20)) as u64,
        ),
        goes_together(commands, (32 + bytes::le_u32(image, 20)) as u64),
    ensures
        are_there(commands),
{
    let count = commands.len() as int;
    lemma_one_text(commands, count);
    lemma_one_dylinker(commands, count);
    let text = choose|k: int| 0 <= k < count && is_text(#[trigger] commands[k]);
    assert(is_text(commands[text]));
    let dylinker = choose|k: int| 0 <= k < count && is_dylinker(#[trigger] commands[k]);
    assert(is_dylinker(commands[dylinker]));
    let platform = choose|k: int| 0 <= k < count && is_platform(#[trigger] commands[k]);
    assert(is_platform(commands[platform]));
    let linkedit = choose|k: int| 0 <= k < count && is_linkedit(#[trigger] commands[k]);
    assert(is_linkedit(commands[linkedit]));
    let (k, l, range) = choose|k: int, l: int, range: (u64, u64)|
        0 <= k < count && 0 <= l < count && is_main(#[trigger] commands[k]) && #[trigger] runs(
            commands[l],
            range,
        ) && range.0 <= bytes::le_u64(commands[k], 8) < range.1;
    let i = choose|i: int|
        0 <= i < segment::segment_fields(commands[l]).section_count && #[trigger] executes(
            commands[l],
            i,
            range,
        );
    assert(executes(commands[l], i, range));
    assert(bytes::le_u32(commands[k], 0) == 0x8000_0028);
    assert(segment::section_fields(commands[l], i) == segment::section_fields(commands[l], i));
}

/// The link-edit data of accepted executables.
#[verifier::rlimit(40)]
proof fn lemma_spelled_data(image: Seq<u8>, commands: Seq<Seq<u8>>)
    requires
        image.len() <= usize::MAX,
        32 + bytes::le_u32(image, 20) <= image.len(),
        all_fit(
            commands,
            commands.len() as int,
            image.len() as u64,
            (32 + bytes::le_u32(image, 20)) as u64,
        ),
        goes_together(commands, (32 + bytes::le_u32(image, 20)) as u64),
    ensures
        data_lies_right(commands),
{
    let count = commands.len() as int;
    assert forall|k: int, m: int|
        0 <= k < count && 0 <= m < count && is_linkedit(#[trigger] commands[m]) && !is_segment(
            #[trigger] commands[k],
        ) implies {
        let raw = commands[k];
        let linkedit = commands[m];
        let kind = bytes::le_u32(raw, 0);
        &&& kind == 0x22 || kind == 0x8000_0022 ==> field_lies_in(raw, 8, 1, linkedit)
            && field_lies_in(raw, 16, 1, linkedit) && field_lies_in(raw, 24, 1, linkedit)
            && field_lies_in(raw, 32, 1, linkedit) && field_lies_in(raw, 40, 1, linkedit)
        &&& kind == 0x2 ==> field_lies_in(raw, 8, 16, linkedit) && field_lies_in(
            raw,
            16,
            1,
            linkedit,
        )
        &&& kind == 0xb ==> field_lies_in(raw, 32, 8, linkedit) && field_lies_in(
            raw,
            40,
            56,
            linkedit,
        ) && field_lies_in(raw, 48, 4, linkedit) && field_lies_in(raw, 56, 4, linkedit)
            && field_lies_in(raw, 64, 12, linkedit) && field_lies_in(raw, 72, 12, linkedit)
        &&& is_data(kind) ==> field_lies_in(raw, 8, 1, linkedit)
    } by {
        assert forall|range: (u64, u64)| #[trigger] references(commands[k], range) implies lies_in(
            range,
            commands[m],
        ) by {
            assert(is_linkedit(commands[m]));
        }
        lemma_named_fields(commands[k], commands[m]);
    }
    assert forall|k: int, i: int, m: int|
        0 <= k < count && 0 <= m < count && is_linkedit(#[trigger] commands[m]) && is_segment(
            commands[k],
        ) && 0 <= i < segment::segment_fields(commands[k]).section_count && (
        #[trigger] segment::section_fields(commands[k], i)).relocation_count > 0 implies {
        let section = segment::section_fields(commands[k], i);
        let range = (
            section.relocations_offset as u64,
            (12 * section.relocation_count) as u64,
        );
        lies_in(range, commands[m])
    } by {
        let section = segment::section_fields(commands[k], i);
        let range = (
            section.relocations_offset as u64,
            (12 * section.relocation_count) as u64,
        );
        assert(relocates(commands[k], i, range));
        assert(references(commands[k], range));
    }
}

/// A load command that is as it has to be is accepted by itself.
#[verifier::rlimit(40)]
proof fn lemma_command_fits(image: Seq<u8>, commands: Seq<Seq<u8>>, index: int)
    requires
        image.len() <= usize::MAX,
        32 + bytes::le_u32(image, 20) <= image.len(),
        each_is_known(image, commands),
        sections_lie_right(image, commands),
        one_record(commands),
        0 <= index < commands.len(),
    ensures
        fits(
            commands[index],
            image.len() as u64,
            (32 + bytes::le_u32(image, 20)) as u64,
        ),
{
    let raw = commands[index];
    let file_len = image.len() as u64;
    if is_segment(raw) {
        assert forall|i: int| 0 <= i < segment::segment_fields(raw).section_count implies
            #[trigger] section_fits(raw, i, file_len) by {
            assert(segment::section_fields(commands[index], i) == segment::section_fields(raw, i));
        }
        assert forall|i: int, j: int|
            0 <= i < j < segment::segment_fields(raw).section_count implies !((
        #[trigger] segment::section_fields(raw, i)).is_reader_capability && (
        #[trigger] segment::section_fields(raw, j)).is_reader_capability) by {
            assert(segment::section_fields(commands[index], i) == segment::section_fields(raw, i));
            assert(segment::section_fields(commands[index], j) == segment::section_fields(raw, j));
        }
    }
}

/// Load commands that are as they have to be may come one behind the other.
proof fn lemma_may_precede(commands: Seq<Seq<u8>>, earlier: int, later: int)
    requires
        0 <= earlier < later < commands.len(),
        come_once(commands),
        one_record(commands),
    ensures
        may_precede(commands[earlier], commands[later]),
{
    let left = commands[earlier];
    let right = commands[later];
    if declares(left) && declares(right) {
        let i = choose|i: int|
            0 <= i < segment::segment_fields(left).section_count && (
            #[trigger] segment::section_fields(left, i)).is_reader_capability;
        let j = choose|j: int|
            0 <= j < segment::segment_fields(right).section_count && (
            #[trigger] segment::section_fields(right, j)).is_reader_capability;
        assert(segment::section_fields(commands[earlier], i).is_reader_capability);
        assert(segment::section_fields(commands[later], j).is_reader_capability);
    }
}

/// Load commands that are as they have to be are all accepted.
proof fn lemma_all_accepted(image: Seq<u8>, commands: Seq<Seq<u8>>)
    requires
        image.len() <= usize::MAX,
        32 + bytes::le_u32(image, 20) <= image.len(),
        each_is_known(image, commands),
        sections_lie_right(image, commands),
        come_once(commands),
        one_record(commands),
    ensures
        all_fit(
            commands,
            commands.len() as int,
            image.len() as u64,
            (32 + bytes::le_u32(image, 20)) as u64,
        ),
{
    let file_len = image.len() as u64;
    let command_end = (32 + bytes::le_u32(image, 20)) as u64;
    assert forall|k: int| 0 <= k < commands.len() implies fits(
        #[trigger] commands[k],
        file_len,
        command_end,
    ) by {
        lemma_command_fits(image, commands, k);
    }
    assert forall|k: int, l: int| 0 <= k < l < commands.len() implies may_precede(
        #[trigger] commands[k],
        #[trigger] commands[l],
    ) by {
        lemma_may_precede(commands, k, l);
    }
}

/// Segments that are as they have to be do not overlap.
proof fn lemma_segments_apart(image: Seq<u8>, commands: Seq<Seq<u8>>, earlier: int, later: int)
    requires
        image.len() <= usize::MAX,
        32 + bytes::le_u32(image, 20) <= image.len(),
        all_fit(
            commands,
            commands.len() as int,
            image.len() as u64,
            (32 + bytes::le_u32(image, 20)) as u64,
        ),
        0 <= earlier < later < commands.len(),
        come_once(commands),
    ensures
        !share_file(commands[earlier], commands[later]),
        !share_memory(commands[earlier], commands[later]),
        !(is_text(commands[earlier]) && is_text(commands[later])),
        !(is_dylinker(commands[earlier]) && is_dylinker(commands[later])),
{
    let file_len = image.len() as u64;
    let command_end = (32 + bytes::le_u32(image, 20)) as u64;
    assert(fits(commands[earlier], file_len, command_end));
    assert(fits(commands[later], file_len, command_end));
}

/// Link-edit data that is as it has to be lies in the `__LINKEDIT` segment.
#[verifier::rlimit(40)]
proof fn lemma_data_inside(
    image: Seq<u8>,
    commands: Seq<Seq<u8>>,
    index: int,
    linkedit: int,
    range: (u64, u64),
)
    requires
        image.len() <= usize::MAX,
        32 + bytes::le_u32(image, 20) <= image.len(),
        data_lies_right(commands),
        0 <= index < commands.len(),
        0 <= linkedit < commands.len(),
        is_linkedit(commands[linkedit]),
        references(commands[index], range),
    ensures
        lies_in(range, commands[linkedit]),
{
    let raw = commands[index];
    let segment_raw = commands[linkedit];
    if is_segment(raw) {
        let i = choose|i: int|
            0 <= i < segment::segment_fields(raw).section_count && #[trigger] relocates(
                raw,
                i,
                range,
            );
        assert(relocates(raw, i, range));
        assert(segment::section_fields(commands[index], i) == segment::section_fields(raw, i));
    } else {
        let offsets = (
            bytes::le_u32(commands[index], 8),
            bytes::le_u32(commands[index], 16),
            bytes::le_u32(commands[index], 24),
            bytes::le_u32(commands[index], 32),
            bytes::le_u32(commands[index], 40),
            bytes::le_u32(commands[index], 48),
            bytes::le_u32(commands[index], 56),
            bytes::le_u32(commands[index], 64),
            bytes::le_u32(commands[index], 72),
        );
        assert(offsets.0 == bytes::le_u32(commands[index], 8));
        assert(offsets.1 == bytes::le_u32(commands[index], 16));
        assert(offsets.2 == bytes::le_u32(commands[index], 24));
        assert(offsets.3 == bytes::le_u32(commands[index], 32));
        assert(offsets.4 == bytes::le_u32(commands[index], 40));
        assert(offsets.5 == bytes::le_u32(commands[index], 48));
        assert(offsets.6 == bytes::le_u32(commands[index], 56));
        assert(offsets.7 == bytes::le_u32(commands[index], 64));
        assert(offsets.8 == bytes::le_u32(commands[index], 72));
    }
}

/// Load commands that are as they have to be go together.
#[verifier::rlimit(40)]
proof fn lemma_all_together(image: Seq<u8>, commands: Seq<Seq<u8>>)
    requires
        image.len() <= usize::MAX,
        32 + bytes::le_u32(image, 20) <= image.len(),
        all_fit(
            commands,
            commands.len() as int,
            image.len() as u64,
            (32 + bytes::le_u32(image, 20)) as u64,
        ),
        sections_lie_right(image, commands),
        come_once(commands),
        are_there(commands),
        data_lies_right(commands),
    ensures
        goes_together(commands, (32 + bytes::le_u32(image, 20)) as u64),
{
    let count = commands.len() as int;
    let command_end = (32 + bytes::le_u32(image, 20)) as u64;
    assert forall|k: int, l: int| 0 <= k < l < count implies {
        &&& !share_file(#[trigger] commands[k], #[trigger] commands[l])
        &&& !share_memory(commands[k], commands[l])
        &&& !(is_text(commands[k]) && is_text(commands[l]))
        &&& !(is_dylinker(commands[k]) && is_dylinker(commands[l]))
    } by {
        lemma_segments_apart(image, commands, k, l);
    }
    lemma_one_text(commands, count);
    lemma_one_dylinker(commands, count);
    lemma_presence(image, commands);
    assert forall|k: int, m: int, range: (u64, u64)|
        0 <= k < count && 0 <= m < count && is_linkedit(#[trigger] commands[m])
            && #[trigger] references(commands[k], range) implies lies_in(range, commands[m]) by {
        lemma_data_inside(image, commands, k, m, range);
    }
    assert forall|k: int, offset: u64|
        0 <= k < count && #[trigger] begins(commands[k], offset) implies command_end <= offset by {
        let raw = commands[k];
        let i = choose|i: int|
            0 <= i < segment::segment_fields(raw).section_count && #[trigger] starts_at(
                raw,
                i,
                offset,
            );
        assert(starts_at(commands[k], i, offset));
        assert(segment::section_fields(commands[k], i) == segment::section_fields(raw, i));
    }
}

/// The load commands that have to be there are there.
proof fn lemma_presence(image: Seq<u8>, commands: Seq<Seq<u8>>)
    requires
        image.len() <= usize::MAX,
        32 + bytes::le_u32(image, 20) <= image.len(),
        all_fit(
            commands,
            commands.len() as int,
            image.len() as u64,
            (32 + bytes::le_u32(image, 20)) as u64,
        ),
        are_there(commands),
    ensures
        exists|k: int| 0 <= k < commands.len() && is_platform(#[trigger] commands[k]),
        exists|k: int| 0 <= k < commands.len() && is_dylinker(#[trigger] commands[k]),
        exists|k: int| 0 <= k < commands.len() && is_text(#[trigger] commands[k]),
        exists|k: int| 0 <= k < commands.len() && is_linkedit(#[trigger] commands[k]),
        exists|k: int, l: int, range: (u64, u64)|
            0 <= k < commands.len() && 0 <= l < commands.len() && is_main(#[trigger] commands[k])
                && #[trigger] runs(commands[l], range) && range.0 <= bytes::le_u64(commands[k], 8)
                < range.1,
{
    let count = commands.len() as int;
    let platform = choose|k: int|
        0 <= k < commands.len() && (bytes::le_u32(#[trigger] commands[k], 0) == 0x32
            || bytes::le_u32(commands[k], 0) == 0x24);
    assert(is_platform(commands[platform]));
    let dylinker = choose|k: int|
        0 <= k < commands.len() && bytes::le_u32(#[trigger] commands[k], 0) == 0xe;
    assert(is_dylinker(commands[dylinker]));
    let text = choose|k: int|
        0 <= k < commands.len() && bytes::le_u32(#[trigger] commands[k], 0) == 0x19
            && segment::segment_fields(commands[k]).is_text;
    assert(is_text(commands[text]));
    let linkedit = choose|k: int|
        0 <= k < commands.len() && bytes::le_u32(#[trigger] commands[k], 0) == 0x19
            && segment::segment_fields(commands[k]).is_linkedit;
    assert(is_linkedit(commands[linkedit]));
    let (k, l, i) = choose|k: int, l: int, i: int|
        {
            let entry = bytes::le_u64(commands[k], 8);
            let section = #[trigger] segment::section_fields(commands[l], i);
            let offset = object_file::section_file_offset(commands[l], i)->0;
            &&& 0 <= k < commands.len()
            &&& 0 <= l < commands.len()
            &&& bytes::le_u32(#[trigger] commands[k], 0) == 0x8000_0028
            &&& bytes::le_u32(commands[l], 0) == 0x19
            &&& 0 <= i < segment::segment_fields(commands[l]).section_count
            &&& segment::segment_fields(commands[l]).initprot & 4 == 4
            &&& section.kind != 0x1 && section.kind != 0xc && section.kind != 0x12
            &&& offset <= entry < offset + section.size
        };
    let section = segment::section_fields(commands[l], i);
    let offset = object_file::section_file_offset(commands[l], i)->0;
    assert(fits(
        commands[l],
        image.len() as u64,
        (32 + bytes::le_u32(image, 20)) as u64,
    ));
    assert(section_fits(commands[l], i, image.len() as u64));
    let range = (offset, (offset + section.size) as u64);
    assert(executes(commands[l], i, range));
    assert(runs(commands[l], range));
    assert(is_main(commands[k]));
}

/// Load commands that follow one another in an image follow one another in its prefix.
proof fn lemma_chain_in_prefix(image: Seq<u8>, starts: Seq<int>, commands: Seq<Seq<u8>>)
    requires
        32 + bytes::le_u32(image, 20) <= image.len(),
        starts.len() == commands.len() + 1,
        commands.len() == bytes::le_u32(image, 16),
        starts[0] == 32,
        starts.last() == 32 + bytes::le_u32(image, 20),
        forall|k: int|
            0 <= k < commands.len() ==> {
                let raw = #[trigger] commands[k];
                &&& raw == image.subrange(starts[k], starts[k] + raw.len())
                &&& starts[k + 1] == starts[k] + raw.len()
                &&& starts[k] + raw.len() <= 32 + bytes::le_u32(image, 20)
                &&& 8 <= raw.len()
                &&& bytes::le_u32(raw, 4) == raw.len()
            },
    ensures
        is_chain(image.take(32 + bytes::le_u32(image, 20)), starts, commands),
{
    let prefix = image.take(32 + bytes::le_u32(image, 20));
    assert forall|k: int| 0 <= k < commands.len() implies {
        &&& #[trigger] commands[k] == prefix.subrange(starts[k], starts[k + 1])
        &&& 0 <= starts[k]
        &&& starts[k] + 8 <= starts[k + 1] <= prefix.len()
        &&& bytes::le_u32(commands[k], 4) == starts[k + 1] - starts[k]
    } by {
        let raw = commands[k];
        assert(raw == image.subrange(starts[k], starts[k] + raw.len()));
        lemma_starts_go_up(starts, commands, k);
        assert(prefix.subrange(starts[k], starts[k + 1]) =~= raw);
    }
}

/// Starts that are as far apart as the load commands are long go up.
proof fn lemma_starts_go_up(starts: Seq<int>, commands: Seq<Seq<u8>>, index: int)
    requires
        starts.len() == commands.len() + 1,
        forall|k: int|
            0 <= k < commands.len() ==> {
                let raw = #[trigger] commands[k];
                starts[k + 1] == starts[k] + raw.len()
            },
        0 <= index <= commands.len(),
    ensures
        starts[0] <= starts[index],
    decreases index,
{
    if index > 0 {
        lemma_starts_go_up(starts, commands, index - 1);
        let raw = commands[index - 1];
        assert(starts[index] == starts[index - 1] + raw.len());
    }
}

/// The load commands of an accepted executable start behind its header, follow one another, and
/// fill the bytes that the header counts.
pub proof fn law_load_commands_fill_their_bytes(image: Seq<u8>) -> (found: (Seq<int>, Seq<Seq<u8>>))
    requires
        image.len() <= usize::MAX,
        layout::macho_layout(image) is Ok,
    ensures
        found.0.len() == found.1.len() + 1,
        found.1.len() == bytes::le_u32(image, 16),
        found.0[0] == 32,
        found.0.last() == 32 + bytes::le_u32(image, 20),
        forall|k: int|
            0 <= k < found.1.len() ==> {
                let raw = #[trigger] found.1[k];
                &&& raw == image.subrange(found.0[k], found.0[k] + raw.len())
                &&& found.0[k + 1] == found.0[k] + raw.len()
                &&& found.0[k] + raw.len() <= 32 + bytes::le_u32(image, 20)
                &&& 8 <= raw.len()
                &&& bytes::le_u32(raw, 4) == raw.len()
            },
{
    law_which_macho_headers_are_accepted(image);
    let (starts, commands) = lemma_commands_of(image);
    let prefix = image.take(32 + bytes::le_u32(image, 20));
    assert forall|k: int| 0 <= k < commands.len() implies {
        let raw = #[trigger] commands[k];
        &&& raw == image.subrange(starts[k], starts[k] + raw.len())
        &&& starts[k + 1] == starts[k] + raw.len()
        &&& starts[k] + raw.len() <= 32 + bytes::le_u32(image, 20)
        &&& 8 <= raw.len()
        &&& bytes::le_u32(raw, 4) == raw.len()
    } by {
        let raw = commands[k];
        assert(raw == prefix.subrange(starts[k], starts[k + 1]));
        assert(raw =~= image.subrange(starts[k], starts[k + 1]));
    }
    (starts, commands)
}

/// An executable with an accepted header and these load commands, which fill the bytes that the
/// header counts, is accepted exactly where each is of a known kind and has the size and the fields
/// that its kind takes; segments keep to the file, may not be written and executed both, and hold
/// their sections; of the commands and segments that have to be there once there is one; segments
/// do not overlap; all link-edit data lies in the `__LINKEDIT` segment; and the entry point lies
/// in a section that may be executed.
#[verifier::rlimit(60)]
pub proof fn law_which_load_commands_are_accepted(
    image: Seq<u8>,
    starts: Seq<int>,
    commands: Seq<Seq<u8>>,
)
    requires
        image.len() <= usize::MAX,
        layout::macho_header_error(image) is None,
        starts.len() == commands.len() + 1,
        commands.len() == bytes::le_u32(image, 16),
        starts[0] == 32,
        starts.last() == 32 + bytes::le_u32(image, 20),
        forall|k: int|
            0 <= k < commands.len() ==> {
                let raw = #[trigger] commands[k];
                &&& raw == image.subrange(starts[k], starts[k] + raw.len())
                &&& starts[k + 1] == starts[k] + raw.len()
                &&& starts[k] + raw.len() <= 32 + bytes::le_u32(image, 20)
                &&& 8 <= raw.len()
                &&& bytes::le_u32(raw, 4) == raw.len()
            },
    ensures
        layout::macho_layout(image) is Ok <==> {
            &&& forall|k: int|
                0 <= k < commands.len() ==> {
                    let raw = #[trigger] commands[k];
                    let kind = bytes::le_u32(raw, 0);
                    let text = bytes::le_u32(raw, 8) as int;
                    &&& raw.len() % 8 == 0
                    &&& {
                        ||| kind == 0x19
                        ||| kind == 0x32 && 24 <= raw.len() && raw.len() == 24 + 8 * bytes::le_u32(
                            raw,
                            20,
                        ) && bytes::le_u32(raw, 8) == 1
                        ||| kind == 0x8000_0028 && raw.len() == 24 && bytes::le_u64(raw, 16) == 0
                        ||| (kind == 0x22 || kind == 0x8000_0022) && raw.len() == 48
                        ||| (kind == 0x2 || kind == 0x1b) && raw.len() == 24
                        ||| kind == 0xb && raw.len() == 80
                        ||| (kind == 0x24 || kind == 0x2a || kind == 0x1d || kind == 0x1e || kind == 0x26
                            || kind == 0x29 || kind == 0x2b || kind == 0x2e || kind == 0x8000_0033
                            || kind == 0x8000_0034 || kind == 0x36 || kind == 0x37 || kind == 0x38
                            || kind == 0x3a) && raw.len() == 16
                        ||| kind == 0xe && 12 <= raw.len() && text + 14 <= raw.len() && raw.subrange(
                            text,
                            text + 13,
                        ) == seq![
                            0x2fu8, 0x75, 0x73, 0x72, 0x2f, 0x6c, 0x69, 0x62, 0x2f, 0x64, 0x79, 0x6c,
                            0x64,
                        ] && raw[text + 13] == 0
                        ||| (kind == 0xc || kind == 0x8000_0018 || kind == 0x8000_001f || kind == 0x20
                            || kind == 0x8000_0023) && 24 <= raw.len() && text < raw.len() && raw[text]
                            != 0 && (exists|end: int| text < end < raw.len() && #[trigger] raw[end] == 0)
                    }
                }
            &&& forall|k: int|
                0 <= k < commands.len() && bytes::le_u32(#[trigger] commands[k], 0) == 0x19 ==> {
                    let raw = commands[k];
                    let fields = segment::segment_fields(raw);
                    &&& 72 <= raw.len()
                    &&& raw.len() == 72 + 80 * fields.section_count
                    &&& fields.vmaddr + fields.vmsize <= u64::MAX
                    &&& fields.maxprot & fields.initprot == fields.initprot
                    &&& (fields.initprot | fields.maxprot) & 6 != 6
                    &&& fields.filesize <= fields.vmsize
                    &&& fields.fileoff + fields.filesize <= image.len()
                    &&& fields.is_text ==> {
                        &&& fields.fileoff == 0
                        &&& fields.initprot & 5 == 5
                        &&& fields.initprot & 2 != 2
                        &&& 32 + bytes::le_u32(image, 20) <= fields.filesize
                    }
                    &&& fields.is_linkedit ==> fields.initprot == 1 && fields.maxprot == 1
                        && fields.section_count == 0
                }
            &&& forall|k: int, i: int|
                #![trigger segment::section_fields(commands[k], i)]
                #![trigger object_file::section_file_offset(commands[k], i)]
                0 <= k < commands.len() && bytes::le_u32(commands[k], 0) == 0x19 && 0 <= i
                    < segment::segment_fields(commands[k]).section_count ==> {
                    let raw = commands[k];
                    let fields = segment::segment_fields(raw);
                    let section = segment::section_fields(commands[k], i);
                    let offset = object_file::section_file_offset(commands[k], i)->0;
                    let in_file = section.kind != 0x1 && section.kind != 0xc && section.kind != 0x12;
                    &&& object_file::section_file_offset(commands[k], i) is Some
                    &&& section.is_in_segment
                    &&& section.address + section.size <= u64::MAX
                    &&& section.size > 0 ==> fields.vmaddr <= section.address && section.address
                        + section.size <= fields.vmaddr + fields.vmsize
                    &&& in_file ==> offset + section.size <= image.len()
                    &&& in_file && section.size > 0 ==> fields.fileoff <= offset && offset + section.size
                        <= fields.fileoff + fields.filesize
                    &&& in_file && offset != 0 ==> 32 + bytes::le_u32(image, 20) <= offset
                    &&& section.is_reader_capability ==> {
                        &&& fields.is_text
                        &&& section.size == 48
                        &&& section.kind == 0
                        &&& section.relocation_count == 0
                        &&& section.reserved1 == 0
                        &&& section.reserved2 == 0
                        &&& section.reserved3 == 0
                    }
                }
            &&& forall|k: int, l: int|
                0 <= k < l < commands.len() ==> {
                    let earlier = #[trigger] commands[k];
                    let later = #[trigger] commands[l];
                    let kind = bytes::le_u32(earlier, 0);
                    let later_kind = bytes::le_u32(later, 0);
                    let fields = segment::segment_fields(earlier);
                    let later_fields = segment::segment_fields(later);
                    &&& !((kind == 0x32 || kind == 0x24) && (later_kind == 0x32 || later_kind == 0x24))
                    &&& !(kind == 0x8000_0028 && later_kind == 0x8000_0028)
                    &&& !(kind == 0x1d && later_kind == 0x1d)
                    &&& !(kind == 0xe && later_kind == 0xe)
                    &&& kind == 0x19 && later_kind == 0x19 ==> {
                        &&& !(fields.is_text && later_fields.is_text)
                        &&& !(fields.is_linkedit && later_fields.is_linkedit)
                        &&& fields.filesize > 0 && later_fields.filesize > 0 ==> {
                            ||| fields.fileoff + fields.filesize <= later_fields.fileoff
                            ||| later_fields.fileoff + later_fields.filesize <= fields.fileoff
                        }
                        &&& fields.vmsize > 0 && later_fields.vmsize > 0 ==> {
                            ||| fields.vmaddr + fields.vmsize <= later_fields.vmaddr
                            ||| later_fields.vmaddr + later_fields.vmsize <= fields.vmaddr
                        }
                    }
                }
            &&& forall|k: int, i: int, l: int, j: int|
                0 <= k < commands.len() && 0 <= l < commands.len() && bytes::le_u32(commands[k], 0)
                    == 0x19 && bytes::le_u32(commands[l], 0) == 0x19 && 0 <= i
                    < segment::segment_fields(commands[k]).section_count && 0 <= j
                    < segment::segment_fields(commands[l]).section_count && (
                #[trigger] segment::section_fields(commands[k], i)).is_reader_capability && (
                #[trigger] segment::section_fields(commands[l], j)).is_reader_capability ==> k == l && i
                    == j
            &&& exists|k: int|
                0 <= k < commands.len() && (bytes::le_u32(#[trigger] commands[k], 0) == 0x32
                    || bytes::le_u32(commands[k], 0) == 0x24)
            &&& exists|k: int| 0 <= k < commands.len() && bytes::le_u32(#[trigger] commands[k], 0) == 0xe
            &&& exists|k: int|
                0 <= k < commands.len() && bytes::le_u32(#[trigger] commands[k], 0) == 0x19
                    && segment::segment_fields(commands[k]).is_text
            &&& exists|k: int|
                0 <= k < commands.len() && bytes::le_u32(#[trigger] commands[k], 0) == 0x19
                    && segment::segment_fields(commands[k]).is_linkedit
            &&& exists|k: int, l: int, i: int|
                {
                    let entry = bytes::le_u64(commands[k], 8);
                    let section = #[trigger] segment::section_fields(commands[l], i);
                    let offset = object_file::section_file_offset(commands[l], i)->0;
                    &&& 0 <= k < commands.len()
                    &&& 0 <= l < commands.len()
                    &&& bytes::le_u32(#[trigger] commands[k], 0) == 0x8000_0028
                    &&& bytes::le_u32(commands[l], 0) == 0x19
                    &&& 0 <= i < segment::segment_fields(commands[l]).section_count
                    &&& segment::segment_fields(commands[l]).initprot & 4 == 4
                    &&& section.kind != 0x1 && section.kind != 0xc && section.kind != 0x12
                    &&& offset <= entry < offset + section.size
                }
            &&& forall|k: int, m: int, at: int|
                0 <= k < commands.len() && 0 <= m < commands.len() && bytes::le_u32(
                    #[trigger] commands[m],
                    0,
                ) == 0x19 && segment::segment_fields(commands[m]).is_linkedit ==> {
                    let linkedit = segment::segment_fields(commands[m]);
                    let kind = bytes::le_u32(commands[k], 0);
                    let offset = #[trigger] bytes::le_u32(commands[k], at);
                    let count = bytes::le_u32(commands[k], at + 4);
                    let size: int = if (kind == 0x22 || kind == 0x8000_0022) && (at == 8 || at == 16
                        || at == 24 || at == 32 || at == 40) {
                        1
                    } else if kind == 0x2 && at == 8 {
                        16
                    } else if kind == 0x2 && at == 16 {
                        1
                    } else if kind == 0xb && at == 32 {
                        8
                    } else if kind == 0xb && at == 40 {
                        56
                    } else if kind == 0xb && (at == 48 || at == 56) {
                        4
                    } else if kind == 0xb && (at == 64 || at == 72) {
                        12
                    } else if (kind == 0x1e || kind == 0x26 || kind == 0x29 || kind == 0x2b || kind
                        == 0x2e || kind == 0x8000_0033 || kind == 0x8000_0034 || kind == 0x36 || kind
                        == 0x37 || kind == 0x38 || kind == 0x3a) && at == 8 {
                        1
                    } else {
                        0
                    };
                    size > 0 && count > 0 ==> linkedit.fileoff <= offset && offset + size * count
                        <= linkedit.fileoff + linkedit.filesize
                }
            &&& forall|k: int, i: int, m: int|
                0 <= k < commands.len() && 0 <= m < commands.len() && bytes::le_u32(
                    #[trigger] commands[m],
                    0,
                ) == 0x19 && segment::segment_fields(commands[m]).is_linkedit && bytes::le_u32(
                    commands[k],
                    0,
                ) == 0x19 && 0 <= i < segment::segment_fields(commands[k]).section_count ==> {
                    let linkedit = segment::segment_fields(commands[m]);
                    let section = #[trigger] segment::section_fields(commands[k], i);
                    section.relocation_count > 0 ==> linkedit.fileoff <= section.relocations_offset
                        && section.relocations_offset + 12 * section.relocation_count
                        <= linkedit.fileoff + linkedit.filesize
                }
        },
{
    law_which_macho_headers_are_accepted(image);
    lemma_chain_in_prefix(image, starts, commands);
    lemma_layout(image, starts, commands);
    if layout::macho_layout(image) is Ok {
        lemma_spelled_commands(image, commands);
        lemma_spelled_sections(image, commands);
        lemma_spelled_pairs(image, commands);
        lemma_spelled_presence(image, commands);
        lemma_spelled_data(image, commands);
    } else if each_is_known(image, commands) && sections_lie_right(image, commands) && come_once(
        commands,
    ) && one_record(commands) && are_there(commands) && data_lies_right(commands) {
        lemma_all_accepted(image, commands);
        lemma_all_together(image, commands);
    }
}

/// What a whole scan of an accepted executable comes to.
proof fn lemma_layout_scan(
    image: Seq<u8>,
    found: MachOLayout,
    starts: Seq<int>,
    commands: Seq<Seq<u8>>,
) -> (scan: MachoScanView)
    requires
        image.len() <= usize::MAX,
        layout::macho_layout(image) == Ok::<MachOLayout, RuntimeDataError>(found),
        starts.len() == commands.len() + 1,
        commands.len() == bytes::le_u32(image, 16),
        starts[0] == 32,
        starts.last() == 32 + bytes::le_u32(image, 20),
        forall|k: int|
            0 <= k < commands.len() ==> {
                let raw = #[trigger] commands[k];
                &&& raw == image.subrange(starts[k], starts[k] + raw.len())
                &&& starts[k + 1] == starts[k] + raw.len()
                &&& starts[k] + raw.len() <= 32 + bytes::le_u32(image, 20)
                &&& 8 <= raw.len()
                &&& bytes::le_u32(raw, 4) == raw.len()
            },
    ensures
        sums_up(scan, starts, commands, commands.len() as int),
        sums_up_places(scan, commands, commands.len() as int),
        sums_up_data(scan, commands, commands.len() as int),
        all_fit(
            commands,
            commands.len() as int,
            image.len() as u64,
            (32 + bytes::le_u32(image, 20)) as u64,
        ),
        layout::scanned_layout(scan, layout::macho_header(image), image.len() as u64) == Ok::<
            MachOLayout,
            RuntimeDataError,
        >(found),
{
    law_which_macho_headers_are_accepted(image);
    lemma_chain_in_prefix(image, starts, commands);
    lemma_layout(image, starts, commands);
    layout::scan_commands(
        macho::initial_scan(),
        image.take(32 + bytes::le_u32(image, 20)),
        commands.len(),
        image.len() as u64,
    )->Ok_0
}

/// The layout of an accepted executable says what its header and its load commands say of the
/// CPU, of the `__LINKEDIT` segment, of the places of all segments and of the code signature.
pub proof fn law_macho_layout_says_what_the_commands_say(
    image: Seq<u8>,
    found: MachOLayout,
    starts: Seq<int>,
    commands: Seq<Seq<u8>>,
)
    requires
        image.len() <= usize::MAX,
        layout::macho_layout(image) == Ok::<MachOLayout, RuntimeDataError>(found),
        starts.len() == commands.len() + 1,
        commands.len() == bytes::le_u32(image, 16),
        starts[0] == 32,
        starts.last() == 32 + bytes::le_u32(image, 20),
        forall|k: int|
            0 <= k < commands.len() ==> {
                let raw = #[trigger] commands[k];
                &&& raw == image.subrange(starts[k], starts[k] + raw.len())
                &&& starts[k + 1] == starts[k] + raw.len()
                &&& starts[k] + raw.len() <= 32 + bytes::le_u32(image, 20)
                &&& 8 <= raw.len()
                &&& bytes::le_u32(raw, 4) == raw.len()
            },
    ensures
        found.cpu_type == bytes::le_u32(image, 4),
        found.cpu_subtype == bytes::le_u32(image, 8),
        found.command_count == bytes::le_u32(image, 16),
        found.commands_len == bytes::le_u32(image, 20),
        found.prefix_len == 32 + bytes::le_u32(image, 20),
        exists|k: int|
            {
                let raw = #[trigger] commands[k];
                let fields = segment::segment_fields(raw);
                &&& 0 <= k < commands.len()
                &&& bytes::le_u32(raw, 0) == 0x19
                &&& fields.is_linkedit
                &&& found.linkedit_command_offset == starts[k]
                &&& found.linkedit_vmaddr == fields.vmaddr
                &&& found.linkedit_fileoff == fields.fileoff
                &&& found.linkedit_filesize == fields.filesize
            },
        forall|k: int|
            0 <= k < commands.len() && bytes::le_u32(#[trigger] commands[k], 0) == 0x19 ==> {
                let fields = segment::segment_fields(commands[k]);
                fields.vmaddr <= found.max_segment_vmaddr && fields.fileoff
                    <= found.max_segment_fileoff
            },
        found.max_segment_vmaddr == 0 || exists|k: int|
            0 <= k < commands.len() && bytes::le_u32(#[trigger] commands[k], 0) == 0x19
                && segment::segment_fields(commands[k]).vmaddr == found.max_segment_vmaddr,
        found.max_segment_fileoff == 0 || exists|k: int|
            0 <= k < commands.len() && bytes::le_u32(#[trigger] commands[k], 0) == 0x19
                && segment::segment_fields(commands[k]).fileoff == found.max_segment_fileoff,
        match found.code_signature {
            Some((at, offset, size)) => exists|k: int|
                {
                    let raw = #[trigger] commands[k];
                    &&& 0 <= k < commands.len()
                    &&& bytes::le_u32(raw, 0) == 0x1d
                    &&& at == starts[k]
                    &&& offset == bytes::le_u32(raw, 8)
                    &&& size == bytes::le_u32(raw, 12)
                },
            None => forall|k: int|
                0 <= k < commands.len() ==> bytes::le_u32(#[trigger] commands[k], 0) != 0x1d,
        },
{
    law_which_macho_headers_are_accepted(image);
    let scan = lemma_layout_scan(image, found, starts, commands);
    let count = commands.len() as int;
    let linkedit = scan.linkedit->0;
    let m = choose|k: int|
        {
            let raw = #[trigger] commands[k];
            let fields = segment::segment_fields(raw);
            &&& 0 <= k < count
            &&& is_linkedit(raw)
            &&& linkedit.command_offset == starts[k]
            &&& linkedit.vmaddr == fields.vmaddr
            &&& linkedit.fileoff == fields.fileoff
            &&& linkedit.filesize == fields.filesize
        };
    assert(bytes::le_u32(commands[m], 0) == 0x19);
    if found.max_segment_vmaddr != 0 {
        let k = choose|k: int|
            0 <= k < count && is_segment(#[trigger] commands[k]) && segment::segment_fields(
                commands[k],
            ).vmaddr == scan.max_segment_vmaddr;
        assert(bytes::le_u32(commands[k], 0) == 0x19);
    }
    if found.max_segment_fileoff != 0 {
        let k = choose|k: int|
            0 <= k < count && is_segment(#[trigger] commands[k]) && segment::segment_fields(
                commands[k],
            ).fileoff == scan.max_segment_fileoff;
        assert(bytes::le_u32(commands[k], 0) == 0x19);
    }
    if let Some((at, offset, size)) = found.code_signature {
        let k = choose|k: int|
            {
                let raw = #[trigger] commands[k];
                &&& 0 <= k < count
                &&& is_signature(raw)
                &&& at == starts[k]
                &&& offset == bytes::le_u32(raw, 8)
                &&& size == bytes::le_u32(raw, 12)
            };
        assert(bytes::le_u32(commands[k], 0) == 0x1d);
    } else {
        assert forall|k: int| 0 <= k < count implies bytes::le_u32(#[trigger] commands[k], 0)
            != 0x1d by {
            assert(!is_signature(commands[k]));
        }
    }
}

/// The layout of an accepted executable says where the first section with bytes in the file
/// starts, behind the very start of the file, and where the reader capability record lies.
pub proof fn law_macho_layout_says_what_the_sections_say(
    image: Seq<u8>,
    found: MachOLayout,
    starts: Seq<int>,
    commands: Seq<Seq<u8>>,
)
    requires
        image.len() <= usize::MAX,
        layout::macho_layout(image) == Ok::<MachOLayout, RuntimeDataError>(found),
        starts.len() == commands.len() + 1,
        commands.len() == bytes::le_u32(image, 16),
        starts[0] == 32,
        starts.last() == 32 + bytes::le_u32(image, 20),
        forall|k: int|
            0 <= k < commands.len() ==> {
                let raw = #[trigger] commands[k];
                &&& raw == image.subrange(starts[k], starts[k] + raw.len())
                &&& starts[k + 1] == starts[k] + raw.len()
                &&& starts[k] + raw.len() <= 32 + bytes::le_u32(image, 20)
                &&& 8 <= raw.len()
                &&& bytes::le_u32(raw, 4) == raw.len()
            },
    ensures
        match found.first_section_offset {
            Some(first) => {
                &&& first > 0
                &&& exists|k: int, i: int|
                    {
                        let section = #[trigger] segment::section_fields(commands[k], i);
                        &&& 0 <= k < commands.len()
                        &&& bytes::le_u32(commands[k], 0) == 0x19
                        &&& 0 <= i < segment::segment_fields(commands[k]).section_count
                        &&& section.kind != 0x1 && section.kind != 0xc && section.kind != 0x12
                        &&& object_file::section_file_offset(commands[k], i) == Some(first)
                    }
            },
            None => true,
        },
        forall|k: int, i: int|
            0 <= k < commands.len() && bytes::le_u32(commands[k], 0) == 0x19 && 0 <= i
                < segment::segment_fields(commands[k]).section_count ==> {
                let section = #[trigger] segment::section_fields(commands[k], i);
                let offset = object_file::section_file_offset(commands[k], i)->0;
                section.kind != 0x1 && section.kind != 0xc && section.kind != 0x12 && offset > 0
                    ==> found.first_section_offset is Some && found.first_section_offset->0
                    <= offset
            },
        match found.reader_capability {
            Some((offset, size)) => exists|k: int, i: int|
                {
                    let section = #[trigger] segment::section_fields(commands[k], i);
                    &&& 0 <= k < commands.len()
                    &&& bytes::le_u32(commands[k], 0) == 0x19
                    &&& 0 <= i < segment::segment_fields(commands[k]).section_count
                    &&& section.is_reader_capability
                    &&& object_file::section_file_offset(commands[k], i) == Some(offset)
                    &&& section.size == size
                },
            None => forall|k: int, i: int|
                0 <= k < commands.len() && bytes::le_u32(commands[k], 0) == 0x19 && 0 <= i
                    < segment::segment_fields(commands[k]).section_count
                    ==> !(#[trigger] segment::section_fields(commands[k], i)).is_reader_capability,
        },
{
    let scan = lemma_layout_scan(image, found, starts, commands);
    let count = commands.len() as int;
    let file_len = image.len() as u64;
    let command_end = (32 + bytes::le_u32(image, 20)) as u64;
    if let Some(first) = found.first_section_offset {
        let k = choose|k: int| 0 <= k < count && begins(#[trigger] commands[k], first);
        let i = choose|i: int|
            0 <= i < segment::segment_fields(commands[k]).section_count && #[trigger] starts_at(
                commands[k],
                i,
                first,
            );
        assert(starts_at(commands[k], i, first));
        assert(fits(commands[k], file_len, command_end));
        assert(section_fits(commands[k], i, file_len));
        let section = segment::section_fields(commands[k], i);
        assert(section.kind != 0x1);
    }
    assert forall|k: int, i: int|
        0 <= k < commands.len() && bytes::le_u32(commands[k], 0) == 0x19 && 0 <= i
            < segment::segment_fields(commands[k]).section_count implies {
        let section = #[trigger] segment::section_fields(commands[k], i);
        let offset = object_file::section_file_offset(commands[k], i)->0;
        section.kind != 0x1 && section.kind != 0xc && section.kind != 0x12 && offset > 0
            ==> found.first_section_offset is Some && found.first_section_offset->0 <= offset
    } by {
        let offset = object_file::section_file_offset(commands[k], i)->0;
        if in_file(commands[k], i) && offset > 0 {
            assert(starts_at(commands[k], i, offset));
            assert(begins(commands[k], offset));
        }
    }
    if let Some((offset, size)) = found.reader_capability {
        let k = choose|k: int| 0 <= k < count && records(#[trigger] commands[k], offset, size);
        let raw = commands[k];
        let i = choose|i: int|
            0 <= i < segment::segment_fields(raw).section_count && (
            #[trigger] segment::section_fields(raw, i)).is_reader_capability && offset == start_of(
                raw,
                i,
            ) && size == segment::section_fields(raw, i).size;
        assert(fits(commands[k], file_len, command_end));
        assert(section_fits(commands[k], i, file_len));
        assert(segment::section_fields(commands[k], i).is_reader_capability);
    } else {
        assert forall|k: int, i: int|
            0 <= k < commands.len() && bytes::le_u32(commands[k], 0) == 0x19 && 0 <= i
                < segment::segment_fields(commands[k]).section_count
                implies !(#[trigger] segment::section_fields(commands[k], i)).is_reader_capability by {
            assert(!declares(commands[k]));
        }
    }
}

/// Where the data ends that the fields of a load command name.
#[verifier::rlimit(40)]
proof fn lemma_named_ends(raw: Seq<u8>, bound: int)
    requires
        !is_segment(raw),
    ensures
        (forall|range: (u64, u64)| #[trigger] references(raw, range) ==> range.0 + range.1 <= bound)
            <==> {
            let kind = bytes::le_u32(raw, 0);
            &&& kind == 0x22 || kind == 0x8000_0022 ==> {
                &&& bytes::le_u32(raw, 12) > 0 ==> bytes::le_u32(raw, 8) + bytes::le_u32(raw, 12) <= bound
                &&& bytes::le_u32(raw, 20) > 0 ==> bytes::le_u32(raw, 16) + bytes::le_u32(raw, 20) <= bound
                &&& bytes::le_u32(raw, 28) > 0 ==> bytes::le_u32(raw, 24) + bytes::le_u32(raw, 28) <= bound
                &&& bytes::le_u32(raw, 36) > 0 ==> bytes::le_u32(raw, 32) + bytes::le_u32(raw, 36) <= bound
                &&& bytes::le_u32(raw, 44) > 0 ==> bytes::le_u32(raw, 40) + bytes::le_u32(raw, 44) <= bound
            }
            &&& kind == 0x2 ==> {
                &&& bytes::le_u32(raw, 12) > 0 ==> bytes::le_u32(raw, 8) + 16 * bytes::le_u32(raw, 12) <= bound
                &&& bytes::le_u32(raw, 20) > 0 ==> bytes::le_u32(raw, 16) + bytes::le_u32(raw, 20) <= bound
            }
            &&& kind == 0xb ==> {
                &&& bytes::le_u32(raw, 36) > 0 ==> bytes::le_u32(raw, 32) + 8 * bytes::le_u32(raw, 36) <= bound
                &&& bytes::le_u32(raw, 44) > 0 ==> bytes::le_u32(raw, 40) + 56 * bytes::le_u32(raw, 44) <= bound
                &&& bytes::le_u32(raw, 52) > 0 ==> bytes::le_u32(raw, 48) + 4 * bytes::le_u32(raw, 52) <= bound
                &&& bytes::le_u32(raw, 60) > 0 ==> bytes::le_u32(raw, 56) + 4 * bytes::le_u32(raw, 60) <= bound
                &&& bytes::le_u32(raw, 68) > 0 ==> bytes::le_u32(raw, 64) + 12 * bytes::le_u32(raw, 68) <= bound
                &&& bytes::le_u32(raw, 76) > 0 ==> bytes::le_u32(raw, 72) + 12 * bytes::le_u32(raw, 76) <= bound
            }
            &&& (kind == 0x1e || kind == 0x26 || kind == 0x29 || kind == 0x2b || kind == 0x2e
                || kind == 0x8000_0033 || kind == 0x8000_0034 || kind == 0x36 || kind == 0x37
                || kind == 0x38 || kind == 0x3a) ==> {
                &&& bytes::le_u32(raw, 12) > 0 ==> bytes::le_u32(raw, 8) + bytes::le_u32(raw, 12) <= bound
            }
        },
{
    let ends = forall|range: (u64, u64)| #[trigger] references(raw, range) ==> range.0 + range.1
        <= bound;
    if ends {
        lemma_range_of_field(raw, 8, 1);
        assert(references(raw, range_of_field(raw, 8, 1)) ==> range_of_field(raw, 8, 1).0
            + range_of_field(raw, 8, 1).1 <= bound);
        lemma_range_of_field(raw, 16, 1);
        assert(references(raw, range_of_field(raw, 16, 1)) ==> range_of_field(raw, 16, 1).0
            + range_of_field(raw, 16, 1).1 <= bound);
        lemma_range_of_field(raw, 24, 1);
        assert(references(raw, range_of_field(raw, 24, 1)) ==> range_of_field(raw, 24, 1).0
            + range_of_field(raw, 24, 1).1 <= bound);
        lemma_range_of_field(raw, 32, 1);
        assert(references(raw, range_of_field(raw, 32, 1)) ==> range_of_field(raw, 32, 1).0
            + range_of_field(raw, 32, 1).1 <= bound);
        lemma_range_of_field(raw, 40, 1);
        assert(references(raw, range_of_field(raw, 40, 1)) ==> range_of_field(raw, 40, 1).0
            + range_of_field(raw, 40, 1).1 <= bound);
        lemma_range_of_field(raw, 8, 16);
        assert(references(raw, range_of_field(raw, 8, 16)) ==> range_of_field(raw, 8, 16).0
            + range_of_field(raw, 8, 16).1 <= bound);
        lemma_range_of_field(raw, 32, 8);
        assert(references(raw, range_of_field(raw, 32, 8)) ==> range_of_field(raw, 32, 8).0
            + range_of_field(raw, 32, 8).1 <= bound);
        lemma_range_of_field(raw, 40, 56);
        assert(references(raw, range_of_field(raw, 40, 56)) ==> range_of_field(raw, 40, 56).0
            + range_of_field(raw, 40, 56).1 <= bound);
        lemma_range_of_field(raw, 48, 4);
        assert(references(raw, range_of_field(raw, 48, 4)) ==> range_of_field(raw, 48, 4).0
            + range_of_field(raw, 48, 4).1 <= bound);
        lemma_range_of_field(raw, 56, 4);
        assert(references(raw, range_of_field(raw, 56, 4)) ==> range_of_field(raw, 56, 4).0
            + range_of_field(raw, 56, 4).1 <= bound);
        lemma_range_of_field(raw, 64, 12);
        assert(references(raw, range_of_field(raw, 64, 12)) ==> range_of_field(raw, 64, 12).0
            + range_of_field(raw, 64, 12).1 <= bound);
        lemma_range_of_field(raw, 72, 12);
        assert(references(raw, range_of_field(raw, 72, 12)) ==> range_of_field(raw, 72, 12).0
            + range_of_field(raw, 72, 12).1 <= bound);
    }
}

/// The layout of an accepted executable says where its link-edit data ends, apart from the code
/// signature: at or before `bound` exactly where each piece of it does.
#[verifier::rlimit(40)]
pub proof fn law_macho_layout_says_where_the_data_ends(
    image: Seq<u8>,
    found: MachOLayout,
    starts: Seq<int>,
    commands: Seq<Seq<u8>>,
    bound: int,
)
    requires
        image.len() <= usize::MAX,
        layout::macho_layout(image) == Ok::<MachOLayout, RuntimeDataError>(found),
        starts.len() == commands.len() + 1,
        commands.len() == bytes::le_u32(image, 16),
        starts[0] == 32,
        starts.last() == 32 + bytes::le_u32(image, 20),
        forall|k: int|
            0 <= k < commands.len() ==> {
                let raw = #[trigger] commands[k];
                &&& raw == image.subrange(starts[k], starts[k] + raw.len())
                &&& starts[k + 1] == starts[k] + raw.len()
                &&& starts[k] + raw.len() <= 32 + bytes::le_u32(image, 20)
                &&& 8 <= raw.len()
                &&& bytes::le_u32(raw, 4) == raw.len()
            },
        0 <= bound,
    ensures
        found.max_non_signature_data_end <= bound <==> {
            &&& forall|k: int, i: int|
                0 <= k < commands.len() && bytes::le_u32(commands[k], 0) == 0x19 && 0 <= i
                    < segment::segment_fields(commands[k]).section_count ==> {
                    let section = #[trigger] segment::section_fields(commands[k], i);
                    section.relocation_count > 0 ==> section.relocations_offset + 12
                        * section.relocation_count <= bound
                }
            &&& forall|k: int|
                0 <= k < commands.len() ==> {
                    let raw = #[trigger] commands[k];
                    let kind = bytes::le_u32(raw, 0);
                    &&& kind == 0x22 || kind == 0x8000_0022 ==> {
                        &&& bytes::le_u32(raw, 12) > 0 ==> bytes::le_u32(raw, 8) + bytes::le_u32(raw, 12) <= bound
                        &&& bytes::le_u32(raw, 20) > 0 ==> bytes::le_u32(raw, 16) + bytes::le_u32(raw, 20) <= bound
                        &&& bytes::le_u32(raw, 28) > 0 ==> bytes::le_u32(raw, 24) + bytes::le_u32(raw, 28) <= bound
                        &&& bytes::le_u32(raw, 36) > 0 ==> bytes::le_u32(raw, 32) + bytes::le_u32(raw, 36) <= bound
                        &&& bytes::le_u32(raw, 44) > 0 ==> bytes::le_u32(raw, 40) + bytes::le_u32(raw, 44) <= bound
                    }
                    &&& kind == 0x2 ==> {
                        &&& bytes::le_u32(raw, 12) > 0 ==> bytes::le_u32(raw, 8) + 16 * bytes::le_u32(raw, 12) <= bound
                        &&& bytes::le_u32(raw, 20) > 0 ==> bytes::le_u32(raw, 16) + bytes::le_u32(raw, 20) <= bound
                    }
                    &&& kind == 0xb ==> {
                        &&& bytes::le_u32(raw, 36) > 0 ==> bytes::le_u32(raw, 32) + 8 * bytes::le_u32(raw, 36) <= bound
                        &&& bytes::le_u32(raw, 44) > 0 ==> bytes::le_u32(raw, 40) + 56 * bytes::le_u32(raw, 44) <= bound
                        &&& bytes::le_u32(raw, 52) > 0 ==> bytes::le_u32(raw, 48) + 4 * bytes::le_u32(raw, 52) <= bound
                        &&& bytes::le_u32(raw, 60) > 0 ==> bytes::le_u32(raw, 56) + 4 * bytes::le_u32(raw, 60) <= bound
                        &&& bytes::le_u32(raw, 68) > 0 ==> bytes::le_u32(raw, 64) + 12 * bytes::le_u32(raw, 68) <= bound
                        &&& bytes::le_u32(raw, 76) > 0 ==> bytes::le_u32(raw, 72) + 12 * bytes::le_u32(raw, 76) <= bound
                    }
                    &&& (kind == 0x1e || kind == 0x26 || kind == 0x29 || kind == 0x2b || kind == 0x2e
                        || kind == 0x8000_0033 || kind == 0x8000_0034 || kind == 0x36 || kind == 0x37
                        || kind == 0x38 || kind == 0x3a) ==> {
                        &&& bytes::le_u32(raw, 12) > 0 ==> bytes::le_u32(raw, 8) + bytes::le_u32(raw, 12) <= bound
                    }
                }
        },
{
    let scan = lemma_layout_scan(image, found, starts, commands);
    let count = commands.len() as int;
    lemma_link_edit(
        scan,
        starts,
        commands,
        image.len() as u64,
        (32 + bytes::le_u32(image, 20)) as u64,
    );
    assert(found.max_non_signature_data_end <= bound <==> (forall|k: int, range: (u64, u64)|
        0 <= k < count && #[trigger] references(commands[k], range) ==> range.0 + range.1
            <= bound));
    lemma_ends_spelled_out(commands, bound);
}

/// All link-edit data ends by `bound` exactly where each piece does.
#[verifier::rlimit(40)]
proof fn lemma_ends_spelled_out(commands: Seq<Seq<u8>>, bound: int)
    ensures
        (forall|k: int, range: (u64, u64)|
            0 <= k < commands.len() && #[trigger] references(commands[k], range) ==> range.0
                + range.1 <= bound) <==> {
            &&& forall|k: int, i: int|
                0 <= k < commands.len() && bytes::le_u32(commands[k], 0) == 0x19 && 0 <= i
                    < segment::segment_fields(commands[k]).section_count ==> {
                    let section = #[trigger] segment::section_fields(commands[k], i);
                    section.relocation_count > 0 ==> section.relocations_offset + 12
                        * section.relocation_count <= bound
                }
            &&& forall|k: int|
                0 <= k < commands.len() ==> {
                    let raw = #[trigger] commands[k];
                    let kind = bytes::le_u32(raw, 0);
                    &&& kind == 0x22 || kind == 0x8000_0022 ==> {
                        &&& bytes::le_u32(raw, 12) > 0 ==> bytes::le_u32(raw, 8) + bytes::le_u32(raw, 12) <= bound
                        &&& bytes::le_u32(raw, 20) > 0 ==> bytes::le_u32(raw, 16) + bytes::le_u32(raw, 20) <= bound
                        &&& bytes::le_u32(raw, 28) > 0 ==> bytes::le_u32(raw, 24) + bytes::le_u32(raw, 28) <= bound
                        &&& bytes::le_u32(raw, 36) > 0 ==> bytes::le_u32(raw, 32) + bytes::le_u32(raw, 36) <= bound
                        &&& bytes::le_u32(raw, 44) > 0 ==> bytes::le_u32(raw, 40) + bytes::le_u32(raw, 44) <= bound
                    }
                    &&& kind == 0x2 ==> {
                        &&& bytes::le_u32(raw, 12) > 0 ==> bytes::le_u32(raw, 8) + 16 * bytes::le_u32(raw, 12) <= bound
                        &&& bytes::le_u32(raw, 20) > 0 ==> bytes::le_u32(raw, 16) + bytes::le_u32(raw, 20) <= bound
                    }
                    &&& kind == 0xb ==> {
                        &&& bytes::le_u32(raw, 36) > 0 ==> bytes::le_u32(raw, 32) + 8 * bytes::le_u32(raw, 36) <= bound
                        &&& bytes::le_u32(raw, 44) > 0 ==> bytes::le_u32(raw, 40) + 56 * bytes::le_u32(raw, 44) <= bound
                        &&& bytes::le_u32(raw, 52) > 0 ==> bytes::le_u32(raw, 48) + 4 * bytes::le_u32(raw, 52) <= bound
                        &&& bytes::le_u32(raw, 60) > 0 ==> bytes::le_u32(raw, 56) + 4 * bytes::le_u32(raw, 60) <= bound
                        &&& bytes::le_u32(raw, 68) > 0 ==> bytes::le_u32(raw, 64) + 12 * bytes::le_u32(raw, 68) <= bound
                        &&& bytes::le_u32(raw, 76) > 0 ==> bytes::le_u32(raw, 72) + 12 * bytes::le_u32(raw, 76) <= bound
                    }
                    &&& (kind == 0x1e || kind == 0x26 || kind == 0x29 || kind == 0x2b || kind == 0x2e
                        || kind == 0x8000_0033 || kind == 0x8000_0034 || kind == 0x36 || kind == 0x37
                        || kind == 0x38 || kind == 0x3a) ==> {
                        &&& bytes::le_u32(raw, 12) > 0 ==> bytes::le_u32(raw, 8) + bytes::le_u32(raw, 12) <= bound
                    }
                }
        },
{
    let count = commands.len() as int;
    let ends = forall|k: int, range: (u64, u64)|
        0 <= k < count && #[trigger] references(commands[k], range) ==> range.0 + range.1 <= bound;
    if ends {
        assert forall|k: int, i: int|
            0 <= k < commands.len() && bytes::le_u32(commands[k], 0) == 0x19 && 0 <= i
                < segment::segment_fields(commands[k]).section_count implies {
            let section = #[trigger] segment::section_fields(commands[k], i);
            section.relocation_count > 0 ==> section.relocations_offset + 12
                * section.relocation_count <= bound
        } by {
            let section = segment::section_fields(commands[k], i);
            let range = (
                section.relocations_offset as u64,
                (12 * section.relocation_count) as u64,
            );
            if section.relocation_count > 0 {
                assert(relocates(commands[k], i, range));
                assert(references(commands[k], range));
            }
        }
        assert forall|k: int| 0 <= k < commands.len() implies {
            let raw = #[trigger] commands[k];
            let kind = bytes::le_u32(raw, 0);
            &&& kind == 0x22 || kind == 0x8000_0022 ==> {
                &&& bytes::le_u32(raw, 12) > 0 ==> bytes::le_u32(raw, 8) + bytes::le_u32(raw, 12) <= bound
                &&& bytes::le_u32(raw, 20) > 0 ==> bytes::le_u32(raw, 16) + bytes::le_u32(raw, 20) <= bound
                &&& bytes::le_u32(raw, 28) > 0 ==> bytes::le_u32(raw, 24) + bytes::le_u32(raw, 28) <= bound
                &&& bytes::le_u32(raw, 36) > 0 ==> bytes::le_u32(raw, 32) + bytes::le_u32(raw, 36) <= bound
                &&& bytes::le_u32(raw, 44) > 0 ==> bytes::le_u32(raw, 40) + bytes::le_u32(raw, 44) <= bound
            }
            &&& kind == 0x2 ==> {
                &&& bytes::le_u32(raw, 12) > 0 ==> bytes::le_u32(raw, 8) + 16 * bytes::le_u32(raw, 12) <= bound
                &&& bytes::le_u32(raw, 20) > 0 ==> bytes::le_u32(raw, 16) + bytes::le_u32(raw, 20) <= bound
            }
            &&& kind == 0xb ==> {
                &&& bytes::le_u32(raw, 36) > 0 ==> bytes::le_u32(raw, 32) + 8 * bytes::le_u32(raw, 36) <= bound
                &&& bytes::le_u32(raw, 44) > 0 ==> bytes::le_u32(raw, 40) + 56 * bytes::le_u32(raw, 44) <= bound
                &&& bytes::le_u32(raw, 52) > 0 ==> bytes::le_u32(raw, 48) + 4 * bytes::le_u32(raw, 52) <= bound
                &&& bytes::le_u32(raw, 60) > 0 ==> bytes::le_u32(raw, 56) + 4 * bytes::le_u32(raw, 60) <= bound
                &&& bytes::le_u32(raw, 68) > 0 ==> bytes::le_u32(raw, 64) + 12 * bytes::le_u32(raw, 68) <= bound
                &&& bytes::le_u32(raw, 76) > 0 ==> bytes::le_u32(raw, 72) + 12 * bytes::le_u32(raw, 76) <= bound
            }
            &&& (kind == 0x1e || kind == 0x26 || kind == 0x29 || kind == 0x2b || kind == 0x2e
                || kind == 0x8000_0033 || kind == 0x8000_0034 || kind == 0x36 || kind == 0x37
                || kind == 0x38 || kind == 0x3a) ==> {
                &&& bytes::le_u32(raw, 12) > 0 ==> bytes::le_u32(raw, 8) + bytes::le_u32(raw, 12) <= bound
            }
        } by {
            if !is_segment(commands[k]) {
                lemma_named_ends(commands[k], bound);
                assert(forall|range: (u64, u64)| #[trigger]
                    references(commands[k], range) ==> range.0 + range.1 <= bound);
            }
        }
    } else {
        let (k, range) = choose|k: int, range: (u64, u64)|
            0 <= k < count && #[trigger] references(commands[k], range) && range.0 + range.1
                > bound;
        let raw = commands[k];
        if is_segment(raw) {
            let i = choose|i: int|
                0 <= i < segment::segment_fields(raw).section_count && #[trigger] relocates(
                    raw,
                    i,
                    range,
                );
            assert(relocates(commands[k], i, range));
            assert(segment::section_fields(commands[k], i).relocation_count > 0);
        } else {
            lemma_named_ends(raw, bound);
            assert(references(raw, range));
        }
    }
}

} // verus!
