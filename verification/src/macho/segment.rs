//! Segment commands and their sections.

use vstd::prelude::*;
use vstd::slice::slice_subrange;

use crate::bytes;
use crate::bytes::{holds_at, read_u32, read_u64, same_bytes};
use crate::capability::READER_CAPABILITY_RECORD_LEN;
use crate::error::{invalid_data, RuntimeDataError};
use crate::macho;
use crate::macho::{
    add_macho_byte_range, add_macho_counted_range, LinkeditSegment, MachoScan, MachoScanView,
    S_GB_ZEROFILL, S_REGULAR, S_THREAD_LOCAL_ZEROFILL, S_ZEROFILL, VM_PROT_EXECUTE, VM_PROT_READ,
    VM_PROT_WRITE,
};
use crate::object_file;
use crate::object_file::{macho_section_offsets, SECTION_LEN, SEGMENT_COMMAND_LEN};

verus! {

/// The bytes that a relocation entry is counted with.
pub const RELOCATION_INFO_LEN: usize = 12;

/// The fields of a segment command.
#[derive(Clone, Copy, Debug)]
pub struct SegmentFields {
    pub is_linkedit: bool,
    pub is_text: bool,
    pub vmaddr: u64,
    pub vmsize: u64,
    pub fileoff: u64,
    pub filesize: u64,
    pub maxprot: u32,
    pub initprot: u32,
    pub section_count: u32,
}

/// `__LINKEDIT` and the zero byte that ends it.
pub open spec fn linkedit_name() -> Seq<u8> {
    seq![0x5f, 0x5f, 0x4c, 0x49, 0x4e, 0x4b, 0x45, 0x44, 0x49, 0x54, 0]
}

/// `__TEXT` and the zero byte that ends it.
pub open spec fn text_name() -> Seq<u8> {
    seq![0x5f, 0x5f, 0x54, 0x45, 0x58, 0x54, 0]
}

/// `__cship_reader`, filled up to the sixteen bytes of a section name.
pub open spec fn reader_capability_section_name() -> Seq<u8> {
    seq![
        0x5f, 0x5f, 0x63, 0x73, 0x68, 0x69, 0x70, 0x5f, 0x72, 0x65, 0x61, 0x64, 0x65, 0x72, 0, 0,
    ]
}

/// The fields of the segment command `raw`.
pub open spec fn segment_fields(raw: Seq<u8>) -> SegmentFields {
    SegmentFields {
        is_linkedit: raw.subrange(8, 19) == linkedit_name(),
        is_text: raw.subrange(8, 15) == text_name(),
        vmaddr: bytes::le_u64(raw, 24),
        vmsize: bytes::le_u64(raw, 32),
        fileoff: bytes::le_u64(raw, 40),
        filesize: bytes::le_u64(raw, 48),
        maxprot: bytes::le_u32(raw, 56),
        initprot: bytes::le_u32(raw, 60),
        section_count: object_file::segment_section_count(raw),
    }
}

/// Why a segment is refused before its sections are read.
pub open spec fn segment_error(
    scan: MachoScanView,
    segment: SegmentFields,
    file_len: u64,
    command_end: u64,
) -> Option<RuntimeDataError> {
    let segment_end = segment.fileoff + segment.filesize;
    if segment.vmaddr + segment.vmsize > u64::MAX {
        Some(invalid_data("Mach-O segment virtual range overflow"))
    } else if segment.maxprot & segment.initprot != segment.initprot {
        Some(invalid_data("Mach-O segment initial protections exceed maximum protections"))
    } else if (segment.initprot | segment.maxprot) & (VM_PROT_WRITE | VM_PROT_EXECUTE) == (
    VM_PROT_WRITE | VM_PROT_EXECUTE) {
        Some(invalid_data("Mach-O segment permits writable executable memory"))
    } else if segment.filesize > segment.vmsize {
        Some(invalid_data("Mach-O segment file size exceeds its virtual size"))
    } else if segment_end > u64::MAX {
        Some(invalid_data("Mach-O segment file range overflow"))
    } else if segment_end > file_len {
        Some(invalid_data("Mach-O segment extends past end of file"))
    } else if segment.is_text && scan.text_segment_count == u8::MAX {
        Some(invalid_data("Mach-O __TEXT segment count overflow"))
    } else if segment.is_text && (segment.fileoff != 0 || segment.initprot & (VM_PROT_READ
        | VM_PROT_EXECUTE) != (VM_PROT_READ | VM_PROT_EXECUTE) || segment.initprot & VM_PROT_WRITE
        == VM_PROT_WRITE || segment_end < command_end) {
        Some(invalid_data("Mach-O __TEXT segment has an invalid executable mapping"))
    } else if segment.is_linkedit && (segment.initprot != VM_PROT_READ || segment.maxprot
        != VM_PROT_READ || segment.section_count != 0) {
        Some(invalid_data("Mach-O __LINKEDIT segment must be read-only and section-free"))
    } else {
        None
    }
}

/// The scan with the ranges of a segment.
pub open spec fn with_segment_ranges(scan: MachoScanView, segment: SegmentFields) -> MachoScanView {
    MachoScanView {
        virtual_ranges: if segment.vmsize != 0 {
            scan.virtual_ranges.push(
                (segment.vmaddr, (segment.vmaddr + segment.vmsize) as u64),
            )
        } else {
            scan.virtual_ranges
        },
        segment_ranges: if segment.filesize != 0 {
            scan.segment_ranges.push(
                (segment.fileoff, (segment.fileoff + segment.filesize) as u64),
            )
        } else {
            scan.segment_ranges
        },
        text_segment_count: if segment.is_text {
            (scan.text_segment_count + 1) as u8
        } else {
            scan.text_segment_count
        },
        ..scan
    }
}

/// The fields of a section.
#[derive(Clone, Copy, Debug)]
pub struct SectionFields {
    /// Whether the section names the segment that it is listed in.
    pub is_in_segment: bool,
    pub is_reader_capability: bool,
    pub address: u64,
    pub size: u64,
    pub relocations_offset: u32,
    pub relocation_count: u32,
    pub kind: u32,
    pub reserved1: u32,
    pub reserved2: u32,
    pub reserved3: u32,
}

/// Where section `index` of a segment command starts.
pub open spec fn section_start(index: int) -> int {
    SEGMENT_COMMAND_LEN + index * SECTION_LEN
}

/// The fields of section `index` of the segment command `raw`.
pub open spec fn section_fields(raw: Seq<u8>, index: int) -> SectionFields {
    let at = section_start(index);
    SectionFields {
        is_in_segment: raw.subrange(at + 16, at + 32) == raw.subrange(8, 24),
        is_reader_capability: raw.subrange(at, at + 16) == reader_capability_section_name(),
        address: bytes::le_u64(raw, at + 32),
        size: bytes::le_u64(raw, at + 40),
        relocations_offset: bytes::le_u32(raw, at + 56),
        relocation_count: bytes::le_u32(raw, at + 60),
        kind: bytes::le_u32(raw, at + 64) & 0xff,
        reserved1: bytes::le_u32(raw, at + 68),
        reserved2: bytes::le_u32(raw, at + 72),
        reserved3: bytes::le_u32(raw, at + 76),
    }
}

/// Whether a section of this kind has bytes in the file.
pub open spec fn has_file_data(kind: u32) -> bool {
    kind != S_ZEROFILL && kind != S_GB_ZEROFILL && kind != S_THREAD_LOCAL_ZEROFILL
}

/// Why a section at `offset` in the file is refused.
pub open spec fn section_error(
    scan: MachoScanView,
    segment: SegmentFields,
    section: SectionFields,
    offset: u64,
    file_len: u64,
) -> Option<RuntimeDataError> {
    let section_end = offset + section.size;
    if !section.is_in_segment {
        Some(invalid_data("Mach-O section segment name does not match its segment"))
    } else if section.address + section.size > u64::MAX {
        Some(invalid_data("Mach-O section virtual range overflow"))
    } else if section.size != 0 && (section.address < segment.vmaddr || section.address
        + section.size > segment.vmaddr + segment.vmsize) {
        Some(invalid_data("Mach-O section extends outside its virtual segment"))
    } else if has_file_data(section.kind) && section_end > u64::MAX {
        Some(invalid_data("Mach-O section file range overflow"))
    } else if has_file_data(section.kind) && (section_end > file_len || (section.size != 0 && (
    offset < segment.fileoff || section_end > segment.fileoff + segment.filesize))) {
        Some(invalid_data("Mach-O section extends outside its file segment"))
    } else if section.is_reader_capability && scan.reader_capability is Some {
        Some(invalid_data("Mach-O binary has multiple reader capability sections"))
    } else if section.is_reader_capability && (!segment.is_text || section.size
        != READER_CAPABILITY_RECORD_LEN || section.kind != S_REGULAR || section.relocation_count
        != 0 || section.reserved1 != 0 || section.reserved2 != 0 || section.reserved3 != 0) {
        Some(invalid_data("Mach-O reader capability section has an invalid layout"))
    } else {
        None
    }
}

/// The scan with a section at `offset` in the file.
pub open spec fn with_section(
    scan: MachoScanView,
    segment: SegmentFields,
    section: SectionFields,
    offset: u64,
) -> MachoScanView {
    let in_file = has_file_data(section.kind);
    MachoScanView {
        first_section_offset: if in_file && offset != 0 {
            match scan.first_section_offset {
                Some(first) if first <= offset => Some(first),
                _ => Some(offset),
            }
        } else {
            scan.first_section_offset
        },
        executable_section_ranges: if in_file && segment.initprot & VM_PROT_EXECUTE
            == VM_PROT_EXECUTE {
            scan.executable_section_ranges.push((offset, (offset + section.size) as u64))
        } else {
            scan.executable_section_ranges
        },
        referenced_ranges: scan.referenced_ranges + (if in_file && segment.is_linkedit {
            macho::byte_range(offset, section.size)
        } else {
            Seq::empty()
        }) + macho::counted_range(
            section.relocations_offset,
            section.relocation_count,
            RELOCATION_INFO_LEN as int,
        ),
        reader_capability: if section.is_reader_capability {
            Some((offset, section.size))
        } else {
            scan.reader_capability
        },
        ..scan
    }
}

/// The scan after section `index` of the segment command `raw`.
pub open spec fn scan_section(
    scan: MachoScanView,
    raw: Seq<u8>,
    index: int,
    file_len: u64,
) -> Result<MachoScanView, RuntimeDataError> {
    let segment = segment_fields(raw);
    let section = section_fields(raw, index);
    match object_file::section_file_offset(raw, index) {
        None => Err(invalid_data("Unsupported Mach-O large section offsets")),
        Some(offset) => match section_error(scan, segment, section, offset, file_len) {
            Some(error) => Err(error),
            None => Ok(with_section(scan, segment, section, offset)),
        },
    }
}

/// The scan after the sections of the segment command `raw` from `index` on.
pub open spec fn scan_sections(
    scan: MachoScanView,
    raw: Seq<u8>,
    index: int,
    file_len: u64,
) -> Result<MachoScanView, RuntimeDataError>
    decreases object_file::segment_section_count(raw) - index,
{
    if index >= object_file::segment_section_count(raw) {
        Ok(scan)
    } else {
        match scan_section(scan, raw, index, file_len) {
            Err(error) => Err(error),
            Ok(next) => scan_sections(next, raw, index + 1, file_len),
        }
    }
}

/// The scan with a segment whose sections have been read.
pub open spec fn with_segment(scan: MachoScanView, segment: SegmentFields) -> Result<
    MachoScanView,
    RuntimeDataError,
> {
    if segment.is_linkedit && scan.linkedit is Some {
        Err(invalid_data("Mach-O binary has multiple __LINKEDIT segments"))
    } else {
        Ok(
            MachoScanView {
                max_segment_vmaddr: if scan.max_segment_vmaddr >= segment.vmaddr {
                    scan.max_segment_vmaddr
                } else {
                    segment.vmaddr
                },
                max_segment_fileoff: if scan.max_segment_fileoff >= segment.fileoff {
                    scan.max_segment_fileoff
                } else {
                    segment.fileoff
                },
                linkedit: if segment.is_linkedit {
                    Some(
                        LinkeditSegment {
                            command_offset: scan.command_offset,
                            vmaddr: segment.vmaddr,
                            fileoff: segment.fileoff,
                            filesize: segment.filesize,
                        },
                    )
                } else {
                    scan.linkedit
                },
                ..scan
            },
        )
    }
}

/// The scan after the segment command `raw`.
pub open spec fn scan_segment(
    scan: MachoScanView,
    raw: Seq<u8>,
    file_len: u64,
    command_end: u64,
) -> Result<MachoScanView, RuntimeDataError> {
    let segment = segment_fields(raw);
    if raw.len() < SEGMENT_COMMAND_LEN {
        Err(invalid_data("Invalid Mach-O command size"))
    } else if raw.len() != SEGMENT_COMMAND_LEN + segment.section_count * SECTION_LEN {
        Err(invalid_data("Mach-O load command has an invalid size"))
    } else {
        match segment_error(scan, segment, file_len, command_end) {
            Some(error) => Err(error),
            None => match scan_sections(
                with_segment_ranges(scan, segment),
                raw,
                0,
                file_len,
            ) {
                Err(error) => Err(error),
                Ok(next) => with_segment(next, segment),
            },
        }
    }
}

/// The fields of the segment command `raw`.
fn read_segment_fields(raw: &[u8]) -> (segment: SegmentFields)
    requires
        raw.len() >= SEGMENT_COMMAND_LEN,
    ensures
        segment == segment_fields(raw@),
{
    let linkedit: [u8; 11] = [
        0x5f, 0x5f, 0x4c, 0x49, 0x4e, 0x4b, 0x45, 0x44, 0x49, 0x54, 0,
    ];
    let text: [u8; 7] = [0x5f, 0x5f, 0x54, 0x45, 0x58, 0x54, 0];
    assert(linkedit@ =~= linkedit_name());
    assert(text@ =~= text_name());
    SegmentFields {
        is_linkedit: holds_at(raw, 8, &linkedit),
        is_text: holds_at(raw, 8, &text),
        vmaddr: read_u64(raw, 24),
        vmsize: read_u64(raw, 32),
        fileoff: read_u64(raw, 40),
        filesize: read_u64(raw, 48),
        maxprot: read_u32(raw, 56),
        initprot: read_u32(raw, 60),
        section_count: read_u32(raw, 64),
    }
}

/// The fields of section `index` of the segment command `raw`.
fn read_section_fields(raw: &[u8], index: usize) -> (section: SectionFields)
    requires
        section_start(index as int) + SECTION_LEN <= raw.len(),
    ensures
        section == section_fields(raw@, index as int),
{
    let name: [u8; 16] = [
        0x5f, 0x5f, 0x63, 0x73, 0x68, 0x69, 0x70, 0x5f, 0x72, 0x65, 0x61, 0x64, 0x65, 0x72, 0, 0,
    ];
    assert(name@ =~= reader_capability_section_name());
    let at: usize = SEGMENT_COMMAND_LEN + index * SECTION_LEN;
    SectionFields {
        is_in_segment: same_bytes(
            slice_subrange(raw, at + 16, at + 32),
            slice_subrange(raw, 8, 24),
        ),
        is_reader_capability: holds_at(raw, at, &name),
        address: read_u64(raw, at + 32),
        size: read_u64(raw, at + 40),
        relocations_offset: read_u32(raw, at + 56),
        relocation_count: read_u32(raw, at + 60),
        kind: read_u32(raw, at + 64) & 0xff,
        reserved1: read_u32(raw, at + 68),
        reserved2: read_u32(raw, at + 72),
        reserved3: read_u32(raw, at + 76),
    }
}

/// Refuses a segment that a runtime cannot be stamped onto.
fn check_segment(
    scan: &MachoScan,
    segment: SegmentFields,
    file_len: u64,
    command_end: u64,
) -> (result: Result<(), RuntimeDataError>)
    ensures
        result == (match segment_error(scan@, segment, file_len, command_end) {
            Some(error) => Err(error),
            None => Ok(()),
        }),
{
    if segment.vmsize > u64::MAX - segment.vmaddr {
        return Err(invalid_data("Mach-O segment virtual range overflow"));
    }
    if segment.maxprot & segment.initprot != segment.initprot {
        return Err(
            invalid_data("Mach-O segment initial protections exceed maximum protections"),
        );
    }
    if (segment.initprot | segment.maxprot) & (VM_PROT_WRITE | VM_PROT_EXECUTE) == (VM_PROT_WRITE
        | VM_PROT_EXECUTE) {
        return Err(invalid_data("Mach-O segment permits writable executable memory"));
    }
    if segment.filesize > segment.vmsize {
        return Err(invalid_data("Mach-O segment file size exceeds its virtual size"));
    }
    if segment.filesize > u64::MAX - segment.fileoff {
        return Err(invalid_data("Mach-O segment file range overflow"));
    }
    let segment_end: u64 = segment.fileoff + segment.filesize;
    if segment_end > file_len {
        return Err(invalid_data("Mach-O segment extends past end of file"));
    }
    if segment.is_text {
        if scan.text_segment_count == u8::MAX {
            return Err(invalid_data("Mach-O __TEXT segment count overflow"));
        }
        if segment.fileoff != 0 || segment.initprot & (VM_PROT_READ | VM_PROT_EXECUTE) != (
        VM_PROT_READ | VM_PROT_EXECUTE) || segment.initprot & VM_PROT_WRITE == VM_PROT_WRITE
            || segment_end < command_end {
            return Err(invalid_data("Mach-O __TEXT segment has an invalid executable mapping"));
        }
    }
    if segment.is_linkedit && (segment.initprot != VM_PROT_READ || segment.maxprot != VM_PROT_READ
        || segment.section_count != 0) {
        return Err(invalid_data("Mach-O __LINKEDIT segment must be read-only and section-free"));
    }
    Ok(())
}

/// Refuses a section that does not lie in its segment, or that claims to hold a reader
/// capability record where it cannot.
fn check_section(
    scan: &MachoScan,
    segment: SegmentFields,
    section: SectionFields,
    offset: u64,
    file_len: u64,
) -> (result: Result<(), RuntimeDataError>)
    requires
        segment.vmaddr + segment.vmsize <= u64::MAX,
        segment.fileoff + segment.filesize <= u64::MAX,
    ensures
        result == (match section_error(scan@, segment, section, offset, file_len) {
            Some(error) => Err(error),
            None => Ok(()),
        }),
{
    if !section.is_in_segment {
        return Err(invalid_data("Mach-O section segment name does not match its segment"));
    }
    if section.size > u64::MAX - section.address {
        return Err(invalid_data("Mach-O section virtual range overflow"));
    }
    if section.size != 0 && (section.address < segment.vmaddr || section.address + section.size
        > segment.vmaddr + segment.vmsize) {
        return Err(invalid_data("Mach-O section extends outside its virtual segment"));
    }
    if section.kind != S_ZEROFILL && section.kind != S_GB_ZEROFILL && section.kind
        != S_THREAD_LOCAL_ZEROFILL {
        if section.size > u64::MAX - offset {
            return Err(invalid_data("Mach-O section file range overflow"));
        }
        let section_end: u64 = offset + section.size;
        if section_end > file_len || (section.size != 0 && (offset < segment.fileoff
            || section_end > segment.fileoff + segment.filesize)) {
            return Err(invalid_data("Mach-O section extends outside its file segment"));
        }
    }
    if section.is_reader_capability {
        if scan.reader_capability.is_some() {
            return Err(invalid_data("Mach-O binary has multiple reader capability sections"));
        }
        if !segment.is_text || section.size != READER_CAPABILITY_RECORD_LEN || section.kind
            != S_REGULAR || section.relocation_count != 0 || section.reserved1 != 0
            || section.reserved2 != 0 || section.reserved3 != 0 {
            return Err(invalid_data("Mach-O reader capability section has an invalid layout"));
        }
    }
    Ok(())
}

/// Notes a section at `offset` in the file.
fn add_section(scan: &mut MachoScan, segment: SegmentFields, section: SectionFields, offset: u64)
    requires
        has_file_data(section.kind) ==> offset + section.size <= u64::MAX,
    ensures
        final(scan)@ == with_section(old(scan)@, segment, section, offset),
{
    let ghost before = scan@;
    if section.kind != S_ZEROFILL && section.kind != S_GB_ZEROFILL && section.kind
        != S_THREAD_LOCAL_ZEROFILL {
        if offset != 0 {
            match scan.first_section_offset {
                Some(first) => {
                    if offset < first {
                        scan.first_section_offset = Some(offset);
                    }
                },
                None => {
                    scan.first_section_offset = Some(offset);
                },
            }
        }
        if segment.is_linkedit {
            add_macho_byte_range(&mut scan.referenced_ranges, offset, section.size);
        }
        if segment.initprot & VM_PROT_EXECUTE == VM_PROT_EXECUTE {
            scan.executable_section_ranges.push((offset, offset + section.size));
        }
    }
    proof {
        assert(section.relocation_count * RELOCATION_INFO_LEN <= u64::MAX);
    }
    let _ = add_macho_counted_range(
        &mut scan.referenced_ranges,
        section.relocations_offset,
        section.relocation_count,
        RELOCATION_INFO_LEN,
    );
    if section.is_reader_capability {
        scan.reader_capability = Some((offset, section.size));
    }
    assert(scan@ =~= with_section(before, segment, section, offset));
}

/// Notes the sections of the segment command `raw`.
fn add_sections(scan: &mut MachoScan, raw: &[u8], segment: SegmentFields, file_len: u64) -> (result:
    Result<(), RuntimeDataError>)
    requires
        raw.len() == SEGMENT_COMMAND_LEN + segment.section_count * SECTION_LEN,
        segment == segment_fields(raw@),
        segment.vmaddr + segment.vmsize <= u64::MAX,
        segment.fileoff + segment.filesize <= u64::MAX,
    ensures
        match scan_sections(old(scan)@, raw@, 0, file_len) {
            Ok(next) => result is Ok && final(scan)@ == next,
            Err(error) => result == Err::<(), RuntimeDataError>(error),
        },
{
    let ghost start = scan@;
    let offsets = macho_section_offsets(raw);
    let count: usize = segment.section_count as usize;
    let mut index: usize = 0;
    while index < count
        invariant
            index <= count,
            count == segment.section_count,
            start == old(scan)@,
            raw.len() == SEGMENT_COMMAND_LEN + segment.section_count * SECTION_LEN,
            segment == segment_fields(raw@),
            segment.vmaddr + segment.vmsize <= u64::MAX,
            segment.fileoff + segment.filesize <= u64::MAX,
            scan_sections(scan@, raw@, index as int, file_len) == scan_sections(
                start,
                raw@,
                0,
                file_len,
            ),
            offsets.len() <= count,
            index <= offsets.len(),
            forall|i: int|
                #![trigger offsets@[i]]
                0 <= i < offsets.len() ==> match object_file::section_file_offset(raw@, i) {
                    Some(offset) => offsets[i] == Ok::<u64, object::Error>(offset),
                    None => offsets[i] is Err,
                },
            offsets.len() < count ==> offsets.len() > 0 && offsets@.last() is Err,
            forall|i: int| 0 <= i < index ==> offsets@[i] is Ok,
        decreases count - index,
    {
        if index == offsets.len() {
            assert(offsets@.last() is Err);
            assert(offsets@[index - 1] is Ok);
            assert(false);
        }
        match &offsets[index] {
            Err(_) => {
                return Err(invalid_data("Unsupported Mach-O large section offsets"));
            },
            Ok(offset) => {
                assert(section_start(index as int) + SECTION_LEN <= raw.len()) by (nonlinear_arith)
                    requires
                        index < segment.section_count,
                        raw.len() == SEGMENT_COMMAND_LEN + segment.section_count * SECTION_LEN,
                ;
                let section: SectionFields = read_section_fields(raw, index);
                check_section(scan, segment, section, *offset, file_len)?;
                add_section(scan, segment, section, *offset);
                index = index + 1;
            },
        }
    }
    Ok(())
}

/// Notes the segment command `raw`.
pub(crate) fn add_segment(
    scan: &mut MachoScan,
    raw: &[u8],
    file_len: u64,
    command_end: u64,
) -> (result: Result<(), RuntimeDataError>)
    ensures
        match scan_segment(old(scan)@, raw@, file_len, command_end) {
            Ok(next) => result is Ok && final(scan)@ == next,
            Err(error) => result == Err::<(), RuntimeDataError>(error),
        },
{
    let ghost before = scan@;
    if raw.len() < SEGMENT_COMMAND_LEN {
        return Err(invalid_data("Invalid Mach-O command size"));
    }
    let segment: SegmentFields = read_segment_fields(raw);
    if raw.len() as u64 != SEGMENT_COMMAND_LEN as u64 + segment.section_count as u64
        * SECTION_LEN as u64 {
        return Err(invalid_data("Mach-O load command has an invalid size"));
    }
    check_segment(scan, segment, file_len, command_end)?;
    if segment.vmsize != 0 {
        scan.virtual_ranges.push((segment.vmaddr, segment.vmaddr + segment.vmsize));
    }
    if segment.filesize != 0 {
        scan.segment_ranges.push((segment.fileoff, segment.fileoff + segment.filesize));
    }
    if segment.is_text {
        scan.text_segment_count = scan.text_segment_count + 1;
    }
    assert(scan@ =~= with_segment_ranges(before, segment));
    add_sections(scan, raw, segment, file_len)?;
    if segment.vmaddr > scan.max_segment_vmaddr {
        scan.max_segment_vmaddr = segment.vmaddr;
    }
    if segment.fileoff > scan.max_segment_fileoff {
        scan.max_segment_fileoff = segment.fileoff;
    }
    if segment.is_linkedit {
        if scan.linkedit.is_some() {
            return Err(invalid_data("Mach-O binary has multiple __LINKEDIT segments"));
        }
        scan.linkedit = Some(
            LinkeditSegment {
                command_offset: scan.command_offset,
                vmaddr: segment.vmaddr,
                fileoff: segment.fileoff,
                filesize: segment.filesize,
            },
        );
    }
    Ok(())
}

} // verus!
