//! Stamping runtime data onto PE images.
//!
//! The footer goes into a section of its own, the anchor, which a signature covers. The header
//! and the bundle follow behind the sections, and end where a certificate table can start.

use vstd::prelude::*;
use vstd::slice::{slice_subrange, slice_to_vec};

use crate::align;
use crate::align::align_up;
use crate::bytes;
use crate::bytes::{
    append_bytes, encode_u16, encode_u32, is_all_zero, overwrite, resize,
};
use crate::error::{invalid_data, RuntimeDataError};
use crate::executable;
use crate::executable::validate_pe_platform;
use crate::footer;
use crate::footer::FOOTER_LEN;
use crate::object_file;
use crate::object_file::SECTION_HEADER_LEN;
use crate::payload;
use crate::payload::{write_runtime_content, PreparedRuntimeData};
use crate::pe;
use crate::pe::content;
use crate::pe::content::pe_runtime_content_layout;
use crate::pe::laws;
use crate::pe::preservation;
use crate::pe::reader::read_pe_layout;
use crate::pe::{
    PeImageLayout, PeKind, PE_ANCHOR_SECTION_CHARACTERISTICS, PE_MAX_IMAGE_SIZE, PE_MAX_SECTIONS,
    PE_PAGE_SIZE,
};

verus! {

/// Where the parts of a stamped image lie.
#[derive(Clone, Copy, Debug)]
pub struct PeStampPlan {
    /// Where the entry of the anchor section lies in the section table.
    pub section_header_offset: usize,
    pub security_directory_offset: usize,
    pub anchor_offset: u32,
    pub anchor_raw_size: u32,
    pub anchor_virtual_address: u32,
    pub size_of_image: u32,
    pub size_of_initialized_data: u32,
    pub section_count: u16,
    pub payload_start: u64,
    pub payload_end: u64,
}

/// Why an image with this layout is not stamped, before sizes are looked at.
pub open spec fn pe_template_error(layout: PeImageLayout, platform: Seq<char>, file_len: u64) -> Option<
    RuntimeDataError,
> {
    let section_header_end = layout.section_table_offset + (layout.section_count + 1)
        * SECTION_HEADER_LEN;
    if let Some(error) = executable::pe_platform_error(layout.machine, layout.kind, platform) {
        Some(error)
    } else if layout.anchor is Some {
        Some(
            invalid_data("PE runtime template already contains a conda-ship anchor section"),
        )
    } else if layout.certificate is Some {
        Some(invalid_data("signed PE templates must be unsigned before runtime stamping"))
    } else if file_len != layout.max_raw_end {
        Some(invalid_data("PE runtime template has data outside its declared sections"))
    } else if layout.security_directory_offset is None {
        Some(
            invalid_data("PE optional header has no Security Directory entry for signing"),
        )
    } else if layout.first_section_offset is None {
        Some(invalid_data("PE binary has no file-backed sections"))
    } else if section_header_end > layout.size_of_headers || section_header_end
        > layout.first_section_offset->0 {
        Some(invalid_data("PE headers have no room for a runtime anchor section"))
    } else {
        None
    }
}

/// The parts of the image once `content_len` bytes of header and bundle are stamped onto it.
pub open spec fn pe_stamp_plan(layout: PeImageLayout, content_len: u64) -> Result<
    PeStampPlan,
    RuntimeDataError,
> {
    let section_alignment = layout.section_alignment as int;
    let virtual_address = align::aligned(layout.max_virtual_end as int, section_alignment);
    let offset = if pe::is_low_alignment(layout.section_alignment) {
        virtual_address
    } else {
        layout.max_raw_end as int
    };
    let raw_size = align::aligned(FOOTER_LEN as int, layout.file_alignment as int);
    let required_image = align::aligned(virtual_address + raw_size, section_alignment);
    let size_of_image = if required_image >= layout.size_of_image {
        required_image
    } else {
        layout.size_of_image as int
    };
    match content::content_layout((offset + raw_size) as u64, content_len) {
        Err(error) => Err(error),
        Ok((payload_start, payload_end)) => if layout.kind == PeKind::Pe64 && size_of_image
            > PE_MAX_IMAGE_SIZE {
            Err(invalid_data("stamped PE32+ SizeOfImage exceeds the 2 GiB loader limit"))
        } else if size_of_image > u32::MAX {
            Err(invalid_data("PE image size does not fit in its optional header"))
        } else if layout.size_of_initialized_data + raw_size > u32::MAX {
            Err(invalid_data("PE initialized-data size overflow"))
        } else if layout.section_count + 1 > PE_MAX_SECTIONS {
            Err(invalid_data("PE image has no room for another section"))
        } else {
            Ok(
                PeStampPlan {
                    section_header_offset: (layout.section_table_offset + layout.section_count
                        * SECTION_HEADER_LEN) as usize,
                    security_directory_offset: layout.security_directory_offset->0,
                    anchor_offset: offset as u32,
                    anchor_raw_size: raw_size as u32,
                    anchor_virtual_address: virtual_address as u32,
                    size_of_image: size_of_image as u32,
                    size_of_initialized_data: (layout.size_of_initialized_data + raw_size) as u32,
                    section_count: (layout.section_count + 1) as u16,
                    payload_start,
                    payload_end,
                },
            )
        },
    }
}

/// The entry of the anchor section in the section table.
pub open spec fn anchor_section_header(plan: PeStampPlan) -> Seq<u8> {
    pe::anchor_section_name() + bytes::u32_bytes(FOOTER_LEN as u32) + bytes::u32_bytes(
        plan.anchor_virtual_address,
    ) + bytes::u32_bytes(plan.anchor_raw_size) + bytes::u32_bytes(plan.anchor_offset)
        + bytes::zeros(12) + bytes::u32_bytes(PE_ANCHOR_SECTION_CHARACTERISTICS)
}

/// The headers with the anchor section, without a checksum and without a certificate table.
pub open spec fn stamped_headers(headers: Seq<u8>, layout: PeImageLayout, plan: PeStampPlan) -> Seq<
    u8,
> {
    let optional = layout.optional_header_offset;
    let counted = bytes::overwritten(
        headers,
        layout.file_header_offset + 2,
        bytes::u16_bytes(plan.section_count),
    );
    let sized = bytes::overwritten(
        bytes::overwritten(
            counted,
            optional + 8,
            bytes::u32_bytes(plan.size_of_initialized_data),
        ),
        optional + 56,
        bytes::u32_bytes(plan.size_of_image),
    );
    let unsigned = bytes::overwritten(
        bytes::overwritten(sized, optional + 64, bytes::u32_bytes(0)),
        plan.security_directory_offset as int,
        bytes::zeros(8),
    );
    bytes::overwritten(unsigned, plan.section_header_offset as int, anchor_section_header(plan))
}

/// The PE image `image` with this layout once it is stamped.
pub open spec fn stamped_pe_layout(
    image: Seq<u8>,
    layout: PeImageLayout,
    header: Seq<u8>,
    bundle: Seq<u8>,
    bundle_len: u64,
    platform: Seq<char>,
) -> Result<Seq<u8>, RuntimeDataError> {
    let headers = image.take(layout.size_of_headers as int);
    match pe_template_error(layout, platform, image.len() as u64) {
        Some(error) => Err(error),
        None => match pe_stamp_plan(layout, (header.len() + bundle_len) as u64) {
            Err(error) => Err(error),
            Ok(plan) => if !bytes::all_zero(
                headers.subrange(
                    plan.section_header_offset as int,
                    plan.section_header_offset + SECTION_HEADER_LEN,
                ),
            ) {
                Err(invalid_data("PE runtime anchor section header space is not zero-filled"))
            } else if let Some(error) = payload::bundle_len_error(
                bundle.len() as int,
                bundle_len,
            ) {
                Err(error)
            } else {
                Ok(
                    bytes::overwritten(
                        bytes::overwritten(
                            bytes::resized(
                                bytes::resized(
                                    image,
                                    (plan.anchor_offset + plan.anchor_raw_size) as nat,
                                ),
                                plan.payload_start as nat,
                            ) + header + bundle,
                            plan.anchor_offset as int,
                            footer::footer_bytes(payload::footer_of(header, bundle)),
                        ),
                        0,
                        stamped_headers(headers, layout, plan),
                    ),
                )
            },
        },
    }
}

/// The PE image `image` once a header and a bundle are stamped onto it, of which `bundle_len`
/// bytes were expected.
pub open spec fn stamped_pe(
    image: Seq<u8>,
    header: Seq<u8>,
    bundle: Seq<u8>,
    bundle_len: u64,
    platform: Seq<char>,
) -> Result<Seq<u8>, RuntimeDataError> {
    match pe::pe_layout(image) {
        Err(error) => Err(error),
        Ok(layout) => stamped_pe_layout(image, layout, header, bundle, bundle_len, platform),
    }
}

/// Refuses an image that cannot take an anchor section.
fn check_pe_template(layout: &PeImageLayout, platform: &str, file_len: u64) -> (result: Result<
    (),
    RuntimeDataError,
>)
    requires
        layout.section_table_offset + layout.section_count * SECTION_HEADER_LEN
            <= layout.size_of_headers,
        layout.size_of_headers <= u32::MAX,
    ensures
        result == (match pe_template_error(*layout, platform@, file_len) {
            Some(error) => Err(error),
            None => Ok(()),
        }),
{
    validate_pe_platform(layout.machine, layout.kind, platform)?;
    if layout.anchor.is_some() {
        return Err(
            invalid_data("PE runtime template already contains a conda-ship anchor section"),
        );
    }
    if layout.certificate.is_some() {
        return Err(
            invalid_data("signed PE templates must be unsigned before runtime stamping"),
        );
    }
    if file_len != layout.max_raw_end {
        return Err(invalid_data("PE runtime template has data outside its declared sections"));
    }
    if layout.security_directory_offset.is_none() {
        return Err(
            invalid_data("PE optional header has no Security Directory entry for signing"),
        );
    }
    let first_section_offset: u64 = match layout.first_section_offset {
        Some(first) => first,
        None => {
            return Err(invalid_data("PE binary has no file-backed sections"));
        },
    };
    let section_header_end: u64 = layout.section_table_offset as u64 + (layout.section_count as u64
        + 1) * SECTION_HEADER_LEN as u64;
    if section_header_end > layout.size_of_headers || section_header_end > first_section_offset {
        return Err(invalid_data("PE headers have no room for a runtime anchor section"));
    }
    Ok(())
}

/// The parts of the image once `content_len` bytes of header and bundle are stamped onto it.
fn plan_pe_stamp(layout: &PeImageLayout, security_directory_offset: usize, content_len: u64) -> (result:
    Result<PeStampPlan, RuntimeDataError>)
    requires
        layout.security_directory_offset == Some(security_directory_offset),
        layout.section_table_offset + layout.section_count * SECTION_HEADER_LEN
            <= layout.size_of_headers,
        layout.size_of_headers <= u32::MAX,
        layout.section_count <= PE_MAX_SECTIONS,
        0 < layout.file_alignment <= 64 * 1024,
        0 < layout.section_alignment <= u32::MAX,
        align::aligned(layout.max_virtual_end as int, layout.section_alignment as int)
            <= layout.size_of_image,
        layout.max_raw_end <= u64::MAX - 128 * 1024,
    ensures
        result == pe_stamp_plan(*layout, content_len),
        result matches Ok(plan) ==> plan.anchor_offset + plan.anchor_raw_size <= plan.payload_start
            <= u32::MAX,
        result matches Ok(plan) ==> plan.anchor_offset == (if pe::is_low_alignment(
            layout.section_alignment,
        ) {
            align::aligned(layout.max_virtual_end as int, layout.section_alignment as int)
        } else {
            layout.max_raw_end as int
        }),
{
    proof {
        align::lemma_aligned(layout.max_virtual_end as int, layout.section_alignment as int);
        align::lemma_aligned(FOOTER_LEN as int, layout.file_alignment as int);
    }
    let virtual_address: u64 = align_up(layout.max_virtual_end, layout.section_alignment)?;
    let offset: u64 = if layout.section_alignment < PE_PAGE_SIZE {
        virtual_address
    } else {
        layout.max_raw_end
    };
    let raw_size: u64 = align_up(FOOTER_LEN, layout.file_alignment)?;
    let (payload_start, payload_end): (u64, u64) = pe_runtime_content_layout(
        offset + raw_size,
        content_len,
    )?;
    proof {
        content::law_content_layout(
            (offset + raw_size) as u64,
            content_len,
            payload_start,
            payload_end,
        );
        align::lemma_aligned(
            virtual_address + raw_size,
            layout.section_alignment as int,
        );
    }
    let required_image: u64 = align_up(virtual_address + raw_size, layout.section_alignment)?;
    let size_of_image: u64 = if required_image >= layout.size_of_image as u64 {
        required_image
    } else {
        layout.size_of_image as u64
    };
    if layout.kind == PeKind::Pe64 && size_of_image > PE_MAX_IMAGE_SIZE {
        return Err(invalid_data("stamped PE32+ SizeOfImage exceeds the 2 GiB loader limit"));
    }
    if size_of_image > u32::MAX as u64 {
        return Err(invalid_data("PE image size does not fit in its optional header"));
    }
    if layout.size_of_initialized_data as u64 + raw_size > u32::MAX as u64 {
        return Err(invalid_data("PE initialized-data size overflow"));
    }
    if layout.section_count + 1 > PE_MAX_SECTIONS {
        return Err(invalid_data("PE image has no room for another section"));
    }
    Ok(
        PeStampPlan {
            section_header_offset: layout.section_table_offset + layout.section_count as usize
                * SECTION_HEADER_LEN,
            security_directory_offset,
            anchor_offset: offset as u32,
            anchor_raw_size: raw_size as u32,
            anchor_virtual_address: virtual_address as u32,
            size_of_image: size_of_image as u32,
            size_of_initialized_data: layout.size_of_initialized_data + raw_size as u32,
            section_count: layout.section_count + 1,
            payload_start,
            payload_end,
        },
    )
}

/// The entry of the anchor section in the section table.
fn encode_anchor_section(plan: &PeStampPlan) -> (entry: Vec<u8>)
    ensures
        entry@ == anchor_section_header(*plan),
{
    let name: [u8; 8] = [0x2e, 0x63, 0x73, 0x68, 0x69, 0x70, 0, 0];
    let relocations: [u8; 12] = [0; 12];
    let mut entry: Vec<u8> = Vec::new();
    append_bytes(&mut entry, &name);
    append_bytes(&mut entry, &encode_u32(FOOTER_LEN as u32));
    append_bytes(&mut entry, &encode_u32(plan.anchor_virtual_address));
    append_bytes(&mut entry, &encode_u32(plan.anchor_raw_size));
    append_bytes(&mut entry, &encode_u32(plan.anchor_offset));
    append_bytes(&mut entry, &relocations);
    append_bytes(&mut entry, &encode_u32(PE_ANCHOR_SECTION_CHARACTERISTICS));
    assert(name@ =~= pe::anchor_section_name());
    assert(relocations@ =~= bytes::zeros(12));
    assert(entry@ =~= anchor_section_header(*plan));
    entry
}

/// The headers with the anchor section, without a checksum and without a certificate table.
fn rewrite_headers(headers: &[u8], layout: &PeImageLayout, plan: &PeStampPlan) -> (rewritten: Vec<
    u8,
>)
    requires
        layout.file_header_offset + 4 <= headers.len(),
        layout.optional_header_offset + 68 <= headers.len(),
        plan.security_directory_offset + 8 <= headers.len(),
        plan.section_header_offset + SECTION_HEADER_LEN <= headers.len(),
    ensures
        rewritten@ == stamped_headers(headers@, *layout, *plan),
{
    let mut rewritten: Vec<u8> = slice_to_vec(headers);
    let directory: [u8; 8] = [0; 8];
    assert(directory@ =~= bytes::zeros(8));
    overwrite(&mut rewritten, layout.file_header_offset + 2, &encode_u16(plan.section_count));
    overwrite(
        &mut rewritten,
        layout.optional_header_offset + 8,
        &encode_u32(plan.size_of_initialized_data),
    );
    overwrite(&mut rewritten, layout.optional_header_offset + 56, &encode_u32(plan.size_of_image));
    overwrite(&mut rewritten, layout.optional_header_offset + 64, &encode_u32(0));
    overwrite(&mut rewritten, plan.security_directory_offset, &directory);
    overwrite(&mut rewritten, plan.section_header_offset, &encode_anchor_section(plan));
    rewritten
}

/// The PE image `image` with the prepared header and the bundle stamped onto it.
pub fn write_pe_runtime_data(
    image: &[u8],
    bundle: &[u8],
    prepared: &PreparedRuntimeData,
    platform: &str,
) -> (result: Result<Vec<u8>, RuntimeDataError>)
    requires
        object_file::has_dos_magic(image@),
        prepared.well_formed(),
    ensures
        match stamped_pe(
            image@,
            prepared.header_bytes@,
            bundle@,
            prepared.bundle_len,
            platform@,
        ) {
            Ok(stamped) => result is Ok && result->Ok_0@ == stamped,
            Err(error) => result is Err && result->Err_0 == error,
        },
        result matches Ok(stamped) ==> (pe::pe_layout(image@) matches Ok(layout) && {
            let start = stamped@.len() - (prepared.header_bytes@.len() + bundle@.len());
            &&& image@.len() <= start
            &&& forall|i: int|
                layout.size_of_headers <= i < image@.len() ==> #[trigger] stamped@[i] == image@[i]
            &&& stamped@.subrange(start, start + prepared.header_bytes@.len())
                == prepared.header_bytes@
            &&& stamped@.subrange(start + prepared.header_bytes@.len(), stamped@.len() as int)
                == bundle@
        }),
{
    let file_len: u64 = image.len() as u64;
    let layout: PeImageLayout = read_pe_layout(image)?;
    proof {
        laws::law_accepted_pe_layout(image@, layout);
        laws::lemma_accepted_pe_headers(image@, layout);
        if let Ok(stamped) = stamped_pe(
            image@,
            prepared.header_bytes@,
            bundle@,
            prepared.bundle_len,
            platform@,
        ) {
            preservation::law_stamp_keeps_the_sections(
                image@,
                layout,
                prepared.header_bytes@,
                bundle@,
                prepared.bundle_len,
                platform@,
                stamped,
            );
        }
    }
    check_pe_template(&layout, platform, file_len)?;
    let security_directory_offset: usize = match layout.security_directory_offset {
        Some(offset) => offset,
        None => {
            return Err(
                invalid_data("PE optional header has no Security Directory entry for signing"),
            );
        },
    };
    let plan: PeStampPlan = plan_pe_stamp(
        &layout,
        security_directory_offset,
        prepared.header_len + prepared.bundle_len,
    )?;
    let headers: &[u8] = slice_subrange(image, 0, layout.size_of_headers as usize);
    assert(headers@ =~= image@.take(layout.size_of_headers as int));
    if !is_all_zero(
        slice_subrange(
            headers,
            plan.section_header_offset,
            plan.section_header_offset + SECTION_HEADER_LEN,
        ),
    ) {
        return Err(
            invalid_data("PE runtime anchor section header space is not zero-filled"),
        );
    }
    let rewritten: Vec<u8> = rewrite_headers(headers, &layout, &plan);
    let mut output: Vec<u8> = slice_to_vec(image);
    resize(&mut output, plan.anchor_offset as usize + plan.anchor_raw_size as usize);
    resize(&mut output, plan.payload_start as usize);
    let footer: [u8; 100] = write_runtime_content(&mut output, bundle, prepared)?;
    overwrite(&mut output, plan.anchor_offset as usize, &footer);
    overwrite(&mut output, 0, &rewritten);
    Ok(output)
}

} // verus!
