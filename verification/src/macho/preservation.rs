//! What a stamp leaves of a Mach-O executable as it was.

use vstd::prelude::*;

use crate::align;
use crate::bytes;
use crate::digest;
use crate::error::RuntimeDataError;
use crate::executable;
use crate::macho::final_layout;
use crate::macho::laws;
use crate::macho::layout;
use crate::macho::stamp;
use crate::macho::MachOLayout;
use crate::payload;

verus! {

/// What is rewritten of the header and the load commands, and what is not.
proof fn lemma_rewritten_prefix(
    prefix: Seq<u8>,
    found: MachOLayout,
    vmsize: u64,
    filesize: u64,
    rewritten: Seq<u8>,
)
    requires
        prefix.len() == found.prefix_len,
        found.prefix_len == 32 + found.commands_len,
        found.command_count >= 1,
        32 <= found.linkedit_command_offset,
        found.linkedit_command_offset + 72 <= found.prefix_len,
        found.code_signature matches Some((at, _, _)) ==> {
            &&& 32 <= at
            &&& at + 16 <= found.prefix_len
            &&& at + 16 <= found.linkedit_command_offset || found.linkedit_command_offset + 72 <= at
        },
        rewritten == stamp::stamped_prefix(prefix, found, vmsize, filesize),
    ensures
        rewritten.len() == prefix.len(),
        forall|i: int| 0 <= i < 16 || 24 <= i < 32 ==> #[trigger] rewritten[i] == prefix[i],
        match found.code_signature {
            None => {
                let linkedit = found.linkedit_command_offset as int;
                &&& bytes::le_u32(rewritten, 16) == found.command_count
                &&& bytes::le_u32(rewritten, 20) == found.commands_len
                &&& bytes::le_u64(rewritten, linkedit + 32) == vmsize
                &&& bytes::le_u64(rewritten, linkedit + 48) == filesize
                &&& forall|i: int|
                    32 <= i < prefix.len() && !(linkedit + 32 <= i < linkedit + 40) && !(linkedit
                        + 48 <= i < linkedit + 56) ==> #[trigger] rewritten[i] == prefix[i]
            },
            Some((at, _, _)) => {
                let linkedit = if at < found.linkedit_command_offset {
                    found.linkedit_command_offset - 16
                } else {
                    found.linkedit_command_offset as int
                };
                &&& bytes::le_u32(rewritten, 16) == found.command_count - 1
                &&& bytes::le_u32(rewritten, 20) == found.commands_len - 16
                &&& bytes::le_u64(rewritten, linkedit + 32) == vmsize
                &&& bytes::le_u64(rewritten, linkedit + 48) == filesize
                &&& forall|i: int|
                    32 <= i < prefix.len() - 16 && !(linkedit + 32 <= i < linkedit + 40) && !(
                    linkedit + 48 <= i < linkedit + 56) ==> #[trigger] rewritten[i] == prefix[if i
                        < at {
                        i
                    } else {
                        i + 16
                    }]
                &&& forall|i: int|
                    prefix.len() - 16 <= i < prefix.len() ==> #[trigger] rewritten[i] == 0
            },
        },
{
    let linkedit = match found.code_signature {
        Some((at, _, _)) if at < found.linkedit_command_offset => found.linkedit_command_offset
            - 16,
        _ => found.linkedit_command_offset as int,
    };
    let (commands, count, len) = match found.code_signature {
        Some((at, _, _)) => (
            stamp::without_signature_command(prefix, at as int),
            (found.command_count - 1) as u32,
            (found.commands_len - 16) as u32,
        ),
        None => (prefix, found.command_count, found.commands_len),
    };
    let first = bytes::overwritten(commands, linkedit + 32, bytes::u64_bytes(vmsize));
    let second = bytes::overwritten(first, linkedit + 48, bytes::u64_bytes(filesize));
    let third = bytes::overwritten(second, 16, bytes::u32_bytes(count));
    assert(commands.len() == prefix.len());
    bytes::lemma_overwritten(commands, linkedit + 32, bytes::u64_bytes(vmsize));
    bytes::lemma_overwritten(first, linkedit + 48, bytes::u64_bytes(filesize));
    bytes::lemma_overwritten(second, 16, bytes::u32_bytes(count));
    bytes::lemma_overwritten(third, 20, bytes::u32_bytes(len));
    assert(rewritten == bytes::overwritten(third, 20, bytes::u32_bytes(len)));
    let vmsize_bytes = bytes::u64_bytes(vmsize);
    let filesize_bytes = bytes::u64_bytes(filesize);
    let count_bytes = bytes::u32_bytes(count);
    let len_bytes = bytes::u32_bytes(len);
    assert(rewritten.subrange(linkedit + 32, linkedit + 40) =~= vmsize_bytes.subrange(0, 8));
    assert(rewritten.subrange(linkedit + 48, linkedit + 56) =~= filesize_bytes.subrange(0, 8));
    assert(rewritten.subrange(16, 20) =~= count_bytes.subrange(0, 4));
    assert(rewritten.subrange(20, 24) =~= len_bytes.subrange(0, 4));
    bytes::lemma_le_u64_window(rewritten, linkedit + 32, vmsize_bytes, 0);
    bytes::lemma_le_u64_window(rewritten, linkedit + 48, filesize_bytes, 0);
    bytes::lemma_le_u32_window(rewritten, 16, count_bytes, 0);
    bytes::lemma_le_u32_window(rewritten, 20, len_bytes, 0);
    bytes::lemma_u64_round_trip(vmsize);
    bytes::lemma_u64_round_trip(filesize);
    bytes::lemma_u32_round_trip(count);
    bytes::lemma_u32_round_trip(len);
}

/// A stamp leaves the program of a Mach-O executable as it was: every byte between the load
/// commands and the end of the executable without its code signature is the same, with nothing
/// but zeros from there to the next multiple of sixteen, where the header, the bundle and their
/// footer follow and end the file.
pub proof fn law_stamp_keeps_the_program(
    image: Seq<u8>,
    found: MachOLayout,
    header: Seq<u8>,
    bundle: Seq<u8>,
    bundle_len: u64,
    platform: Seq<char>,
    stamped: Seq<u8>,
)
    requires
        image.len() <= usize::MAX,
        header.len() + bundle_len + 100 <= u64::MAX,
        layout::macho_layout(image) == Ok::<MachOLayout, RuntimeDataError>(found),
        stamp::stamped_macho(image, header, bundle, bundle_len, platform) == Ok::<
            Seq<u8>,
            RuntimeDataError,
        >(stamped),
    ensures
        bundle.len() == bundle_len,
        ({
            let start = stamped.len() - (header.len() + bundle.len() + 100);
            let end = match found.code_signature {
                Some((_, offset, _)) => offset as int,
                None => image.len() as int,
            };
            &&& found.prefix_len <= end <= image.len()
            &&& end <= start < end + 16
            &&& start % 16 == 0
            &&& forall|i: int| found.prefix_len <= i < end ==> #[trigger] stamped[i] == image[i]
            &&& forall|i: int| end <= i < start ==> #[trigger] stamped[i] == 0
            &&& stamped.subrange(start, start + header.len()) == header
            &&& stamped.subrange(start + header.len(), start + header.len() + bundle.len())
                == bundle
            &&& bytes::le_u64(stamped, stamped.len() - 100) == header.len()
            &&& bytes::le_u64(stamped, stamped.len() - 92) == bundle.len()
            &&& stamped.subrange(stamped.len() - 84, stamped.len() - 52) == digest::sha256_digest(
                header,
            )@
            &&& stamped.subrange(stamped.len() - 52, stamped.len() - 20) == digest::sha256_digest(
                bundle,
            )@
        }),
{
    lemma_parts(image, found, header, bundle, bundle_len, platform, stamped);
}

/// The parts of a stamped executable.
proof fn lemma_parts(
    image: Seq<u8>,
    found: MachOLayout,
    header: Seq<u8>,
    bundle: Seq<u8>,
    bundle_len: u64,
    platform: Seq<char>,
    stamped: Seq<u8>,
) -> (parts: (stamp::StampSizes, Seq<u8>))
    requires
        image.len() <= usize::MAX,
        header.len() + bundle_len + 100 <= u64::MAX,
        layout::macho_layout(image) == Ok::<MachOLayout, RuntimeDataError>(found),
        stamp::stamped_macho(image, header, bundle, bundle_len, platform) == Ok::<
            Seq<u8>,
            RuntimeDataError,
        >(stamped),
    ensures
        bundle.len() == bundle_len,
        ({
            let (sizes, rewritten) = parts;
            let start = stamped.len() - (header.len() + bundle.len() + 100);
            let end = match found.code_signature {
                Some((_, offset, _)) => offset as int,
                None => image.len() as int,
            };
            &&& stamp::page_size(found.cpu_type) is Some
            &&& stamp::stamp_sizes(
                found,
                (header.len() + bundle_len + 100) as u64,
                image.len() as u64,
                stamp::page_size(found.cpu_type)->0,
            ) == Ok::<stamp::StampSizes, RuntimeDataError>(sizes)
            &&& sizes.payload_offset == start
            &&& rewritten == stamp::stamped_prefix(
                image.take(found.prefix_len as int),
                found,
                sizes.linkedit_vmsize,
                sizes.linkedit_filesize,
            )
            &&& rewritten.len() == found.prefix_len
            &&& forall|i: int| 0 <= i < found.prefix_len ==> #[trigger] stamped[i] == rewritten[i]
            &&& found.prefix_len <= end <= image.len()
            &&& end <= start < end + 16
            &&& start % 16 == 0
            &&& forall|i: int| found.prefix_len <= i < end ==> #[trigger] stamped[i] == image[i]
            &&& forall|i: int| end <= i < start ==> #[trigger] stamped[i] == 0
            &&& stamped.subrange(start, start + header.len()) == header
            &&& stamped.subrange(start + header.len(), start + header.len() + bundle.len())
                == bundle
            &&& bytes::le_u64(stamped, stamped.len() - 100) == header.len()
            &&& bytes::le_u64(stamped, stamped.len() - 92) == bundle.len()
            &&& stamped.subrange(stamped.len() - 84, stamped.len() - 52) == digest::sha256_digest(
                header,
            )@
            &&& stamped.subrange(stamped.len() - 52, stamped.len() - 20) == digest::sha256_digest(
                bundle,
            )@
        }),
{
    laws::law_accepted_macho_layout(image, found);
    let page = stamp::page_size(found.cpu_type)->0;
    let file_len = image.len() as u64;
    let payload_len = (header.len() + bundle_len + 100) as u64;
    let sizes = stamp::stamp_sizes(found, payload_len, file_len, page)->Ok_0;
    let end = stamp::unsigned_end(found, file_len);
    align::lemma_aligned(end as int, 16);
    let prefix = image.take(found.prefix_len as int);
    let rewritten = stamp::stamped_prefix(
        prefix,
        found,
        sizes.linkedit_vmsize,
        sizes.linkedit_filesize,
    );
    lemma_rewritten_prefix(
        prefix,
        found,
        sizes.linkedit_vmsize,
        sizes.linkedit_filesize,
        rewritten,
    );
    let written = bytes::overwritten(image, 0, rewritten);
    bytes::lemma_overwritten(image, 0, rewritten);
    let kept = bytes::resized(written, sizes.payload_offset as nat);
    assert(kept.len() == sizes.payload_offset);
    assert(stamped == kept + payload::payload_bytes(header, bundle));
    payload::law_payload_lies_behind(kept, header, bundle);
    assert forall|i: int| 0 <= i < sizes.payload_offset implies #[trigger] stamped[i] == kept[i] by {
        assert(stamped.take(kept.len() as int)[i] == kept[i]);
    }
    (sizes, rewritten)
}

/// A Mach-O executable is stamped exactly where its `__LINKEDIT` segment ends it, any code
/// signature ends the segment behind all other link-edit data, it is for the platform that is
/// asked for, a code signature command is there or fits behind the load commands, and the offset
/// of a code signature behind the runtime data, which starts at `start`, still fits its field.
#[verifier::rlimit(40)]
pub proof fn law_when_a_macho_is_stamped(
    image: Seq<u8>,
    found: MachOLayout,
    header: Seq<u8>,
    bundle: Seq<u8>,
    bundle_len: u64,
    platform: Seq<char>,
    start: int,
)
    requires
        image.len() <= usize::MAX,
        header.len() + bundle_len + 100 <= u64::MAX,
        layout::macho_layout(image) == Ok::<MachOLayout, RuntimeDataError>(found),
        start % 16 == 0,
        ({
            let end = match found.code_signature {
                Some((_, offset, _)) => offset as int,
                None => image.len() as int,
            };
            end <= start < end + 16
        }),
    ensures
        stamp::stamped_macho(image, header, bundle, bundle_len, platform) is Ok <==> {
            &&& found.linkedit_fileoff + found.linkedit_filesize == image.len()
            &&& found.linkedit_fileoff == found.max_segment_fileoff
            &&& found.linkedit_vmaddr == found.max_segment_vmaddr
            &&& found.prefix_len <= found.linkedit_fileoff
            &&& match found.code_signature {
                Some((_, offset, size)) => {
                    &&& size > 0
                    &&& offset + size == image.len()
                    &&& found.linkedit_fileoff <= offset
                    &&& found.max_non_signature_data_end <= offset
                    &&& offset % 16 == 0
                },
                None => true,
            }
            &&& {
                ||| found.cpu_type == 0x0100_0007 && (platform == ""@ || platform == "osx-64"@
                    && found.cpu_subtype == 3)
                ||| found.cpu_type == 0x0100_000c && (platform == ""@ || platform == "osx-arm64"@
                    && found.cpu_subtype == 0)
            }
            &&& found.code_signature is None ==> {
                &&& found.first_section_offset matches Some(first) && found.prefix_len + 16
                    <= first
                &&& forall|i: int|
                    found.prefix_len <= i < found.prefix_len + 16 ==> #[trigger] image[i] == 0
            }
            &&& start + header.len() + bundle_len + 100 <= 0xffff_fff0
            &&& bundle.len() == bundle_len
        },
{
    laws::law_accepted_macho_layout(image, found);
    lemma_whole_layout(found, image.len() as u64);
    lemma_platform(found.cpu_type, found.cpu_subtype, platform);
    lemma_signature_room(image, found);
    let payload_len = (header.len() + bundle_len + 100) as u64;
    if final_layout::final_layout_error(found, image.len() as u64) is None {
        lemma_sizes_fit(found, payload_len, image.len() as u64, start);
    }
}

/// Which files are accepted as a whole.
proof fn lemma_whole_layout(found: MachOLayout, file_len: u64)
    ensures
        final_layout::final_layout_error(found, file_len) is None <==> {
            &&& found.linkedit_fileoff + found.linkedit_filesize == file_len
            &&& found.linkedit_fileoff == found.max_segment_fileoff
            &&& found.linkedit_vmaddr == found.max_segment_vmaddr
            &&& found.prefix_len <= found.linkedit_fileoff
            &&& match found.code_signature {
                Some((_, offset, size)) => {
                    &&& size > 0
                    &&& offset + size == file_len
                    &&& found.linkedit_fileoff <= offset
                    &&& found.max_non_signature_data_end <= offset
                    &&& offset % 16 == 0
                },
                None => true,
            }
        },
{
}

/// Which executables of a CPU with a known page size are for a platform.
proof fn lemma_platform(cpu_type: u32, cpu_subtype: u32, platform: Seq<char>)
    ensures
        executable::macho_platform_error(cpu_type, cpu_subtype, platform) is None
            && stamp::page_size(cpu_type) is Some <==> {
            ||| cpu_type == 0x0100_0007 && (platform == ""@ || platform == "osx-64"@ && cpu_subtype
                == 3)
            ||| cpu_type == 0x0100_000c && (platform == ""@ || platform == "osx-arm64"@
                && cpu_subtype == 0)
        },
{
    executable::lemma_platforms_differ();
}

/// Where there is room for a code signature command.
proof fn lemma_signature_room(image: Seq<u8>, found: MachOLayout)
    requires
        found.first_section_offset matches Some(first) ==> first <= image.len(),
    ensures
        stamp::signature_room_error(image, found) is None <==> {
            &&& found.first_section_offset matches Some(first) && found.prefix_len + 16 <= first
            &&& forall|i: int|
                found.prefix_len <= i < found.prefix_len + 16 ==> #[trigger] image[i] == 0
        },
{
    if found.first_section_offset is Some && found.prefix_len + 16 <= found.first_section_offset->0 {
        let room = image.subrange(found.prefix_len as int, found.prefix_len + 16);
        assert(room.len() == 16);
        if bytes::all_zero(room) {
            assert forall|i: int|
                found.prefix_len <= i < found.prefix_len + 16 implies #[trigger] image[i] == 0 by {
                assert(room[i - found.prefix_len] == 0);
            }
        }
    }
}

/// Where the sizes of a stamped executable fit their fields.
proof fn lemma_sizes_fit(found: MachOLayout, payload_len: u64, file_len: u64, start: int)
    requires
        found.linkedit_fileoff <= stamp::unsigned_end(found, file_len),
        start % 16 == 0,
        stamp::unsigned_end(found, file_len) <= start < stamp::unsigned_end(found, file_len) + 16,
    ensures
        stamp::stamp_sizes(found, payload_len, file_len, 0x1000) is Ok <==> start + payload_len
            <= 0xffff_fff0,
        stamp::stamp_sizes(found, payload_len, file_len, 0x4000) is Ok <==> start + payload_len
            <= 0xffff_fff0,
{
    let end = stamp::unsigned_end(found, file_len) as int;
    align::lemma_aligned(end, 16);
    align::lemma_aligned(start + payload_len, 16);
    assert(align::aligned(end, 16) == start);
}

/// A stamp rewrites as little as it can of the header and the load commands: it takes out the
/// code signature command, where there is one, counts the commands anew, and makes the
/// `__LINKEDIT` segment reach to the end of the file, and to the end of a page in memory. All other
/// bytes stay, those behind the code signature command in its place.
#[verifier::rlimit(40)]
pub proof fn law_stamp_keeps_the_load_commands(
    image: Seq<u8>,
    found: MachOLayout,
    header: Seq<u8>,
    bundle: Seq<u8>,
    bundle_len: u64,
    platform: Seq<char>,
    stamped: Seq<u8>,
)
    requires
        image.len() <= usize::MAX,
        header.len() + bundle_len + 100 <= u64::MAX,
        layout::macho_layout(image) == Ok::<MachOLayout, RuntimeDataError>(found),
        stamp::stamped_macho(image, header, bundle, bundle_len, platform) == Ok::<
            Seq<u8>,
            RuntimeDataError,
        >(stamped),
    ensures
        forall|i: int| 0 <= i < 16 || 24 <= i < 32 ==> #[trigger] stamped[i] == image[i],
        ({
            let page: int = if found.cpu_type == 0x0100_0007 {
                0x1000
            } else {
                0x4000
            };
            let (at, taken): (int, int) = match found.code_signature {
                Some((at, _, _)) => (at as int, 16),
                None => (found.prefix_len as int, 0),
            };
            let linkedit = if at < found.linkedit_command_offset {
                found.linkedit_command_offset - taken
            } else {
                found.linkedit_command_offset as int
            };
            let filesize = stamped.len() - found.linkedit_fileoff;
            let vmsize = bytes::le_u64(stamped, linkedit + 32);
            &&& found.cpu_type == 0x0100_0007 || found.cpu_type == 0x0100_000c
            &&& bytes::le_u32(stamped, 16) == found.command_count - taken / 16
            &&& bytes::le_u32(stamped, 20) == found.commands_len - taken
            &&& bytes::le_u64(stamped, linkedit + 48) == filesize
            &&& filesize <= vmsize < filesize + page
            &&& vmsize % page as u64 == 0
            &&& forall|i: int|
                32 <= i < found.prefix_len - taken && !(linkedit + 32 <= i < linkedit + 40) && !(
                linkedit + 48 <= i < linkedit + 56) ==> #[trigger] stamped[i] == image[if i < at {
                    i
                } else {
                    i + taken
                }]
            &&& forall|i: int|
                found.prefix_len - taken <= i < found.prefix_len ==> #[trigger] stamped[i] == 0
        }),
{
    laws::law_accepted_macho_layout(image, found);
    let (sizes, rewritten) = lemma_parts(
        image,
        found,
        header,
        bundle,
        bundle_len,
        platform,
        stamped,
    );
    let prefix = image.take(found.prefix_len as int);
    lemma_rewritten_prefix(
        prefix,
        found,
        sizes.linkedit_vmsize,
        sizes.linkedit_filesize,
        rewritten,
    );
    let page = stamp::page_size(found.cpu_type)->0;
    align::lemma_aligned(sizes.linkedit_filesize as int, page as int);
    let linkedit = match found.code_signature {
        Some((at, _, _)) if at < found.linkedit_command_offset => found.linkedit_command_offset
            - 16,
        _ => found.linkedit_command_offset as int,
    };
    lemma_same_fields(stamped, rewritten, linkedit);
}

/// The fields that a stamp rewrites read as they were rewritten.
proof fn lemma_same_fields(stamped: Seq<u8>, rewritten: Seq<u8>, linkedit: int)
    requires
        24 <= linkedit,
        linkedit + 56 <= rewritten.len() <= stamped.len(),
        forall|i: int| 0 <= i < rewritten.len() ==> #[trigger] stamped[i] == rewritten[i],
    ensures
        bytes::le_u32(stamped, 16) == bytes::le_u32(rewritten, 16),
        bytes::le_u32(stamped, 20) == bytes::le_u32(rewritten, 20),
        bytes::le_u64(stamped, linkedit + 32) == bytes::le_u64(rewritten, linkedit + 32),
        bytes::le_u64(stamped, linkedit + 48) == bytes::le_u64(rewritten, linkedit + 48),
{
    assert(stamped.subrange(16, 20) =~= rewritten.subrange(16, 20));
    assert(stamped.subrange(20, 24) =~= rewritten.subrange(20, 24));
    assert(stamped.subrange(linkedit + 32, linkedit + 40) =~= rewritten.subrange(
        linkedit + 32,
        linkedit + 40,
    ));
    assert(stamped.subrange(linkedit + 48, linkedit + 56) =~= rewritten.subrange(
        linkedit + 48,
        linkedit + 56,
    ));
    bytes::lemma_le_u32_window(stamped, 16, rewritten, 16);
    bytes::lemma_le_u32_window(stamped, 20, rewritten, 20);
    bytes::lemma_le_u64_window(stamped, linkedit + 32, rewritten, linkedit + 32);
    bytes::lemma_le_u64_window(stamped, linkedit + 48, rewritten, linkedit + 48);
}

} // verus!
