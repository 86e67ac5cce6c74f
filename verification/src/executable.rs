//! The kinds of executables, and the platforms they are for.

use vstd::prelude::*;

use crate::error::RuntimeDataError;
use crate::macho::{
    CPU_SUBTYPE_ARM64_ALL, CPU_SUBTYPE_X86_64_ALL, CPU_TYPE_ARM64, CPU_TYPE_X86_64,
};
use crate::object_file;
use crate::pe;
use crate::pe::reader::read_dos_program_kind;
use crate::pe::{
    PeKind, IMAGE_FILE_MACHINE_AMD64, IMAGE_FILE_MACHINE_ARM64, IMAGE_FILE_MACHINE_I386,
};
use crate::text::same_text;

verus! {

/// The kind of an executable.
#[derive(Clone, Copy, Debug, PartialEq, Eq)]
pub enum BinaryFormat {
    /// A little-endian 64-bit Mach-O file.
    MachO64,
    /// A Mach-O file of the described kind.
    UnsupportedMachO(&'static str),
    /// A PE image.
    Pe,
    /// Anything else.
    Other,
}

/// Whether `image` starts with these four bytes.
pub open spec fn starts_with(image: Seq<u8>, a: u8, b: u8, c: u8, d: u8) -> bool {
    image.len() >= 4 && image[0] == a && image[1] == b && image[2] == c && image[3] == d
}

/// The kind of the executable `image`, by the bytes that it starts with.
pub open spec fn binary_format(image: Seq<u8>) -> Result<BinaryFormat, RuntimeDataError> {
    if starts_with(image, 0xcf, 0xfa, 0xed, 0xfe) {
        Ok(BinaryFormat::MachO64)
    } else if starts_with(image, 0xfe, 0xed, 0xfa, 0xcf) {
        Ok(BinaryFormat::UnsupportedMachO("big-endian 64-bit"))
    } else if starts_with(image, 0xce, 0xfa, 0xed, 0xfe) || starts_with(
        image,
        0xfe,
        0xed,
        0xfa,
        0xce,
    ) {
        Ok(BinaryFormat::UnsupportedMachO("32-bit"))
    } else if starts_with(image, 0xca, 0xfe, 0xba, 0xbe) || starts_with(
        image,
        0xbe,
        0xba,
        0xfe,
        0xca,
    ) || starts_with(image, 0xca, 0xfe, 0xba, 0xbf) || starts_with(
        image,
        0xbf,
        0xba,
        0xfe,
        0xca,
    ) {
        Ok(BinaryFormat::UnsupportedMachO("universal"))
    } else if object_file::has_dos_magic(image) {
        match pe::dos_program_kind(image) {
            Ok(_) => Ok(BinaryFormat::Pe),
            Err(error) => Err(error),
        }
    } else {
        Ok(BinaryFormat::Other)
    }
}

/// Whether `image` starts with these four bytes.
fn image_starts_with(image: &[u8], a: u8, b: u8, c: u8, d: u8) -> (result: bool)
    ensures
        result == starts_with(image@, a, b, c, d),
{
    image.len() >= 4 && image[0] == a && image[1] == b && image[2] == c && image[3] == d
}

/// The kind of the executable `image`.
pub fn detect_binary_format(image: &[u8]) -> (result: Result<BinaryFormat, RuntimeDataError>)
    ensures
        result == binary_format(image@),
        result == Ok::<BinaryFormat, RuntimeDataError>(BinaryFormat::MachO64) <==> image@.len() >= 4
            && image@.take(4) == seq![0xcfu8, 0xfa, 0xed, 0xfe],
        result == Ok::<BinaryFormat, RuntimeDataError>(
            BinaryFormat::UnsupportedMachO("big-endian 64-bit"),
        ) <== image@.len() >= 4 && image@.take(4) == seq![0xfeu8, 0xed, 0xfa, 0xcf],
        result == Ok::<BinaryFormat, RuntimeDataError>(BinaryFormat::UnsupportedMachO("32-bit"))
            <== image@.len() >= 4 && (image@.take(4) == seq![0xceu8, 0xfa, 0xed, 0xfe]
            || image@.take(4) == seq![0xfeu8, 0xed, 0xfa, 0xce]),
        result == Ok::<BinaryFormat, RuntimeDataError>(BinaryFormat::UnsupportedMachO("universal"))
            <== image@.len() >= 4 && (image@.take(4) == seq![0xcau8, 0xfe, 0xba, 0xbe]
            || image@.take(4) == seq![0xbeu8, 0xba, 0xfe, 0xca] || image@.take(4)
            == seq![0xcau8, 0xfe, 0xba, 0xbf] || image@.take(4) == seq![0xbfu8, 0xba, 0xfe, 0xca]),
        result matches Ok(BinaryFormat::UnsupportedMachO(_)) ==> image@.len() >= 4 && (
        image@.take(4) == seq![0xfeu8, 0xed, 0xfa, 0xcf] || image@.take(4)
            == seq![0xceu8, 0xfa, 0xed, 0xfe] || image@.take(4) == seq![0xfeu8, 0xed, 0xfa, 0xce]
            || image@.take(4) == seq![0xcau8, 0xfe, 0xba, 0xbe] || image@.take(4)
            == seq![0xbeu8, 0xba, 0xfe, 0xca] || image@.take(4) == seq![0xcau8, 0xfe, 0xba, 0xbf]
            || image@.take(4) == seq![0xbfu8, 0xba, 0xfe, 0xca]),
        result is Err || result == Ok::<BinaryFormat, RuntimeDataError>(BinaryFormat::Pe)
            <==> image@.len() >= 2 && image@[0] == 0x4d && image@[1] == 0x5a,
        result == Ok::<BinaryFormat, RuntimeDataError>(BinaryFormat::Pe) ==> object_file::pe_kind(
            image@,
        ) is Some,
        result matches Err(error) ==> object_file::pe_kind(image@) is None && error == (
        if image@.len() < 16 {
            RuntimeDataError::InvalidData("Could not read file magic")
        } else {
            RuntimeDataError::InvalidData("Unknown MS-DOS file")
        }),
{
    proof {
        if image@.len() >= 4 {
            let start = image@.take(4);
            assert(forall|a: u8, b: u8, c: u8, d: u8|
                #![trigger starts_with(image@, a, b, c, d)]
                start =~= seq![a, b, c, d] <==> starts_with(image@, a, b, c, d));
            assert(start.len() == 4 && start[0] == image@[0] && start[1] == image@[1] && start[2]
                == image@[2] && start[3] == image@[3]);
        }
    }
    if image_starts_with(image, 0xcf, 0xfa, 0xed, 0xfe) {
        return Ok(BinaryFormat::MachO64);
    }
    if image_starts_with(image, 0xfe, 0xed, 0xfa, 0xcf) {
        return Ok(BinaryFormat::UnsupportedMachO("big-endian 64-bit"));
    }
    if image_starts_with(image, 0xce, 0xfa, 0xed, 0xfe) || image_starts_with(
        image,
        0xfe,
        0xed,
        0xfa,
        0xce,
    ) {
        return Ok(BinaryFormat::UnsupportedMachO("32-bit"));
    }
    if image_starts_with(image, 0xca, 0xfe, 0xba, 0xbe) || image_starts_with(
        image,
        0xbe,
        0xba,
        0xfe,
        0xca,
    ) || image_starts_with(image, 0xca, 0xfe, 0xba, 0xbf) || image_starts_with(
        image,
        0xbf,
        0xba,
        0xfe,
        0xca,
    ) {
        return Ok(BinaryFormat::UnsupportedMachO("universal"));
    }
    if image.len() >= 2 && image[0] == 0x4d && image[1] == 0x5a {
        read_dos_program_kind(image)?;
        return Ok(BinaryFormat::Pe);
    }
    Ok(BinaryFormat::Other)
}

/// The names of the platforms are all different.
pub proof fn lemma_platforms_differ()
    ensures
        ""@ != "osx-64"@ && ""@ != "osx-arm64"@ && "osx-64"@ != "osx-arm64"@,
        ""@ != "win-32"@ && ""@ != "win-64"@ && ""@ != "win-arm64"@,
        "win-32"@ != "win-64"@ && "win-32"@ != "win-arm64"@ && "win-64"@ != "win-arm64"@,
{
    reveal_strlit("");
    reveal_strlit("osx-64");
    reveal_strlit("osx-arm64");
    reveal_strlit("win-32");
    reveal_strlit("win-64");
    reveal_strlit("win-arm64");
    assert(""@.len() == 0);
    assert("osx-64"@.len() == 6 && "osx-arm64"@.len() == 9);
    assert("win-32"@.len() == 6 && "win-64"@.len() == 6 && "win-arm64"@.len() == 9);
    assert("win-32"@[4] != "win-64"@[4]);
}

/// Why a Mach-O executable for this CPU is refused where `platform` is asked for. An empty
/// platform asks for none.
pub open spec fn macho_platform_error(
    cpu_type: u32,
    cpu_subtype: u32,
    platform: Seq<char>,
) -> Option<RuntimeDataError> {
    if platform == ""@ {
        None
    } else if platform == "osx-64"@ {
        if cpu_type == CPU_TYPE_X86_64 && cpu_subtype == CPU_SUBTYPE_X86_64_ALL {
            None
        } else {
            Some(RuntimeDataError::MachoCpu { cpu_type, cpu_subtype })
        }
    } else if platform == "osx-arm64"@ {
        if cpu_type == CPU_TYPE_ARM64 && cpu_subtype == CPU_SUBTYPE_ARM64_ALL {
            None
        } else {
            Some(RuntimeDataError::MachoCpu { cpu_type, cpu_subtype })
        }
    } else {
        Some(RuntimeDataError::MachoPlatform)
    }
}

/// Refuses a Mach-O executable for another platform than `platform`.
pub fn validate_macho_platform(cpu_type: u32, cpu_subtype: u32, platform: &str) -> (result: Result<
    (),
    RuntimeDataError,
>)
    ensures
        result == (match macho_platform_error(cpu_type, cpu_subtype, platform@) {
            Some(error) => Err(error),
            None => Ok(()),
        }),
        result is Ok <==> {
            ||| platform@ == ""@
            ||| platform@ == "osx-64"@ && cpu_type == 0x0100_0007 && cpu_subtype == 3
            ||| platform@ == "osx-arm64"@ && cpu_type == 0x0100_000c && cpu_subtype == 0
        },
        result matches Err(error) ==> error == (if platform@ == "osx-64"@ || platform@
            == "osx-arm64"@ {
            RuntimeDataError::MachoCpu { cpu_type, cpu_subtype }
        } else {
            RuntimeDataError::MachoPlatform
        }),
{
    proof {
        lemma_platforms_differ();
    }
    let (expected_type, expected_subtype): (u32, u32) = if same_text(platform, "") {
        return Ok(());
    } else if same_text(platform, "osx-64") {
        (CPU_TYPE_X86_64, CPU_SUBTYPE_X86_64_ALL)
    } else if same_text(platform, "osx-arm64") {
        (CPU_TYPE_ARM64, CPU_SUBTYPE_ARM64_ALL)
    } else {
        return Err(RuntimeDataError::MachoPlatform);
    };
    if cpu_type != expected_type || cpu_subtype != expected_subtype {
        return Err(RuntimeDataError::MachoCpu { cpu_type, cpu_subtype });
    }
    Ok(())
}

/// Why a PE image of this kind for this machine is refused where `platform` is asked for. An
/// empty platform asks for none.
pub open spec fn pe_platform_error(machine: u16, kind: PeKind, platform: Seq<char>) -> Option<
    RuntimeDataError,
> {
    let expected = if platform == "win-32"@ {
        Some((IMAGE_FILE_MACHINE_I386, PeKind::Pe32))
    } else if platform == "win-64"@ {
        Some((IMAGE_FILE_MACHINE_AMD64, PeKind::Pe64))
    } else if platform == "win-arm64"@ {
        Some((IMAGE_FILE_MACHINE_ARM64, PeKind::Pe64))
    } else {
        None
    };
    if platform == ""@ {
        None
    } else {
        match expected {
            None => Some(RuntimeDataError::PePlatform),
            Some(expected) => if (machine, kind) == expected {
                None
            } else {
                Some(RuntimeDataError::PeMachine { machine, kind })
            },
        }
    }
}

/// Refuses a PE image for another platform than `platform`.
pub fn validate_pe_platform(machine: u16, kind: PeKind, platform: &str) -> (result: Result<
    (),
    RuntimeDataError,
>)
    ensures
        result == (match pe_platform_error(machine, kind, platform@) {
            Some(error) => Err(error),
            None => Ok(()),
        }),
        result is Ok <==> {
            ||| platform@ == ""@
            ||| platform@ == "win-32"@ && machine == 0x014c && kind == PeKind::Pe32
            ||| platform@ == "win-64"@ && machine == 0x8664 && kind == PeKind::Pe64
            ||| platform@ == "win-arm64"@ && machine == 0xaa64 && kind == PeKind::Pe64
        },
        result matches Err(error) ==> error == (if platform@ == "win-32"@ || platform@ == "win-64"@
            || platform@ == "win-arm64"@ {
            RuntimeDataError::PeMachine { machine, kind }
        } else {
            RuntimeDataError::PePlatform
        }),
{
    proof {
        lemma_platforms_differ();
    }
    let (expected_machine, expected_kind): (u16, PeKind) = if same_text(platform, "") {
        return Ok(());
    } else if same_text(platform, "win-32") {
        (IMAGE_FILE_MACHINE_I386, PeKind::Pe32)
    } else if same_text(platform, "win-64") {
        (IMAGE_FILE_MACHINE_AMD64, PeKind::Pe64)
    } else if same_text(platform, "win-arm64") {
        (IMAGE_FILE_MACHINE_ARM64, PeKind::Pe64)
    } else {
        return Err(RuntimeDataError::PePlatform);
    };
    if machine != expected_machine || kind != expected_kind {
        return Err(RuntimeDataError::PeMachine { machine, kind });
    }
    Ok(())
}

} // verus!
