//! The reasons for which runtime data is refused.

use vstd::prelude::*;
use vstd::string::*;

use crate::pe::PeKind;
use crate::text::{append_decimal, append_hexadecimal};

verus! {

/// Why an image, a footer or a header was refused.
#[derive(Clone, Copy, Debug, PartialEq, Eq)]
pub enum RuntimeDataError {
    /// The data breaks a rule; the message says which.
    InvalidData(&'static str),
    /// A read reached past the end of the data.
    UnexpectedEof,
    /// A header was written with another schema version.
    SchemaVersion(u32),
    /// A footer was written with another format version.
    FooterVersion(u32),
    /// A header is longer than a reader accepts.
    HeaderTooLarge(u64),
    /// The image is a Mach-O file of the described kind.
    UnsupportedMachO(&'static str),
    /// The Mach-O image is for a CPU subtype that it cannot run on everywhere.
    MachoCpuSubtype(u32),
    /// The Mach-O image is for another CPU.
    MachoCpuType(u32),
    /// The Mach-O load commands take too many bytes.
    MachoCommandTable(u64),
    /// The Mach-O image targets another operating system.
    MachoTarget(u32),
    /// The Mach-O image has a load command of an unknown kind.
    MachoLoadCommand(u32),
    /// The requested platform is not one of Mach-O images.
    MachoPlatform,
    /// The Mach-O image is for another platform than the requested one.
    MachoCpu {
        cpu_type: u32,
        cpu_subtype: u32,
    },
    /// The requested platform is not one of PE images.
    PePlatform,
    /// The PE image is for another platform than the requested one.
    PeMachine {
        machine: u16,
        kind: PeKind,
    },
}

/// The error for data that breaks the rule that `message` names.
#[verifier::allow_in_spec]
pub fn invalid_data(message: &'static str) -> (error: RuntimeDataError)
    returns
        RuntimeDataError::InvalidData(message),
{
    RuntimeDataError::InvalidData(message)
}

/// The text of `error`, where `platform` is the platform that was asked for.
pub open spec fn error_text(error: RuntimeDataError, platform: Seq<char>) -> Seq<char> {
    match error {
        RuntimeDataError::InvalidData(message) => message@,
        RuntimeDataError::UnexpectedEof => "failed to fill whole buffer"@,
        RuntimeDataError::SchemaVersion(version) =>
            "unsupported runtime data schema version: "@ + crate::text::decimal(version as nat),
        RuntimeDataError::FooterVersion(version) =>
            "unsupported runtime data footer version: "@ + crate::text::decimal(version as nat),
        RuntimeDataError::HeaderTooLarge(len) =>
            "runtime data header is too large: "@ + crate::text::decimal(len as nat) + " bytes"@,
        RuntimeDataError::UnsupportedMachO(description) =>
            description@ + " Mach-O binaries are not supported"@,
        RuntimeDataError::MachoCpuSubtype(subtype) =>
            "unsupported Mach-O CPU subtype: "@ + crate::text::hexadecimal(subtype as nat),
        RuntimeDataError::MachoCpuType(cpu_type) =>
            "unsupported 64-bit Mach-O CPU type: "@ + crate::text::hexadecimal(cpu_type as nat),
        RuntimeDataError::MachoCommandTable(len) =>
            "Mach-O load command table is too large: "@ + crate::text::decimal(len as nat)
                + " bytes"@,
        RuntimeDataError::MachoTarget(target) =>
            "Mach-O runtime template targets unsupported platform "@
                + crate::text::decimal(target as nat),
        RuntimeDataError::MachoLoadCommand(command) =>
            "unsupported Mach-O load command: "@ + crate::text::hexadecimal(command as nat),
        RuntimeDataError::MachoPlatform =>
            "Mach-O runtime template does not match platform "@ + platform,
        RuntimeDataError::MachoCpu { cpu_type, cpu_subtype } =>
            "Mach-O runtime template CPU type "@ + crate::text::hexadecimal(cpu_type as nat)
                + " with subtype "@ + crate::text::hexadecimal(cpu_subtype as nat)
                + " does not match platform "@ + platform,
        RuntimeDataError::PePlatform =>
            "PE runtime template does not match platform "@ + platform,
        RuntimeDataError::PeMachine { machine, kind } =>
            "PE runtime template machine "@ + crate::text::hexadecimal(machine as nat)
                + " with image kind "@ + (match kind {
                PeKind::Pe32 => "PE32"@,
                PeKind::Pe64 => "PE32+"@,
            }) + " does not match platform "@ + platform,
    }
}

impl RuntimeDataError {
    /// The error as text, where `platform` is the platform that was asked for.
    pub fn message(&self, platform: &str) -> (text: String)
        ensures
            text@ == error_text(*self, platform@),
            text@ == (match *self {
                RuntimeDataError::InvalidData(message) => message@,
                RuntimeDataError::UnexpectedEof => "failed to fill whole buffer"@,
                RuntimeDataError::SchemaVersion(version) =>
                    "unsupported runtime data schema version: "@ + crate::text::decimal(version as nat),
                RuntimeDataError::FooterVersion(version) =>
                    "unsupported runtime data footer version: "@ + crate::text::decimal(version as nat),
                RuntimeDataError::HeaderTooLarge(len) =>
                    "runtime data header is too large: "@ + crate::text::decimal(len as nat) + " bytes"@,
                RuntimeDataError::UnsupportedMachO(description) =>
                    description@ + " Mach-O binaries are not supported"@,
                RuntimeDataError::MachoCpuSubtype(subtype) =>
                    "unsupported Mach-O CPU subtype: "@ + crate::text::hexadecimal(subtype as nat),
                RuntimeDataError::MachoCpuType(cpu_type) =>
                    "unsupported 64-bit Mach-O CPU type: "@ + crate::text::hexadecimal(cpu_type as nat),
                RuntimeDataError::MachoCommandTable(len) =>
                    "Mach-O load command table is too large: "@ + crate::text::decimal(len as nat)
                        + " bytes"@,
                RuntimeDataError::MachoTarget(target) =>
                    "Mach-O runtime template targets unsupported platform "@
                        + crate::text::decimal(target as nat),
                RuntimeDataError::MachoLoadCommand(command) =>
                    "unsupported Mach-O load command: "@ + crate::text::hexadecimal(command as nat),
                RuntimeDataError::MachoPlatform =>
                    "Mach-O runtime template does not match platform "@ + platform@,
                RuntimeDataError::MachoCpu { cpu_type, cpu_subtype } =>
                    "Mach-O runtime template CPU type "@ + crate::text::hexadecimal(cpu_type as nat)
                        + " with subtype "@ + crate::text::hexadecimal(cpu_subtype as nat)
                        + " does not match platform "@ + platform@,
                RuntimeDataError::PePlatform =>
                    "PE runtime template does not match platform "@ + platform@,
                RuntimeDataError::PeMachine { machine, kind } =>
                    "PE runtime template machine "@ + crate::text::hexadecimal(machine as nat)
                        + " with image kind "@ + (match kind {
                        PeKind::Pe32 => "PE32"@,
                        PeKind::Pe64 => "PE32+"@,
                    }) + " does not match platform "@ + platform@,
            }),
    {
        let mut text: String = String::new();
        match self {
            RuntimeDataError::InvalidData(message) => {
                text.append(message);
            },
            RuntimeDataError::UnexpectedEof => {
                text.append("failed to fill whole buffer");
            },
            RuntimeDataError::SchemaVersion(version) => {
                text.append("unsupported runtime data schema version: ");
                append_decimal(&mut text, *version as u64);
            },
            RuntimeDataError::FooterVersion(version) => {
                text.append("unsupported runtime data footer version: ");
                append_decimal(&mut text, *version as u64);
            },
            RuntimeDataError::HeaderTooLarge(len) => {
                text.append("runtime data header is too large: ");
                append_decimal(&mut text, *len);
                text.append(" bytes");
            },
            RuntimeDataError::UnsupportedMachO(description) => {
                text.append(description);
                text.append(" Mach-O binaries are not supported");
            },
            RuntimeDataError::MachoCpuSubtype(subtype) => {
                text.append("unsupported Mach-O CPU subtype: ");
                append_hexadecimal(&mut text, *subtype as u64);
            },
            RuntimeDataError::MachoCpuType(cpu_type) => {
                text.append("unsupported 64-bit Mach-O CPU type: ");
                append_hexadecimal(&mut text, *cpu_type as u64);
            },
            RuntimeDataError::MachoCommandTable(len) => {
                text.append("Mach-O load command table is too large: ");
                append_decimal(&mut text, *len);
                text.append(" bytes");
            },
            RuntimeDataError::MachoTarget(target) => {
                text.append("Mach-O runtime template targets unsupported platform ");
                append_decimal(&mut text, *target as u64);
            },
            RuntimeDataError::MachoLoadCommand(command) => {
                text.append("unsupported Mach-O load command: ");
                append_hexadecimal(&mut text, *command as u64);
            },
            RuntimeDataError::MachoPlatform => {
                text.append("Mach-O runtime template does not match platform ");
                text.append(platform);
            },
            RuntimeDataError::MachoCpu { cpu_type, cpu_subtype } => {
                text.append("Mach-O runtime template CPU type ");
                append_hexadecimal(&mut text, *cpu_type as u64);
                text.append(" with subtype ");
                append_hexadecimal(&mut text, *cpu_subtype as u64);
                text.append(" does not match platform ");
                text.append(platform);
            },
            RuntimeDataError::PePlatform => {
                text.append("PE runtime template does not match platform ");
                text.append(platform);
            },
            RuntimeDataError::PeMachine { machine, kind } => {
                text.append("PE runtime template machine ");
                append_hexadecimal(&mut text, *machine as u64);
                text.append(" with image kind ");
                match kind {
                    PeKind::Pe32 => text.append("PE32"),
                    PeKind::Pe64 => text.append("PE32+"),
                }
                text.append(" does not match platform ");
                text.append(platform);
            },
        }
        assert(text@ =~= error_text(*self, platform@));
        text
    }
}

} // verus!
