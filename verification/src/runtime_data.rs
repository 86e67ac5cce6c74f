//! Runtime data: what the builder stamps onto an executable and the runtime reads back from it.

use vstd::prelude::*;
use vstd::slice::slice_to_vec;

use crate::bundle;
use crate::bundle::{BundleView, EmbeddedBundle};
use crate::digest;
use crate::error::{invalid_data, RuntimeDataError};
use crate::executable;
use crate::executable::{
    detect_binary_format, validate_macho_platform, validate_pe_platform, BinaryFormat,
};
use crate::footer::FORMAT_VERSION;
use crate::header;
use crate::header::{HeaderView, RuntimeDataHeader};
use crate::macho;
use crate::macho::stamp::write_macho_runtime_data;
use crate::payload;
use crate::payload::{prepare_runtime_data, write_runtime_payload, PreparedRuntimeData};
use crate::pe;
use crate::pe::stamp::write_pe_runtime_data;
use crate::pe::PeKind;
use crate::runtime_reader;
use crate::runtime_reader::{read_from_file, LocatedRuntimeData, LocatedView, Target};

verus! {

/// The runtime data of an executable.
pub struct RuntimeData {
    pub header: RuntimeDataHeader,
    pub bundle: Option<EmbeddedBundle>,
    /// Whether the executable was stamped.
    pub stamped: bool,
}

/// The model of a [`RuntimeData`].
#[verifier::ext_equal]
pub struct RuntimeDataView {
    pub header: HeaderView,
    pub bundle: Option<BundleView>,
    pub stamped: bool,
}

impl View for RuntimeData {
    type V = RuntimeDataView;

    open spec fn view(&self) -> RuntimeDataView {
        RuntimeDataView {
            header: self.header@,
            bundle: match self.bundle {
                Some(bundle) => Some(bundle@),
                None => None,
            },
            stamped: self.stamped,
        }
    }
}

/// The runtime data of an executable that was not stamped.
pub open spec fn unstamped() -> RuntimeDataView {
    RuntimeDataView {
        header: header::header_for_name("cs-template"@),
        bundle: None,
        stamped: false,
    }
}

impl Default for RuntimeData {
    fn default() -> (data: Self)
        ensures
            data@ == unstamped(),
            data.bundle is None,
            !data.stamped,
            data.header.runtime_name@ == "cs-template"@,
    {
        RuntimeData { header: RuntimeDataHeader::default(), bundle: None, stamped: false }
    }
}

/// The runtime data of the running executable, where `found` was read from it.
pub fn current(found: Option<RuntimeData>) -> (data: RuntimeData)
    ensures
        data@ == (match found {
            Some(data) => data@,
            None => unstamped(),
        }),
        found matches Some(stamped) ==> data == stamped,
        found is None ==> !data.stamped && data.bundle is None && data.header.runtime_name@
            == "cs-template"@,
{
    match found {
        Some(data) => data,
        None => RuntimeData::default(),
    }
}

/// Why an executable for `target` is refused where `platform` is asked for.
pub open spec fn platform_error(target: Target, platform: Seq<char>) -> Option<RuntimeDataError> {
    match target {
        Target::MachO { cpu_type, cpu_subtype } => executable::macho_platform_error(
            cpu_type,
            cpu_subtype,
            platform,
        ),
        Target::Pe { machine, kind } => executable::pe_platform_error(machine, kind, platform),
        Target::Other => None,
    }
}

/// Why a header that was read from an executable for `target` is refused.
pub open spec fn header_error(target: Target, header: HeaderView) -> Option<RuntimeDataError> {
    if header.schema_version != FORMAT_VERSION {
        Some(RuntimeDataError::SchemaVersion(header.schema_version))
    } else {
        platform_error(target, header.platform)
    }
}

/// Refuses an executable for another platform than `platform`.
fn validate_platform(target: Target, platform: &str) -> (result: Result<(), RuntimeDataError>)
    ensures
        result == (match platform_error(target, platform@) {
            Some(error) => Err(error),
            None => Ok(()),
        }),
        result is Ok <==> (match target {
            Target::MachO { cpu_type, cpu_subtype } => {
                ||| platform@ == ""@
                ||| platform@ == "osx-64"@ && cpu_type == 0x0100_0007 && cpu_subtype == 3
                ||| platform@ == "osx-arm64"@ && cpu_type == 0x0100_000c && cpu_subtype == 0
            },
            Target::Pe { machine, kind } => {
                ||| platform@ == ""@
                ||| platform@ == "win-32"@ && machine == 0x014c && kind == PeKind::Pe32
                ||| platform@ == "win-64"@ && machine == 0x8664 && kind == PeKind::Pe64
                ||| platform@ == "win-arm64"@ && machine == 0xaa64 && kind == PeKind::Pe64
            },
            Target::Other => true,
        }),
{
    match target {
        Target::MachO { cpu_type, cpu_subtype } => validate_macho_platform(
            cpu_type,
            cpu_subtype,
            platform,
        ),
        Target::Pe { machine, kind } => validate_pe_platform(machine, kind, platform),
        Target::Other => Ok(()),
    }
}

impl RuntimeData {
    /// The runtime data that was found, with `header` parsed from its header bytes.
    pub fn from_located(located: &LocatedRuntimeData, header: RuntimeDataHeader) -> (result: Result<
        RuntimeData,
        RuntimeDataError,
    >)
        ensures
            match header_error(located@.target, header@) {
                Some(error) => result is Err && result->Err_0 == error,
                None => result is Ok && result->Ok_0@ == (RuntimeDataView {
                    header: header@,
                    bundle: located@.bundle,
                    stamped: true,
                }),
            },
            result is Ok <==> {
                &&& header.schema_version == 1
                &&& (match located.target {
                    Target::MachO { cpu_type, cpu_subtype } => {
                        ||| header.platform@ == ""@
                        ||| header.platform@ == "osx-64"@ && cpu_type == 0x0100_0007 && cpu_subtype == 3
                        ||| header.platform@ == "osx-arm64"@ && cpu_type == 0x0100_000c && cpu_subtype == 0
                    },
                    Target::Pe { machine, kind } => {
                        ||| header.platform@ == ""@
                        ||| header.platform@ == "win-32"@ && machine == 0x014c && kind == PeKind::Pe32
                        ||| header.platform@ == "win-64"@ && machine == 0x8664 && kind == PeKind::Pe64
                        ||| header.platform@ == "win-arm64"@ && machine == 0xaa64 && kind == PeKind::Pe64
                    },
                    Target::Other => true,
                })
            },
            result matches Ok(data) ==> data.header == header && data.bundle == located.bundle
                && data.stamped,
            header.schema_version != 1 ==> result is Err && result->Err_0
                == RuntimeDataError::SchemaVersion(header.schema_version),
    {
        if header.schema_version != FORMAT_VERSION {
            return Err(RuntimeDataError::SchemaVersion(header.schema_version));
        }
        validate_platform(located.target, header.platform.as_str())?;
        Ok(RuntimeData { header, bundle: located.bundle, stamped: true })
    }
}

/// The executable `image` once a header and a bundle are stamped onto it, of which `bundle_len`
/// bytes were expected.
pub open spec fn stamped_image(
    image: Seq<u8>,
    header: Seq<u8>,
    bundle: Seq<u8>,
    bundle_len: u64,
    platform: Seq<char>,
) -> Result<Seq<u8>, RuntimeDataError> {
    match executable::binary_format(image) {
        Err(error) => Err(error),
        Ok(BinaryFormat::MachO64) => macho::stamp::stamped_macho(
            image,
            header,
            bundle,
            bundle_len,
            platform,
        ),
        Ok(BinaryFormat::UnsupportedMachO(description)) => Err(
            RuntimeDataError::UnsupportedMachO(description),
        ),
        Ok(BinaryFormat::Pe) => pe::stamp::stamped_pe(
            image,
            header,
            bundle,
            bundle_len,
            platform,
        ),
        Ok(BinaryFormat::Other) => match payload::bundle_len_error(
            bundle.len() as int,
            bundle_len,
        ) {
            Some(error) => Err(error),
            None => Ok(image + payload::payload_bytes(header, bundle)),
        },
    }
}

/// The executable `image` with the prepared header and the bundle stamped onto it.
pub fn write_runtime_data(
    image: &[u8],
    bundle: &[u8],
    prepared: &PreparedRuntimeData,
    platform: &str,
) -> (result: Result<Vec<u8>, RuntimeDataError>)
    requires
        prepared.well_formed(),
    ensures
        match stamped_image(
            image@,
            prepared.header_bytes@,
            bundle@,
            prepared.bundle_len,
            platform@,
        ) {
            Ok(stamped) => result is Ok && result->Ok_0@ == stamped,
            Err(error) => result is Err && result->Err_0 == error,
        },
        result matches Ok(stamped) ==> {
            &&& bundle@.len() == prepared.bundle_len
            &&& match executable::binary_format(image@) {
                Ok(BinaryFormat::MachO64) => macho::layout::macho_layout(image@) matches Ok(
                    found,
                ) && (forall|i: int|
                    found.prefix_len <= i < (match found.code_signature {
                        Some((_, offset, _)) => offset as int,
                        None => image@.len() as int,
                    }) ==> #[trigger] stamped@[i] == image@[i]),
                Ok(BinaryFormat::Pe) => pe::pe_layout(image@) matches Ok(found) && (forall|i: int|
                    found.size_of_headers <= i < image@.len() ==> #[trigger] stamped@[i]
                        == image@[i]),
                Ok(BinaryFormat::Other) => stamped@.take(image@.len() as int) == image@
                    && stamped@.len() == image@.len() + prepared.header_bytes@.len() + bundle@.len()
                    + 100,
                _ => false,
            }
        },
{
    match detect_binary_format(image)? {
        BinaryFormat::MachO64 => write_macho_runtime_data(image, bundle, prepared, platform),
        BinaryFormat::UnsupportedMachO(description) => Err(
            RuntimeDataError::UnsupportedMachO(description),
        ),
        BinaryFormat::Pe => write_pe_runtime_data(image, bundle, prepared, platform),
        BinaryFormat::Other => {
            let mut output: Vec<u8> = slice_to_vec(image);
            write_runtime_payload(&mut output, bundle, prepared)?;
            Ok(output)
        },
    }
}

/// A stamped executable, and the runtime data that a reader finds in it.
pub struct StampedBinary {
    pub image: Vec<u8>,
    pub located: LocatedRuntimeData,
}

/// The stamped executable and what is found in it, or why there is none.
pub open spec fn appended(
    image: Seq<u8>,
    schema_version: u32,
    platform: Seq<char>,
    header: Seq<u8>,
    bundle: Seq<u8>,
    bundle_len: u64,
) -> Result<(Seq<u8>, LocatedView), RuntimeDataError> {
    match payload::preparation_error(schema_version, header.len() as int, bundle_len) {
        Some(error) => Err(error),
        None => match stamped_image(image, header, bundle, bundle_len, platform) {
            Err(error) => Err(error),
            Ok(stamped) => match runtime_reader::runtime_data_in(stamped) {
                Err(error) => Err(error),
                Ok(None) => Err(invalid_data("completed runtime data stamp could not be read")),
                Ok(Some(located)) => Ok((stamped, located)),
            },
        },
    }
}

/// Stamps `header`, given as bytes, and a bundle of which `bundle_len` bytes were expected onto
/// the executable `binary`, and reads the stamp back. The stamp stands once it was confirmed.
pub fn append_to_binary(
    binary: &[u8],
    header: &RuntimeDataHeader,
    header_bytes: Vec<u8>,
    bundle: &[u8],
    bundle_len: u64,
) -> (result: Result<StampedBinary, RuntimeDataError>)
    ensures
        match appended(
            binary@,
            header@.schema_version,
            header@.platform,
            header_bytes@,
            bundle@,
            bundle_len,
        ) {
            Ok((stamped, located)) => {
                &&& result is Ok
                &&& result->Ok_0.image@ == stamped
                &&& result->Ok_0.located@ == located
            },
            Err(error) => result is Err && result->Err_0 == error,
        },
        result matches Ok(binary_and_data) ==> {
            &&& header.schema_version == 1
            &&& header_bytes@.len() <= 16 * 1024 * 1024
            &&& bundle@.len() == bundle_len
            &&& runtime_reader::runtime_data_in(binary_and_data.image@) == Ok::<
                Option<LocatedView>,
                RuntimeDataError,
            >(Some(binary_and_data.located@))
        },
{
    let prepared: PreparedRuntimeData = prepare_runtime_data(
        header.schema_version,
        header_bytes,
        bundle_len,
    )?;
    let image: Vec<u8> = write_runtime_data(binary, bundle, &prepared, header.platform.as_str())?;
    match read_from_file(&image)? {
        None => Err(invalid_data("completed runtime data stamp could not be read")),
        Some(located) => Ok(StampedBinary { image, located }),
    }
}

/// Why a stamp is not confirmed that was read back as `written` where `requested` was asked for
/// together with a bundle of `bundle_len` bytes.
pub open spec fn confirmation_error(
    image: Seq<u8>,
    located: LocatedView,
    written: HeaderView,
    requested: HeaderView,
    bundle_len: u64,
) -> Option<RuntimeDataError> {
    if let Some(error) = header_error(located.target, written) {
        Some(error)
    } else if written != requested {
        Some(
            invalid_data("completed runtime data stamp does not match its requested header"),
        )
    } else {
        match located.bundle {
            Some(embedded) => bundle::bundle_error(
                embedded,
                image,
                "file range ended before its declared length",
            ),
            None => if bundle_len != 0 {
                Some(
                    invalid_data("completed runtime data stamp is missing its embedded bundle"),
                )
            } else {
                None
            },
        }
    }
}

impl StampedBinary {
    /// The stamped executable, where `written`, parsed from the header bytes that were read
    /// back, is the requested header, and the bundle is there and whole.
    pub fn confirm(
        self,
        written: RuntimeDataHeader,
        requested: &RuntimeDataHeader,
        bundle_len: u64,
    ) -> (result: Result<Vec<u8>, RuntimeDataError>)
        ensures
            match confirmation_error(
                self.image@,
                self.located@,
                written@,
                requested@,
                bundle_len,
            ) {
                Some(error) => result is Err && result->Err_0 == error,
                None => result is Ok && result->Ok_0@ == self.image@,
            },
            result is Ok <==> {
                &&& written.schema_version == 1
                &&& (match self.located.target {
                    Target::MachO { cpu_type, cpu_subtype } => {
                        ||| written.platform@ == ""@
                        ||| written.platform@ == "osx-64"@ && cpu_type == 0x0100_0007 && cpu_subtype == 3
                        ||| written.platform@ == "osx-arm64"@ && cpu_type == 0x0100_000c && cpu_subtype == 0
                    },
                    Target::Pe { machine, kind } => {
                        ||| written.platform@ == ""@
                        ||| written.platform@ == "win-32"@ && machine == 0x014c && kind == PeKind::Pe32
                        ||| written.platform@ == "win-64"@ && machine == 0x8664 && kind == PeKind::Pe64
                        ||| written.platform@ == "win-arm64"@ && machine == 0xaa64 && kind == PeKind::Pe64
                    },
                    Target::Other => true,
                })
                &&& written@ == requested@
                &&& (match self.located.bundle {
                    Some(embedded) => {
                        &&& embedded.len > 0 ==> embedded.offset + embedded.len <= self.image@.len()
                        &&& digest::sha256_digest(
                            if embedded.len == 0 {
                                Seq::empty()
                            } else {
                                self.image@.subrange(
                                    embedded.offset as int,
                                    embedded.offset + embedded.len,
                                )
                            },
                        )@ == embedded.sha256@
                    },
                    None => bundle_len == 0,
                })
            },
            result matches Ok(image) ==> image@ == self.image@,
    {
        let data: RuntimeData = RuntimeData::from_located(&self.located, written)?;
        if !data.header.is_same_as(requested) {
            return Err(
                invalid_data("completed runtime data stamp does not match its requested header"),
            );
        }
        match data.bundle {
            Some(embedded) => {
                embedded.verify(&self.image)?;
            },
            None => {
                if bundle_len != 0 {
                    return Err(
                        invalid_data("completed runtime data stamp is missing its embedded bundle"),
                    );
                }
            },
        }
        Ok(self.image)
    }
}

} // verus!
