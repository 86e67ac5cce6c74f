//! Headers, footers, bundles and executables of no particular format.

use conda_ship::align::align_up;
use conda_ship::bundle::EmbeddedBundle;
use conda_ship::capability::{
    reader_capability_record, validate_reader_capability_record, validate_runtime_template_reader,
    MACHO_READER_LAYOUT_KIND, PE_READER_LAYOUT_KIND,
};
use conda_ship::error::RuntimeDataError;
use conda_ship::executable::{
    detect_binary_format, validate_macho_platform, validate_pe_platform, BinaryFormat,
};
use conda_ship::footer::{decode_footer, encode_footer, FOOTER_LEN, FORMAT_VERSION};
use conda_ship::header::{
    runtime_env_var, InstallScheme, RuntimeConfig, RuntimeDataHeader, RuntimeUpdateConfig,
    UpdateOwnership,
};
use conda_ship::macho::{
    macho_byte_range, macho_counted_range, CPU_TYPE_ARM64, CPU_TYPE_X86_64,
};
use conda_ship::payload::{prepare_runtime_data, write_runtime_content, write_runtime_payload};
use conda_ship::pe::PeKind;
use conda_ship::runtime_data::{append_to_binary, current, RuntimeData};
use conda_ship::runtime_reader::{
    footer_magic_exists_with_search_spec, read_from_file, read_runtime_data_at_footer,
    read_runtime_data_payload, read_runtime_data_with_search_spec, FooterSearchSpec, Target,
    MAX_HEADER_LEN,
};
use conda_ship::snapshot::{
    check_bundle_unchanged, check_template_path, check_template_unchanged, has_changed, FileStamp,
};
use serde_json::Value;
use sha2::{Digest, Sha256};

fn header_json(header: &RuntimeDataHeader) -> Vec<u8> {
    let mut config = serde_json::Map::new();
    config.insert("channels".to_string(), texts(&header.runtime_config.channels));
    config.insert("packages".to_string(), texts(&header.runtime_config.packages));
    if let Some(condarc) = &header.runtime_config.condarc {
        config.insert("condarc".to_string(), Value::String(condarc.clone()));
    }
    config.insert("freeze_base".to_string(), Value::Bool(header.runtime_config.freeze_base));

    let mut object = serde_json::Map::new();
    object.insert("schema_version".to_string(), Value::from(header.schema_version));
    let scheme = match header.install_scheme {
        InstallScheme::CondaHome => "conda-home",
        InstallScheme::UserData => "user-data",
    };
    for (key, value) in [
        ("artifact_name", header.artifact_name.as_str()),
        ("runtime_name", header.runtime_name.as_str()),
        ("runtime_version", header.runtime_version.as_str()),
        ("artifact_layout", header.artifact_layout.as_str()),
        ("platform", header.platform.as_str()),
        ("embedded_artifact_name", header.embedded_artifact_name.as_str()),
        ("delegate_executable", header.delegate_executable.as_str()),
        ("install_scheme", scheme),
        ("install_name", header.install_name.as_str()),
        ("metadata_file", header.metadata_file.as_str()),
        ("bundle_env_var", header.bundle_env_var.as_str()),
        ("offline_env_var", header.offline_env_var.as_str()),
        ("docs_url", header.docs_url.as_str()),
        ("runtime_lock", header.runtime_lock.as_str()),
    ] {
        object.insert(key.to_string(), Value::String(value.to_string()));
    }
    if let Some(installer) = &header.installer {
        object.insert("installer".to_string(), Value::String(installer.clone()));
    }
    object.insert("runtime_config".to_string(), Value::Object(config));
    serde_json::to_vec(&Value::Object(object)).unwrap()
}

fn texts(list: &[String]) -> Value {
    Value::Array(list.iter().map(|text| Value::String(text.clone())).collect())
}

fn text(value: &Value, key: &str) -> String {
    value[key].as_str().unwrap().to_string()
}

fn list(value: &Value, key: &str) -> Vec<String> {
    value[key].as_array().unwrap().iter().map(|text| text.as_str().unwrap().to_string()).collect()
}

fn parse_header(bytes: &[u8]) -> RuntimeDataHeader {
    let value: Value = serde_json::from_slice(bytes).unwrap();
    RuntimeDataHeader {
        schema_version: value["schema_version"].as_u64().unwrap() as u32,
        artifact_name: text(&value, "artifact_name"),
        runtime_name: text(&value, "runtime_name"),
        runtime_version: text(&value, "runtime_version"),
        artifact_layout: text(&value, "artifact_layout"),
        platform: text(&value, "platform"),
        embedded_artifact_name: text(&value, "embedded_artifact_name"),
        delegate_executable: text(&value, "delegate_executable"),
        install_scheme: match value["install_scheme"].as_str().unwrap() {
            "conda-home" => InstallScheme::CondaHome,
            "user-data" => InstallScheme::UserData,
            other => panic!("unknown install scheme {other}"),
        },
        install_name: text(&value, "install_name"),
        metadata_file: text(&value, "metadata_file"),
        bundle_env_var: text(&value, "bundle_env_var"),
        offline_env_var: text(&value, "offline_env_var"),
        docs_url: text(&value, "docs_url"),
        installer: value["installer"].as_str().map(|text| text.to_string()),
        update: None,
        runtime_config: RuntimeConfig {
            channels: list(&value["runtime_config"], "channels"),
            packages: list(&value["runtime_config"], "packages"),
            condarc: value["runtime_config"]["condarc"].as_str().map(|text| text.to_string()),
            freeze_base: value["runtime_config"]["freeze_base"].as_bool().unwrap(),
        },
        runtime_lock: text(&value, "runtime_lock"),
    }
}

fn append(
    image: &[u8],
    header: &RuntimeDataHeader,
    bundle: &[u8],
) -> Result<Vec<u8>, RuntimeDataError> {
    let bundle_len = bundle.len() as u64;
    let stamped = append_to_binary(image, header, header_json(header), bundle, bundle_len)?;
    let written = parse_header(&stamped.located.header_bytes);
    stamped.confirm(written, header, bundle_len)
}

fn read(image: &[u8]) -> Result<Option<RuntimeData>, RuntimeDataError> {
    match read_from_file(image)? {
        None => Ok(None),
        Some(located) => {
            let header = parse_header(&located.header_bytes);
            Ok(Some(RuntimeData::from_located(&located, header)?))
        }
    }
}

fn read_stamped(image: &[u8]) -> RuntimeData {
    match read(image) {
        Ok(Some(data)) => data,
        Ok(None) => panic!("no runtime data"),
        Err(error) => panic!("{error:?}"),
    }
}

fn refusal<T>(result: Result<T, RuntimeDataError>) -> RuntimeDataError {
    match result {
        Ok(_) => panic!("the image was accepted"),
        Err(error) => error,
    }
}

fn read_refusal(image: &[u8]) -> String {
    refusal(read(image)).message("")
}

/// The update configuration that a JSON object says.
fn parse_update(json: &str) -> RuntimeUpdateConfig {
    let value: Value = serde_json::from_str(json).unwrap();
    let mut update = RuntimeUpdateConfig::new(
        text(&value, "channel"),
        text(&value, "package"),
        value["build-number"].as_u64().unwrap_or(0),
    );
    update.compatibility_ownership = value["ownership"].as_str().map(|owner| match owner {
        "direct" => UpdateOwnership::Direct,
        "external" => UpdateOwnership::External,
        other => panic!("unknown owner {other}"),
    });
    update.compatibility_instruction =
        value["instruction"].as_str().map(|instruction| instruction.to_string());
    update
}

/// What is written of an update configuration.
fn update_json(update: &RuntimeUpdateConfig) -> Value {
    let mut object = serde_json::Map::new();
    object.insert("channel".to_string(), Value::String(update.channel.clone()));
    object.insert("package".to_string(), Value::String(update.package.clone()));
    object.insert("build-number".to_string(), Value::from(update.build_number));
    Value::Object(object)
}

#[test]
fn test_legacy_update_policy_is_read_but_not_written() {
    let update = parse_update(
        r#"{
            "channel": "https://packages.example.test/runtime",
            "package": "demo-runtime",
            "build-number": 2,
            "ownership": "external",
            "instruction": "Use the installer."
        }"#,
    );

    assert_eq!(update.initial_ownership(), UpdateOwnership::External);
    assert_eq!(update.initial_instruction(), Some("Use the installer."));

    let serialized = update_json(&update);
    assert!(serialized.get("ownership").is_none());
    assert!(serialized.get("instruction").is_none());

    let mut requested = RuntimeDataHeader::for_name("snek");
    requested.update = Some(update);
    let mut written = RuntimeDataHeader::for_name("snek");
    written.update = Some(parse_update(&serialized.to_string()));
    let bytes = header_json(&written);
    let stamped = append_to_binary(b"binary", &requested, bytes, b"", 0).ok().unwrap();
    assert_eq!(
        refusal(stamped.confirm(written, &requested, 0)).message(""),
        "completed runtime data stamp does not match its requested header"
    );
}

#[test]
fn test_legacy_external_update_policy_is_not_direct_capable() {
    let direct = parse_update(
        r#"{
            "channel": "https://packages.example.test/runtime",
            "package": "demo-runtime",
            "ownership": "direct"
        }"#,
    );
    let external = parse_update(
        r#"{
            "channel": "https://packages.example.test/runtime",
            "package": "demo-runtime",
            "ownership": "external"
        }"#,
    );
    let malformed_direct = parse_update(
        r#"{
            "channel": "https://packages.example.test/runtime",
            "package": "demo-runtime",
            "instruction": "Use an external installer."
        }"#,
    );
    let current = RuntimeUpdateConfig::new(
        "https://packages.example.test/runtime".to_string(),
        "demo-runtime".to_string(),
        0,
    );

    assert!(direct.supports_direct_update());
    assert!(current.supports_direct_update());
    assert!(!external.supports_direct_update());
    assert!(!malformed_direct.supports_direct_update());
    assert!(!current.has_compatibility_policy());
    assert!(direct.has_compatibility_policy());
    assert!(malformed_direct.has_compatibility_policy());
    assert_eq!(current.initial_ownership(), UpdateOwnership::Direct);
    assert_eq!(current.initial_instruction(), None);
}

#[test]
fn test_missing_runtime_data_returns_none() {
    let data = read(b"plain binary").unwrap();
    assert!(data.is_none());
}

#[test]
fn test_append_and_read_runtime_data_without_bundle() {
    let mut header = RuntimeDataHeader::for_name("snek");
    header.runtime_lock = "lock data".to_string();
    header.runtime_config.channels = vec!["conda-forge".to_string()];
    header.runtime_config.condarc = Some("channels: []\n".to_string());
    header.runtime_config.freeze_base = true;

    let stamped = append(b"binary", &header, b"").unwrap();
    let data = read_stamped(&stamped);

    assert_eq!(data.header.artifact_name, "snek");
    assert_eq!(data.header.runtime_name, "snek");
    assert_eq!(data.header.delegate_executable, "conda");
    assert_eq!(data.header.install_scheme, InstallScheme::CondaHome);
    assert_eq!(data.header.install_name, "snek");
    assert_eq!(data.header.runtime_lock, "lock data");
    assert_eq!(data.header.runtime_config.condarc.as_deref(), Some("channels: []\n"));
    assert!(data.header.runtime_config.freeze_base);
    assert!(data.bundle.is_none());
    assert!(data.stamped);
}

#[test]
fn test_append_replaces_path_while_original_handle_remains_open() {
    let original = b"binary".to_vec();
    let header = RuntimeDataHeader::for_name("snek");

    let stamped = append(&original, &header, b"").unwrap();

    assert_eq!(original, b"binary");
    assert_eq!(read_stamped(&stamped).header, header);
}

#[test]
fn test_append_rejects_symbolic_link_input() {
    let target = b"binary".to_vec();
    let header = RuntimeDataHeader::for_name("snek");
    let append_at = |is_symlink: bool| {
        check_template_path(is_symlink, !is_symlink).and_then(|()| append(&target, &header, b""))
    };

    let error = append_at(true).unwrap_err();

    assert!(error.message("").contains("symbolic link"));
    assert_eq!(target, b"binary");
    assert_eq!(read_stamped(&append_at(false).unwrap()).header, header);
}

#[test]
fn test_append_and_read_runtime_data_with_bundle() {
    let header = RuntimeDataHeader::for_name("snek");
    let stamped = append(b"binary", &header, b"bundle data").unwrap();

    let data = read_stamped(&stamped);
    let embedded = data.bundle.unwrap();
    embedded.verify(&stamped).unwrap();
    let contents = embedded.open_verified(&stamped).unwrap();

    assert_eq!(embedded.len(), "bundle data".len() as u64);
    assert_eq!(contents, b"bundle data");
}

#[test]
fn test_verified_bundle_snapshot_survives_executable_path_replacement() {
    let header = RuntimeDataHeader::for_name("snek");
    let mut binary = append(b"binary", &header, b"verified bundle data").unwrap();
    let embedded = read_stamped(&binary).bundle.unwrap();
    let verified = embedded.open_verified(&binary).unwrap();
    binary = b"attacker-controlled replacement".to_vec();

    assert_eq!(verified, b"verified bundle data");
    assert!(embedded.open_verified(&binary).is_err());
}

#[test]
fn test_corrupt_runtime_data_is_rejected() {
    let header = RuntimeDataHeader::for_name("snek");
    let mut stamped = append(b"binary", &header, b"").unwrap();
    let last = stamped.len() - FOOTER_LEN as usize - 1;
    stamped[last] = b'!';

    let error = refusal(read_from_file(&stamped));
    assert!(matches!(error, RuntimeDataError::InvalidData(_)));
    assert!(error.message("").contains("header checksum mismatch"));
}

#[test]
fn test_corrupt_bundle_is_rejected_when_verified() {
    let header = RuntimeDataHeader::for_name("snek");
    let mut stamped = append(b"binary", &header, b"bundle data").unwrap();
    let embedded = read_stamped(&stamped).bundle.unwrap();
    stamped[embedded.offset as usize] = b'!';

    let error = embedded.verify(&stamped).unwrap_err();
    assert!(matches!(error, RuntimeDataError::InvalidData(_)));
    assert!(error.message("").contains("bundle checksum mismatch"));
    assert_eq!(embedded.open_verified(&stamped).unwrap_err(), error);
}

#[test]
fn a_bundle_that_ends_too_early_is_refused() {
    let embedded = EmbeddedBundle { offset: 4, len: 8, sha256: Sha256::digest(b"12345678").into() };

    assert_eq!(
        embedded.open_verified(b"....1234567").unwrap_err().message(""),
        "embedded bundle ended before its declared length"
    );
    assert_eq!(
        embedded.verify(b"....1234567").unwrap_err().message(""),
        "file range ended before its declared length"
    );
    assert_eq!(embedded.open_verified(b"....12345678....").unwrap(), b"12345678");
    let empty = EmbeddedBundle { offset: 99, len: 0, sha256: Sha256::digest(b"").into() };
    assert_eq!(empty.open_verified(b"short").unwrap(), b"");
}

#[test]
fn the_stamp_of_a_plain_file_is_what_the_format_says() {
    let header = RuntimeDataHeader::for_name("snek");
    let json = header_json(&header);
    let stamped = append(b"#!/bin/sh\n", &header, b"bundle").unwrap();

    let mut expected = b"#!/bin/sh\n".to_vec();
    expected.extend_from_slice(&json);
    expected.extend_from_slice(b"bundle");
    expected.extend_from_slice(&(json.len() as u64).to_le_bytes());
    expected.extend_from_slice(&6_u64.to_le_bytes());
    expected.extend_from_slice(Sha256::digest(&json).as_slice());
    expected.extend_from_slice(Sha256::digest(b"bundle").as_slice());
    expected.extend_from_slice(&1_u32.to_le_bytes());
    expected.extend_from_slice(b"CONDA_SHIP_V0001");
    assert_eq!(stamped, expected);
}

#[test]
fn the_last_stamp_of_a_plain_file_counts() {
    let first = RuntimeDataHeader::for_name("first");
    let second = RuntimeDataHeader::for_name("second");
    let once = append(b"binary", &first, b"").unwrap();
    let twice = append(&once, &second, b"").unwrap();

    assert_eq!(read_stamped(&twice).header, second);
}

#[test]
fn headers_of_another_schema_are_refused() {
    let mut header = RuntimeDataHeader::for_name("snek");
    let good = append(b"binary", &header, b"").unwrap();
    header.schema_version = 2;
    let message = "unsupported runtime data schema version: 2";

    assert_eq!(refusal(append(b"binary", &header, b"")).message(""), message);
    let located = read_from_file(&good).unwrap().unwrap();
    assert_eq!(refusal(RuntimeData::from_located(&located, header)).message(""), message);
}

#[test]
fn headers_that_are_too_long_are_refused() {
    let header = RuntimeDataHeader::for_name("snek");
    let too_long = vec![b' '; MAX_HEADER_LEN as usize + 1];

    let error = refusal(append_to_binary(b"binary", &header, too_long, b"", 0));
    assert_eq!(error, RuntimeDataError::HeaderTooLarge(MAX_HEADER_LEN + 1));
    assert_eq!(error.message(""), "runtime data header is too large: 16777217 bytes");
    let mut file = vec![0; 20];
    file.extend_from_slice(&encode_footer(MAX_HEADER_LEN + 1, 0, [0; 32], [0; 32]));
    assert_eq!(
        read_refusal(&file),
        "runtime data footer points before start of file"
    );
    let overflow = refusal(append_to_binary(b"", &header, header_json(&header), b"", u64::MAX));
    assert_eq!(overflow.message(""), "runtime data length overflow");
}

#[test]
fn a_stamp_is_confirmed_only_where_it_is_the_requested_one() {
    let header = RuntimeDataHeader::for_name("snek");
    let json = header_json(&header);

    let stamped = append_to_binary(b"binary", &header, json.clone(), b"", 0).unwrap();
    let other = RuntimeDataHeader::for_name("other");
    assert_eq!(
        refusal(stamped.confirm(other, &header, 0)).message(""),
        "completed runtime data stamp does not match its requested header"
    );
    let stamped = append_to_binary(b"binary", &header, json.clone(), b"", 0).unwrap();
    assert_eq!(
        refusal(stamped.confirm(header.clone(), &header, 6)).message(""),
        "completed runtime data stamp is missing its embedded bundle"
    );
    let stamped = append_to_binary(b"binary", &header, json.clone(), b"bundle", 6).unwrap();
    assert!(stamped.confirm(header.clone(), &header, 6).is_ok());
    let mut stamped = append_to_binary(b"binary", &header, json, b"bundle", 6).unwrap();
    let bundle = stamped.located.bundle.unwrap();
    stamped.image[bundle.offset as usize] = b'B';
    assert_eq!(
        refusal(stamped.confirm(header.clone(), &header, 6)).message(""),
        "embedded bundle checksum mismatch"
    );
}

#[test]
fn a_stamp_that_hides_itself_is_not_accepted() {
    let header = RuntimeDataHeader::for_name("snek");

    let hidden = append_to_binary(b"\xcf\xfa", &header, b"\xed\xfe".to_vec(), b"", 0);
    assert!(hidden.is_err());
}

#[test]
fn footers_say_what_they_were_made_from() {
    let footer = encode_footer(3, 5, [7; 32], [9; 32]);
    let decoded = decode_footer(&footer).unwrap().unwrap();

    assert_eq!((decoded.header_len, decoded.bundle_len), (3, 5));
    assert_eq!(decoded.header_sha256, [7; 32]);
    assert_eq!(decoded.bundle_sha256, [9; 32]);
    assert_eq!(footer.len(), 100);
    assert_eq!(&footer[80..84], &FORMAT_VERSION.to_le_bytes());
    let mut unknown = footer;
    unknown[80] = 9;
    assert_eq!(
        decode_footer(&unknown).unwrap_err().message(""),
        "unsupported runtime data footer version: 9"
    );
    let mut no_footer = footer;
    no_footer[99] = 0;
    assert!(decode_footer(&no_footer).unwrap().is_none());
}

#[test]
fn footers_that_point_out_of_the_file_are_refused() {
    for (header_len, bundle_len, message) in [
        (u64::MAX, 1, "runtime data length overflow"),
        (9, 0, "runtime data footer points before start of file"),
    ] {
        let mut file = vec![0; 8];
        file.extend_from_slice(&encode_footer(header_len, bundle_len, [0; 32], [0; 32]));
        assert_eq!(read_refusal(&file), message);
    }
    let mut file = vec![0; 8];
    let digest: [u8; 32] = Sha256::digest([0; 8]).into();
    file.extend_from_slice(&encode_footer(8, 0, digest, [0; 32]));
    let search = FooterSearchSpec { data_end: 108, alignment: 1, minimum_payload_offset: 1 };
    assert_eq!(
        refusal(read_runtime_data_with_search_spec(&file, Target::Other, search)).message(""),
        "runtime data payload starts before the platform's minimum payload offset"
    );
    let past_end = FooterSearchSpec { data_end: 109, alignment: 1, minimum_payload_offset: 0 };
    assert_eq!(
        refusal(read_runtime_data_with_search_spec(&file, Target::Other, past_end)),
        RuntimeDataError::UnexpectedEof
    );
}

#[test]
fn the_magic_is_found_within_the_alignment() {
    let mut file = vec![0; 20];
    file.extend_from_slice(b"CONDA_SHIP_V0001");
    file.extend_from_slice(&[0; 7]);
    let search = |alignment: u64| FooterSearchSpec {
        data_end: 43,
        alignment,
        minimum_payload_offset: 0,
    };

    assert!(footer_magic_exists_with_search_spec(&file, search(8)).unwrap());
    assert!(!footer_magic_exists_with_search_spec(&file, search(7)).unwrap());
    assert!(!footer_magic_exists_with_search_spec(&file, search(0)).unwrap());
}

#[test]
fn names_become_environment_variables() {
    assert_eq!(runtime_env_var("snek", "BUNDLE"), "SNEK_BUNDLE");
    assert_eq!(runtime_env_var("demo-runtime.2", "OFFLINE"), "DEMO_RUNTIME_2_OFFLINE");
    assert_eq!(runtime_env_var("s\u{f8}k", "BUNDLE"), "S_K_BUNDLE");
    assert_eq!(runtime_env_var("", "BUNDLE"), "_BUNDLE");
}

#[test]
fn headers_start_from_a_name() {
    let header = RuntimeDataHeader::for_name("snek");

    assert_eq!(header.schema_version, 1);
    assert_eq!(header.runtime_version, "0.9.0");
    assert_eq!(header.metadata_file, ".snek.json");
    assert_eq!(header.bundle_env_var, "SNEK_BUNDLE");
    assert_eq!(header.offline_env_var, "SNEK_OFFLINE");
    assert_eq!(header.docs_url, "https://conda-incubator.github.io/conda-ship/");
    assert!(header.runtime_config.is_empty());
    assert!(header.is_same_as(&header.clone()));
    let mut other = header.clone();
    other.runtime_config.packages.push("python".to_string());
    assert!(!header.is_same_as(&other));
    assert!(!other.runtime_config.is_empty());
    assert_eq!(RuntimeDataHeader::default().runtime_name, "cs-template");
    assert_eq!(InstallScheme::default(), InstallScheme::CondaHome);
    assert_eq!(UpdateOwnership::default(), UpdateOwnership::Direct);
}

#[test]
fn every_field_of_a_header_counts_in_a_comparison() {
    let header = RuntimeDataHeader::for_name("snek");
    let mut other = header.clone();
    other.update = Some(RuntimeUpdateConfig::new("c".to_string(), "p".to_string(), 1));
    assert!(!header.is_same_as(&other));
    let mut third = other.clone();
    third.update = Some(RuntimeUpdateConfig::new("c".to_string(), "p".to_string(), 2));
    assert!(!other.is_same_as(&third));
    let mut fourth = header.clone();
    fourth.installer = Some("homebrew".to_string());
    assert!(!header.is_same_as(&fourth));
    let mut fifth = header.clone();
    fifth.install_scheme = InstallScheme::UserData;
    assert!(!header.is_same_as(&fifth));
    let mut sixth = header.clone();
    sixth.runtime_config.condarc = Some(String::new());
    assert!(!header.is_same_as(&sixth));
}

#[test]
fn an_executable_without_a_stamp_runs_as_the_template() {
    let data = current(None);

    assert!(!data.stamped);
    assert!(data.bundle.is_none());
    assert_eq!(data.header, RuntimeDataHeader::for_name("cs-template"));
    let stamped = append(b"binary", &RuntimeDataHeader::for_name("snek"), b"").unwrap();
    assert_eq!(current(read(&stamped).unwrap()).header.runtime_name, "snek");
}

#[test]
fn capability_records_are_accepted_where_they_are_declared() {
    let record = reader_capability_record(PE_READER_LAYOUT_KIND);
    assert_eq!(record.layout_kind, PE_READER_LAYOUT_KIND);
    let mut image = vec![0xff; 16];
    image.extend_from_slice(&record.to_bytes());
    image.extend_from_slice(&[0; 16]);

    let place = Some((16, 64));
    validate_reader_capability_record(&image, place, PE_READER_LAYOUT_KIND).unwrap();
    for (place, kind, message) in [
        (None, 2, "runtime template does not declare the signed-layout reader ABI"),
        (Some((16, 47)), 2, "runtime template reader capability record is truncated"),
        (place, MACHO_READER_LAYOUT_KIND, "runtime template reader capability record is invalid"),
        (Some((17, 48)), 2, "runtime template reader capability record is invalid"),
        (Some((64, 48)), 2, "failed to fill whole buffer"),
    ] {
        let error = validate_reader_capability_record(&image, place, kind).unwrap_err();
        assert_eq!(error.message(""), message);
    }
    image[70] = 1;
    assert_eq!(
        validate_reader_capability_record(&image, place, PE_READER_LAYOUT_KIND)
            .unwrap_err()
            .message(""),
        "runtime template reader capability section has nonzero padding"
    );
    validate_runtime_template_reader(b"\x7fELF and so on").unwrap();
}

#[test]
fn executables_are_told_apart_by_their_first_bytes() {
    assert_eq!(detect_binary_format(b"\xcf\xfa\xed\xfe").unwrap(), BinaryFormat::MachO64);
    assert_eq!(
        detect_binary_format(b"\xca\xfe\xba\xbe").unwrap(),
        BinaryFormat::UnsupportedMachO("universal")
    );
    assert_eq!(detect_binary_format(b"\x7fELF").unwrap(), BinaryFormat::Other);
    assert_eq!(detect_binary_format(b"").unwrap(), BinaryFormat::Other);
}

#[test]
fn platforms_have_to_match_the_executable() {
    validate_macho_platform(CPU_TYPE_X86_64, 3, "osx-64").unwrap();
    validate_macho_platform(CPU_TYPE_ARM64, 0, "osx-arm64").unwrap();
    validate_macho_platform(CPU_TYPE_ARM64, 0, "").unwrap();
    assert_eq!(
        validate_macho_platform(CPU_TYPE_ARM64, 0, "linux-64").unwrap_err().message("linux-64"),
        "Mach-O runtime template does not match platform linux-64"
    );
    validate_pe_platform(0x014c, PeKind::Pe32, "win-32").unwrap();
    validate_pe_platform(0x8664, PeKind::Pe64, "win-64").unwrap();
    validate_pe_platform(0xaa64, PeKind::Pe64, "win-arm64").unwrap();
    validate_pe_platform(0x8664, PeKind::Pe64, "").unwrap();
    assert_eq!(
        validate_pe_platform(0x8664, PeKind::Pe64, "osx-64").unwrap_err().message("osx-64"),
        "PE runtime template does not match platform osx-64"
    );
    assert_eq!(
        validate_pe_platform(0x014c, PeKind::Pe32, "win-64").unwrap_err().message("win-64"),
        "PE runtime template machine 0x14c with image kind PE32 does not match platform win-64"
    );
}

#[test]
fn values_are_aligned_upwards() {
    assert_eq!(align_up(0, 16).unwrap(), 0);
    assert_eq!(align_up(1, 16).unwrap(), 16);
    assert_eq!(align_up(16, 16).unwrap(), 16);
    assert_eq!(align_up(5, 0).unwrap_err().message(""), "binary alignment is zero");
    assert_eq!(align_up(u64::MAX, 16).unwrap_err().message(""), "binary alignment overflow");
}

#[test]
fn empty_tables_have_no_range() {
    assert_eq!(macho_counted_range(8, 0, 16).unwrap(), None);
    assert_eq!(macho_counted_range(8, 3, 16).unwrap(), Some((8, 48)));
    assert_eq!(macho_byte_range(8, 0), None);
    assert_eq!(macho_byte_range(8, 5), Some((8, 5)));
    assert_eq!(
        macho_counted_range(8, u32::MAX, usize::MAX).unwrap_err().message(""),
        "Mach-O table size overflow"
    );
}

#[test]
fn files_that_change_while_they_are_read_are_refused() {
    let before = FileStamp { len: 3, modified: Some((1, 0)) };
    let later = FileStamp { len: 3, modified: Some((1, 1)) };
    let unknown = FileStamp { len: 3, modified: None };
    let longer = FileStamp { len: 4, modified: None };

    assert!(has_changed(before, later));
    assert!(has_changed(before, longer));
    assert!(!has_changed(before, unknown));
    check_template_unchanged(before, unknown, b"abc", b"abc").unwrap();
    check_bundle_unchanged(before, before, b"abc", b"abc").unwrap();
    for (after, reread) in [(later, b"abc".as_slice()), (before, b"abd"), (longer, b"abc")] {
        assert_eq!(
            check_template_unchanged(before, after, b"abc", reread).unwrap_err().message(""),
            "runtime template changed while being read"
        );
        assert_eq!(
            check_bundle_unchanged(before, after, b"abc", reread).unwrap_err().message(""),
            "runtime data bundle changed while being read"
        );
    }
    assert!(check_bundle_unchanged(before, before, b"ab", b"ab").is_err());
    check_bundle_unchanged(before, before, b"abc", b"abcd").unwrap();
    check_template_unchanged(before, before, b"abcd", b"abce").unwrap();
    for (copied, reread) in [(b"ab".as_slice(), b"abc".as_slice()), (b"abc", b"ab"), (b"", b"")] {
        assert_eq!(
            check_template_unchanged(before, before, copied, reread).unwrap_err().message(""),
            "file range ended before its declared length"
        );
    }
    check_template_path(false, true).unwrap();
    assert_eq!(
        check_template_path(false, false).unwrap_err().message(""),
        "runtime template is not a regular file"
    );
}

#[test]
fn a_bundle_of_another_length_leaves_behind_what_was_written() {
    let prepared = |bundle_len: u64| {
        prepare_runtime_data(FORMAT_VERSION, b"{}".to_vec(), bundle_len).ok().unwrap()
    };
    let mut output = b"binary".to_vec();
    write_runtime_payload(&mut output, b"bundle", &prepared(7)).unwrap_err();
    assert_eq!(output, b"binary{}bundle");

    let mut output = b"binary".to_vec();
    write_runtime_content(&mut output, b"bundle", &prepared(5)).unwrap_err();
    assert_eq!(output, b"binary{}");

    let bundle: Vec<u8> = (0..140_000_u32).map(|i| (i % 251) as u8).collect();
    for (declared, copied) in [(65_535, 0), (65_536, 65_536), (131_071, 65_536), (139_999, 131_072)]
    {
        let mut output = b"binary".to_vec();
        let error = write_runtime_payload(&mut output, &bundle, &prepared(declared)).unwrap_err();
        assert_eq!(error.message(""), "runtime data bundle grew while being read");
        assert_eq!(output, [b"binary{}".as_slice(), &bundle[..copied]].concat());
    }
}

#[test]
fn short_files_do_not_come_to_look_like_executables() {
    let header = RuntimeDataHeader::for_name("snek");
    for start in [b"".as_slice(), b"M", b"\xcf\xfa", b"\xcf\xfa\xed", b"\xca\xfe\xba"] {
        let stamped = append(start, &header, b"bundle").unwrap();

        assert_eq!(detect_binary_format(&stamped), Ok(BinaryFormat::Other));
        assert_eq!(read_stamped(&stamped).header, header);
    }
    let stamped = append_to_binary(b"M", &header, b"Z{}".to_vec(), b"", 0);
    assert_eq!(refusal(stamped).message(""), "Unknown MS-DOS file");
}

#[test]
fn headers_that_lie_past_the_end_cannot_be_read() {
    let footer = |header_len: u64, header: &[u8]| {
        let digest: [u8; 32] = Sha256::digest(header).into();
        let encoded = encode_footer(header_len, 0, digest, [0; 32]);
        decode_footer(&encoded).unwrap().unwrap()
    };

    let past_end = read_runtime_data_payload(b"abc", Target::Other, 4, &footer(1, b"d"));
    assert_eq!(refusal(past_end), RuntimeDataError::UnexpectedEof);
    let empty = read_runtime_data_payload(b"abc", Target::Other, 4, &footer(0, b""));
    assert!(empty.ok().unwrap().unwrap().header_bytes.is_empty());
    let encoded = encode_footer(2, 0, Sha256::digest(b"bc").into(), [0; 32]);
    let found = read_runtime_data_at_footer(b"abc", Target::Other, 3, 0, &encoded);
    assert_eq!(found.ok().unwrap().unwrap().header_bytes, b"bc");
    let past_end = read_runtime_data_at_footer(b"abc", Target::Other, 9, 0, &encoded);
    assert_eq!(refusal(past_end), RuntimeDataError::UnexpectedEof);
}
