//! Stamping and reading Mach-O executables.

use conda_ship::align::align_up;
use conda_ship::capability::{validate_runtime_template_reader, MACHO_READER_LAYOUT_KIND};
use conda_ship::error::RuntimeDataError;
use conda_ship::footer::{encode_footer, FOOTER_LEN};
use conda_ship::header::{InstallScheme, RuntimeConfig, RuntimeDataHeader};
use conda_ship::macho::layout::read_macho_layout;
use conda_ship::macho::{
    CPU_TYPE_ARM64, CPU_TYPE_X86_64, MACHO_CODE_SIGNATURE_LEN, MACHO_SIGNATURE_ALIGNMENT,
    MAX_MACHO_LOAD_COMMAND_BYTES,
};
use conda_ship::object_file::MACHO_HEADER_LEN;
use conda_ship::runtime_data::{append_to_binary, RuntimeData};
use conda_ship::runtime_reader::read_from_file;
use conda_ship::snapshot::check_bundle_path;
use serde_json::Value;
use sha2::{Digest, Sha256};

fn header_json(header: &RuntimeDataHeader) -> Vec<u8> {
    let mut config = serde_json::Map::new();
    config.insert("channels".to_string(), texts(&header.runtime_config.channels));
    config.insert("packages".to_string(), texts(&header.runtime_config.packages));
    if let Some(condarc) = &header.runtime_config.condarc {
        config.insert("condarc".to_string(), Value::String(condarc.clone()));
    }
    config.insert("freeze_base".to_string(), Value::Bool(header.runtime_config.freeze_base));

    let mut object = serde_json::Map::new();
    object.insert("schema_version".to_string(), Value::from(header.schema_version));
    let scheme = match header.install_scheme {
        InstallScheme::CondaHome => "conda-home",
        InstallScheme::UserData => "user-data",
    };
    for (key, value) in [
        ("artifact_name", header.artifact_name.as_str()),
        ("runtime_name", header.runtime_name.as_str()),
        ("runtime_version", header.runtime_version.as_str()),
        ("artifact_layout", header.artifact_layout.as_str()),
        ("platform", header.platform.as_str()),
        ("embedded_artifact_name", header.embedded_artifact_name.as_str()),
        ("delegate_executable", header.delegate_executable.as_str()),
        ("install_scheme", scheme),
        ("install_name", header.install_name.as_str()),
        ("metadata_file", header.metadata_file.as_str()),
        ("bundle_env_var", header.bundle_env_var.as_str()),
        ("offline_env_var", header.offline_env_var.as_str()),
        ("docs_url", header.docs_url.as_str()),
        ("runtime_lock", header.runtime_lock.as_str()),
    ] {
        object.insert(key.to_string(), Value::String(value.to_string()));
    }
    if let Some(installer) = &header.installer {
        object.insert("installer".to_string(), Value::String(installer.clone()));
    }
    object.insert("runtime_config".to_string(), Value::Object(config));
    serde_json::to_vec(&Value::Object(object)).unwrap()
}

fn texts(list: &[String]) -> Value {
    Value::Array(list.iter().map(|text| Value::String(text.clone())).collect())
}

fn text(value: &Value, key: &str) -> String {
    value[key].as_str().unwrap().to_string()
}

fn list(value: &Value, key: &str) -> Vec<String> {
    value[key].as_array().unwrap().iter().map(|text| text.as_str().unwrap().to_string()).collect()
}

fn parse_header(bytes: &[u8]) -> RuntimeDataHeader {
    let value: Value = serde_json::from_slice(bytes).unwrap();
    RuntimeDataHeader {
        schema_version: value["schema_version"].as_u64().unwrap() as u32,
        artifact_name: text(&value, "artifact_name"),
        runtime_name: text(&value, "runtime_name"),
        runtime_version: text(&value, "runtime_version"),
        artifact_layout: text(&value, "artifact_layout"),
        platform: text(&value, "platform"),
        embedded_artifact_name: text(&value, "embedded_artifact_name"),
        delegate_executable: text(&value, "delegate_executable"),
        install_scheme: match value["install_scheme"].as_str().unwrap() {
            "conda-home" => InstallScheme::CondaHome,
            "user-data" => InstallScheme::UserData,
            other => panic!("unknown install scheme {other}"),
        },
        install_name: text(&value, "install_name"),
        metadata_file: text(&value, "metadata_file"),
        bundle_env_var: text(&value, "bundle_env_var"),
        offline_env_var: text(&value, "offline_env_var"),
        docs_url: text(&value, "docs_url"),
        installer: value["installer"].as_str().map(|text| text.to_string()),
        update: None,
        runtime_config: RuntimeConfig {
            channels: list(&value["runtime_config"], "channels"),
            packages: list(&value["runtime_config"], "packages"),
            condarc: value["runtime_config"]["condarc"].as_str().map(|text| text.to_string()),
            freeze_base: value["runtime_config"]["freeze_base"].as_bool().unwrap(),
        },
        runtime_lock: text(&value, "runtime_lock"),
    }
}

fn append(
    image: &[u8],
    header: &RuntimeDataHeader,
    bundle: &[u8],
) -> Result<Vec<u8>, RuntimeDataError> {
    let bundle_len = bundle.len() as u64;
    let stamped = append_to_binary(image, header, header_json(header), bundle, bundle_len)?;
    let written = parse_header(&stamped.located.header_bytes);
    stamped.confirm(written, header, bundle_len)
}

fn read(image: &[u8]) -> Result<Option<RuntimeData>, RuntimeDataError> {
    match read_from_file(image)? {
        None => Ok(None),
        Some(located) => {
            let header = parse_header(&located.header_bytes);
            Ok(Some(RuntimeData::from_located(&located, header)?))
        }
    }
}

fn read_stamped(image: &[u8]) -> RuntimeData {
    match read(image) {
        Ok(Some(data)) => data,
        Ok(None) => panic!("no runtime data"),
        Err(error) => panic!("{error:?}"),
    }
}

fn refusal<T>(result: Result<T, RuntimeDataError>) -> RuntimeDataError {
    match result {
        Ok(_) => panic!("the image was accepted"),
        Err(error) => error,
    }
}

fn append_refusal(image: &[u8], name: &str) -> String {
    refusal(append(image, &RuntimeDataHeader::for_name(name), b"")).message("")
}

fn read_refusal(image: &[u8]) -> String {
    refusal(read(image)).message("")
}

fn write_u32(bytes: &mut [u8], offset: usize, value: u32) {
    bytes[offset..offset + 4].copy_from_slice(&value.to_le_bytes());
}

fn write_u64(bytes: &mut [u8], offset: usize, value: u64) {
    bytes[offset..offset + 8].copy_from_slice(&value.to_le_bytes());
}

fn u32_at(bytes: &[u8], offset: usize) -> u32 {
    u32::from_le_bytes(bytes[offset..offset + 4].try_into().unwrap())
}

fn u64_at(bytes: &[u8], offset: usize) -> u64 {
    u64::from_le_bytes(bytes[offset..offset + 8].try_into().unwrap())
}

fn runtime_payload(header: &RuntimeDataHeader) -> Vec<u8> {
    let mut payload = header_json(header);
    let header_sha256: [u8; 32] = Sha256::digest(&payload).into();
    let bundle_sha256: [u8; 32] = Sha256::digest([]).into();
    let footer = encode_footer(payload.len() as u64, 0, header_sha256, bundle_sha256);
    payload.extend_from_slice(&footer);
    payload
}

fn reader_capability_bytes(layout_kind: u32) -> [u8; 48] {
    let mut record = [0_u8; 48];
    record[..16].copy_from_slice(b"CONDA_SHIP_READ1");
    write_u32(&mut record, 16, 1);
    write_u32(&mut record, 20, 1);
    write_u32(&mut record, 24, layout_kind);
    record
}

fn add_reader_capability(image: &mut [u8], offset: usize, layout_kind: u32) {
    image[offset..offset + 48].copy_from_slice(&reader_capability_bytes(layout_kind));
}

fn command_offset(bytes: &[u8], wanted: u32) -> usize {
    let command_count = u32_at(bytes, 16);
    let mut offset = MACHO_HEADER_LEN;
    for _ in 0..command_count {
        if u32_at(bytes, offset) == wanted {
            return offset;
        }
        offset += u32_at(bytes, offset + 4) as usize;
    }
    panic!("Mach-O command {wanted:#x} not found");
}

/// A small executable with a `__TEXT` and a `__LINKEDIT` segment.
fn macho_fixture(cpu_type: u32, with_signature: bool) -> Vec<u8> {
    const SEGMENT_LEN: usize = 72;
    const SECTION_LEN: usize = 80;
    const BUILD_VERSION_LEN: usize = 24;
    const ENTRY_POINT_LEN: usize = 24;
    const DYLINKER_LEN: usize = 32;

    let mut bytes = vec![0_u8; 0x400];
    bytes[0x300..].fill(0xa5);

    let text_len = SEGMENT_LEN + 2 * SECTION_LEN;
    let commands_len = text_len
        + BUILD_VERSION_LEN
        + ENTRY_POINT_LEN
        + DYLINKER_LEN
        + SEGMENT_LEN
        + usize::from(with_signature) * MACHO_CODE_SIGNATURE_LEN;
    write_u32(&mut bytes, 0, object::macho::MH_MAGIC_64);
    write_u32(&mut bytes, 4, cpu_type);
    write_u32(
        &mut bytes,
        8,
        match cpu_type {
            CPU_TYPE_X86_64 => object::macho::CPU_SUBTYPE_X86_64_ALL.0,
            CPU_TYPE_ARM64 => object::macho::CPU_SUBTYPE_ARM64_ALL.0,
            _ => 0,
        },
    );
    write_u32(&mut bytes, 12, object::macho::MH_EXECUTE.0);
    write_u32(&mut bytes, 16, 5 + u32::from(with_signature));
    write_u32(&mut bytes, 20, commands_len as u32);
    write_u32(&mut bytes, 24, object::macho::MH_DYLDLINK.0 | object::macho::MH_PIE.0);

    let text = MACHO_HEADER_LEN;
    write_u32(&mut bytes, text, object::macho::LC_SEGMENT_64.0);
    write_u32(&mut bytes, text + 4, text_len as u32);
    bytes[text + 8..text + 14].copy_from_slice(b"__TEXT");
    write_u64(&mut bytes, text + 24, 0x1_0000_0000);
    write_u64(&mut bytes, text + 32, 0x1000);
    write_u64(&mut bytes, text + 40, 0);
    write_u64(&mut bytes, text + 48, 0x280);
    write_u32(&mut bytes, text + 56, 5);
    write_u32(&mut bytes, text + 60, 5);
    write_u32(&mut bytes, text + 64, 2);

    let section = text + SEGMENT_LEN;
    bytes[section..section + 6].copy_from_slice(b"__text");
    bytes[section + 16..section + 22].copy_from_slice(b"__TEXT");
    write_u64(&mut bytes, section + 32, 0x1_0000_0200);
    write_u64(&mut bytes, section + 40, 0x40);
    write_u32(&mut bytes, section + 48, 0x200);

    let capability = section + SECTION_LEN;
    bytes[capability..capability + 14].copy_from_slice(b"__cship_reader");
    bytes[capability + 16..capability + 22].copy_from_slice(b"__TEXT");
    write_u64(&mut bytes, capability + 32, 0x1_0000_0240);
    write_u64(&mut bytes, capability + 40, 48);
    write_u32(&mut bytes, capability + 48, 0x240);

    let mut cursor = text + text_len;
    write_u32(&mut bytes, cursor, object::macho::LC_BUILD_VERSION.0);
    write_u32(&mut bytes, cursor + 4, BUILD_VERSION_LEN as u32);
    write_u32(&mut bytes, cursor + 8, object::macho::PLATFORM_MACOS.0);
    cursor += BUILD_VERSION_LEN;

    write_u32(&mut bytes, cursor, object::macho::LC_MAIN.0);
    write_u32(&mut bytes, cursor + 4, ENTRY_POINT_LEN as u32);
    write_u64(&mut bytes, cursor + 8, 0x200);
    cursor += ENTRY_POINT_LEN;

    write_u32(&mut bytes, cursor, object::macho::LC_LOAD_DYLINKER.0);
    write_u32(&mut bytes, cursor + 4, DYLINKER_LEN as u32);
    write_u32(&mut bytes, cursor + 8, 12);
    bytes[cursor + 12..cursor + 26].copy_from_slice(b"/usr/lib/dyld\0");
    cursor += DYLINKER_LEN;

    if with_signature {
        write_u32(&mut bytes, cursor, object::macho::LC_CODE_SIGNATURE.0);
        write_u32(&mut bytes, cursor + 4, MACHO_CODE_SIGNATURE_LEN as u32);
        write_u32(&mut bytes, cursor + 8, 0x300);
        write_u32(&mut bytes, cursor + 12, 0x100);
        cursor += MACHO_CODE_SIGNATURE_LEN;
    }

    let linkedit = cursor;
    write_u32(&mut bytes, linkedit, object::macho::LC_SEGMENT_64.0);
    write_u32(&mut bytes, linkedit + 4, SEGMENT_LEN as u32);
    bytes[linkedit + 8..linkedit + 18].copy_from_slice(b"__LINKEDIT");
    write_u64(&mut bytes, linkedit + 24, 0x1_0000_1000);
    write_u64(&mut bytes, linkedit + 32, 0x1000);
    write_u64(&mut bytes, linkedit + 40, 0x280);
    write_u64(&mut bytes, linkedit + 48, 0x180);
    write_u32(&mut bytes, linkedit + 56, 1);
    write_u32(&mut bytes, linkedit + 60, 1);

    assert_eq!(linkedit + SEGMENT_LEN, MACHO_HEADER_LEN + commands_len);
    bytes
}

/// Signs an unsigned executable, as a platform tool does.
fn add_macho_signature(image: &mut Vec<u8>, signature_prefix: &[u8], signature_len: u64) -> u64 {
    assert!(signature_len >= signature_prefix.len() as u64);
    let layout = read_macho_layout(image).unwrap();
    assert!(layout.code_signature.is_none());
    let signature_offset = align_up(image.len() as u64, MACHO_SIGNATURE_ALIGNMENT).unwrap();
    let signature_end = signature_offset.checked_add(signature_len).unwrap();
    assert!(signature_end <= u64::from(u32::MAX));

    let command_offset = layout.prefix_len;
    assert!(layout
        .first_section_offset
        .is_some_and(|offset| (command_offset + MACHO_CODE_SIGNATURE_LEN) as u64 <= offset));
    write_u32(image, 16, layout.command_count + 1);
    write_u32(image, 20, layout.commands_len + MACHO_CODE_SIGNATURE_LEN as u32);
    write_u32(image, command_offset, object::macho::LC_CODE_SIGNATURE.0);
    write_u32(image, command_offset + 4, MACHO_CODE_SIGNATURE_LEN as u32);
    write_u32(image, command_offset + 8, signature_offset as u32);
    write_u32(image, command_offset + 12, signature_len as u32);

    let linkedit_filesize = signature_end - layout.linkedit_fileoff;
    let page_alignment = match layout.cpu_type {
        CPU_TYPE_X86_64 => 4 * 1024,
        CPU_TYPE_ARM64 => 16 * 1024,
        _ => unreachable!(),
    };
    write_u64(
        image,
        layout.linkedit_command_offset + 32,
        align_up(linkedit_filesize, page_alignment).unwrap(),
    );
    write_u64(image, layout.linkedit_command_offset + 48, linkedit_filesize);
    image.resize(signature_offset as usize, 0);
    image.extend_from_slice(signature_prefix);
    image.resize(signature_end as usize, 0);
    signature_offset
}

fn add_macho_linkedit_command_and_signature(
    image: &mut Vec<u8>,
    command: u32,
    data_offset: u32,
    data_size: u32,
) {
    let layout = read_macho_layout(image).unwrap();
    assert!(layout.code_signature.is_none());
    let command_offset = layout.prefix_len;
    assert!(layout
        .first_section_offset
        .is_some_and(|offset| (command_offset + 2 * MACHO_CODE_SIGNATURE_LEN) as u64 <= offset));
    write_u32(image, 16, layout.command_count + 2);
    write_u32(image, 20, layout.commands_len + 2 * MACHO_CODE_SIGNATURE_LEN as u32);
    write_u32(image, command_offset, command);
    write_u32(image, command_offset + 4, MACHO_CODE_SIGNATURE_LEN as u32);
    write_u32(image, command_offset + 8, data_offset);
    write_u32(image, command_offset + 12, data_size);
    let signature_command = command_offset + MACHO_CODE_SIGNATURE_LEN;
    write_u32(image, signature_command, object::macho::LC_CODE_SIGNATURE.0);
    write_u32(image, signature_command + 4, MACHO_CODE_SIGNATURE_LEN as u32);
    write_u32(image, signature_command + 8, 0x300);
    write_u32(image, signature_command + 12, 0x100);
}

#[test]
fn test_macho_runtime_data_extends_linkedit_and_reuses_signature_slot() {
    let binary = macho_fixture(CPU_TYPE_ARM64, true);
    let before_layout = read_macho_layout(&binary).unwrap();
    assert!(
        before_layout.code_signature.unwrap().0 < before_layout.linkedit_command_offset,
        "the fixture keeps a command after LC_CODE_SIGNATURE"
    );

    let mut header = RuntimeDataHeader::for_name("snek");
    header.runtime_lock = "lock data".to_string();
    let bytes = append(&binary, &header, b"bundle data").unwrap();

    assert_eq!(bytes[0x300], b'{');
    let layout = read_macho_layout(&bytes).unwrap();
    assert!(layout.code_signature.is_none());
    assert_eq!(layout.linkedit_fileoff + layout.linkedit_filesize, bytes.len() as u64);

    let linkedit = layout.linkedit_command_offset;
    assert_eq!(u64_at(&bytes, linkedit + 48), layout.linkedit_filesize);
    assert_eq!(u64_at(&bytes, linkedit + 32) % (16 * 1024), 0);

    let commands_end = MACHO_HEADER_LEN + layout.commands_len as usize;
    assert_eq!(
        &bytes[commands_end..commands_end + MACHO_CODE_SIGNATURE_LEN],
        &[0_u8; MACHO_CODE_SIGNATURE_LEN]
    );

    let data = read_stamped(&bytes);
    assert_eq!(data.header.runtime_name, "snek");
    assert_eq!(data.header.runtime_lock, "lock data");
    data.bundle.unwrap().verify(&bytes).unwrap();
}

#[test]
fn test_x86_64_macho_linkedit_uses_4k_alignment() {
    let binary = macho_fixture(CPU_TYPE_X86_64, true);
    let header = RuntimeDataHeader::for_name("snek");

    let bytes = append(&binary, &header, b"").unwrap();

    let layout = read_macho_layout(&bytes).unwrap();
    assert_eq!(u64_at(&bytes, layout.linkedit_command_offset + 32) % (4 * 1024), 0);
}

#[test]
fn test_unsigned_macho_uses_existing_signature_command_room() {
    let binary = macho_fixture(CPU_TYPE_X86_64, false);
    let header = RuntimeDataHeader::for_name("snek");

    let bytes = append(&binary, &header, b"").unwrap();

    let layout = read_macho_layout(&bytes).unwrap();
    assert!(layout.code_signature.is_none());
    assert_eq!(layout.linkedit_fileoff + layout.linkedit_filesize, bytes.len() as u64);
    assert_eq!(read_stamped(&bytes).header, header);
}

#[test]
fn test_unsigned_macho_without_signature_command_room_is_rejected() {
    let mut bytes = macho_fixture(CPU_TYPE_X86_64, false);
    let section_offset_field = MACHO_HEADER_LEN + 72 + 48;
    let commands_end = MACHO_HEADER_LEN + u32_at(&bytes, 20) as usize;
    write_u32(&mut bytes, section_offset_field, commands_end as u32);
    let entry_point = command_offset(&bytes, object::macho::LC_MAIN.0);
    write_u64(&mut bytes, entry_point + 8, commands_end as u64);
    let before = bytes.clone();

    let error = append_refusal(&bytes, "snek");

    assert!(error.contains("header has no room for a code signature command"), "{error}");
    assert_eq!(bytes, before);
}

#[test]
fn test_macho_linkedit_cannot_overlap_load_commands() {
    let mut bytes = macho_fixture(CPU_TYPE_ARM64, true);
    let file_len = bytes.len() as u64;
    let layout = read_macho_layout(&bytes).unwrap();
    let signature_command_offset = layout.code_signature.unwrap().0;
    let malicious_offset = layout.prefix_len as u64 - 8;

    write_u64(&mut bytes, layout.linkedit_command_offset + 40, malicious_offset);
    write_u64(&mut bytes, layout.linkedit_command_offset + 48, file_len - malicious_offset);
    write_u32(&mut bytes, signature_command_offset + 8, malicious_offset as u32);
    write_u32(&mut bytes, signature_command_offset + 12, (file_len - malicious_offset) as u32);
    let before = bytes.clone();

    let error = append_refusal(&bytes, "snek");

    assert!(
        error.contains("segments overlap") || error.contains("overlaps its load commands"),
        "{error}"
    );
    assert_eq!(bytes, before);
}

#[test]
fn test_macho_load_command_count_is_bounded() {
    let mut bytes = macho_fixture(CPU_TYPE_ARM64, true);
    write_u32(&mut bytes, 16, u32::MAX);
    let before = bytes.clone();

    let error = append_refusal(&bytes, "snek");

    assert!(error.contains("count exceeds its command table"), "{error}");
    assert_eq!(bytes, before);
}

#[test]
fn test_macho_load_command_allocation_is_bounded() {
    let mut bytes = macho_fixture(CPU_TYPE_ARM64, true);
    write_u32(&mut bytes, 20, MAX_MACHO_LOAD_COMMAND_BYTES + 1);

    let error = read_refusal(&bytes);

    assert!(error.contains("command table is too large"));
}

#[test]
fn test_macho_writer_rejects_non_executable_template_without_modifying_input() {
    let mut bytes = macho_fixture(CPU_TYPE_ARM64, true);
    write_u32(&mut bytes, 12, object::macho::MH_DYLIB.0);
    let before = bytes.clone();

    let error = append_refusal(&bytes, "not-executable");

    assert!(error.contains("not an executable image"), "{error}");
    assert_eq!(bytes, before);
}

#[test]
fn test_macho_writer_rejects_non_macos_template_without_modifying_input() {
    let mut bytes = macho_fixture(CPU_TYPE_ARM64, true);
    let build_version = command_offset(&bytes, object::macho::LC_BUILD_VERSION.0);
    write_u32(&mut bytes, build_version + 8, object::macho::PLATFORM_IOS.0);
    let before = bytes.clone();

    let error = append_refusal(&bytes, "ios-template");

    assert!(error.contains("unsupported platform"), "{error}");
    assert_eq!(bytes, before);
}

#[test]
fn test_macho_writer_rejects_entry_point_outside_executable_data() {
    let mut bytes = macho_fixture(CPU_TYPE_ARM64, true);
    let entry_point = command_offset(&bytes, object::macho::LC_MAIN.0);
    write_u64(&mut bytes, entry_point + 8, 0x300);
    let before = bytes.clone();

    let error = append_refusal(&bytes, "invalid-entry-point");

    assert!(error.contains("entry point is outside executable file data"), "{error}");
    assert_eq!(bytes, before);
}

#[test]
fn test_macho_writer_rejects_platform_architecture_mismatch() {
    let binary = macho_fixture(CPU_TYPE_X86_64, false);
    let before = binary.clone();
    let mut header = RuntimeDataHeader::for_name("wrong-architecture");
    header.platform = "osx-arm64".to_string();

    let error = refusal(append(&binary, &header, b""));

    assert!(error.message("osx-arm64").contains("does not match platform"));
    assert_eq!(
        error.message("osx-arm64"),
        "Mach-O runtime template CPU type 0x1000007 with subtype 0x3 does not match platform \
         osx-arm64"
    );
    assert_eq!(binary, before);
}

#[test]
fn test_macho_section_range_overflow_is_rejected() {
    let mut bytes = macho_fixture(CPU_TYPE_ARM64, true);
    let section = MACHO_HEADER_LEN + 72;
    write_u64(&mut bytes, section + 40, u64::MAX);

    let error = read_refusal(&bytes);

    assert!(error.contains("section virtual range overflow"));
}

#[test]
fn test_macho_overlapping_virtual_segments_are_rejected() {
    let mut bytes = macho_fixture(CPU_TYPE_ARM64, true);
    let layout = read_macho_layout(&bytes).unwrap();
    write_u64(&mut bytes, layout.linkedit_command_offset + 24, 0x1_0000_0800);

    let error = read_refusal(&bytes);
    assert!(error.contains("virtual segments overlap"));
}

#[test]
fn test_universal_macho_is_not_stamped_as_an_overlay() {
    let mut bytes = [0_u8; 16];
    bytes[..4].copy_from_slice(&0xbebafeca_u32.to_le_bytes());

    let error = append_refusal(&bytes, "snek");

    assert!(error.contains("universal Mach-O"), "{error}");
    assert_eq!(bytes.len(), 16);
}

#[test]
fn test_truncated_macho_magic_is_not_stamped_as_generic_overlay() {
    let bytes = object::macho::MH_MAGIC_64.to_le_bytes();

    let error = append_refusal(&bytes, "snek");

    assert!(error.contains("failed to fill whole buffer"));
    assert_eq!(bytes, object::macho::MH_MAGIC_64.to_le_bytes());
}

#[test]
fn test_read_macho_runtime_data_before_platform_signature() {
    let header = RuntimeDataHeader::for_name("snek");
    let mut bytes = append(&macho_fixture(CPU_TYPE_X86_64, false), &header, b"").unwrap();
    add_macho_signature(&mut bytes, b"signature", 128 * 1024);

    let data = read_stamped(&bytes);
    assert_eq!(data.header.runtime_name, "snek");
}

#[test]
fn test_macho_reader_ignores_valid_shadow_stamp_inside_signature() {
    let legitimate = RuntimeDataHeader::for_name("legitimate");
    let mut bytes = append(&macho_fixture(CPU_TYPE_ARM64, false), &legitimate, b"").unwrap();
    let forged = runtime_payload(&RuntimeDataHeader::for_name("forged"));
    add_macho_signature(&mut bytes, &forged, 64 * 1024);

    let data = read_stamped(&bytes);
    assert_eq!(data.header.runtime_name, "legitimate");
}

#[test]
fn test_macho_reader_rejects_corrupt_anchor_instead_of_shadow_stamp() {
    let legitimate = RuntimeDataHeader::for_name("legitimate");
    let mut bytes = append(&macho_fixture(CPU_TYPE_X86_64, false), &legitimate, b"").unwrap();
    let footer_end = bytes.len();
    let forged = runtime_payload(&RuntimeDataHeader::for_name("forged"));
    add_macho_signature(&mut bytes, &forged, 64 * 1024);

    bytes[footer_end - FOOTER_LEN as usize - 1] = b'!';

    let error = refusal(read_from_file(&bytes)).message("");
    assert!(error.contains("header checksum mismatch"));
}

#[test]
fn test_macho_reader_accepts_signature_larger_than_16_mib() {
    let header = RuntimeDataHeader::for_name("large-signature");
    let mut bytes = append(&macho_fixture(CPU_TYPE_X86_64, false), &header, b"").unwrap();
    add_macho_signature(&mut bytes, b"signature", 17 * 1024 * 1024);

    assert_eq!(read_stamped(&bytes).header, header);
}

#[test]
fn test_macho_signature_cannot_overlap_referenced_linkedit_data() {
    let mut bytes = macho_fixture(CPU_TYPE_ARM64, false);
    add_macho_linkedit_command_and_signature(
        &mut bytes,
        object::macho::LC_FUNCTION_STARTS.0,
        0x300,
        0x20,
    );
    let before = bytes.clone();

    let error = append_refusal(&bytes, "overlapping-signature");

    assert!(error.contains("overlaps referenced file data"));
    assert_eq!(bytes, before);
}

#[test]
fn test_macho_zero_length_linkedit_range_does_not_constrain_signature() {
    let mut bytes = macho_fixture(CPU_TYPE_ARM64, false);
    add_macho_linkedit_command_and_signature(
        &mut bytes,
        object::macho::LC_DATA_IN_CODE.0,
        0x300,
        0,
    );

    assert!(read(&bytes).unwrap().is_none());
}

#[test]
fn test_macho_template_requires_authenticated_reader_capability() {
    let mut bytes = macho_fixture(CPU_TYPE_ARM64, false);
    let error = validate_runtime_template_reader(&bytes).unwrap_err();
    assert!(error.message("").contains("capability record is invalid"));

    add_reader_capability(&mut bytes, 0x240, MACHO_READER_LAYOUT_KIND);
    validate_runtime_template_reader(&bytes).unwrap();
}

#[test]
fn test_macho_marker_in_ordinary_read_only_section_cannot_claim_reader_capability() {
    let mut bytes = macho_fixture(CPU_TYPE_ARM64, false);
    add_reader_capability(&mut bytes, 0x200, MACHO_READER_LAYOUT_KIND);

    let error = validate_runtime_template_reader(&bytes).unwrap_err();
    assert!(error.message("").contains("capability record is invalid"));
}

#[test]
fn test_macho_signature_bytes_cannot_claim_reader_capability() {
    let mut bytes = macho_fixture(CPU_TYPE_ARM64, true);
    add_reader_capability(&mut bytes, 0x310, MACHO_READER_LAYOUT_KIND);

    let error = validate_runtime_template_reader(&bytes).unwrap_err();
    assert!(error.message("").contains("capability record is invalid"));
}

#[test]
fn test_append_failure_leaves_macho_template_byte_identical() {
    let binary = macho_fixture(CPU_TYPE_ARM64, true);
    let before = binary.clone();
    let bundle_directory_is_file = false;

    let error = check_bundle_path(bundle_directory_is_file)
        .and_then(|()| append(&binary, &RuntimeDataHeader::for_name("snek"), b""))
        .unwrap_err();

    assert!(matches!(error, RuntimeDataError::InvalidData(_)));
    assert!(error.message("").contains("not a regular file"));
    assert_eq!(binary, before);

    let header = RuntimeDataHeader::for_name("snek");
    let result = append_to_binary(&binary, &header, header_json(&header), b"", 1);
    assert!(matches!(refusal(result), RuntimeDataError::InvalidData(_)));
    assert_eq!(binary, before);
}

#[test]
fn a_bundle_has_to_have_the_length_that_was_expected() {
    let binary = macho_fixture(CPU_TYPE_ARM64, true);
    let header = RuntimeDataHeader::for_name("snek");

    for (expected_len, message) in [
        (8, "runtime data bundle changed while being read"),
        (5, "runtime data bundle grew while being read"),
    ] {
        let result = append_to_binary(&binary, &header, header_json(&header), b"bundle", expected_len);
        assert_eq!(refusal(result).message(""), message);
    }
}

#[test]
fn stamping_a_macho_executable_again_puts_the_new_data_at_its_end() {
    let first = RuntimeDataHeader::for_name("first");
    let second = RuntimeDataHeader::for_name("second");
    let once = append(&macho_fixture(CPU_TYPE_ARM64, false), &first, b"").unwrap();
    let twice = append(&once, &second, b"").unwrap();

    assert_eq!(read_stamped(&twice).header, second);
}

#[test]
fn a_signed_stamped_executable_can_be_stamped_anew() {
    let first = RuntimeDataHeader::for_name("first");
    let second = RuntimeDataHeader::for_name("second");
    let mut bytes = append(&macho_fixture(CPU_TYPE_ARM64, false), &first, b"").unwrap();
    add_macho_signature(&mut bytes, b"signature", 0x100);
    let twice = append(&bytes, &second, b"").unwrap();

    assert!(read_macho_layout(&twice).unwrap().code_signature.is_none());
    assert_eq!(read_stamped(&twice).header, second);
}

#[test]
fn signature_contents_do_not_change_what_is_read() {
    let header = RuntimeDataHeader::for_name("snek");
    let mut bytes = append(&macho_fixture(CPU_TYPE_X86_64, false), &header, b"bundle").unwrap();
    let signature = add_macho_signature(&mut bytes, b"signature", 0x200) as usize;
    let unchanged = read_stamped(&bytes);
    bytes[signature..].fill(0xff);
    let changed = read_stamped(&bytes);

    assert_eq!(changed.header, unchanged.header);
    assert_eq!(changed.bundle.unwrap().offset, unchanged.bundle.unwrap().offset);
}

#[test]
fn padding_before_a_signature_has_to_be_zero() {
    let mut header = RuntimeDataHeader::for_name("padded");
    while (header_json(&header).len() + 100) % 16 == 0 {
        header.runtime_lock.push('x');
    }
    let mut bytes = append(&macho_fixture(CPU_TYPE_ARM64, false), &header, b"").unwrap();
    let end = bytes.len();
    let signature = add_macho_signature(&mut bytes, b"signature", 0x200) as usize;
    assert!(end < signature);
    bytes[signature - 1] = 1;

    assert_eq!(
        refusal(read_from_file(&bytes)).message(""),
        "runtime data footer has nonzero platform alignment padding"
    );
}

#[test]
fn macho_headers_are_refused_for_what_is_wrong_with_them() {
    for (at, value, expected) in [
        (8, 9, "unsupported Mach-O CPU subtype: 0x9"),
        (12, 6, "Mach-O runtime template is not an executable image"),
        (16, 5, "Mach-O load command size does not match header"),
        (24, 4, "Mach-O runtime template has unsupported executable flags"),
        (24, 0x22_0004, "Mach-O runtime template has unsupported executable flags"),
    ] {
        let mut bytes = macho_fixture(CPU_TYPE_ARM64, true);
        write_u32(&mut bytes, at, value);
        assert_eq!(read_refusal(&bytes), expected);
    }
    let mut other_cpu = macho_fixture(CPU_TYPE_ARM64, true);
    write_u32(&mut other_cpu, 4, 0x0100_0012);
    assert_eq!(read_refusal(&other_cpu), "unsupported 64-bit Mach-O CPU type: 0x1000012");
    assert_eq!(
        append_refusal(&other_cpu, "snek"),
        "unsupported 64-bit Mach-O CPU type: 0x1000012"
    );
}

#[test]
fn macho_commands_are_refused_for_what_is_wrong_with_them() {
    let main = object::macho::LC_MAIN.0;
    for (command, at, value, expected) in [
        (main, 0, 0x99, "unsupported Mach-O load command: 0x99"),
        (main, 0, 0x5, "legacy Mach-O thread entry points are not supported"),
        (main, 0, 0x25, "Mach-O runtime template does not target macOS"),
        (main, 0, 0x32, "Mach-O runtime template has multiple target platform commands"),
        (main, 0, 0x1b, "Mach-O runtime template has no LC_MAIN entry point"),
        (main, 0, 0x1d, "Mach-O code signature command has an invalid size"),
        (main, 0, 0x0b, "Invalid Mach-O command size"),
        (main, 0, 0x26, "Mach-O load command has an invalid size"),
        (main, 4, 4, "Invalid Mach-O load command size"),
        (main, 4, 28, "Mach-O load command has an invalid size"),
        (main, 16, 1, "Mach-O runtime template requests a custom main stack size"),
        (0xe, 8, 40, "Invalid load command string offset"),
        (0xe, 12, 0, "Mach-O runtime template uses an unsupported dynamic linker"),
        (0xe, 0, 0xc, "Mach-O runtime template must load exactly one /usr/lib/dyld"),
        (0x32, 8, 2, "Mach-O runtime template targets unsupported platform 2"),
        (0x32, 0, 0x1b, "Mach-O runtime template has no macOS target platform command"),
    ] {
        let mut bytes = macho_fixture(CPU_TYPE_ARM64, true);
        let start = command_offset(&bytes, command);
        write_u32(&mut bytes, start + at, value);
        assert_eq!(read_refusal(&bytes), expected);
    }
}

#[test]
fn macho_segments_are_refused_for_what_is_wrong_with_them() {
    let text = MACHO_HEADER_LEN;
    for (at, value, expected) in [
        (24, u64::MAX, "Mach-O segment virtual range overflow"),
        (32, 0x100, "Mach-O segment file size exceeds its virtual size"),
        (40, 1, "Mach-O __TEXT segment has an invalid executable mapping"),
        (40, 0x300, "Mach-O segment extends past end of file"),
        (48, 0x10, "Mach-O __TEXT segment has an invalid executable mapping"),
        (8, 0x5f5f, "Mach-O section segment name does not match its segment"),
    ] {
        let mut bytes = macho_fixture(CPU_TYPE_ARM64, true);
        write_u64(&mut bytes, text + at, value);
        assert_eq!(read_refusal(&bytes), expected);
    }
    for (at, value, expected) in [
        (56, 7, "Mach-O segment permits writable executable memory"),
        (56, 4, "Mach-O segment initial protections exceed maximum protections"),
        (60, 1, "Mach-O __TEXT segment has an invalid executable mapping"),
        (64, 1, "Mach-O load command has an invalid size"),
        (72 + 48, 0x3f0, "Mach-O section extends outside its file segment"),
        (72 + 80 + 64, 1, "Mach-O reader capability section has an invalid layout"),
    ] {
        let mut bytes = macho_fixture(CPU_TYPE_ARM64, true);
        write_u32(&mut bytes, text + at, value);
        assert_eq!(read_refusal(&bytes), expected);
    }
}

#[test]
fn macho_linkedit_is_refused_for_what_is_wrong_with_it() {
    for (at, value, expected) in [
        (40, 0x270, "Mach-O file segments overlap"),
        (48, 0x170, "Mach-O __LINKEDIT segment is not the final file segment"),
        (24, 0x1000, "Mach-O __LINKEDIT segment is not the final file segment"),
    ] {
        let mut bytes = macho_fixture(CPU_TYPE_ARM64, true);
        let linkedit = read_macho_layout(&bytes).unwrap().linkedit_command_offset;
        write_u64(&mut bytes, linkedit + at, value);
        assert_eq!(read_refusal(&bytes), expected);
    }
    let mut writable = macho_fixture(CPU_TYPE_ARM64, true);
    let linkedit = read_macho_layout(&writable).unwrap().linkedit_command_offset;
    write_u32(&mut writable, linkedit + 56, 3);
    assert_eq!(
        read_refusal(&writable),
        "Mach-O __LINKEDIT segment must be read-only and section-free"
    );
    let mut unnamed = macho_fixture(CPU_TYPE_ARM64, true);
    unnamed[linkedit + 8] = b'x';
    assert_eq!(read_refusal(&unnamed), "Mach-O binary has no __LINKEDIT segment");
}

#[test]
fn macho_signatures_are_refused_for_what_is_wrong_with_them() {
    for (at, value, expected) in [
        (8, 0x2f0, "Mach-O code signature is not the final data in the file"),
        (12, 0, "Mach-O code signature is empty"),
    ] {
        let mut bytes = macho_fixture(CPU_TYPE_ARM64, true);
        let command = read_macho_layout(&bytes).unwrap().code_signature.unwrap().0;
        write_u32(&mut bytes, command + at, value);
        assert_eq!(read_refusal(&bytes), expected);
    }
    for (offset, size, expected) in [
        (0x270, 0x190, "Mach-O code signature precedes __LINKEDIT"),
        (0x308, 0xf8, "Mach-O code signature offset is not aligned"),
    ] {
        let mut bytes = macho_fixture(CPU_TYPE_ARM64, true);
        let command = read_macho_layout(&bytes).unwrap().code_signature.unwrap().0;
        write_u32(&mut bytes, command + 8, offset);
        write_u32(&mut bytes, command + 12, size);
        assert_eq!(read_refusal(&bytes), expected);
    }
}

#[test]
fn link_edit_data_has_to_lie_in_its_segment() {
    for (offset, size, expected) in [
        (0x280, 0x80, None),
        (0x27f, 0x10, Some("Mach-O link-edit data extends outside __LINKEDIT")),
        (0x3f0, 0x20, Some("Mach-O load command references data past end of file")),
    ] {
        let mut bytes = macho_fixture(CPU_TYPE_ARM64, false);
        let start = read_macho_layout(&bytes).unwrap().prefix_len;
        let commands_len = u32_at(&bytes, 20);
        write_u32(&mut bytes, 16, 6);
        write_u32(&mut bytes, 20, commands_len + 16);
        write_u32(&mut bytes, start, object::macho::LC_DYLD_CHAINED_FIXUPS.0);
        write_u32(&mut bytes, start + 4, 16);
        write_u32(&mut bytes, start + 8, offset);
        write_u32(&mut bytes, start + 12, size);
        match expected {
            None => {
                let layout = read_macho_layout(&bytes).unwrap();
                assert_eq!(layout.max_non_signature_data_end, 0x300);
            }
            Some(message) => assert_eq!(read_refusal(&bytes), message),
        }
    }
}

#[test]
fn a_macho_signature_slot_has_to_be_zero() {
    let mut bytes = macho_fixture(CPU_TYPE_ARM64, false);
    let slot = read_macho_layout(&bytes).unwrap().prefix_len;
    bytes[slot] = 1;

    assert_eq!(
        append_refusal(&bytes, "snek"),
        "Mach-O code signature command slot is not zero-filled"
    );
}

#[test]
fn big_endian_and_32_bit_macho_files_are_not_supported() {
    for (magic, expected) in [
        ([0xfe, 0xed, 0xfa, 0xcf], "big-endian 64-bit Mach-O binaries are not supported"),
        ([0xce, 0xfa, 0xed, 0xfe], "32-bit Mach-O binaries are not supported"),
        ([0xfe, 0xed, 0xfa, 0xce], "32-bit Mach-O binaries are not supported"),
        ([0xca, 0xfe, 0xba, 0xbf], "universal Mach-O binaries are not supported"),
    ] {
        assert_eq!(read_refusal(&magic), expected);
    }
    let mut big_endian = macho_fixture(CPU_TYPE_ARM64, false);
    big_endian[..4].copy_from_slice(&[0xfe, 0xed, 0xfa, 0xcf]);
    let error = read_macho_layout(&big_endian).unwrap_err();
    assert_eq!(error.message(""), "big-endian Mach-O binaries are not supported");
    let mut unknown = macho_fixture(CPU_TYPE_ARM64, false);
    unknown[0] = 0;
    let error = read_macho_layout(&unknown).unwrap_err();
    assert_eq!(error.message(""), "Unsupported Mach-O header");
}

#[test]
fn macho_layouts_have_the_offsets_of_their_commands() {
    let layout = read_macho_layout(&macho_fixture(CPU_TYPE_ARM64, true)).unwrap();

    assert_eq!(layout.cpu_type, CPU_TYPE_ARM64);
    assert_eq!(layout.command_count, 6);
    assert_eq!(layout.commands_len, 232 + 24 + 24 + 32 + 16 + 72);
    assert_eq!(layout.prefix_len, 432);
    assert_eq!(layout.first_section_offset, Some(0x200));
    assert_eq!(layout.linkedit_command_offset, 360);
    assert_eq!(layout.linkedit_vmaddr, 0x1_0000_1000);
    assert_eq!((layout.linkedit_fileoff, layout.linkedit_filesize), (0x280, 0x180));
    assert_eq!(layout.code_signature, Some((344, 0x300, 0x100)));
    assert_eq!(layout.reader_capability, Some((0x240, 48)));
    assert_eq!(layout.max_non_signature_data_end, 0);
}

#[test]
fn a_macho_executable_is_stamped_where_its_linkedit_segment_has_room_to_grow() {
    let header = RuntimeDataHeader::for_name("snek");
    let bundle = vec![7_u8; 0x10000];
    for with_signature in [false, true] {
        let mut bytes = macho_fixture(CPU_TYPE_ARM64, with_signature);
        let linkedit = read_macho_layout(&bytes).unwrap().linkedit_command_offset;
        let vmsize = u64_at(&bytes, linkedit + 32);

        write_u64(&mut bytes, linkedit + 24, u64::MAX - 0x20000);
        let stamped = append(&bytes, &header, &bundle).unwrap();
        let embedded = read_stamped(&stamped).bundle.unwrap();
        assert_eq!(embedded.open_verified(&stamped).unwrap(), bundle);

        write_u64(&mut bytes, linkedit + 24, u64::MAX - vmsize);
        assert!(read_macho_layout(&bytes).is_ok());
        assert_eq!(
            refusal(append(&bytes, &header, &bundle)).message(""),
            "Mach-O segment virtual range overflow"
        );
    }
}

#[test]
fn a_stamp_that_is_shorter_than_the_signature_it_replaces_reads_back() {
    let mut bytes = macho_fixture(CPU_TYPE_ARM64, false);
    add_macho_signature(&mut bytes, b"", 0x4000);
    let header = RuntimeDataHeader::for_name("snek");

    let stamped = append(&bytes, &header, b"bundle").unwrap();

    assert!(stamped.len() < bytes.len());
    assert!(read_macho_layout(&stamped).unwrap().code_signature.is_none());
    let data = read_stamped(&stamped);
    assert!(data.header.is_same_as(&header));
    assert_eq!(data.bundle.unwrap().open_verified(&stamped).unwrap(), b"bundle");
}
