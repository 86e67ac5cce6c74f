//! Stamping and reading PE images.

use conda_ship::align::align_up;
use conda_ship::capability::{validate_runtime_template_reader, PE_READER_LAYOUT_KIND};
use conda_ship::error::RuntimeDataError;
use conda_ship::footer::{decode_footer, encode_footer, FOOTER_LEN};
use conda_ship::header::{InstallScheme, RuntimeConfig, RuntimeDataHeader};
use conda_ship::object_file::SECTION_HEADER_LEN;
use conda_ship::pe::certificate::MAX_PE_CERTIFICATE_ENTRIES;
use conda_ship::pe::content::pe_runtime_content_layout;
use conda_ship::pe::reader::read_pe_layout;
use conda_ship::pe::{
    MAX_PE_HEADER_BYTES, PE_ANCHOR_SECTION_CHARACTERISTICS, PE_CERTIFICATE_ALIGNMENT,
};
use conda_ship::runtime_data::{append_to_binary, RuntimeData};
use conda_ship::runtime_reader::{ensure_zero_file_range, read_from_file};
use serde_json::Value;
use sha2::{Digest, Sha256};

fn header_json(header: &RuntimeDataHeader) -> Vec<u8> {
    let mut config = serde_json::Map::new();
    config.insert("channels".to_string(), texts(&header.runtime_config.channels));
    config.insert("packages".to_string(), texts(&header.runtime_config.packages));
    if let Some(condarc) = &header.runtime_config.condarc {
        config.insert("condarc".to_string(), Value::String(condarc.clone()));
    }
    config.insert("freeze_base".to_string(), Value::Bool(header.runtime_config.freeze_base));

    let mut object = serde_json::Map::new();
    object.insert("schema_version".to_string(), Value::from(header.schema_version));
    let scheme = match header.install_scheme {
        InstallScheme::CondaHome => "conda-home",
        InstallScheme::UserData => "user-data",
    };
    for (key, value) in [
        ("artifact_name", header.artifact_name.as_str()),
        ("runtime_name", header.runtime_name.as_str()),
        ("runtime_version", header.runtime_version.as_str()),
        ("artifact_layout", header.artifact_layout.as_str()),
        ("platform", header.platform.as_str()),
        ("embedded_artifact_name", header.embedded_artifact_name.as_str()),
        ("delegate_executable", header.delegate_executable.as_str()),
        ("install_scheme", scheme),
        ("install_name", header.install_name.as_str()),
        ("metadata_file", header.metadata_file.as_str()),
        ("bundle_env_var", header.bundle_env_var.as_str()),
        ("offline_env_var", header.offline_env_var.as_str()),
        ("docs_url", header.docs_url.as_str()),
        ("runtime_lock", header.runtime_lock.as_str()),
    ] {
        object.insert(key.to_string(), Value::String(value.to_string()));
    }
    if let Some(installer) = &header.installer {
        object.insert("installer".to_string(), Value::String(installer.clone()));
    }
    object.insert("runtime_config".to_string(), Value::Object(config));
    serde_json::to_vec(&Value::Object(object)).unwrap()
}

fn texts(list: &[String]) -> Value {
    Value::Array(list.iter().map(|text| Value::String(text.clone())).collect())
}

fn text(value: &Value, key: &str) -> String {
    value[key].as_str().unwrap().to_string()
}

fn list(value: &Value, key: &str) -> Vec<String> {
    value[key].as_array().unwrap().iter().map(|text| text.as_str().unwrap().to_string()).collect()
}

fn parse_header(bytes: &[u8]) -> RuntimeDataHeader {
    let value: Value = serde_json::from_slice(bytes).unwrap();
    RuntimeDataHeader {
        schema_version: value["schema_version"].as_u64().unwrap() as u32,
        artifact_name: text(&value, "artifact_name"),
        runtime_name: text(&value, "runtime_name"),
        runtime_version: text(&value, "runtime_version"),
        artifact_layout: text(&value, "artifact_layout"),
        platform: text(&value, "platform"),
        embedded_artifact_name: text(&value, "embedded_artifact_name"),
        delegate_executable: text(&value, "delegate_executable"),
        install_scheme: match value["install_scheme"].as_str().unwrap() {
            "conda-home" => InstallScheme::CondaHome,
            "user-data" => InstallScheme::UserData,
            other => panic!("unknown install scheme {other}"),
        },
        install_name: text(&value, "install_name"),
        metadata_file: text(&value, "metadata_file"),
        bundle_env_var: text(&value, "bundle_env_var"),
        offline_env_var: text(&value, "offline_env_var"),
        docs_url: text(&value, "docs_url"),
        installer: value["installer"].as_str().map(|text| text.to_string()),
        update: None,
        runtime_config: RuntimeConfig {
            channels: list(&value["runtime_config"], "channels"),
            packages: list(&value["runtime_config"], "packages"),
            condarc: value["runtime_config"]["condarc"].as_str().map(|text| text.to_string()),
            freeze_base: value["runtime_config"]["freeze_base"].as_bool().unwrap(),
        },
        runtime_lock: text(&value, "runtime_lock"),
    }
}

fn append(
    image: &[u8],
    header: &RuntimeDataHeader,
    bundle: &[u8],
) -> Result<Vec<u8>, RuntimeDataError> {
    let bundle_len = bundle.len() as u64;
    let stamped = append_to_binary(image, header, header_json(header), bundle, bundle_len)?;
    let written = parse_header(&stamped.located.header_bytes);
    stamped.confirm(written, header, bundle_len)
}

fn read(image: &[u8]) -> Result<Option<RuntimeData>, RuntimeDataError> {
    match read_from_file(image)? {
        None => Ok(None),
        Some(located) => {
            let header = parse_header(&located.header_bytes);
            Ok(Some(RuntimeData::from_located(&located, header)?))
        }
    }
}

fn read_stamped(image: &[u8]) -> RuntimeData {
    match read(image) {
        Ok(Some(data)) => data,
        Ok(None) => panic!("no runtime data"),
        Err(error) => panic!("{error:?}"),
    }
}

fn refusal<T>(result: Result<T, RuntimeDataError>) -> RuntimeDataError {
    match result {
        Ok(_) => panic!("the image was accepted"),
        Err(error) => error,
    }
}

fn append_refusal(image: &[u8], name: &str) -> String {
    refusal(append(image, &RuntimeDataHeader::for_name(name), b"")).message("")
}

fn read_refusal(image: &[u8]) -> String {
    refusal(read(image)).message("")
}

fn write_u16(bytes: &mut [u8], offset: usize, value: u16) {
    bytes[offset..offset + 2].copy_from_slice(&value.to_le_bytes());
}

fn write_u32(bytes: &mut [u8], offset: usize, value: u32) {
    bytes[offset..offset + 4].copy_from_slice(&value.to_le_bytes());
}

fn u16_at(bytes: &[u8], offset: usize) -> u16 {
    u16::from_le_bytes(bytes[offset..offset + 2].try_into().unwrap())
}

fn u32_at(bytes: &[u8], offset: usize) -> u32 {
    u32::from_le_bytes(bytes[offset..offset + 4].try_into().unwrap())
}

fn runtime_payload(header: &RuntimeDataHeader) -> Vec<u8> {
    let mut payload = header_json(header);
    let header_sha256: [u8; 32] = Sha256::digest(&payload).into();
    let bundle_sha256: [u8; 32] = Sha256::digest([]).into();
    let footer = encode_footer(payload.len() as u64, 0, header_sha256, bundle_sha256);
    payload.extend_from_slice(&footer);
    payload
}

fn reader_capability_bytes(layout_kind: u32) -> [u8; 48] {
    let mut record = [0_u8; 48];
    record[..16].copy_from_slice(b"CONDA_SHIP_READ1");
    write_u32(&mut record, 16, 1);
    write_u32(&mut record, 20, 1);
    write_u32(&mut record, 24, layout_kind);
    record
}

fn add_reader_capability(image: &mut [u8], offset: usize, layout_kind: u32) {
    image[offset..offset + 48].copy_from_slice(&reader_capability_bytes(layout_kind));
}

fn pe_offset(bytes: &[u8]) -> usize {
    u32_at(bytes, 0x3c) as usize
}

fn optional_header(bytes: &[u8]) -> usize {
    pe_offset(bytes) + 24
}

/// A small image with a `.text` section.
fn pe_fixture(is_64: bool) -> Vec<u8> {
    let pe_offset = 0x80;
    let optional_offset = pe_offset + 24;
    let optional_size = if is_64 { 240 } else { 224 };
    let section_offset = optional_offset + optional_size;
    let mut bytes = vec![0_u8; 0x400];
    bytes[..2].copy_from_slice(b"MZ");
    write_u32(&mut bytes, 0x3c, pe_offset as u32);
    write_u32(&mut bytes, pe_offset, object::pe::IMAGE_NT_SIGNATURE);
    write_u16(
        &mut bytes,
        pe_offset + 4,
        if is_64 {
            object::pe::IMAGE_FILE_MACHINE_AMD64.0
        } else {
            object::pe::IMAGE_FILE_MACHINE_I386.0
        },
    );
    write_u16(&mut bytes, pe_offset + 6, 1);
    write_u16(&mut bytes, pe_offset + 20, optional_size as u16);
    write_u16(&mut bytes, pe_offset + 22, object::pe::IMAGE_FILE_EXECUTABLE_IMAGE.0);
    write_u16(
        &mut bytes,
        optional_offset,
        if is_64 {
            object::pe::IMAGE_NT_OPTIONAL_HDR64_MAGIC
        } else {
            object::pe::IMAGE_NT_OPTIONAL_HDR32_MAGIC
        },
    );
    write_u32(&mut bytes, optional_offset + 32, 0x1000);
    write_u32(&mut bytes, optional_offset + 36, 0x200);
    write_u32(&mut bytes, optional_offset + 56, 0x2000);
    write_u32(&mut bytes, optional_offset + 60, 0x200);
    write_u16(&mut bytes, optional_offset + 68, object::pe::IMAGE_SUBSYSTEM_WINDOWS_CUI.0);
    write_u32(
        &mut bytes,
        optional_offset + if is_64 { 108 } else { 92 },
        object::pe::IMAGE_NUMBEROF_DIRECTORY_ENTRIES as u32,
    );

    bytes[section_offset..section_offset + 5].copy_from_slice(b".text");
    write_u32(&mut bytes, section_offset + 8, 0x100);
    write_u32(&mut bytes, section_offset + 12, 0x1000);
    write_u32(&mut bytes, section_offset + 16, 0x200);
    write_u32(&mut bytes, section_offset + 20, 0x200);
    write_u32(&mut bytes, section_offset + 36, 0x6000_0020);
    bytes[0x200..].fill(0xa5);
    bytes
}

fn add_pe_reader_capability_section(bytes: &mut Vec<u8>) {
    let pe_offset = pe_offset(bytes);
    let optional = optional_header(bytes);
    let capability = pe_section_table_offset(bytes) + SECTION_HEADER_LEN;
    write_u16(bytes, pe_offset + 6, 2);
    write_u32(bytes, optional + 56, 0x3000);
    bytes[capability..capability + 8].copy_from_slice(b".cscap\0\0");
    write_u32(bytes, capability + 8, 48);
    write_u32(bytes, capability + 12, 0x2000);
    write_u32(bytes, capability + 16, 0x200);
    write_u32(bytes, capability + 20, 0x400);
    write_u32(bytes, capability + 36, PE_ANCHOR_SECTION_CHARACTERISTICS);
    bytes.resize(0x600, 0);
    add_reader_capability(bytes, 0x400, PE_READER_LAYOUT_KIND);
}

fn pe_security_directory_offset(bytes: &[u8]) -> usize {
    let optional_offset = optional_header(bytes);
    optional_offset
        + match u16_at(bytes, optional_offset) {
            object::pe::IMAGE_NT_OPTIONAL_HDR32_MAGIC => 96,
            object::pe::IMAGE_NT_OPTIONAL_HDR64_MAGIC => 112,
            _ => panic!("unexpected PE optional header magic"),
        }
        + object::pe::IMAGE_DIRECTORY_ENTRY_SECURITY * 8
}

fn pe_section_table_offset(bytes: &[u8]) -> usize {
    let pe_offset = pe_offset(bytes);
    pe_offset + 24 + u16_at(bytes, pe_offset + 20) as usize
}

/// Signs an image with one certificate.
fn add_pe_certificate(bytes: &mut Vec<u8>, certificate_payload: &[u8]) -> u64 {
    let certificate_offset = bytes.len() as u64;
    assert_eq!(certificate_offset % PE_CERTIFICATE_ALIGNMENT, 0);
    let unaligned_size = 8_u64 + certificate_payload.len() as u64;
    let certificate_size = align_up(unaligned_size, PE_CERTIFICATE_ALIGNMENT).unwrap();
    let security_offset = pe_security_directory_offset(bytes);
    write_u32(bytes, security_offset, certificate_offset as u32);
    write_u32(bytes, security_offset + 4, certificate_size as u32);
    let old_len = bytes.len();
    bytes.resize(old_len + certificate_size as usize, 0);
    write_u32(bytes, old_len, certificate_size as u32);
    write_u16(bytes, old_len + 4, 0x0200);
    write_u16(bytes, old_len + 6, 0x0002);
    bytes[old_len + 8..old_len + 8 + certificate_payload.len()].copy_from_slice(certificate_payload);
    certificate_offset
}

fn add_pe_certificate_entries(bytes: &mut Vec<u8>, entry_count: u64) {
    assert_ne!(entry_count, 0);
    let certificate_offset = bytes.len() as u64;
    assert_eq!(certificate_offset % PE_CERTIFICATE_ALIGNMENT, 0);
    let certificate_size = entry_count * PE_CERTIFICATE_ALIGNMENT;
    let security_offset = pe_security_directory_offset(bytes);
    write_u32(bytes, security_offset, certificate_offset as u32);
    write_u32(bytes, security_offset + 4, certificate_size as u32);
    let old_len = bytes.len();
    bytes.resize(old_len + certificate_size as usize, 0);
    for entry_index in 0..entry_count {
        let entry_offset = old_len + (entry_index * PE_CERTIFICATE_ALIGNMENT) as usize;
        write_u32(bytes, entry_offset, PE_CERTIFICATE_ALIGNMENT as u32);
        write_u16(bytes, entry_offset + 4, 0x0200);
        write_u16(bytes, entry_offset + 6, 0x0002);
    }
}

fn stamped_fixture(is_64: bool, name: &str) -> Vec<u8> {
    append(&pe_fixture(is_64), &RuntimeDataHeader::for_name(name), b"").unwrap()
}

/// A header whose JSON does not fill a multiple of eight bytes.
fn unaligned_header(name: &str) -> RuntimeDataHeader {
    let mut header = RuntimeDataHeader::for_name(name);
    while header_json(&header).len() as u64 % PE_CERTIFICATE_ALIGNMENT == 0 {
        header.runtime_lock.push('x');
    }
    header
}

#[test]
fn test_pe32_and_pe64_use_authenticated_anchor_section() {
    for is_64 in [false, true] {
        let header = RuntimeDataHeader::for_name(if is_64 { "pe64" } else { "pe32" });
        let bytes = append(&pe_fixture(is_64), &header, b"").unwrap();

        let layout = read_pe_layout(&bytes).unwrap();
        let anchor = layout.anchor.unwrap();
        assert_eq!(anchor.raw_end, layout.max_raw_end);
        assert_eq!(layout.certificate.map(|item| item.offset), None);
        assert_eq!(bytes.len() as u64 % PE_CERTIFICATE_ALIGNMENT, 0);
        assert_eq!(read_stamped(&bytes).header, header);
    }
}

#[test]
fn test_pe_template_requires_authenticated_reader_capability() {
    let mut bytes = pe_fixture(true);
    let error = validate_runtime_template_reader(&bytes).unwrap_err();
    assert!(error.message("").contains("does not declare"));

    add_pe_reader_capability_section(&mut bytes);
    validate_runtime_template_reader(&bytes).unwrap();
}

#[test]
fn test_pe_marker_in_ordinary_read_only_section_cannot_claim_reader_capability() {
    let mut bytes = pe_fixture(true);
    add_reader_capability(&mut bytes, 0x210, PE_READER_LAYOUT_KIND);

    let error = validate_runtime_template_reader(&bytes).unwrap_err();
    assert!(error.message("").contains("does not declare"));
}

#[test]
fn test_pe_header_bytes_cannot_claim_reader_capability() {
    let mut bytes = pe_fixture(true);
    add_reader_capability(&mut bytes, 0x40, PE_READER_LAYOUT_KIND);

    let error = validate_runtime_template_reader(&bytes).unwrap_err();
    assert!(error.message("").contains("does not declare"));
}

#[test]
fn test_pe_writer_rejects_platform_architecture_mismatch() {
    let binary = pe_fixture(true);
    let before = binary.clone();
    let mut header = RuntimeDataHeader::for_name("wrong-architecture");
    header.platform = "win-arm64".to_string();

    let error = refusal(append(&binary, &header, b""));

    assert!(error.message("win-arm64").contains("does not match platform"));
    assert_eq!(
        error.message("win-arm64"),
        "PE runtime template machine 0x8664 with image kind PE32+ does not match platform win-arm64"
    );
    assert_eq!(binary, before);
}

#[test]
fn test_pe_writer_rejects_platform_image_kind_mismatch() {
    let mut bytes = pe_fixture(true);
    let pe_offset = pe_offset(&bytes);
    write_u16(&mut bytes, pe_offset + 4, object::pe::IMAGE_FILE_MACHINE_I386.0);
    let before = bytes.clone();
    let mut header = RuntimeDataHeader::for_name("wrong-image-kind");
    header.platform = "win-32".to_string();

    let error = refusal(append(&bytes, &header, b""));

    assert!(error.message("win-32").contains("image kind PE32+"));
    assert_eq!(bytes, before);
}

#[test]
fn test_pe_writer_rejects_non_executable_template() {
    let mut bytes = pe_fixture(true);
    let pe_offset = pe_offset(&bytes);
    write_u16(&mut bytes, pe_offset + 22, object::pe::IMAGE_FILE_DLL.0);
    let before = bytes.clone();

    let error = append_refusal(&bytes, "not-executable");

    assert!(error.contains("not an executable image"), "{error}");
    assert_eq!(bytes, before);
}

#[test]
fn test_pe_writer_rejects_loader_incompatible_alignment() {
    for (section_alignment, file_alignment) in [(0x100, 0x100), (0x100, 0x200)] {
        let mut bytes = pe_fixture(true);
        let optional = optional_header(&bytes);
        write_u32(&mut bytes, optional + 32, section_alignment);
        write_u32(&mut bytes, optional + 36, file_alignment);
        let before = bytes.clone();

        let error = append_refusal(&bytes, "bad-alignment");

        assert!(error.contains("alignment is invalid"), "{error}");
        assert_eq!(bytes, before);
    }
}

#[test]
fn test_pe_writer_accepts_spec_compliant_low_alignment() {
    let mut bytes = pe_fixture(true);
    let optional = optional_header(&bytes);
    let section = pe_section_table_offset(&bytes);
    write_u32(&mut bytes, optional + 32, 0x200);
    write_u32(&mut bytes, optional + 36, 0x200);
    write_u32(&mut bytes, optional + 56, 0x400);
    write_u32(&mut bytes, section + 12, 0x200);

    let stamped = append(&bytes, &RuntimeDataHeader::for_name("low-alignment"), b"").unwrap();

    let layout = read_pe_layout(&stamped).unwrap();
    let anchor = layout.anchor.unwrap();
    assert_eq!(anchor.offset, 0x400);
    assert_eq!(layout.max_virtual_end, 0x600);
}

#[test]
fn test_low_alignment_pe_requires_matching_file_and_virtual_offsets() {
    let mut bytes = pe_fixture(true);
    bytes.resize(0x600, 0);
    let optional = optional_header(&bytes);
    let section = pe_section_table_offset(&bytes);
    write_u32(&mut bytes, optional + 32, 0x200);
    write_u32(&mut bytes, optional + 36, 0x200);
    write_u32(&mut bytes, optional + 56, 0x400);
    write_u32(&mut bytes, section + 12, 0x200);
    write_u32(&mut bytes, section + 20, 0x400);

    let error = read_refusal(&bytes);
    assert!(error.contains("file offset does not match its virtual address"), "{error}");
}

#[test]
fn test_pe_writer_preserves_oversized_aligned_size_of_image() {
    let mut bytes = pe_fixture(true);
    let optional = optional_header(&bytes);
    write_u32(&mut bytes, optional + 56, 0x4000);

    let stamped = append(&bytes, &RuntimeDataHeader::for_name("reserved-image"), b"").unwrap();

    assert_eq!(u32_at(&stamped, optional + 56), 0x4000);
}

#[test]
fn test_pe_writer_rejects_image_that_would_exceed_loader_limit() {
    let mut bytes = pe_fixture(true);
    let optional = optional_header(&bytes);
    let section = pe_section_table_offset(&bytes);
    write_u32(&mut bytes, optional + 32, 0x4000_0000);
    write_u32(&mut bytes, optional + 56, 0x8000_0000);
    write_u32(&mut bytes, section + 12, 0x4000_0000);
    let before = bytes.clone();

    let error = append_refusal(&bytes, "oversized-image");

    assert!(error.contains("2 GiB loader limit"), "{error}");
    assert_eq!(bytes, before);
}

#[test]
fn test_pe_writer_accepts_maximum_header_size() {
    let mut bytes = pe_fixture(true);
    let optional = optional_header(&bytes);
    let section = pe_section_table_offset(&bytes);
    let section_data = bytes[0x200..0x400].to_vec();
    bytes[0x200..0x400].fill(0);
    let header_size = MAX_PE_HEADER_BYTES as usize;
    bytes.resize(header_size + 0x200, 0);
    bytes[header_size..header_size + 0x200].copy_from_slice(&section_data);
    write_u32(&mut bytes, optional + 60, MAX_PE_HEADER_BYTES as u32);
    write_u32(&mut bytes, optional + 56, MAX_PE_HEADER_BYTES as u32 + 0x1000);
    write_u32(&mut bytes, section + 12, MAX_PE_HEADER_BYTES as u32);
    write_u32(&mut bytes, section + 20, MAX_PE_HEADER_BYTES as u32);

    let header = RuntimeDataHeader::for_name("maximum-headers");
    let stamped = append(&bytes, &header, b"").unwrap();

    assert_eq!(read_stamped(&stamped).header, header);
}

#[test]
fn test_pe_writer_rejects_oversized_headers_without_modifying_input() {
    let mut bytes = pe_fixture(true);
    let optional = optional_header(&bytes);
    write_u32(&mut bytes, optional + 60, MAX_PE_HEADER_BYTES as u32 + 0x200);
    let before = bytes.clone();

    let error = append_refusal(&bytes, "oversized-headers");

    assert!(error.contains("SizeOfHeaders exceeds"), "{error}");
    assert_eq!(bytes, before);
}

#[test]
fn test_pe_writer_rejects_unaligned_image_size_fields() {
    for (field, value, expected) in [
        (60, 0x300, "SizeOfHeaders is not file-aligned"),
        (56, 0x2100, "SizeOfImage is not section-aligned"),
    ] {
        let mut bytes = pe_fixture(true);
        let optional = optional_header(&bytes);
        write_u32(&mut bytes, optional + field, value);
        let before = bytes.clone();

        let error = append_refusal(&bytes, "bad-size");

        assert!(error.contains(expected), "{error}");
        assert_eq!(bytes, before);
    }
}

#[test]
fn test_pe_runtime_data_must_fit_certificate_offset() {
    let error = pe_runtime_content_layout(u64::from(u32::MAX) - 7, 16).unwrap_err().message("");

    assert!(error.contains("too large for a certificate table offset"), "{error}");
}

#[test]
fn test_pe_reader_accepts_zero_alignment_before_overlay_content() {
    let header = unaligned_header("aligned");
    let mut bytes = append(&pe_fixture(true), &header, b"").unwrap();
    let anchor = read_pe_layout(&bytes).unwrap().anchor.unwrap();
    let start = anchor.offset as usize;
    let decoded = decode_footer(&bytes[start..start + FOOTER_LEN as usize]).unwrap().unwrap();
    let (payload_start, payload_end) =
        pe_runtime_content_layout(anchor.raw_end, decoded.header_len).unwrap();
    assert!(payload_start > anchor.raw_end);
    assert_eq!(payload_end, bytes.len() as u64);
    ensure_zero_file_range(
        &bytes,
        anchor.raw_end,
        payload_start - anchor.raw_end,
        "alignment",
    )
    .unwrap();
    add_pe_certificate(&mut bytes, b"certificate");

    assert_eq!(read_stamped(&bytes).header, header);
}

#[test]
fn test_pe_reader_rejects_nonzero_alignment_before_overlay_content() {
    let header = unaligned_header("nonzero-alignment");
    let mut bytes = append(&pe_fixture(false), &header, b"").unwrap();
    let anchor = read_pe_layout(&bytes).unwrap().anchor.unwrap();
    bytes[anchor.raw_end as usize] = 1;
    add_pe_certificate(&mut bytes, b"certificate");

    let error = read_refusal(&bytes);
    assert!(error.contains("alignment padding is not zero"));
}

#[test]
fn test_unsigned_legacy_pe_overlay_remains_readable() {
    let header = RuntimeDataHeader::for_name("legacy");
    let mut bytes = pe_fixture(true);
    bytes.extend_from_slice(&runtime_payload(&header));

    assert_eq!(read_stamped(&bytes).header, header);
}

#[test]
fn test_signed_legacy_pe_overlay_is_not_trusted() {
    let header = RuntimeDataHeader::for_name("legacy");
    let mut bytes = pe_fixture(true);
    bytes.extend_from_slice(&runtime_payload(&header));
    let certificate_offset = align_up(bytes.len() as u64, PE_CERTIFICATE_ALIGNMENT).unwrap();
    bytes.resize(certificate_offset as usize, 0);
    add_pe_certificate(&mut bytes, b"certificate");

    let error = read_refusal(&bytes);
    assert!(error.contains("no authenticated anchor section"));
}

#[test]
fn test_pe_writer_rejects_existing_overlay_without_modifying_input() {
    let mut bytes = pe_fixture(true);
    bytes.extend_from_slice(b"existing overlay");
    let before = bytes.clone();

    let error = append_refusal(&bytes, "overlay");

    assert!(error.contains("data outside its declared sections"), "{error}");
    assert_eq!(bytes, before);
}

#[test]
fn test_pe_writer_rejects_signed_template_without_modifying_input() {
    let mut bytes = pe_fixture(true);
    add_pe_certificate(&mut bytes, b"certificate");
    let before = bytes.clone();

    let error = append_refusal(&bytes, "signed");

    assert!(error.contains("must be unsigned"), "{error}");
    assert_eq!(bytes, before);
}

#[test]
fn test_pe_writer_rejects_nonzero_section_header_slack() {
    let mut bytes = pe_fixture(false);
    let next_section = pe_section_table_offset(&bytes) + SECTION_HEADER_LEN;
    bytes[next_section] = 1;
    let before = bytes.clone();

    let error = append_refusal(&bytes, "header-slack");

    assert!(error.contains("not zero-filled"), "{error}");
    assert_eq!(bytes, before);
}

#[test]
fn test_pe_overlapping_raw_sections_are_rejected() {
    let mut bytes = pe_fixture(true);
    let pe_offset = pe_offset(&bytes);
    write_u16(&mut bytes, pe_offset + 6, 2);
    let section = pe_section_table_offset(&bytes);
    bytes.copy_within(section..section + 40, section + 40);

    let error = read_refusal(&bytes);
    assert!(error.contains("raw sections overlap"));
}

#[test]
fn test_pe_section_table_must_be_ordered_by_virtual_address() {
    let mut bytes = pe_fixture(true);
    bytes.resize(0x600, 0xa5);
    let pe_offset = pe_offset(&bytes);
    let optional = optional_header(&bytes);
    write_u16(&mut bytes, pe_offset + 6, 2);
    write_u32(&mut bytes, optional + 56, 0x3000);
    let section = pe_section_table_offset(&bytes);
    let mut later = bytes[section..section + 40].to_vec();
    later[..8].fill(0);
    later[..5].copy_from_slice(b".data");
    write_u32(&mut later, 12, 0x2000);
    write_u32(&mut later, 20, 0x400);
    let earlier = bytes[section..section + 40].to_vec();
    bytes[section..section + 40].copy_from_slice(&later);
    bytes[section + 40..section + 80].copy_from_slice(&earlier);

    let error = read_refusal(&bytes);
    assert!(error.contains("not ordered by virtual address"), "{error}");
}

#[test]
fn test_pe_virtual_sections_must_be_adjacent() {
    let mut bytes = pe_fixture(true);
    bytes.resize(0x600, 0xa5);
    let pe_offset = pe_offset(&bytes);
    let optional = optional_header(&bytes);
    write_u16(&mut bytes, pe_offset + 6, 2);
    write_u32(&mut bytes, optional + 56, 0x4000);
    let section = pe_section_table_offset(&bytes);
    let mut later = bytes[section..section + 40].to_vec();
    later[..8].fill(0);
    later[..5].copy_from_slice(b".data");
    write_u32(&mut later, 12, 0x3000);
    write_u32(&mut later, 20, 0x400);
    bytes[section + 40..section + 80].copy_from_slice(&later);

    let error = read_refusal(&bytes);
    assert!(error.contains("not adjacent"), "{error}");
}

#[test]
fn test_pe_raw_sections_must_follow_virtual_address_order() {
    let mut bytes = pe_fixture(true);
    bytes.resize(0x600, 0xa5);
    let pe_offset = pe_offset(&bytes);
    let optional = optional_header(&bytes);
    write_u16(&mut bytes, pe_offset + 6, 2);
    write_u32(&mut bytes, optional + 56, 0x3000);
    let section = pe_section_table_offset(&bytes);
    write_u32(&mut bytes, section + 20, 0x400);
    let mut later = bytes[section..section + 40].to_vec();
    later[..8].fill(0);
    later[..5].copy_from_slice(b".data");
    write_u32(&mut later, 12, 0x2000);
    write_u32(&mut later, 20, 0x200);
    bytes[section + 40..section + 80].copy_from_slice(&later);

    let error = read_refusal(&bytes);
    assert!(error.contains("not ordered by virtual address"), "{error}");
}

#[test]
fn test_pe_section_overlapping_headers_is_rejected() {
    let mut bytes = pe_fixture(false);
    let section = pe_section_table_offset(&bytes);
    write_u32(&mut bytes, section + 20, 0x100);

    let error = read_refusal(&bytes);
    assert!(error.contains("section overlaps its headers"));
}

#[test]
fn test_pe_reader_ignores_valid_shadow_stamp_inside_certificate_table() {
    for is_64 in [false, true] {
        let mut bytes = stamped_fixture(is_64, "legitimate");
        let forged = runtime_payload(&RuntimeDataHeader::for_name("forged"));
        add_pe_certificate(&mut bytes, &forged);

        assert_eq!(read_stamped(&bytes).header.runtime_name, "legitimate");
    }
}

#[test]
fn test_pe_reader_rejects_malformed_certificate_entry() {
    let mut bytes = stamped_fixture(true, "legitimate");
    let certificate_offset = add_pe_certificate(&mut bytes, b"certificate");
    write_u32(&mut bytes, certificate_offset as usize, 7);

    let error = read_refusal(&bytes);
    assert!(error.contains("entry is too small"), "{error}");
}

#[test]
fn test_pe_reader_accepts_certificate_entry_limit() {
    let header = RuntimeDataHeader::for_name("certificate-limit");
    let mut bytes = append(&pe_fixture(true), &header, b"").unwrap();
    add_pe_certificate_entries(&mut bytes, MAX_PE_CERTIFICATE_ENTRIES);

    assert_eq!(read_stamped(&bytes).header, header);
}

#[test]
fn test_pe_reader_rejects_excessive_certificate_entries() {
    let mut bytes = stamped_fixture(true, "excessive-certificates");
    add_pe_certificate_entries(&mut bytes, MAX_PE_CERTIFICATE_ENTRIES + 1);

    let error = read_refusal(&bytes);
    assert!(error.contains("certificate table exceeds"), "{error}");
}

#[test]
fn test_pe_reader_rejects_certificate_moved_past_authenticated_payload() {
    let mut bytes = stamped_fixture(true, "legitimate");
    let certificate_offset = add_pe_certificate(&mut bytes, b"certificate") as usize;
    let security_offset = pe_security_directory_offset(&bytes);
    bytes.splice(certificate_offset..certificate_offset, [0_u8; 8]);
    write_u32(&mut bytes, security_offset, certificate_offset as u32 + 8);

    let error = read_refusal(&bytes);
    assert!(error.contains("does not end at the certificate table offset"), "{error}");
}

#[test]
fn test_pe_reader_rejects_corrupt_anchor_instead_of_shadow_stamp() {
    let mut bytes = stamped_fixture(true, "legitimate");
    let forged = runtime_payload(&RuntimeDataHeader::for_name("forged"));
    let certificate_offset = add_pe_certificate(&mut bytes, &forged);

    bytes[(certificate_offset - FOOTER_LEN - 1) as usize] = b'!';

    let error = refusal(read_from_file(&bytes)).message("");
    assert!(error.contains("header checksum mismatch"));
}

#[test]
fn test_pe_reader_rejects_modified_authenticated_anchor() {
    let mut bytes = stamped_fixture(true, "legitimate");
    let anchor = read_pe_layout(&bytes).unwrap().anchor.unwrap();
    bytes[anchor.offset as usize + 16] ^= 1;

    let error = read_refusal(&bytes);
    assert!(error.contains("header checksum mismatch"));
}

#[test]
fn test_pe_reader_rejects_nonzero_authenticated_anchor_padding() {
    let mut bytes = stamped_fixture(true, "legitimate");
    let anchor = read_pe_layout(&bytes).unwrap().anchor.unwrap();
    bytes[(anchor.offset + FOOTER_LEN) as usize] = 1;

    let error = read_refusal(&bytes);
    assert!(error.contains("section padding is not zero"), "{error}");
}

#[test]
fn test_pe_reader_rejects_duplicate_anchor_section() {
    let mut bytes = stamped_fixture(true, "legitimate");
    let pe_offset = pe_offset(&bytes);
    let section_table = pe_section_table_offset(&bytes);
    let section_count = u16_at(&bytes, pe_offset + 6);
    let anchor_header = section_table + (usize::from(section_count) - 1) * 40;
    bytes.copy_within(anchor_header..anchor_header + 40, anchor_header + 40);
    write_u16(&mut bytes, pe_offset + 6, section_count + 1);

    let error = read_refusal(&bytes);
    assert!(error.contains("multiple conda-ship anchor sections"), "{error}");
}

#[test]
fn test_pe_reader_rejects_incomplete_security_directory() {
    let mut bytes = stamped_fixture(true, "legitimate");
    let security_offset = pe_security_directory_offset(&bytes);
    let file_len = bytes.len() as u32;
    write_u32(&mut bytes, security_offset, file_len);

    let error = read_refusal(&bytes);
    assert!(error.contains("incomplete certificate range"), "{error}");
}

#[test]
fn a_stamped_image_is_not_stamped_again() {
    let bytes = stamped_fixture(true, "first");

    assert_eq!(
        append_refusal(&bytes, "second"),
        "PE runtime template already contains a conda-ship anchor section"
    );
}

#[test]
fn signing_an_image_leaves_its_runtime_data_readable() {
    for is_64 in [false, true] {
        let header = RuntimeDataHeader::for_name("signed");
        let mut bytes = append(&pe_fixture(is_64), &header, b"bundle data").unwrap();
        let before = read_stamped(&bytes);
        let optional = optional_header(&bytes);
        write_u32(&mut bytes, optional + 64, 0xdead_beef);
        add_pe_certificate(&mut bytes, b"certificate");
        let after = read_stamped(&bytes);

        assert_eq!(after.header, before.header);
        let bundle = after.bundle.unwrap();
        assert_eq!(bundle.offset, before.bundle.unwrap().offset);
        assert_eq!(bundle.open_verified(&bytes).unwrap(), b"bundle data");
    }
}

#[test]
fn certificate_contents_do_not_change_what_is_read() {
    let mut bytes = stamped_fixture(true, "signed");
    let offset = add_pe_certificate(&mut bytes, b"certificate") as usize;
    let before = read_stamped(&bytes);
    bytes[offset + 8..].fill(0xff);

    assert_eq!(read_stamped(&bytes).header, before.header);
}

#[test]
fn the_parts_of_a_stamped_image_lie_where_they_should() {
    let header = RuntimeDataHeader::for_name("parts");
    let template = pe_fixture(true);
    let bytes = append(&template, &header, b"bundle data").unwrap();
    let layout = read_pe_layout(&bytes).unwrap();
    let anchor = layout.anchor.unwrap();

    assert_eq!(layout.section_count, 2);
    assert_eq!(layout.size_of_image, 0x3000);
    assert_eq!(layout.size_of_initialized_data, 0x200);
    assert_eq!((anchor.offset, anchor.raw_size), (0x400, 0x200));
    assert_eq!((anchor.raw_end, anchor.virtual_end), (0x600, 0x2200));
    assert_eq!(layout.first_section_offset, Some(0x200));
    assert_eq!(&bytes[0x200..0x400], &template[0x200..0x400]);
    let content = header_json(&header).len() + 11;
    assert_eq!(bytes.len(), (0x600 + content + 7) / 8 * 8);
    assert_eq!(&bytes[bytes.len() - 11..], b"bundle data");
    let entry = pe_section_table_offset(&bytes) + SECTION_HEADER_LEN;
    assert_eq!(&bytes[entry..entry + 8], b".cship\0\0");
    assert_eq!(u32_at(&bytes, entry + 8), 100);
    assert_eq!(u32_at(&bytes, entry + 36), 0x4000_0040);
}

#[test]
fn pe_headers_are_refused_for_what_is_wrong_with_them() {
    for (at, value, expected) in [
        (0x3c, 0x7fff_ffff, "Unknown MS-DOS file"),
        (0x80, 0, "Unknown MS-DOS file"),
    ] {
        let mut bytes = pe_fixture(true);
        write_u32(&mut bytes, at, value);
        assert_eq!(read_refusal(&bytes), expected);
    }
    for (at, value, expected) in [
        (6, 0, "PE section count is outside the loader limit"),
        (6, 97, "Invalid COFF/PE section headers"),
        (20, 100, "PE optional header size is too small"),
        (20, 0xffff, "Invalid PE optional header size"),
        (24, 0x30b, "Unknown MS-DOS file"),
        (24 + 108, 17, "Invalid PE number of RVA and sizes"),
    ] {
        let mut bytes = pe_fixture(true);
        write_u16(&mut bytes, 0x80 + at, value);
        assert_eq!(read_refusal(&bytes), expected);
    }
    let mut short = pe_fixture(true);
    short.truncate(0x80 + 24 + 100);
    assert_eq!(read_refusal(&short), "Invalid PE headers offset or size");
    assert_eq!(read_refusal(b"MZ"), "Could not read file magic");
    assert_eq!(read_refusal(&[b"MZ".as_slice(), &[0; 30]].concat()), "Unknown MS-DOS file");
    let mut past_end = pe_fixture(true);
    write_u32(&mut past_end, 0x80 + 24 + 60, 0x600);
    assert_eq!(read_refusal(&past_end), "PE headers extend past end of file");
}

#[test]
fn pe_sections_are_refused_for_what_is_wrong_with_them() {
    for (at, value, expected) in [
        (12, 0x800, "PE virtual section is not section-aligned"),
        (12, 0, "PE virtual section overlaps its headers"),
        (12, 0x2000, "PE sections extend past SizeOfImage"),
        (16, 0x400, "PE section extends past end of file"),
        (16, 0x100, "PE raw section is not file-aligned"),
    ] {
        let mut bytes = pe_fixture(true);
        let section = pe_section_table_offset(&bytes);
        write_u32(&mut bytes, section + at, value);
        assert_eq!(read_refusal(&bytes), expected);
    }
    for (name, expected) in [
        (b".cship\0\0", "PE conda-ship anchor section has an invalid layout"),
        (b".cscap\0\0", "PE reader capability section has an invalid layout"),
    ] {
        let mut bytes = pe_fixture(true);
        let section = pe_section_table_offset(&bytes);
        bytes[section..section + 8].copy_from_slice(name);
        assert_eq!(read_refusal(&bytes), expected);
    }
}

#[test]
fn an_anchor_section_has_to_hold_a_footer() {
    let mut bytes = stamped_fixture(true, "anchored");
    let anchor = read_pe_layout(&bytes).unwrap().anchor.unwrap();
    bytes[anchor.offset as usize + 99] = 0;

    assert_eq!(read_refusal(&bytes), "PE conda-ship anchor section has no runtime data footer");
}

#[test]
fn certificate_tables_are_refused_for_what_is_wrong_with_them() {
    for (offset_change, size_change, expected) in [
        (-4_i64, 4_i64, "PE certificate table offset is not aligned"),
        (0, -17, "PE certificate table is too small"),
        (0, 8, "PE certificate table is not the final data in the file"),
    ] {
        let mut bytes = stamped_fixture(true, "signed");
        let offset = add_pe_certificate(&mut bytes, b"certificate") as i64;
        let security = pe_security_directory_offset(&bytes);
        let size = u32_at(&bytes, security + 4) as i64;
        write_u32(&mut bytes, security, (offset + offset_change) as u32);
        write_u32(&mut bytes, security + 4, (size + size_change) as u32);
        assert_eq!(read_refusal(&bytes), expected);
    }
    let mut overlapping = pe_fixture(true);
    let security = pe_security_directory_offset(&overlapping);
    write_u32(&mut overlapping, security, 0x3f0);
    write_u32(&mut overlapping, security + 4, 0x10);
    assert_eq!(read_refusal(&overlapping), "PE certificate table overlaps image data");
    let mut too_long = stamped_fixture(true, "signed");
    let offset = add_pe_certificate(&mut too_long, b"certificate") as usize;
    write_u32(&mut too_long, offset, 32);
    assert_eq!(
        read_refusal(&too_long),
        "PE certificate entries exceed the Security Directory size"
    );
}

#[test]
fn templates_need_room_and_directories_for_a_stamp() {
    let mut no_directory = pe_fixture(true);
    write_u32(&mut no_directory, 0x80 + 24 + 108, 4);
    assert_eq!(
        append_refusal(&no_directory, "template"),
        "PE optional header has no Security Directory entry for signing"
    );
    let mut no_sections = pe_fixture(true);
    let section = pe_section_table_offset(&no_sections);
    write_u32(&mut no_sections, section + 16, 0);
    no_sections.truncate(0x200);
    write_u32(&mut no_sections, section + 20, 0);
    assert_eq!(append_refusal(&no_sections, "template"), "PE binary has no file-backed sections");
    let mut no_room = pe_fixture(true);
    let moved = no_room[0x80..section + 40].to_vec();
    no_room[0x80..0x200].fill(0);
    let start = 0x200 - moved.len() - 8;
    no_room[start..start + moved.len()].copy_from_slice(&moved);
    write_u32(&mut no_room, 0x3c, start as u32);
    assert_eq!(
        append_refusal(&no_room, "template"),
        "PE headers have no room for a runtime anchor section"
    );
}

#[test]
fn stamps_that_do_not_fit_the_size_fields_are_refused() {
    let mut bytes = pe_fixture(false);
    let optional = optional_header(&bytes);
    write_u32(&mut bytes, optional + 8, u32::MAX);
    assert_eq!(append_refusal(&bytes, "full"), "PE initialized-data size overflow");
}

#[test]
fn content_ends_at_a_multiple_of_eight() {
    assert_eq!(pe_runtime_content_layout(0x600, 11).unwrap(), (0x605, 0x610));
    assert_eq!(pe_runtime_content_layout(0x600, 16).unwrap(), (0x600, 0x610));
    assert_eq!(
        pe_runtime_content_layout(8, u64::MAX).unwrap_err().message(""),
        "PE runtime data range overflow"
    );
    assert_eq!(
        pe_runtime_content_layout(0, u64::MAX).unwrap_err().message(""),
        "binary alignment overflow"
    );
}

/// A PE32+ image whose NT headers start at `offset`.
fn pe_fixture_with_headers_at(offset: usize) -> Vec<u8> {
    let mut bytes = pe_fixture(true);
    let headers = bytes[0x80..0x80 + 24 + 240 + SECTION_HEADER_LEN].to_vec();
    bytes[2..0x200].fill(0);
    bytes[offset..offset + headers.len()].copy_from_slice(&headers);
    write_u32(&mut bytes, 0x3c, offset as u32);
    bytes
}

#[test]
fn nt_headers_that_a_stamp_does_not_move_are_stamped() {
    let header = RuntimeDataHeader::for_name("snek");
    for offset in [31, 64, 65] {
        let bytes = pe_fixture_with_headers_at(offset);

        let stamped = append(&bytes, &header, b"bundle").unwrap();

        assert_eq!(u32_at(&stamped, 0x3c) as usize, offset);
        let data = read_stamped(&stamped);
        assert_eq!(data.header, header);
        assert_eq!(data.bundle.unwrap().open_verified(&stamped).unwrap(), b"bundle");
    }
}

#[test]
fn nt_headers_that_a_stamp_moves_are_refused() {
    let bytes = pe_fixture_with_headers_at(28);
    let layout = read_pe_layout(&bytes).unwrap();
    assert_eq!(layout.size_of_initialized_data, 28);

    assert_eq!(append_refusal(&bytes, "snek"), "Unknown MS-DOS file");
}

#[test]
fn ranges_that_have_to_be_zero_are_read_in_chunks() {
    let mut image = vec![0_u8; 5000];
    let refused = |image: &[u8], offset: u64, len: u64| {
        ensure_zero_file_range(image, offset, len, "not zero").unwrap_err().message("")
    };
    let end_of_file = RuntimeDataError::UnexpectedEof.message("");

    ensure_zero_file_range(&image, 0, 5000, "not zero").unwrap();
    ensure_zero_file_range(&image, 9000, 0, "not zero").unwrap();
    assert_eq!(refused(&image, 0, 5001), end_of_file);
    assert_eq!(refused(&image, 9000, 1), end_of_file);
    image[4999] = 1;
    assert_eq!(refused(&image, 0, 5000), "not zero");
    assert_eq!(refused(&image, 0, 5001), end_of_file);
    image[4095] = 1;
    assert_eq!(refused(&image, 0, 5001), "not zero");
}
