use base64::Engine;
use noscript::build_content;
use noscript::package_raw;
use noscript::package_with_binding;
use noscript::unpackage_with_binding;
use noscript::NoscriptContent;

#[test]
fn raw_packaging_is_standard_padded_base64() {
    assert_eq!(package_raw(&b"hi".to_vec()), "aGk=");
    assert_eq!(package_raw(&Vec::new()), "");
    assert_eq!(package_raw(&vec![0u8, 1, 2, 3]), "AAECAw==");
}

#[test]
fn content_serializes_as_two_field_object() {
    let content = NoscriptContent {
        wasm: "AAEC".to_string(),
        binding: "aGk=".to_string(),
    };
    assert_eq!(content.to_string(), "{\"wasm\":\"AAEC\",\"binding\":\"aGk=\"}");
}

#[test]
fn packaged_content_is_valid_json_with_base64_fields() {
    let wasm_bytes = vec![0u8, 159, 146, 150, 255, 0, 42];
    let binding_bytes = b"export function run() {}".to_vec();
    let content = package_with_binding(&wasm_bytes, &binding_bytes);

    let parsed: serde_json::Value = serde_json::from_str(&content).unwrap();
    let wasm_field = parsed["wasm"].as_str().unwrap();
    let binding_field = parsed["binding"].as_str().unwrap();
    let engine = base64::engine::general_purpose::STANDARD;
    assert_eq!(engine.decode(wasm_field).unwrap(), wasm_bytes);
    assert_eq!(engine.decode(binding_field).unwrap(), binding_bytes);
}

#[test]
fn packaging_round_trips_byte_for_byte() {
    let wasm_bytes = vec![0u8, 97, 115, 109, 1, 0, 0, 0, 200, 255];
    let binding_bytes = b"const x = 1;".to_vec();
    let content = package_with_binding(&wasm_bytes, &binding_bytes);
    let unpacked = unpackage_with_binding(&content).unwrap();
    assert_eq!(unpacked.0, wasm_bytes);
    assert_eq!(unpacked.1, binding_bytes);
}

#[test]
fn empty_parts_still_package_and_round_trip() {
    let content = package_with_binding(&Vec::new(), &Vec::new());
    assert_eq!(content, "{\"wasm\":\"\",\"binding\":\"\"}");
    let unpacked = unpackage_with_binding(&content).unwrap();
    assert_eq!(unpacked.0, Vec::<u8>::new());
    assert_eq!(unpacked.1, Vec::<u8>::new());
}

#[test]
fn build_content_carries_both_encoded_parts() {
    let content = build_content(&b"a".to_vec(), &b"b".to_vec());
    assert_eq!(content.wasm, "YQ==");
    assert_eq!(content.binding, "Yg==");
    assert_eq!(content.to_string(), "{\"wasm\":\"YQ==\",\"binding\":\"Yg==\"}");
}

#[test]
fn unpackaging_rejects_text_without_the_two_field_frame() {
    assert!(unpackage_with_binding("").is_none());
    assert!(unpackage_with_binding("aGk=").is_none());
    assert!(unpackage_with_binding("{\"wasm\":\"aGk=\"}").is_none());
    assert!(unpackage_with_binding("{\"binding\":\"\",\"wasm\":\"\"}").is_none());
}

#[test]
fn unpackaging_rejects_fields_that_are_not_base64() {
    assert!(unpackage_with_binding("{\"wasm\":\"!!\",\"binding\":\"\"}").is_none());
}
