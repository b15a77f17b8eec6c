use cc_policy::encoding::encode_base64;
use cc_policy::image::ImageConfig;
use cc_policy::policy::CcPolicy;

#[test]
fn empty_document_serializes_deterministically() {
    let doc = CcPolicy::new();
    assert_eq!(doc.to_json(), "{\n  \"version\": \"0.1.0\",\n  \"containers\": {}\n}");
}

#[test]
fn base64_matches_the_reference_implementation() {
    let cases: Vec<Vec<u8>> = vec![
        vec![],
        vec![0],
        vec![255],
        vec![1, 2],
        vec![1, 2, 3],
        vec![1, 2, 3, 4],
        b"hello world".to_vec(),
        (0u8..=255).collect(),
    ];
    for bytes in cases {
        assert_eq!(encode_base64(&bytes), base64::encode(&bytes));
    }
}

fn shell_image() -> ImageConfig {
    let mut c = ImageConfig::empty();
    c.entrypoint = vec!["/bin/sh".to_string()];
    c.cmd = vec!["-c".to_string(), "sleep 1".to_string()];
    c.env = vec!["WEIRD=a\"b\\c\u{7}d\u{e9}e\u{1F600}f".to_string()];
    c
}

#[test]
fn round_trip_through_base64_is_lossless() {
    let policy = CcPolicy::from_image_ref(&"busybox".to_string(), &shell_image(), true).unwrap();
    let json = policy.to_json();
    let b64 = policy.to_base64();
    let decoded = base64::decode(&b64).unwrap();
    assert_eq!(decoded, json.as_bytes());
    let reparsed: serde_json::Value = serde_json::from_str(&json).unwrap();
    let reparsed_from_b64: serde_json::Value =
        serde_json::from_str(std::str::from_utf8(&decoded).unwrap()).unwrap();
    assert_eq!(reparsed, reparsed_from_b64);
    // escapes survive the parse: the declared environment entry comes back
    // byte for byte inside the anchored pattern
    let env = &reparsed["containers"]["busybox"]["oci_spec"]["process"]["env"];
    let entries: Vec<&str> = env.as_array().unwrap().iter().map(|v| v.as_str().unwrap()).collect();
    assert!(entries.contains(&"^WEIRD=a\"b\\c\u{7}d\u{e9}e\u{1F600}f$"));
}

#[test]
fn compilation_is_idempotent() {
    let a = CcPolicy::from_image_ref(&"busybox".to_string(), &shell_image(), true).unwrap();
    let b = CcPolicy::from_image_ref(&"busybox".to_string(), &shell_image(), true).unwrap();
    assert_eq!(a.to_json(), b.to_json());
    assert_eq!(a.to_base64(), b.to_base64());
}

#[test]
fn serialized_document_parses_with_expected_structure() {
    let policy = CcPolicy::from_image_ref(&"busybox".to_string(), &shell_image(), true).unwrap();
    let v: serde_json::Value = serde_json::from_str(&policy.to_json()).unwrap();
    let spec = &v["containers"]["busybox"]["oci_spec"];
    assert_eq!(spec["ociVersion"], "1.0.2-dev");
    assert_eq!(spec["process"]["user"]["uid"], 0);
    assert_eq!(spec["process"]["cwd"], "/");
    let mounts = spec["mounts"].as_array().unwrap();
    assert_eq!(mounts.len(), 10);
    assert_eq!(mounts[0]["destination"], "/proc");
    assert_eq!(mounts[0]["type"], "proc");
    assert!(v["containers"]["busybox"]["custom"].as_object().unwrap().is_empty());
}
