use neuroncore::run_manifest::{hash_bytes_sha256, RunManifest};

#[test]
fn same_inputs_same_manifest_hash() {
    let m = RunManifest {
        crate_version: "0.1.0".to_string(),
        git_commit: Some("abc123".to_string()),
        seed: Some(42),
        config_hash: hash_bytes_sha256(b"cfg"),
        input_hash: hash_bytes_sha256(b"input"),
        feature_schema_hash: hash_bytes_sha256(b"schema"),
    };

    assert_eq!(m.manifest_hash(), m.manifest_hash());
}

#[test]
fn changing_one_field_changes_manifest_hash() {
    let m1 = RunManifest {
        crate_version: "0.1.0".to_string(),
        git_commit: Some("abc123".to_string()),
        seed: Some(42),
        config_hash: hash_bytes_sha256(b"cfg"),
        input_hash: hash_bytes_sha256(b"input"),
        feature_schema_hash: hash_bytes_sha256(b"schema"),
    };
    let mut m2 = m1.clone();
    m2.seed = Some(43);

    assert_ne!(m1.manifest_hash(), m2.manifest_hash());
}

#[test]
fn hash_of_empty_input_is_offset_basis() {
    assert_eq!(hash_bytes_sha256(b""), "cbf29ce484222325");
}

#[test]
fn hash_of_single_byte() {
    // FNV-1a 64 of "a".
    assert_eq!(hash_bytes_sha256(b"a"), "af63dc4c8601ec8c");
}

#[test]
fn hash_is_sixteen_lower_hex_digits() {
    let h = hash_bytes_sha256(b"foobar");
    assert_eq!(h, "85944171f73967e8");
    assert_eq!(h.len(), 16);
}

#[test]
fn manifest_hash_matches_hash_of_canonical_text() {
    let m = RunManifest {
        crate_version: "1.2.3".to_string(),
        git_commit: None,
        seed: Some(7),
        config_hash: "c".to_string(),
        input_hash: "i".to_string(),
        feature_schema_hash: "f".to_string(),
    };
    let text = "crate_version=1.2.3;git_commit=;seed=7;config_hash=c;input_hash=i;feature_schema_hash=f;";
    assert_eq!(m.manifest_hash(), hash_bytes_sha256(text.as_bytes()));
}

#[test]
fn manifest_hash_writes_large_seed_in_decimal() {
    let m = RunManifest {
        crate_version: String::new(),
        git_commit: Some("g".to_string()),
        seed: Some(1234567890123),
        config_hash: String::new(),
        input_hash: String::new(),
        feature_schema_hash: String::new(),
    };
    let text = "crate_version=;git_commit=g;seed=1234567890123;config_hash=;input_hash=;feature_schema_hash=;";
    assert_eq!(m.manifest_hash(), hash_bytes_sha256(text.as_bytes()));
}

#[test]
fn manifest_hash_without_seed() {
    let m = RunManifest {
        crate_version: "v".to_string(),
        git_commit: None,
        seed: None,
        config_hash: String::new(),
        input_hash: String::new(),
        feature_schema_hash: String::new(),
    };
    let text = "crate_version=v;git_commit=;seed=;config_hash=;input_hash=;feature_schema_hash=;";
    assert_eq!(m.manifest_hash(), hash_bytes_sha256(text.as_bytes()));
}
