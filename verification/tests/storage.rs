//! Segment files, native tables and artifact objects.

use proximadb::storage::native::{
    DEFAULT_NATIVE_TABLE_ROW_CAP, native_table_provider_enabled, native_table_row_cap,
};
use proximadb::storage::objects::{
    ArtifactBackendError, MAX_ARTIFACT_TENANT_ID_BYTES, S3ArtifactBackend,
    S3ArtifactBackendFactory,
};
use proximadb::storage::pax::{DirEntry, DirListing, discover_pax_segments};

fn entry(name: &str, size: u64) -> DirEntry {
    DirEntry { name: name.to_string(), size }
}

#[test]
fn splits_carry_the_object_size_so_readers_need_no_head() {
    let on_disk = 4096;
    let splits = discover_pax_segments(
        "/data/col",
        DirListing::Entries(vec![entry("seg0.pax", on_disk)]),
    )
    .unwrap();
    assert_eq!(splits.len(), 1);
    assert_eq!(
        splits[0].object_size,
        Some(on_disk),
        "the object size from list() must be recorded exactly"
    );
    assert_eq!(splits[0].object_size, Some(splits[0].length));
}

#[test]
fn empty_dir_yields_no_splits() {
    let splits = discover_pax_segments("/data/col", DirListing::Entries(vec![])).unwrap();
    assert!(splits.is_empty());
}

#[test]
fn missing_dir_yields_no_splits_not_error() {
    let splits =
        discover_pax_segments("/definitely/not/a/real/path/xyz", DirListing::NotFound).unwrap();
    assert!(splits.is_empty());
}

#[test]
fn lists_pax_files_as_splits_and_ignores_others() {
    let splits = discover_pax_segments(
        "/data/col",
        DirListing::Entries(vec![
            entry("seg0.pax", 10),
            entry("ignore.txt", 1),
            entry("seg1.pax", 20),
        ]),
    )
    .unwrap();
    assert_eq!(splits.len(), 2, "two .pax segments give two splits");
    assert!(splits.iter().all(|s| s.file_path.ends_with(".pax")));
    assert_eq!(splits[0].file_path, "/data/col/seg0.pax");
    assert_eq!((splits[0].block_id, splits[0].offset, splits[0].record_count), (0, 0, 0));
}

#[test]
fn failed_listings_are_reported() {
    let error =
        discover_pax_segments("/data/col", DirListing::Failed("denied".to_string())).unwrap_err();
    assert_eq!(error, "denied");
}

#[test]
fn gate_defaults_off_and_accepts_only_truthy_values() {
    assert!(
        !native_table_provider_enabled(None),
        "native table provider must default OFF"
    );
    for truthy in ["1", "true", "on"] {
        assert!(native_table_provider_enabled(Some(truthy)), "{truthy} should enable");
    }
    for falsy in ["0", "false", "off", ""] {
        assert!(!native_table_provider_enabled(Some(falsy)), "{falsy} must not enable");
    }
}

#[test]
fn row_cap_falls_back_to_default_on_absent_or_invalid() {
    assert_eq!(native_table_row_cap(None), DEFAULT_NATIVE_TABLE_ROW_CAP);
    for bad in ["0", "-5", "abc", ""] {
        assert_eq!(
            native_table_row_cap(Some(bad)),
            DEFAULT_NATIVE_TABLE_ROW_CAP,
            "invalid cap {bad:?} must fall back to the default, never 0"
        );
    }
    assert_eq!(native_table_row_cap(Some("128")), 128);
}

fn names(entries: &[&str]) -> Vec<String> {
    entries.iter().map(|e| e.to_string()).collect()
}

#[test]
fn tenants_have_prefixes_of_their_own() {
    let prefix = |t: &str| S3ArtifactBackendFactory::tenant_prefix(t).unwrap();
    assert_eq!(prefix("ab"), "mlflow_artifacts_v2/2/6162");
    assert_ne!(prefix("a.b"), prefix("a_b"));
    assert_ne!(prefix("a"), prefix("ab"));
    assert!(matches!(
        S3ArtifactBackendFactory::tenant_prefix(""),
        Err(ArtifactBackendError::Invalid(_))
    ));
    let longest = "x".repeat(MAX_ARTIFACT_TENANT_ID_BYTES);
    assert!(S3ArtifactBackendFactory::tenant_prefix(&longest).is_ok());
    assert!(matches!(
        S3ArtifactBackendFactory::tenant_prefix(&format!("{longest}x")),
        Err(ArtifactBackendError::Invalid(_))
    ));
}

#[test]
fn keys_stand_under_the_tenant() {
    let factory = S3ArtifactBackendFactory::new("s3://bucket".to_string());
    assert_eq!(factory.url(), "s3://bucket");
    let backend = factory.backend_for("ab").unwrap();
    assert_eq!(
        backend.key_segments(&names(&["run", "m.txt"])),
        ["mlflow_artifacts_v2", "2", "6162", "run", "m.txt"]
    );
    assert_eq!(
        backend.full(&names(&["run", "a b.txt"])),
        "mlflow_artifacts_v2/2/6162/run/a b.txt"
    );
    assert_eq!(
        backend.full(&names(&["a/b"])),
        "mlflow_artifacts_v2/2/6162/a%2Fb"
    );
    assert!(matches!(
        S3ArtifactBackend::at(Err("bad".to_string())),
        Err(ArtifactBackendError::Internal(m)) if m == "tenant prefix: bad"
    ));
    assert!(matches!(
        S3ArtifactBackendFactory::unsupported(),
        ArtifactBackendError::UnsupportedPlatform(_)
    ));
}

#[test]
fn children_are_listed_once() {
    let children = S3ArtifactBackend::children(
        "p",
        &names(&["p/a/x", "p/a/y", "p/b", "p/c", "p/c/z", "p"]),
    );
    let shown: Vec<(&str, bool, u64)> = children
        .iter()
        .map(|e| (e.name.as_str(), e.is_dir, e.size_bytes))
        .collect();
    assert_eq!(shown, [("a", true, 0), ("b", false, 0), ("c", true, 0)]);
    assert!(S3ArtifactBackend::directory(vec![]).is_none());
    assert_eq!(S3ArtifactBackend::directory(children).map(|c| c.len()), Some(3));
}
