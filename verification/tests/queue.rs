//! Paths and URLs of the message queue.

use proximadb::queue::adapter::{
    FactoryQueueFs, FilesystemFailure, LegacyListing, QueueError,
};
use proximadb::queue::path::{drop_dots, has_parent, same_components, split_path, starts_at};

fn adapter(root: &str) -> FactoryQueueFs<()> {
    let root = FactoryQueueFs::<()>::normalize_root(root.to_string()).expect("root");
    FactoryQueueFs::build((), root, "local", true, true).expect("queue adapter")
}

fn names(entries: &[&str]) -> Vec<String> {
    entries.iter().map(|e| e.to_string()).collect()
}

#[test]
fn actual_adapter_preserves_relative_and_root_qualified_coordinates() {
    let dir = "/var/tmp/fixture";
    let root = format!("{dir}/queue");
    let root_url = format!("file://{root}");
    let adapter_under_root = adapter(&root_url);

    assert_eq!(
        adapter_under_root
            .url_for("embed-ingest/0/0000000000.qseg")
            .expect("relative mapping"),
        format!("{root_url}/embed-ingest/0/0000000000.qseg")
    );
    assert_eq!(
        adapter_under_root
            .url_for(&format!("{root}/embed-ingest/0/0000000000.qseg"))
            .expect("root-qualified mapping"),
        format!("{root_url}/embed-ingest/0/0000000000.qseg")
    );
    assert_eq!(adapter_under_root.url_for(&root).expect("root mapping"), root_url);
    let filesystem_root = adapter("file:///");
    assert_eq!(
        filesystem_root
            .url_for("/tmp/queue-entry")
            .expect("filesystem-root mapping"),
        "file:///tmp/queue-entry"
    );
    assert_eq!(
        filesystem_root
            .listed_path("/tmp", "file:///tmp/queue-entry")
            .expect("filesystem-root LIST mapping"),
        "/tmp/queue-entry"
    );

    let traversal = adapter_under_root
        .url_for("embed-ingest/../foreign")
        .expect_err("parent traversal must fail closed");
    assert!(traversal.message().contains("parent traversal"));
    let outside = adapter_under_root
        .url_for(&format!("{dir}/foreign"))
        .expect_err("foreign absolute path must fail closed");
    assert!(outside.message().contains("outside configured root"));
    let foreign_list = adapter_under_root
        .listed_path(&root, "file:///foreign/entry")
        .expect_err("foreign LIST result must fail closed");
    assert!(foreign_list.message().contains("outside configured root"));
    let wrong_directory = adapter_under_root
        .listed_path(&format!("{root}/relative"), &format!("{root_url}/other/entry"))
        .expect_err("LIST result outside requested directory must fail closed");
    assert!(wrong_directory.message().contains("non-child entry"));

    let listed = vec![format!("{root_url}/relative/child")];
    assert_eq!(
        adapter_under_root.listed_paths("relative", &listed).expect("relative list"),
        ["relative/child"]
    );
    assert_eq!(
        adapter_under_root
            .listed_paths("./relative", &listed)
            .expect("dotted relative list"),
        ["./relative/child"]
    );
    let listed_traversal = adapter_under_root
        .listed_path(&root, &format!("{root_url}/./../foreign/entry"))
        .expect_err("component normalization must not admit parent traversal");
    assert!(listed_traversal.message().contains("parent traversal"));
    assert_eq!(
        adapter_under_root
            .listed_paths(&format!("{root}/relative"), &listed)
            .expect("absolute list"),
        [format!("{root}/relative/child")]
    );
}

#[test]
fn root_url_normalization_strips_trailing_slashes() {
    let normalize = |url: &str| {
        FactoryQueueFs::<()>::normalize_root(url.to_string())
            .expect("normalize")
            .root_url
    };
    assert_eq!(
        normalize("adls://acct.dfs.core.windows.net/queue/"),
        "adls://acct.dfs.core.windows.net/queue"
    );
    assert_eq!(normalize("s3://bucket/queue///"), "s3://bucket/queue");
    assert_eq!(normalize("file:///"), "file:///");
}

#[test]
fn constructor_capability_check_rejects_non_append_backend() {
    let check = FactoryQueueFs::<()>::require_root_capabilities;
    let err = check("s3://bucket/queue", "s3", false, false)
        .expect_err("object-store queue roots must fail before accepting data");
    assert!(err.message().contains("without durable append support"));
    check("file:///queue", "local", true, true).unwrap();
    for backend in ["hdfs", "encrypted-local"] {
        let err = check("test://queue", backend, true, false).unwrap_err();
        assert!(
            err.message()
                .contains("without conditional ownership publication support")
        );
    }
}

#[test]
fn upgrade_mapping_skips_only_unchanged_layouts() {
    for root in ["file:///", "/", "file://./", "file://./."] {
        let adapter = adapter(root);
        assert_eq!(
            adapter
                .legacy_directory_url(adapter.local_root().expect("local root"))
                .expect("mapping"),
            None,
            "{root}"
        );
    }
    for (root, expected) in [
        ("file:///var/lib/q/", "file:///var/lib/q/var/lib/q"),
        ("/var/./lib/q", "file:///var/./lib/q/var/./lib/q"),
        ("file://./queue", "file://./queue/./queue"),
        ("file://queue", "file://queue/queue"),
    ] {
        let adapter = adapter(root);
        assert_eq!(
            adapter
                .legacy_directory_url(adapter.local_root().expect("local root"))
                .expect("mapping")
                .as_deref(),
            Some(expected)
        );
    }
    for root in ["queue", "./queue", ".", "./."] {
        let error = FactoryQueueFs::<()>::normalize_root(root.to_string())
            .expect_err("bare relative roots can have a different backend anchor");
        assert!(error.message().contains("migration"), "{error:?}");
        assert!(error.message().contains(&format!("\"{root}\"")), "{error:?}");
    }
}

#[test]
fn legacy_layouts_are_refused() {
    let check = |listing: LegacyListing| {
        FactoryQueueFs::<()>::reject_legacy_layout("file:///q/q", "/q", listing)
    };
    assert!(check(LegacyListing::Empty).is_ok());
    assert!(check(LegacyListing::NotFound).is_ok());
    let error = check(LegacyListing::Entries).unwrap_err();
    assert!(error.message().contains("legacy queue layout at file:///q/q"));
    assert!(error.message().contains("\"/q\""));
    assert!(error.message().contains("migration"));
    let error = check(LegacyListing::Failed("not a directory".to_string())).unwrap_err();
    assert!(error.message().contains("cannot inspect legacy queue layout"));
    assert!(error.message().contains("not a directory"));
}

#[test]
fn roots_must_not_be_empty_or_climb() {
    let empty = FactoryQueueFs::<()>::normalize_root(String::new()).unwrap_err();
    assert!(empty.message().contains("empty"));
    let climbing = FactoryQueueFs::<()>::normalize_root("file:///a/../b".to_string()).unwrap_err();
    assert!(climbing.message().contains("parent traversal"));
    assert!(climbing.message().contains("\"/a/../b\""));
}

#[test]
fn both_coordinates_agree() {
    let adapter = adapter("file:///srv/q");
    for path in ["t/0", "./t/0", "a/./b"] {
        assert_eq!(
            adapter.url_for(path).unwrap(),
            adapter.url_for(&format!("/srv/q/{path}")).unwrap()
        );
        assert!(adapter.url_for(path).unwrap().starts_with("file:///srv/q"));
    }
    assert_eq!(
        adapter.urls_for(&names(&["a", "/srv/q/b"])).unwrap(),
        ["file:///srv/q/a", "file:///srv/q/b"]
    );
    assert!(adapter.urls_for(&names(&["a", "../b"])).is_err());
    assert_eq!(adapter.root_child_prefix(), "file:///srv/q/");
    assert_eq!(
        adapter.relative_path("/srv/q/./a").unwrap(),
        (names(&["a"]), true)
    );
    assert_eq!(
        adapter.relative_from_listed_url("file:///srv/q/a/b").unwrap(),
        ["a", "b"]
    );
}

#[test]
fn failures_keep_their_kind() {
    let missing = FactoryQueueFs::<()>::failed(
        "read",
        "file:///q/a",
        FilesystemFailure::NotFound("gone".to_string()),
    );
    assert!(matches!(missing, QueueError::NotFound(_)));
    let broken = FactoryQueueFs::<()>::failed(
        "read",
        "file:///q/a",
        FilesystemFailure::Other("broken".to_string()),
    );
    assert!(matches!(broken, QueueError::Persistence(m) if m.contains("broken")));
}

#[test]
fn adapters_need_their_capabilities() {
    let root = FactoryQueueFs::<u8>::normalize_root("file:///q".to_string()).unwrap();
    assert!(FactoryQueueFs::build(1u8, root, "s3", false, true).is_err());
    let root = FactoryQueueFs::<u8>::normalize_root("file:///q".to_string()).unwrap();
    let built = FactoryQueueFs::build(7u8, root, "local", true, true).unwrap();
    assert_eq!(*built.factory(), 7);
}

#[test]
fn paths_are_split_into_components() {
    assert_eq!(split_path("/a//b/./c/"), ["/", "a", "b", "c"]);
    assert_eq!(drop_dots(&names(&[".", "a"]), 0), ["a"]);
    assert!(has_parent(&names(&["a", ".."])));
    assert!(!has_parent(&names(&["a", "b"])));
    assert!(starts_at(&names(&["/", "a", "b"]), &names(&["/", "a"])));
    assert!(!starts_at(&names(&["/", "a"]), &names(&["/", "b"])));
    assert!(same_components(&names(&["a"]), &names(&["a"])));
    assert!(!same_components(&names(&["a"]), &names(&["a", "b"])));
}
