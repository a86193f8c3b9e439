//! Item naming, id generation and the per-application source.

use vscode_search_provider::VscodeWorkspacesSource;
use vscode_search_provider::item_id;
use vscode_search_provider::item_name;

#[test]
fn item_name_is_last_segment() {
    assert_eq!(item_name("file:///home/foo/mdcat"), Some("mdcat".to_string()));
    assert_eq!(item_name("no-slash-at-all"), Some("no-slash-at-all".to_string()));
    assert_eq!(item_name("file:///home/foo//sbctl"), Some("sbctl".to_string()));
}

#[test]
fn item_name_rejects_empty_segment() {
    assert_eq!(item_name(""), None);
    assert_eq!(item_name("file:///home/foo/"), None);
    assert_eq!(item_name("/"), None);
}

#[test]
fn item_id_deterministic_and_distinct() {
    let a = item_id("code-oss.desktop", "file:///home/foo/x");
    let b = item_id("code-oss.desktop", "file:///home/foo/x");
    assert_eq!(a, b);
    assert_eq!(a, "vscode-search-provider-code-oss.desktop-file:///home/foo/x");
    let c = item_id("visual-studio-code.desktop", "file:///home/foo/x");
    assert_ne!(a, c);
}

#[test]
fn source_returns_named_items() {
    let source = VscodeWorkspacesSource::new(
        "code-oss.desktop".to_string(),
        "/home/foo/.config/Code - OSS".to_string(),
    );
    let document =
        r#"{"openedPathsList": {"workspaces3": ["file:///home/foo/mdcat", "file:///home/foo/sbctl"]}}"#;
    let items = source.find_recent_items(document).unwrap();
    assert_eq!(items.len(), 2);
    let id = item_id("code-oss.desktop", "file:///home/foo/mdcat");
    let item = items.get(&id).unwrap();
    assert_eq!(item.name, "mdcat");
    assert_eq!(item.path, "file:///home/foo/mdcat");
    let id = item_id("code-oss.desktop", "file:///home/foo/sbctl");
    let item = items.get(&id).unwrap();
    assert_eq!(item.name, "sbctl");
    assert_eq!(item.path, "file:///home/foo/sbctl");
}

#[test]
fn file_only_entry_excluded() {
    let source = VscodeWorkspacesSource::new(
        "code-oss.desktop".to_string(),
        "/home/foo/.config/Code - OSS".to_string(),
    );
    let document = r#"{"openedPathsList": {"entries": [
        {"folderUri": "file:///home/foo/x"},
        {"fileUri": "file:///home/foo/y"}
    ]}}"#;
    let items = source.find_recent_items(document).unwrap();
    assert_eq!(items.len(), 1);
    let id = item_id("code-oss.desktop", "file:///home/foo/x");
    let item = items.get(&id).unwrap();
    assert_eq!(item.name, "x");
    let absent = item_id("code-oss.desktop", "file:///home/foo/y");
    assert!(items.get(&absent).is_none());
}

#[test]
fn unusable_url_dropped_without_aborting() {
    let source = VscodeWorkspacesSource::new("app.desktop".to_string(), "/tmp/conf".to_string());
    let document = r#"{"openedPathsList": {"workspaces3": [
        "file:///home/foo/kept",
        "file:///home/foo/",
        "",
        "file:///home/foo/also-kept"
    ]}}"#;
    let items = source.find_recent_items(document).unwrap();
    assert_eq!(items.len(), 2);
    assert!(items.get(&item_id("app.desktop", "file:///home/foo/kept")).is_some());
    assert!(items.get(&item_id("app.desktop", "file:///home/foo/also-kept")).is_some());
}

#[test]
fn duplicate_urls_share_one_item() {
    let source = VscodeWorkspacesSource::new("app.desktop".to_string(), "/tmp/conf".to_string());
    let document = r#"{"openedPathsList": {
        "entries": [{"folderUri": "file:///twice"}],
        "workspaces3": ["file:///twice"]
    }}"#;
    let items = source.find_recent_items(document).unwrap();
    assert_eq!(items.len(), 1);
}

#[test]
fn unreadable_document_fails_the_query() {
    let source = VscodeWorkspacesSource::new("app.desktop".to_string(), "/tmp/conf".to_string());
    assert!(source.find_recent_items("no document here").is_err());
}
