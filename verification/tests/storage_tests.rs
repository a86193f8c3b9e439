//! Reading history documents and extracting workspace URLs.

use vscode_search_provider::Storage;

#[test]
fn read_recent_workspaces_code_1_54() {
    let data = r#"{
        "openedPathsList": {
            "workspaces3": [
                "file:///home/foo//mdcat",
                "file:///home/foo//gnome-jetbrains-search-provider",
                "file:///home/foo//gnome-shell",
                "file:///home/foo//sbctl"
            ]
        }
    }"#;
    let storage = Storage::read(data).unwrap();
    assert!(storage.opened_paths_list.is_some(), "opened paths list missing");
    assert!(
        storage.opened_paths_list.as_ref().unwrap().workspaces3.is_some(),
        "workspaces3 missing"
    );
    assert_eq!(
        storage.into_workspace_urls(),
        vec![
            "file:///home/foo//mdcat",
            "file:///home/foo//gnome-jetbrains-search-provider",
            "file:///home/foo//gnome-shell",
            "file:///home/foo//sbctl",
        ]
    )
}

#[test]
fn read_recent_workspaces_code_1_55() {
    let data = r#"{
        "openedPathsList": {
            "entries": [
                { "folderUri": "file:///home/foo//mdcat" },
                { "folderUri": "file:///home/foo//gnome-jetbrains-search-provider" },
                { "folderUri": "file:///home/foo//gnome-shell" },
                { "folderUri": "file:///home/foo//sbctl" }
            ]
        }
    }"#;
    let storage = Storage::read(data).unwrap();
    assert!(storage.opened_paths_list.is_some(), "opened paths list missing");
    assert!(
        storage.opened_paths_list.as_ref().unwrap().entries.is_some(),
        "entries missing"
    );
    assert_eq!(
        storage.into_workspace_urls(),
        vec![
            "file:///home/foo//mdcat",
            "file:///home/foo//gnome-jetbrains-search-provider",
            "file:///home/foo//gnome-shell",
            "file:///home/foo//sbctl",
        ]
    );
}

#[test]
fn current_shape_urls_in_order_file_entries_dropped() {
    let data = r#"{
        "openedPathsList": {
            "entries": [
                { "folderUri": "file:///a" },
                { "fileUri": "file:///only-a-file" },
                { "folderUri": "file:///b", "fileUri": "file:///both" }
            ],
            "workspaces3": ["file:///legacy-1", "file:///legacy-2"]
        }
    }"#;
    let storage = Storage::read(data).unwrap();
    assert_eq!(
        storage.into_workspace_urls(),
        vec!["file:///a", "file:///b", "file:///legacy-1", "file:///legacy-2"]
    );
}

#[test]
fn legacy_and_current_shapes_agree() {
    let legacy = r#"{"openedPathsList": {"workspaces3": ["file:///x", "file:///y"]}}"#;
    let current = r#"{"openedPathsList": {"entries": [
        {"folderUri": "file:///x"}, {"folderUri": "file:///y"}
    ]}}"#;
    let legacy_urls = Storage::read(legacy).unwrap().into_workspace_urls();
    let current_urls = Storage::read(current).unwrap().into_workspace_urls();
    assert_eq!(legacy_urls, current_urls);
}

#[test]
fn absent_history_yields_empty() {
    let storage = Storage::read("{}").unwrap();
    assert!(storage.opened_paths_list.is_none());
    assert_eq!(storage.into_workspace_urls(), Vec::<String>::new());

    let storage = Storage::read(r#"{"openedPathsList": null}"#).unwrap();
    assert!(storage.opened_paths_list.is_none());
    assert_eq!(storage.into_workspace_urls(), Vec::<String>::new());
}

#[test]
fn absent_shapes_yield_empty() {
    let storage = Storage::read(r#"{"openedPathsList": {}}"#).unwrap();
    assert_eq!(storage.into_workspace_urls(), Vec::<String>::new());
    let storage = Storage::read(r#"{"openedPathsList": {"workspaces3": null, "entries": null}}"#)
        .unwrap();
    assert_eq!(storage.into_workspace_urls(), Vec::<String>::new());
}

#[test]
fn malformed_document_is_error() {
    assert!(Storage::read("").is_err());
    assert!(Storage::read("not a document").is_err());
    assert!(Storage::read("[1, 2").is_err());
    assert!(Storage::read("{\"openedPathsList\": }").is_err());
    assert!(Storage::read("{} trailing").is_err());
}

#[test]
fn wrong_typed_history_is_error() {
    assert!(Storage::read(r#"{"openedPathsList": 3}"#).is_err());
    assert!(Storage::read(r#"{"openedPathsList": {"workspaces3": "no list"}}"#).is_err());
    assert!(Storage::read(r#"{"openedPathsList": {"workspaces3": [1]}}"#).is_err());
    assert!(Storage::read(r#"{"openedPathsList": {"entries": [5]}}"#).is_err());
    assert!(Storage::read(r#"{"openedPathsList": {"entries": [{"folderUri": []}]}}"#).is_err());
    assert!(Storage::read("[]").is_err());
}

#[test]
fn extra_keys_and_values_ignored() {
    let data = r#"{
        "telemetry.machineId": "SECRET-REDACTED",
        "windowControlHeight": 28.5,
        "nested": {"deep": [true, false, null, -1.5e3, "text"]},
        "openedPathsList": {
            "workspaces3": ["file:///kept"],
            "workspaces": ["file:///an-older-shape"]
        }
    }"#;
    let storage = Storage::read(data).unwrap();
    assert_eq!(storage.into_workspace_urls(), vec!["file:///kept"]);
}

#[test]
fn string_escapes_decoded() {
    let data = r#"{"openedPathsList": {"workspaces3": ["file:///x\/y", "a\tb\"c\\d"]}}"#;
    let storage = Storage::read(data).unwrap();
    assert_eq!(storage.into_workspace_urls(), vec!["file:///x/y", "a\tb\"c\\d"]);
}

#[test]
fn code_point_escapes_decoded() {
    let data = r#"{"openedPathsList": {"workspaces3": ["file:///a\u0009b\u00E9\uFFFD"]}}"#;
    let storage = Storage::read(data).unwrap();
    assert_eq!(storage.into_workspace_urls(), vec!["file:///a\tb\u{e9}\u{fffd}"]);
}

#[test]
fn bad_escapes_are_errors() {
    assert!(Storage::read(r#"{"k": "\q"}"#).is_err());
    assert!(Storage::read(r#"{"k": "\u12"}"#).is_err());
    assert!(Storage::read(r#"{"k": "\uZZZZ"}"#).is_err());
    assert!(Storage::read(r#"{"k": "\uD834"}"#).is_err());
    assert!(Storage::read("{\"k\": \"raw\tcontrol\"}").is_err());
}

#[test]
fn non_ascii_text_kept_raw() {
    let data = "{\"openedPathsList\": {\"workspaces3\": [\"file:///home/foo/caf\u{e9}\"]}}";
    let storage = Storage::read(data).unwrap();
    assert_eq!(storage.into_workspace_urls(), vec!["file:///home/foo/caf\u{e9}"]);
}
