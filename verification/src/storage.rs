//! The workspace-history data model and URL extraction.
//!
//! A history document optionally carries a history section with two shapes:
//! the current shape, a list of entries each optionally holding a folder URL
//! and/or a file URL, and the legacy shape, a flat list of folder URL
//! strings. Extraction collects, in order, every folder URL of the current
//! shape, then the whole legacy list; file-only entries are dropped and
//! nothing is deduplicated.

use vstd::prelude::*;
use vstd::string::StringExecFns;

use crate::json::JsonSpec;
use crate::json::JsonValue;
use crate::json::arr_views;
use crate::json::obj_views;
use crate::json::json_view;
use crate::json::parse_document;
use crate::json::spec_parse_document;

verus! {

broadcast use vstd::std_specs::vec::group_vec_axioms, vstd::seq::group_seq_axioms;

/// One entry of the current-shape history list.
pub struct OpenedPathsListEntry {
    /// URL of a folder workspace, if this entry is one.
    pub folder_uri: Option<String>,
    /// URL of a single file, if this entry is one.
    pub file_uri: Option<String>,
}

/// The history section of a workspace-history document.
pub struct OpenedPathsList {
    /// The legacy shape: a flat list of folder URLs.
    pub workspaces3: Option<Vec<String>>,
    /// The current shape: a list of entries.
    pub entries: Option<Vec<OpenedPathsListEntry>>,
}

/// A whole workspace-history document: an optional history section.
pub struct Storage {
    /// The history section; its absence is valid and yields no URLs.
    pub opened_paths_list: Option<OpenedPathsList>,
}

/// The folder URLs of current-shape entries, in order; entries without a
/// folder URL contribute nothing.
pub open spec fn folder_urls(entries: Seq<EntryView>) -> Seq<Seq<char>>
    decreases entries.len(),
{
    if entries.len() == 0 {
        Seq::empty()
    } else {
        let rest = folder_urls(entries.drop_last());
        match entries.last().folder_uri {
            Some(u) => rest.push(u),
            None => rest,
        }
    }
}

/// All workspace URLs of a document: the folder URLs of the current shape,
/// in order, followed by the legacy list in its order. An absent history
/// section, and an absent shape, yield nothing.
pub open spec fn spec_workspace_urls(sv: StorageView) -> Seq<Seq<char>> {
    match sv.opened_paths_list {
        None => Seq::empty(),
        Some(paths) => {
            let current = match paths.entries {
                None => Seq::empty(),
                Some(entries) => folder_urls(entries),
            };
            let legacy = match paths.workspaces3 {
                None => Seq::<Seq<char>>::empty(),
                Some(urls) => urls,
            };
            current + legacy
        },
    }
}

/// An absent history section yields no URLs at all.
///
/// This holds of every document value whose history section is absent,
/// which reading gives both for an absent member and for a null one.
pub proof fn lemma_absent_history_empty(sv: StorageView)
    requires
        sv.opened_paths_list is None,
    ensures
        spec_workspace_urls(sv) == Seq::<Seq<char>>::empty(),
{
}

proof fn lemma_folder_urls_all(entries: Seq<EntryView>, urls: Seq<Seq<char>>)
    requires
        entries.len() == urls.len(),
        forall|i: int| 0 <= i < urls.len() ==> entries[i].folder_uri == Some(urls[i]),
    ensures
        folder_urls(entries) == urls,
    decreases entries.len(),
{
    if entries.len() > 0 {
        lemma_folder_urls_all(entries.drop_last(), urls.drop_last());
        assert(folder_urls(entries) =~= urls);
    }
}

/// A legacy-shape document and a current-shape document over the same
/// folder URLs yield the same URL sequence.
///
/// The current shape must list one entry per URL, with that URL as its
/// folder URL; file URLs play no part.
pub proof fn lemma_legacy_current_equivalent(urls: Seq<Seq<char>>, entries: Seq<EntryView>)
    requires
        entries.len() == urls.len(),
        forall|i: int| 0 <= i < urls.len() ==> entries[i].folder_uri == Some(urls[i]),
    ensures
        spec_workspace_urls(
            StorageView {
                opened_paths_list: Some(
                    PathsListView { workspaces3: None, entries: Some(entries) },
                ),
            },
        ) == spec_workspace_urls(
            StorageView {
                opened_paths_list: Some(
                    PathsListView { workspaces3: Some(urls), entries: None },
                ),
            },
        ),
{
    lemma_folder_urls_all(entries, urls);
    assert(folder_urls(entries) + Seq::<Seq<char>>::empty() =~= urls);
    assert(Seq::<Seq<char>>::empty() + urls =~= urls);
}

/// The specification-level value of an entry.
#[verifier::ext_equal]
pub struct EntryView {
    /// The folder URL, if any.
    pub folder_uri: Option<Seq<char>>,
    /// The file URL, if any.
    pub file_uri: Option<Seq<char>>,
}

/// The specification-level value of a history section.
#[verifier::ext_equal]
pub struct PathsListView {
    /// The legacy flat list, if present.
    pub workspaces3: Option<Seq<Seq<char>>>,
    /// The current-shape entry list, if present.
    pub entries: Option<Seq<EntryView>>,
}

/// The specification-level value of a whole document.
#[verifier::ext_equal]
pub struct StorageView {
    /// The history section, if present.
    pub opened_paths_list: Option<PathsListView>,
}

impl View for OpenedPathsListEntry {
    type V = EntryView;

    open spec fn view(&self) -> EntryView {
        EntryView { folder_uri: self.folder_uri.deep_view(), file_uri: self.file_uri.deep_view() }
    }
}

impl DeepView for OpenedPathsListEntry {
    type V = EntryView;

    open spec fn deep_view(&self) -> EntryView {
        self.view()
    }
}

impl View for OpenedPathsList {
    type V = PathsListView;

    open spec fn view(&self) -> PathsListView {
        PathsListView {
            workspaces3: self.workspaces3.deep_view(),
            entries: self.entries.deep_view(),
        }
    }
}

impl DeepView for OpenedPathsList {
    type V = PathsListView;

    open spec fn deep_view(&self) -> PathsListView {
        self.view()
    }
}

impl View for Storage {
    type V = StorageView;

    open spec fn view(&self) -> StorageView {
        StorageView { opened_paths_list: self.opened_paths_list.deep_view() }
    }
}

impl DeepView for Storage {
    type V = StorageView;

    open spec fn deep_view(&self) -> StorageView {
        self.view()
    }
}

/// A document that opens but does not read as a history document: not well
/// formed, or a history field of the wrong type.
#[derive(Debug)]
pub struct ParseError {}

/// An optional string field of an object: absent and null both mean no
/// value; a present value of another type is a fault.
pub open spec fn opt_string_field(members: Seq<(Seq<char>, JsonSpec)>, key: Seq<char>) -> Option<
    Option<Seq<char>>,
> {
    match crate::json::obj_lookup(members, key) {
        None => Some(None),
        Some(JsonSpec::Null) => Some(None),
        Some(JsonSpec::Str(t)) => Some(Some(t)),
        Some(_) => None,
    }
}

/// The value of one current-shape entry, which must be an object.
pub open spec fn entry_of_json(j: JsonSpec) -> Option<EntryView> {
    match j {
        JsonSpec::Obj(members) => {
            let f = opt_string_field(members, "folderUri"@);
            let g = opt_string_field(members, "fileUri"@);
            match (f, g) {
                (Some(fu), Some(gu)) => Some(EntryView { folder_uri: fu, file_uri: gu }),
                _ => None,
            }
        },
        _ => None,
    }
}

/// The strings of an array whose items must all be strings.
pub open spec fn urls_of_json(items: Seq<JsonSpec>) -> Option<Seq<Seq<char>>>
    decreases items.len(),
{
    if items.len() == 0 {
        Some(Seq::empty())
    } else {
        match (urls_of_json(items.drop_last()), items.last()) {
            (Some(t), JsonSpec::Str(u)) => Some(t.push(u)),
            _ => None,
        }
    }
}

/// The entries of an array whose items must all read as entries.
pub open spec fn entries_of_json(items: Seq<JsonSpec>) -> Option<Seq<EntryView>>
    decreases items.len(),
{
    if items.len() == 0 {
        Some(Seq::empty())
    } else {
        match (entries_of_json(items.drop_last()), entry_of_json(items.last())) {
            (Some(t), Some(e)) => Some(t.push(e)),
            _ => None,
        }
    }
}

/// The history section of a document, which must be an object; each of its
/// two shapes is optional, and null counts as absent.
pub open spec fn list_of_json(j: JsonSpec) -> Option<PathsListView> {
    match j {
        JsonSpec::Obj(members) => {
            let w = match crate::json::obj_lookup(members, "workspaces3"@) {
                None => Some(None),
                Some(JsonSpec::Null) => Some(None),
                Some(JsonSpec::Arr(items)) => match urls_of_json(items) {
                    Some(u) => Some(Some(u)),
                    None => None,
                },
                Some(_) => None,
            };
            let e = match crate::json::obj_lookup(members, "entries"@) {
                None => Some(None),
                Some(JsonSpec::Null) => Some(None),
                Some(JsonSpec::Arr(items)) => match entries_of_json(items) {
                    Some(es) => Some(Some(es)),
                    None => None,
                },
                Some(_) => None,
            };
            match (w, e) {
                (Some(w2), Some(e2)) => Some(PathsListView { workspaces3: w2, entries: e2 }),
                _ => None,
            }
        },
        _ => None,
    }
}

/// A whole document: an object whose history section is optional, with
/// null counting as absent.
pub open spec fn storage_of_json(j: JsonSpec) -> Option<StorageView> {
    match j {
        JsonSpec::Obj(members) => match crate::json::obj_lookup(members, "openedPathsList"@) {
            None => Some(StorageView { opened_paths_list: None }),
            Some(JsonSpec::Null) => Some(StorageView { opened_paths_list: None }),
            Some(inner) => match list_of_json(inner) {
                Some(l) => Some(StorageView { opened_paths_list: Some(l) }),
                None => None,
            },
        },
        _ => None,
    }
}

/// A document without a history section reads without fault: whether the
/// member is absent or null, the result is the document value with no
/// history section, never an error.
pub proof fn lemma_absent_history_reads(members: Seq<(Seq<char>, JsonSpec)>)
    requires
        crate::json::obj_lookup(members, "openedPathsList"@) is None || crate::json::obj_lookup(
            members,
            "openedPathsList"@,
        ) == Some(JsonSpec::Null),
    ensures
        storage_of_json(JsonSpec::Obj(members)) == Some(
            StorageView { opened_paths_list: None },
        ),
{
}

/// Reading a document text: parse it, then read the history shapes out of
/// it; nothing if either step fails.
pub open spec fn spec_read(s: Seq<char>) -> Option<StorageView> {
    match spec_parse_document(s) {
        None => None,
        Some(j) => storage_of_json(j),
    }
}

proof fn lemma_urls_of_json_bad(items: Seq<JsonSpec>, k: int)
    requires
        0 <= k < items.len(),
        !(items[k] is Str),
    ensures
        urls_of_json(items) is None,
    decreases items.len(),
{
    if k < items.len() - 1 {
        lemma_urls_of_json_bad(items.drop_last(), k);
    }
}

proof fn lemma_entries_of_json_bad(items: Seq<JsonSpec>, k: int)
    requires
        0 <= k < items.len(),
        entry_of_json(items[k]) is None,
    ensures
        entries_of_json(items) is None,
    decreases items.len(),
{
    if k < items.len() - 1 {
        lemma_entries_of_json_bad(items.drop_last(), k);
    }
}

fn opt_string_from(members: &Vec<(String, JsonValue)>, key: &String) -> (r: Option<Option<String>>)
    ensures
        (match r {
            None => opt_string_field(obj_views(members@), key@) is None,
            Some(o) => opt_string_field(obj_views(members@), key@) == Some(o.deep_view()),
        }),
{
    match crate::json::obj_get(members, key) {
        None => Some(None),
        Some(JsonValue::Null) => Some(None),
        Some(JsonValue::Str(t)) => Some(Some(t.clone())),
        Some(_) => None,
    }
}

fn urls_from_json(items: &Vec<JsonValue>) -> (r: Option<Vec<String>>)
    ensures
        (match r {
            None => urls_of_json(arr_views(items@)) is None,
            Some(u) => urls_of_json(arr_views(items@)) == Some(u.deep_view()),
        }),
{
    let n: usize = items.len();
    let mut out: Vec<String> = Vec::new();
    let mut i: usize = 0;
    proof {
        assert(arr_views(items@).take(0) =~= Seq::<JsonSpec>::empty());
        assert(out.deep_view() =~= Seq::<Seq<char>>::empty());
    }
    while i < n
        invariant
            n == items.len(),
            i <= n,
            urls_of_json(arr_views(items@).take(i as int)) == Some(out.deep_view()),
        decreases n - i,
    {
        proof {
            assert(arr_views(items@).take(i + 1).drop_last() =~= arr_views(items@).take(i as int));
            assert(arr_views(items@).take(i + 1).last() == items@[i as int]@);
        }
        match &items[i] {
            JsonValue::Str(t) => {
                let ghost gdv = out.deep_view();
                out.push(t.clone());
                proof {
                    assert(out.deep_view() =~= gdv.push(t@));
                }
            },
            _ => {
                proof {
                    lemma_urls_of_json_bad(arr_views(items@), i as int);
                }
                return None;
            },
        }
        i += 1;
    }
    proof {
        assert(arr_views(items@).take(n as int) =~= arr_views(items@));
    }
    Some(out)
}

fn entry_from_json(v: &JsonValue) -> (r: Option<OpenedPathsListEntry>)
    ensures
        (match r {
            None => entry_of_json(json_view(*v)) is None,
            Some(e) => entry_of_json(json_view(*v)) == Some(e@),
        }),
{
    match v {
        JsonValue::Obj(members) => {
            proof {
                crate::json::lemma_obj_view(*members);
                assert(json_view(*v) == JsonSpec::Obj(obj_views(members@)));
            }
            let fkey = String::from_str("folderUri");
            match opt_string_from(members, &fkey) {
                None => None,
                Some(fu) => {
                    let gkey = String::from_str("fileUri");
                    match opt_string_from(members, &gkey) {
                        None => None,
                        Some(gu) => Some(
                            OpenedPathsListEntry { folder_uri: fu, file_uri: gu },
                        ),
                    }
                },
            }
        },
        _ => None,
    }
}

fn entries_from_json(items: &Vec<JsonValue>) -> (r: Option<Vec<OpenedPathsListEntry>>)
    ensures
        (match r {
            None => entries_of_json(arr_views(items@)) is None,
            Some(es) => entries_of_json(arr_views(items@)) == Some(es.deep_view()),
        }),
{
    let n: usize = items.len();
    let mut out: Vec<OpenedPathsListEntry> = Vec::new();
    let mut i: usize = 0;
    proof {
        assert(arr_views(items@).take(0) =~= Seq::<JsonSpec>::empty());
        assert(out.deep_view() =~= Seq::<EntryView>::empty());
    }
    while i < n
        invariant
            n == items.len(),
            i <= n,
            entries_of_json(arr_views(items@).take(i as int)) == Some(out.deep_view()),
        decreases n - i,
    {
        proof {
            assert(arr_views(items@).take(i + 1).drop_last() =~= arr_views(items@).take(i as int));
            assert(arr_views(items@).take(i + 1).last() == items@[i as int]@);
        }
        match entry_from_json(&items[i]) {
            Some(e) => {
                let ghost gdv = out.deep_view();
                let ghost ge = e@;
                out.push(e);
                proof {
                    assert(out.deep_view() =~= gdv.push(ge));
                }
            },
            None => {
                proof {
                    lemma_entries_of_json_bad(arr_views(items@), i as int);
                }
                return None;
            },
        }
        i += 1;
    }
    proof {
        assert(arr_views(items@).take(n as int) =~= arr_views(items@));
    }
    Some(out)
}

fn list_from_json(v: &JsonValue) -> (r: Option<OpenedPathsList>)
    ensures
        (match r {
            None => list_of_json(json_view(*v)) is None,
            Some(l) => list_of_json(json_view(*v)) == Some(l@),
        }),
{
    match v {
        JsonValue::Obj(members) => {
            proof {
                crate::json::lemma_obj_view(*members);
                assert(json_view(*v) == JsonSpec::Obj(obj_views(members@)));
            }
            let wkey = String::from_str("workspaces3");
            let w: Option<Vec<String>> = match crate::json::obj_get(members, &wkey) {
                None => None,
                Some(JsonValue::Null) => None,
                Some(JsonValue::Arr(items)) => {
                    proof {
                        crate::json::lemma_arr_view(*items);
                    }
                    match urls_from_json(items) {
                        Some(u) => Some(u),
                        None => {
                            return None;
                        },
                    }
                },
                Some(_) => {
                    return None;
                },
            };
            let ekey = String::from_str("entries");
            let e: Option<Vec<OpenedPathsListEntry>> = match crate::json::obj_get(
                members,
                &ekey,
            ) {
                None => None,
                Some(JsonValue::Null) => None,
                Some(JsonValue::Arr(items)) => {
                    proof {
                        crate::json::lemma_arr_view(*items);
                    }
                    match entries_from_json(items) {
                        Some(es) => Some(es),
                        None => {
                            return None;
                        },
                    }
                },
                Some(_) => {
                    return None;
                },
            };
            Some(OpenedPathsList { workspaces3: w, entries: e })
        },
        _ => None,
    }
}

fn storage_from_json(v: &JsonValue) -> (r: Option<Storage>)
    ensures
        (match r {
            None => storage_of_json(json_view(*v)) is None,
            Some(s) => storage_of_json(json_view(*v)) == Some(s@),
        }),
{
    match v {
        JsonValue::Obj(members) => {
            proof {
                crate::json::lemma_obj_view(*members);
                assert(json_view(*v) == JsonSpec::Obj(obj_views(members@)));
            }
            let okey = String::from_str("openedPathsList");
            match crate::json::obj_get(members, &okey) {
                None => Some(Storage { opened_paths_list: None }),
                Some(JsonValue::Null) => Some(Storage { opened_paths_list: None }),
                Some(inner) => match list_from_json(inner) {
                    Some(l) => Some(Storage { opened_paths_list: Some(l) }),
                    None => None,
                },
            }
        },
        _ => None,
    }
}

impl Storage {
    /// Read a whole history document from its text, as [`spec_read`] says:
    /// the document value if the text parses and its history fields have
    /// the right shapes, and a fault otherwise.
    pub fn read(text: &str) -> (r: Result<Storage, ParseError>)
        ensures
            (match r {
                Ok(s) => spec_read(text@) == Some(s@),
                Err(_) => spec_read(text@) is None,
            }),
    {
        match parse_document(text) {
            None => Err(ParseError {}),
            Some(v) => match storage_from_json(&v) {
                Some(s) => Ok(s),
                None => Err(ParseError {}),
            },
        }
    }

    /// Extract all workspace URLs of this document, current shape first,
    /// then the legacy list, without deduplication.
    pub fn into_workspace_urls(self) -> (r: Vec<String>)
        ensures
            r.deep_view() == spec_workspace_urls(self@),
    {
        let ghost gself = self@;
        let mut out: Vec<String> = Vec::new();
        match self.opened_paths_list {
            None => {
                assert(out.deep_view() =~= spec_workspace_urls(gself));
            },
            Some(paths) => {
                let ghost gcurrent = match &paths.entries {
                    None => Seq::<Seq<char>>::empty(),
                    Some(entries) => folder_urls(entries.deep_view()),
                };
                match &paths.entries {
                    None => {},
                    Some(entries) => {
                        let n: usize = entries.len();
                        let mut i: usize = 0;
                        proof {
                            assert(out.deep_view() =~= folder_urls(entries.deep_view().take(0)));
                        }
                        while i < n
                            invariant
                                n == entries.len(),
                                i <= n,
                                out.deep_view() == folder_urls(entries.deep_view().take(i as int)),
                            decreases n - i,
                        {
                            proof {
                                assert(entries.deep_view().take(i + 1).drop_last()
                                    =~= entries.deep_view().take(i as int));
                                assert(entries.deep_view().take(i + 1).last() == entries@[
                                    i as int]@);
                            }
                            match &entries[i] {
                                OpenedPathsListEntry { folder_uri: Some(u), file_uri: _ } => {
                                    let ghost old_dv = out.deep_view();
                                    out.push(u.clone());
                                    proof {
                                        assert(out.deep_view() =~= old_dv.push(u@));
                                    }
                                },
                                OpenedPathsListEntry { folder_uri: None, file_uri: _ } => {},
                            }
                            i += 1;
                        }
                        proof {
                            assert(entries.deep_view().take(n as int) =~= entries.deep_view());
                        }
                    },
                }
                assert(out.deep_view() =~= gcurrent);
                match &paths.workspaces3 {
                    None => {},
                    Some(urls) => {
                        let m: usize = urls.len();
                        let mut j: usize = 0;
                        proof {
                            assert(gcurrent + urls.deep_view().take(0) =~= gcurrent);
                        }
                        while j < m
                            invariant
                                m == urls.len(),
                                j <= m,
                                out.deep_view() == gcurrent + urls.deep_view().take(j as int),
                            decreases m - j,
                        {
                            let ghost old_dv = out.deep_view();
                            out.push(urls[j].clone());
                            proof {
                                assert(out.deep_view() =~= old_dv.push(urls@[j as int]@));
                                assert(urls.deep_view().take(j + 1) =~= urls.deep_view().take(
                                    j as int,
                                ).push(urls@[j as int]@));
                            }
                            j += 1;
                        }
                        proof {
                            assert(urls.deep_view().take(m as int) =~= urls.deep_view());
                        }
                    },
                }
                assert(out.deep_view() =~= spec_workspace_urls(gself));
            },
        }
        out
    }
}

} // verus!
