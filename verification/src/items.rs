//! Recent items: naming, identification and the per-application source.
//!
//! A workspace URL becomes a searchable item whose name is the last
//! `/`-delimited segment of the URL and whose id is derived, always the
//! same way, from the owning application's identifier and the URL. A URL
//! without a usable final segment is dropped alone; it never aborts the
//! extraction of the remaining URLs.

use vstd::prelude::*;
use vstd::string::StrSliceExecFns;
use vstd::string::StringExecFns;

use crate::json::str_to_chars;
use crate::storage::ParseError;
use crate::storage::Storage;
use crate::storage::spec_read;
use crate::storage::spec_workspace_urls;

verus! {

broadcast use vstd::std_specs::vec::group_vec_axioms, vstd::seq::group_seq_axioms;

/// A recent workspace, ready for the search protocol.
pub struct RecentItem {
    /// The protocol's handle for the item: stable and collision-free.
    pub id: String,
    /// The display name: the URL's last segment.
    pub name: String,
    /// The original URL, used to launch the application.
    pub path: String,
}

/// The specification-level value of a recent item.
#[verifier::ext_equal]
pub struct ItemView {
    /// The item's protocol handle.
    pub id: Seq<char>,
    /// The item's display name.
    pub name: Seq<char>,
    /// The item's original URL.
    pub path: Seq<char>,
}

impl View for RecentItem {
    type V = ItemView;

    open spec fn view(&self) -> ItemView {
        ItemView { id: self.id@, name: self.name@, path: self.path@ }
    }
}

/// The index of the last `/` of a string, or one below zero if it has
/// none.
pub open spec fn last_sep(u: Seq<char>) -> int
    decreases u.len(),
{
    if u.len() == 0 {
        -1
    } else if u.last() == '/' {
        u.len() - 1
    } else {
        last_sep(u.drop_last())
    }
}

proof fn lemma_last_sep_bounds(u: Seq<char>)
    ensures
        -1 <= last_sep(u) < u.len(),
    decreases u.len(),
{
    if u.len() > 0 && u.last() != '/' {
        lemma_last_sep_bounds(u.drop_last());
    }
}

/// A URL's item name: what stands after its last `/`, or the whole URL if
/// it has none; no name at all when that segment is empty.
pub open spec fn spec_item_name(u: Seq<char>) -> Option<Seq<char>> {
    let seg = u.subrange(last_sep(u) + 1, u.len() as int);
    if seg.len() == 0 {
        None
    } else {
        Some(seg)
    }
}

/// A URL's item id: a fixed namespace tag, the owning application's
/// identifier, a separator, and the URL itself.
pub open spec fn spec_item_id(app_id: Seq<char>, url: Seq<char>) -> Seq<char> {
    "vscode-search-provider-"@ + app_id + "-"@ + url
}

/// Same id means same URL, under one application.
pub proof fn lemma_item_id_same_app(app_id: Seq<char>, u1: Seq<char>, u2: Seq<char>)
    requires
        spec_item_id(app_id, u1) == spec_item_id(app_id, u2),
    ensures
        u1 == u2,
{
    let p = "vscode-search-provider-"@ + app_id + "-"@;
    assert(u1 =~= (p + u1).subrange(p.len() as int, (p + u1).len() as int));
    assert(u2 =~= (p + u2).subrange(p.len() as int, (p + u2).len() as int));
}

/// Two applications never share an item id, not even for one same URL.
pub proof fn lemma_item_id_distinct_apps(app1: Seq<char>, app2: Seq<char>, url: Seq<char>)
    requires
        app1 != app2,
    ensures
        spec_item_id(app1, url) != spec_item_id(app2, url),
{
    let tag = "vscode-search-provider-"@;
    if spec_item_id(app1, url) == spec_item_id(app2, url) {
        if app1.len() == app2.len() {
            assert forall|k: int| 0 <= k < app1.len() implies app1[k] == app2[k] by {
                assert(spec_item_id(app1, url)[tag.len() + k] == app1[k]);
                assert(spec_item_id(app2, url)[tag.len() + k] == app2[k]);
            }
            assert(app1 =~= app2);
        } else {
            assert(spec_item_id(app1, url).len() != spec_item_id(app2, url).len());
        }
    }
}

/// The item name of a URL, as [`spec_item_name`] says.
pub fn item_name(url: &str) -> (r: Option<String>)
    ensures
        (match r {
            None => spec_item_name(url@) is None,
            Some(n) => spec_item_name(url@) == Some(n@),
        }),
{
    let chars = str_to_chars(url);
    let n: usize = chars.len();
    let mut k: usize = n;
    proof {
        lemma_last_sep_tail(url@, n as int);
    }
    let mut start: usize = 0;
    let mut found: bool = false;
    while k > 0 && !found
        invariant
            k <= n,
            n == url@.len(),
            chars@ == url@,
            !found ==> last_sep(url@) == last_sep(url@.take(k as int)),
            found ==> k >= 1 && last_sep(url@) == k - 1 && start == k,
            start == if found {
                k
            } else {
                0
            },
        decreases k + (if found {
            0int
        } else {
            1int
        }),
    {
        let c = chars[k - 1];
        if c == '/' {
            proof {
                assert(url@.take(k as int).last() == '/');
            }
            found = true;
            start = k;
        } else {
            proof {
                assert(url@.take(k as int).drop_last() =~= url@.take(k - 1));
            }
            k -= 1;
        }
    }
    proof {
        if !found {
            assert(url@.take(0) =~= Seq::<char>::empty());
            assert(last_sep(url@) == -1);
        }
        assert(start == last_sep(url@) + 1);
    }
    if start == n {
        None
    } else {
        let name = crate::json::chars_to_string(&chars, start, n);
        proof {
            assert(name@ == url@.subrange(last_sep(url@) + 1, url@.len() as int));
        }
        Some(name)
    }
}

proof fn lemma_last_sep_tail(u: Seq<char>, j: int)
    requires
        0 <= j <= u.len(),
        forall|m: int| j <= m < u.len() ==> u[m] != '/',
    ensures
        last_sep(u) == last_sep(u.take(j)),
    decreases u.len() - j,
{
    if j < u.len() {
        assert(u.drop_last() =~= u.take(u.len() - 1));
        lemma_last_sep_tail(u.take(u.len() - 1), j);
        assert(u.take(u.len() - 1).take(j) =~= u.take(j));
    } else {
        assert(u.take(j) =~= u);
    }
}

/// The item id of a URL under an application, as [`spec_item_id`] says.
pub fn item_id(app_id: &str, url: &str) -> (r: String)
    ensures
        r@ == spec_item_id(app_id@, url@),
{
    let mut s = String::from_str("vscode-search-provider-");
    s.append(app_id);
    s.append("-");
    s.append(url);
    s
}

/// The id-to-item map that one query returns: unique keys, insertion
/// order immaterial.
pub struct IdMap {
    entries: Vec<(String, RecentItem)>,
}

spec fn map_of_entries(s: Seq<(String, RecentItem)>) -> Map<Seq<char>, ItemView>
    decreases s.len(),
{
    if s.len() == 0 {
        Map::empty()
    } else {
        map_of_entries(s.drop_last()).insert(s.last().0@, s.last().1@)
    }
}

impl View for IdMap {
    type V = Map<Seq<char>, ItemView>;

    closed spec fn view(&self) -> Map<Seq<char>, ItemView> {
        map_of_entries(self.entries@)
    }
}

impl IdMap {
    #[verifier::type_invariant]
    spec fn inv(self) -> bool {
        forall|i: int, j: int|
            0 <= i < j < self.entries@.len() ==> self.entries@[i].0@ != self.entries@[j].0@
    }

    /// An empty map.
    pub fn new() -> (r: IdMap)
        ensures
            r@ == Map::<Seq<char>, ItemView>::empty(),
    {
        IdMap { entries: Vec::new() }
    }

    /// How many items the map holds.
    pub fn len(&self) -> (r: usize)
        ensures
            r == self@.dom().len(),
    {
        proof {
            use_type_invariant(self);
            lemma_map_of_entries_len(self.entries@);
        }
        self.entries.len()
    }

    /// The item under an id, if the map holds one.
    pub fn get(&self, id: &String) -> (r: Option<&RecentItem>)
        ensures
            (match r {
                None => !self@.contains_key(id@),
                Some(item) => self@.contains_key(id@) && self@[id@] == item@,
            }),
    {
        proof {
            use_type_invariant(self);
        }
        let n: usize = self.entries.len();
        let mut i: usize = 0;
        while i < n
            invariant
                n == self.entries.len(),
                i <= n,
                forall|m: int| 0 <= m < i ==> self.entries@[m].0@ != id@,
            decreases n - i,
        {
            if self.entries[i].0 == *id {
                proof {
                    use_type_invariant(self);
                    lemma_map_of_entries_index(self.entries@, i as int);
                }
                return Some(&self.entries[i].1);
            }
            i += 1;
        }
        proof {
            use_type_invariant(self);
            lemma_map_of_entries_keys(self.entries@);
        }
        None
    }

    /// Whether the map holds an item under an id.
    pub fn contains(&self, id: &String) -> (r: bool)
        ensures
            r == self@.contains_key(id@),
    {
        match self.get(id) {
            Some(_) => true,
            None => false,
        }
    }

    /// Every id-and-item pair the map holds, each id once.
    pub fn entries_vec(&self) -> (r: Vec<(String, RecentItem)>)
        ensures
            r@.len() == self@.dom().len(),
            forall|m: int|
                0 <= m < r@.len() ==> self@.contains_key(#[trigger] r@[m].0@) && self@[r@[m].0@]
                    == r@[m].1@,
    {
        proof {
            use_type_invariant(self);
            lemma_map_of_entries_len(self.entries@);
        }
        let n: usize = self.entries.len();
        let mut out: Vec<(String, RecentItem)> = Vec::new();
        let mut i: usize = 0;
        while i < n
            invariant
                n == self.entries.len(),
                i <= n,
                out@.len() == i,
                forall|m: int|
                    0 <= m < i ==> (#[trigger] out@[m].0)@ == self.entries@[m].0@ && out@[m].1@
                        == self.entries@[m].1@,
            decreases n - i,
        {
            let item = RecentItem {
                id: self.entries[i].1.id.clone(),
                name: self.entries[i].1.name.clone(),
                path: self.entries[i].1.path.clone(),
            };
            out.push((self.entries[i].0.clone(), item));
            i += 1;
        }
        proof {
            use_type_invariant(self);
            assert forall|m: int| 0 <= m < out@.len() implies self@.contains_key(
                #[trigger] out@[m].0@,
            ) && self@[out@[m].0@] == out@[m].1@ by {
                lemma_map_of_entries_index(self.entries@, m);
            }
        }
        out
    }

    fn insert_fresh(self, id: String, item: RecentItem) -> (r: IdMap)
        requires
            !self@.contains_key(id@),
        ensures
            r@ == self@.insert(id@, item@),
    {
        proof {
            use_type_invariant(&self);
            lemma_map_of_entries_keys(self.entries@);
        }
        let ghost gold = self.entries@;
        let mut entries = self.entries;
        entries.push((id, item));
        proof {
            assert(entries@.drop_last() =~= gold);
        }
        IdMap { entries }
    }
}

proof fn lemma_map_of_entries_keys(s: Seq<(String, RecentItem)>)
    ensures
        map_of_entries(s).dom().finite(),
        forall|k: Seq<char>|
            map_of_entries(s).contains_key(k) <==> (exists|i: int|
                0 <= i < s.len() && s[i].0@ == k),
    decreases s.len(),
{
    if s.len() > 0 {
        lemma_map_of_entries_keys(s.drop_last());
        assert forall|k: Seq<char>| #[trigger]
            map_of_entries(s).contains_key(k) implies (exists|i: int|
            0 <= i < s.len() && s[i].0@ == k) by {
            if k == s.last().0@ {
                assert(s[s.len() - 1].0@ == k);
            } else {
                let i = choose|i: int| 0 <= i < s.drop_last().len() && s.drop_last()[i].0@ == k;
                assert(s[i].0@ == k);
            }
        }
        assert forall|k: Seq<char>| (exists|i: int|
            0 <= i < s.len() && s[i].0@ == k) implies #[trigger] map_of_entries(
            s,
        ).contains_key(k) by {
            let i = choose|i: int| 0 <= i < s.len() && s[i].0@ == k;
            if i < s.len() - 1 {
                assert(s.drop_last()[i].0@ == k);
            }
        }
    }
}

proof fn lemma_map_of_entries_len(s: Seq<(String, RecentItem)>)
    requires
        forall|i: int, j: int| 0 <= i < j < s.len() ==> s[i].0@ != s[j].0@,
    ensures
        map_of_entries(s).dom().finite(),
        map_of_entries(s).dom().len() == s.len(),
    decreases s.len(),
{
    lemma_map_of_entries_keys(s);
    if s.len() > 0 {
        lemma_map_of_entries_len(s.drop_last());
        lemma_map_of_entries_keys(s.drop_last());
        assert(!map_of_entries(s.drop_last()).contains_key(s.last().0@));
        assert(map_of_entries(s).dom() =~= map_of_entries(s.drop_last()).dom().insert(
            s.last().0@,
        ));
    }
}

proof fn lemma_map_of_entries_index(s: Seq<(String, RecentItem)>, i: int)
    requires
        forall|m: int, j: int| 0 <= m < j < s.len() ==> s[m].0@ != s[j].0@,
        0 <= i < s.len(),
    ensures
        map_of_entries(s).contains_key(s[i].0@),
        map_of_entries(s)[s[i].0@] == s[i].1@,
    decreases s.len(),
{
    if i < s.len() - 1 {
        lemma_map_of_entries_index(s.drop_last(), i);
        assert(s.last().0@ != s[i].0@);
    }
}

/// The id-to-item map of an application's workspace URLs, in order: a URL
/// without a usable final segment contributes nothing, and a repeated URL
/// lands on the same key with the same item.
pub open spec fn spec_items_map(app_id: Seq<char>, urls: Seq<Seq<char>>) -> Map<
    Seq<char>,
    ItemView,
>
    decreases urls.len(),
{
    if urls.len() == 0 {
        Map::empty()
    } else {
        let m = spec_items_map(app_id, urls.drop_last());
        let u = urls.last();
        match spec_item_name(u) {
            None => m,
            Some(nm) => m.insert(
                spec_item_id(app_id, u),
                ItemView { id: spec_item_id(app_id, u), name: nm, path: u },
            ),
        }
    }
}

proof fn lemma_items_map_value(app_id: Seq<char>, urls: Seq<Seq<char>>, u: Seq<char>)
    requires
        spec_items_map(app_id, urls).contains_key(spec_item_id(app_id, u)),
    ensures
        spec_item_name(u) is Some,
        spec_items_map(app_id, urls)[spec_item_id(app_id, u)] == (ItemView {
            id: spec_item_id(app_id, u),
            name: spec_item_name(u)->0,
            path: u,
        }),
    decreases urls.len(),
{
    let last = urls.last();
    if urls.len() > 0 && spec_item_name(last) is Some && spec_item_id(app_id, last)
        == spec_item_id(app_id, u) {
        lemma_item_id_same_app(app_id, last, u);
    } else {
        lemma_items_map_value(app_id, urls.drop_last(), u);
    }
}

/// A URL without a usable final segment is dropped alone: the item map
/// over any URL sequence holding it equals the map over the sequence
/// without it, wherever it stands; the other URLs are unaffected.
pub proof fn lemma_unusable_url_dropped(
    app_id: Seq<char>,
    before: Seq<Seq<char>>,
    u: Seq<char>,
    after: Seq<Seq<char>>,
)
    requires
        spec_item_name(u) is None,
    ensures
        spec_items_map(app_id, before + seq![u] + after) == spec_items_map(app_id, before + after),
    decreases after.len(),
{
    if after.len() == 0 {
        assert((before + seq![u] + after).drop_last() =~= before);
        assert((before + seq![u] + after).last() == u);
        assert(before + after =~= before);
    } else {
        lemma_unusable_url_dropped(app_id, before, u, after.drop_last());
        assert((before + seq![u] + after).drop_last() =~= before + seq![u] + after.drop_last());
        assert((before + seq![u] + after).last() == after.last());
        assert((before + after).drop_last() =~= before + after.drop_last());
        assert((before + after).last() == after.last());
    }
}

/// One application's recent-item source: its resolved identifier and the
/// directory its history document lives in.
pub struct VscodeWorkspacesSource {
    /// The owning application's identifier, as resolved at activation.
    pub app_id: String,
    /// The application's configuration directory, where the history
    /// document is read from on every query.
    pub config_dir: String,
}

impl VscodeWorkspacesSource {
    /// A source bound to an application and its configuration directory.
    pub fn new(app_id: String, config_dir: String) -> (r: VscodeWorkspacesSource)
        ensures
            r.app_id == app_id,
            r.config_dir == config_dir,
    {
        VscodeWorkspacesSource { app_id, config_dir }
    }

    /// Find the current items in the given history document text: one item
    /// per workspace URL with a usable name, under its id, as
    /// [`spec_items_map`] says; a fault only when the document itself does
    /// not read.
    pub fn find_recent_items(&self, document: &str) -> (r: Result<IdMap, ParseError>)
        ensures
            (match r {
                Ok(m) => spec_read(document@) is Some && m@ == spec_items_map(
                    self.app_id@,
                    spec_workspace_urls(spec_read(document@)->0),
                ),
                Err(_) => spec_read(document@) is None,
            }),
    {
        let storage = match Storage::read(document) {
            Ok(s) => s,
            Err(e) => {
                return Err(e);
            },
        };
        let urls = storage.into_workspace_urls();
        let ghost gurls = spec_workspace_urls(spec_read(document@)->0);
        proof {
            assert(urls.deep_view() == gurls);
        }
        let mut map = IdMap::new();
        let n: usize = urls.len();
        let mut i: usize = 0;
        proof {
            assert(gurls.take(0) =~= Seq::<Seq<char>>::empty());
        }
        while i < n
            invariant
                n == urls.len(),
                i <= n,
                urls.deep_view() == gurls,
                map@ == spec_items_map(self.app_id@, gurls.take(i as int)),
            decreases n - i,
        {
            proof {
                assert(gurls.take(i + 1).drop_last() =~= gurls.take(i as int));
                assert(gurls.take(i + 1).last() == urls@[i as int]@);
            }
            match item_name(&urls[i]) {
                None => {},
                Some(name) => {
                    let id = item_id(self.app_id.as_str(), &urls[i]);
                    let item = RecentItem {
                        id: id.clone(),
                        name,
                        path: urls[i].clone(),
                    };
                    if map.contains(&id) {
                        proof {
                            lemma_items_map_value(
                                self.app_id@,
                                gurls.take(i as int),
                                urls@[i as int]@,
                            );
                            assert(map@.insert(id@, item@) =~= map@);
                        }
                    } else {
                        map = map.insert_fresh(id, item);
                    }
                },
            }
            i += 1;
        }
        proof {
            assert(gurls.take(n as int) =~= gurls);
        }
        Ok(map)
    }
}

} // verus!
