//! Directory browsing: which entries are shown and in what order.

use vstd::prelude::*;
use crate::text::chars_of;
use crate::order::{SortKey, stable_order, is_permutation, key_lt, lemma_permutation_onto};
use crate::api::{ApiResponse, is_refusal};

verus! {

/// A request to list a directory on the server.
#[derive(Clone, Debug)]
pub struct BrowseRequest {
    pub path: String,
}

/// An entry of a directory listing.
#[derive(Clone, Debug)]
pub struct DirEntry {
    pub name: String,
    pub path: String,
    pub is_dir: bool,
}

/// What std's `str::to_lowercase` gives for `s` (full Unicode lower-casing).
pub uninterp spec fn lowercase(s: Seq<char>) -> Seq<char>;

/// std `str::to_lowercase`; its result is named [`lowercase`], as it depends
/// on the text alone.
#[verifier::external_body]
pub(crate) fn to_lowercase(s: &str) -> (r: String)
    ensures
        r@ == lowercase(s@),
{
    s.to_lowercase()
}

/// Entries whose name starts with `.` are hidden.
pub open spec fn is_hidden(e: DirEntry) -> bool {
    e.name@.len() > 0 && e.name@[0] == '.'
}

/// The entry, when it is shown.
pub open spec fn shown(e: DirEntry) -> Option<DirEntry> {
    if is_hidden(e) {
        None
    } else {
        Some(e)
    }
}

/// Listing order: directories first, then by lower-cased name.
pub open spec fn entry_key(e: DirEntry) -> (bool, Seq<char>) {
    (!e.is_dir, lowercase(e.name@))
}

/// The shown entries of a directory, in listing order; entries that compare
/// equal keep the order in which the directory gave them.
pub open spec fn is_listing_of(r: Seq<DirEntry>, entries: Seq<DirEntry>) -> bool {
    let v = entries.filter_map(|e: DirEntry| shown(e));
    &&& exists|p: Seq<usize>| {
        &&& is_permutation(p, v.len())
        &&& forall|k: int| 0 <= k < p.len() ==> r[k] == #[trigger] v[p[k] as int]
        &&& forall|a: int, b: int| 0 <= a < b < p.len()
            && entry_key(v[p[a] as int]) == entry_key(v[p[b] as int]) ==> p[a] < p[b]
    }
    &&& r.len() == v.len()
    &&& forall|a: int, b: int| 0 <= a < b < r.len() ==> !key_lt(entry_key(r[b]), entry_key(r[a]))
}

fn copy_entry(e: &DirEntry) -> (r: DirEntry)
    ensures
        r == *e,
{
    DirEntry { name: e.name.clone(), path: e.path.clone(), is_dir: e.is_dir }
}

fn starts_with_dot(s: &str) -> (r: bool)
    ensures
        r == (s@.len() > 0 && s@[0] == '.'),
{
    let c = chars_of(s);
    c.len() > 0 && c[0] == '.'
}

proof fn lemma_shown_entry_kept(s: Seq<DirEntry>, i: int)
    requires
        0 <= i < s.len(),
        !is_hidden(s[i]),
    ensures
        s.filter_map(|e: DirEntry| shown(e)).contains(s[i]),
    decreases s.len(),
{
    let f = |e: DirEntry| shown(e);
    let rest = s.drop_last();
    if i == s.len() - 1 {
        assert(s.filter_map(f) == rest.filter_map(f) + seq![s[i]]);
        assert(s.filter_map(f)[rest.filter_map(f).len() as int] == s[i]);
    } else {
        lemma_shown_entry_kept(rest, i);
        assert(rest[i] == s[i]);
        let j = choose|j: int| 0 <= j < rest.filter_map(f).len() && rest.filter_map(f)[j] == s[i];
        match f(s.last()) {
            Some(x) => {
                assert(s.filter_map(f) == rest.filter_map(f) + seq![x]);
                assert(s.filter_map(f)[j] == s[i]);
            },
            None => {},
        }
    }
}

/// A listing leaves out exactly the entries whose name begins with `.`:
/// every other entry of the directory appears in it (an empty name, or one
/// beginning with any other character, is shown), and all it shows are
/// entries of the directory whose name does not begin with `.`; no
/// directory comes after a file.
pub proof fn lemma_listing_hides_only_dot_names(r: Seq<DirEntry>, entries: Seq<DirEntry>)
    requires
        is_listing_of(r, entries),
    ensures
        forall|i: int| 0 <= i < entries.len() && !(entries[i].name@.len() > 0 && entries[i].name@[0] == '.')
            ==> r.contains(#[trigger] entries[i]),
        forall|k: int| 0 <= k < r.len() ==> entries.contains(#[trigger] r[k])
            && !(r[k].name@.len() > 0 && r[k].name@[0] == '.'),
        forall|a: int, b: int| 0 <= a < b < r.len() && #[trigger] r[b].is_dir ==> #[trigger] r[a].is_dir,
{
    let f = |e: DirEntry| shown(e);
    let v = entries.filter_map(f);
    let p = choose|p: Seq<usize>| {
        &&& is_permutation(p, v.len())
        &&& forall|k: int| 0 <= k < p.len() ==> r[k] == #[trigger] v[p[k] as int]
        &&& forall|a: int, b: int| 0 <= a < b < p.len()
            && entry_key(v[p[a] as int]) == entry_key(v[p[b] as int]) ==> p[a] < p[b]
    };
    assert forall|i: int| 0 <= i < entries.len() && !(entries[i].name@.len() > 0 && entries[i].name@[0] == '.')
        implies r.contains(#[trigger] entries[i]) by {
        lemma_shown_entry_kept(entries, i);
        let j = choose|j: int| 0 <= j < v.len() && v[j] == entries[i];
        lemma_permutation_onto(p, v.len(), j);
        let k = choose|k: int| 0 <= k < p.len() && p[k] == j;
        assert(r[k] == v[p[k] as int]);
    }
    assert forall|k: int| 0 <= k < r.len() implies entries.contains(#[trigger] r[k])
        && !(r[k].name@.len() > 0 && r[k].name@[0] == '.') by {
        assert(r[k] == v[p[k] as int]);
        assert(v.contains(r[k]));
        entries.lemma_filter_map_contains(f, r[k]);
        let t = choose|t: DirEntry| #[trigger] entries.contains(t) && f(t) == Some(r[k]);
        assert(t == r[k]);
    }
    assert forall|a: int, b: int| 0 <= a < b < r.len() && #[trigger] r[b].is_dir implies #[trigger] r[a].is_dir by {
        assert(!key_lt(entry_key(r[b]), entry_key(r[a])));
    }
}

/// Lists a directory: hidden entries left out, directories first, then by
/// lower-cased name, ties kept in the order given.
pub fn directory_listing(entries: Vec<DirEntry>) -> (r: Vec<DirEntry>)
    ensures
        is_listing_of(r@, entries@),
{
    let ghost f = |e: DirEntry| shown(e);
    let ghost all = entries@;
    let mut rest = entries;
    let mut visible: Vec<DirEntry> = Vec::new();
    let n = rest.len();
    let mut i: usize = 0;
    while i < n
        invariant
            n == all.len(),
            i <= n,
            rest@ == all.skip(i as int),
            f == (|e: DirEntry| shown(e)),
            visible@ == all.take(i as int).filter_map(f),
        decreases n - i,
    {
        let e = rest.remove(0);
        assert(e == all[i as int]);
        assert(rest@ =~= all.skip(i + 1));
        proof {
            all.lemma_filter_map_take_succ(f, i as int);
        }
        if !starts_with_dot(e.name.as_str()) {
            visible.push(e);
        }
        assert(visible@ =~= all.take(i + 1).filter_map(f));
        i = i + 1;
    }
    assert(all.take(n as int) =~= all);
    let ghost v = visible@;
    let mut keys: Vec<SortKey> = Vec::new();
    let mut j: usize = 0;
    while j < visible.len()
        invariant
            j <= visible.len(),
            keys@.len() == j,
            forall|k: int| 0 <= k < j ==> (#[trigger] keys@[k]).view_key() == entry_key(visible@[k]),
        decreases visible.len() - j,
    {
        let lower = to_lowercase(visible[j].name.as_str());
        keys.push(SortKey { later: !visible[j].is_dir, text: chars_of(lower.as_str()) });
        j = j + 1;
    }
    let order = stable_order(&keys);
    let mut out: Vec<DirEntry> = Vec::new();
    let mut k: usize = 0;
    while k < order.len()
        invariant
            is_permutation(order@, visible@.len()),
            keys@.len() == visible@.len(),
            forall|q: int| 0 <= q < visible@.len() ==> (#[trigger] keys@[q]).view_key() == entry_key(visible@[q]),
            k <= order.len(),
            out@.len() == k,
            forall|q: int| 0 <= q < k ==> out@[q] == #[trigger] visible@[order@[q] as int],
        decreases order.len() - k,
    {
        out.push(copy_entry(&visible[order[k]]));
        k = k + 1;
    }
    assert forall|a: int, b: int| 0 <= a < b < out@.len() implies !key_lt(entry_key(out@[b]), entry_key(out@[a])) by {
        assert(keys@[order@[a] as int].view_key() == entry_key(visible@[order@[a] as int]));
        assert(keys@[order@[b] as int].view_key() == entry_key(visible@[order@[b] as int]));
    }
    assert forall|a: int, b: int| 0 <= a < b < order@.len()
        && entry_key(v[order@[a] as int]) == entry_key(v[order@[b] as int]) implies order@[a] < order@[b] by {
        assert(keys@[order@[a] as int].view_key() == entry_key(visible@[order@[a] as int]));
        assert(keys@[order@[b] as int].view_key() == entry_key(visible@[order@[b] as int]));
    }
    out
}

/// Why a directory could not be listed.
pub enum BrowseFailure {
    /// The path is not an existing directory.
    NotADirectory,
    /// The path could not be resolved; the system's message.
    Resolve(String),
    /// The directory could not be read; the system's message.
    Read(String),
}

/// The message for a failed listing.
pub open spec fn spec_browse_message(f: BrowseFailure) -> Seq<char> {
    match f {
        BrowseFailure::NotADirectory => "Path is not a valid directory"@,
        BrowseFailure::Resolve(e) => "Cannot resolve path: "@ + e@,
        BrowseFailure::Read(e) => "Cannot read directory: "@ + e@,
    }
}

/// Answer to a browse request that failed.
pub fn browse_refusal(f: BrowseFailure) -> (r: ApiResponse<Vec<DirEntry>>)
    ensures
        is_refusal(r, spec_browse_message(f)),
{
    let msg = match f {
        BrowseFailure::NotADirectory => "Path is not a valid directory".to_string(),
        BrowseFailure::Resolve(e) => {
            let mut m = "Cannot resolve path: ".to_string();
            m.append(e.as_str());
            m
        },
        BrowseFailure::Read(e) => {
            let mut m = "Cannot read directory: ".to_string();
            m.append(e.as_str());
            m
        },
    };
    ApiResponse::err(msg)
}

/// Answer to a browse request: the listing of the entries read.
pub fn browse_answer(entries: Vec<DirEntry>) -> (r: ApiResponse<Vec<DirEntry>>)
    ensures
        r.success,
        r.error.is_none(),
        r.data matches Some(listed) && is_listing_of(listed@, entries@),
{
    ApiResponse::ok(directory_listing(entries))
}

} // verus!
