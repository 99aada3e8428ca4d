//! The index of stored `(namespace, var)` pairs that listing reads from, kept
//! beside the Keychain because the Keychain is awkward to search.
use vstd::prelude::*;
use vstd::string::*;

use crate::error::{Error, Result};
use crate::paths::{default_data_path, no_data_dir_text, stowe_file};
use crate::text::{insert_sorted, push_decimal, str_eq, strictly_sorted, views, decimal};

verus! {

/// The version of the index file format this library reads and writes.
pub const INDEX_VERSION: u32 = 1;

/// The version an index file states when it states none.
pub fn default_version() -> (v: u32)
    ensures
        v == INDEX_VERSION,
{
    INDEX_VERSION
}

#[derive(Debug, Clone)]
pub struct IndexEntry {
    pub namespace: String,
    pub var: String,
    /// When the pair was first added, in RFC 3339 (UTC).
    pub added_at: String,
}

/// `entries` records `(namespace, var)`.
pub open spec fn holds(entries: Seq<IndexEntry>, namespace: Seq<char>, var: Seq<char>) -> bool {
    exists|i: int|
        0 <= i < entries.len() && #[trigger] entries[i].namespace@ == namespace && entries[i].var@
            == var
}

/// `after` is `before` with `(namespace, var)` recorded: the same entries
/// when it was recorded already, else one entry for it appended.
pub open spec fn adds(before: Seq<IndexEntry>, after: Seq<IndexEntry>, namespace: Seq<char>, var: Seq<char>) -> bool {
    if holds(before, namespace, var) {
        after == before
    } else {
        after.len() == before.len() + 1 && after.drop_last() == before && after.last().namespace@
            == namespace && after.last().var@ == var
    }
}

/// The variables `entries` records in `namespace`.
pub open spec fn vars_recorded(entries: Seq<IndexEntry>, namespace: Seq<char>) -> Set<Seq<char>> {
    Set::new(|v: Seq<char>| holds(entries, namespace, v))
}

/// The namespaces `entries` records.
pub open spec fn namespaces_recorded(entries: Seq<IndexEntry>) -> Set<Seq<char>> {
    Set::new(|ns: Seq<char>| exists|v: Seq<char>| holds(entries, ns, v))
}

/// The `(namespace, var)` pairs `entries` records.
pub open spec fn pairs(entries: Seq<IndexEntry>) -> Set<(Seq<char>, Seq<char>)> {
    Set::new(|k: (Seq<char>, Seq<char>)| holds(entries, k.0, k.1))
}

/// The entries that do not record `(namespace, var)`.
pub open spec fn without(entries: Seq<IndexEntry>, namespace: Seq<char>, var: Seq<char>) -> Seq<
    IndexEntry,
> {
    entries.filter(keeps(namespace, var))
}

/// Whether an entry does not record `(namespace, var)`.
pub open spec fn keeps(namespace: Seq<char>, var: Seq<char>) -> spec_fn(IndexEntry) -> bool {
    |e: IndexEntry| !(e.namespace@ == namespace && e.var@ == var)
}

/// The current time in RFC 3339 (UTC), as chrono's `Utc::now` gives it.
/// Nothing is stated of it: it is the clock's reading.
#[verifier::external_body]
fn utc_now_rfc3339() -> String {
    chrono::Utc::now().to_rfc3339_opts(chrono::SecondsFormat::AutoSi, true)
}

/// The instant `text` denotes, read as chrono reads an RFC 3339 date and
/// time (`str::parse` into `DateTime<FixedOffset>`, the reading chrono's serde
/// support uses), written in UTC as `to_rfc3339_opts(SecondsFormat::AutoSi,
/// true)` writes it; `None` when chrono refuses the text.
pub uninterp spec fn utc_stamp(text: Seq<char>) -> Option<Seq<char>>;

/// Reads `text` as an RFC 3339 date and time with chrono and writes the
/// instant back in UTC (see `utc_stamp`).
#[verifier::external_body]
fn utc_stamp_of(text: &str) -> (r: Option<String>)
    ensures
        r is Some == utc_stamp(text@) is Some,
        r matches Some(t) ==> utc_stamp(text@) == Some(t@),
{
    match text.parse::<chrono::DateTime<chrono::FixedOffset>>() {
        Ok(t) => Some(
            t.with_timezone(&chrono::Utc).to_rfc3339_opts(chrono::SecondsFormat::AutoSi, true),
        ),
        Err(_) => None,
    }
}

/// The first entry, in file order, whose `added_at` is no date and time.
pub open spec fn first_bad_stamp(entries: Seq<IndexEntry>) -> Option<IndexEntry>
    decreases entries.len(),
{
    if entries.len() == 0 {
        None
    } else if utc_stamp(entries[0].added_at@) is None {
        Some(entries[0])
    } else {
        first_bad_stamp(entries.drop_first())
    }
}

/// The message for an entry whose `added_at` is no date and time.
pub open spec fn bad_stamp_text(e: IndexEntry) -> Seq<char> {
    "invalid added_at '"@ + e.added_at@ + "' for "@ + e.namespace@ + "/"@ + e.var@
}

/// `loaded` is `entries` with each time written in UTC.
pub open spec fn restamped(entries: Seq<IndexEntry>, loaded: Seq<IndexEntry>) -> bool {
    &&& loaded.len() == entries.len()
    &&& forall|i: int|
        0 <= i < entries.len() ==> #[trigger] loaded[i].namespace@ == entries[i].namespace@
            && loaded[i].var@ == entries[i].var@ && utc_stamp(entries[i].added_at@) == Some(
            loaded[i].added_at@,
        )
}

/// In-memory index, persisted to disk by the application.
#[derive(Debug)]
pub struct Index {
    path: String,
    entries: Vec<IndexEntry>,
}

impl View for Index {
    type V = Seq<IndexEntry>;

    closed spec fn view(&self) -> Seq<IndexEntry> {
        self.entries@
    }
}

impl Index {
    pub closed spec fn path_text(&self) -> Seq<char> {
        self.path@
    }

    /// Default location: `index.toml` in the `stowe` directory of the user's
    /// data directory (`~/Library/Application Support/stowe/index.toml`).
    pub fn default_path() -> (r: Result<String>)
        ensures
            r matches Ok(p) ==> exists|d: Seq<char>| p@ == #[trigger] stowe_file(d, "index.toml"@),
            r matches Err(e) ==> e matches Error::Invalid(m) && m@ == no_data_dir_text(),
    {
        default_data_path("index.toml")
    }

    /// An empty index that will be saved at `path`.
    pub fn empty(path: String) -> (idx: Self)
        ensures
            idx@ == Seq::<IndexEntry>::empty(),
            idx.path_text() == path@,
    {
        Index { path, entries: Vec::new() }
    }

    /// The message for an index file of an unsupported version.
    pub open spec fn unsupported_version_text(version: u32) -> Seq<char> {
        "unsupported index version "@ + decimal(version as nat) + " (expected "@ + decimal(
            INDEX_VERSION as nat,
        ) + ")"@
    }

    /// An index read from a file at `path` stating `version` and `entries`:
    /// an entry whose `added_at` is no date and time is refused first (the
    /// first such, with `Toml`), then a version other than `INDEX_VERSION`.
    /// The times are kept in UTC.
    pub fn from_file(path: String, version: u32, entries: Vec<IndexEntry>) -> (r: Result<Self>)
        ensures
            r is Ok <==> first_bad_stamp(entries@) is None && version == INDEX_VERSION,
            r matches Ok(idx) ==> restamped(entries@, idx@) && idx.path_text() == path@,
            r matches Err(e) ==> match first_bad_stamp(entries@) {
                Some(bad) => e matches Error::Toml(m) && m@ == bad_stamp_text(bad),
                None => e matches Error::Invalid(m) && m@ == Self::unsupported_version_text(
                    version,
                ),
            },
    {
        let mut loaded: Vec<IndexEntry> = Vec::new();
        let mut i: usize = 0;
        assert(entries@.skip(0) =~= entries@);
        while i < entries.len()
            invariant
                i <= entries@.len(),
                first_bad_stamp(entries@) == first_bad_stamp(entries@.skip(i as int)),
                restamped(entries@.take(i as int), loaded@),
            decreases entries.len() - i,
        {
            let e = &entries[i];
            assert(entries@.skip(i as int)[0] == entries@[i as int]);
            assert(entries@.skip(i as int).drop_first() =~= entries@.skip(i + 1));
            match utc_stamp_of(e.added_at.as_str()) {
                Some(t) => {
                    let ghost before = loaded@;
                    loaded.push(IndexEntry { namespace: e.namespace.clone(), var: e.var.clone(), added_at: t });
                    assert forall|k: int| 0 <= k < i + 1 implies #[trigger] loaded@[k].namespace@
                        == entries@.take(i + 1)[k].namespace@ && loaded@[k].var@ == entries@.take(
                        i + 1,
                    )[k].var@ && utc_stamp(entries@.take(i + 1)[k].added_at@) == Some(
                        loaded@[k].added_at@,
                    ) by {
                        if k < i {
                            assert(loaded@[k] == before[k]);
                            assert(entries@.take(i + 1)[k] == entries@.take(i as int)[k]);
                        }
                    }
                },
                None => {
                    let mut m = String::new();
                    m.append("invalid added_at '");
                    m.append(e.added_at.as_str());
                    m.append("' for ");
                    m.append(e.namespace.as_str());
                    m.append("/");
                    m.append(e.var.as_str());
                    return Err(Error::Toml(m));
                },
            }
            i = i + 1;
        }
        assert(entries@.take(entries@.len() as int) =~= entries@);
        assert(entries@.skip(entries@.len() as int) =~= Seq::<IndexEntry>::empty());
        if version != INDEX_VERSION {
            let mut m = String::new();
            m.append("unsupported index version ");
            push_decimal(&mut m, version as u64);
            m.append(" (expected ");
            push_decimal(&mut m, INDEX_VERSION as u64);
            m.append(")");
            return Err(Error::Invalid(m));
        }
        Ok(Index { path, entries: loaded })
    }

    /// Where the index is saved.
    pub fn path(&self) -> (p: &str)
        ensures
            p@ == self.path_text(),
    {
        self.path.as_str()
    }

    /// The version the index is saved with.
    pub fn version(&self) -> (v: u32)
        ensures
            v == INDEX_VERSION,
    {
        INDEX_VERSION
    }

    /// The recorded entries, oldest first.
    pub fn entries(&self) -> (e: &Vec<IndexEntry>)
        ensures
            e@ == self@,
    {
        &self.entries
    }

    /// Whether `(namespace, var)` is recorded.
    pub fn contains(&self, namespace: &str, var: &str) -> (b: bool)
        ensures
            b == holds(self@, namespace@, var@),
    {
        let mut i: usize = 0;
        while i < self.entries.len()
            invariant
                i <= self.entries@.len(),
                forall|j: int|
                    0 <= j < i ==> !(#[trigger] self.entries@[j].namespace@ == namespace@
                        && self.entries@[j].var@ == var@),
            decreases self.entries.len() - i,
        {
            if str_eq(self.entries[i].namespace.as_str(), namespace) && str_eq(
                self.entries[i].var.as_str(),
                var,
            ) {
                return true;
            }
            i = i + 1;
        }
        false
    }

    /// Records `(namespace, var)`, stamped with the current time, unless it is
    /// recorded already.
    pub fn add(&mut self, namespace: &str, var: &str)
        ensures
            final(self).path_text() == old(self).path_text(),
            holds(old(self)@, namespace@, var@) ==> final(self)@ == old(self)@,
            !holds(old(self)@, namespace@, var@) ==> final(self)@.len() == old(self)@.len() + 1
                && final(self)@.drop_last() == old(self)@ && final(self)@.last().namespace@
                == namespace@ && final(self)@.last().var@ == var@,
            pairs(final(self)@) == pairs(old(self)@).insert((namespace@, var@)),
    {
        if !self.contains(namespace, var) {
            let entry = IndexEntry {
                namespace: namespace.to_owned(),
                var: var.to_owned(),
                added_at: utc_now_rfc3339(),
            };
            self.entries.push(entry);
            assert(self.entries@.drop_last() =~= old(self).entries@);
            assert(pairs(self.entries@) =~= pairs(old(self).entries@).insert((namespace@, var@))) by {
                let n = old(self).entries@.len() as int;
                assert forall|k: (Seq<char>, Seq<char>)| #[trigger]
                    pairs(self.entries@).contains(k) implies pairs(old(self).entries@).insert(
                    (namespace@, var@),
                ).contains(k) by {
                    let i = choose|i: int|
                        0 <= i < self.entries@.len() && #[trigger] self.entries@[i].namespace@
                            == k.0 && self.entries@[i].var@ == k.1;
                    if i < n {
                        assert(old(self).entries@[i] == self.entries@[i]);
                    }
                }
                assert forall|k: (Seq<char>, Seq<char>)| #[trigger]
                    pairs(old(self).entries@).contains(k) implies pairs(self.entries@).contains(k) by {
                    let i = choose|i: int|
                        0 <= i < old(self).entries@.len() && #[trigger] old(self).entries@[i].namespace@
                            == k.0 && old(self).entries@[i].var@ == k.1;
                    assert(self.entries@[i] == old(self).entries@[i]);
                }
                assert(self.entries@[n].namespace@ == namespace@);
            }
        } else {
            assert(pairs(old(self).entries@).contains((namespace@, var@)));
            assert(pairs(self.entries@) =~= pairs(old(self).entries@).insert((namespace@, var@)));
        }
    }

    /// Forgets `(namespace, var)`.
    pub fn remove(&mut self, namespace: &str, var: &str)
        ensures
            final(self).path_text() == old(self).path_text(),
            final(self)@ == without(old(self)@, namespace@, var@),
            pairs(final(self)@) == pairs(old(self)@).remove((namespace@, var@)),
    {
        let ghost old_e = self.entries@;
        let ghost pred = keeps(namespace@, var@);
        let mut i: usize = 0;
        let ghost mut j: int = 0;
        assert(old_e.take(0).filter(pred) =~= Seq::<IndexEntry>::empty()) by {
            reveal(Seq::filter);
        }
        assert(old_e.skip(0) =~= old_e);
        assert(self.entries@ =~= old_e.take(0).filter(pred) + old_e.skip(0));
        while i < self.entries.len()
            invariant
                0 <= j <= old_e.len(),
                i == old_e.take(j).filter(pred).len(),
                self.entries@ == old_e.take(j).filter(pred) + old_e.skip(j),
                self.path@ == old(self).path@,
                pred == keeps(namespace@, var@),
            decreases self.entries.len() - i,
        {
            let ghost prefix = old_e.take(j).filter(pred);
            assert(self.entries@[i as int] == old_e[j]);
            assert(old_e.take(j + 1).drop_last() =~= old_e.take(j));
            assert(old_e.take(j + 1).last() == old_e[j]);
            assert(old_e.take(j + 1).filter(pred) == if pred(old_e[j]) {
                prefix.push(old_e[j])
            } else {
                prefix
            }) by {
                reveal(Seq::filter);
            }
            assert(old_e.skip(j) =~= seq![old_e[j]] + old_e.skip(j + 1));
            if str_eq(self.entries[i].namespace.as_str(), namespace) && str_eq(
                self.entries[i].var.as_str(),
                var,
            ) {
                assert(!pred(old_e[j]));
                let _gone = self.entries.remove(i);
                assert(self.entries@ =~= old_e.take(j + 1).filter(pred) + old_e.skip(j + 1));
            } else {
                assert(pred(old_e[j]));
                i = i + 1;
                assert(self.entries@ =~= old_e.take(j + 1).filter(pred) + old_e.skip(j + 1));
            }
            proof {
                j = j + 1;
            }
        }
        assert(j == old_e.len()) by {
            if j < old_e.len() {
                assert(self.entries@.len() == prefix_len(old_e, j, pred) + old_e.len() - j);
            }
        }
        assert(old_e.take(j) =~= old_e);
        assert(old_e.skip(j) =~= Seq::<IndexEntry>::empty());
        assert(self.entries@ =~= without(old_e, namespace@, var@));
        proof {
            lemma_pairs_without(old_e, namespace@, var@);
        }
    }

    /// The variables recorded in `namespace`, sorted, each once.
    pub fn vars_in(&self, namespace: &str) -> (v: Vec<String>)
        ensures
            strictly_sorted(views(v@)),
            views(v@).to_set() == vars_recorded(self@, namespace@),
    {
        let ghost es = self.entries@;
        let mut out: Vec<String> = Vec::new();
        let mut i: usize = 0;
        while i < self.entries.len()
            invariant
                es == self.entries@,
                i <= es.len(),
                strictly_sorted(views(out@)),
                forall|v: Seq<char>| #[trigger]
                    views(out@).to_set().contains(v) <==> holds(es.take(i as int), namespace@, v),
            decreases self.entries.len() - i,
        {
            let ghost before = views(out@).to_set();
            let ghost ii = i as int;
            if str_eq(self.entries[i].namespace.as_str(), namespace) {
                insert_sorted(&mut out, self.entries[i].var.clone());
            }
            assert forall|v: Seq<char>| #[trigger]
                views(out@).to_set().contains(v) <==> holds(es.take(ii + 1), namespace@, v) by {
                if views(out@).to_set().contains(v) {
                    if before.contains(v) {
                        let k = choose|k: int|
                            0 <= k < es.take(ii).len() && #[trigger] es.take(ii)[k].namespace@
                                == namespace@ && es.take(ii)[k].var@ == v;
                        assert(es.take(ii + 1)[k] == es.take(ii)[k]);
                    } else {
                        assert(es.take(ii + 1)[ii] == es[ii]);
                    }
                }
                if holds(es.take(ii + 1), namespace@, v) {
                    let k = choose|k: int|
                        0 <= k < es.take(ii + 1).len() && #[trigger] es.take(ii + 1)[k].namespace@
                            == namespace@ && es.take(ii + 1)[k].var@ == v;
                    if k < ii {
                        assert(es.take(ii)[k] == es.take(ii + 1)[k]);
                        assert(before.contains(v));
                    }
                }
            }
            i = i + 1;
        }
        assert(es.take(es.len() as int) =~= es);
        assert(views(out@).to_set() =~= vars_recorded(es, namespace@));
        out
    }

    /// The namespaces recorded, sorted, each once.
    pub fn namespaces(&self) -> (v: Vec<String>)
        ensures
            strictly_sorted(views(v@)),
            views(v@).to_set() == namespaces_recorded(self@),
    {
        let ghost es = self.entries@;
        let mut out: Vec<String> = Vec::new();
        let mut i: usize = 0;
        while i < self.entries.len()
            invariant
                es == self.entries@,
                i <= es.len(),
                strictly_sorted(views(out@)),
                forall|ns: Seq<char>| #[trigger]
                    views(out@).to_set().contains(ns) <==> exists|k: int|
                        0 <= k < i && #[trigger] es[k].namespace@ == ns,
            decreases self.entries.len() - i,
        {
            let ghost before = views(out@).to_set();
            let ghost ii = i as int;
            insert_sorted(&mut out, self.entries[i].namespace.clone());
            assert forall|ns: Seq<char>| #[trigger]
                views(out@).to_set().contains(ns) <==> exists|k: int|
                    0 <= k < ii + 1 && #[trigger] es[k].namespace@ == ns by {
                if views(out@).to_set().contains(ns) {
                    if before.contains(ns) {
                        let k = choose|k: int| 0 <= k < ii && #[trigger] es[k].namespace@ == ns;
                        assert(0 <= k < ii + 1 && es[k].namespace@ == ns);
                    } else {
                        assert(es[ii].namespace@ == ns);
                    }
                }
                if exists|k: int| 0 <= k < ii + 1 && #[trigger] es[k].namespace@ == ns {
                    let k = choose|k: int| 0 <= k < ii + 1 && #[trigger] es[k].namespace@ == ns;
                    if k < ii {
                        assert(before.contains(ns));
                    }
                }
            }
            i = i + 1;
        }
        assert forall|ns: Seq<char>| #[trigger]
            namespaces_recorded(es).contains(ns) == views(out@).to_set().contains(ns) by {
            if views(out@).to_set().contains(ns) {
                let k = choose|k: int| 0 <= k < es.len() && #[trigger] es[k].namespace@ == ns;
                assert(holds(es, ns, es[k].var@));
            }
            if namespaces_recorded(es).contains(ns) {
                let v = choose|v: Seq<char>| holds(es, ns, v);
                let k = choose|k: int|
                    0 <= k < es.len() && #[trigger] es[k].namespace@ == ns && es[k].var@ == v;
                assert(es[k].namespace@ == ns);
            }
        }
        assert(views(out@).to_set() =~= namespaces_recorded(es));
        out
    }
}

proof fn lemma_pairs_without(e: Seq<IndexEntry>, namespace: Seq<char>, var: Seq<char>)
    ensures
        pairs(without(e, namespace, var)) == pairs(e).remove((namespace, var)),
{
    broadcast use vstd::seq_lib::group_filter_ensures;

    let w = without(e, namespace, var);
    let p = keeps(namespace, var);
    assert forall|k: (Seq<char>, Seq<char>)| #[trigger] pairs(w).contains(k) implies pairs(e).remove(
        (namespace, var),
    ).contains(k) by {
        let i = choose|i: int|
            0 <= i < w.len() && #[trigger] w[i].namespace@ == k.0 && w[i].var@ == k.1;
        assert(p(w[i]));
        assert(w.contains(w[i]));
        e.lemma_filter_contains_rev(p, w[i]);
        let j = choose|j: int| 0 <= j < e.len() && e[j] == w[i];
        assert(e[j].namespace@ == k.0 && e[j].var@ == k.1);
    }
    assert forall|k: (Seq<char>, Seq<char>)| #[trigger] pairs(e).remove((namespace, var)).contains(
        k,
    ) implies pairs(w).contains(k) by {
        let i = choose|i: int|
            0 <= i < e.len() && #[trigger] e[i].namespace@ == k.0 && e[i].var@ == k.1;
        assert(p(e[i]));
        assert(w.contains(e[i]));
        let j = choose|j: int| 0 <= j < w.len() && w[j] == e[i];
        assert(w[j].namespace@ == k.0 && w[j].var@ == k.1);
    }
    assert(pairs(w) =~= pairs(e).remove((namespace, var)));
}

/// Adding a pair twice records the same pairs as adding it once.
pub proof fn law_add_is_idempotent(e: Set<(Seq<char>, Seq<char>)>, namespace: Seq<char>, var: Seq<char>)
    ensures
        e.insert((namespace, var)).insert((namespace, var)) == e.insert((namespace, var)),
{
    assert(e.insert((namespace, var)).insert((namespace, var)) =~= e.insert((namespace, var)));
}

/// Once a pair is added, its variable is listed in its namespace and the
/// namespace is listed.
pub proof fn law_add_then_listed(after: Seq<IndexEntry>, before: Seq<IndexEntry>, namespace: Seq<char>, var: Seq<char>)
    requires
        pairs(after) == pairs(before).insert((namespace, var)),
    ensures
        vars_recorded(after, namespace).contains(var),
        namespaces_recorded(after).contains(namespace),
{
    assert(pairs(after).contains((namespace, var)));
    assert(holds(after, namespace, var));
}

/// Once a pair is removed, its variable is no longer listed in its namespace,
/// and the other variables of the namespace still are.
pub proof fn law_remove_then_unlisted(after: Seq<IndexEntry>, before: Seq<IndexEntry>, namespace: Seq<char>, var: Seq<char>)
    requires
        pairs(after) == pairs(before).remove((namespace, var)),
    ensures
        vars_recorded(after, namespace) == vars_recorded(before, namespace).remove(var),
{
    assert forall|v: Seq<char>| #[trigger] vars_recorded(after, namespace).contains(v) == vars_recorded(before, namespace).remove(var).contains(v) by {
        assert(pairs(after).contains((namespace, v)) == holds(after, namespace, v));
        assert(pairs(before).contains((namespace, v)) == holds(before, namespace, v));
    }
    assert(vars_recorded(after, namespace) =~= vars_recorded(before, namespace).remove(var));
}

spec fn prefix_len(s: Seq<IndexEntry>, j: int, pred: spec_fn(IndexEntry) -> bool) -> int {
    s.take(j).filter(pred).len() as int
}

} // verus!
