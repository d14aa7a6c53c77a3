//! The in-memory file catalogue: entries kept in insertion order, keyed by
//! their file id, with at most one entry per id.

use vstd::prelude::*;
use crate::model::{FileInfo, FileRecord, records};
use crate::text::{has_prefix, same_text, starts_with};

verus! {

/// No two entries share a file id.
pub open spec fn ids_unique(s: Seq<FileRecord>) -> bool {
    forall|i: int, j: int|
        #![trigger s[i], s[j]]
        0 <= i < s.len() && 0 <= j < s.len() && i != j ==> s[i].file_id != s[j].file_id
}

/// Every entry has a non-negative size.
pub open spec fn sizes_nonneg(s: Seq<FileRecord>) -> bool {
    forall|i: int| 0 <= i < s.len() ==> #[trigger] s[i].size >= 0
}

/// The catalogue invariant: unique ids and non-negative sizes.
pub open spec fn catalog_wf(s: Seq<FileRecord>) -> bool {
    ids_unique(s) && sizes_nonneg(s)
}

/// Whether some entry has the given id.
pub open spec fn has_id(s: Seq<FileRecord>, id: Seq<char>) -> bool {
    exists|i: int| 0 <= i < s.len() && #[trigger] s[i].file_id == id
}

/// The position of the entry with the given id (meaningful where `has_id`).
pub open spec fn position_of_id(s: Seq<FileRecord>, id: Seq<char>) -> int {
    choose|i: int| 0 <= i < s.len() && #[trigger] s[i].file_id == id
}

/// The catalogue after storing `r` under its id: an entry with the same id is
/// replaced in place, otherwise `r` is appended.
pub open spec fn catalog_insert(s: Seq<FileRecord>, r: FileRecord) -> Seq<FileRecord> {
    if has_id(s, r.file_id) {
        s.update(position_of_id(s, r.file_id), r)
    } else {
        s.push(r)
    }
}

/// Whether an entry lies under a directory path, by string prefix.
pub open spec fn under_prefix(dir: Seq<char>) -> spec_fn(FileRecord) -> bool {
    |r: FileRecord| has_prefix(r.path, dir)
}

/// Whether an entry does not lie under a directory path, by string prefix.
pub open spec fn outside_prefix(dir: Seq<char>) -> spec_fn(FileRecord) -> bool {
    |r: FileRecord| !has_prefix(r.path, dir)
}

/// The sum of the sizes of a sequence of entries.
pub open spec fn total_size(s: Seq<FileRecord>) -> int
    decreases s.len(),
{
    if s.len() == 0 {
        0
    } else {
        total_size(s.drop_last()) + s.last().size
    }
}

/// Any subsequence taken by a filter keeps the catalogue invariant.
pub proof fn lemma_filter_keeps_wf(s: Seq<FileRecord>, pred: spec_fn(FileRecord) -> bool)
    requires
        catalog_wf(s),
    ensures
        catalog_wf(s.filter(pred)),
    decreases s.len(),
{
    reveal(Seq::filter);
    if s.len() > 0 {
        let t = s.drop_last();
        assert(catalog_wf(t)) by {
            assert forall|i: int, j: int|
                0 <= i < t.len() && 0 <= j < t.len() && i != j implies #[trigger] t[i].file_id
                != #[trigger] t[j].file_id by {
                assert(t[i] == s[i] && t[j] == s[j]);
            }
            assert forall|i: int| 0 <= i < t.len() implies #[trigger] t[i].size >= 0 by {
                assert(t[i] == s[i]);
            }
        }
        lemma_filter_keeps_wf(t, pred);
        let ft = t.filter(pred);
        if pred(s.last()) {
            let last = s.last();
            let r = ft.push(last);
            assert forall|k: int| 0 <= k < ft.len() implies #[trigger] ft[k].file_id
                != last.file_id by {
                assert(ft.contains(ft[k]));
                t.lemma_filter_contains_rev(pred, ft[k]);
                let w = choose|w: int| 0 <= w < t.len() && t[w] == ft[k];
                assert(s[w] == t[w]);
                assert(s[s.len() - 1] == last);
            }
            assert forall|i: int, j: int|
                0 <= i < r.len() && 0 <= j < r.len() && i != j implies #[trigger] r[i].file_id
                != #[trigger] r[j].file_id by {
                if i < ft.len() && j < ft.len() {
                    assert(r[i] == ft[i] && r[j] == ft[j]);
                } else if i < ft.len() {
                    assert(r[i] == ft[i]);
                } else {
                    assert(r[j] == ft[j]);
                }
            }
            assert forall|i: int| 0 <= i < r.len() implies #[trigger] r[i].size >= 0 by {
                if i < ft.len() {
                    assert(r[i] == ft[i]);
                } else {
                    assert(s[s.len() - 1] == last);
                }
            }
        }
    }
}

/// Sizes are non-negative, so a filter never has a larger total than the whole.
pub proof fn lemma_filter_total_size(s: Seq<FileRecord>, pred: spec_fn(FileRecord) -> bool)
    requires
        sizes_nonneg(s),
    ensures
        0 <= total_size(s.filter(pred)) <= total_size(s),
    decreases s.len(),
{
    reveal(Seq::filter);
    if s.len() > 0 {
        let t = s.drop_last();
        assert(sizes_nonneg(t)) by {
            assert forall|i: int| 0 <= i < t.len() implies #[trigger] t[i].size >= 0 by {
                assert(t[i] == s[i]);
            }
        }
        lemma_filter_total_size(t, pred);
        assert(s[s.len() - 1].size >= 0);
        if pred(s.last()) {
            assert(t.filter(pred).push(s.last()).drop_last() =~= t.filter(pred));
        }
    }
}

/// A filter of a prefix keeps no more entries, and no more bytes, than the
/// same filter of the whole.
pub proof fn lemma_filter_prefix(s: Seq<FileRecord>, pred: spec_fn(FileRecord) -> bool, i: int)
    requires
        sizes_nonneg(s),
        0 <= i <= s.len(),
    ensures
        s.take(i).filter(pred).len() <= s.filter(pred).len(),
        0 <= total_size(s.take(i).filter(pred)) <= total_size(s.filter(pred)),
    decreases s.len() - i,
{
    let t = s.take(i);
    assert forall|k: int| 0 <= k < t.len() implies #[trigger] t[k].size >= 0 by {
        assert(t[k] == s[k]);
    }
    lemma_filter_total_size(t, pred);
    if i < s.len() {
        lemma_filter_prefix(s, pred, i + 1);
        assert(s.take(i + 1) =~= t.push(s[i]));
        t.lemma_filter_push(s[i], pred);
        if pred(s[i]) {
            assert(t.filter(pred).push(s[i]).drop_last() =~= t.filter(pred));
            assert(t.filter(pred).push(s[i]).last() == s[i]);
        }
    } else {
        assert(t =~= s);
    }
}

/// No two elements share a key.
pub open spec fn keys_unique<A>(s: Seq<A>, key: spec_fn(A) -> Seq<char>) -> bool {
    forall|i: int, j: int|
        #![trigger s[i], s[j]]
        0 <= i < s.len() && 0 <= j < s.len() && i != j ==> key(s[i]) != key(s[j])
}

/// Storing an element under its key, in place of the element with the same
/// key (`p` its position) or appended (`p` the length, the key being new),
/// keeps keys unique.
pub proof fn lemma_store_keeps_keys_unique<A>(s: Seq<A>, key: spec_fn(A) -> Seq<char>, r: A, p: int)
    requires
        keys_unique(s, key),
        (0 <= p < s.len() && key(s[p]) == key(r)) || (p == s.len() && forall|i: int|
            0 <= i < s.len() ==> key(#[trigger] s[i]) != key(r)),
    ensures
        keys_unique(if p < s.len() { s.update(p, r) } else { s.push(r) }, key),
{
    let t = if p < s.len() { s.update(p, r) } else { s.push(r) };
    assert forall|a: int, b: int|
        0 <= a < t.len() && 0 <= b < t.len() && a != b implies key(#[trigger] t[a]) != key(
            #[trigger] t[b],
        ) by {
        if a != p && b != p {
            assert(t[a] == s[a] && t[b] == s[b]);
        } else if a == p {
            assert(t[b] == s[b] && t[a] == r);
            if p < s.len() {
                assert(key(s[b]) != key(s[p]));
            }
        } else {
            assert(t[a] == s[a] && t[b] == r);
            if p < s.len() {
                assert(key(s[a]) != key(s[p]));
            }
        }
    }
}

/// The shape of `catalog_insert`: the invariant holds, `r` is stored, and
/// every other position keeps its entry.
pub proof fn lemma_insert_shape(s: Seq<FileRecord>, r: FileRecord)
    requires
        catalog_wf(s),
        r.size >= 0,
    ensures
        catalog_wf(catalog_insert(s, r)),
        exists|k: int| 0 <= k < catalog_insert(s, r).len() && catalog_insert(s, r)[k] == r,
        s.len() <= catalog_insert(s, r).len() <= s.len() + 1,
        forall|j: int|
            0 <= j < s.len() && s[j].file_id != r.file_id ==> #[trigger] catalog_insert(s, r)[j]
                == s[j],
{
    let t = catalog_insert(s, r);
    if has_id(s, r.file_id) {
        let p = position_of_id(s, r.file_id);
        assert(t[p] == r);
        assert forall|j: int| 0 <= j < s.len() && s[j].file_id != r.file_id implies #[trigger] t[j]
            == s[j] by {
            assert(j != p);
        }
        lemma_ids_via_keys(s, r, p);
        assert forall|a: int| 0 <= a < t.len() implies #[trigger] t[a].size >= 0 by {
            if a != p {
                assert(t[a] == s[a]);
            }
        }
    } else {
        assert(t[s.len() as int] == r);
        assert forall|j: int| 0 <= j < s.len() && s[j].file_id != r.file_id implies #[trigger] t[j]
            == s[j] by {}
        lemma_ids_via_keys(s, r, s.len() as int);
        assert forall|a: int| 0 <= a < t.len() implies #[trigger] t[a].size >= 0 by {
            if a < s.len() {
                assert(t[a] == s[a]);
            }
        }
    }
}

/// `ids_unique` through `keys_unique` with the file id as key.
proof fn lemma_ids_via_keys(s: Seq<FileRecord>, r: FileRecord, p: int)
    requires
        ids_unique(s),
        (0 <= p < s.len() && s[p].file_id == r.file_id) || (p == s.len() && !has_id(s, r.file_id)),
    ensures
        ids_unique(if p < s.len() { s.update(p, r) } else { s.push(r) }),
{
    let key = |x: FileRecord| x.file_id;
    assert(keys_unique(s, key)) by {
        assert forall|i: int, j: int| 0 <= i < s.len() && 0 <= j < s.len() && i != j implies key(
            #[trigger] s[i],
        ) != key(#[trigger] s[j]) by {}
    }
    if p == s.len() {
        assert forall|i: int| 0 <= i < s.len() implies key(#[trigger] s[i]) != key(r) by {
            if s[i].file_id == r.file_id {
                assert(has_id(s, r.file_id));
            }
        }
    }
    lemma_store_keeps_keys_unique(s, key, r, p);
    let t = if p < s.len() { s.update(p, r) } else { s.push(r) };
    assert forall|a: int, b: int| 0 <= a < t.len() && 0 <= b < t.len() && a != b implies #[trigger] t[a].file_id
        != #[trigger] t[b].file_id by {
        assert(key(t[a]) != key(t[b]));
    }
}

/// Removing one entry keeps the catalogue invariant, and every remaining
/// entry is one of the catalogue's.
pub proof fn lemma_remove_keeps_wf(s: Seq<FileRecord>, i: int)
    requires
        catalog_wf(s),
        0 <= i < s.len(),
    ensures
        catalog_wf(s.remove(i)),
        forall|a: int| 0 <= a < s.remove(i).len() ==> #[trigger] s.remove(i)[a] == s[if a < i { a } else { a + 1 }],
{
    let t = s.remove(i);
    assert forall|a: int| 0 <= a < t.len() implies #[trigger] t[a] == s[if a < i { a } else { a + 1 }] by {}
    assert forall|a: int, b: int|
        0 <= a < t.len() && 0 <= b < t.len() && a != b implies #[trigger] t[a].file_id
        != #[trigger] t[b].file_id by {
        let a2 = if a < i { a } else { a + 1 };
        let b2 = if b < i { b } else { b + 1 };
        assert(s[a2] == t[a] && s[b2] == t[b]);
    }
    assert forall|a: int| 0 <= a < t.len() implies #[trigger] t[a].size >= 0 by {
        let a2 = if a < i { a } else { a + 1 };
        assert(s[a2] == t[a]);
    }
}

/// The catalogue of file entries.
pub struct FileCatalog {
    entries: Vec<FileInfo>,
}

impl View for FileCatalog {
    type V = Seq<FileRecord>;

    closed spec fn view(&self) -> Seq<FileRecord> {
        records(self.entries@)
    }
}

impl FileCatalog {
    /// The catalogue invariant holds.
    pub open spec fn wf(&self) -> bool {
        catalog_wf(self@)
    }

    /// An empty catalogue.
    pub fn new() -> (c: Self)
        ensures
            c@ == Seq::<FileRecord>::empty(),
            c.wf(),
    {
        let c = FileCatalog { entries: Vec::new() };
        assert(c@ =~= Seq::<FileRecord>::empty());
        c
    }

    /// The number of entries.
    pub fn len(&self) -> (n: usize)
        ensures
            n == self@.len(),
    {
        self.entries.len()
    }

    /// The entry at a position.
    pub fn entry(&self, i: usize) -> (e: &FileInfo)
        requires
            i < self@.len(),
        ensures
            e@ == self@[i as int],
    {
        &self.entries[i]
    }

    /// The position of the entry with the given id, if there is one.
    pub fn index_of_id(&self, id: &str) -> (r: Option<usize>)
        ensures
            match r {
                Some(i) => i < self@.len() && self@[i as int].file_id == id@,
                None => !has_id(self@, id@),
            },
    {
        let mut i: usize = 0;
        while i < self.entries.len()
            invariant
                i <= self.entries@.len(),
                self@ == records(self.entries@),
                forall|j: int| 0 <= j < i ==> #[trigger] self@[j].file_id != id@,
            decreases self.entries@.len() - i,
        {
            if same_text(self.entries[i].file_id.as_str(), id) {
                return Some(i);
            }
            i = i + 1;
        }
        None
    }

    /// The position of the first entry with the given path, if there is one.
    pub fn first_index_of_path(&self, path: &str) -> (r: Option<usize>)
        ensures
            match r {
                Some(i) => i < self@.len() && self@[i as int].path == path@ && forall|j: int|
                    0 <= j < i ==> #[trigger] self@[j].path != path@,
                None => forall|j: int| 0 <= j < self@.len() ==> #[trigger] self@[j].path != path@,
            },
    {
        let mut i: usize = 0;
        while i < self.entries.len()
            invariant
                i <= self.entries@.len(),
                self@ == records(self.entries@),
                forall|j: int| 0 <= j < i ==> #[trigger] self@[j].path != path@,
            decreases self.entries@.len() - i,
        {
            if same_text(self.entries[i].path.as_str(), path) {
                return Some(i);
            }
            i = i + 1;
        }
        None
    }

    /// Whether some directory entry has exactly the given path.
    pub fn has_directory_at(&self, path: &str) -> (b: bool)
        ensures
            b == exists|j: int|
                0 <= j < self@.len() && #[trigger] self@[j].path == path@ && self@[j].is_directory,
    {
        let mut i: usize = 0;
        while i < self.entries.len()
            invariant
                i <= self.entries@.len(),
                self@ == records(self.entries@),
                forall|j: int|
                    0 <= j < i ==> !(#[trigger] self@[j].path == path@ && self@[j].is_directory),
            decreases self.entries@.len() - i,
        {
            if self.entries[i].is_directory && same_text(self.entries[i].path.as_str(), path) {
                assert(self@[i as int].path == path@);
                return true;
            }
            i = i + 1;
        }
        false
    }

    /// Stores an entry under its id: replaces the entry with the same id, or
    /// appends it.
    pub fn insert(&mut self, info: FileInfo)
        requires
            old(self).wf(),
            info@.size >= 0,
        ensures
            final(self).wf(),
            final(self)@ == catalog_insert(old(self)@, info@),
    {
        let ghost r = info@;
        match self.index_of_id(info.file_id.as_str()) {
            Some(i) => {
                self.entries.set(i, info);
                assert(self@ =~= old(self)@.update(i as int, r));
                assert(has_id(old(self)@, r.file_id));
                let ghost p = position_of_id(old(self)@, r.file_id);
                assert(p == i as int) by {
                    if p != i as int {
                        assert(old(self)@[p].file_id == old(self)@[i as int].file_id);
                    }
                }
            },
            None => {
                self.entries.push(info);
                assert(self@ =~= old(self)@.push(r));
            },
        }
        proof {
            lemma_insert_shape(old(self)@, r);
        }
    }

    /// Removes the entry at a position.
    pub fn remove_at(&mut self, i: usize)
        requires
            old(self).wf(),
            i < old(self)@.len(),
        ensures
            final(self).wf(),
            final(self)@ == old(self)@.remove(i as int),
    {
        self.entries.remove(i);
        assert(self@ =~= old(self)@.remove(i as int));
        proof {
            lemma_remove_keeps_wf(old(self)@, i as int);
        }
    }

    /// How many entries have a path that starts with `dir` (as a string).
    pub fn count_under(&self, dir: &str) -> (n: usize)
        ensures
            n == self@.filter(under_prefix(dir@)).len(),
    {
        let ghost s = self@;
        let ghost drop = under_prefix(dir@);
        let mut count: usize = 0;
        let mut i: usize = 0;
        let n = self.entries.len();
        while i < n
            invariant
                n == self.entries@.len(),
                s == records(self.entries@),
                drop == under_prefix(dir@),
                i <= n,
                count as int == s.take(i as int).filter(drop).len(),
                count <= i,
            decreases n - i,
        {
            let ghost t = s.take(i as int);
            assert(s.take(i + 1) =~= t.push(s[i as int]));
            proof {
                t.lemma_filter_push(s[i as int], drop);
            }
            assert(self.entries@[i as int]@ == s[i as int]);
            if starts_with(self.entries[i].path.as_str(), dir) {
                count = count + 1;
            }
            i = i + 1;
        }
        assert(s.take(n as int) =~= s);
        count
    }

    /// Removes every entry whose path starts with `dir` (as a string prefix)
    /// and returns how many were removed.
    pub fn remove_under(&mut self, dir: &str) -> (removed: usize)
        requires
            old(self).wf(),
        ensures
            final(self).wf(),
            final(self)@ == old(self)@.filter(outside_prefix(dir@)),
            removed == old(self)@.len() - final(self)@.len(),
            removed == old(self)@.filter(under_prefix(dir@)).len(),
    {
        let ghost s = self@;
        let ghost keep = outside_prefix(dir@);
        let ghost drop = under_prefix(dir@);
        let mut kept: Vec<FileInfo> = Vec::new();
        let mut removed: usize = 0;
        let mut i: usize = 0;
        let n = self.entries.len();
        while i < n
            invariant
                n == self.entries@.len(),
                s == records(self.entries@),
                keep == outside_prefix(dir@),
                drop == under_prefix(dir@),
                i <= n,
                records(kept@) == s.take(i as int).filter(keep),
                removed as int == s.take(i as int).filter(drop).len(),
                removed + kept@.len() == i,
            decreases n - i,
        {
            let ghost t = s.take(i as int);
            assert(s.take(i + 1) =~= t.push(s[i as int]));
            proof {
                t.lemma_filter_push(s[i as int], keep);
                t.lemma_filter_push(s[i as int], drop);
            }
            let e = self.entries[i].duplicate();
            assert(e@ == s[i as int]);
            assert(keep(s[i as int]) == !has_prefix(s[i as int].path, dir@));
            assert(drop(s[i as int]) == has_prefix(s[i as int].path, dir@));
            if starts_with(e.path.as_str(), dir) {
                removed = removed + 1;
            } else {
                kept.push(e);
                assert(records(kept@) =~= t.filter(keep).push(s[i as int]));
            }
            i = i + 1;
        }
        assert(s.take(n as int) =~= s);
        proof {
            lemma_filter_keeps_wf(s, keep);
        }
        self.entries = kept;
        removed
    }
}

} // verus!
