use vstd::prelude::*;

use crate::types::Identity;

verus! {

/// The mathematical form of an allocation map: entries in insertion order,
/// each an identity's bytes with its amount.
pub type Entries = Seq<(Seq<u8>, u64)>;

/// How many entries a page of a listing holds at most.
pub const PAGE_SIZE: u64 = 100;

/// No identity appears twice among the entries.
pub open spec fn keys_unique(s: Entries) -> bool {
    forall|i: int, j: int| 0 <= i < s.len() && 0 <= j < s.len() && i != j ==> s[i].0 != s[j].0
}

/// Whether `k` has an entry.
pub open spec fn has_key(s: Entries, k: Seq<u8>) -> bool {
    exists|i: int| 0 <= i < s.len() && s[i].0 == k
}

/// The position of the entry of `k` (meaningful when `has_key(s, k)`).
pub open spec fn index_of(s: Entries, k: Seq<u8>) -> int {
    choose|i: int| 0 <= i < s.len() && s[i].0 == k
}

/// The amount recorded for `k`, if any.
pub open spec fn lookup(s: Entries, k: Seq<u8>) -> Option<u64> {
    if has_key(s, k) {
        Some(s[index_of(s, k)].1)
    } else {
        None
    }
}

/// Records `v` for `k`: overwrites the entry of `k` in place, or appends one.
pub open spec fn upsert(s: Entries, k: Seq<u8>, v: u64) -> Entries {
    if has_key(s, k) {
        s.update(index_of(s, k), (k, v))
    } else {
        s.push((k, v))
    }
}

/// Drops the entry of `k`, if any, keeping the order of the others.
pub open spec fn remove_key(s: Entries, k: Seq<u8>) -> Entries {
    if has_key(s, k) {
        s.remove(index_of(s, k))
    } else {
        s
    }
}

/// The page of entries that starts at `start`: empty when `start` is past the
/// end, else at most `PAGE_SIZE` entries.
pub open spec fn page_of(s: Entries, start: int) -> Entries {
    if start >= s.len() {
        Seq::empty()
    } else if start + PAGE_SIZE >= s.len() {
        s.subrange(start, s.len() as int)
    } else {
        s.subrange(start, start + PAGE_SIZE)
    }
}

/// A page that starts past the end is empty; any other holds
/// `min(PAGE_SIZE, len - start)` entries, the entries from `start` on.
pub proof fn lemma_page_len(s: Entries, start: int)
    requires
        start >= 0,
    ensures
        start >= s.len() ==> page_of(s, start).len() == 0,
        start < s.len() ==> page_of(s, start).len() == if s.len() - start < PAGE_SIZE {
            s.len() - start
        } else {
            PAGE_SIZE as int
        },
        forall|i: int| 0 <= i < page_of(s, start).len() ==> #[trigger] page_of(s, start)[i] == s[start + i],
{
}

/// The mathematical form of a sequence of executable entries.
pub open spec fn entries_view(v: Seq<(Identity, u64)>) -> Entries {
    v.map_values(|e: (Identity, u64)| (e.0@, e.1))
}

/// With unique keys, an entry found at `i` is the one `index_of` picks.
pub proof fn lemma_index_of_unique(s: Entries, i: int)
    requires
        keys_unique(s),
        0 <= i < s.len(),
    ensures
        has_key(s, s[i].0),
        index_of(s, s[i].0) == i,
        lookup(s, s[i].0) == Some(s[i].1),
{
    assert(has_key(s, s[i].0));
}

/// Overwriting or appending keeps keys unique.
pub proof fn lemma_upsert_unique(s: Entries, k: Seq<u8>, v: u64)
    requires
        keys_unique(s),
    ensures
        keys_unique(upsert(s, k, v)),
        has_key(upsert(s, k, v), k),
        lookup(upsert(s, k, v), k) == Some(v),
        forall|k2: Seq<u8>| k2 != k ==> lookup(upsert(s, k, v), k2) == lookup(s, k2),
{
    let r = upsert(s, k, v);
    let n: int = if has_key(s, k) { index_of(s, k) } else { s.len() as int };
    assert(r[n] == (k, v));
    assert(keys_unique(r));
    lemma_index_of_unique(r, n);
    assert forall|k2: Seq<u8>| k2 != k implies lookup(r, k2) == lookup(s, k2) by {
        if has_key(s, k2) {
            let j = index_of(s, k2);
            assert(r[j] == s[j]);
            lemma_index_of_unique(r, j);
        } else if has_key(r, k2) {
            let j = index_of(r, k2);
            assert(s[j] == r[j]);
        }
    }
}

/// Removing an entry keeps keys unique, and only `k` loses its amount.
pub proof fn lemma_remove_unique(s: Entries, k: Seq<u8>)
    requires
        keys_unique(s),
    ensures
        keys_unique(remove_key(s, k)),
        !has_key(remove_key(s, k), k),
        forall|k2: Seq<u8>| k2 != k ==> lookup(remove_key(s, k), k2) == lookup(s, k2),
{
    let r = remove_key(s, k);
    if has_key(s, k) {
        let n = index_of(s, k);
        assert forall|i: int| 0 <= i < r.len() implies r[i] == (if i < n { s[i] } else { s[i + 1] }) by {}
        assert(keys_unique(r));
        if has_key(r, k) {
            let j = index_of(r, k);
            assert(false);
        }
        assert forall|k2: Seq<u8>| k2 != k implies lookup(r, k2) == lookup(s, k2) by {
            if has_key(s, k2) {
                let j = index_of(s, k2);
                let jr: int = if j < n { j } else { j - 1 };
                assert(r[jr] == s[j]);
                lemma_index_of_unique(r, jr);
            } else if has_key(r, k2) {
                let j = index_of(r, k2);
                assert(false) by {
                    if j < n {
                        assert(s[j] == r[j]);
                    } else {
                        assert(s[j + 1] == r[j]);
                    }
                }
            }
        }
    }
}

/// A mapping from identities to amounts, one entry per identity, listed in
/// the order the identities were first recorded.
pub struct AllocationMap {
    entries: Vec<(Identity, u64)>,
}

impl View for AllocationMap {
    type V = Entries;

    closed spec fn view(&self) -> Entries {
        entries_view(self.entries@)
    }
}

impl AllocationMap {
    /// Each identity has at most one entry.
    pub open spec fn wf(&self) -> bool {
        keys_unique(self@)
    }

    /// An empty map.
    pub fn new() -> (r: AllocationMap)
        ensures
            r.wf(),
            r@ == Seq::<(Seq<u8>, u64)>::empty(),
    {
        let r = AllocationMap { entries: Vec::new() };
        assert(r@ =~= Seq::<(Seq<u8>, u64)>::empty());
        r
    }

    /// The number of entries.
    pub fn len(&self) -> (r: usize)
        ensures
            r == self@.len(),
    {
        self.entries.len()
    }

    /// The position of the entry of `id`, if any.
    fn find(&self, id: &Identity) -> (r: Option<usize>)
        requires
            self.wf(),
        ensures
            match r {
                Some(i) => i < self@.len() && self@[i as int].0 == id@ && index_of(self@, id@) == i,
                None => !has_key(self@, id@),
            },
    {
        let mut i: usize = 0;
        while i < self.entries.len()
            invariant
                self.wf(),
                0 <= i <= self@.len(),
                self@.len() == self.entries@.len(),
                forall|j: int| 0 <= j < i ==> self@[j].0 != id@,
            decreases self@.len() - i,
        {
            if self.entries[i].0.same_as(id) {
                proof {
                    lemma_index_of_unique(self@, i as int);
                }
                return Some(i);
            }
            i = i + 1;
        }
        None
    }

    /// The amount recorded for `id`.
    pub fn get(&self, id: &Identity) -> (r: Option<u64>)
        requires
            self.wf(),
        ensures
            r == lookup(self@, id@),
    {
        match self.find(id) {
            Some(i) => {
                proof {
                    lemma_index_of_unique(self@, i as int);
                }
                Some(self.entries[i].1)
            },
            None => None,
        }
    }

    /// Records `amount` for `id`, overwriting any earlier amount.
    pub fn put(&mut self, id: Identity, amount: u64)
        requires
            old(self).wf(),
        ensures
            final(self).wf(),
            final(self)@ == upsert(old(self)@, id@, amount),
    {
        proof {
            lemma_upsert_unique(self@, id@, amount);
        }
        let ghost k = id@;
        match self.find(&id) {
            Some(i) => {
                self.entries.set(i, (id, amount));
                assert(self@ =~= upsert(old(self)@, k, amount));
            },
            None => {
                self.entries.push((id, amount));
                assert(self@ =~= upsert(old(self)@, k, amount));
            },
        }
    }

    /// Drops the entry of `id`, if any.
    pub fn remove(&mut self, id: &Identity)
        requires
            old(self).wf(),
        ensures
            final(self).wf(),
            final(self)@ == remove_key(old(self)@, id@),
    {
        proof {
            lemma_remove_unique(self@, id@);
        }
        match self.find(id) {
            Some(i) => {
                let _ = self.entries.remove(i);
                assert(self@ =~= remove_key(old(self)@, id@));
            },
            None => {},
        }
    }

    /// Drops every entry.
    pub fn clear(&mut self)
        ensures
            final(self).wf(),
            final(self)@ == Seq::<(Seq<u8>, u64)>::empty(),
    {
        self.entries.clear();
        assert(self@ =~= Seq::<(Seq<u8>, u64)>::empty());
    }

    /// A copy of the entries from position `start` up to `end`.
    fn copy_range(&self, start: usize, end: usize) -> (r: Vec<(Identity, u64)>)
        requires
            start <= end <= self@.len(),
        ensures
            entries_view(r@) == self@.subrange(start as int, end as int),
    {
        let mut r: Vec<(Identity, u64)> = Vec::new();
        let mut i: usize = start;
        while i < end
            invariant
                start <= i <= end <= self@.len(),
                self@.len() == self.entries@.len(),
                entries_view(r@) == self@.subrange(start as int, i as int),
            decreases end - i,
        {
            let ghost old_r = r@;
            let id = self.entries[i].0.duplicate();
            r.push((id, self.entries[i].1));
            assert(entries_view(r@) =~= entries_view(old_r).push(self@[i as int]));
            i = i + 1;
            assert(entries_view(r@) =~= self@.subrange(start as int, i as int));
        }
        r
    }

    /// A copy of all entries, in order.
    pub fn to_vec(&self) -> (r: Vec<(Identity, u64)>)
        ensures
            entries_view(r@) == self@,
    {
        let r = self.copy_range(0, self.entries.len());
        assert(self@.subrange(0, self@.len() as int) =~= self@);
        r
    }

    /// The page of entries that starts at `start`.
    pub fn page(&self, start: u64) -> (r: Vec<(Identity, u64)>)
        ensures
            entries_view(r@) == page_of(self@, start as int),
    {
        let n = self.entries.len();
        if start as u128 >= n as u128 {
            let r: Vec<(Identity, u64)> = Vec::new();
            assert(entries_view(r@) =~= page_of(self@, start as int));
            return r;
        }
        let s = start as usize;
        let end: usize = if n - s <= PAGE_SIZE as usize { n } else { s + PAGE_SIZE as usize };
        self.copy_range(s, end)
    }
}

} // verus!
