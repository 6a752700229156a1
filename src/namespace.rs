use vstd::prelude::*;

use crate::value::AmlValue;

verus! {

/// The map that a list of entries stands for: later entries win over earlier ones.
pub open spec fn entries_map(s: Seq<(Seq<u8>, AmlValue)>) -> Map<Seq<u8>, AmlValue>
    decreases s.len(),
{
    if s.len() == 0 {
        Map::empty()
    } else {
        entries_map(s.drop_last()).insert(s.last().0, s.last().1)
    }
}

/// No two entries share a path.
pub open spec fn keys_unique(s: Seq<(Seq<u8>, AmlValue)>) -> bool {
    forall|i: int, j: int| 0 <= i < j < s.len() ==> s[i].0 != s[j].0
}

proof fn lemma_entries_map_lookup(s: Seq<(Seq<u8>, AmlValue)>, k: Seq<u8>)
    requires
        keys_unique(s),
    ensures
        entries_map(s).contains_key(k) <==> exists|i: int| 0 <= i < s.len() && s[i].0 == k,
        forall|i: int| 0 <= i < s.len() && s[i].0 == k ==> entries_map(s)[k] == s[i].1,
    decreases s.len(),
{
    if s.len() > 0 {
        let d = s.drop_last();
        let n = s.len() - 1;
        assert(keys_unique(d));
        lemma_entries_map_lookup(d, k);
        if entries_map(s).contains_key(k) {
            if s[n].0 != k {
                let i = choose|i: int| 0 <= i < d.len() && d[i].0 == k;
                assert(s[i].0 == k);
            }
        }
        if exists|i: int| 0 <= i < s.len() && s[i].0 == k {
            let i = choose|i: int| 0 <= i < s.len() && s[i].0 == k;
            if i < n {
                assert(d[i].0 == k);
            }
        }
        assert forall|i: int| 0 <= i < s.len() && s[i].0 == k implies entries_map(s)[k] == s[i].1 by {
            if i < n {
                assert(d[i].0 == k);
                assert(s[n].0 != k);
            }
        }
    }
}

proof fn lemma_entries_map_update(s: Seq<(Seq<u8>, AmlValue)>, i: int, v: AmlValue)
    requires
        keys_unique(s),
        0 <= i < s.len(),
    ensures
        entries_map(s.update(i, (s[i].0, v))) == entries_map(s).insert(s[i].0, v),
    decreases s.len(),
{
    let t = s.update(i, (s[i].0, v));
    let d = s.drop_last();
    if i == s.len() - 1 {
        assert(t.drop_last() =~= d);
        assert(entries_map(t) =~= entries_map(s).insert(s[i].0, v));
    } else {
        assert(t.drop_last() =~= d.update(i, (d[i].0, v)));
        lemma_entries_map_update(d, i, v);
        assert(s.last().0 != s[i].0);
        assert(entries_map(t) =~= entries_map(s).insert(s[i].0, v));
    }
}

/// Whether two byte strings are equal.
pub fn bytes_equal(a: &[u8], b: &[u8]) -> (r: bool)
    ensures
        r == (a@ == b@),
{
    if a.len() != b.len() {
        return false;
    }
    let mut i: usize = 0;
    while i < a.len()
        invariant
            a@.len() == b@.len(),
            i <= a@.len(),
            forall|j: int| 0 <= j < i ==> a@[j] == b@[j],
        decreases a@.len() - i,
    {
        if a[i] != b[i] {
            return false;
        }
        i = i + 1;
    }
    assert(a@ =~= b@);
    true
}

/// The store of decoded objects, keyed by absolute path, kept in the order paths first appeared.
pub struct Namespace {
    entries: Vec<(Vec<u8>, AmlValue)>,
}

impl Namespace {
    /// The entries in order, paths as byte sequences.
    pub closed spec fn entries_view(&self) -> Seq<(Seq<u8>, AmlValue)> {
        self.entries@.map_values(|e: (Vec<u8>, AmlValue)| (e.0@, e.1))
    }

    /// The store as a map from path to value.
    pub open spec fn view(&self) -> Map<Seq<u8>, AmlValue> {
        entries_map(self.entries_view())
    }

    /// Paths are unique.
    pub open spec fn wf(&self) -> bool {
        keys_unique(self.entries_view())
    }

    /// An empty store.
    pub fn new() -> (r: Namespace)
        ensures
            r.wf(),
            r.view() == Map::<Seq<u8>, AmlValue>::empty(),
            r.entries_view().len() == 0,
    {
        let r = Namespace { entries: Vec::new() };
        assert(r.entries_view() =~= Seq::empty());
        r
    }

    /// Number of paths in the store.
    pub fn len(&self) -> (r: usize)
        requires
            self.wf(),
        ensures
            r == self.view().dom().len(),
    {
        proof {
            self.lemma_dom_len();
        }
        self.entries.len()
    }

    proof fn lemma_dom_len(&self)
        requires
            self.wf(),
        ensures
            self.view().dom().len() == self.entries@.len(),
    {
        lemma_unique_map_len(self.entries_view());
    }

    /// The value stored at `path`.
    pub fn get(&self, path: &[u8]) -> (r: Option<AmlValue>)
        requires
            self.wf(),
        ensures
            r == (if self.view().contains_key(path@) {
                Some(self.view()[path@])
            } else {
                None::<AmlValue>
            }),
    {
        let ghost s = self.entries_view();
        proof {
            lemma_entries_map_lookup(s, path@);
        }
        assert(self.view() == entries_map(s));
        let mut i: usize = 0;
        while i < self.entries.len()
            invariant
                s == self.entries_view(),
                keys_unique(s),
                i <= s.len(),
                forall|j: int| 0 <= j < i ==> s[j].0 != path@,
            decreases s.len() - i,
        {
            if bytes_equal(self.entries[i].0.as_slice(), path) {
                assert(s[i as int].0 == path@);
                assert(s[i as int].1 == self.entries@[i as int].1);
                proof {
                    lemma_entries_map_lookup(s, path@);
                }
                assert(self.view().contains_key(path@));
                assert(self.view()[path@] == s[i as int].1);
                return Some(self.entries[i].1);
            }
            i = i + 1;
        }
        None
    }

    /// Stores `value` at `path`, replacing what was there; a new path goes last.
    pub fn insert(&mut self, path: Vec<u8>, value: AmlValue)
        requires
            old(self).wf(),
        ensures
            final(self).wf(),
            final(self).view() == old(self).view().insert(path@, value),
            !old(self).view().contains_key(path@) ==> final(self).entries_view()
                == old(self).entries_view().push((path@, value)),
            old(self).view().contains_key(path@) ==> final(self).entries_view().len()
                == old(self).entries_view().len() && forall|j: int|
                0 <= j < old(self).entries_view().len() ==> final(self).entries_view()[j].0
                    == old(self).entries_view()[j].0,
    {
        let ghost s = self.entries_view();
        let ghost before = self.view();
        let mut i: usize = 0;
        while i < self.entries.len()
            invariant
                s == self.entries_view(),
                before == entries_map(s),
                s == old(self).entries_view(),
                keys_unique(s),
                i <= s.len(),
                forall|j: int| 0 <= j < i ==> s[j].0 != path@,
            decreases s.len() - i,
        {
            if bytes_equal(self.entries[i].0.as_slice(), path.as_slice()) {
                assert(s[i as int].0 == path@);
                self.entries.set(i, (path, value));
                proof {
                    lemma_entries_map_lookup(s, path@);
                    lemma_entries_map_update(s, i as int, value);
                    assert(self.entries_view() =~= s.update(i as int, (s[i as int].0, value)));
                    assert(self.view() == entries_map(s).insert(s[i as int].0, value));
                }
                return;
            }
            i = i + 1;
        }
        self.entries.push((path, value));
        proof {
            lemma_entries_map_lookup(s, path@);
            assert(self.entries_view() =~= s.push((path@, value)));
            assert(self.entries_view().drop_last() =~= s);
            assert(keys_unique(self.entries_view()));
        }
    }
}

proof fn lemma_unique_map_len(s: Seq<(Seq<u8>, AmlValue)>)
    requires
        keys_unique(s),
    ensures
        entries_map(s).dom().len() == s.len(),
    decreases s.len(),
{
    if s.len() > 0 {
        let d = s.drop_last();
        lemma_unique_map_len(d);
        lemma_entries_map_lookup(d, s.last().0);
        assert(!entries_map(d).contains_key(s.last().0));
        lemma_entries_map_dom_finite(d);
    }
}

proof fn lemma_entries_map_dom_finite(s: Seq<(Seq<u8>, AmlValue)>)
    ensures
        entries_map(s).dom().finite(),
    decreases s.len(),
{
    if s.len() > 0 {
        lemma_entries_map_dom_finite(s.drop_last());
    }
}

} // verus!
