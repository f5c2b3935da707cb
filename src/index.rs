//! The index from display name to identifier list.

use vstd::prelude::*;

verus! {

/// The map that a list of (name, identifiers) entries stands for, later
/// entries taking precedence.
pub open spec fn entries_map(e: Seq<(String, Vec<i32>)>) -> Map<Seq<char>, Seq<i32>>
    decreases e.len(),
{
    if e.len() == 0 {
        Map::empty()
    } else {
        entries_map(e.drop_last()).insert(e.last().0@, e.last().1@)
    }
}

pub open spec fn keys_unique(e: Seq<(String, Vec<i32>)>) -> bool {
    forall|i: int, j: int| 0 <= i < e.len() && 0 <= j < e.len() && i != j ==> e[i].0@ != e[j].0@
}

/// Name to identifier list, each name at most once, no list empty.
pub struct DexIndex {
    entries: Vec<(String, Vec<i32>)>,
}

impl View for DexIndex {
    type V = Map<Seq<char>, Seq<i32>>;

    closed spec fn view(&self) -> Map<Seq<char>, Seq<i32>> {
        entries_map(self.entries@)
    }
}

proof fn lemma_entries_dom(e: Seq<(String, Vec<i32>)>, k: Seq<char>)
    ensures
        entries_map(e).dom().contains(k) <==> exists|i: int| 0 <= i < e.len() && e[i].0@ == k,
        entries_map(e).dom().finite(),
    decreases e.len(),
{
    if e.len() > 0 {
        lemma_entries_dom(e.drop_last(), k);
        if entries_map(e.drop_last()).dom().contains(k) {
            let i = choose|i: int| 0 <= i < e.drop_last().len() && e.drop_last()[i].0@ == k;
            assert(e[i].0@ == k);
        }
        if exists|i: int| 0 <= i < e.len() && e[i].0@ == k {
            let i = choose|i: int| 0 <= i < e.len() && e[i].0@ == k;
            if i < e.len() - 1 {
                assert(e.drop_last()[i].0@ == k);
            }
        }
    }
}

proof fn lemma_entries_value(e: Seq<(String, Vec<i32>)>, i: int)
    requires
        keys_unique(e),
        0 <= i < e.len(),
    ensures
        entries_map(e).dom().contains(e[i].0@),
        entries_map(e)[e[i].0@] == e[i].1@,
    decreases e.len(),
{
    if i < e.len() - 1 {
        assert(e.drop_last()[i] == e[i]);
        lemma_entries_value(e.drop_last(), i);
    }
}

proof fn lemma_entries_update(e: Seq<(String, Vec<i32>)>, i: int, x: (String, Vec<i32>))
    requires
        keys_unique(e),
        0 <= i < e.len(),
        x.0@ == e[i].0@,
    ensures
        entries_map(e.update(i, x)) == entries_map(e).insert(x.0@, x.1@),
    decreases e.len(),
{
    let u = e.update(i, x);
    if i == e.len() - 1 {
        assert(u.drop_last() =~= e.drop_last());
        assert(entries_map(u) =~= entries_map(e).insert(x.0@, x.1@));
    } else {
        assert(u.drop_last() =~= e.drop_last().update(i, x));
        lemma_entries_update(e.drop_last(), i, x);
        assert(e.last().0@ != x.0@);
        assert(entries_map(u) =~= entries_map(e).insert(x.0@, x.1@));
    }
}

proof fn lemma_entries_len(e: Seq<(String, Vec<i32>)>)
    requires
        keys_unique(e),
    ensures
        entries_map(e).len() == e.len(),
    decreases e.len(),
{
    if e.len() > 0 {
        let d = e.drop_last();
        lemma_entries_len(d);
        lemma_entries_dom(d, e.last().0@);
        if d.len() > 0 {
            assert(forall|i: int| 0 <= i < d.len() ==> d[i] == e[i]);
        }
        assert(!entries_map(d).dom().contains(e.last().0@));
        assert(entries_map(e).dom() == entries_map(d).dom().insert(e.last().0@));
    }
}

impl DexIndex {
    pub closed spec fn wf(&self) -> bool {
        &&& keys_unique(self.entries@)
        &&& forall|i: int| 0 <= i < self.entries@.len() ==> self.entries@[i].1@.len() > 0
    }

    /// No name of a well-formed index maps to an empty list.
    pub proof fn lemma_values_nonempty(&self, k: Seq<char>)
        requires
            self.wf(),
            self@.dom().contains(k),
        ensures
            self@[k].len() > 0,
    {
        lemma_entries_dom(self.entries@, k);
        let i = choose|i: int| 0 <= i < self.entries@.len() && self.entries@[i].0@ == k;
        lemma_entries_value(self.entries@, i);
    }

    pub fn new() -> (r: DexIndex)
        ensures
            r.wf(),
            r@ == Map::<Seq<char>, Seq<i32>>::empty(),
    {
        DexIndex { entries: Vec::new() }
    }

    /// Maps `key` to `ids`, replacing what `key` mapped to before.
    pub fn insert(&mut self, key: String, ids: Vec<i32>)
        requires
            old(self).wf(),
            ids@.len() > 0,
        ensures
            final(self).wf(),
            final(self)@ == old(self)@.insert(key@, ids@),
    {
        let mut i: usize = 0;
        while i < self.entries.len()
            invariant
                i <= self.entries.len(),
                self.wf(),
                ids@.len() > 0,
                *self == *old(self),
                forall|j: int| 0 <= j < i ==> self.entries@[j].0@ != key@,
            decreases self.entries.len() - i,
        {
            if self.entries[i].0 == key {
                let ghost e = self.entries@;
                let x = (key, ids);
                proof {
                    lemma_entries_update(e, i as int, x);
                }
                self.entries.set(i, x);
                assert(self.entries@ == e.update(i as int, x));
                assert(keys_unique(self.entries@)) by {
                    assert(forall|j: int| 0 <= j < e.len() ==> #[trigger] self.entries@[j].0@ == e[j].0@);
                }
                return;
            }
            i = i + 1;
        }
        let ghost e = self.entries@;
        self.entries.push((key, ids));
        assert(self.entries@.drop_last() =~= e);
        assert(forall|j: int| 0 <= j < e.len() ==> #[trigger] self.entries@[j] == e[j]);
    }

    /// The identifier list of `key`, if the index holds one.
    pub fn get(&self, key: &String) -> (r: Option<&Vec<i32>>)
        requires
            self.wf(),
        ensures
            r matches Some(v) ==> self@.dom().contains(key@) && self@[key@] == v@,
            r is None ==> !self@.dom().contains(key@),
    {
        let mut i: usize = 0;
        while i < self.entries.len()
            invariant
                i <= self.entries.len(),
                self.wf(),
                forall|j: int| 0 <= j < i ==> self.entries@[j].0@ != key@,
            decreases self.entries.len() - i,
        {
            if self.entries[i].0 == *key {
                proof {
                    lemma_entries_value(self.entries@, i as int);
                }
                return Some(&self.entries[i].1);
            }
            i = i + 1;
        }
        proof {
            lemma_entries_dom(self.entries@, key@);
        }
        None
    }

    /// The number of distinct names.
    pub fn len(&self) -> (r: usize)
        requires
            self.wf(),
        ensures
            r == self@.len(),
    {
        proof {
            lemma_entries_len(self.entries@);
        }
        self.entries.len()
    }
}

} // verus!
