//! A map from link reference labels to their destinations.

use vstd::prelude::*;
use crate::text::{chars_eq, chars_of, views};

verus! {

/// Link reference definitions: lowercase label to destination (`url` or
/// `url "title"`).
pub struct LinkRefDefs {
    keys: Vec<String>,
    values: Vec<String>,
}

/// The map built by inserting the pairs in order.
pub open spec fn pairs_map(ks: Seq<Seq<char>>, vs: Seq<Seq<char>>) -> Map<Seq<char>, Seq<char>>
    decreases ks.len(),
{
    if ks.len() == 0 || vs.len() == 0 {
        Map::empty()
    } else {
        pairs_map(ks.drop_last(), vs.drop_last()).insert(ks.last(), vs.last())
    }
}

proof fn lemma_pairs_map_dom(ks: Seq<Seq<char>>, vs: Seq<Seq<char>>)
    requires
        ks.len() == vs.len(),
    ensures
        pairs_map(ks, vs).dom() == ks.to_set(),
    decreases ks.len(),
{
    if ks.len() > 0 {
        lemma_pairs_map_dom(ks.drop_last(), vs.drop_last());
        assert(ks.to_set() =~= ks.drop_last().to_set().insert(ks.last())) by {
            assert forall|k: Seq<char>| ks.contains(k) implies ks.drop_last().contains(k) || k == ks.last() by {
                let i = choose|i: int| 0 <= i < ks.len() && ks[i] == k;
                if i < ks.len() - 1 {
                    assert(ks.drop_last()[i] == k);
                }
            }
            assert forall|k: Seq<char>| ks.drop_last().contains(k) implies ks.contains(k) by {
                let i = choose|i: int| 0 <= i < ks.drop_last().len() && ks.drop_last()[i] == k;
                assert(ks[i] == k);
            }
        }
    } else {
        assert(ks.to_set() =~= Set::<Seq<char>>::empty());
    }
}

proof fn lemma_pairs_map_at(ks: Seq<Seq<char>>, vs: Seq<Seq<char>>, j: int)
    requires
        ks.len() == vs.len(),
        ks.no_duplicates(),
        0 <= j < ks.len(),
    ensures
        pairs_map(ks, vs).dom().contains(ks[j]),
        pairs_map(ks, vs)[ks[j]] == vs[j],
    decreases ks.len(),
{
    if j < ks.len() - 1 {
        lemma_pairs_map_at(ks.drop_last(), vs.drop_last(), j);
        assert(ks[j] != ks.last());
    }
}

proof fn lemma_pairs_map_update(ks: Seq<Seq<char>>, vs: Seq<Seq<char>>, j: int, v: Seq<char>)
    requires
        ks.len() == vs.len(),
        ks.no_duplicates(),
        0 <= j < ks.len(),
    ensures
        pairs_map(ks, vs.update(j, v)) == pairs_map(ks, vs).insert(ks[j], v),
    decreases ks.len(),
{
    let vs2 = vs.update(j, v);
    if j == ks.len() - 1 {
        assert(vs2.drop_last() =~= vs.drop_last());
        assert(pairs_map(ks, vs2) =~= pairs_map(ks, vs).insert(ks[j], v));
    } else {
        assert(vs2.drop_last() =~= vs.drop_last().update(j, v));
        lemma_pairs_map_update(ks.drop_last(), vs.drop_last(), j, v);
        assert(ks[j] != ks.last());
        assert(pairs_map(ks, vs2) =~= pairs_map(ks, vs).insert(ks[j], v));
    }
}

impl LinkRefDefs {
    pub closed spec fn key_views(&self) -> Seq<Seq<char>> {
        views(self.keys@)
    }

    pub closed spec fn value_views(&self) -> Seq<Seq<char>> {
        views(self.values@)
    }

    /// The keys are distinct and each has a value.
    pub closed spec fn wf(&self) -> bool {
        &&& self.keys.len() == self.values.len()
        &&& self.key_views().no_duplicates()
    }

    pub closed spec fn view(&self) -> Map<Seq<char>, Seq<char>> {
        pairs_map(self.key_views(), self.value_views())
    }

    pub fn new() -> (r: Self)
        ensures
            r.wf(),
            r.view() == Map::<Seq<char>, Seq<char>>::empty(),
    {
        let r = LinkRefDefs { keys: Vec::new(), values: Vec::new() };
        assert(r.key_views() =~= Seq::<Seq<char>>::empty());
        r
    }

    /// Index of `key`, if present.
    fn find(&self, key: &str) -> (r: Option<usize>)
        requires
            self.wf(),
        ensures
            match r {
                Some(j) => j < self.keys.len() && self.key_views()[j as int] == key@,
                None => !self.key_views().contains(key@),
            },
    {
        let k = chars_of(key);
        let mut j: usize = 0;
        while j < self.keys.len()
            invariant
                j <= self.keys.len(),
                k@ == key@,
                forall|i: int| 0 <= i < j ==> self.key_views()[i] != key@,
            decreases self.keys.len() - j,
        {
            let kj = chars_of(self.keys[j].as_str());
            assert(self.key_views()[j as int] == self.keys@[j as int]@);
            if chars_eq(&kj, &k) {
                return Some(j);
            }
            j += 1;
        }
        None
    }

    /// Sets the destination of `key`.
    pub fn insert(&mut self, key: String, value: String)
        requires
            old(self).wf(),
        ensures
            final(self).wf(),
            final(self).view() == old(self).view().insert(key@, value@),
    {
        match self.find(key.as_str()) {
            Some(j) => {
                let ghost vs = self.value_views();
                proof {
                    lemma_pairs_map_update(self.key_views(), vs, j as int, value@);
                }
                self.values.set(j, value);
                assert(self.value_views() =~= vs.update(j as int, value@));
            },
            None => {
                let ghost ks = self.key_views();
                let ghost vs = self.value_views();
                self.keys.push(key);
                self.values.push(value);
                assert(self.key_views() =~= ks.push(key@));
                assert(self.value_views() =~= vs.push(value@));
                assert(self.key_views().drop_last() =~= ks);
                assert(self.value_views().drop_last() =~= vs);
            },
        }
    }

    /// The destination of `key`.
    pub fn get(&self, key: &str) -> (r: Option<String>)
        requires
            self.wf(),
        ensures
            match r {
                Some(v) => self.view().dom().contains(key@) && v@ == self.view()[key@],
                None => !self.view().dom().contains(key@),
            },
    {
        proof {
            lemma_pairs_map_dom(self.key_views(), self.value_views());
        }
        match self.find(key) {
            Some(j) => {
                proof {
                    lemma_pairs_map_at(self.key_views(), self.value_views(), j as int);
                }
                let v = self.values[j].clone();
                assert(self.value_views()[j as int] == self.values@[j as int]@);
                Some(v)
            },
            None => None,
        }
    }

    pub fn contains_key(&self, key: &str) -> (b: bool)
        requires
            self.wf(),
        ensures
            b == self.view().dom().contains(key@),
    {
        proof {
            lemma_pairs_map_dom(self.key_views(), self.value_views());
        }
        self.find(key).is_some()
    }

    /// Number of labels.
    pub fn len(&self) -> (n: usize)
        requires
            self.wf(),
        ensures
            n == self.view().dom().len(),
    {
        proof {
            lemma_pairs_map_dom(self.key_views(), self.value_views());
            self.key_views().unique_seq_to_set();
        }
        self.keys.len()
    }

    pub fn is_empty(&self) -> (b: bool)
        requires
            self.wf(),
        ensures
            b == (self.view().dom().len() == 0),
    {
        self.len() == 0
    }
}

} // verus!
