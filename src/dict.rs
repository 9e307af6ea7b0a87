//! An insertion-ordered dictionary with text keys, as a mirror file holds it.
//!
//! Inserting under a key that is present replaces the value in place; a new
//! key goes to the end. Lookups find the first entry with the key.

use vstd::prelude::*;
use crate::text::same_text;

verus! {

/// The index of the first entry keyed `k`, or -1 where there is none.
pub open spec fn index_of<V>(s: Seq<(Seq<char>, V)>, k: Seq<char>) -> int
    decreases s.len(),
{
    if s.len() == 0 {
        -1
    } else if s[0].0 == k {
        0
    } else {
        let r = index_of(s.drop_first(), k);
        if r < 0 {
            -1
        } else {
            r + 1
        }
    }
}

/// The value of the first entry keyed `k`.
pub open spec fn lookup<V>(s: Seq<(Seq<char>, V)>, k: Seq<char>) -> Option<V> {
    let i = index_of(s, k);
    if i >= 0 {
        Some(s[i].1)
    } else {
        None
    }
}

/// `s` with `k` set to `v`: in place where `k` is present, at the end otherwise.
pub open spec fn inserted<V>(s: Seq<(Seq<char>, V)>, k: Seq<char>, v: V) -> Seq<(Seq<char>, V)> {
    let i = index_of(s, k);
    if i >= 0 {
        s.update(i, (k, v))
    } else {
        s.push((k, v))
    }
}

/// What `index_of` is: the first match, or -1 where no entry matches.
pub proof fn lemma_index_of<V>(s: Seq<(Seq<char>, V)>, k: Seq<char>)
    ensures
        -1 <= index_of(s, k) < s.len(),
        index_of(s, k) == -1 ==> forall|j: int| 0 <= j < s.len() ==> (#[trigger] s[j]).0 != k,
        index_of(s, k) >= 0 ==> s[index_of(s, k)].0 == k && forall|j: int|
            0 <= j < index_of(s, k) ==> (#[trigger] s[j]).0 != k,
    decreases s.len(),
{
    if s.len() > 0 && s[0].0 != k {
        lemma_index_of(s.drop_first(), k);
        let r = index_of(s.drop_first(), k);
        assert forall|j: int| 0 < j < s.len() && (r < 0 || j < r + 1) implies (#[trigger] s[j]).0 != k by {
            assert(s[j] == s.drop_first()[j - 1]);
        }
    }
}

/// `index_of` is fixed by the first-match property.
pub proof fn lemma_index_of_is<V>(s: Seq<(Seq<char>, V)>, k: Seq<char>, i: int)
    requires
        -1 <= i < s.len(),
        i == -1 ==> forall|j: int| 0 <= j < s.len() ==> (#[trigger] s[j]).0 != k,
        i >= 0 ==> s[i].0 == k && forall|j: int| 0 <= j < i ==> (#[trigger] s[j]).0 != k,
    ensures
        index_of(s, k) == i,
{
    lemma_index_of(s, k);
    let r = index_of(s, k);
    if r >= 0 && i >= 0 {
        if r < i {
            assert(s[r].0 != k);
        } else if i < r {
            assert(s[i].0 != k);
        }
    } else if r >= 0 {
        assert(s[r].0 != k);
    } else if i >= 0 {
        assert(s[i].0 != k);
    }
}

/// Setting one key leaves the value under every other key as it was.
pub proof fn lemma_inserted_other<V>(s: Seq<(Seq<char>, V)>, k: Seq<char>, v: V, k2: Seq<char>)
    requires
        k2 != k,
    ensures
        lookup(inserted(s, k, v), k2) == lookup(s, k2),
        index_of(inserted(s, k, v), k2) == index_of(s, k2),
{
    lemma_index_of(s, k);
    lemma_index_of(s, k2);
    let t = inserted(s, k, v);
    let r = index_of(s, k2);
    assert forall|j: int| 0 <= j < s.len() implies (#[trigger] t[j]).0 != k2 <==> s[j].0 != k2 by {
        if j == index_of(s, k) {
        }
    }
    if r < 0 {
        assert(t.len() == s.len() || t[s.len() as int].0 == k);
    }
    lemma_index_of_is(t, k2, r);
}

/// An insertion-ordered dictionary.
#[derive(Debug)]
pub struct Dict<V> {
    pub entries: Vec<(String, V)>,
}

impl<V: View> View for Dict<V> {
    type V = Seq<(Seq<char>, V::V)>;

    open spec fn view(&self) -> Seq<(Seq<char>, V::V)> {
        self.entries@.map_values(|e: (String, V)| (e.0@, e.1@))
    }
}

impl<V: View> Dict<V> {
    pub fn new() -> (r: Dict<V>)
        ensures
            r@ == Seq::<(Seq<char>, V::V)>::empty(),
    {
        let r = Dict { entries: Vec::new() };
        assert(r@ =~= Seq::<(Seq<char>, V::V)>::empty());
        r
    }

    pub fn len(&self) -> (r: usize)
        ensures
            r == self@.len(),
    {
        self.entries.len()
    }

    /// Where the first entry keyed `k` stands.
    pub fn position(&self, k: &str) -> (r: Option<usize>)
        ensures
            match r {
                Some(i) => i < self@.len() && i as int == index_of(self@, k@),
                None => index_of(self@, k@) == -1,
            },
    {
        let mut i: usize = 0;
        while i < self.entries.len()
            invariant
                i <= self@.len(),
                self@.len() == self.entries@.len(),
                forall|j: int| 0 <= j < i ==> (#[trigger] self@[j]).0 != k@,
            decreases self@.len() - i,
        {
            if same_text(self.entries[i].0.as_str(), k) {
                proof {
                    lemma_index_of_is(self@, k@, i as int);
                }
                return Some(i);
            }
            i += 1;
        }
        proof {
            lemma_index_of_is(self@, k@, -1);
        }
        None
    }

    /// The value of the first entry keyed `k`.
    pub fn get(&self, k: &str) -> (r: Option<&V>)
        ensures
            match r {
                Some(x) => lookup(self@, k@) == Some(x@),
                None => lookup(self@, k@) is None,
            },
    {
        match self.position(k) {
            Some(i) => {
                assert(self@[i as int].1 == self.entries@[i as int].1@);
                Some(&self.entries[i].1)
            },
            None => None,
        }
    }

    /// Puts `v` in the place of the value at `i`, giving back the value it replaces.
    pub fn swap_value(&mut self, i: usize, v: V) -> (r: V)
        requires
            i < old(self)@.len(),
        ensures
            final(self)@ == old(self)@.update(i as int, (old(self)@[i as int].0, v@)),
            r@ == old(self)@[i as int].1,
    {
        let (k, old_value) = self.entries.remove(i);
        self.entries.insert(i, (k, v));
        assert(self@ =~= old(self)@.update(i as int, (old(self)@[i as int].0, v@)));
        old_value
    }

    /// Sets `key` to `v`: in place where the key is present, at the end otherwise.
    pub fn insert(&mut self, key: String, v: V)
        ensures
            final(self)@ == inserted(old(self)@, key@, v@),
    {
        match self.position(key.as_str()) {
            Some(i) => {
                self.entries.remove(i);
                self.entries.insert(i, (key, v));
                assert(self@ =~= inserted(old(self)@, key@, v@));
            },
            None => {
                self.entries.push((key, v));
                assert(self@ =~= inserted(old(self)@, key@, v@));
            },
        }
    }
}

} // verus!
