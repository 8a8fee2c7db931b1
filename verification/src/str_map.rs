//! A map keyed by strings, held as a list of entries with distinct keys.

use vstd::prelude::*;

verus! {

/// Whether the keys of `e` are pairwise distinct.
pub open spec fn keys_distinct<V>(e: Seq<(String, V)>) -> bool {
    forall|i: int, j: int| 0 <= i < j < e.len() ==> #[trigger] e[i].0@ != #[trigger] e[j].0@
}

/// Whether some entry of `e` has key `k`.
pub open spec fn has_key<V>(e: Seq<(String, V)>, k: Seq<char>) -> bool {
    exists|i: int| 0 <= i < e.len() && #[trigger] e[i].0@ == k
}

/// The map that the entries `e` stand for.
pub open spec fn map_of<V>(e: Seq<(String, V)>) -> Map<Seq<char>, V> {
    Map::new(
        |k: Seq<char>| has_key(e, k),
        |k: Seq<char>| e[choose|i: int| 0 <= i < e.len() && #[trigger] e[i].0@ == k].1,
    )
}

/// In a list with distinct keys, the entry at `i` gives the value of its key.
pub proof fn lemma_map_of_entry<V>(e: Seq<(String, V)>, i: int)
    requires
        keys_distinct(e),
        0 <= i < e.len(),
    ensures
        map_of(e).contains_key(e[i].0@),
        map_of(e)[e[i].0@] == e[i].1,
{
    let k = e[i].0@;
    assert(has_key(e, k));
    let j = choose|j: int| 0 <= j < e.len() && #[trigger] e[j].0@ == k;
    if j != i {
        if j < i {
            assert(e[j].0@ != e[i].0@);
        } else {
            assert(e[i].0@ != e[j].0@);
        }
    }
}

/// A map from strings to values.
#[derive(Debug)]
pub struct StrMap<V> {
    entries: Vec<(String, V)>,
}

impl<V> View for StrMap<V> {
    type V = Map<Seq<char>, V>;

    closed spec fn view(&self) -> Map<Seq<char>, V> {
        map_of(self.entries@)
    }
}

impl<V> StrMap<V> {
    #[verifier::type_invariant]
    closed spec fn inv(self) -> bool {
        keys_distinct(self.entries@)
    }

    /// The empty map.
    pub fn new() -> (m: Self)
        ensures
            m@ == Map::<Seq<char>, V>::empty(),
    {
        let m = StrMap { entries: Vec::new() };
        assert(m@ =~= Map::<Seq<char>, V>::empty());
        m
    }

    /// The entries of the map, each key once, in the order the keys were first inserted.
    pub fn entries(&self) -> (r: &Vec<(String, V)>)
        ensures
            keys_distinct(r@),
            map_of(r@) == self@,
    {
        proof {
            use_type_invariant(self);
        }
        &self.entries
    }

    /// The position of the entry with key `key`, if there is one.
    fn position(&self, key: &str) -> (r: Option<usize>)
        ensures
            r matches Some(i) ==> i < self.entries@.len() && self.entries@[i as int].0@ == key@,
            r is None ==> !has_key(self.entries@, key@),
    {
        let k = key.to_owned();
        let mut i: usize = 0;
        while i < self.entries.len()
            invariant
                i <= self.entries@.len(),
                k@ == key@,
                forall|j: int| 0 <= j < i ==> #[trigger] self.entries@[j].0@ != key@,
            decreases self.entries.len() - i,
        {
            if self.entries[i].0 == k {
                return Some(i);
            }
            i = i + 1;
        }
        None
    }

    /// Whether `key` has a value.
    pub fn contains_key(&self, key: &str) -> (b: bool)
        ensures
            b == self@.contains_key(key@),
    {
        self.position(key).is_some()
    }

    /// The value of `key`, if it has one.
    pub fn get(&self, key: &str) -> (r: Option<&V>)
        ensures
            r is Some == self@.contains_key(key@),
            r matches Some(v) ==> *v == self@[key@],
    {
        proof {
            use_type_invariant(self);
        }
        match self.position(key) {
            Some(i) => {
                proof {
                    lemma_map_of_entry(self.entries@, i as int);
                }
                Some(&self.entries[i].1)
            },
            None => None,
        }
    }

    /// Gives `key` the value `value`, replacing any value it had.
    pub fn insert(&mut self, key: String, value: V)
        ensures
            final(self)@ == old(self)@.insert(key@, value),
    {
        proof {
            use_type_invariant(&*self);
        }
        let ghost old_e = self.entries@;
        match self.position(key.as_str()) {
            Some(i) => {
                let ghost k = key@;
                let mut entries: Vec<(String, V)> = Vec::new();
                std::mem::swap(&mut entries, &mut self.entries);
                entries.set(i, (key, value));
                let ghost new_e = entries@;
                assert(new_e == old_e.update(i as int, new_e[i as int]));
                assert(keys_distinct(new_e)) by {
                    assert forall|a: int, b: int| 0 <= a < b < new_e.len() implies #[trigger] new_e[a].0@
                        != #[trigger] new_e[b].0@ by {
                        assert(old_e[a].0@ != old_e[b].0@);
                    }
                }
                self.entries = entries;
                proof {
                    assert forall|kk: Seq<char>| #[trigger] map_of(new_e).contains_key(kk)
                        == map_of(old_e).insert(k, value).contains_key(kk) by {
                        if kk != k && map_of(old_e).contains_key(kk) {
                            let j = choose|j: int| 0 <= j < old_e.len() && #[trigger] old_e[j].0@ == kk;
                            assert(new_e[j].0@ == kk);
                        }
                        if kk != k && map_of(new_e).contains_key(kk) {
                            let j = choose|j: int| 0 <= j < new_e.len() && #[trigger] new_e[j].0@ == kk;
                            assert(old_e[j].0@ == kk);
                        }
                        if kk == k {
                            assert(new_e[i as int].0@ == kk);
                        }
                    }
                    assert forall|kk: Seq<char>| #[trigger] map_of(new_e).contains_key(kk) implies map_of(
                        new_e,
                    )[kk] == map_of(old_e).insert(k, value)[kk] by {
                        let j = choose|j: int| 0 <= j < new_e.len() && #[trigger] new_e[j].0@ == kk;
                        lemma_map_of_entry(new_e, j);
                        if j != i {
                            lemma_map_of_entry(old_e, j);
                        }
                    }
                    assert(map_of(new_e) =~= map_of(old_e).insert(k, value));
                }
            },
            None => {
                let ghost k = key@;
                let mut entries: Vec<(String, V)> = Vec::new();
                std::mem::swap(&mut entries, &mut self.entries);
                entries.push((key, value));
                let ghost new_e = entries@;
                assert(keys_distinct(new_e)) by {
                    assert forall|a: int, b: int| 0 <= a < b < new_e.len() implies #[trigger] new_e[a].0@
                        != #[trigger] new_e[b].0@ by {
                        if b == new_e.len() - 1 {
                            assert(old_e[a].0@ != k);
                        } else {
                            assert(old_e[a].0@ != old_e[b].0@);
                        }
                    }
                }
                self.entries = entries;
                proof {
                    assert forall|kk: Seq<char>| #[trigger] map_of(new_e).contains_key(kk)
                        == map_of(old_e).insert(k, value).contains_key(kk) by {
                        if kk != k && map_of(old_e).contains_key(kk) {
                            let j = choose|j: int| 0 <= j < old_e.len() && #[trigger] old_e[j].0@ == kk;
                            assert(new_e[j].0@ == kk);
                        }
                        if kk != k && map_of(new_e).contains_key(kk) {
                            let j = choose|j: int| 0 <= j < new_e.len() && #[trigger] new_e[j].0@ == kk;
                            assert(old_e[j].0@ == kk);
                        }
                        if kk == k {
                            assert(new_e[old_e.len() as int].0@ == kk);
                        }
                    }
                    assert forall|kk: Seq<char>| #[trigger] map_of(new_e).contains_key(kk) implies map_of(
                        new_e,
                    )[kk] == map_of(old_e).insert(k, value)[kk] by {
                        let j = choose|j: int| 0 <= j < new_e.len() && #[trigger] new_e[j].0@ == kk;
                        lemma_map_of_entry(new_e, j);
                        if j != old_e.len() {
                            lemma_map_of_entry(old_e, j);
                        }
                    }
                    assert(map_of(new_e) =~= map_of(old_e).insert(k, value));
                }
            },
        }
    }

    /// Removes `key` and its value.
    pub fn remove(&mut self, key: &str)
        ensures
            final(self)@ == old(self)@.remove(key@),
    {
        proof {
            use_type_invariant(&*self);
        }
        let ghost old_e = self.entries@;
        match self.position(key) {
            Some(i) => {
                let ghost k = key@;
                let mut entries: Vec<(String, V)> = Vec::new();
                std::mem::swap(&mut entries, &mut self.entries);
                entries.remove(i);
                let ghost new_e = entries@;
                assert(new_e =~= old_e.remove(i as int));
                assert(keys_distinct(new_e)) by {
                    assert forall|a: int, b: int| 0 <= a < b < new_e.len() implies #[trigger] new_e[a].0@
                        != #[trigger] new_e[b].0@ by {
                        let oa = if a < i { a } else { a + 1 };
                        let ob = if b < i { b } else { b + 1 };
                        assert(old_e[oa].0@ != old_e[ob].0@);
                    }
                }
                self.entries = entries;
                proof {
                    assert forall|kk: Seq<char>| #[trigger] map_of(new_e).contains_key(kk)
                        == map_of(old_e).remove(k).contains_key(kk) by {
                        if kk != k && map_of(old_e).contains_key(kk) {
                            let j = choose|j: int| 0 <= j < old_e.len() && #[trigger] old_e[j].0@ == kk;
                            let nj = if j < i { j } else { j - 1 };
                            assert(new_e[nj].0@ == kk);
                        }
                        if map_of(new_e).contains_key(kk) {
                            let j = choose|j: int| 0 <= j < new_e.len() && #[trigger] new_e[j].0@ == kk;
                            let oj = if j < i { j } else { j + 1 };
                            assert(old_e[oj].0@ == kk);
                            if oj < i {
                                assert(old_e[oj].0@ != old_e[i as int].0@);
                            } else {
                                assert(old_e[i as int].0@ != old_e[oj].0@);
                            }
                        }
                    }
                    assert forall|kk: Seq<char>| #[trigger] map_of(new_e).contains_key(kk) implies map_of(
                        new_e,
                    )[kk] == map_of(old_e).remove(k)[kk] by {
                        let j = choose|j: int| 0 <= j < new_e.len() && #[trigger] new_e[j].0@ == kk;
                        lemma_map_of_entry(new_e, j);
                        let oj = if j < i { j } else { j + 1 };
                        assert(old_e[oj] == new_e[j]);
                        lemma_map_of_entry(old_e, oj);
                    }
                    assert(map_of(new_e) =~= map_of(old_e).remove(k));
                }
            },
            None => {
                assert(map_of(old_e) =~= map_of(old_e).remove(key@));
            },
        }
    }
}

} // verus!
