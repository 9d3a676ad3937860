//! A map from texts to values, kept as a list in which no key occurs twice.

use vstd::prelude::*;

use crate::text::{same_text, texts};

verus! {

/// The map that a list of pairs stands for; of equal keys the later one counts.
pub open spec fn map_of<V>(entries: Seq<(String, V)>) -> Map<Seq<char>, V>
    decreases entries.len(),
{
    if entries.len() == 0 {
        Map::empty()
    } else {
        map_of(entries.drop_last()).insert(entries.last().0@, entries.last().1)
    }
}

/// No key occurs twice.
pub open spec fn unique_keys<V>(entries: Seq<(String, V)>) -> bool {
    forall|i: int, j: int|
        0 <= i < j < entries.len() ==> (#[trigger] entries[i]).0@ != (#[trigger] entries[j]).0@
}

/// The map holds exactly the pairs of the list.
pub proof fn lemma_map_of<V>(entries: Seq<(String, V)>)
    requires
        unique_keys(entries),
    ensures
        forall|i: int|
            0 <= i < entries.len() ==> map_of(entries).contains_key((#[trigger] entries[i]).0@)
                && map_of(entries)[entries[i].0@] == entries[i].1,
        forall|k: Seq<char>| #[trigger]
            map_of(entries).contains_key(k) ==> exists|i: int|
                0 <= i < entries.len() && (#[trigger] entries[i]).0@ == k,
    decreases entries.len(),
{
    if entries.len() > 0 {
        let head = entries.drop_last();
        assert(unique_keys(head)) by {
            assert forall|i: int, j: int| 0 <= i < j < head.len() implies (#[trigger] head[i]).0@
                != (#[trigger] head[j]).0@ by {
                assert(entries[i].0@ != entries[j].0@);
            }
        }
        lemma_map_of(head);
        assert forall|i: int| 0 <= i < entries.len() implies map_of(entries).contains_key(
            (#[trigger] entries[i]).0@,
        ) && map_of(entries)[entries[i].0@] == entries[i].1 by {
            if i < head.len() {
                assert(head[i] == entries[i]);
                assert(entries[i].0@ != entries[entries.len() - 1].0@);
            }
        }
        assert forall|k: Seq<char>| #[trigger] map_of(entries).contains_key(k) implies exists|i: int|
            0 <= i < entries.len() && (#[trigger] entries[i]).0@ == k by {
            if k == entries.last().0@ {
                assert(entries[entries.len() - 1].0@ == k);
            } else {
                assert(map_of(head).contains_key(k));
                let i = choose|i: int| 0 <= i < head.len() && (#[trigger] head[i]).0@ == k;
                assert(entries[i].0@ == k);
            }
        }
    }
}

/// A map from texts to values.
#[derive(Debug)]
pub struct TextMap<V> {
    entries: Vec<(String, V)>,
}

impl<V> View for TextMap<V> {
    type V = Map<Seq<char>, V>;

    closed spec fn view(&self) -> Map<Seq<char>, V> {
        map_of(self.entries@)
    }
}

impl<V> TextMap<V> {
    #[verifier::type_invariant]
    spec fn keys_are_unique(&self) -> bool {
        unique_keys(self.entries@)
    }

    /// The empty map.
    pub fn new() -> (map: TextMap<V>)
        ensures
            map@ == Map::<Seq<char>, V>::empty(),
    {
        TextMap { entries: Vec::new() }
    }

    /// The place of a key in the list.
    fn position(&self, key: &str) -> (r: Option<usize>)
        ensures
            match r {
                Some(i) => i < self.entries@.len() && self.entries@[i as int].0@ == key@,
                None => !self@.contains_key(key@) && forall|i: int|
                    0 <= i < self.entries@.len() ==> (#[trigger] self.entries@[i]).0@ != key@,
            },
    {
        proof {
            use_type_invariant(self);
            lemma_map_of(self.entries@);
        }
        let mut i: usize = 0;
        while i < self.entries.len()
            invariant
                i <= self.entries.len(),
                forall|j: int| 0 <= j < i ==> (#[trigger] self.entries@[j]).0@ != key@,
            decreases self.entries.len() - i,
        {
            if same_text(self.entries[i].0.as_str(), key) {
                return Some(i);
            }
            i = i + 1;
        }
        None
    }

    /// The value of a key.
    pub fn get(&self, key: &str) -> (r: Option<&V>)
        ensures
            match r {
                Some(value) => self@.contains_key(key@) && self@[key@] == *value,
                None => !self@.contains_key(key@),
            },
    {
        proof {
            use_type_invariant(self);
            lemma_map_of(self.entries@);
        }
        match self.position(key) {
            Some(i) => Some(&self.entries[i].1),
            None => None,
        }
    }

    /// Gives a key a value, in place of the one it may have had.
    pub fn insert(&mut self, key: String, value: V)
        ensures
            final(self)@ == old(self)@.insert(key@, value),
    {
        proof {
            use_type_invariant(&*self);
        }
        let place = self.position(key.as_str());
        let ghost before = self.entries@;
        let ghost name = key@;
        proof {
            lemma_map_of(before);
        }
        let mut entries: Vec<(String, V)> = Vec::new();
        std::mem::swap(&mut entries, &mut self.entries);
        match place {
            Some(i) => {
                entries.set(i, (key, value));
            },
            None => {
                entries.push((key, value));
            },
        }
        proof {
            let after = entries@;
            let p = match place {
                Some(i) => i as int,
                None => before.len() as int,
            };
            assert(after[p] == (key, value));
            assert forall|i: int| 0 <= i < after.len() && i != p implies after[i] == before[i] by {}
            assert(unique_keys(after)) by {
                assert forall|i: int, j: int| 0 <= i < j < after.len() implies (
                #[trigger] after[i]).0@ != (#[trigger] after[j]).0@ by {
                    if i != p && j != p {
                        assert(before[i].0@ != before[j].0@);
                    } else if i == p {
                        assert(before[j].0@ != name) by {
                            assert(before[i].0@ != before[j].0@);
                        }
                    } else {
                        if p < before.len() {
                            assert(before[i].0@ != before[j].0@);
                        } else {
                            assert(before[i].0@ != name);
                        }
                    }
                }
            }
            lemma_map_of(after);
            let wanted = map_of(before).insert(name, value);
            assert forall|k: Seq<char>| map_of(after).contains_key(k)
                == wanted.contains_key(k) by {
                if map_of(after).contains_key(k) {
                    let i = choose|i: int| 0 <= i < after.len() && (#[trigger] after[i]).0@ == k;
                    if i != p {
                        assert(before[i].0@ == k);
                    }
                }
                if wanted.contains_key(k) {
                    if k == name {
                        assert(after[p].0@ == k);
                    } else {
                        let i = choose|i: int|
                            0 <= i < before.len() && (#[trigger] before[i]).0@ == k;
                        assert(after[i].0@ == k);
                    }
                }
            }
            assert forall|k: Seq<char>| wanted.contains_key(k) implies map_of(after)[k]
                == wanted[k] by {
                if k == name {
                    assert(map_of(after)[after[p].0@] == after[p].1);
                } else {
                    let i = choose|i: int| 0 <= i < before.len() && (#[trigger] before[i]).0@ == k;
                    assert(map_of(after)[after[i].0@] == after[i].1);
                    assert(map_of(before)[before[i].0@] == before[i].1);
                }
            }
            assert(map_of(after) =~= wanted);
        }
        self.entries = entries;
    }

    /// Takes a key out, with the value that it had.
    pub fn remove(&mut self, key: &str) -> (r: Option<V>)
        ensures
            final(self)@ == old(self)@.remove(key@),
            match r {
                Some(value) => old(self)@.contains_key(key@) && old(self)@[key@] == value,
                None => !old(self)@.contains_key(key@),
            },
    {
        proof {
            use_type_invariant(&*self);
        }
        let place = self.position(key);
        let ghost before = self.entries@;
        proof {
            lemma_map_of(before);
        }
        match place {
            Some(p) => {
                let mut entries: Vec<(String, V)> = Vec::new();
                std::mem::swap(&mut entries, &mut self.entries);
                let (_, value) = entries.remove(p);
                proof {
                    let after = entries@;
                    assert(unique_keys(after)) by {
                        assert forall|i: int, j: int| 0 <= i < j < after.len() implies (
                        #[trigger] after[i]).0@ != (#[trigger] after[j]).0@ by {
                            let bi = if i < p {
                                i
                            } else {
                                i + 1
                            };
                            let bj = if j < p {
                                j
                            } else {
                                j + 1
                            };
                            assert(before[bi].0@ != before[bj].0@);
                        }
                    }
                    lemma_map_of(after);
                    let wanted = map_of(before).remove(key@);
                    assert forall|k: Seq<char>| map_of(after).contains_key(k)
                        == wanted.contains_key(k) by {
                        if map_of(after).contains_key(k) {
                            let i = choose|i: int|
                                0 <= i < after.len() && (#[trigger] after[i]).0@ == k;
                            let bi = if i < p {
                                i
                            } else {
                                i + 1
                            };
                            assert(before[bi].0@ == k);
                            if bi < p {
                                assert(before[bi].0@ != before[p as int].0@);
                            } else {
                                assert(before[p as int].0@ != before[bi].0@);
                            }
                        }
                        if wanted.contains_key(k) {
                            let i = choose|i: int|
                                0 <= i < before.len() && (#[trigger] before[i]).0@ == k;
                            if i < p {
                                assert(after[i].0@ == k);
                            } else {
                                assert(after[i - 1].0@ == k);
                            }
                        }
                    }
                    assert forall|k: Seq<char>| wanted.contains_key(k) implies map_of(after)[k]
                        == wanted[k] by {
                        let i = choose|i: int|
                            0 <= i < before.len() && (#[trigger] before[i]).0@ == k;
                        assert(map_of(before)[before[i].0@] == before[i].1);
                        if i < p {
                            assert(map_of(after)[after[i].0@] == after[i].1);
                        } else {
                            assert(map_of(after)[after[i - 1].0@] == after[i - 1].1);
                        }
                    }
                    assert(map_of(after) =~= wanted);
                }
                self.entries = entries;
                Some(value)
            },
            None => {
                assert(map_of(before).remove(key@) =~= map_of(before));
                None
            },
        }
    }

    /// The keys, each once.
    pub fn keys(&self) -> (r: Vec<String>)
        ensures
            forall|k: Seq<char>| texts(r@).contains(k) <==> self@.contains_key(k),
            r@.len() == self@.dom().len(),
            texts(r@).no_duplicates(),
    {
        proof {
            use_type_invariant(self);
            lemma_map_of(self.entries@);
            lemma_map_len(self.entries@);
        }
        let mut r: Vec<String> = Vec::new();
        let mut i: usize = 0;
        while i < self.entries.len()
            invariant
                i <= self.entries.len(),
                r.len() == i,
                forall|j: int| 0 <= j < i ==> (#[trigger] r@[j])@ == self.entries@[j].0@,
            decreases self.entries.len() - i,
        {
            r.push(self.entries[i].0.clone());
            i = i + 1;
        }
        assert forall|k: Seq<char>| texts(r@).contains(k) <==> self@.contains_key(k) by {
            if texts(r@).contains(k) {
                let j = choose|j: int| 0 <= j < texts(r@).len() && texts(r@)[j] == k;
                assert(r@[j]@ == k);
                assert(self.entries@[j].0@ == k);
            }
            if self@.contains_key(k) {
                let j = choose|j: int|
                    0 <= j < self.entries@.len() && (#[trigger] self.entries@[j]).0@ == k;
                assert(r@[j]@ == k);
                assert(texts(r@)[j] == k);
            }
        }
        assert forall|i: int, j: int|
            0 <= i < texts(r@).len() && 0 <= j < texts(r@).len() && i != j implies texts(r@)[i]
            != texts(r@)[j] by {
            if i < j {
                assert(self.entries@[i].0@ != self.entries@[j].0@);
            } else {
                assert(self.entries@[j].0@ != self.entries@[i].0@);
            }
        }
        r
    }

    /// The number of keys.
    pub fn len(&self) -> (n: usize)
        ensures
            n == self@.dom().len(),
    {
        proof {
            use_type_invariant(self);
            lemma_map_len(self.entries@);
        }
        self.entries.len()
    }
}

/// A list without repeated keys makes a map of its length.
proof fn lemma_map_len<V>(entries: Seq<(String, V)>)
    requires
        unique_keys(entries),
    ensures
        map_of(entries).dom().finite(),
        map_of(entries).dom().len() == entries.len(),
    decreases entries.len(),
{
    if entries.len() > 0 {
        let head = entries.drop_last();
        assert(unique_keys(head)) by {
            assert forall|i: int, j: int| 0 <= i < j < head.len() implies (#[trigger] head[i]).0@
                != (#[trigger] head[j]).0@ by {
                assert(entries[i].0@ != entries[j].0@);
            }
        }
        lemma_map_len(head);
        lemma_map_of(head);
        let k = entries.last().0@;
        assert(!map_of(head).contains_key(k)) by {
            if map_of(head).contains_key(k) {
                let i = choose|i: int| 0 <= i < head.len() && (#[trigger] head[i]).0@ == k;
                assert(entries[i].0@ != entries[entries.len() - 1].0@);
            }
        }
        assert(map_of(entries).dom() =~= map_of(head).dom().insert(k));
    }
}

} // verus!
