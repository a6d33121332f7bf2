//! A map from names to values.
use vstd::prelude::*;
use crate::text::{same, texts, Text};

verus! {

/// A map from names to values. No name occurs twice; names keep the order in
/// which they first came.
#[derive(Debug)]
pub struct NameMap<V> {
    entries: Vec<(String, V)>,
}

/// The place of `name` among `entries`.
pub open spec fn place<V>(entries: Seq<(String, V)>, name: Text) -> Option<int>
    decreases entries.len(),
{
    if entries.len() == 0 {
        None
    } else if entries.last().0@ == name {
        Some(entries.len() - 1)
    } else {
        place(entries.drop_last(), name)
    }
}

/// The map that `entries` write down.
pub open spec fn map_of<V>(entries: Seq<(String, V)>) -> Map<Text, V> {
    Map::new(
        |name: Text| place(entries, name) is Some,
        |name: Text| entries[place(entries, name)->0].1,
    )
}

/// No name occurs twice.
pub open spec fn distinct<V>(entries: Seq<(String, V)>) -> bool {
    forall|i: int, j: int|
        #![trigger entries[i], entries[j]]
        0 <= i < j < entries.len() ==> entries[i].0@ != entries[j].0@
}

proof fn lemma_place<V>(entries: Seq<(String, V)>, name: Text)
    ensures
        match place(entries, name) {
            Some(i) => 0 <= i < entries.len() && entries[i].0@ == name,
            None => forall|i: int|
                #![trigger entries[i]]
                0 <= i < entries.len() ==> entries[i].0@ != name,
        },
    decreases entries.len(),
{
    if entries.len() > 0 && entries.last().0@ != name {
        let rest = entries.drop_last();
        lemma_place(rest, name);
        if place(rest, name) is None {
            assert forall|i: int| #![trigger entries[i]] 0 <= i < entries.len() implies entries[i].0@
                != name by {
                if i < rest.len() {
                    assert(rest[i] == entries[i]);
                }
            }
        }
    }
}

proof fn lemma_place_is<V>(entries: Seq<(String, V)>, i: int)
    requires
        distinct(entries),
        0 <= i < entries.len(),
    ensures
        place(entries, entries[i].0@) == Some(i),
{
    lemma_place(entries, entries[i].0@);
    let j = place(entries, entries[i].0@);
    if j is Some && j->0 != i {
        let k = j->0;
        assert(entries[k].0@ == entries[i].0@);
    }
}

impl<V> View for NameMap<V> {
    type V = Map<Text, V>;

    closed spec fn view(&self) -> Map<Text, V> {
        map_of(self.entries@)
    }
}

impl<V> NameMap<V> {
    #[verifier::type_invariant]
    spec fn inv(self) -> bool {
        distinct(self.entries@)
    }

    /// The entries in order.
    pub closed spec fn items(self) -> Seq<(String, V)> {
        self.entries@
    }

    /// A map without entries.
    pub fn new() -> (m: Self)
        ensures
            m@ == Map::<Text, V>::empty(),
            m.items() == Seq::<(String, V)>::empty(),
    {
        let m = NameMap { entries: Vec::new() };
        assert(m@ =~= Map::<Text, V>::empty());
        m
    }

    /// What the entries in order have to do with the map.
    pub proof fn lemma_items(&self)
        requires
            distinct(self.items()),
        ensures
            forall|i: int|
                #![trigger self.items()[i]]
                0 <= i < self.items().len() ==> self@.contains_key(self.items()[i].0@)
                    && self@[self.items()[i].0@] == self.items()[i].1,
            forall|name: Text| #[trigger]
                self@.contains_key(name) ==> exists|i: int|
                    0 <= i < self.items().len() && (#[trigger] self.items()[i]).0@ == name,
    {
        assert forall|i: int|
            #![trigger self.items()[i]]
            0 <= i < self.items().len() implies self@.contains_key(self.items()[i].0@)
            && self@[self.items()[i].0@] == self.items()[i].1 by {
            lemma_place_is(self.entries@, i);
        }
        assert forall|name: Text| #[trigger] self@.contains_key(name) implies exists|i: int|
            0 <= i < self.items().len() && (#[trigger] self.items()[i]).0@ == name by {
            lemma_place(self.entries@, name);
            assert(self.items()[place(self.entries@, name)->0].0@ == name);
        }
    }

    /// The number of entries.
    pub fn len(&self) -> (n: usize)
        ensures
            n == self.items().len(),
            distinct(self.items()),
    {
        proof {
            use_type_invariant(self);
        }
        self.entries.len()
    }

    /// The name of entry `i`.
    pub fn name_at(&self, i: usize) -> (name: &String)
        requires
            i < self.items().len(),
        ensures
            *name == self.items()[i as int].0,
    {
        &self.entries[i].0
    }

    /// The value of entry `i`.
    pub fn value_at(&self, i: usize) -> (value: &V)
        requires
            i < self.items().len(),
        ensures
            *value == self.items()[i as int].1,
    {
        &self.entries[i].1
    }

    fn find(&self, name: &str) -> (at: Option<usize>)
        ensures
            match at {
                Some(i) => place(self.entries@, name@) == Some(i as int) && i < self.entries.len(),
                None => place(self.entries@, name@) is None,
            },
    {
        proof {
            use_type_invariant(self);
            lemma_place(self.entries@, name@);
        }
        let mut i: usize = 0;
        while i < self.entries.len()
            invariant
                i <= self.entries.len(),
                distinct(self.entries@),
                match place(self.entries@, name@) {
                    Some(k) => i <= k < self.entries.len() && self.entries@[k].0@ == name@,
                    None => true,
                },
            decreases self.entries.len() - i,
        {
            if same(&self.entries[i].0, name) {
                proof {
                    lemma_place_is(self.entries@, i as int);
                }
                return Some(i);
            }
            i += 1;
        }
        None
    }

    /// The value under `name`.
    pub fn get(&self, name: &str) -> (r: Option<&V>)
        ensures
            match r {
                Some(v) => self@.contains_key(name@) && *v == self@[name@],
                None => !self@.contains_key(name@),
            },
    {
        match self.find(name) {
            Some(i) => Some(&self.entries[i].1),
            None => None,
        }
    }

    /// Whether there is a value under `name`.
    pub fn contains_key(&self, name: &str) -> (b: bool)
        ensures
            b == self@.contains_key(name@),
    {
        self.find(name).is_some()
    }

    /// Puts `value` under `name`, in place of what stood there.
    pub fn insert(&mut self, name: String, value: V)
        ensures
            final(self)@ == old(self)@.insert(name@, value),
    {
        let at = self.find(&name);
        let ghost key = name@;
        let mut entries: Vec<(String, V)> = Vec::new();
        proof {
            use_type_invariant(&*self);
            lemma_place(self.entries@, key);
        }
        std::mem::swap(&mut entries, &mut self.entries);
        let ghost before = entries@;
        match at {
            Some(i) => {
                entries.set(i, (name, value));
            },
            None => {
                entries.push((name, value));
            },
        }
        proof {
            assert(distinct(entries@));
            assert forall|n: Text| place(entries@, n) is Some == (n == key || place(before, n) is Some)
            by {
                lemma_place(entries@, n);
                lemma_place(before, n);
                if n == key {
                    match at {
                        Some(i) => {
                            assert(entries@[i as int].0@ == key);
                        },
                        None => {
                            assert(entries@[before.len() as int].0@ == key);
                        },
                    }
                } else if place(before, n) is Some {
                    let k = place(before, n)->0;
                    assert(entries@[k].0@ == n);
                } else if place(entries@, n) is Some {
                    let k = place(entries@, n)->0;
                    assert(k < before.len());
                    assert(before[k].0@ == n);
                }
            }
            assert forall|n: Text| place(entries@, n) is Some implies entries@[place(
                entries@,
                n,
            )->0].1 == (if n == key {
                value
            } else {
                before[place(before, n)->0].1
            }) by {
                lemma_place(entries@, n);
                lemma_place(before, n);
                let k = place(entries@, n)->0;
                if n != key {
                    assert(k < before.len());
                    assert(before[k].0@ == n);
                    lemma_place_is(before, k);
                } else {
                    match at {
                        Some(i) => {
                            lemma_place_is(entries@, i as int);
                        },
                        None => {
                            lemma_place_is(entries@, before.len() as int);
                        },
                    }
                }
            }
            assert(map_of(entries@) =~= map_of(before).insert(key, value));
        }
        self.entries = entries;
    }

    /// Takes the value under `name` out.
    pub fn remove(&mut self, name: &str) -> (r: Option<V>)
        ensures
            final(self)@ == old(self)@.remove(name@),
            match r {
                Some(v) => old(self)@.contains_key(name@) && v == old(self)@[name@],
                None => !old(self)@.contains_key(name@),
            },
    {
        let at = self.find(name);
        match at {
            None => {
                assert(self@ =~= self@.remove(name@));
                None
            },
            Some(i) => {
                let mut entries: Vec<(String, V)> = Vec::new();
                proof {
                    use_type_invariant(&*self);
                }
                std::mem::swap(&mut entries, &mut self.entries);
                let ghost before = entries@;
                let (_, value) = entries.remove(i);
                proof {
                    let after = entries@;
                    assert(distinct(after));
                    assert forall|n: Text| place(after, n) is Some == (n != name@ && place(before, n)
                        is Some) by {
                        lemma_place(after, n);
                        lemma_place(before, n);
                        if place(after, n) is Some {
                            let k = place(after, n)->0;
                            let b = if k < i { k } else { k + 1 };
                            assert(before[b] == after[k]);
                            if n == name@ {
                                lemma_place_is(before, b);
                            }
                        }
                        if n != name@ && place(before, n) is Some {
                            let b = place(before, n)->0;
                            lemma_place(before, name@);
                            assert(b != i);
                            let k = if b < i { b } else { b - 1 };
                            assert(before[b] == after[k]);
                        }
                    }
                    assert forall|n: Text| place(after, n) is Some implies after[place(after, n)->0].1
                        == before[place(before, n)->0].1 by {
                        lemma_place(after, n);
                        let k = place(after, n)->0;
                        let b = if k < i { k } else { k + 1 };
                        assert(before[b] == after[k]);
                        lemma_place_is(before, b);
                    }
                    assert(map_of(after) =~= map_of(before).remove(name@));
                }
                self.entries = entries;
                Some(value)
            },
        }
    }

    /// The names, in order.
    pub fn names(&self) -> (out: Vec<String>)
        ensures
            texts(out@) == self.items().map_values(|e: (String, V)| e.0@),
    {
        let mut out: Vec<String> = Vec::new();
        let mut i: usize = 0;
        while i < self.entries.len()
            invariant
                i <= self.entries.len(),
                out.len() == i,
                forall|k: int| 0 <= k < i ==> (#[trigger] out@[k])@ == self.entries@[k].0@,
            decreases self.entries.len() - i,
        {
            out.push(self.entries[i].0.clone());
            i += 1;
        }
        assert(texts(out@) =~= self.items().map_values(|e: (String, V)| e.0@));
        out
    }

    /// All names, each once.
    pub fn all_names(&self) -> (out: Vec<String>)
        ensures
            forall|name: Text| self@.contains_key(name) <==> texts(out@).contains(name),
            texts(out@).no_duplicates(),
    {
        let out = self.names();
        let n = self.len();
        proof {
            let items = self.items();
            let all = texts(out@);
            self.lemma_items();
            assert forall|name: Text| self@.contains_key(name) <==> all.contains(name) by {
                if self@.contains_key(name) {
                    let i = choose|i: int| 0 <= i < items.len() && (#[trigger] items[i]).0@ == name;
                    assert(all[i] == name);
                }
                if all.contains(name) {
                    let i = choose|i: int| 0 <= i < all.len() && all[i] == name;
                    assert(items[i].0@ == name);
                }
            }
            assert forall|i: int, j: int|
                0 <= i < all.len() && 0 <= j < all.len() && i != j implies all[i] != all[j] by {
                assert(items[i].0@ == all[i]);
                assert(items[j].0@ == all[j]);
            }
        }
        out
    }
}

} // verus!
