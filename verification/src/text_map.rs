//! Maps from texts to values.

use crate::text;
use vstd::prelude::*;

verus! {

/// A map from texts to values.
#[derive(Debug)]
pub struct TextMap<V> {
    entries: Vec<(String, V)>,
}

/// The first entry with the key `k`.
spec fn entry_at<V>(entries: Seq<(String, V)>, k: Seq<char>, i: int) -> bool {
    0 <= i < entries.len() && entries[i].0@ == k
}

spec fn distinct_keys<V>(entries: Seq<(String, V)>) -> bool {
    forall|i: int, j: int|
        0 <= i < j < entries.len() ==> #[trigger] entries[i].0@ != #[trigger] entries[j].0@
}

spec fn as_map<V>(entries: Seq<(String, V)>) -> Map<Seq<char>, V> {
    Map::new(
        |k: Seq<char>| exists|i: int| entry_at(entries, k, i),
        |k: Seq<char>| entries[choose|i: int| entry_at(entries, k, i)].1,
    )
}

impl<V> View for TextMap<V> {
    type V = Map<Seq<char>, V>;

    closed spec fn view(&self) -> Map<Seq<char>, V> {
        as_map(self.entries@)
    }
}

impl<V> TextMap<V> {
    #[verifier::type_invariant]
    spec fn keys_differ(self) -> bool {
        distinct_keys(self.entries@)
    }

    /// The empty map.
    pub fn new() -> (r: Self)
        ensures
            r@ == Map::<Seq<char>, V>::empty(),
    {
        let r = TextMap { entries: Vec::new() };
        proof {
            assert(r@ =~= Map::<Seq<char>, V>::empty());
        }
        r
    }

    /// The number of keys.
    pub fn len(&self) -> (r: usize)
        ensures
            self@.dom().finite(),
            r == self@.dom().len(),
    {
        proof {
            use_type_invariant(self);
            lemma_keys(self.entries@);
            keys_of(self.entries@).unique_seq_to_set();
        }
        self.entries.len()
    }

    /// The keys, each once.
    pub fn keys(&self) -> (r: Vec<String>)
        ensures
            text::views(r@).no_duplicates(),
            text::views(r@).to_set() == self@.dom(),
    {
        proof {
            use_type_invariant(self);
            lemma_keys(self.entries@);
        }
        let mut keys: Vec<String> = Vec::new();
        for i in 0..self.entries.len()
            invariant
                text::views(keys@) == keys_of(self.entries@).take(i as int),
        {
            let ghost before = text::views(keys@);
            let key: String = self.entries[i].0.clone();
            let ghost k = key@;
            keys.push(key);
            proof {
                assert(text::views(keys@) =~= before.push(k));
                assert(keys_of(self.entries@).take(i + 1) =~= before.push(k));
            }
        }
        proof {
            assert(keys_of(self.entries@).take(self.entries@.len() as int) =~= keys_of(
                self.entries@,
            ));
        }
        keys
    }

    fn place(&self, key: &str) -> (r: Option<usize>)
        ensures
            match r {
                Some(i) => entry_at(self.entries@, key@, i as int),
                None => forall|i: int| !entry_at(self.entries@, key@, i),
            },
    {
        for i in 0..self.entries.len()
            invariant
                forall|j: int| 0 <= j < i ==> !entry_at(self.entries@, key@, j),
        {
            if text::same_text(self.entries[i].0.as_str(), key) {
                return Some(i);
            }
        }
        None
    }

    /// The value of `key`.
    pub fn get(&self, key: &str) -> (r: Option<&V>)
        ensures
            match r {
                Some(v) => self@.dom().contains(key@) && *v == self@[key@],
                None => !self@.dom().contains(key@),
            },
    {
        proof {
            use_type_invariant(self);
        }
        match self.place(key) {
            Some(i) => {
                proof {
                    lemma_value(self.entries@, key@, i as int);
                }
                Some(&self.entries[i].1)
            },
            None => None,
        }
    }

    /// Whether `key` has a value.
    pub fn contains_key(&self, key: &str) -> (r: bool)
        ensures
            r == self@.dom().contains(key@),
    {
        self.place(key).is_some()
    }

    /// Gives `key` the value `value`.
    pub fn insert(&mut self, key: String, value: V)
        ensures
            final(self)@ == old(self)@.insert(key@, value),
    {
        proof {
            use_type_invariant(&*self);
        }
        let found = self.place(key.as_str());
        let mut entries: Vec<(String, V)> = Vec::new();
        std::mem::swap(&mut entries, &mut self.entries);
        let ghost before = entries@;
        let ghost k = key@;
        match found {
            Some(i) => {
                entries.set(i, (key, value));
                proof {
                    assert forall|x: Seq<char>|
                        as_map(before).insert(k, value).dom().contains(x) == as_map(
                            entries@,
                        ).dom().contains(x) by {
                        if exists|j: int| entry_at(before, x, j) {
                            let j = choose|j: int| entry_at(before, x, j);
                            assert(entry_at(entries@, x, j));
                        }
                        if exists|j: int| entry_at(entries@, x, j) {
                            let j = choose|j: int| entry_at(entries@, x, j);
                            assert(entry_at(before, x, j));
                        }
                        if x == k {
                            assert(entry_at(entries@, k, i as int));
                        }
                    }
                    assert forall|x: Seq<char>| #[trigger] as_map(entries@).dom().contains(x) implies as_map(
                        entries@,
                    )[x] == as_map(before).insert(k, value)[x] by {
                        let j = choose|j: int| entry_at(entries@, x, j);
                        lemma_value(entries@, x, j);
                        if x != k {
                            assert(entry_at(before, x, j));
                            lemma_value(before, x, j);
                        }
                    }
                    assert(as_map(entries@) =~= as_map(before).insert(k, value));
                    assert(entry_at(before, k, i as int));
                }
            },
            None => {
                entries.push((key, value));
                proof {
                    let last = before.len() as int;
                    assert forall|p: int, q: int| 0 <= p < q < entries@.len() implies #[trigger] entries@[p].0@
                        != #[trigger] entries@[q].0@ by {
                        assert(!entry_at(before, k, p));
                        if q < last {
                            assert(before[p].0@ != before[q].0@);
                        }
                    }
                    assert forall|x: Seq<char>|
                        as_map(before).insert(k, value).dom().contains(x) == as_map(
                            entries@,
                        ).dom().contains(x) by {
                        if exists|j: int| entry_at(before, x, j) {
                            let j = choose|j: int| entry_at(before, x, j);
                            assert(entry_at(entries@, x, j));
                        }
                        if exists|j: int| entry_at(entries@, x, j) {
                            let j = choose|j: int| entry_at(entries@, x, j);
                            if j < last {
                                assert(entry_at(before, x, j));
                            }
                        }
                        if x == k {
                            assert(entry_at(entries@, k, last));
                        }
                    }
                    assert forall|x: Seq<char>| #[trigger] as_map(entries@).dom().contains(x) implies as_map(
                        entries@,
                    )[x] == as_map(before).insert(k, value)[x] by {
                        let j = choose|j: int| entry_at(entries@, x, j);
                        lemma_value(entries@, x, j);
                        if x != k {
                            assert(entry_at(before, x, j));
                            lemma_value(before, x, j);
                        }
                    }
                    assert(as_map(entries@) =~= as_map(before).insert(k, value));
                }
            },
        }
        self.entries = entries;
    }
}

impl<V: Clone> Clone for TextMap<V> {
    /// The same keys, each with a clone of its value.
    fn clone(&self) -> (r: Self)
        ensures
            r@.dom() == self@.dom(),
            forall|k: Seq<char>|
                self@.dom().contains(k) ==> cloned::<V>(self@[k], #[trigger] r@[k]),
    {
        proof {
            use_type_invariant(self);
        }
        let mut entries: Vec<(String, V)> = Vec::new();
        for i in 0..self.entries.len()
            invariant
                entries@.len() == i,
                forall|j: int|
                    0 <= j < i ==> (#[trigger] entries@[j]).0@ == self.entries@[j].0@ && cloned::<V>(
                        self.entries@[j].1,
                        entries@[j].1,
                    ),
        {
            entries.push((self.entries[i].0.clone(), self.entries[i].1.clone()));
        }
        proof {
            lemma_keys(self.entries@);
            lemma_keys(entries@);
            assert(keys_of(entries@) =~= keys_of(self.entries@));
            assert forall|k: Seq<char>| as_map(self.entries@).dom().contains(k) implies cloned::<V>(
                as_map(self.entries@)[k],
                #[trigger] as_map(entries@)[k],
            ) by {
                let i = choose|i: int| entry_at(self.entries@, k, i);
                assert(entry_at(entries@, k, i));
                lemma_value(self.entries@, k, i);
                lemma_value(entries@, k, i);
            }
        }
        TextMap { entries }
    }
}

spec fn keys_of<V>(entries: Seq<(String, V)>) -> Seq<Seq<char>> {
    entries.map_values(|e: (String, V)| e.0@)
}

proof fn lemma_keys<V>(entries: Seq<(String, V)>)
    requires
        distinct_keys(entries),
    ensures
        keys_of(entries).no_duplicates(),
        keys_of(entries).to_set() == as_map(entries).dom(),
{
    let keys = keys_of(entries);
    assert forall|k: Seq<char>| keys.to_set().contains(k) == as_map(entries).dom().contains(k) by {
        if keys.contains(k) {
            let i = choose|i: int| 0 <= i < keys.len() && keys[i] == k;
            assert(entry_at(entries, k, i));
        }
        if exists|i: int| entry_at(entries, k, i) {
            let i = choose|i: int| entry_at(entries, k, i);
            assert(keys[i] == k);
        }
    }
    assert(keys.to_set() =~= as_map(entries).dom());
}

proof fn lemma_value<V>(entries: Seq<(String, V)>, k: Seq<char>, i: int)
    requires
        distinct_keys(entries),
        entry_at(entries, k, i),
    ensures
        as_map(entries).dom().contains(k),
        as_map(entries)[k] == entries[i].1,
{
    let j = choose|j: int| entry_at(entries, k, j);
    assert(entry_at(entries, k, j));
    if i < j {
        assert(entries[i].0@ != entries[j].0@);
    }
    if j < i {
        assert(entries[j].0@ != entries[i].0@);
    }
}

} // verus!
