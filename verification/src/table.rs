//! A small map from strings to values that remembers the order in which
//! its keys were first inserted.  No key occurs twice.
use vstd::prelude::*;
use vstd::string::*;

verus! {

/// The values of a sequence of strings, each taken by its view.
pub open spec fn texts(v: Seq<String>) -> Seq<Seq<char>> {
    v.map_values(|s: String| s@)
}

/// No key occurs twice.
pub open spec fn distinct(keys: Seq<Seq<char>>) -> bool {
    forall|i: int, j: int| 0 <= i < j < keys.len() ==> keys[i] != keys[j]
}

/// The index of `key` among distinct `keys`.
pub proof fn lemma_index_of_distinct(keys: Seq<Seq<char>>, key: Seq<char>, at: int)
    requires
        distinct(keys),
        0 <= at < keys.len(),
        keys[at] == key,
    ensures
        keys.contains(key),
        keys.index_of(key) == at,
{
    let i = keys.index_of(key);
    assert(0 <= i < keys.len() && keys[i] == key);
    if i < at {
        assert(keys[i] != keys[at]);
    } else if at < i {
        assert(keys[at] != keys[i]);
    }
}

/// A map from strings to values of `V`, in the order of insertion.
pub struct Table<V> {
    names: Vec<String>,
    items: Vec<V>,
}

impl<V> Table<V> {
    #[verifier::type_invariant]
    pub closed spec fn inv(self) -> bool {
        &&& self.names.len() == self.items.len()
        &&& distinct(texts(self.names@))
    }

    /// The keys, in the order of their first insertion.
    pub closed spec fn keys(&self) -> Seq<Seq<char>> {
        texts(self.names@)
    }

    /// The values, each at the index of its key.
    pub closed spec fn values(&self) -> Seq<V> {
        self.items@
    }

    /// What every table satisfies.
    pub open spec fn wf(&self) -> bool {
        &&& self.keys().len() == self.values().len()
        &&& distinct(self.keys())
    }

    /// The invariant of the type, in terms of keys and values.
    pub proof fn lemma_wf(&self)
        requires
            self.inv(),
        ensures
            self.wf(),
    {
    }

    /// The table has `key`.
    pub open spec fn has(&self, key: Seq<char>) -> bool {
        self.keys().contains(key)
    }

    /// The value under `key`; meaningful where `has(key)`.
    pub open spec fn at(&self, key: Seq<char>) -> V {
        self.values()[self.keys().index_of(key)]
    }

    /// The empty table.
    pub fn new() -> (t: Table<V>)
        ensures
            t.wf(),
            t.keys() == Seq::<Seq<char>>::empty(),
            t.values() == Seq::<V>::empty(),
    {
        let t = Table { names: Vec::new(), items: Vec::new() };
        assert(texts(t.names@) == Seq::<Seq<char>>::empty());
        t
    }

    /// The number of keys.
    pub fn len(&self) -> (n: usize)
        ensures
            self.wf(),
            n == self.keys().len(),
    {
        proof {
            use_type_invariant(self);
        }
        self.names.len()
    }

    /// The index of `key`, if the table has it.
    pub fn position(&self, key: &str) -> (r: Option<usize>)
        ensures
            self.wf(),
            match r {
                Some(i) => i < self.keys().len() && self.keys()[i as int] == key@
                    && self.keys().index_of(key@) == i && self.has(key@),
                None => !self.has(key@),
            },
    {
        proof {
            use_type_invariant(self);
        }
        let wanted = key.to_owned();
        let mut i: usize = 0;
        while i < self.names.len()
            invariant
                i <= self.names.len(),
                self.wf(),
                wanted@ == key@,
                forall|j: int| 0 <= j < i ==> texts(self.names@)[j] != key@,
            decreases self.names.len() - i,
        {
            if self.names[i] == wanted {
                proof {
                    lemma_index_of_distinct(self.keys(), key@, i as int);
                }
                return Some(i);
            }
            i += 1;
        }
        None
    }

    /// Whether the table has `key`.
    pub fn contains_key(&self, key: &str) -> (r: bool)
        ensures
            self.wf(),
            r == self.has(key@),
    {
        self.position(key).is_some()
    }

    /// The value under `key`.
    pub fn get(&self, key: &str) -> (r: Option<&V>)
        ensures
            self.wf(),
            match r {
                Some(v) => self.has(key@) && *v == self.at(key@),
                None => !self.has(key@),
            },
    {
        proof {
            use_type_invariant(self);
        }
        match self.position(key) {
            Some(i) => Some(&self.items[i]),
            None => None,
        }
    }

    /// The keys as they are stored.
    pub fn names(&self) -> (names: &Vec<String>)
        ensures
            self.wf(),
            texts(names@) == self.keys(),
    {
        proof {
            use_type_invariant(self);
        }
        &self.names
    }

    /// The values as they are stored.
    pub fn items(&self) -> (items: &Vec<V>)
        ensures
            self.wf(),
            items@ == self.values(),
    {
        proof {
            use_type_invariant(self);
        }
        &self.items
    }

    /// The key at index `i`.
    pub fn key_at(&self, i: usize) -> (k: &String)
        requires
            i < self.keys().len(),
        ensures
            self.wf(),
            k@ == self.keys()[i as int],
    {
        proof {
            use_type_invariant(self);
        }
        &self.names[i]
    }

    /// The value at index `i`.
    pub fn value_at(&self, i: usize) -> (v: &V)
        requires
            i < self.keys().len(),
        ensures
            self.wf(),
            *v == self.values()[i as int],
    {
        proof {
            use_type_invariant(self);
        }
        &self.items[i]
    }

    /// Binds `key` to `value`.  A key that the table has keeps its place
    /// and gets the new value; a new key goes to the end.  Returns whether
    /// the key is new.
    pub fn insert(&mut self, key: String, value: V) -> (added: bool)
        ensures
            final(self).wf(),
            added == !old(self).has(key@),
            added ==> final(self).keys() == old(self).keys().push(key@) && final(self).values()
                == old(self).values().push(value),
            !added ==> final(self).keys() == old(self).keys() && final(self).values() == old(self).values().update(old(self).keys().index_of(key@), value),
    {
        proof {
            use_type_invariant(&*self);
        }
        let found = self.position(key.as_str());
        let mut taken: Table<V> = Table::new();
        core::mem::swap(self, &mut taken);
        let Table { mut names, mut items } = taken;
        let ghost before = texts(names@);
        let added = match found {
            Some(i) => {
                items.set(i, value);
                false
            },
            None => {
                names.push(key);
                items.push(value);
                proof {
                    assert(texts(names@) == before.push(key@));
                    assert forall|i: int, j: int| 0 <= i < j < texts(names@).len() implies texts(
                        names@,
                    )[i] != texts(names@)[j] by {
                        if j == before.len() {
                            assert(before[i] != key@);
                        } else {
                            assert(before[i] != before[j]);
                        }
                    }
                }
                true
            },
        };
        *self = Table { names, items };
        added
    }

    /// Takes `key` and its value out; the other keys keep their order.
    pub fn remove(&mut self, key: &str) -> (removed: Option<V>)
        ensures
            final(self).wf(),
            match removed {
                Some(v) => old(self).has(key@) && v == old(self).at(key@) && final(self).keys() == old(self).keys().remove(old(self).keys().index_of(key@)) && final(self).values() == old(self).values().remove(old(self).keys().index_of(key@)),
                None => !old(self).has(key@) && final(self).keys() == old(self).keys() && final(self).values() == old(self).values(),
            },
            !final(self).has(key@),
    {
        proof {
            use_type_invariant(&*self);
        }
        let found = self.position(key);
        let mut taken: Table<V> = Table::new();
        core::mem::swap(self, &mut taken);
        let Table { mut names, mut items } = taken;
        let ghost before = texts(names@);
        let removed = match found {
            Some(i) => {
                names.remove(i);
                let v = items.remove(i);
                proof {
                    let after = texts(names@);
                    assert(after == before.remove(i as int));
                    assert forall|a: int, b: int| 0 <= a < b < after.len() implies after[a] != after[b] by {
                        let a2 = if a < i { a } else { a + 1 };
                        let b2 = if b < i { b } else { b + 1 };
                        assert(before[a2] != before[b2]);
                    }
                    if after.contains(key@) {
                        let j = after.index_of(key@);
                        let j2 = if j < i { j } else { j + 1 };
                        assert(before[j2] == key@);
                        if j2 < i {
                            assert(before[j2] != before[i as int]);
                        } else {
                            assert(before[i as int] != before[j2]);
                        }
                    }
                }
                Some(v)
            },
            None => None,
        };
        *self = Table { names, items };
        removed
    }
}

/// The entries of a table of strings: each key with the text bound to it.
pub open spec fn entries(t: &Table<String>) -> Seq<(Seq<char>, Seq<char>)> {
    Seq::new(t.keys().len(), |i: int| (t.keys()[i], t.values()[i]@))
}

/// The text bound to `key`, if any.
pub open spec fn text_at(t: &Table<String>, key: Seq<char>) -> Option<Seq<char>> {
    if t.has(key) {
        Some(t.at(key)@)
    } else {
        None
    }
}

/// A table from a list of pairs.  Where a key comes twice the last value
/// wins and the key keeps its first place.
pub open spec fn bind_all(start: Seq<(Seq<char>, Seq<char>)>, pairs: Seq<(Seq<char>, Seq<char>)>) -> Seq<
    (Seq<char>, Seq<char>),
>
    decreases pairs.len(),
{
    if pairs.len() == 0 {
        start
    } else {
        bind(bind_all(start, pairs.drop_last()), pairs.last().0, pairs.last().1)
    }
}

/// `entries` with `key` bound to `value`.
pub open spec fn bind<V>(entries: Seq<(Seq<char>, V)>, key: Seq<char>, value: V) -> Seq<(Seq<char>, V)> {
    let keys = entries.map_values(|e: (Seq<char>, V)| e.0);
    if keys.contains(key) {
        entries.update(keys.index_of(key), (key, value))
    } else {
        entries.push((key, value))
    }
}

/// Binds `key` to `value` in a table of strings.
pub fn set_text(t: &mut Table<String>, key: &str, value: String)
    ensures
        final(t).wf(),
        entries(final(t)) == bind(entries(old(t)), key@, value@),
{
    proof {
        use_type_invariant(&*t);
    }
    let ghost before = entries(t);
    let ghost keys_before = t.keys();
    assert(before.map_values(|e: (Seq<char>, Seq<char>)| e.0) == keys_before);
    let added = t.insert(key.to_owned(), value);
    proof {
        if added {
            assert(entries(t) == before.push((key@, value@)));
        } else {
            assert(entries(t) == before.update(keys_before.index_of(key@), (key@, value@)));
        }
    }
}

/// A table of strings from a list of pairs.
pub fn table_of(pairs: &Vec<(String, String)>) -> (t: Table<String>)
    ensures
        t.wf(),
        entries(&t) == bind_all(Seq::empty(), pairs.deep_view()),
{
    let mut t: Table<String> = Table::new();
    let mut i: usize = 0;
    assert(entries(&t) == Seq::<(Seq<char>, Seq<char>)>::empty());
    assert(pairs.deep_view().take(0) == Seq::<(Seq<char>, Seq<char>)>::empty());
    while i < pairs.len()
        invariant
            i <= pairs.len(),
            entries(&t) == bind_all(Seq::empty(), pairs.deep_view().take(i as int)),
        decreases pairs.len() - i,
    {
        let value = pairs[i].1.clone();
        set_text(&mut t, pairs[i].0.as_str(), value);
        proof {
            let all = pairs.deep_view();
            let next = all.take(i + 1);
            assert(next.drop_last() == all.take(i as int));
            assert(next.last() == all[i as int]);
            assert(all[i as int] == (pairs[i as int].0@, pairs[i as int].1@));
        }
        i += 1;
    }
    assert(pairs.deep_view().take(pairs.len() as int) == pairs.deep_view());
    proof {
        use_type_invariant(&t);
    }
    t
}

/// `t` holds the keys of `pairs`, each with the value of its last
/// occurrence.
pub open spec fn holds_last<V>(t: &Table<V>, pairs: Seq<(String, V)>) -> bool {
    &&& forall|key: Seq<char>|
        t.has(key) <==> exists|i: int| 0 <= i < pairs.len() && (#[trigger] pairs[i]).0@ == key
    &&& forall|i: int|
        0 <= i < pairs.len() && (forall|j: int| i < j < pairs.len() ==> pairs[j].0@ != pairs[i].0@)
            ==> t.at((#[trigger] pairs[i]).0@) == pairs[i].1
}

/// A table from a list of pairs, for values that cannot be copied.  Where
/// a key comes twice the last value wins.
pub fn table_from<V>(pairs: Vec<(String, V)>) -> (t: Table<V>)
    ensures
        t.wf(),
        holds_last(&t, pairs@),
{
    let ghost all = pairs@;
    let mut pairs = pairs;
    let mut t: Table<V> = Table::new();
    while pairs.len() > 0
        invariant
            t.wf(),
            pairs@.len() <= all.len(),
            pairs@ == all.take(pairs@.len() as int),
            forall|key: Seq<char>|
                t.has(key) <==> exists|i: int|
                    pairs@.len() <= i < all.len() && (#[trigger] all[i]).0@ == key,
            forall|i: int|
                pairs@.len() <= i < all.len() && (forall|j: int| i < j < all.len() ==> all[j].0@ != all[i].0@)
                    ==> t.at((#[trigger] all[i]).0@) == all[i].1,
        decreases pairs.len(),
    {
        let ghost n = pairs@.len() - 1;
        let ghost before = t;
        let (key, value) = pairs.pop().unwrap();
        assert(all[n] == (key, value));
        if !t.contains_key(key.as_str()) {
            t.insert(key, value);
            proof {
                assert forall|k: Seq<char>| t.has(k) <==> exists|i: int|
                    n <= i < all.len() && (#[trigger] all[i]).0@ == k by {
                    if t.has(k) {
                        let at = t.keys().index_of(k);
                        if at < before.keys().len() {
                            assert(before.keys()[at] == k);
                            assert(before.has(k));
                        } else {
                            assert(all[n].0@ == k);
                        }
                    }
                    if exists|i: int| n <= i < all.len() && (#[trigger] all[i]).0@ == k {
                        let i = choose|i: int| n <= i < all.len() && (#[trigger] all[i]).0@ == k;
                        if i == n {
                            assert(t.keys()[before.keys().len() as int] == k);
                        } else {
                            assert(before.has(k));
                            let at = before.keys().index_of(k);
                            assert(t.keys()[at] == k);
                        }
                    }
                }
                assert forall|i: int|
                    n <= i < all.len() && (forall|j: int| i < j < all.len() ==> all[j].0@ != all[i].0@) implies t.at(
                    (#[trigger] all[i]).0@,
                ) == all[i].1 by {
                    let k = all[i].0@;
                    if i == n {
                        lemma_index_of_distinct(t.keys(), k, before.keys().len() as int);
                    } else {
                        assert(before.has(k));
                        let at = before.keys().index_of(k);
                        lemma_index_of_distinct(t.keys(), k, at);
                    }
                }
            }
        } else {
            proof {
                assert(before.has(key@));
                let later = choose|i: int| n < i < all.len() && (#[trigger] all[i]).0@ == key@;
                assert forall|k: Seq<char>| t.has(k) <==> exists|i: int|
                    n <= i < all.len() && (#[trigger] all[i]).0@ == k by {
                    if exists|i: int| n <= i < all.len() && (#[trigger] all[i]).0@ == k {
                        let i = choose|i: int| n <= i < all.len() && (#[trigger] all[i]).0@ == k;
                        if i == n {
                            assert(all[later].0@ == k);
                        }
                    }
                }
            }
        }
        assert(pairs@ == all.take(n));
    }
    t
}

/// Binding pairs whose keys are all different, to nothing, gives the
/// pairs themselves.
pub proof fn lemma_bind_all_distinct(pairs: Seq<(Seq<char>, Seq<char>)>, n: int)
    requires
        0 <= n <= pairs.len(),
        forall|i: int, j: int| 0 <= i < j < pairs.len() ==> pairs[i].0 != pairs[j].0,
    ensures
        bind_all(Seq::empty(), pairs.take(n)) == pairs.take(n),
    decreases n,
{
    if n > 0 {
        lemma_bind_all_distinct(pairs, n - 1);
        let upto = pairs.take(n);
        assert(upto.drop_last() == pairs.take(n - 1));
        let before = pairs.take(n - 1);
        let keys = before.map_values(|e: (Seq<char>, Seq<char>)| e.0);
        if keys.contains(upto.last().0) {
            let at = keys.index_of(upto.last().0);
            assert(pairs[at].0 == pairs[n - 1].0);
        }
        assert(upto == before.push(upto.last()));
    }
}

/// A table with the entries of `t`.
pub fn copy_texts(t: &Table<String>) -> (copy: Table<String>)
    ensures
        copy.wf(),
        entries(&copy) == entries(t),
        copy.keys() == t.keys(),
{
    let n = t.len();
    let mut copy: Table<String> = Table::new();
    let mut i: usize = 0;
    assert(entries(&copy) =~= entries(t).take(0));
    while i < n
        invariant
            i <= n,
            n == t.keys().len(),
            t.wf(),
            copy.wf(),
            copy.keys() == t.keys().take(i as int),
            entries(&copy) == entries(t).take(i as int),
        decreases n - i,
    {
        let key = t.key_at(i).clone();
        let value = t.value_at(i).clone();
        let ghost before = copy;
        proof {
            if copy.has(key@) {
                let at = copy.keys().index_of(key@);
                assert(t.keys()[at] == t.keys()[i as int]);
            }
        }
        copy.insert(key, value);
        assert(copy.keys() =~= t.keys().take(i + 1));
        assert(entries(&copy) =~= entries(t).take(i + 1));
        i += 1;
    }
    assert(entries(t).take(n as int) == entries(t));
    assert(t.keys().take(n as int) == t.keys());
    copy
}

} // verus!
