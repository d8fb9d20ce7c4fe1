//! Maps from text to values that keep the order in which keys were first
//! added.

use vstd::prelude::*;
use crate::text::{list_has, text_eq};

verus! {

/// The place of the first pair with key `k`.
pub open spec fn key_pos<T>(m: Seq<(Seq<char>, T)>, k: Seq<char>) -> Option<int>
    decreases m.len(),
{
    if m.len() == 0 {
        None
    } else {
        match key_pos(m.drop_last(), k) {
            Some(i) => Some(i),
            None => if m.last().0 == k {
                Some(m.len() - 1)
            } else {
                None
            },
        }
    }
}

/// The value of key `k`, if there is one.
pub open spec fn value_of<T>(m: Seq<(Seq<char>, T)>, k: Seq<char>) -> Option<T> {
    match key_pos(m, k) {
        Some(i) => Some(m[i].1),
        None => None,
    }
}

/// Whether `k` is a key.
pub open spec fn has_key<T>(m: Seq<(Seq<char>, T)>, k: Seq<char>) -> bool {
    key_pos(m, k) is Some
}

/// The keys in order.
pub open spec fn keys_of<T>(m: Seq<(Seq<char>, T)>) -> Seq<Seq<char>> {
    m.map_values(|p: (Seq<char>, T)| p.0)
}

/// No key stands twice.
pub open spec fn distinct<T>(m: Seq<(Seq<char>, T)>) -> bool {
    forall|i: int, j: int| 0 <= i < j < m.len() ==> #[trigger] m[i].0 != #[trigger] m[j].0
}

/// The map with value `v` at key `k`; a new key goes to the end.
pub open spec fn with_value<T>(m: Seq<(Seq<char>, T)>, k: Seq<char>, v: T) -> Seq<(Seq<char>, T)> {
    match key_pos(m, k) {
        Some(i) => m.update(i, (k, v)),
        None => m.push((k, v)),
    }
}

/// The map with value `v` at key `k`, unless the key has a value.
pub open spec fn with_default<T>(m: Seq<(Seq<char>, T)>, k: Seq<char>, v: T) -> Seq<(Seq<char>, T)> {
    if has_key(m, k) {
        m
    } else {
        m.push((k, v))
    }
}

/// The map with all pairs of another set in turn.
pub open spec fn with_all<T>(m: Seq<(Seq<char>, T)>, other: Seq<(Seq<char>, T)>) -> Seq<
    (Seq<char>, T),
>
    decreases other.len(),
{
    if other.len() == 0 {
        m
    } else {
        with_value(with_all(m, other.drop_last()), other.last().0, other.last().1)
    }
}

/// The map without key `k`.
pub open spec fn without_key<T>(m: Seq<(Seq<char>, T)>, k: Seq<char>) -> Seq<(Seq<char>, T)> {
    match key_pos(m, k) {
        Some(i) => m.remove(i),
        None => m,
    }
}

/// The list with `x` at its end, unless it holds `x`.
pub open spec fn with_member(list: Seq<Seq<char>>, x: Seq<char>) -> Seq<Seq<char>> {
    if list.contains(x) {
        list
    } else {
        list.push(x)
    }
}

/// `key_pos` is the first place that holds the key.
pub proof fn lemma_key_pos<T>(m: Seq<(Seq<char>, T)>, k: Seq<char>)
    ensures
        match key_pos(m, k) {
            Some(i) => 0 <= i < m.len() && m[i].0 == k && (forall|j: int|
                0 <= j < i ==> (#[trigger] m[j]).0 != k),
            None => forall|j: int| 0 <= j < m.len() ==> (#[trigger] m[j]).0 != k,
        },
    decreases m.len(),
{
    if m.len() > 0 {
        lemma_key_pos(m.drop_last(), k);
        assert forall|j: int| 0 <= j < m.len() - 1 implies #[trigger] m[j] == m.drop_last()[j] by {}
        if key_pos(m, k) is None {
            assert forall|j: int| 0 <= j < m.len() implies (#[trigger] m[j]).0 != k by {
                if j < m.len() - 1 {
                    assert(m.drop_last()[j].0 != k);
                }
            }
        }
    }
}

/// A place that holds the key, where no earlier one does, is `key_pos`.
pub proof fn lemma_key_pos_is<T>(m: Seq<(Seq<char>, T)>, k: Seq<char>, i: int)
    requires
        0 <= i < m.len(),
        m[i].0 == k,
        forall|j: int| 0 <= j < i ==> (#[trigger] m[j]).0 != k,
    ensures
        key_pos(m, k) == Some(i),
{
    lemma_key_pos(m, k);
}

/// Setting a value keeps the keys distinct, changes that key and no other.
pub proof fn law_with_value<T>(m: Seq<(Seq<char>, T)>, k: Seq<char>, v: T, other: Seq<char>)
    requires
        distinct(m),
    ensures
        distinct(with_value(m, k, v)),
        value_of(with_value(m, k, v), k) == Some(v),
        other != k ==> value_of(with_value(m, k, v), other) == value_of(m, other),
{
    lemma_key_pos(m, k);
    lemma_key_pos(m, other);
    let n = with_value(m, k, v);
    lemma_key_pos(n, k);
    lemma_key_pos(n, other);
    match key_pos(m, k) {
        Some(i) => {
            assert(n[i] == (k, v));
            lemma_key_pos_is(n, k, i);
            if other != k {
                match key_pos(m, other) {
                    Some(o) => {
                        assert(n[o] == m[o]);
                        lemma_key_pos_is(n, other, o);
                    },
                    None => {
                        if key_pos(n, other) is Some {
                            let o = key_pos(n, other)->0;
                            assert(m[o].0 == other);
                        }
                    },
                }
            }
        },
        None => {
            lemma_key_pos_is(n, k, m.len() as int);
            if other != k {
                match key_pos(m, other) {
                    Some(o) => {
                        assert(n[o] == m[o]);
                        lemma_key_pos_is(n, other, o);
                    },
                    None => {
                        if key_pos(n, other) is Some {
                            let o = key_pos(n, other)->0;
                            assert(m[o].0 == other);
                        }
                    },
                }
            }
        },
    }
}

/// A map from text to values, in the order in which the keys came.
#[derive(Debug)]
pub struct TextMap<V> {
    pub entries: Vec<(String, V)>,
}

impl<V: DeepView> DeepView for TextMap<V> {
    type V = Seq<(Seq<char>, V::V)>;

    open spec fn deep_view(&self) -> Seq<(Seq<char>, V::V)> {
        self.entries.deep_view()
    }
}

/// The place of the first pair with key `k`.
#[verifier::loop_isolation(false)]
pub fn place_of<V: DeepView>(entries: &Vec<(String, V)>, k: &str) -> (r: Option<usize>)
    ensures
        match r {
            Some(i) => i < entries@.len() && key_pos(entries.deep_view(), k@) == Some(i as int),
            None => key_pos(entries.deep_view(), k@) is None,
        },
{
    let ghost m = entries.deep_view();
    let mut i: usize = 0;
    while i < entries.len()
        invariant
            i <= entries@.len(),
            forall|j: int| 0 <= j < i ==> (#[trigger] m[j]).0 != k@,
        decreases entries@.len() - i,
    {
        assert(m[i as int].0 == entries@[i as int].0@);
        if text_eq(entries[i].0.as_str(), k) {
            proof {
                lemma_key_pos_is(m, k@, i as int);
            }
            return Some(i);
        }
        i += 1;
    }
    proof {
        lemma_key_pos(m, k@);
    }
    None
}

impl<V: DeepView> TextMap<V> {
    /// The empty map.
    pub fn new() -> (r: Self)
        ensures
            r.deep_view() == Seq::<(Seq<char>, V::V)>::empty(),
    {
        let r = TextMap { entries: Vec::new() };
        assert(r.deep_view() =~= Seq::<(Seq<char>, V::V)>::empty());
        r
    }

    /// The number of keys.
    pub fn len(&self) -> (r: usize)
        ensures
            r == self.deep_view().len(),
    {
        self.entries.len()
    }

    /// Whether the map holds nothing.
    pub fn is_empty(&self) -> (r: bool)
        ensures
            r == (self.deep_view().len() == 0),
    {
        self.entries.len() == 0
    }

    /// The value of a key.
    pub fn get(&self, k: &str) -> (r: Option<&V>)
        ensures
            r.deep_view() == value_of(self.deep_view(), k@),
    {
        match place_of(&self.entries, k) {
            Some(i) => {
                assert(self.deep_view()[i as int].1 == self.entries@[i as int].1.deep_view());
                Some(&self.entries[i].1)
            },
            None => None,
        }
    }

    /// Whether the map holds a key.
    pub fn contains_key(&self, k: &str) -> (r: bool)
        ensures
            r == has_key(self.deep_view(), k@),
    {
        place_of(&self.entries, k).is_some()
    }

    /// Takes the value of a key out of the map.
    pub fn remove(&mut self, k: &str) -> (r: Option<V>)
        ensures
            r.deep_view() == value_of(old(self).deep_view(), k@),
            final(self).deep_view() == without_key(old(self).deep_view(), k@),
    {
        let ghost m = self.deep_view();
        match place_of(&self.entries, k) {
            Some(i) => {
                let ghost held = self.entries@;
                let p = self.entries.remove(i);
                assert(m[i as int].1 == held[i as int].1.deep_view());
                assert(self.deep_view() =~= m.remove(i as int));
                Some(p.1)
            },
            None => None,
        }
    }

    /// Sets the value of a key, unless it has one.
    pub fn insert_new(&mut self, k: String, v: V)
        ensures
            final(self).deep_view() == with_default(old(self).deep_view(), k@, v.deep_view()),
    {
        let ghost m = self.deep_view();
        if place_of(&self.entries, k.as_str()).is_none() {
            self.entries.push((k, v));
            assert(self.deep_view() =~= m.push((k@, v.deep_view())));
        }
    }

    /// Sets the value of a key.
    pub fn insert(&mut self, k: String, v: V)
        ensures
            final(self).deep_view() == with_value(old(self).deep_view(), k@, v.deep_view()),
    {
        let ghost m = self.deep_view();
        match place_of(&self.entries, k.as_str()) {
            Some(i) => {
                self.entries.set(i, (k, v));
                assert(self.deep_view() =~= m.update(i as int, (k@, v.deep_view())));
            },
            None => {
                self.entries.push((k, v));
                assert(self.deep_view() =~= m.push((k@, v.deep_view())));
            },
        }
    }
}

impl<V: DeepView> TextMap<V> {
    /// Sets all values of another map.
    #[verifier::loop_isolation(false)]
    pub fn extend(&mut self, other: TextMap<V>)
        ensures
            final(self).deep_view() == with_all(old(self).deep_view(), other.deep_view()),
    {
        let ghost start = self.deep_view();
        let ghost all = other.deep_view();
        let ghost total = all.len();
        let mut rest = other.entries;
        let mut back: Vec<(String, V)> = Vec::new();
        while rest.len() > 0
            invariant
                rest@.len() + back@.len() == total,
                forall|j: int|
                    0 <= j < rest@.len() ==> all[j] == ((#[trigger] rest@[j]).0@, rest@[j].1.deep_view()),
                forall|j: int|
                    0 <= j < back@.len() ==> all[total - 1 - j] == (
                        (#[trigger] back@[j]).0@,
                        back@[j].1.deep_view(),
                    ),
            decreases rest@.len(),
        {
            let ghost held = rest@;
            match rest.pop() {
                Some(p) => {
                    assert(held[held.len() - 1] == p);
                    back.push(p);
                },
                None => {},
            }
        }
        let ghost mut i: int = 0;
        while back.len() > 0
            invariant
                0 <= i <= total,
                i + back@.len() == total,
                total == all.len(),
                forall|j: int|
                    0 <= j < back@.len() ==> all[total - 1 - j] == (
                        (#[trigger] back@[j]).0@,
                        back@[j].1.deep_view(),
                    ),
                self.deep_view() == with_all(start, all.take(i)),
            decreases back@.len(),
        {
            let ghost held = back@;
            match back.pop() {
                Some(p) => {
                    assert(held[held.len() - 1] == p);
                    assert(all.take(i + 1).drop_last() =~= all.take(i));
                    self.insert(p.0, p.1);
                    proof {
                        i = i + 1;
                    }
                },
                None => {},
            }
        }
        assert(all.take(i) =~= all);
    }
}

/// Adds a text to the end of a list, unless the list holds it.
pub fn add_member(list: &mut Vec<String>, x: &str)
    ensures
        final(list).deep_view() == with_member(old(list).deep_view(), x@),
{
    let ghost before = list.deep_view();
    if !list_has(list, x) {
        list.push(x.to_owned());
        assert(list.deep_view() =~= before.push(x@));
    }
}

} // verus!
