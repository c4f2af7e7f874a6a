//! Maps whose keys need nothing but to be told apart. The entries stay in the order in which their
//! keys came.
use vstd::prelude::*;
use vstd::string::*;

use crate::id::Id;

verus! {

/// A key: something that can be told apart from others by its view.
pub trait MapKey: View + Sized {
    /// Whether two keys are the same.
    fn same_key(&self, other: &Self) -> (r: bool)
        ensures
            r == (self@ == other@),
    ;
}

impl MapKey for Id {
    fn same_key(&self, other: &Self) -> (r: bool) {
        self.same(other)
    }
}

impl MapKey for String {
    fn same_key(&self, other: &Self) -> (r: bool) {
        *self == *other
    }
}

/// The place of a key among some entries, or their number where it has none.
pub open spec fn place<K, V>(entries: Seq<(K, V)>, key: K) -> int
    decreases entries.len(),
{
    if entries.len() == 0 {
        0
    } else if entries[0].0 == key {
        0
    } else {
        1 + place(entries.skip(1), key)
    }
}

/// Whether there is an entry with a key.
pub open spec fn has_key<K, V>(entries: Seq<(K, V)>, key: K) -> bool {
    place(entries, key) < entries.len()
}

/// The value of a key, if it has one.
pub open spec fn value_of<K, V>(entries: Seq<(K, V)>, key: K) -> Option<V> {
    if has_key(entries, key) {
        Some(entries[place(entries, key)].1)
    } else {
        None
    }
}

/// The entries with another value for a key. A new key comes last.
pub open spec fn with_entry<K, V>(entries: Seq<(K, V)>, key: K, value: V) -> Seq<(K, V)> {
    if has_key(entries, key) {
        entries.update(place(entries, key), (key, value))
    } else {
        entries.push((key, value))
    }
}

/// The entries without a key.
pub open spec fn without_entry<K, V>(entries: Seq<(K, V)>, key: K) -> Seq<(K, V)> {
    if has_key(entries, key) {
        entries.remove(place(entries, key))
    } else {
        entries
    }
}

/// No two entries have the same key.
pub open spec fn distinct_keys<K, V>(entries: Seq<(K, V)>) -> bool {
    forall|i: int, j: int|
        0 <= i < j < entries.len() ==> (#[trigger] entries[i]).0 != (#[trigger] entries[j]).0
}

/// Where the place of a key is.
pub proof fn lemma_place<K, V>(entries: Seq<(K, V)>, key: K)
    ensures
        0 <= place(entries, key) <= entries.len(),
        has_key(entries, key) ==> entries[place(entries, key)].0 == key,
        forall|i: int| 0 <= i < place(entries, key) ==> (#[trigger] entries[i]).0 != key,
    decreases entries.len(),
{
    if entries.len() > 0 && entries[0].0 != key {
        let rest = entries.skip(1);
        lemma_place(rest, key);
        assert forall|i: int| 0 <= i < place(entries, key) implies (#[trigger] entries[i]).0
            != key by {
            if i > 0 {
                assert(rest[i - 1] == entries[i]);
            }
        }
    }
}

/// A key that stands at `i` and at no earlier place has the place `i`.
pub proof fn lemma_first_place<K, V>(entries: Seq<(K, V)>, key: K, i: int)
    requires
        0 <= i <= entries.len(),
        i < entries.len() ==> entries[i].0 == key,
        forall|j: int| 0 <= j < i ==> (#[trigger] entries[j]).0 != key,
    ensures
        place(entries, key) == i,
{
    lemma_place(entries, key);
    let p = place(entries, key);
    if p < i {
        assert(entries[p].0 == key);
    }
}

/// What was put under a key is found there, and nothing else has changed.
pub proof fn entry_is_found<K, V>(entries: Seq<(K, V)>, key: K, value: V, other: K)
    ensures
        value_of(with_entry(entries, key, value), key) == Some(value),
        other != key ==> value_of(with_entry(entries, key, value), other) == value_of(
            entries,
            other,
        ),
        distinct_keys(entries) ==> distinct_keys(with_entry(entries, key, value)),
{
    let after = with_entry(entries, key, value);
    lemma_place(entries, key);
    lemma_place(entries, other);
    let p = place(entries, key);
    lemma_first_place(after, key, p);
    if other != key {
        let q = place(entries, other);
        if q < entries.len() {
            lemma_first_place(after, other, q);
        } else {
            lemma_first_place(after, other, after.len() as int);
        }
    }
    if distinct_keys(entries) {
        assert forall|i: int, j: int| 0 <= i < j < after.len() implies (#[trigger] after[i]).0 != (
        #[trigger] after[j]).0 by {
            if j < entries.len() {
                assert(entries[i].0 != entries[j].0);
            }
        }
    }
}

/// What was taken out is no longer there, and nothing else has changed.
pub proof fn entry_is_gone<K, V>(entries: Seq<(K, V)>, key: K, other: K)
    requires
        distinct_keys(entries),
    ensures
        !has_key(without_entry(entries, key), key),
        other != key ==> value_of(without_entry(entries, key), other) == value_of(
            entries,
            other,
        ),
        distinct_keys(without_entry(entries, key)),
{
    let after = without_entry(entries, key);
    lemma_place(entries, key);
    lemma_place(entries, other);
    if has_key(entries, key) {
        let p = place(entries, key);
        assert forall|i: int| 0 <= i < after.len() implies (#[trigger] after[i]).0 != key by {
            if i < p {
                assert(after[i] == entries[i]);
            } else {
                assert(after[i] == entries[i + 1]);
                assert(entries[p].0 != entries[i + 1].0);
            }
        }
        lemma_first_place(after, key, after.len() as int);
        if other != key {
            let q = place(entries, other);
            if q < p {
                lemma_first_place(after, other, q);
            } else if q < entries.len() {
                assert forall|j: int| 0 <= j < q - 1 implies (#[trigger] after[j]).0 != other by {
                    if j >= p {
                        assert(after[j] == entries[j + 1]);
                    }
                }
                lemma_first_place(after, other, q - 1);
            } else {
                assert forall|j: int| 0 <= j < after.len() implies (#[trigger] after[j]).0
                    != other by {
                    if j >= p {
                        assert(after[j] == entries[j + 1]);
                    }
                }
                lemma_first_place(after, other, after.len() as int);
            }
        }
        assert forall|i: int, j: int| 0 <= i < j < after.len() implies (#[trigger] after[i]).0 != (
        #[trigger] after[j]).0 by {
            let i0 = if i < p { i } else { i + 1 };
            let j0 = if j < p { j } else { j + 1 };
            assert(entries[i0].0 != entries[j0].0);
        }
    }
}

/// The entries, each value mapped by `f`.
pub open spec fn mapped<K, V, W>(entries: Seq<(K, V)>, f: spec_fn(V) -> W) -> Seq<(K, W)> {
    Seq::new(entries.len(), |i: int| (entries[i].0, f(entries[i].1)))
}

/// Mapping the values goes with everything that is done to entries.
pub proof fn lemma_mapped<K, V, W>(entries: Seq<(K, V)>, f: spec_fn(V) -> W, key: K)
    ensures
        place(mapped(entries, f), key) == place(entries, key),
        value_of(mapped(entries, f), key) == (match value_of(entries, key) {
            Some(value) => Some(f(value)),
            None => None,
        }),
        without_entry(mapped(entries, f), key) == mapped(without_entry(entries, key), f),
        forall|value: V|
            with_entry(mapped(entries, f), key, #[trigger] f(value)) == mapped(
                with_entry(entries, key, value),
                f,
            ),
        distinct_keys(entries) == distinct_keys(mapped(entries, f)),
{
    let image = mapped(entries, f);
    lemma_place(entries, key);
    lemma_first_place(image, key, place(entries, key));
    assert(without_entry(image, key) =~= mapped(without_entry(entries, key), f));
    assert forall|value: V|
        with_entry(image, key, #[trigger] f(value)) == mapped(
            with_entry(entries, key, value),
            f,
        ) by {
        assert(with_entry(image, key, f(value)) =~= mapped(with_entry(entries, key, value), f));
    }
    if distinct_keys(entries) {
        assert forall|i: int, j: int| 0 <= i < j < image.len() implies (#[trigger] image[i]).0 != (
        #[trigger] image[j]).0 by {
            assert(entries[i].0 != entries[j].0);
        }
    }
    if distinct_keys(image) {
        assert forall|i: int, j: int| 0 <= i < j < entries.len() implies (#[trigger] entries[i]).0
            != (#[trigger] entries[j]).0 by {
            assert(image[i].0 != image[j].0);
        }
    }
}

/// A map.
#[derive(Debug)]
pub struct AssocMap<K, V> {
    entries: Vec<(K, V)>,
}

impl<K: MapKey, V> View for AssocMap<K, V> {
    type V = Seq<(K::V, V)>;

    closed spec fn view(&self) -> Seq<(K::V, V)> {
        Seq::new(self.entries@.len(), |i: int| (self.entries@[i].0@, self.entries@[i].1))
    }
}

impl<K: MapKey, V> AssocMap<K, V> {
    /// Whether no key stands in the map twice.
    pub open spec fn well_formed(&self) -> bool {
        distinct_keys(self@)
    }

    /// The empty map.
    pub fn new() -> (r: Self)
        ensures
            r@ == Seq::<(K::V, V)>::empty(),
            r.well_formed(),
    {
        let r = AssocMap { entries: Vec::new() };
        assert(r@ =~= Seq::<(K::V, V)>::empty());
        r
    }

    /// The number of entries.
    pub fn len(&self) -> (r: usize)
        ensures
            r == self@.len(),
    {
        self.entries.len()
    }

    /// The key of an entry.
    pub fn key_at(&self, i: usize) -> (r: &K)
        requires
            i < self@.len(),
        ensures
            r@ == self@[i as int].0,
    {
        &self.entries[i].0
    }

    /// The value of an entry.
    pub fn value_at(&self, i: usize) -> (r: &V)
        requires
            i < self@.len(),
        ensures
            *r == self@[i as int].1,
    {
        &self.entries[i].1
    }

    fn find(&self, key: &K) -> (r: usize)
        ensures
            r == place(self@, key@),
    {
        let mut i: usize = 0;
        while i < self.entries.len()
            invariant
                i <= self.entries.len(),
                forall|j: int| 0 <= j < i ==> (#[trigger] self@[j]).0 != key@,
            decreases self.entries.len() - i,
        {
            if self.entries[i].0.same_key(key) {
                proof {
                    lemma_first_place(self@, key@, i as int);
                }
                return i;
            }
            i += 1;
        }
        proof {
            lemma_first_place(self@, key@, i as int);
        }
        i
    }

    /// The value of a key, if it has one.
    pub fn get(&self, key: &K) -> (r: Option<&V>)
        ensures
            match r {
                Some(value) => value_of(self@, key@) == Some(*value),
                None => value_of(self@, key@) is None,
            },
    {
        let i: usize = self.find(key);
        if i < self.entries.len() {
            Some(&self.entries[i].1)
        } else {
            None
        }
    }

    /// The value of a key, if it has one, to be changed.
    pub fn get_mut(&mut self, key: &K) -> (r: Option<&mut V>)
        requires
            old(self).well_formed(),
        ensures
            match r {
                Some(value) => {
                    &&& value_of(old(self)@, key@) == Some(*value)
                    &&& final(self)@ == with_entry(old(self)@, key@, *final(value))
                },
                None => value_of(old(self)@, key@) is None && final(self)@ == old(self)@,
            },
            final(self).well_formed(),
    {
        let ghost before = self@;
        proof {
            lemma_place(before, key@);
            assert forall|value: V| distinct_keys(#[trigger] with_entry(before, key@, value)) by {
                entry_is_found(before, key@, value, key@);
            }
        }
        let i: usize = self.find(key);
        if i < self.entries.len() {
            Some(&mut self.entries[i].1)
        } else {
            None
        }
    }

    /// Whether there is an entry with a key.
    pub fn contains_key(&self, key: &K) -> (r: bool)
        ensures
            r == has_key(self@, key@),
    {
        self.find(key) < self.entries.len()
    }

    /// Puts a value under a key. The value that was there comes out.
    pub fn insert(&mut self, key: K, value: V) -> (r: Option<V>)
        requires
            old(self).well_formed(),
        ensures
            final(self)@ == with_entry(old(self)@, key@, value),
            final(self).well_formed(),
            r == value_of(old(self)@, key@),
    {
        proof {
            entry_is_found(self@, key@, value, key@);
            lemma_place(self@, key@);
        }
        let i: usize = self.find(&key);
        if i < self.entries.len() {
            let mut entry = (key, value);
            std::mem::swap(&mut self.entries[i], &mut entry);
            assert(self@ =~= with_entry(old(self)@, key@, value));
            Some(entry.1)
        } else {
            self.entries.push((key, value));
            assert(self@ =~= with_entry(old(self)@, key@, value));
            None
        }
    }

    /// Takes out the entry of a key.
    pub fn remove(&mut self, key: &K) -> (r: Option<V>)
        requires
            old(self).well_formed(),
        ensures
            final(self)@ == without_entry(old(self)@, key@),
            final(self).well_formed(),
            r == value_of(old(self)@, key@),
    {
        proof {
            entry_is_gone(self@, key@, key@);
            lemma_place(self@, key@);
        }
        let i: usize = self.find(key);
        if i < self.entries.len() {
            let entry = self.entries.remove(i);
            assert(self@ =~= without_entry(old(self)@, key@));
            Some(entry.1)
        } else {
            None
        }
    }

    /// The entries, in order.
    pub fn into_entries(self) -> (r: Vec<(K, V)>)
        ensures
            r@.len() == self@.len(),
            forall|i: int|
                0 <= i < r@.len() ==> ((#[trigger] r@[i]).0@, r@[i].1) == self@[i],
    {
        self.entries
    }
}

/// A key is found exactly where some entry has it, and its value is that of the first such entry.
pub proof fn key_is_looked_up<K, V>(entries: Seq<(K, V)>, key: K, i: int)
    ensures
        has_key(entries, key) <==> exists|j: int|
            0 <= j < entries.len() && (#[trigger] entries[j]).0 == key,
        0 <= i < entries.len() && entries[i].0 == key && (forall|j: int|
            0 <= j < i ==> (#[trigger] entries[j]).0 != key) ==> value_of(entries, key) == Some(
            entries[i].1,
        ),
        !has_key(entries, key) ==> value_of(entries, key) is None,
{
    lemma_place(entries, key);
    if exists|j: int| 0 <= j < entries.len() && (#[trigger] entries[j]).0 == key {
        let j = choose|j: int| 0 <= j < entries.len() && (#[trigger] entries[j]).0 == key;
        if place(entries, key) == entries.len() {
            assert(entries[j].0 != key);
        }
    }
    if has_key(entries, key) {
        assert(entries[place(entries, key)].0 == key);
    }
    if 0 <= i < entries.len() && entries[i].0 == key && (forall|j: int|
        0 <= j < i ==> (#[trigger] entries[j]).0 != key) {
        lemma_first_place(entries, key, i);
    }
}

/// Entries stay in the order in which their keys came: another value takes the place of the first,
/// a new key comes last, and what is taken out leaves the others in order.
pub proof fn entries_stay_in_order<K, V>(entries: Seq<(K, V)>, key: K, value: V, i: int)
    requires
        distinct_keys(entries),
        0 <= i < entries.len(),
    ensures
        ({
            let set = with_entry(entries, key, value);
            &&& set[i] == (if entries[i].0 == key { (key, value) } else { entries[i] })
            &&& set.len() == entries.len() || (set.len() == entries.len() + 1 && set.last() == (
                key,
                value,
            ))
        }),
        entries[i].0 == key ==> {
            &&& with_entry(entries, key, value).len() == entries.len()
            &&& without_entry(entries, key) == entries.take(i) + entries.skip(i + 1)
        },
        (forall|j: int| 0 <= j < entries.len() ==> (#[trigger] entries[j]).0 != key)
            ==> without_entry(entries, key) == entries && with_entry(entries, key, value)
            == entries.push((key, value)),
{
    lemma_place(entries, key);
    let p = place(entries, key);
    if entries[i].0 == key {
        if p != i {
            if p < i {
                assert(entries[p].0 != entries[i].0);
            } else {
                assert(entries[i].0 != key);
            }
        }
        assert(entries.remove(i) =~= entries.take(i) + entries.skip(i + 1));
    }
    if forall|j: int| 0 <= j < entries.len() ==> (#[trigger] entries[j]).0 != key {
        lemma_first_place(entries, key, entries.len() as int);
    }
}

} // verus!
