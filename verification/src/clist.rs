//! Lists of strings that belong to someone else, changed in place.
use vstd::prelude::*;

use crate::c_string::{CStr, CString};
use crate::exec_vec::{
    addressable, first_empty, lemma_before_first_empty, lemma_first_empty, listing, slot_views,
    strings_of, terminated, ExecVec,
};
use crate::matcher::EntryByteMatcher;

verus! {

/// A list of strings, ended by an empty slot, whose slots are borrowed.
pub struct CListMutPtr<'a> {
    /// The slots, at least one of them empty.
    pub inner: &'a mut [Option<CString>],
    /// The number of strings.
    pub elements: usize,
}

impl<'a> CListMutPtr<'a> {
    /// The strings come first, and all slots after them are empty.
    pub open spec fn well_formed(&self) -> bool {
        &&& self.elements < self.inner@.len()
        &&& forall|i: int|
            0 <= i < self.inner@.len() ==> ((#[trigger] self.inner@[i]) is Some <==> i
                < self.elements)
    }

    /// The strings of the list.
    pub open spec fn strings(&self) -> Seq<Seq<u8>> {
        Seq::new(self.elements as nat, |i: int| self.inner@[i]->0@)
    }

    /// Takes the slots up to and with the first empty one.
    pub fn from_raw_parts(slots: &'a mut [Option<CString>]) -> (r: Self)
        requires
            terminated(slot_views(old(slots)@)),
        ensures
            r.well_formed(),
            r.strings() == strings_of(slot_views(old(slots)@)),
            slot_views(r.inner@) == slot_views(old(slots)@).take(
                (strings_of(slot_views(old(slots)@)).len() + 1) as int,
            ),
            slot_views(final(slots)@) == slot_views(final(r.inner)@) + slot_views(old(slots)@).skip(
                (strings_of(slot_views(old(slots)@)).len() + 1) as int,
            ),
    {
        let ghost before = slots@;
        proof {
            lemma_before_first_empty(slot_views(before));
        }
        let mut len: usize = 0;
        while slots[len].is_some()
            invariant
                slots@ == before,
                terminated(slot_views(before)),
                len < before.len(),
                forall|j: int| 0 <= j < len ==> before[j] is Some,
                len <= first_empty(slot_views(before)) < before.len(),
                slot_views(before)[first_empty(slot_views(before))] is None,
            decreases before.len() - len,
        {
            assert(slot_views(before)[len as int] is Some);
            len = len + 1;
        }
        proof {
            lemma_first_empty(slot_views(before), len as int);
        }
        let (head, tail) = slots.split_at_mut(len + 1);
        let r = CListMutPtr { inner: head, elements: len };
        assert(r.strings() =~= strings_of(slot_views(before)));
        r
    }

    /// Copies the strings.
    pub fn to_owned_vec(&self) -> (r: Vec<CString>)
        requires
            self.well_formed(),
        ensures
            r@.map_values(|s: CString| s@) == self.strings(),
    {
        let mut vec: Vec<CString> = Vec::with_capacity(self.elements);
        let mut i: usize = 0;
        while i < self.elements
            invariant
                self.well_formed(),
                i <= self.elements,
                vec@.len() == i,
                forall|j: int| 0 <= j < i ==> #[trigger] vec@[j]@ == self.strings()[j],
            decreases self.elements - i,
        {
            if let Some(elem) = &self.inner[i] {
                vec.push(elem.clone());
            }
            i = i + 1;
        }
        assert(vec@.map_values(|s: CString| s@) =~= self.strings());
        vec
    }

    /// Removes the last entry that matches, and moves the entries after it into its place.
    pub fn remove_entry<M: EntryByteMatcher>(&mut self, matcher: M) -> (r: Option<CString>)
        requires
            old(self).well_formed(),
        ensures
            final(self).well_formed(),
            final(final(self).inner)@ == final(old(self).inner)@,
            final(self).inner@.len() == old(self).inner@.len(),
            match last_match(matcher, old(self).strings()) {
                Some(i) => {
                    &&& r matches Some(entry) && entry@ == old(self).strings()[i]
                    &&& final(self).strings() == old(self).strings().remove(i)
                },
                None => r is None && final(self).strings() == old(self).strings(),
            },
    {
        let ghost before = self.inner@;
        let ghost strings = self.strings();
        let elements: usize = self.elements;
        let mut i: usize = elements;
        while i > 0
            invariant
                self.well_formed(),
                self.inner@ == before,
                before == old(self).inner@,
                self.elements == elements,
                self.strings() == strings,
                strings == old(self).strings(),
                i <= elements,
                forall|j: int| i <= j < elements ==> !matcher.matches(#[trigger] strings[j]),
                final(self.inner)@ == final(old(self).inner)@,
            decreases i,
        {
            i = i - 1;
            let found = match &self.inner[i] {
                Some(elem) => matcher.matches_bytes(elem.to_bytes()),
                None => false,
            };
            assert(before[i as int]->0@ == strings[i as int]);
            if found {
                proof {
                    lemma_last_match(matcher, strings, i as int);
                }
                let removed = self.inner[i].take();
                let mut src: usize = i + 1;
                while src < elements
                    invariant
                        i < src <= elements,
                        elements < before.len(),
                        self.inner@.len() == before.len(),
                        self.elements == elements,
                        forall|j: int| 0 <= j < i ==> self.inner@[j] == before[j],
                        forall|j: int| i <= j < src - 1 ==> self.inner@[j] == before[j + 1],
                        self.inner@[src - 1] is None,
                        forall|j: int| src <= j < before.len() ==> self.inner@[j] == before[j],
                        final(self.inner)@ == final(old(self).inner)@,
                    decreases elements - src,
                {
                    let moved = self.inner[src].take();
                    self.inner[src - 1] = moved;
                    src = src + 1;
                }
                self.elements = elements - 1;
                assert(self.well_formed()) by {
                    assert forall|k: int| 0 <= k < self.inner@.len() implies ((
                    #[trigger] self.inner@[k]) is Some <==> k < self.elements) by {
                        if k < i {
                            assert(self.inner@[k] == before[k]);
                        } else if k < elements - 1 {
                            assert(self.inner@[k] == before[k + 1]);
                        } else if k >= elements {
                            assert(self.inner@[k] == before[k]);
                        }
                    }
                }
                assert(self.strings() =~= strings.remove(i as int));
                return removed;
            }
        }
        proof {
            lemma_no_match(matcher, strings);
        }
        None
    }

    /// The last entry that matches.
    pub fn get_entry<M: EntryByteMatcher>(&self, matcher: M) -> (r: Option<CStr<'_>>)
        requires
            self.well_formed(),
        ensures
            match last_match(matcher, self.strings()) {
                Some(i) => r matches Some(entry) && entry@ == self.strings()[i],
                None => r is None,
            },
    {
        let mut i: usize = self.elements;
        while i > 0
            invariant
                self.well_formed(),
                i <= self.elements,
                forall|j: int|
                    i <= j < self.elements ==> !matcher.matches(#[trigger] self.strings()[j]),
            decreases i,
        {
            i = i - 1;
            if let Some(elem) = &self.inner[i] {
                assert(elem@ == self.strings()[i as int]);
                if matcher.matches_bytes(elem.to_bytes()) {
                    proof {
                        lemma_last_match(matcher, self.strings(), i as int);
                    }
                    return Some(elem.as_c_str());
                }
            }
        }
        proof {
            lemma_no_match(matcher, self.strings());
        }
        None
    }

    /// The first entry, if it matches.
    pub fn get_first_entry<M: EntryByteMatcher>(&self, matcher: M) -> (r: Option<CStr<'_>>)
        requires
            self.well_formed(),
        ensures
            match r {
                Some(entry) => {
                    &&& self.strings().len() > 0
                    &&& entry@ == self.strings()[0]
                    &&& matcher.matches(entry@)
                },
                None => self.strings().len() > 0 ==> !matcher.matches(self.strings()[0]),
            },
    {
        if self.elements > 0 {
            if let Some(elem) = &self.inner[0] {
                assert(elem@ == self.strings()[0]);
                if matcher.matches_bytes(elem.to_bytes()) {
                    return Some(elem.as_c_str());
                }
            }
        }
        None
    }

    /// Replaces the first entry for which the predicate holds, and gives the entry that it was.
    pub fn replace_entry<F: Fn(&[u8]) -> bool>(
        &mut self,
        predicate: F,
        new_entry: CStr<'_>,
    ) -> (r: Option<CString>)
        requires
            old(self).well_formed(),
            forall|s: &[u8]| call_requires(predicate, (s,)),
        ensures
            final(self).well_formed(),
            final(final(self).inner)@ == final(old(self).inner)@,
            final(self).inner@.len() == old(self).inner@.len(),
            match r {
                Some(entry) => exists|i: int|
                    {
                        &&& 0 <= i < old(self).strings().len()
                        &&& entry@ == #[trigger] old(self).strings()[i]
                        &&& answered(predicate, old(self).strings()[i], true)
                        &&& forall|j: int|
                            0 <= j < i ==> answered(
                                predicate,
                                #[trigger] old(self).strings()[j],
                                false,
                            )
                        &&& final(self).strings() == old(self).strings().update(i, new_entry@)
                    },
                None => {
                    &&& forall|j: int|
                        0 <= j < old(self).strings().len() ==> answered(
                            predicate,
                            #[trigger] old(self).strings()[j],
                            false,
                        )
                    &&& final(self).strings() == old(self).strings()
                },
            },
    {
        let ghost before = self.inner@;
        let ghost strings = self.strings();
        let mut i: usize = 0;
        while i < self.elements
            invariant
                self.well_formed(),
                self.inner@ == before,
                before == old(self).inner@,
                self.strings() == strings,
                strings == old(self).strings(),
                i <= self.elements == strings.len(),
                forall|s: &[u8]| call_requires(predicate, (s,)),
                forall|j: int| 0 <= j < i ==> answered(predicate, #[trigger] strings[j], false),
                final(self.inner)@ == final(old(self).inner)@,
            decreases self.elements - i,
        {
            let found = match &self.inner[i] {
                Some(elem) => {
                    let bytes = elem.to_bytes();
                    let found = predicate(bytes);
                    assert(answered(predicate, strings[i as int], found));
                    found
                },
                None => false,
            };
            if found {
                let replaced = self.inner[i].take();
                self.inner[i] = Some(new_entry.to_owned());
                assert(self.well_formed()) by {
                    assert forall|k: int| 0 <= k < self.inner@.len() implies ((
                    #[trigger] self.inner@[k]) is Some <==> k < self.elements) by {
                        if k != i {
                            assert(self.inner@[k] == before[k]);
                        }
                    }
                }
                assert(self.strings() =~= strings.update(i as int, new_entry@));
                assert(replaced->0@ == strings[i as int]);
                return replaced;
            }
            i = i + 1;
        }
        None
    }

    /// The number of strings.
    pub fn len(&self) -> (r: usize)
        ensures
            r == self.strings().len(),
    {
        self.elements
    }

    /// A list of its own, with copies of the strings. It holds them and the empty slot that ends
    /// it, and nothing else.
    pub fn into_exec_vec<const N: usize>(self) -> (r: ExecVec<N>)
        requires
            self.well_formed(),
            addressable((self.strings().len() + 2) as nat),
        ensures
            r.strings() == self.strings(),
            r.slots() == listing(self.strings()),
            r.well_formed(),
            final(self.inner)@ == old(self.inner)@,
    {
        let mut vec: ExecVec<N> = ExecVec::empty();
        assert(vec.slots() =~= listing(Seq::empty()));
        let mut i: usize = 0;
        while i < self.elements
            invariant
                self.well_formed(),
                addressable((self.strings().len() + 2) as nat),
                i <= self.elements,
                vec.well_formed(),
                vec.strings() == self.strings().take(i as int),
                vec.slots() == listing(vec.strings()),
            decreases self.elements - i,
        {
            if let Some(elem) = &self.inner[i] {
                vec.push_cstring(elem.clone());
                assert(self.strings().take(i as int).push(self.strings()[i as int])
                    =~= self.strings().take(i + 1));
            }
            i = i + 1;
        }
        assert(self.strings().take(i as int) =~= self.strings());
        vec
    }
}

/// Whatever was done to a list in place, slots that begin with those of the list hold the strings
/// of the list before their first empty slot, whatever comes after.
pub proof fn list_in_place_holds_its_strings(
    list: CListMutPtr<'_>,
    after: Seq<Option<Seq<u8>>>,
)
    requires
        list.well_formed(),
    ensures
        terminated(slot_views(old(list.inner)@) + after),
        strings_of(slot_views(old(list.inner)@) + after) == list.strings(),
{
    let slots = slot_views(list.inner@) + after;
    assert forall|i: int| 0 <= i < list.elements implies slots[i] is Some by {
        assert(list.inner@[i] is Some);
    }
    assert(list.inner@[list.elements as int] is None);
    lemma_first_empty(slots, list.elements as int);
    assert forall|i: int| 0 <= i < list.elements implies slots[i] == Some(
        list.strings()[i],
    ) by {
        assert(list.inner@[i] is Some);
    }
    assert(strings_of(slots) =~= list.strings());
}

/// Whether the predicate, asked about those bytes, answered that.
pub open spec fn answered<F: Fn(&[u8]) -> bool>(predicate: F, bytes: Seq<u8>, answer: bool) -> bool {
    exists|s: &[u8]| s@ == bytes && call_ensures(predicate, (s,), answer)
}

/// The index of the last of the entries that matches.
pub open spec fn last_match<M: EntryByteMatcher>(matcher: M, entries: Seq<Seq<u8>>) -> Option<int>
    decreases entries.len(),
{
    if entries.len() == 0 {
        None
    } else if matcher.matches(entries.last()) {
        Some(entries.len() - 1)
    } else {
        last_match(matcher, entries.drop_last())
    }
}

/// `last_match` gives the index of an entry that matches and has no match after it.
pub proof fn lemma_last_match<M: EntryByteMatcher>(matcher: M, entries: Seq<Seq<u8>>, i: int)
    requires
        0 <= i < entries.len(),
        matcher.matches(entries[i]),
        forall|j: int| i < j < entries.len() ==> !matcher.matches(#[trigger] entries[j]),
    ensures
        last_match(matcher, entries) == Some(i),
    decreases entries.len(),
{
    if i < entries.len() - 1 {
        assert(!matcher.matches(entries[entries.len() - 1]));
        lemma_last_match(matcher, entries.drop_last(), i);
    }
}

/// `last_match` gives something exactly where some entry matches.
pub proof fn lemma_some_match<M: EntryByteMatcher>(matcher: M, entries: Seq<Seq<u8>>)
    ensures
        last_match(matcher, entries) is Some <==> exists|j: int|
            0 <= j < entries.len() && matcher.matches(#[trigger] entries[j]),
        last_match(matcher, entries) matches Some(i) ==> 0 <= i < entries.len() && matcher.matches(
            entries[i],
        ),
    decreases entries.len(),
{
    if entries.len() > 0 {
        let rest = entries.drop_last();
        lemma_some_match(matcher, rest);
        if matcher.matches(entries.last()) {
            assert(matcher.matches(entries[entries.len() - 1]));
        } else {
            assert forall|j: int| 0 <= j < entries.len() && matcher.matches(
                #[trigger] entries[j],
            ) implies 0 <= j < rest.len() && matcher.matches(rest[j]) by {
                assert(j != entries.len() - 1);
            }
            assert forall|j: int| 0 <= j < rest.len() implies rest[j] == entries[j] by {}
        }
    }
}

/// `last_match` gives nothing where no entry matches.
pub proof fn lemma_no_match<M: EntryByteMatcher>(matcher: M, entries: Seq<Seq<u8>>)
    requires
        forall|j: int| 0 <= j < entries.len() ==> !matcher.matches(#[trigger] entries[j]),
    ensures
        last_match(matcher, entries) is None,
    decreases entries.len(),
{
    if entries.len() > 0 {
        assert(!matcher.matches(entries[entries.len() - 1]));
        lemma_no_match(matcher, entries.drop_last());
    }
}

/// The entry that is looked for is the last one that matches, and there is one exactly where some
/// entry matches.
pub proof fn last_matching_entry_is_found<M: EntryByteMatcher>(
    matcher: M,
    entries: Seq<Seq<u8>>,
    i: int,
)
    ensures
        last_match(matcher, entries) == Some(i) <==> {
            &&& 0 <= i < entries.len()
            &&& matcher.matches(entries[i])
            &&& forall|j: int| i < j < entries.len() ==> !matcher.matches(#[trigger] entries[j])
        },
        last_match(matcher, entries) is None <==> forall|j: int|
            0 <= j < entries.len() ==> !matcher.matches(#[trigger] entries[j]),
    decreases entries.len(),
{
    if entries.len() > 0 {
        let less = entries.drop_last();
        last_matching_entry_is_found(matcher, less, i);
        assert(entries.last() == entries[entries.len() - 1]);
        assert forall|j: int| 0 <= j < less.len() implies less[j] == #[trigger] entries[j] by {}
        if last_match(matcher, less) is None && !matcher.matches(entries.last()) {
            assert forall|j: int| 0 <= j < entries.len() implies !matcher.matches(
                #[trigger] entries[j],
            ) by {
                if j < less.len() {
                    assert(!matcher.matches(less[j]));
                }
            }
        }
        if forall|j: int| 0 <= j < entries.len() ==> !matcher.matches(#[trigger] entries[j]) {
            assert forall|j: int| 0 <= j < less.len() implies !matcher.matches(
                #[trigger] less[j],
            ) by {
                assert(!matcher.matches(entries[j]));
            }
        }
        if last_match(matcher, less) == Some(i) && !matcher.matches(entries.last()) {
            assert forall|j: int| i < j < entries.len() implies !matcher.matches(
                #[trigger] entries[j],
            ) by {
                if j < less.len() {
                    assert(!matcher.matches(less[j]));
                }
            }
        }
        if 0 <= i < less.len() && matcher.matches(entries[i]) && (forall|j: int|
            i < j < entries.len() ==> !matcher.matches(#[trigger] entries[j])) {
            assert(!matcher.matches(entries[entries.len() - 1]));
            assert forall|j: int| i < j < less.len() implies !matcher.matches(
                #[trigger] less[j],
            ) by {
                assert(!matcher.matches(entries[j]));
            }
        }
    }
}

} // verus!
