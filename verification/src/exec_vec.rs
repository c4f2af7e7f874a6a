//! Lists of strings in the form that `execve` and the like take: a run of entries, ended by an
//! empty slot.
use vstd::prelude::*;

use crate::c_string::{CStr, CString};
use crate::clist::CListMutPtr;

verus! {

/// What a slot of a list holds: a string, or nothing where the pointer would be null.
pub open spec fn slot_view(slot: Option<CString>) -> Option<Seq<u8>> {
    match slot {
        Some(s) => Some(s@),
        None => None,
    }
}

/// What each of the slots holds.
pub open spec fn slot_views(slots: Seq<Option<CString>>) -> Seq<Option<Seq<u8>>> {
    slots.map_values(|slot: Option<CString>| slot_view(slot))
}

/// The number of slots before the first empty one, or of all slots where none is empty.
pub open spec fn first_empty(slots: Seq<Option<Seq<u8>>>) -> int
    decreases slots.len(),
{
    if slots.len() == 0 || slots[0] is None {
        0
    } else {
        1 + first_empty(slots.skip(1))
    }
}

/// The strings before the first empty slot.
pub open spec fn strings_of(slots: Seq<Option<Seq<u8>>>) -> Seq<Seq<u8>> {
    Seq::new(first_empty(slots) as nat, |i: int| slots[i]->0)
}

/// Whether some slot is empty, so that the list has an end.
pub open spec fn terminated(slots: Seq<Option<Seq<u8>>>) -> bool {
    first_empty(slots) < slots.len()
}

/// The slots that list some strings: each string in order, and then an empty slot.
pub open spec fn listing(strings: Seq<Seq<u8>>) -> Seq<Option<Seq<u8>>> {
    strings.map_values(|s: Seq<u8>| Some(s)).push(None)
}

/// Slots that list some strings have an end, and hold those strings before it.
pub proof fn listing_holds_its_strings(strings: Seq<Seq<u8>>)
    ensures
        terminated(listing(strings)),
        strings_of(listing(strings)) == strings,
{
    lemma_first_empty(listing(strings), strings.len() as int);
    assert(strings_of(listing(strings)) =~= strings);
}

/// The slots before the first empty one and two empty slots, with one more slot at an index.
pub open spec fn with_slot(
    slots: Seq<Option<Seq<u8>>>,
    pos: int,
    slot: Option<Seq<u8>>,
) -> Seq<Option<Seq<u8>>> {
    (slots.take(first_empty(slots)) + seq![None, None]).insert(pos, slot)
}

/// Whether that many slots can be laid out in memory.
pub open spec fn addressable(slots: nat) -> bool {
    slots * 64 <= isize::MAX
}

/// `first_empty` gives the index of the first empty slot.
pub proof fn lemma_first_empty(slots: Seq<Option<Seq<u8>>>, i: int)
    requires
        0 <= i <= slots.len(),
        forall|j: int| 0 <= j < i ==> slots[j] is Some,
        i < slots.len() ==> slots[i] is None,
    ensures
        first_empty(slots) == i,
    decreases i,
{
    if i > 0 {
        let rest = slots.skip(1);
        assert forall|j: int| 0 <= j < i - 1 implies rest[j] is Some by {
            assert(rest[j] == slots[j + 1]);
        }
        lemma_first_empty(rest, i - 1);
    }
}

/// Every slot before the first empty one holds a string.
pub proof fn lemma_before_first_empty(slots: Seq<Option<Seq<u8>>>)
    ensures
        0 <= first_empty(slots) <= slots.len(),
        forall|j: int| 0 <= j < first_empty(slots) ==> slots[j] is Some,
        first_empty(slots) < slots.len() ==> slots[first_empty(slots)] is None,
    decreases slots.len(),
{
    if slots.len() == 0 || slots[0] is None {
    } else {
        let rest = slots.skip(1);
        lemma_before_first_empty(rest);
        assert forall|j: int| 0 <= j < first_empty(slots) implies slots[j] is Some by {
            if j > 0 {
                assert(slots[j] == rest[j - 1]);
            }
        }
    }
}

// ---------------------------------------------------------------------------
// The storage of a list
// ---------------------------------------------------------------------------

/// A growable array of slots that holds short lists in place.
#[verifier::external_body]
pub struct Slots {
    inner: smallvec::SmallVec<[Option<CString>; 32]>,
}

/// The slots of the array, in order.
pub uninterp spec fn contents(v: Slots) -> Seq<Option<CString>>;

/// `SmallVec::new` makes an empty array.
#[verifier::external_body]
fn slots_new() -> (v: Slots)
    ensures
        contents(v) == Seq::<Option<CString>>::empty(),
{
    Slots { inner: smallvec::SmallVec::new() }
}

/// `SmallVec::push` appends one slot.
#[verifier::external_body]
fn slots_push(v: &mut Slots, slot: Option<CString>)
    requires
        addressable(contents(*old(v)).len() + 1),
    ensures
        contents(*final(v)) == contents(*old(v)).push(slot),
{
    v.inner.push(slot)
}

/// `SmallVec::resize` cuts the array to `len` slots, or fills it up to `len` with copies of
/// `slot`.
#[verifier::external_body]
fn slots_resize(v: &mut Slots, len: usize, slot: Option<CString>)
    requires
        addressable(len as nat),
    ensures
        len <= contents(*old(v)).len() ==> contents(*final(v)) == contents(*old(v)).take(
            len as int,
        ),
        len > contents(*old(v)).len() ==> {
            &&& contents(*final(v)).len() == len
            &&& contents(*final(v)).take(contents(*old(v)).len() as int) == contents(*old(v))
            &&& forall|i: int|
                contents(*old(v)).len() <= i < len ==> slot_view(
                    #[trigger] contents(*final(v))[i],
                ) == slot_view(slot)
        },
{
    v.inner.resize(len, slot)
}

/// `SmallVec::insert` puts a slot at an index, and moves what follows by one.
#[verifier::external_body]
fn slots_insert(v: &mut Slots, index: usize, slot: Option<CString>)
    requires
        index <= contents(*old(v)).len(),
        addressable(contents(*old(v)).len() + 1),
    ensures
        contents(*final(v)) == contents(*old(v)).insert(index as int, slot),
{
    v.inner.insert(index, slot)
}

/// `SmallVec::as_slice` gives the slots.
#[verifier::external_body]
fn slots_as_slice(v: &Slots) -> (r: &[Option<CString>])
    ensures
        r@ == contents(*v),
{
    v.inner.as_slice()
}

/// `SmallVec::as_mut_slice` gives the slots to write to.
#[verifier::external_body]
fn slots_as_mut_slice(v: &mut Slots) -> (r: &mut [Option<CString>])
    ensures
        r@ == contents(*old(v)),
        contents(*final(v)) == final(r)@,
{
    v.inner.as_mut_slice()
}

/// A list of strings that can be passed to functions that take a null terminated list of null
/// terminated strings, such as `execve`. It is always terminated by an empty slot, and keeps the
/// strings that it lists.
///
/// `N` is the number of entries that the list is meant for. A longer list is grown.
pub struct ExecVec<const N: usize> {
    ptrs: Slots,
}

impl<const N: usize> ExecVec<N> {
    /// What the slots hold, the empty ones included.
    pub closed spec fn slots(&self) -> Seq<Option<Seq<u8>>> {
        slot_views(contents(self.ptrs))
    }

    /// The strings of the list.
    pub open spec fn strings(&self) -> Seq<Seq<u8>> {
        strings_of(self.slots())
    }

    /// Whether the list has an end.
    pub open spec fn well_formed(&self) -> bool {
        terminated(self.slots())
    }

    /// The list without strings.
    pub fn empty() -> (r: Self)
        ensures
            r.slots() == seq![None::<Seq<u8>>],
            r.strings() == Seq::<Seq<u8>>::empty(),
            r.well_formed(),
    {
        let mut ptrs = slots_new();
        slots_push(&mut ptrs, None);
        let r = ExecVec { ptrs };
        assert(r.slots() =~= seq![None::<Seq<u8>>]);
        r
    }

    /// The list of copies of the given strings.
    pub fn from_slice(src: &[CStr<'_>]) -> (r: Self)
        requires
            addressable(src@.len() + 1),
        ensures
            r.strings() == src@.map_values(|s: CStr<'_>| s@),
            r.slots() == listing(r.strings()),
            r.well_formed(),
    {
        let mut ptrs = slots_new();
        let mut i: usize = 0;
        while i < src.len()
            invariant
                i <= src@.len(),
                addressable(src@.len() + 1),
                contents(ptrs).len() == i,
                forall|j: int|
                    0 <= j < i ==> slot_view(#[trigger] contents(ptrs)[j]) == Some(src@[j]@),
            decreases src@.len() - i,
        {
            slots_push(&mut ptrs, Some(src[i].to_owned()));
            i = i + 1;
        }
        slots_push(&mut ptrs, None);
        let r = ExecVec { ptrs };
        proof {
            lemma_first_empty(r.slots(), src@.len() as int);
            assert(r.strings() =~= src@.map_values(|s: CStr<'_>| s@));
            assert(r.slots() =~= listing(r.strings()));
        }
        r
    }

    /// The slots, for those who hand the list on.
    pub fn as_slots(&self) -> (r: &[Option<CString>])
        ensures
            slot_views(r@) == self.slots(),
    {
        slots_as_slice(&self.ptrs)
    }

    /// Appends a copy of a string.
    pub fn push_cstr(&mut self, item: CStr<'_>)
        requires
            addressable(old(self).strings().len() + 2),
        ensures
            final(self).strings() == old(self).strings().push(item@),
            final(self).slots() == listing(final(self).strings()),
            final(self).well_formed(),
    {
        self.push_cstring(item.to_owned());
    }

    /// Puts a copy of a string at an index.
    pub fn insert_cstr(&mut self, pos: usize, item: CStr<'_>)
        requires
            pos <= old(self).strings().len() + 2,
            addressable(old(self).strings().len() + 3),
        ensures
            pos <= old(self).strings().len() ==> final(self).strings() == old(
                self,
            ).strings().insert(pos as int, item@),
            pos > old(self).strings().len() ==> final(self).strings() == old(self).strings(),
            final(self).slots() == with_slot(old(self).slots(), pos as int, Some(item@)),
            final(self).well_formed(),
    {
        self.insert_cstring(pos, item.to_owned());
    }

    /// Appends a string.
    pub fn push_cstring(&mut self, item: CString)
        requires
            addressable(old(self).strings().len() + 2),
        ensures
            final(self).strings() == old(self).strings().push(item@),
            final(self).slots() == listing(final(self).strings()),
            final(self).well_formed(),
    {
        let ghost before = self.slots();
        self.push_ptr(Some(item));
        proof {
            lemma_before_first_empty(before);
            let n = first_empty(before);
            assert forall|j: int| 0 <= j < n + 1 implies self.slots()[j] is Some by {
                if j < n {
                    assert(self.slots()[j] == before[j]);
                }
            }
            lemma_first_empty(self.slots(), n + 1);
            assert(self.strings() =~= strings_of(before).push(item@));
            assert(self.slots() =~= listing(self.strings()));
        }
    }

    /// Puts a string at an index. One put beyond the first empty slot is not among the strings of
    /// the list.
    pub fn insert_cstring(&mut self, pos: usize, item: CString)
        requires
            pos <= old(self).strings().len() + 2,
            addressable(old(self).strings().len() + 3),
        ensures
            pos <= old(self).strings().len() ==> final(self).strings() == old(
                self,
            ).strings().insert(pos as int, item@),
            pos > old(self).strings().len() ==> final(self).strings() == old(self).strings(),
            final(self).slots() == with_slot(old(self).slots(), pos as int, Some(item@)),
            final(self).well_formed(),
    {
        let ghost before = self.slots();
        self.insert_ptr(pos, Some(item));
        proof {
            lemma_before_first_empty(before);
            let n = first_empty(before);
            let padded = before.take(n) + seq![None, None];
            let after = self.slots();
            assert(after == padded.insert(pos as int, Some(item@)));
            if pos <= n {
                assert forall|j: int| 0 <= j < n + 1 implies after[j] is Some by {
                    if j < pos {
                        assert(after[j] == before[j]);
                    } else if j > pos {
                        assert(after[j] == before[j - 1]);
                    }
                }
                lemma_first_empty(after, n + 1);
                assert(self.strings() =~= strings_of(before).insert(pos as int, item@));
            } else {
                assert forall|j: int| 0 <= j < n implies after[j] is Some by {
                    assert(after[j] == before[j]);
                }
                lemma_first_empty(after, n);
                assert(self.strings() =~= strings_of(before));
            }
        }
    }

    /// Writes a slot over the end of the list, and ends the list after it. What the slots beyond
    /// the first empty one held is dropped.
    pub fn push_ptr(&mut self, ptr: Option<CString>)
        requires
            addressable(old(self).strings().len() + 2),
        ensures
            final(self).slots() == old(self).slots().take(
                first_empty(old(self).slots()),
            ).push(slot_view(ptr)).push(None),
            final(self).well_formed(),
    {
        let ghost before = self.slots();
        let ghost n = first_empty(before);
        let number_of_strings: usize = self.len();
        proof {
            lemma_before_first_empty(before);
        }
        slots_resize(&mut self.ptrs, number_of_strings, None);
        assert(contents(self.ptrs).len() == n);
        assert(self.slots() =~= before.take(n));
        slots_push(&mut self.ptrs, ptr);
        slots_push(&mut self.ptrs, None);
        let ghost expected = before.take(n).push(slot_view(ptr)).push(None);
        assert(self.slots() =~= expected);
        proof {
            assert(expected[n + 1] is None);
            lemma_before_first_empty(expected);
            if first_empty(expected) == expected.len() {
                assert(expected[n + 1] is Some);
            }
        }
    }

    /// Puts a slot at an index of the list that is ended by two empty slots.
    pub fn insert_ptr(&mut self, pos: usize, ptr: Option<CString>)
        requires
            pos <= old(self).strings().len() + 2,
            addressable(old(self).strings().len() + 3),
        ensures
            final(self).slots() == with_slot(old(self).slots(), pos as int, slot_view(ptr)),
            final(self).well_formed(),
    {
        let ghost before = self.slots();
        let ghost n = first_empty(before);
        let number_of_strings: usize = self.len();
        proof {
            lemma_before_first_empty(before);
        }
        slots_resize(&mut self.ptrs, number_of_strings, None);
        assert(self.slots() =~= before.take(n));
        slots_resize(&mut self.ptrs, number_of_strings + 2, None);
        let ghost padded = before.take(n) + seq![None, None];
        proof {
            let now = contents(self.ptrs);
            assert forall|j: int| 0 <= j < n implies slot_view(now[j]) == before[j] by {
                assert(now.take(n)[j] == now[j]);
            }
            assert(self.slots() =~= padded);
        }
        slots_insert(&mut self.ptrs, pos, ptr);
        proof {
            let after = padded.insert(pos as int, slot_view(ptr));
            assert(self.slots() =~= after);
            lemma_before_first_empty(after);
            if first_empty(after) == after.len() {
                if pos <= n {
                    assert(after[n + 1] == padded[n]);
                } else {
                    assert(after[n] == padded[n]);
                }
            }
        }
    }

    /// The number of strings.
    pub fn len(&self) -> (r: usize)
        ensures
            r == self.strings().len(),
            r == first_empty(self.slots()),
    {
        let slots = slots_as_slice(&self.ptrs);
        let mut i: usize = 0;
        while i < slots.len()
            invariant
                slots@ == contents(self.ptrs),
                i <= slots@.len(),
                forall|j: int| 0 <= j < i ==> slots@[j] is Some,
            decreases slots@.len() - i,
        {
            if slots[i].is_none() {
                proof {
                    lemma_first_empty(self.slots(), i as int);
                }
                return i;
            }
            i = i + 1;
        }
        proof {
            lemma_first_empty(self.slots(), i as int);
        }
        i
    }

    /// The list as one whose entries can be looked up, replaced and removed in place.
    pub fn as_clist<'a>(&'a mut self) -> (r: CListMutPtr<'a>)
        requires
            old(self).well_formed(),
        ensures
            r.well_formed(),
            r.strings() == old(self).strings(),
            slot_views(r.inner@) == old(self).slots().take(
                (old(self).strings().len() + 1) as int,
            ),
            final(self).slots() == slot_views(final(r.inner)@) + old(self).slots().skip(
                (old(self).strings().len() + 1) as int,
            ),
    {
        let ghost before = self.slots();
        let slots = slots_as_mut_slice(&mut self.ptrs);
        let r = CListMutPtr::from_raw_parts(slots);
        r
    }
}

/// The strings of a list are those before its first empty slot, all of them and in order.
pub proof fn strings_come_before_the_end(
    strings: Seq<Seq<u8>>,
    after: Seq<Option<Seq<u8>>>,
)
    ensures
        ({
            let slots = strings.map_values(|s: Seq<u8>| Some(s)) + seq![None] + after;
            &&& terminated(slots)
            &&& strings_of(slots) == strings
            &&& first_empty(slots) == strings.len()
        }),
{
    let slots = strings.map_values(|s: Seq<u8>| Some(s)) + seq![None] + after;
    lemma_first_empty(slots, strings.len() as int);
    assert(strings_of(slots) =~= strings);
}

/// A string that is put into a list at an index moves those from there on by one. One put beyond
/// the end is in its slot, but not among the strings.
pub proof fn slot_comes_in_at_its_index(strings: Seq<Seq<u8>>, pos: int, item: Seq<u8>)
    requires
        0 <= pos <= strings.len() + 2,
    ensures
        with_slot(listing(strings), pos, Some(item))[pos] == Some(item),
        with_slot(listing(strings), pos, Some(item)).len() == strings.len() + 3,
        terminated(with_slot(listing(strings), pos, Some(item))),
        pos <= strings.len() ==> strings_of(with_slot(listing(strings), pos, Some(item)))
            == strings.take(pos) + seq![item] + strings.skip(pos),
        pos > strings.len() ==> strings_of(with_slot(listing(strings), pos, Some(item)))
            == strings,
{
    listing_holds_its_strings(strings);
    lemma_first_empty(listing(strings), strings.len() as int);
    let n = strings.len() as int;
    let some = strings.map_values(|s: Seq<u8>| Some(s));
    assert(listing(strings).take(n) =~= some);
    let slots = with_slot(listing(strings), pos, Some(item));
    if pos <= n {
        let all = strings.take(pos) + seq![item] + strings.skip(pos);
        assert forall|j: int| 0 <= j < n + 1 implies slots[j] == Some(all[j]) by {}
        lemma_first_empty(slots, n + 1);
        assert(strings_of(slots) =~= all);
    } else {
        lemma_first_empty(slots, n);
        assert(strings_of(slots) =~= strings);
    }
}

} // verus!
