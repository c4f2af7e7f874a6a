//! What holds of the owners of descriptors, whatever is done with handles.
use vstd::prelude::*;

use crate::handle_table::{
    lemma_removed_owner, lemma_same_owners, lemma_shrinks_again, lemma_without_ref,
    owning_keeps_order, sharing_keeps_order, shrinks, HandleCell, HandleView, RawFd, TableView,
    NO_FD,
};
use crate::typed::channel::{after_attempt, next_write, WriteEvent, Writing};
use crate::typed::handle::{released, stolen, unwrapped, valid_fd};
use crate::typed::metadata::{
    acknowledged, claimed, deferred, found, leaked_all, settled, shared_all, ChannelMetadata,
    MetadataView, Pid,
};
use crate::typed::transfer::{provided_all, released_all};

verus! {

/// Dropping a handle keeps ownership in order. The descriptor is queued to be closed exactly where
/// the handle was the last one on it, and then has no owner any more. Other descriptors keep their
/// owners.
pub proof fn releasing_keeps_order(t: TableView, cell: u64)
    requires
        t.sound(),
        t.cells.contains_key(cell),
    ensures
        released(t, cell).sound(),
        forall|fd: RawFd|
            fd != t.cells[cell].fd ==> released(t, cell).owns(fd) == t.owns(fd),
        valid_fd(t.cells[cell].fd) ==> {
            if t.cells[cell].refs <= 1 {
                &&& !released(t, cell).owns(t.cells[cell].fd)
                &&& released(t, cell).closed == t.closed.push(t.cells[cell].fd)
            } else {
                &&& released(t, cell).owns(t.cells[cell].fd)
                &&& released(t, cell).closed == t.closed
            }
        },
{
    let fd = t.cells[cell].fd;
    if t.cells[cell].refs > 1 {
        lemma_same_owners(t, t.without_ref(cell));
        assert(t.owns(fd));
    } else {
        lemma_removed_owner(t, cell);
        let gone = t.without_ref(cell);
        let after = released(t, cell);
        assert(t.owns(fd));
        if valid_fd(fd) {
            assert forall|other: RawFd| after.owns(other) == gone.owns(other) by {
                assert(after.cells == gone.cells);
            }
            assert(!t.closed.contains(fd));
            assert(after.closed.no_duplicates());
            assert forall|i: int| 0 <= i < after.closed.len() implies (
            #[trigger] after.closed[i]) >= 0 && !after.owns(after.closed[i]) by {
                if i < t.closed.len() {
                    assert(after.closed[i] == gone.closed[i]);
                }
            }
        }
    }
}

/// Stealing a descriptor keeps ownership in order: it has one owner as before, which is the new
/// handle, and the handles that had it no longer do.
pub proof fn stealing_keeps_order(t: TableView, cell: u64)
    requires
        t.sound(),
        t.has_room(1),
        t.cells.contains_key(cell),
        valid_fd(t.cells[cell].fd),
    ensures
        stolen(t, cell).sound(),
        stolen(t, cell).cells[cell].fd == NO_FD,
        stolen(t, cell).cells[t.next] == (HandleCell { fd: t.cells[cell].fd, refs: 1 }),
        forall|fd: RawFd| valid_fd(fd) ==> stolen(t, cell).owns(fd) == t.owns(fd),
        stolen(t, cell).closed == t.closed,
{
    let fd = t.cells[cell].fd;
    let bare = t.with_fd(cell, NO_FD);
    assert forall|other: RawFd| bare.owns(other) && valid_fd(other) implies t.owns(other) && other
        != fd by {
        let id = choose|id: u64| #[trigger]
            bare.cells.contains_key(id) && bare.cells[id].fd == other;
        assert(t.cells.contains_key(id));
        assert(t.cells.contains_key(cell));
    }
    assert forall|other: RawFd| t.owns(other) && other != fd implies bare.owns(other) by {
        let id = choose|id: u64| #[trigger] t.cells.contains_key(id) && t.cells[id].fd == other;
        assert(bare.cells.contains_key(id));
    }
    assert forall|a: u64, b: u64|
        #![trigger bare.cells.contains_key(a), bare.cells.contains_key(b)]
        bare.cells.contains_key(a) && bare.cells.contains_key(b) && a != b && bare.cells[a].fd
            >= 0 implies bare.cells[a].fd != bare.cells[b].fd by {
        assert(t.cells.contains_key(a) && t.cells.contains_key(b));
    }
    assert(t.owns(fd));
    assert(bare.sound());
    owning_keeps_order(bare, fd);
    let after = stolen(t, cell);
    assert forall|other: RawFd| valid_fd(other) implies after.owns(other) == t.owns(other) by {
        if bare.owns(other) {
            let id = choose|id: u64| #[trigger]
                bare.cells.contains_key(id) && bare.cells[id].fd == other;
            assert(after.cells.contains_key(id));
            assert(id != t.next);
        }
        if after.owns(other) && other != fd {
            let id = choose|id: u64| #[trigger]
                after.cells.contains_key(id) && after.cells[id].fd == other;
            assert(id != t.next);
            assert(bare.cells.contains_key(id));
        }
    }
}

/// Leaking a descriptor keeps ownership in order: it has no owner any more, and is not closed.
pub proof fn leaking_keeps_order(t: TableView, cell: u64)
    requires
        t.sound(),
        t.cells.contains_key(cell),
        unwrapped(t.cells[cell]) is Ok,
    ensures
        t.without_ref(cell).sound(),
        !t.without_ref(cell).owns(t.cells[cell].fd),
        t.without_ref(cell).closed == t.closed,
{
    lemma_removed_owner(t, cell);
}

/// Dropping a handle, even one whose descriptor is gone, keeps ownership in order.
pub proof fn dropping_keeps_order(t: TableView, cell: u64)
    requires
        t.sound(),
    ensures
        shrinks(t, released(t, cell)),
{
    let after = released(t, cell);
    if t.cells.contains_key(cell) {
        releasing_keeps_order(t, cell);
        let fd = t.cells[cell].fd;
        assert(t.owns(fd));
        assert forall|other: RawFd| #[trigger] after.closed.contains(other) implies t.closed.contains(
            other,
        ) || t.owns(other) by {
            let i = after.closed.index_of(other);
            if i < t.closed.len() {
                assert(t.closed[i] == other);
            }
        }
    } else {
        assert(t.without_ref(cell).cells =~= t.cells);
    }
}

/// Dropping handles keeps ownership in order.
pub proof fn dropping_all_keeps_order(t: TableView, handles: Seq<HandleView>)
    requires
        t.sound(),
    ensures
        shrinks(t, released_all(t, handles)),
    decreases handles.len(),
{
    if handles.len() > 0 {
        let before = released_all(t, handles.drop_last());
        dropping_all_keeps_order(t, handles.drop_last());
        dropping_keeps_order(before, handles.last().cell);
        lemma_shrinks_again(t, before, released_all(t, handles));
    }
}

/// Leaking descriptors keeps ownership in order.
pub proof fn leaking_all_keeps_order(t: TableView, handles: Seq<HandleView>)
    requires
        t.sound(),
    ensures
        shrinks(t, leaked_all(t, handles)),
        leaked_all(t, handles).closed == t.closed,
    decreases handles.len(),
{
    if handles.len() > 0 {
        let before = leaked_all(t, handles.drop_last());
        leaking_all_keeps_order(t, handles.drop_last());
        lemma_without_ref(before, handles.last().cell);
        lemma_shrinks_again(t, before, leaked_all(t, handles));
    }
}

/// Draining the handles that wait to be sent keeps ownership in order.
pub proof fn draining_keeps_order(t: TableView, handles: Seq<HandleView>)
    requires
        t.sound(),
    ensures
        shrinks(t, claimed(t, handles).1),
    decreases handles.len(),
{
    if handles.len() > 0 {
        let before = claimed(t, handles.drop_last()).1;
        draining_keeps_order(t, handles.drop_last());
        lemma_without_ref(before, handles.last().cell);
        if claimed(t, handles).1 != before {
            lemma_shrinks_again(t, before, claimed(t, handles).1);
        }
    }
}

/// Keeping handles that were sent keeps ownership in order.
pub proof fn deferring_keeps_order(
    to_close: Map<RawFd, HandleView>,
    t: TableView,
    handles: Seq<HandleView>,
)
    requires
        t.sound(),
    ensures
        shrinks(t, deferred(to_close, t, handles).1),
    decreases handles.len(),
{
    if handles.len() > 0 {
        let (kept, before) = deferred(to_close, t, handles.drop_last());
        deferring_keeps_order(to_close, t, handles.drop_last());
        let fd = handles.last().raw_fd(before);
        if kept.contains_key(fd) {
            dropping_keeps_order(before, kept[fd].cell);
            lemma_shrinks_again(t, before, deferred(to_close, t, handles).1);
        }
    }
}

/// Settling the account of the descriptors that the other side has received keeps ownership in
/// order.
pub proof fn settling_keeps_order(v: MetadataView, t: TableView, fds: Seq<RawFd>, pid: Pid)
    requires
        t.sound(),
    ensures
        shrinks(t, settled(v, t, fds, pid).1),
{
    let handles = acknowledged(v.to_close, fds).1;
    leaking_all_keeps_order(t, handles);
    dropping_all_keeps_order(t, handles);
}

/// Wrapping an item keeps ownership in order.
pub proof fn wrapping_keeps_order(t: TableView, handles: Seq<HandleView>)
    requires
        t.sound(),
    ensures
        shrinks(t, shared_all(t, handles)),
        shared_all(t, handles).closed == t.closed,
    decreases handles.len(),
{
    if handles.len() > 0 {
        let between = t.with_ref(handles[0].cell);
        if t.cells.contains_key(handles[0].cell) {
            sharing_keeps_order(t, handles[0].cell);
        }
        wrapping_keeps_order(between, handles.skip(1));
        lemma_shrinks_again(t, between, shared_all(t, handles));
    }
}

/// Whether descriptors that came can be owned: nobody has them yet.
pub open spec fn arrivals(fds: Seq<RawFd>, t: TableView) -> bool {
    &&& fds.no_duplicates()
    &&& forall|i: int|
        0 <= i < fds.len() ==> {
            &&& valid_fd(#[trigger] fds[i])
            &&& !t.owns(fds[i])
            &&& !t.closed.contains(fds[i])
        }
}

/// Receiving the handles of an item keeps ownership in order, provided that nobody has the
/// descriptors yet that came.
pub proof fn receiving_keeps_order(v: MetadataView, t: TableView, hints: Seq<HandleView>)
    requires
        t.sound(),
        t.has_room(hints.len() as int),
        arrivals(v.received, t),
    ensures
        ({
            let (after, t1, handles, r) = provided_all::<ChannelMetadata>(v, t, hints);
            t1.sound() && arrivals(after.received, t1)
        }),
    decreases hints.len(),
{
    if hints.len() > 0 {
        let hint = hints[0];
        let (v1, t1, handle) = found(v, t, hint);
        let t2 = released(t1, hint.cell);
        if hint.raw_fd(t) < 0 {
            if t.cells.contains_key(hint.cell) {
                sharing_keeps_order(t, hint.cell);
            }
            dropping_keeps_order(t1, hint.cell);
            assert(arrivals(v1.received, t2));
            receiving_keeps_order(v1, t2, hints.skip(1));
        } else if v.received.len() > 0 {
            let fd = v.received[0];
            owning_keeps_order(t, fd);
            dropping_keeps_order(t1, hint.cell);
            assert forall|i: int| 0 <= i < v1.received.len() implies {
                &&& valid_fd(#[trigger] v1.received[i])
                &&& !t1.owns(v1.received[i])
                &&& !t1.closed.contains(v1.received[i])
            } by {
                assert(v1.received[i] == v.received[i + 1]);
                if t1.owns(v1.received[i]) {
                    let id = choose|id: u64| #[trigger]
                        t1.cells.contains_key(id) && t1.cells[id].fd == v1.received[i];
                    if id != t.next {
                        assert(t.cells.contains_key(id));
                    }
                }
            }
            assert(v1.received.no_duplicates());
            assert(arrivals(v1.received, t1));
            assert(arrivals(v1.received, t2));
            receiving_keeps_order(v1, t2, hints.skip(1));
        }
    }
}

/// Every step of a write keeps ownership in order.
pub proof fn writing_keeps_order(w: Writing, event: WriteEvent)
    requires
        w.table.sound(),
    ensures
        shrinks(w.table, next_write(w).0.table),
        shrinks(w.table, after_attempt(w, event).0.table),
{
    draining_keeps_order(w.table, w.metadata.to_send);
    match event {
        WriteEvent::Sent(n) => {
            deferring_keeps_order(w.metadata.to_close, w.table, w.write.handles);
            let (to_close, table) = deferred(w.metadata.to_close, w.table, w.write.handles);
            draining_keeps_order(table, w.metadata.to_send);
            lemma_shrinks_again(w.table, table, claimed(table, w.metadata.to_send).1);
        },
        WriteEvent::Interrupted => {
            dropping_all_keeps_order(w.table, w.write.handles);
            let table = released_all(w.table, w.write.handles);
            draining_keeps_order(table, w.metadata.to_send);
            lemma_shrinks_again(w.table, table, claimed(table, w.metadata.to_send).1);
        },
        WriteEvent::Failed => {},
    }
}

} // verus!
