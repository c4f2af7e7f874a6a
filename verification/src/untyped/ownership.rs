//! What holds of the owners of descriptors, whatever is done with handles.
use vstd::prelude::*;

use crate::handle_table::{
    giving_away_keeps_order, lemma_shrinks_again,
    lemma_without_ref, owning_keeps_order, sharing_keeps_order, shrinks, HandleView, RawFd,
    TableView, NO_FD,
};
use crate::untyped::channel::{after_send, SendEvent};
use crate::untyped::handle::{claimed_from, released, valid_fd};
use crate::untyped::metadata::{
    acknowledged, claimed, deferred, found, leaked_all, settled, shared_all, ChannelMetadata,
    MetadataView, Pid,
};
use crate::untyped::transfer::{provided_all, released_all};

verus! {

/// Dropping a handle keeps ownership in order. The descriptor is queued to be closed exactly where
/// the handle was the last one on it, and then has no owner any more.
pub proof fn dropping_keeps_order(t: TableView, cell: u64)
    requires
        t.sound(),
    ensures
        shrinks(t, released(t, cell)),
        valid_fd(t.cell(cell).fd) && t.cell(cell).refs <= 1 ==> {
            &&& !released(t, cell).owns(t.cell(cell).fd)
            &&& released(t, cell).closed == t.closed.push(t.cell(cell).fd)
        },
{
    let after = released(t, cell);
    let fd = t.cell(cell).fd;
    lemma_without_ref(t, cell);
    if t.cell(cell).refs <= 1 && valid_fd(fd) {
        let gone = t.without_ref(cell);
        assert(t.cells.contains_key(cell));
        assert(t.owns(fd));
        assert(!t.closed.contains(fd));
        assert forall|other: RawFd| after.owns(other) == gone.owns(other) by {
            assert(after.cells == gone.cells);
        }
        assert forall|i: int| 0 <= i < after.closed.len() implies (#[trigger] after.closed[i]) >= 0
            && !after.owns(after.closed[i]) by {
            if i < t.closed.len() {
                assert(after.closed[i] == gone.closed[i]);
            }
        }
        assert forall|other: RawFd| #[trigger] after.closed.contains(other) implies t.closed.contains(
            other,
        ) || t.owns(other) by {
            let i = after.closed.index_of(other);
            if i < t.closed.len() {
                assert(t.closed[i] == other);
            }
        }
    }
}

/// Claiming a descriptor keeps ownership in order: it has one owner as before, which is the new
/// handle.
pub proof fn claiming_keeps_order(t: TableView, cell: u64)
    requires
        t.sound(),
        t.has_room(1),
    ensures
        shrinks(t, claimed_from(t, cell)),
        claimed_from(t, cell).closed == t.closed,
        valid_fd(t.cell(cell).fd) ==> claimed_from(t, cell).owns(t.cell(cell).fd),
{
    let fd = t.cell(cell).fd;
    let bare = t.with_fd(cell, NO_FD);
    giving_away_keeps_order(t, cell);
    if valid_fd(fd) {
        assert(t.cells.contains_key(cell));
        assert(t.owns(fd));
        assert(!t.closed.contains(fd));
        owning_keeps_order(bare, fd);
        let after = claimed_from(t, cell);
        assert forall|other: RawFd| other >= 0 && #[trigger] after.owns(other) implies t.owns(
            other,
        ) by {
            let id = choose|id: u64| #[trigger]
                after.cells.contains_key(id) && after.cells[id].fd == other;
            if id != t.next {
                assert(bare.cells.contains_key(id));
                assert(bare.owns(other));
            }
        }
    }
}

/// Dropping handles keeps ownership in order.
pub proof fn dropping_all_keeps_order(t: TableView, handles: Seq<HandleView>)
    requires
        t.sound(),
    ensures
        shrinks(t, released_all(t, handles)),
    decreases handles.len(),
{
    if handles.len() > 0 {
        let before = released_all(t, handles.drop_last());
        dropping_all_keeps_order(t, handles.drop_last());
        dropping_keeps_order(before, handles.last().cell);
        lemma_shrinks_again(t, before, released_all(t, handles));
    }
}

/// Leaking descriptors keeps ownership in order.
pub proof fn leaking_all_keeps_order(t: TableView, handles: Seq<HandleView>)
    requires
        t.sound(),
    ensures
        shrinks(t, leaked_all(t, handles)),
        leaked_all(t, handles).closed == t.closed,
    decreases handles.len(),
{
    if handles.len() > 0 {
        let before = leaked_all(t, handles.drop_last());
        leaking_all_keeps_order(t, handles.drop_last());
        giving_away_keeps_order(before, handles.last().cell);
        let after = leaked_all(t, handles);
        assert forall|fd: RawFd| fd >= 0 && #[trigger] after.owns(fd) implies before.owns(fd) by {}
        lemma_shrinks_again(t, before, after);
    }
}

/// Draining the handles that wait to be sent keeps ownership in order.
pub proof fn draining_keeps_order(t: TableView, handles: Seq<HandleView>)
    requires
        t.sound(),
        t.has_room(handles.len() as int),
    ensures
        shrinks(t, claimed(t, handles).1),
        claimed(t, handles).1.next <= t.next + handles.len(),
    decreases handles.len(),
{
    if handles.len() > 0 {
        let before = claimed(t, handles.drop_last()).1;
        let cell = handles.last().cell;
        let between = claimed_from(before, cell);
        draining_keeps_order(t, handles.drop_last());
        claiming_keeps_order(before, cell);
        dropping_keeps_order(between, cell);
        lemma_shrinks_again(t, before, between);
        lemma_shrinks_again(t, between, claimed(t, handles).1);
    }
}

/// Keeping handles that were sent keeps ownership in order.
pub proof fn deferring_keeps_order(
    to_close: Map<RawFd, HandleView>,
    t: TableView,
    handles: Seq<HandleView>,
)
    requires
        t.sound(),
    ensures
        shrinks(t, deferred(to_close, t, handles).1),
    decreases handles.len(),
{
    if handles.len() > 0 {
        let (kept, before) = deferred(to_close, t, handles.drop_last());
        deferring_keeps_order(to_close, t, handles.drop_last());
        let fd = handles.last().fd;
        if kept.contains_key(fd) {
            dropping_keeps_order(before, kept[fd].cell);
            lemma_shrinks_again(t, before, deferred(to_close, t, handles).1);
        }
    }
}

/// Settling the account of the descriptors that the other side has received keeps ownership in
/// order.
pub proof fn settling_keeps_order(v: MetadataView, t: TableView, fds: Seq<RawFd>, pid: Pid)
    requires
        t.sound(),
    ensures
        shrinks(t, settled(v, t, fds, pid).1),
{
    let handles = acknowledged(v.to_close, fds).1;
    let leaked = leaked_all(t, handles);
    leaking_all_keeps_order(t, handles);
    dropping_all_keeps_order(leaked, handles);
    lemma_shrinks_again(t, leaked, released_all(leaked, handles));
    dropping_all_keeps_order(t, handles);
}

/// Wrapping an item keeps ownership in order.
pub proof fn wrapping_keeps_order(t: TableView, handles: Seq<HandleView>)
    requires
        t.sound(),
    ensures
        shrinks(t, shared_all(t, handles)),
        shared_all(t, handles).closed == t.closed,
    decreases handles.len(),
{
    if handles.len() > 0 {
        let between = t.with_ref(handles[0].cell);
        if t.cells.contains_key(handles[0].cell) {
            sharing_keeps_order(t, handles[0].cell);
        }
        wrapping_keeps_order(between, handles.skip(1));
        lemma_shrinks_again(t, between, shared_all(t, handles));
    }
}

/// Whether descriptors that came can be owned: nobody has them yet.
pub open spec fn arrivals(fds: Seq<RawFd>, t: TableView) -> bool {
    &&& fds.no_duplicates()
    &&& forall|i: int|
        0 <= i < fds.len() ==> {
            &&& (#[trigger] fds[i]) >= 0
            &&& !t.owns(fds[i])
            &&& !t.closed.contains(fds[i])
        }
}

/// Receiving the handles of an item keeps ownership in order, provided that nobody has the
/// descriptors yet that came.
pub proof fn receiving_keeps_order(v: MetadataView, t: TableView, hints: Seq<HandleView>)
    requires
        t.sound(),
        t.has_room(hints.len() as int),
        arrivals(v.received, t),
    ensures
        ({
            let (after, t1, handles, r) = provided_all::<ChannelMetadata>(v, t, hints);
            t1.sound() && arrivals(after.received, t1)
        }),
    decreases hints.len(),
{
    if hints.len() > 0 {
        let hint = hints[0];
        let (v1, t1, handle) = found(v, t, hint);
        let t2 = released(t1, hint.cell);
        if hint.fd < 0 {
            if t.cells.contains_key(hint.cell) {
                sharing_keeps_order(t, hint.cell);
            }
            dropping_keeps_order(t1, hint.cell);
            assert forall|i: int| 0 <= i < v1.received.len() implies {
                &&& (#[trigger] v1.received[i]) >= 0
                &&& !t2.owns(v1.received[i])
                &&& !t2.closed.contains(v1.received[i])
            } by {
                assert(v1.received[i] == v.received[i]);
                assert(t1.owns(v1.received[i]) == t.owns(v1.received[i]));
            }
            assert(arrivals(v1.received, t2));
            receiving_keeps_order(v1, t2, hints.skip(1));
        } else if v.received.len() > 0 {
            let fd = v.received[0];
            owning_keeps_order(t, fd);
            dropping_keeps_order(t1, hint.cell);
            assert forall|i: int| 0 <= i < v1.received.len() implies {
                &&& (#[trigger] v1.received[i]) >= 0
                &&& !t1.owns(v1.received[i])
                &&& !t1.closed.contains(v1.received[i])
            } by {
                assert(v1.received[i] == v.received[i + 1]);
                if t1.owns(v1.received[i]) {
                    let id = choose|id: u64| #[trigger]
                        t1.cells.contains_key(id) && t1.cells[id].fd == v1.received[i];
                    if id != t.next {
                        assert(t.cells.contains_key(id));
                    }
                }
            }
            assert(v1.received.no_duplicates());
            assert(arrivals(v1.received, t1));
            assert(arrivals(v1.received, t2));
            receiving_keeps_order(v1, t2, hints.skip(1));
        }
    }
}

/// Whatever comes of an attempt to send, ownership is in order.
pub proof fn sending_keeps_order(
    v: MetadataView,
    t: TableView,
    handles: Seq<HandleView>,
    event: SendEvent,
)
    requires
        t.sound(),
    ensures
        shrinks(t, after_send(v, t, handles, event).1),
{
    deferring_keeps_order(v.to_close, t, handles);
    dropping_all_keeps_order(t, handles);
}

} // verus!
