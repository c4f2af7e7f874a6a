//! Handles that travel with the items of a channel.
use vstd::prelude::*;

use crate::handle_table::{HandleTable, HandleView, TableView};
use crate::typed::handle::{released, PlatformHandle};

verus! {

/// Something that carries handles to another process, and brings them from there.
pub trait HandlesTransport: View + Sized {
    /// What is said when a handle cannot be carried.
    type Error;

    /// What becomes of the transport and of the table when a handle is moved into the transport,
    /// and whether that succeeds.
    spec fn moved(before: Self::V, t: TableView, handle: HandleView) -> (
        Self::V,
        TableView,
        Result<(), Self::Error>,
    );

    /// What becomes of the transport and of the table when the transport is asked for a handle in
    /// place of `hint`, and the handle that comes.
    spec fn provided(before: Self::V, t: TableView, hint: HandleView) -> (
        Self::V,
        TableView,
        Result<HandleView, Self::Error>,
    );

    /// Moves a handle into the transport.
    fn move_handle<T>(&mut self, handle: PlatformHandle<T>, table: &mut HandleTable) -> (r: Result<
        (),
        Self::Error,
    >)
        requires
            old(table)@.well_formed(),
        ensures
            final(table)@.well_formed(),
            final(table)@.next == old(table)@.next,
            (final(self)@, final(table)@, r) == Self::moved(old(self)@, old(table)@, handle@),
    ;

    /// Takes a handle out of the transport. The hint is the handle that the other side had in its
    /// place.
    fn provide_handle<T>(&mut self, hint: &PlatformHandle<T>, table: &mut HandleTable) -> (r: Result<
        PlatformHandle<T>,
        Self::Error,
    >)
        requires
            old(table)@.well_formed(),
            old(table)@.has_room(1),
        ensures
            final(table)@.well_formed(),
            final(table)@.next <= old(table)@.next + 1,
            (final(self)@, final(table)@, handle_result(r)) == Self::provided(
                old(self)@,
                old(table)@,
                hint@,
            ),
    ;
}

/// A result, its handle taken by its view.
pub open spec fn handle_result<T, E>(r: Result<PlatformHandle<T>, E>) -> Result<HandleView, E> {
    match r {
        Ok(handle) => Ok(handle@),
        Err(e) => Err(e),
    }
}

/// What becomes of a transport and of the table when another handle on each of some descriptors is
/// moved into the transport, in order, up to the first that fails.
pub open spec fn moved_all<M: HandlesTransport>(
    before: M::V,
    t: TableView,
    handles: Seq<HandleView>,
) -> (M::V, TableView, Result<(), M::Error>)
    decreases handles.len(),
{
    if handles.len() == 0 {
        (before, t, Ok(()))
    } else {
        let (after, t1, r) = M::moved(before, t.with_ref(handles[0].cell), handles[0]);
        match r {
            Ok(_) => moved_all::<M>(after, t1, handles.skip(1)),
            Err(e) => (after, t1, Err(e)),
        }
    }
}

/// What becomes of a transport, of the table and of some handles when each of the handles is
/// replaced by the one that the transport provides, in order, up to the first that fails. A handle
/// that is replaced is dropped.
pub open spec fn provided_all<P: HandlesTransport>(
    before: P::V,
    t: TableView,
    handles: Seq<HandleView>,
) -> (P::V, TableView, Seq<HandleView>, Result<(), P::Error>)
    decreases handles.len(),
{
    if handles.len() == 0 {
        (before, t, handles, Ok(()))
    } else {
        let (after, t1, r) = P::provided(before, t, handles[0]);
        match r {
            Ok(handle) => {
                let (last, t2, rest, result) = provided_all::<P>(
                    after,
                    released(t1, handles[0].cell),
                    handles.skip(1),
                );
                (last, t2, seq![handle] + rest, result)
            },
            Err(e) => (after, t1, handles, Err(e)),
        }
    }
}

/// A table once some handles were dropped, in order.
pub open spec fn released_all(t: TableView, handles: Seq<HandleView>) -> TableView
    decreases handles.len(),
{
    if handles.len() == 0 {
        t
    } else {
        released(released_all(t, handles.drop_last()), handles.last().cell)
    }
}

/// An item that handles travel with.
pub trait TransferHandles: Sized {
    /// The handles in the item, in the order in which they travel.
    spec fn handles(&self) -> Seq<HandleView>;

    /// Whether two items are the same but for their handles.
    spec fn like(&self, other: &Self) -> bool;

    /// Moves another handle on each descriptor of the item into the transport.
    fn move_handles<M: HandlesTransport>(&self, transport: &mut M, table: &mut HandleTable) -> (r:
        Result<(), M::Error>)
        requires
            old(table)@.well_formed(),
        ensures
            final(table)@.well_formed(),
            final(table)@.next == old(table)@.next,
            (final(transport)@, final(table)@, r) == moved_all::<M>(
                old(transport)@,
                old(table)@,
                self.handles(),
            ),
    ;

    /// Replaces each handle of the item by the one that the transport provides.
    fn receive_handles<P: HandlesTransport>(
        &mut self,
        transport: &mut P,
        table: &mut HandleTable,
    ) -> (r: Result<(), P::Error>)
        requires
            old(table)@.well_formed(),
            old(table)@.has_room(old(self).handles().len() as int),
        ensures
            final(table)@.well_formed(),
            final(table)@.next <= old(table)@.next + old(self).handles().len(),
            final(self).like(old(self)),
            (final(transport)@, final(table)@, final(self).handles(), r) == provided_all::<P>(
                old(transport)@,
                old(table)@,
                old(self).handles(),
            ),
    ;

    /// Drops the item, and with it its handles.
    fn release_handles(self, table: &mut HandleTable)
        requires
            old(table)@.well_formed(),
        ensures
            final(table)@.well_formed(),
            final(table)@.next == old(table)@.next,
            final(table)@ == released_all(old(table)@, self.handles()),
    ;
}

impl<T> TransferHandles for PlatformHandle<T> {
    open spec fn handles(&self) -> Seq<HandleView> {
        seq![self@]
    }

    open spec fn like(&self, other: &Self) -> bool {
        true
    }

    fn move_handles<M: HandlesTransport>(&self, transport: &mut M, table: &mut HandleTable) -> (r:
        Result<(), M::Error>) {
        proof {
            reveal_with_fuel(moved_all, 2);
            assert(self.handles().skip(1) =~= Seq::<HandleView>::empty());
        }
        let handle = self.share(table);
        match transport.move_handle(handle, table) {
            Ok(_) => Ok(()),
            Err(e) => Err(e),
        }
    }

    fn receive_handles<P: HandlesTransport>(
        &mut self,
        transport: &mut P,
        table: &mut HandleTable,
    ) -> (r: Result<(), P::Error>) {
        proof {
            reveal_with_fuel(provided_all, 2);
            assert(old(self).handles().skip(1) =~= Seq::<HandleView>::empty());
        }
        match transport.provide_handle(&*self, table) {
            Ok(handle) => {
                let mut replaced = handle;
                std::mem::swap(&mut replaced, self);
                replaced.release(table);
                assert(self.handles() =~= seq![self@] + Seq::<HandleView>::empty());
                Ok(())
            },
            Err(e) => Err(e),
        }
    }

    fn release_handles(self, table: &mut HandleTable) {
        proof {
            reveal_with_fuel(released_all, 2);
            assert(self.handles().drop_last() =~= Seq::<HandleView>::empty());
        }
        self.release(table);
    }
}

impl<T: TransferHandles, E> TransferHandles for Result<T, E> {
    open spec fn handles(&self) -> Seq<HandleView> {
        match self {
            Ok(item) => item.handles(),
            Err(_) => Seq::empty(),
        }
    }

    open spec fn like(&self, other: &Self) -> bool {
        match (self, other) {
            (Ok(a), Ok(b)) => a.like(b),
            (Err(a), Err(b)) => a == b,
            _ => false,
        }
    }

    fn move_handles<M: HandlesTransport>(&self, transport: &mut M, table: &mut HandleTable) -> (r:
        Result<(), M::Error>) {
        match self {
            Ok(item) => item.move_handles(transport, table),
            Err(_) => Ok(()),
        }
    }

    fn receive_handles<P: HandlesTransport>(
        &mut self,
        transport: &mut P,
        table: &mut HandleTable,
    ) -> (r: Result<(), P::Error>) {
        match self {
            Ok(item) => item.receive_handles(transport, table),
            Err(_) => Ok(()),
        }
    }

    fn release_handles(self, table: &mut HandleTable) {
        match self {
            Ok(item) => item.release_handles(table),
            Err(_) => {},
        }
    }
}

impl<T: TransferHandles> TransferHandles for Option<T> {
    open spec fn handles(&self) -> Seq<HandleView> {
        match self {
            Some(item) => item.handles(),
            None => Seq::empty(),
        }
    }

    open spec fn like(&self, other: &Self) -> bool {
        match (self, other) {
            (Some(a), Some(b)) => a.like(b),
            (None, None) => true,
            _ => false,
        }
    }

    fn move_handles<M: HandlesTransport>(&self, transport: &mut M, table: &mut HandleTable) -> (r:
        Result<(), M::Error>) {
        match self {
            Some(item) => item.move_handles(transport, table),
            None => Ok(()),
        }
    }

    fn receive_handles<P: HandlesTransport>(
        &mut self,
        transport: &mut P,
        table: &mut HandleTable,
    ) -> (r: Result<(), P::Error>) {
        match self {
            Some(item) => item.receive_handles(transport, table),
            None => Ok(()),
        }
    }

    fn release_handles(self, table: &mut HandleTable) {
        match self {
            Some(item) => item.release_handles(table),
            None => {},
        }
    }
}

/// Handles are dropped one after the other.
pub proof fn handles_are_dropped_in_order(t: TableView, handles: Seq<HandleView>, handle: HandleView)
    ensures
        released_all(t, Seq::empty()) == t,
        released_all(t, handles.push(handle)) == released(released_all(t, handles), handle.cell),
{
    assert(handles.push(handle).drop_last() =~= handles);
}

/// Which handles travel with an item: those of what succeeded, and of what is there.
pub proof fn items_carry_their_handles<T: TransferHandles, E>(item: T, error: E)
    ensures
        Ok::<T, E>(item).handles() == item.handles(),
        Err::<T, E>(error).handles() == Seq::<HandleView>::empty(),
        Some(item).handles() == item.handles(),
        None::<T>.handles() == Seq::<HandleView>::empty(),
{
}

} // verus!
