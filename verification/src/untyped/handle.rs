//! Handles on descriptors.
use std::marker::PhantomData;

use vstd::prelude::*;

use crate::handle_error::HandleError;
use crate::handle_table::{HandleTable, HandleView, RawFd, TableView, NO_FD};

verus! {

/// Whether a number is a descriptor that can be owned. The standard input is none.
pub open spec fn valid_fd(fd: RawFd) -> bool {
    fd > 0
}

/// The owner of a descriptor.
#[derive(Debug, PartialEq, Eq, Structural)]
pub struct PlatformHandleInner {
    pub fd: RawFd,
}

impl Default for PlatformHandleInner {
    /// The owner of nothing.
    fn default() -> (r: Self)
        ensures
            r.fd == NO_FD,
    {
        PlatformHandleInner { fd: NO_FD }
    }
}

impl PlatformHandleInner {
    /// The owner of `fd`.
    pub fn new(fd: RawFd) -> (r: Self)
        ensures
            r.fd == fd,
    {
        PlatformHandleInner { fd }
    }

    /// Gives the descriptor away, so that it will not be closed.
    pub fn leak(&mut self) -> (r: RawFd)
        ensures
            r == old(self).fd,
            final(self).fd == NO_FD,
    {
        let fd: RawFd = self.fd;
        self.fd = NO_FD;
        fd
    }

    /// Whether a descriptor is owned.
    pub fn is_valid(&self) -> (r: bool)
        ensures
            r == valid_fd(self.fd),
    {
        self.fd > 0
    }

    /// The descriptor, or a negative number where there is none.
    pub fn as_raw_fd(&self) -> (r: RawFd)
        ensures
            r == self.fd,
    {
        self.fd
    }

    /// Drops the owner, and with it the descriptor.
    pub fn release(self, table: &mut HandleTable)
        requires
            old(table)@.well_formed(),
        ensures
            final(table)@.well_formed(),
            final(table)@ == (if valid_fd(self.fd) {
                old(table)@.with_closed(self.fd)
            } else {
                old(table)@
            }),
    {
        let mut inner = self;
        let fd: RawFd = inner.leak();
        if fd > 0 {
            table.close(fd);
        }
    }
}

/// A table once a handle on a cell was dropped: with the last one the descriptor is closed.
pub open spec fn released(t: TableView, cell: u64) -> TableView {
    if t.cell(cell).refs <= 1 && valid_fd(t.cell(cell).fd) {
        t.without_ref(cell).with_closed(t.cell(cell).fd)
    } else {
        t.without_ref(cell)
    }
}

/// A table once the descriptor of a cell was taken for a new handle, where it is valid. Else it is
/// lost.
pub open spec fn claimed_from(t: TableView, cell: u64) -> TableView {
    let bare = t.with_fd(cell, NO_FD);
    if valid_fd(t.cell(cell).fd) {
        bare.with_cell(t.cell(cell).fd)
    } else {
        bare
    }
}

/// A handle. It is neither copied nor dropped silently: `share` makes another handle on the same
/// descriptor, and `release` gives one up.
#[derive(Debug)]
pub struct PlatformHandle {
    // The number of the descriptor, for reference only.
    fd: RawFd,
    inner: u64,
}

impl View for PlatformHandle {
    type V = HandleView;

    closed spec fn view(&self) -> HandleView {
        HandleView { fd: self.fd, cell: self.inner }
    }
}

impl PlatformHandle {
    /// Makes the handle that owns `fd`. The descriptor must be open, and nobody else may own it.
    pub fn own(fd: RawFd, table: &mut HandleTable) -> (r: Self)
        requires
            old(table)@.well_formed(),
            old(table)@.has_room(1),
        ensures
            r@ == (HandleView { fd, cell: old(table)@.next }),
            final(table)@ == old(table)@.with_cell(fd),
            final(table)@.well_formed(),
    {
        let inner: u64 = table.add_cell(fd);
        PlatformHandle { fd, inner }
    }

    /// Makes a handle that owns nothing.
    pub fn default(table: &mut HandleTable) -> (r: Self)
        requires
            old(table)@.well_formed(),
            old(table)@.has_room(1),
        ensures
            r@ == (HandleView { fd: NO_FD, cell: old(table)@.next }),
            final(table)@ == old(table)@.with_cell(NO_FD),
            final(table)@.well_formed(),
    {
        let inner = PlatformHandleInner::default();
        let fd: RawFd = inner.as_raw_fd();
        Self::own(fd, table)
    }

    /// Makes a handle that owns nothing, and only refers to a descriptor of another process. A
    /// handle that was read from a message is of this form.
    pub fn referring_to(fd: RawFd, table: &mut HandleTable) -> (r: Self)
        requires
            old(table)@.well_formed(),
            old(table)@.has_room(1),
        ensures
            r@ == (HandleView { fd, cell: old(table)@.next }),
            final(table)@ == old(table)@.with_cell(NO_FD),
            final(table)@.well_formed(),
    {
        let inner: u64 = table.add_cell(NO_FD);
        PlatformHandle { fd, inner }
    }

    /// The number that the handle was made with.
    pub fn reference(&self) -> (r: RawFd)
        ensures
            r == self@.fd,
    {
        self.fd
    }

    /// The descriptor that the handle owns, or a negative number.
    pub fn as_raw_fd(&self, table: &HandleTable) -> (r: RawFd)
        ensures
            r == self@.raw_fd(table@),
    {
        table.cell(self.inner).fd
    }

    /// Makes another handle on the same descriptor.
    pub fn share(&self, table: &mut HandleTable) -> (r: Self)
        requires
            old(table)@.well_formed(),
        ensures
            r@ == self@,
            final(table)@ == old(table)@.with_ref(self@.cell),
            final(table)@.well_formed(),
    {
        table.add_ref(self.inner);
        PlatformHandle { fd: self.fd, inner: self.inner }
    }

    /// Drops the handle. The last one on a descriptor closes it.
    pub fn release(self, table: &mut HandleTable)
        requires
            old(table)@.well_formed(),
        ensures
            final(table)@ == released(old(table)@, self@.cell),
            final(table)@.well_formed(),
    {
        match table.drop_ref(self.inner) {
            Some(fd) => {
                PlatformHandleInner::new(fd).release(table);
            },
            None => {},
        }
    }

    /// Hands out the descriptor of all handles that share it. It will not be closed.
    pub fn leak(&self, table: &mut HandleTable) -> (r: RawFd)
        requires
            old(table)@.well_formed(),
        ensures
            r == self@.raw_fd(old(table)@),
            final(table)@ == old(table)@.with_fd(self@.cell, NO_FD),
            final(table)@.well_formed(),
    {
        let mut inner = PlatformHandleInner::new(table.cell(self.inner).fd);
        let fd: RawFd = inner.leak();
        table.set_fd(self.inner, inner.as_raw_fd());
        fd
    }

    /// Takes the descriptor from all handles that share it, for a new handle that has it alone. If
    /// it was no valid one, it is lost.
    pub fn claim_valid(&self, table: &mut HandleTable) -> (r: Option<PlatformHandle>)
        requires
            old(table)@.well_formed(),
            valid_fd(self@.raw_fd(old(table)@)) ==> old(table)@.has_room(1),
        ensures
            final(table)@.well_formed(),
            final(table)@ == claimed_from(old(table)@, self@.cell),
            match r {
                Some(handle) => {
                    &&& valid_fd(self@.raw_fd(old(table)@))
                    &&& handle@ == (HandleView {
                        fd: self@.raw_fd(old(table)@),
                        cell: old(table)@.next,
                    })
                },
                None => !valid_fd(self@.raw_fd(old(table)@)),
            },
    {
        let fd: RawFd = self.leak(table);
        if PlatformHandleInner::new(fd).is_valid() {
            Some(PlatformHandle::own(fd, table))
        } else {
            None
        }
    }

    /// Gives up the handle and hands out its descriptor, for an object to be made of it. All other
    /// handles that shared the descriptor lose it.
    pub fn try_into_rawfd(self, table: &mut HandleTable) -> (r: Result<RawFd, HandleError>)
        requires
            old(table)@.well_formed(),
        ensures
            final(table)@.well_formed(),
            final(table)@ == old(table)@.with_fd(self@.cell, NO_FD).without_ref(self@.cell),
            r == (if self@.raw_fd(old(table)@) < 0 {
                Err(
                    HandleError::Taken { reference: self@.fd, fd: self@.raw_fd(old(table)@) },
                )
            } else {
                Ok(self@.raw_fd(old(table)@))
            }),
    {
        let fd: RawFd = self.leak(table);
        let reference: RawFd = self.fd;
        self.release(table);
        if fd < 0 {
            return Err(HandleError::Taken { reference, fd });
        }
        Ok(fd)
    }
}

/// A handle on an object of kind `T`.
#[derive(Debug)]
pub struct BetterHandle<T> {
    inner: PlatformHandle,
    phantom: PhantomData<T>,
}

impl<T> View for BetterHandle<T> {
    type V = HandleView;

    closed spec fn view(&self) -> HandleView {
        self.inner@
    }
}

impl<T> BetterHandle<T> {
    /// A handle, taken to refer to an object of kind `T`.
    pub fn from(handle: PlatformHandle) -> (r: Self)
        ensures
            r@ == handle@,
    {
        BetterHandle { inner: handle, phantom: PhantomData }
    }

    /// Makes a handle that owns nothing.
    pub fn default(table: &mut HandleTable) -> (r: Self)
        requires
            old(table)@.well_formed(),
            old(table)@.has_room(1),
        ensures
            r@ == (HandleView { fd: NO_FD, cell: old(table)@.next }),
            final(table)@ == old(table)@.with_cell(NO_FD),
            final(table)@.well_formed(),
    {
        BetterHandle { inner: PlatformHandle::default(table), phantom: PhantomData }
    }

    /// Makes another handle on the same descriptor.
    pub fn share(&self, table: &mut HandleTable) -> (r: Self)
        requires
            old(table)@.well_formed(),
        ensures
            r@ == self@,
            final(table)@ == old(table)@.with_ref(self@.cell),
            final(table)@.well_formed(),
    {
        BetterHandle { inner: self.inner.share(table), phantom: PhantomData }
    }

    /// The handle, its kind set aside.
    pub fn into_platform_handle(self) -> (r: PlatformHandle)
        ensures
            r@ == self@,
    {
        self.inner
    }

    /// The handle, its kind set aside.
    pub fn as_platform_handle(&self) -> (r: &PlatformHandle)
        ensures
            r@ == self@,
    {
        &self.inner
    }

    /// Gives up the handle and hands out its descriptor, for an object of kind `T` to be made of
    /// it.
    pub fn try_into_rawfd(self, table: &mut HandleTable) -> (r: Result<RawFd, HandleError>)
        requires
            old(table)@.well_formed(),
        ensures
            final(table)@.well_formed(),
            final(table)@ == old(table)@.with_fd(self@.cell, NO_FD).without_ref(self@.cell),
            r == (if self@.raw_fd(old(table)@) < 0 {
                Err(
                    HandleError::Taken { reference: self@.fd, fd: self@.raw_fd(old(table)@) },
                )
            } else {
                Ok(self@.raw_fd(old(table)@))
            }),
    {
        self.inner.try_into_rawfd(table)
    }
}

// ---------------------------------------------------------------------------
// What holds of the owners of descriptors
// ---------------------------------------------------------------------------

/// A descriptor that was claimed belongs to the new handle alone.
pub proof fn claimed_descriptor_has_one_owner(t: TableView, cell: u64)
    requires
        t.well_formed(),
        valid_fd(t.cell(cell).fd),
    ensures
        ({
            let after = claimed_from(t, cell);
            &&& after.cell(t.next).fd == t.cell(cell).fd
            &&& after.cell(t.next).refs == 1
            &&& after.closed == t.closed
        }),
{
    assert(t.cells.contains_key(cell));
}

/// Once the descriptor of a cell was claimed, or leaked, the handles on the cell have nothing left:
/// there is nothing to claim a second time, which changes nothing, and nothing to close.
pub proof fn nothing_is_claimed_twice(t: TableView, cell: u64)
    requires
        t.well_formed(),
    ensures
        ({
            let claimed = claimed_from(t, cell);
            &&& claimed.cell(cell).fd == NO_FD
            &&& !valid_fd(claimed.cell(cell).fd)
            &&& claimed_from(claimed, cell) == claimed
            &&& released(claimed, cell).closed == t.closed
        }),
        ({
            let leaked = t.with_fd(cell, NO_FD);
            &&& leaked.cell(cell).fd == NO_FD
            &&& !valid_fd(leaked.cell(cell).fd)
            &&& claimed_from(leaked, cell) == leaked
            &&& released(leaked, cell).closed == t.closed
        }),
{
    let claimed = claimed_from(t, cell);
    let leaked = t.with_fd(cell, NO_FD);
    assert(valid_fd(t.cell(cell).fd) ==> t.cells.contains_key(cell));
    assert(claimed_from(claimed, cell).cells =~= claimed.cells);
    assert(claimed_from(leaked, cell).cells =~= leaked.cells);
}

/// The last handle on a descriptor closes it, and no other does. A descriptor is valid if it is
/// a positive one.
pub proof fn last_handle_closes(t: TableView, cell: u64, fd: RawFd)
    requires
        t.well_formed(),
    ensures
        valid_fd(fd) <==> fd > 0,
        t.cell(cell).refs == 1 && t.cell(cell).fd > 0 ==> released(t, cell).closed == t.closed + seq![
            t.cell(cell).fd,
        ],
        t.cell(cell).refs > 1 ==> released(t, cell).closed == t.closed && released(t, cell).cell(
            cell,
        ).fd == t.cell(cell).fd && released(t, cell).cell(cell).refs == t.cell(cell).refs - 1,
        !(t.cell(cell).fd > 0) ==> released(t, cell).closed == t.closed,
        forall|other: u64| other != cell ==> #[trigger] released(t, cell).cell(other) == t.cell(
            other,
        ),
{
    assert(t.closed.push(t.cell(cell).fd) =~= t.closed + seq![t.cell(cell).fd]);
}

} // verus!
