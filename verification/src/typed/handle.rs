//! Handles on descriptors, each with the kind of object that it refers to.
use std::marker::PhantomData;

use vstd::prelude::*;

use crate::handle_error::HandleError;
use crate::handle_table::{HandleCell, HandleTable, HandleView, RawFd, TableView, NO_FD};

verus! {

/// The owner of a descriptor.
#[derive(Debug, PartialEq, Eq, Structural)]
pub struct PlatformHandleInner {
    pub fd: RawFd,
}

/// Whether a number is a descriptor that can be owned.
pub open spec fn valid_fd(fd: RawFd) -> bool {
    fd >= 0
}

impl Default for PlatformHandleInner {
    /// The owner of nothing.
    fn default() -> (r: Self)
        ensures
            r.fd == NO_FD,
    {
        PlatformHandleInner { fd: NO_FD }
    }
}

impl PlatformHandleInner {
    /// The owner of `fd`.
    pub fn new(fd: RawFd) -> (r: Self)
        ensures
            r.fd == fd,
    {
        PlatformHandleInner { fd }
    }

    /// The descriptor, or a negative number where there is none.
    pub fn as_raw_fd(&self) -> (r: RawFd)
        ensures
            r == self.fd,
    {
        self.fd
    }

    /// Gives the descriptor away, so that it will not be closed.
    pub fn leak(&mut self) -> (r: RawFd)
        ensures
            r == old(self).fd,
            final(self).fd == NO_FD,
    {
        let fd: RawFd = self.fd;
        self.fd = NO_FD;
        fd
    }

    /// Whether a descriptor is owned.
    pub fn is_valid(&self) -> (r: bool)
        ensures
            r == valid_fd(self.fd),
    {
        self.as_raw_fd() >= 0
    }

    /// Transfers ownership of the descriptor to a new owner. The old one no longer has it. Fails
    /// where there was none.
    pub fn try_claim(&mut self) -> (r: Result<Self, HandleError>)
        ensures
            final(self).fd == NO_FD,
            r == (if valid_fd(old(self).fd) {
                Ok(PlatformHandleInner { fd: old(self).fd })
            } else {
                Err(HandleError::Unowned { fd: old(self).fd })
            }),
    {
        let claim = PlatformHandleInner::new(self.leak());
        match claim.try_access_valid() {
            Ok(_) => {},
            Err(e) => {
                return Err(e);
            },
        }
        Ok(claim)
    }

    /// Transfers ownership of the descriptor to a new owner. The old one no longer has it. Fails
    /// where there was none.
    pub fn try_steal(&mut self) -> (r: Result<Self, HandleError>)
        ensures
            final(self).fd == NO_FD,
            r == (if valid_fd(old(self).fd) {
                Ok(PlatformHandleInner { fd: old(self).fd })
            } else {
                Err(HandleError::Unowned { fd: old(self).fd })
            }),
    {
        let claim = PlatformHandleInner::new(self.leak());
        match claim.try_access_valid() {
            Ok(_) => {},
            Err(e) => {
                return Err(e);
            },
        }
        Ok(claim)
    }

    /// The owner itself, provided that it owns a descriptor.
    pub fn try_access_valid(&self) -> (r: Result<&Self, HandleError>)
        ensures
            r == (if valid_fd(self.fd) {
                Ok(self)
            } else {
                Err(HandleError::Unowned { fd: self.fd })
            }),
    {
        if !self.is_valid() {
            return Err(HandleError::Unowned { fd: self.as_raw_fd() });
        }
        Ok(self)
    }

    /// Adds a handle to a cell, provided that the cell owns a descriptor.
    pub fn try_clone_valid(cell: u64, table: &mut HandleTable) -> (r: Result<u64, HandleError>)
        requires
            old(table)@.well_formed(),
        ensures
            final(table)@.well_formed(),
            if valid_fd(old(table)@.cell(cell).fd) {
                r == Ok::<u64, HandleError>(cell) && final(table)@ == old(table)@.with_ref(cell)
            } else {
                r == Err::<u64, HandleError>(
                    HandleError::Unowned { fd: old(table)@.cell(cell).fd },
                ) && final(table)@ == old(table)@
            },
    {
        let inner = PlatformHandleInner::new(table.cell(cell).fd);
        match inner.try_access_valid() {
            Ok(_) => {},
            Err(e) => {
                return Err(e);
            },
        }
        table.add_ref(cell);
        Ok(cell)
    }

    /// Takes the owner out of a cell, provided that no other handle refers to it and that it owns
    /// a descriptor. The handle is used up either way.
    pub fn try_unwrap_valid(cell: u64, table: &mut HandleTable) -> (r: Result<Self, HandleError>)
        requires
            old(table)@.well_formed(),
        ensures
            final(table)@ == old(table)@.without_ref(cell),
            final(table)@.well_formed(),
            r == unwrapped(old(table)@.cell(cell)),
    {
        let fd: RawFd = table.cell(cell).fd;
        match table.drop_ref(cell) {
            None => Err(HandleError::Shared { fd }),
            Some(fd) => {
                let inner = PlatformHandleInner::new(fd);
                match inner.try_access_valid() {
                    Ok(_) => {},
                    Err(e) => {
                        return Err(e);
                    },
                }
                Ok(inner)
            },
        }
    }

    /// Drops the owner, and with it the descriptor.
    pub fn release(self, table: &mut HandleTable)
        requires
            old(table)@.well_formed(),
        ensures
            final(table)@.well_formed(),
            final(table)@ == (if valid_fd(self.fd) {
                old(table)@.with_closed(self.fd)
            } else {
                old(table)@
            }),
    {
        let mut inner = self;
        let fd: RawFd = inner.leak();
        if fd >= 0 {
            table.close(fd);
        }
    }
}

/// What comes of unwrapping a cell.
pub open spec fn unwrapped(cell: HandleCell) -> Result<PlatformHandleInner, HandleError> {
    if cell.refs > 1 {
        Err(HandleError::Shared { fd: cell.fd })
    } else if !valid_fd(cell.fd) {
        Err(HandleError::Unowned { fd: cell.fd })
    } else {
        Ok(PlatformHandleInner { fd: cell.fd })
    }
}

/// A table once a handle on a cell was dropped: with the last one the descriptor is closed.
pub open spec fn released(t: TableView, cell: u64) -> TableView {
    if t.cell(cell).refs <= 1 && valid_fd(t.cell(cell).fd) {
        t.without_ref(cell).with_closed(t.cell(cell).fd)
    } else {
        t.without_ref(cell)
    }
}

/// A handle on an object of kind `T`. It is neither copied nor dropped silently: `share` makes
/// another handle on the same descriptor, and `release` gives one up.
#[derive(Debug)]
pub struct PlatformHandle<T> {
    // The number of the descriptor, for reference only.
    fd: RawFd,
    inner: u64,
    phantom: PhantomData<T>,
}

impl<T> View for PlatformHandle<T> {
    type V = HandleView;

    closed spec fn view(&self) -> HandleView {
        HandleView { fd: self.fd, cell: self.inner }
    }
}

impl<T> PlatformHandle<T> {
    /// Makes the handle that owns `fd`. The descriptor must be open, and nobody else may own it.
    pub fn own(fd: RawFd, table: &mut HandleTable) -> (r: Self)
        requires
            old(table)@.well_formed(),
            old(table)@.has_room(1),
        ensures
            r@ == (HandleView { fd, cell: old(table)@.next }),
            final(table)@ == old(table)@.with_cell(fd),
            final(table)@.well_formed(),
    {
        let inner: u64 = table.add_cell(fd);
        PlatformHandle { fd, inner, phantom: PhantomData }
    }

    /// Makes a handle that owns nothing.
    pub fn default(table: &mut HandleTable) -> (r: Self)
        requires
            old(table)@.well_formed(),
            old(table)@.has_room(1),
        ensures
            r@ == (HandleView { fd: NO_FD, cell: old(table)@.next }),
            final(table)@ == old(table)@.with_cell(NO_FD),
            final(table)@.well_formed(),
    {
        let inner = PlatformHandleInner::default();
        let fd: RawFd = inner.as_raw_fd();
        Self::own(fd, table)
    }

    /// Makes a handle that owns nothing, and only refers to a descriptor of another process. A
    /// handle that was read from a message is of this form.
    pub fn referring_to(fd: RawFd, table: &mut HandleTable) -> (r: Self)
        requires
            old(table)@.well_formed(),
            old(table)@.has_room(1),
        ensures
            r@ == (HandleView { fd, cell: old(table)@.next }),
            final(table)@ == old(table)@.with_cell(NO_FD),
            final(table)@.well_formed(),
    {
        let inner: u64 = table.add_cell(NO_FD);
        PlatformHandle { fd, inner, phantom: PhantomData }
    }

    /// The number that the handle was made with.
    pub fn reference(&self) -> (r: RawFd)
        ensures
            r == self@.fd,
    {
        self.fd
    }

    /// The descriptor that the handle owns, or a negative number.
    pub fn as_raw_fd(&self, table: &HandleTable) -> (r: RawFd)
        ensures
            r == self@.raw_fd(table@),
    {
        table.cell(self.inner).fd
    }

    /// Makes another handle on the same descriptor.
    pub fn share(&self, table: &mut HandleTable) -> (r: Self)
        requires
            old(table)@.well_formed(),
        ensures
            r@ == self@,
            final(table)@ == old(table)@.with_ref(self@.cell),
            final(table)@.well_formed(),
    {
        table.add_ref(self.inner);
        PlatformHandle { fd: self.fd, inner: self.inner, phantom: PhantomData }
    }

    /// Drops the handle. The last one on a descriptor closes it.
    pub fn release(self, table: &mut HandleTable)
        requires
            old(table)@.well_formed(),
        ensures
            final(table)@ == released(old(table)@, self@.cell),
            final(table)@.well_formed(),
    {
        match table.drop_ref(self.inner) {
            Some(fd) => {
                PlatformHandleInner::new(fd).release(table);
            },
            None => {},
        }
    }

    /// Gives up the handle and hands out its descriptor, which will not be closed.
    pub fn try_leak(self, table: &mut HandleTable) -> (r: Result<RawFd, HandleError>)
        requires
            old(table)@.well_formed(),
        ensures
            final(table)@ == old(table)@.without_ref(self@.cell),
            final(table)@.well_formed(),
            match unwrapped(old(table)@.cell(self@.cell)) {
                Ok(inner) => r == Ok::<RawFd, HandleError>(inner.fd),
                Err(e) => r == Err::<RawFd, HandleError>(e),
            },
    {
        let mut inner = match PlatformHandleInner::try_unwrap_valid(self.inner, table) {
            Ok(inner) => inner,
            Err(e) => {
                return Err(e);
            },
        };
        Ok(inner.leak())
    }

    /// Gives up the handle and hands out its descriptor, for an object of kind `T` to be made of
    /// it.
    pub fn try_unwrap_into(self, table: &mut HandleTable) -> (r: Result<RawFd, HandleError>)
        requires
            old(table)@.well_formed(),
        ensures
            final(table)@ == old(table)@.without_ref(self@.cell),
            final(table)@.well_formed(),
            match unwrapped(old(table)@.cell(self@.cell)) {
                Ok(inner) => r == Ok::<RawFd, HandleError>(inner.fd),
                Err(e) => r == Err::<RawFd, HandleError>(e),
            },
    {
        let mut inner = match PlatformHandleInner::try_unwrap_valid(self.inner, table) {
            Ok(inner) => inner,
            Err(e) => {
                return Err(e);
            },
        };
        let fd: RawFd = inner.leak();
        Ok(fd)
    }

    /// Makes another handle on the same descriptor, provided that there is one.
    pub fn try_clone_valid(&self, table: &mut HandleTable) -> (r: Result<Self, HandleError>)
        requires
            old(table)@.well_formed(),
        ensures
            final(table)@.well_formed(),
            if valid_fd(self@.raw_fd(old(table)@)) {
                &&& r matches Ok(h) && h@ == self@
                &&& final(table)@ == old(table)@.with_ref(self@.cell)
            } else {
                &&& r matches Err(e) && e == (HandleError::Unowned { fd: self@.raw_fd(old(table)@) })
                &&& final(table)@ == old(table)@
            },
    {
        match PlatformHandleInner::try_clone_valid(self.inner, table) {
            Ok(inner) => Ok(PlatformHandle { fd: self.fd, inner, phantom: PhantomData }),
            Err(e) => Err(e),
        }
    }

    /// The descriptor, for an object of kind `T` to be made of it. The handle still owns it, so
    /// that object must not close it.
    pub fn try_borrow_into(&self, table: &HandleTable) -> (r: Result<RawFd, HandleError>)
        ensures
            r == (if valid_fd(self@.raw_fd(table@)) {
                Ok(self@.raw_fd(table@))
            } else {
                Err(HandleError::Unowned { fd: self@.raw_fd(table@) })
            }),
    {
        let inner = PlatformHandleInner::new(table.cell(self.inner).fd);
        match inner.try_access_valid() {
            Ok(inner) => Ok(inner.as_raw_fd()),
            Err(e) => Err(e),
        }
    }

    /// Borrows the descriptor: it stays open for as long as the borrow lasts.
    pub fn as_borrowed(&self, table: &mut HandleTable) -> (r: Result<
        BorrowedHandle<T>,
        HandleError,
    >)
        requires
            old(table)@.well_formed(),
        ensures
            final(table)@.well_formed(),
            if valid_fd(self@.raw_fd(old(table)@)) {
                &&& r matches Ok(b) && b.handle() == self@ && b.fd() == self@.raw_fd(old(table)@)
                &&& final(table)@ == old(table)@.with_ref(self@.cell)
            } else {
                &&& r matches Err(e) && e == (HandleError::Unowned { fd: self@.raw_fd(old(table)@) })
                &&& final(table)@ == old(table)@
            },
    {
        let fd: RawFd = match self.try_borrow_into(table) {
            Ok(fd) => fd,
            Err(e) => {
                return Err(e);
            },
        };
        match self.try_clone_valid(table) {
            Ok(platform_handle) => Ok(BorrowedHandle { platform_handle, inner: fd }),
            Err(e) => Err(e),
        }
    }

    /// The handle again, provided that it is the only one on its descriptor and that there is one.
    /// Else it is gone.
    pub fn try_claim(self, table: &mut HandleTable) -> (r: Result<Self, HandleError>)
        requires
            old(table)@.well_formed(),
        ensures
            final(table)@.well_formed(),
            match unwrapped(old(table)@.cell(self@.cell)) {
                Ok(_) => {
                    &&& r matches Ok(h) && h@ == self@
                    &&& final(table)@ == old(table)@
                },
                Err(e) => {
                    &&& r matches Err(f) && f == e
                    &&& final(table)@ == old(table)@.without_ref(self@.cell)
                },
            },
    {
        let fd: RawFd = table.cell(self.inner).fd;
        if table.cell(self.inner).refs > 1 {
            table.drop_ref(self.inner);
            return Err(HandleError::Shared { fd });
        }
        match PlatformHandleInner::new(fd).try_access_valid() {
            Ok(_) => {},
            Err(e) => {
                table.drop_ref(self.inner);
                return Err(e);
            },
        }
        Ok(self)
    }

    /// Takes the descriptor from all handles that share it, for a new handle that has it alone.
    pub fn try_steal(&self, table: &mut HandleTable) -> (r: Result<Self, HandleError>)
        requires
            old(table)@.well_formed(),
            old(table)@.has_room(1),
        ensures
            final(table)@.well_formed(),
            if valid_fd(self@.raw_fd(old(table)@)) {
                &&& r matches Ok(h) && h@ == (HandleView { fd: self@.fd, cell: old(table)@.next })
                &&& final(table)@ == stolen(old(table)@, self@.cell)
            } else {
                &&& r matches Err(e) && e == (HandleError::Unowned { fd: self@.raw_fd(old(table)@) })
                &&& final(table)@ == old(table)@.with_fd(self@.cell, NO_FD)
            },
    {
        let mut inner = PlatformHandleInner::new(table.cell(self.inner).fd);
        let claim = inner.try_steal();
        table.set_fd(self.inner, inner.as_raw_fd());
        match claim {
            Ok(claim) => {
                let inner: u64 = table.add_cell(claim.as_raw_fd());
                Ok(PlatformHandle { fd: self.fd, inner, phantom: PhantomData })
            },
            Err(e) => Err(e),
        }
    }

    /// The handle, taken to refer to an object of another kind.
    pub fn to_any_type<Y>(self) -> (r: PlatformHandle<Y>)
        ensures
            r@ == self@,
    {
        PlatformHandle { fd: self.fd, inner: self.inner, phantom: PhantomData }
    }

    /// The handle, its kind set aside.
    pub fn to_rawfd_type(self) -> (r: PlatformHandle<RawFd>)
        ensures
            r@ == self@,
    {
        self.to_any_type()
    }
}

/// A table once the descriptor of a cell was moved to a new cell.
pub open spec fn stolen(t: TableView, cell: u64) -> TableView {
    t.with_fd(cell, NO_FD).with_cell(t.cell(cell).fd)
}

/// A borrowed descriptor, and the handle that keeps it open.
#[derive(Debug)]
pub struct BorrowedHandle<T> {
    platform_handle: PlatformHandle<T>,
    inner: RawFd,
}

impl<T> BorrowedHandle<T> {
    /// The handle that keeps the descriptor open.
    pub closed spec fn handle(&self) -> HandleView {
        self.platform_handle@
    }

    /// The borrowed descriptor.
    pub closed spec fn fd(&self) -> RawFd {
        self.inner
    }

    /// The borrowed descriptor.
    pub fn deref(&self) -> (r: RawFd)
        ensures
            r == self.fd(),
    {
        self.inner
    }

    /// Ends the borrow. The descriptor is closed only if this was the last handle on it.
    pub fn release(self, table: &mut HandleTable)
        requires
            old(table)@.well_formed(),
        ensures
            final(table)@ == released(old(table)@, self.handle().cell),
            final(table)@.well_formed(),
    {
        self.platform_handle.release(table);
    }
}

/// The last handle on a descriptor closes it, and no other does. A descriptor is valid if it is
/// one that is not negative.
pub proof fn last_handle_closes(t: TableView, cell: u64, fd: RawFd)
    requires
        t.well_formed(),
    ensures
        valid_fd(fd) <==> fd >= 0,
        t.cell(cell).refs == 1 && t.cell(cell).fd >= 0 ==> released(t, cell).closed == t.closed + seq![
            t.cell(cell).fd,
        ],
        t.cell(cell).refs > 1 ==> released(t, cell).closed == t.closed && released(t, cell).cell(
            cell,
        ).fd == t.cell(cell).fd && released(t, cell).cell(cell).refs == t.cell(cell).refs - 1,
        !(t.cell(cell).fd >= 0) ==> released(t, cell).closed == t.closed,
        forall|other: u64| other != cell ==> #[trigger] released(t, cell).cell(other) == t.cell(
            other,
        ),
{
    assert(t.closed.push(t.cell(cell).fd) =~= t.closed + seq![t.cell(cell).fd]);
}

/// A descriptor can be unwrapped exactly where it is valid and nobody shares it. The error says
/// which of the two is not so, that it is shared before that it is not owned.
pub proof fn only_sole_owners_unwrap(cell: HandleCell)
    ensures
        cell.refs > 1 ==> unwrapped(cell) == Err::<PlatformHandleInner, HandleError>(
            HandleError::Shared { fd: cell.fd },
        ),
        cell.refs <= 1 && cell.fd < 0 ==> unwrapped(cell) == Err::<
            PlatformHandleInner,
            HandleError,
        >(HandleError::Unowned { fd: cell.fd }),
        cell.refs <= 1 && cell.fd >= 0 ==> unwrapped(cell) is Ok && unwrapped(cell)->Ok_0.fd
            == cell.fd,
{
}

/// A stolen descriptor moves to a new cell that has it alone, and the old handles have nothing.
pub proof fn stolen_descriptor_moves(t: TableView, cell: u64)
    requires
        t.well_formed(),
        t.cell(cell).fd >= 0,
    ensures
        stolen(t, cell).cell(t.next) == (HandleCell { fd: t.cell(cell).fd, refs: 1 }),
        stolen(t, cell).cell(cell).fd == -1,
        stolen(t, cell).closed == t.closed,
{
    assert(t.cells.contains_key(cell));
}

} // verus!
