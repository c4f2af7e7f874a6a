//! The table of the handles of a process.
//!
//! Several handles can share one file descriptor, any of them can give it away, and the one that
//! goes last closes it. What they share stands in a table: a cell holds the descriptor and the
//! number of handles that refer to it.
use std::collections::HashMap;

use vstd::prelude::*;
use vstd::std_specs::hash::*;

verus! {

/// A file descriptor. A negative one is no descriptor at all.
pub type RawFd = i32;

/// What stands where there is no descriptor.
pub const NO_FD: RawFd = -1;

/// What the handles on one descriptor share.
#[derive(Debug, Clone, Copy, PartialEq, Eq, Structural)]
pub struct HandleCell {
    /// The descriptor, or a negative number once it was given away.
    pub fd: RawFd,
    /// The number of handles that refer to the cell.
    pub refs: usize,
}

/// The state of a table.
pub struct TableView {
    /// The cells that handles refer to.
    pub cells: Map<u64, HandleCell>,
    /// The number of the next cell.
    pub next: u64,
    /// The descriptors that were closed, in order.
    pub closed: Seq<RawFd>,
}

impl TableView {
    /// Every cell has a handle, and a number that was given out.
    pub open spec fn well_formed(self) -> bool {
        forall|id: u64| #[trigger]
            self.cells.contains_key(id) ==> id < self.next && self.cells[id].refs > 0
    }

    /// Whether that many more cells can be made.
    pub open spec fn has_room(self, cells: int) -> bool {
        self.next + cells <= u64::MAX
    }

    /// With a new cell that holds `fd` and has one handle.
    pub open spec fn with_cell(self, fd: RawFd) -> TableView {
        TableView {
            cells: self.cells.insert(self.next, HandleCell { fd, refs: 1 }),
            next: (self.next + 1) as u64,
            closed: self.closed,
        }
    }

    /// What stands in a cell. One that is not in the table owns nothing.
    pub open spec fn cell(self, id: u64) -> HandleCell {
        if self.cells.contains_key(id) {
            self.cells[id]
        } else {
            HandleCell { fd: NO_FD, refs: 0 }
        }
    }

    /// With another content in a cell, if it is in the table.
    pub open spec fn updated(self, id: u64, cell: HandleCell) -> TableView {
        if self.cells.contains_key(id) {
            TableView { cells: self.cells.insert(id, cell), ..self }
        } else {
            self
        }
    }

    /// With another descriptor in a cell.
    pub open spec fn with_fd(self, id: u64, fd: RawFd) -> TableView {
        self.updated(id, HandleCell { fd, refs: self.cell(id).refs })
    }

    /// With one more handle on a cell. A count that cannot grow any more stays as it is.
    pub open spec fn with_ref(self, id: u64) -> TableView {
        let refs = if self.cell(id).refs < usize::MAX {
            (self.cell(id).refs + 1) as usize
        } else {
            usize::MAX
        };
        self.updated(id, HandleCell { fd: self.cell(id).fd, refs })
    }

    /// With one handle less on a cell. The cell goes with its last handle.
    pub open spec fn without_ref(self, id: u64) -> TableView {
        if self.cell(id).refs > 1 {
            self.updated(
                id,
                HandleCell { fd: self.cell(id).fd, refs: (self.cell(id).refs - 1) as usize },
            )
        } else {
            TableView { cells: self.cells.remove(id), ..self }
        }
    }

    /// Once a descriptor was closed.
    pub open spec fn with_closed(self, fd: RawFd) -> TableView {
        TableView { closed: self.closed.push(fd), ..self }
    }

    /// Whether some cell owns a descriptor.
    pub open spec fn owns(self, fd: RawFd) -> bool {
        exists|id: u64| #[trigger] self.cells.contains_key(id) && self.cells[id].fd == fd
    }

    /// Ownership is in order: no descriptor has two owners, none is queued to be closed twice, and
    /// none that is queued has an owner.
    pub open spec fn sound(self) -> bool {
        &&& self.well_formed()
        &&& self.exclusive()
        &&& self.closed.no_duplicates()
        &&& forall|i: int|
            0 <= i < self.closed.len() ==> (#[trigger] self.closed[i]) >= 0 && !self.owns(
                self.closed[i],
            )
    }

    /// Whether no two cells own the same descriptor.
    pub open spec fn exclusive(self) -> bool {
        forall|a: u64, b: u64|
            #![trigger self.cells.contains_key(a), self.cells.contains_key(b)]
            self.cells.contains_key(a) && self.cells.contains_key(b) && a != b
                && self.cells[a].fd >= 0 ==> self.cells[a].fd != self.cells[b].fd
    }
}

/// What a handle says.
pub struct HandleView {
    /// The number that the handle was made with.
    pub fd: RawFd,
    /// The cell that the handle refers to.
    pub cell: u64,
}

impl HandleView {
    /// The descriptor that the handle owns, or a negative number.
    pub open spec fn raw_fd(self, t: TableView) -> RawFd {
        t.cell(self.cell).fd
    }
}

/// The descriptors of some handles.
pub open spec fn raw_fds(t: TableView, handles: Seq<HandleView>) -> Seq<RawFd> {
    Seq::new(handles.len(), |i: int| handles[i].raw_fd(t))
}

/// The table of the handles of a process. Descriptors that are to be closed are queued in it until
/// someone takes them out and closes them.
pub struct HandleTable {
    cells: HashMap<u64, HandleCell>,
    next: u64,
    closed: Vec<RawFd>,
}

impl View for HandleTable {
    type V = TableView;

    closed spec fn view(&self) -> TableView {
        TableView { cells: self.cells@, next: self.next, closed: self.closed@ }
    }
}

impl HandleTable {
    /// The table without handles.
    pub fn new() -> (r: Self)
        ensures
            r@.cells == Map::<u64, HandleCell>::empty(),
            r@.next == 0,
            r@.closed == Seq::<RawFd>::empty(),
            r@.well_formed(),
            r@.exclusive(),
    {
        HandleTable { cells: HashMap::new(), next: 0, closed: Vec::new() }
    }

    /// Whether that many more cells can be made.
    pub fn can_make(&self, cells: u64) -> (r: bool)
        ensures
            r == self@.has_room(cells as int),
    {
        cells <= u64::MAX - self.next
    }

    /// Makes a cell with one handle.
    pub fn add_cell(&mut self, fd: RawFd) -> (id: u64)
        requires
            old(self)@.well_formed(),
            old(self)@.has_room(1),
        ensures
            id == old(self)@.next,
            final(self)@ == old(self)@.with_cell(fd),
            final(self)@.well_formed(),
    {
        broadcast use group_hash_axioms;

        let id: u64 = self.next;
        self.cells.insert(id, HandleCell { fd, refs: 1 });
        self.next = id + 1;
        assert(self@.cells == old(self)@.with_cell(fd).cells);
        id
    }

    /// What stands in a cell.
    pub fn cell(&self, id: u64) -> (cell: HandleCell)
        ensures
            cell == self@.cell(id),
    {
        broadcast use group_hash_axioms;

        match self.cells.get(&id) {
            Some(cell) => *cell,
            None => HandleCell { fd: NO_FD, refs: 0 },
        }
    }

    /// Puts another descriptor into a cell.
    pub fn set_fd(&mut self, id: u64, fd: RawFd)
        requires
            old(self)@.well_formed(),
        ensures
            final(self)@ == old(self)@.with_fd(id, fd),
            final(self)@.well_formed(),
    {
        let refs: usize = self.cell(id).refs;
        self.update(id, HandleCell { fd, refs });
    }

    /// Adds a handle to a cell.
    pub fn add_ref(&mut self, id: u64)
        requires
            old(self)@.well_formed(),
        ensures
            final(self)@ == old(self)@.with_ref(id),
            final(self)@.well_formed(),
    {
        let cell = self.cell(id);
        let refs: usize = if cell.refs < usize::MAX {
            cell.refs + 1
        } else {
            usize::MAX
        };
        self.update(id, HandleCell { fd: cell.fd, refs });
    }

    fn update(&mut self, id: u64, cell: HandleCell)
        requires
            old(self)@.well_formed(),
            old(self)@.cells.contains_key(id) ==> cell.refs > 0,
        ensures
            final(self)@ == old(self)@.updated(id, cell),
            final(self)@.well_formed(),
    {
        broadcast use group_hash_axioms;

        if self.cells.contains_key(&id) {
            self.cells.insert(id, cell);
        }
    }

    /// Takes a handle from a cell. The descriptor comes out with the last one.
    pub fn drop_ref(&mut self, id: u64) -> (r: Option<RawFd>)
        requires
            old(self)@.well_formed(),
        ensures
            final(self)@ == old(self)@.without_ref(id),
            final(self)@.well_formed(),
            r == (if old(self)@.cell(id).refs > 1 {
                None
            } else {
                Some(old(self)@.cell(id).fd)
            }),
    {
        broadcast use group_hash_axioms;

        let cell = self.cell(id);
        if cell.refs > 1 {
            self.update(id, HandleCell { fd: cell.fd, refs: cell.refs - 1 });
            None
        } else {
            self.cells.remove(&id);
            Some(cell.fd)
        }
    }

    /// Queues a descriptor to be closed.
    pub fn close(&mut self, fd: RawFd)
        requires
            old(self)@.well_formed(),
        ensures
            final(self)@ == old(self)@.with_closed(fd),
            final(self)@.well_formed(),
    {
        self.closed.push(fd);
        assert(self@.cells == old(self)@.cells);
    }

    /// Takes out the descriptors that are to be closed.
    pub fn take_closed(&mut self) -> (r: Vec<RawFd>)
        requires
            old(self)@.well_formed(),
        ensures
            r@ == old(self)@.closed,
            final(self)@ == (TableView { closed: Seq::empty(), ..old(self)@ }),
            final(self)@.well_formed(),
    {
        let mut taken: Vec<RawFd> = Vec::new();
        std::mem::swap(&mut taken, &mut self.closed);
        taken
    }
}

// ---------------------------------------------------------------------------
// Ownership of descriptors
// ---------------------------------------------------------------------------

/// Making a handle keeps ownership in order, if nobody owns the descriptor yet.
pub proof fn owning_keeps_order(t: TableView, fd: RawFd)
    requires
        t.sound(),
        t.has_room(1),
        fd >= 0 ==> !t.owns(fd) && !t.closed.contains(fd),
    ensures
        t.with_cell(fd).sound(),
        fd >= 0 ==> t.with_cell(fd).owns(fd),
{
    let after = t.with_cell(fd);
    assert(after.cells.contains_key(t.next));
    assert forall|a: u64, b: u64|
        #![trigger after.cells.contains_key(a), after.cells.contains_key(b)]
        after.cells.contains_key(a) && after.cells.contains_key(b) && a != b && after.cells[a].fd
            >= 0 implies after.cells[a].fd != after.cells[b].fd by {
        if a == t.next {
            assert(t.cells.contains_key(b));
        } else if b == t.next {
            assert(t.cells.contains_key(a));
        } else {
            assert(t.cells.contains_key(a) && t.cells.contains_key(b));
        }
    }
    assert forall|i: int| 0 <= i < after.closed.len() implies (#[trigger] after.closed[i]) >= 0
        && !after.owns(after.closed[i]) by {
        let c = t.closed[i];
        assert(!t.owns(c));
        assert(t.closed.contains(c));
        if after.owns(c) {
            let id = choose|id: u64| #[trigger]
                after.cells.contains_key(id) && after.cells[id].fd == c;
            if id != t.next {
                assert(t.cells.contains_key(id));
            }
        }
    }
}

/// Sharing a handle keeps ownership in order.
pub proof fn sharing_keeps_order(t: TableView, cell: u64)
    requires
        t.sound(),
        t.cells.contains_key(cell),
    ensures
        t.with_ref(cell).sound(),
        forall|fd: RawFd| t.with_ref(cell).owns(fd) == t.owns(fd),
{
    lemma_same_owners(t, t.with_ref(cell));
}

/// Two tables whose cells hold the same descriptors have the same owners.
pub proof fn lemma_same_owners(t: TableView, after: TableView)
    requires
        t.sound(),
        after.well_formed(),
        after.closed == t.closed,
        after.cells.dom() =~= t.cells.dom(),
        forall|id: u64| #[trigger]
            t.cells.contains_key(id) ==> after.cells[id].fd == t.cells[id].fd,
    ensures
        after.sound(),
        forall|fd: RawFd| after.owns(fd) == t.owns(fd),
{
    assert forall|fd: RawFd| after.owns(fd) == t.owns(fd) by {
        if t.owns(fd) {
            let id = choose|id: u64| #[trigger] t.cells.contains_key(id) && t.cells[id].fd == fd;
            assert(after.cells.contains_key(id));
        }
        if after.owns(fd) {
            let id = choose|id: u64| #[trigger]
                after.cells.contains_key(id) && after.cells[id].fd == fd;
            assert(t.cells.contains_key(id));
        }
    }
    assert forall|a: u64, b: u64|
        #![trigger after.cells.contains_key(a), after.cells.contains_key(b)]
        after.cells.contains_key(a) && after.cells.contains_key(b) && a != b && after.cells[a].fd
            >= 0 implies after.cells[a].fd != after.cells[b].fd by {
        assert(t.cells.contains_key(a) && t.cells.contains_key(b));
    }
}

/// Taking a cell out of a table takes its descriptor, and no other, from the owners.
pub proof fn lemma_removed_owner(t: TableView, cell: u64)
    requires
        t.sound(),
        t.cells.contains_key(cell),
        t.cells[cell].refs <= 1,
    ensures
        t.without_ref(cell).sound(),
        t.cells[cell].fd >= 0 ==> !t.without_ref(cell).owns(t.cells[cell].fd),
        forall|fd: RawFd|
            fd != t.cells[cell].fd ==> t.without_ref(cell).owns(fd) == t.owns(fd),
{
    let after = t.without_ref(cell);
    assert forall|fd: RawFd| after.owns(fd) implies t.owns(fd) by {
        let id = choose|id: u64| #[trigger]
            after.cells.contains_key(id) && after.cells[id].fd == fd;
        assert(t.cells.contains_key(id));
    }
    assert forall|fd: RawFd| fd != t.cells[cell].fd implies after.owns(fd) == t.owns(fd) by {
        if t.owns(fd) {
            let id = choose|id: u64| #[trigger] t.cells.contains_key(id) && t.cells[id].fd == fd;
            assert(after.cells.contains_key(id));
        }
    }
    if t.cells[cell].fd >= 0 && after.owns(t.cells[cell].fd) {
        let id = choose|id: u64| #[trigger]
            after.cells.contains_key(id) && after.cells[id].fd == t.cells[cell].fd;
        assert(t.cells.contains_key(id));
        assert(t.cells.contains_key(cell));
    }
    assert forall|a: u64, b: u64|
        #![trigger after.cells.contains_key(a), after.cells.contains_key(b)]
        after.cells.contains_key(a) && after.cells.contains_key(b) && a != b && after.cells[a].fd
            >= 0 implies after.cells[a].fd != after.cells[b].fd by {
        assert(t.cells.contains_key(a) && t.cells.contains_key(b));
    }
}

/// Giving a descriptor away, whoever shares it, keeps ownership in order: it has no owner any more.
/// Other descriptors keep their owners.
pub proof fn giving_away_keeps_order(t: TableView, cell: u64)
    requires
        t.sound(),
    ensures
        t.with_fd(cell, NO_FD).sound(),
        t.cell(cell).fd >= 0 ==> !t.with_fd(cell, NO_FD).owns(t.cell(cell).fd),
        forall|fd: RawFd|
            fd >= 0 && fd != t.cell(cell).fd ==> t.with_fd(cell, NO_FD).owns(fd) == t.owns(fd),
        t.with_fd(cell, NO_FD).closed == t.closed,
{
    let fd = t.cell(cell).fd;
    let bare = t.with_fd(cell, NO_FD);
    if t.cells.contains_key(cell) {
        assert forall|other: RawFd| bare.owns(other) && other >= 0 implies t.owns(other) && other
            != fd by {
            let id = choose|id: u64| #[trigger]
                bare.cells.contains_key(id) && bare.cells[id].fd == other;
            assert(t.cells.contains_key(id));
            assert(t.cells.contains_key(cell));
        }
        assert forall|other: RawFd| t.owns(other) && other != fd implies bare.owns(other) by {
            let id = choose|id: u64| #[trigger] t.cells.contains_key(id) && t.cells[id].fd == other;
            assert(bare.cells.contains_key(id));
        }
        assert forall|a: u64, b: u64|
            #![trigger bare.cells.contains_key(a), bare.cells.contains_key(b)]
            bare.cells.contains_key(a) && bare.cells.contains_key(b) && a != b && bare.cells[a].fd
                >= 0 implies bare.cells[a].fd != bare.cells[b].fd by {
            assert(t.cells.contains_key(a) && t.cells.contains_key(b));
        }
    }
}

/// Whether a table came of another without any descriptor gaining an owner, and without any being
/// closed that had none. Ownership is in order still.
pub open spec fn shrinks(t: TableView, after: TableView) -> bool {
    &&& after.sound()
    &&& forall|fd: RawFd| fd >= 0 && #[trigger] after.owns(fd) ==> t.owns(fd)
    &&& forall|fd: RawFd| #[trigger]
        after.closed.contains(fd) ==> t.closed.contains(fd) || t.owns(fd)
}

/// Whatever shrinks twice has shrunk.
pub proof fn lemma_shrinks_again(t: TableView, between: TableView, after: TableView)
    requires
        shrinks(t, between),
        shrinks(between, after),
    ensures
        shrinks(t, after),
{
    assert forall|fd: RawFd| #[trigger] after.closed.contains(fd) implies t.closed.contains(fd)
        || t.owns(fd) by {
        if !between.closed.contains(fd) {
            assert(between.owns(fd));
            let i = after.closed.index_of(fd);
            assert(after.closed[i] >= 0);
        }
    }
}

/// Dropping a handle without closing anything keeps ownership in order.
pub proof fn lemma_without_ref(t: TableView, cell: u64)
    requires
        t.sound(),
    ensures
        shrinks(t, t.without_ref(cell)),
        t.without_ref(cell).closed == t.closed,
        t.cell(cell).refs <= 1 && t.cell(cell).fd >= 0 ==> !t.without_ref(cell).owns(
            t.cell(cell).fd,
        ),
{
    if t.cells.contains_key(cell) {
        if t.cells[cell].refs > 1 {
            lemma_same_owners(t, t.without_ref(cell));
        } else {
            lemma_removed_owner(t, cell);
            let after = t.without_ref(cell);
            assert forall|fd: RawFd| fd >= 0 && #[trigger] after.owns(fd) implies t.owns(fd) by {
                let id = choose|id: u64| #[trigger]
                    after.cells.contains_key(id) && after.cells[id].fd == fd;
                assert(t.cells.contains_key(id));
            }
        }
    } else {
        assert(t.without_ref(cell).cells =~= t.cells);
        assert(t.without_ref(cell) == t);
    }
}

/// What changes in a table changes one cell: a new cell has its descriptor and one handle, a handle
/// that comes or goes is counted, and the cell goes with the last one. Nothing else changes, and
/// only closing queues a descriptor.
pub proof fn one_cell_changes(t: TableView, id: u64, fd: RawFd, other: u64)
    requires
        t.well_formed(),
    ensures
        t.with_cell(fd).cell(t.next) == (HandleCell { fd, refs: 1 }),
        other != t.next ==> t.with_cell(fd).cell(other) == t.cell(other),
        t.with_cell(fd).closed == t.closed,
        t.has_room(1) ==> t.with_cell(fd).next == t.next + 1,
        t.cells.contains_key(id) && t.cell(id).refs < usize::MAX ==> t.with_ref(id).cell(id) == (
        HandleCell { fd: t.cell(id).fd, refs: (t.cell(id).refs + 1) as usize }),
        other != id ==> t.with_ref(id).cell(other) == t.cell(other),
        t.with_ref(id).closed == t.closed,
        t.cell(id).refs > 1 ==> t.without_ref(id).cell(id) == (HandleCell {
            fd: t.cell(id).fd,
            refs: (t.cell(id).refs - 1) as usize,
        }),
        t.cell(id).refs <= 1 ==> !t.without_ref(id).cells.contains_key(id),
        other != id ==> t.without_ref(id).cell(other) == t.cell(other),
        t.without_ref(id).closed == t.closed,
        t.cells.contains_key(id) ==> t.with_fd(id, fd).cell(id) == (HandleCell {
            fd,
            refs: t.cell(id).refs,
        }),
        other != id ==> t.with_fd(id, fd).cell(other) == t.cell(other),
        t.with_fd(id, fd).closed == t.closed,
        t.with_closed(fd).closed == t.closed + seq![fd],
        t.with_closed(fd).cells == t.cells,
        !t.cells.contains_key(id) ==> t.cell(id) == (HandleCell { fd: -1i32, refs: 0 }),
        t.cells.contains_key(id) ==> t.cell(id) == t.cells[id],
{
    assert(t.with_closed(fd).closed =~= t.closed + seq![fd]);
}

} // verus!
