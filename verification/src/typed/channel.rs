//! A channel: a socket, and the descriptors that travel over it.
use vstd::prelude::*;

use crate::handle_error::HandleError;
use crate::handle_table::{raw_fds, HandleCell, HandleTable, HandleView, RawFd, TableView, NO_FD};
use crate::typed::handle::{released, stolen, valid_fd, PlatformHandle};
use crate::typed::metadata::{
    batch, claimed, deferred, drained_handles_are_owned, handle_views,
    reenqueued_batch_comes_first, ChannelMetadata, MetadataView, Pid, MAX_FDS,
};
use crate::typed::transfer::released_all;

verus! {

/// The kind of a connected socket.
#[derive(Debug)]
pub struct UnixStream;

/// A socket, and the descriptors that travel over it.
#[derive(Debug)]
pub struct Channel {
    pub inner: PlatformHandle<UnixStream>,
    pub metadata: ChannelMetadata,
}

impl Channel {
    /// The channel over a socket, in the process `pid`.
    pub fn from(handle: PlatformHandle<UnixStream>, pid: Pid) -> (r: Self)
        ensures
            r.inner@ == handle@,
            r.metadata@ == MetadataView::fresh(pid),
    {
        Channel { inner: handle, metadata: ChannelMetadata::new(pid) }
    }

    /// The two ends of a new connection.
    pub fn pair(local: RawFd, remote: RawFd, table: &mut HandleTable) -> (r: ChannelPair)
        requires
            old(table)@.well_formed(),
            old(table)@.has_room(2),
        ensures
            final(table)@.well_formed(),
            final(table)@ == old(table)@.with_cell(local).with_cell(remote),
            r.0@ == (HandleView { fd: local, cell: old(table)@.next }),
            r.1@ == (HandleView { fd: remote, cell: (old(table)@.next + 1) as u64 }),
    {
        let local = PlatformHandle::own(local, table);
        let remote = PlatformHandle::own(remote, table);
        ChannelPair(local, remote)
    }

    /// Another channel over the same socket. What travelled over the first is none of its
    /// business.
    pub fn share(&self, pid: Pid, table: &mut HandleTable) -> (r: Self)
        requires
            old(table)@.well_formed(),
        ensures
            final(table)@.well_formed(),
            final(table)@ == old(table)@.with_ref(self.inner@.cell),
            r.inner@ == self.inner@,
            r.metadata@ == MetadataView::fresh(pid),
    {
        Channel { inner: self.inner.share(table), metadata: ChannelMetadata::new(pid) }
    }

    /// The handle on the socket.
    pub fn into_handle(self) -> (r: PlatformHandle<UnixStream>)
        ensures
            r@ == self.inner@,
    {
        self.inner
    }

    /// Notes what a read brought, `n` bytes and some descriptors, and hands on the number of
    /// bytes.
    pub fn finish_read(&mut self, n: usize, fds: &[RawFd]) -> (r: usize)
        ensures
            r == n,
            final(self).inner == old(self).inner,
            final(self).metadata@ == (MetadataView {
                received: old(self).metadata@.received + fds@,
                ..old(self).metadata@
            }),
    {
        self.metadata.receive_fds(fds);
        n
    }
}

/// The two ends of a connection, before it is known which process has which.
#[derive(Debug)]
pub struct ChannelPair(pub PlatformHandle<UnixStream>, pub PlatformHandle<UnixStream>);

/// A table once the descriptor of a cell was taken and closed, if there was one.
pub open spec fn discarded(t: TableView, cell: u64) -> TableView {
    if valid_fd(t.cell(cell).fd) {
        released(stolen(t, cell), t.next)
    } else {
        t.with_fd(cell, NO_FD)
    }
}

/// A table once the descriptor of a cell was taken for a new handle, if there was one.
pub open spec fn taken(t: TableView, cell: u64) -> TableView {
    if valid_fd(t.cell(cell).fd) {
        stolen(t, cell)
    } else {
        t.with_fd(cell, NO_FD)
    }
}

/// Whether `r` is the channel over a descriptor that was taken from `handle`.
pub open spec fn is_taken_channel(
    r: Result<Channel, HandleError>,
    t: TableView,
    handle: HandleView,
    pid: Pid,
) -> bool {
    if valid_fd(handle.raw_fd(t)) {
        &&& r matches Ok(channel)
        &&& channel.inner@ == (HandleView { fd: handle.fd, cell: t.next })
        &&& channel.metadata@ == MetadataView::fresh(pid)
    } else {
        r matches Err(e) && e == (HandleError::Unowned { fd: handle.raw_fd(t) })
    }
}

fn discard(handle: &PlatformHandle<UnixStream>, table: &mut HandleTable)
    requires
        old(table)@.well_formed(),
        old(table)@.has_room(1),
    ensures
        final(table)@.well_formed(),
        final(table)@ == discarded(old(table)@, handle@.cell),
        final(table)@.next <= old(table)@.next + 1,
{
    match handle.try_steal(table) {
        Ok(stolen) => {
            stolen.release(table);
        },
        Err(_) => {},
    }
}

fn take(handle: &PlatformHandle<UnixStream>, pid: Pid, table: &mut HandleTable) -> (r: Result<
    Channel,
    HandleError,
>)
    requires
        old(table)@.well_formed(),
        old(table)@.has_room(1),
    ensures
        final(table)@.well_formed(),
        final(table)@ == taken(old(table)@, handle@.cell),
        final(table)@.next <= old(table)@.next + 1,
        is_taken_channel(r, old(table)@, handle@, pid),
{
    match handle.try_steal(table) {
        Ok(handle) => Ok(Channel::from(handle, pid)),
        Err(e) => Err(e),
    }
}

impl ChannelPair {
    /// The local end. The remote one is closed here.
    pub fn local(&self, pid: Pid, table: &mut HandleTable) -> (r: Result<Channel, HandleError>)
        requires
            old(table)@.well_formed(),
            old(table)@.has_room(2),
        ensures
            final(table)@.well_formed(),
            final(table)@ == taken(discarded(old(table)@, self.1@.cell), self.0@.cell),
            is_taken_channel(r, discarded(old(table)@, self.1@.cell), self.0@, pid),
    {
        discard(&self.1, table);
        take(&self.0, pid, table)
    }

    /// The remote end. The local one is closed here.
    pub fn remote(&self, pid: Pid, table: &mut HandleTable) -> (r: Result<Channel, HandleError>)
        requires
            old(table)@.well_formed(),
            old(table)@.has_room(2),
        ensures
            final(table)@.well_formed(),
            final(table)@ == taken(discarded(old(table)@, self.0@.cell), self.1@.cell),
            is_taken_channel(r, discarded(old(table)@, self.0@.cell), self.1@, pid),
    {
        discard(&self.0, table);
        take(&self.1, pid, table)
    }

    /// Both ends. Where one of them is gone, both are.
    pub fn pair(self, pid: Pid, table: &mut HandleTable) -> (r: Result<
        (Channel, Channel),
        HandleError,
    >)
        requires
            old(table)@.well_formed(),
            old(table)@.has_room(2),
        ensures
            final(table)@.well_formed(),
            ({
                let t = old(table)@;
                let t1 = taken(t, self.0@.cell);
                let t2 = taken(t1, self.1@.cell);
                match r {
                    Ok((local, remote)) => {
                        &&& is_taken_channel(Ok(local), t, self.0@, pid)
                        &&& is_taken_channel(Ok(remote), t1, self.1@, pid)
                        &&& final(table)@ == released(released(t2, self.0@.cell), self.1@.cell)
                    },
                    Err(e) => if valid_fd(self.0@.raw_fd(t)) {
                        &&& is_taken_channel(Err(e), t1, self.1@, pid)
                        &&& final(table)@ == released(
                            released(released(t2, t.next), self.0@.cell),
                            self.1@.cell,
                        )
                    } else {
                        &&& is_taken_channel(Err(e), t, self.0@, pid)
                        &&& final(table)@ == released(released(t1, self.0@.cell), self.1@.cell)
                    },
                }
            }),
    {
        let r = match take(&self.0, pid, table) {
            Ok(local) => match take(&self.1, pid, table) {
                Ok(remote) => Ok((local, remote)),
                Err(e) => {
                    local.inner.release(table);
                    Err(e)
                },
            },
            Err(e) => Err(e),
        };
        self.0.release(table);
        self.1.release(table);
        r
    }
}

// ---------------------------------------------------------------------------
// Writing
// ---------------------------------------------------------------------------

/// A buffer on its way out.
#[derive(Debug)]
pub struct WriteAll {
    /// The number of bytes that are out.
    pub offset: usize,
    /// The number of bytes of the buffer.
    pub len: usize,
    /// Whether descriptors may still have to go along.
    pub carrying: bool,
    /// The handles that go along with the present attempt.
    pub handles: Vec<PlatformHandle<RawFd>>,
}

/// What to do next for a buffer on its way out.
#[derive(Debug)]
pub enum WriteAction {
    /// Send the bytes from an offset on, with descriptors.
    Send { offset: usize, fds: Vec<RawFd> },
    /// Write the bytes from an offset on.
    Write { offset: usize },
    /// The buffer is out.
    Finished,
    /// The socket took nothing. Fail for that reason.
    WriteZero,
    /// The attempt failed. Fail as it did.
    Failed,
}

/// What came of an attempt to send or write.
#[derive(Debug, Clone, Copy, PartialEq, Eq, Structural)]
pub enum WriteEvent {
    /// Some bytes went out.
    Sent(usize),
    /// A signal came first.
    Interrupted,
    /// It failed otherwise.
    Failed,
}

/// The state of a buffer on its way out.
pub struct WriteView {
    pub offset: int,
    pub len: int,
    pub carrying: bool,
    pub handles: Seq<HandleView>,
}

/// What to do next, the descriptors taken as a sequence.
pub enum ActionView {
    Send { offset: int, fds: Seq<RawFd> },
    Write { offset: int },
    Finished,
    WriteZero,
    Failed,
}

impl View for WriteAll {
    type V = WriteView;

    open spec fn view(&self) -> WriteView {
        WriteView {
            offset: self.offset as int,
            len: self.len as int,
            carrying: self.carrying,
            handles: handle_views(self.handles@),
        }
    }
}

impl View for WriteAction {
    type V = ActionView;

    open spec fn view(&self) -> ActionView {
        match self {
            WriteAction::Send { offset, fds } => ActionView::Send {
                offset: *offset as int,
                fds: fds@,
            },
            WriteAction::Write { offset } => ActionView::Write { offset: *offset as int },
            WriteAction::Finished => ActionView::Finished,
            WriteAction::WriteZero => ActionView::WriteZero,
            WriteAction::Failed => ActionView::Failed,
        }
    }
}

/// Everything that a write changes.
pub struct Writing {
    pub metadata: MetadataView,
    pub table: TableView,
    pub write: WriteView,
}

/// What to do next, with no attempt under way. As long as there are handles to send, they go along
/// with the bytes. Once there are none, the rest of the bytes goes alone.
pub open spec fn next_write(w: Writing) -> (Writing, ActionView) {
    let idle = WriteView { handles: Seq::empty(), ..w.write };
    if w.write.offset == w.write.len {
        (Writing { write: idle, ..w }, ActionView::Finished)
    } else if w.write.carrying {
        let (kept, table) = claimed(w.table, w.metadata.to_send);
        let metadata = w.metadata.drained(w.table);
        if kept.len() == 0 {
            let write = WriteView { carrying: false, ..idle };
            (Writing { metadata, table, write }, ActionView::Write { offset: w.write.offset })
        } else {
            let write = WriteView { handles: batch(kept), ..w.write };
            (
                Writing { metadata, table, write },
                ActionView::Send { offset: w.write.offset, fds: raw_fds(table, batch(kept)) },
            )
        }
    } else {
        (Writing { write: idle, ..w }, ActionView::Write { offset: w.write.offset })
    }
}

/// What to do after an attempt. Handles whose bytes went out are kept until their receipt is told.
/// Those of a failed attempt wait again, before the others. Those of an attempt that a signal
/// interrupted are dropped.
pub open spec fn after_attempt(w: Writing, event: WriteEvent) -> (Writing, ActionView) {
    let idle = WriteView { handles: Seq::empty(), ..w.write };
    let put_back = Writing {
        metadata: w.metadata.reenqueued(w.write.handles),
        write: idle,
        ..w
    };
    match event {
        WriteEvent::Sent(n) => if n == 0 {
            (put_back, ActionView::WriteZero)
        } else {
            let (to_close, table) = deferred(w.metadata.to_close, w.table, w.write.handles);
            next_write(
                Writing {
                    metadata: MetadataView { to_close, ..w.metadata },
                    table,
                    write: WriteView { offset: w.write.offset + n, ..idle },
                },
            )
        },
        WriteEvent::Interrupted => next_write(
            Writing { table: released_all(w.table, w.write.handles), write: idle, ..w },
        ),
        WriteEvent::Failed => (put_back, ActionView::Failed),
    }
}

impl Channel {
    /// The state of a write over this channel.
    pub open spec fn writing(&self, write: &WriteAll, table: &HandleTable) -> Writing {
        Writing { metadata: self.metadata@, table: table@, write: write@ }
    }

    /// Begins to write a buffer of `len` bytes, provided that the channel owns a socket.
    pub fn write_all(&mut self, len: usize, table: &mut HandleTable) -> (r: Result<
        (WriteAll, WriteAction),
        HandleError,
    >)
        requires
            old(table)@.well_formed(),
        ensures
            final(table)@.well_formed(),
            final(self).inner == old(self).inner,
            if valid_fd(old(self).inner@.raw_fd(old(table)@)) {
                &&& r matches Ok((write, action))
                &&& (final(self).writing(&write, final(table)), action@) == next_write(
                    Writing {
                        metadata: old(self).metadata@,
                        table: old(table)@,
                        write: WriteView {
                            offset: 0,
                            len: len as int,
                            carrying: true,
                            handles: Seq::empty(),
                        },
                    },
                )
            } else {
                &&& r matches Err(e)
                &&& e == (HandleError::Unowned { fd: old(self).inner@.raw_fd(old(table)@) })
                &&& final(self).metadata@ == old(self).metadata@
                &&& final(table)@ == old(table)@
            },
    {
        match self.inner.try_borrow_into(table) {
            Ok(_) => {},
            Err(e) => {
                return Err(e);
            },
        }
        let write = WriteAll { offset: 0, len, carrying: true, handles: Vec::new() };
        assert(write@.handles =~= Seq::<HandleView>::empty());
        Ok(self.next_write(write, table))
    }

    fn next_write(&mut self, write: WriteAll, table: &mut HandleTable) -> (r: (
        WriteAll,
        WriteAction,
    ))
        requires
            old(table)@.well_formed(),
            write.offset <= write.len,
            write.handles@.len() == 0,
        ensures
            final(table)@.well_formed(),
            final(self).inner == old(self).inner,
            (final(self).writing(&r.0, final(table)), r.1@) == next_write(
                old(self).writing(&write, old(table)),
            ),
    {
        let mut write = write;
        assert(write@.handles =~= Seq::<HandleView>::empty());
        if write.offset == write.len {
            return (write, WriteAction::Finished);
        }
        let offset: usize = write.offset;
        if write.carrying {
            let handles = self.metadata.drain_to_send(table);
            proof {
                let kept = claimed(old(table)@, old(self).metadata@.to_send).0;
                assert(batch(kept).len() == handles@.len());
            }
            if handles.len() > 0 {
                let mut fds: Vec<RawFd> = Vec::new();
                for i in 0..handles.len()
                    invariant
                        fds@ == raw_fds(table@, handle_views(handles@)).take(i as int),
                {
                    fds.push(handles[i].as_raw_fd(table));
                    assert(fds@ =~= raw_fds(table@, handle_views(handles@)).take(i + 1));
                }
                assert(fds@ =~= raw_fds(table@, handle_views(handles@)));
                write.handles = handles;
                return (write, WriteAction::Send { offset, fds });
            }
            write.carrying = false;
        }
        (write, WriteAction::Write { offset })
    }

    /// Goes on with a write after an attempt, of which `event` came.
    pub fn write_step(&mut self, write: WriteAll, event: WriteEvent, table: &mut HandleTable) -> (r: (
        WriteAll,
        WriteAction,
    ))
        requires
            old(table)@.well_formed(),
            write.offset <= write.len,
            event matches WriteEvent::Sent(n) ==> n <= write.len - write.offset,
        ensures
            final(table)@.well_formed(),
            final(self).inner == old(self).inner,
            (final(self).writing(&r.0, final(table)), r.1@) == after_attempt(
                old(self).writing(&write, old(table)),
                event,
            ),
    {
        let mut write = write;
        let mut handles: Vec<PlatformHandle<RawFd>> = Vec::new();
        std::mem::swap(&mut handles, &mut write.handles);
        assert(write@.handles =~= Seq::<HandleView>::empty());
        match event {
            WriteEvent::Sent(n) => {
                if n == 0 {
                    self.metadata.reenqueue_for_sending(handles);
                    (write, WriteAction::WriteZero)
                } else {
                    self.metadata.defer_close_handles(handles, table);
                    write.offset = write.offset + n;
                    self.next_write(write, table)
                }
            },
            WriteEvent::Interrupted => {
                release_vec(handles, table);
                self.next_write(write, table)
            },
            WriteEvent::Failed => {
                self.metadata.reenqueue_for_sending(handles);
                (write, WriteAction::Failed)
            },
        }
    }
}

/// Drops handles, in order.
fn release_vec(handles: Vec<PlatformHandle<RawFd>>, table: &mut HandleTable)
    requires
        old(table)@.well_formed(),
    ensures
        final(table)@.well_formed(),
        final(table)@ == released_all(old(table)@, handle_views(handles@)),
{
    let ghost views = handle_views(handles@);
    let ghost t0 = table@;
    for handle in iter: handles
        invariant
            table@.well_formed(),
            views == handle_views(iter.seq()),
            table@ == released_all(t0, views.take(iter.index() as int)),
    {
        let ghost i: int = iter.index() as int;
        assert(views.take(i + 1).drop_last() =~= views.take(i));
        assert(views.take(i + 1).last() == handle@);
        handle.release(table);
    }
    assert(views.take(views.len() as int) =~= views);
}

// ---------------------------------------------------------------------------
// What holds of every write
// ---------------------------------------------------------------------------

/// The number of bytes that went out in some attempts.
pub open spec fn bytes_out(events: Seq<WriteEvent>) -> int
    decreases events.len(),
{
    if events.len() == 0 {
        0
    } else {
        bytes_out(events.drop_last()) + match events.last() {
            WriteEvent::Sent(n) => n as int,
            _ => 0,
        }
    }
}

/// A write after some attempts.
pub open spec fn after_attempts(w: Writing, events: Seq<WriteEvent>) -> (Writing, ActionView)
    decreases events.len(),
{
    if events.len() == 0 {
        next_write(w)
    } else {
        after_attempt(after_attempts(w, events.drop_last()).0, events.last())
    }
}

/// After attempts none of which failed, exactly the bytes that went out are behind the offset, and
/// the next attempt begins with the first byte after them. The write is finished if and only if
/// all bytes are out: none is skipped and none goes out twice.
pub proof fn every_byte_goes_out_once(w: Writing, events: Seq<WriteEvent>)
    requires
        w.write.offset == 0,
        forall|i: int|
            0 <= i < events.len() ==> (#[trigger] events[i]) != WriteEvent::Failed && events[i]
                != WriteEvent::Sent(0),
    ensures
        ({
            let (after, action) = after_attempts(w, events);
            &&& after.write.offset == bytes_out(events)
            &&& after.write.len == w.write.len
            &&& match action {
                ActionView::Send { offset, fds: _ } => offset == bytes_out(events) && offset
                    != w.write.len,
                ActionView::Write { offset } => offset == bytes_out(events) && offset
                    != w.write.len,
                ActionView::Finished => bytes_out(events) == w.write.len,
                _ => false,
            }
        }),
    decreases events.len(),
{
    if events.len() > 0 {
        let last = events.last();
        assert(events[events.len() - 1] == last);
        assert forall|i: int| 0 <= i < events.drop_last().len() implies (
        #[trigger] events.drop_last()[i]) != WriteEvent::Failed && events.drop_last()[i]
            != WriteEvent::Sent(0) by {
            assert(events.drop_last()[i] == events[i]);
        }
        every_byte_goes_out_once(w, events.drop_last());
    }
}

/// An attempt that fails loses no descriptor: they are sent again, first and in the same order,
/// when the write is tried again.
pub proof fn failed_attempt_can_be_repeated(w: Writing, event: WriteEvent)
    requires
        w.write.carrying,
        event == WriteEvent::Failed || event == WriteEvent::Sent(0),
        next_write(w).1 is Send,
    ensures
        ({
            let (sending, action) = next_write(w);
            let failed = after_attempt(sending, event).0;
            next_write(failed) == (sending, action)
        }),
{
    let (sending, action) = next_write(w);
    let failed = after_attempt(sending, event).0;
    reenqueued_batch_comes_first(w.metadata, w.table);
    assert(failed.metadata == w.metadata.drained(w.table).reenqueued(
        batch(claimed(w.table, w.metadata.to_send).0),
    ));
}

/// The descriptors that go along with an attempt are few enough for one message, and each of them
/// belongs to the channel alone.
pub proof fn sent_descriptors_are_owned(w: Writing)
    ensures
        ({
            let (after, action) = next_write(w);
            action matches ActionView::Send { offset: _, fds } ==> {
                &&& 0 < fds.len() <= MAX_FDS
                &&& forall|i: int| 0 <= i < fds.len() ==> valid_fd(#[trigger] fds[i])
                &&& forall|i: int|
                    0 <= i < after.write.handles.len() ==> after.table.cell(
                        (#[trigger] after.write.handles[i]).cell,
                    ).refs <= 1
            }
        }),
{
    drained_handles_are_owned(w.table, w.metadata.to_send);
}

/// Once one end of a connection was taken, the other end is closed, and the channel alone owns the
/// end that was taken.
pub proof fn one_end_is_kept(t: TableView, kept: HandleView, other: HandleView)
    requires
        t.well_formed(),
        t.has_room(2),
        kept.cell != other.cell,
        valid_fd(kept.raw_fd(t)),
        valid_fd(other.raw_fd(t)),
    ensures
        ({
            let t1 = discarded(t, other.cell);
            let t2 = taken(t1, kept.cell);
            &&& t2.closed == t.closed.push(other.raw_fd(t))
            &&& t2.cell(t1.next) == (HandleCell { fd: kept.raw_fd(t), refs: 1 })
            &&& t2.cell(kept.cell).fd == NO_FD
            &&& t2.cell(other.cell).fd == NO_FD
        }),
{
    assert(t.cells.contains_key(kept.cell));
    assert(t.cells.contains_key(other.cell));
    let t0 = stolen(t, other.cell);
    assert(t0.cells.contains_key(t.next));
    let t1 = discarded(t, other.cell);
    assert(t1.cells.contains_key(kept.cell));
    assert(t1.cells.contains_key(other.cell));
}

/// What becomes of an attempt to write: bytes that went out move the offset, and their handles are
/// kept until their receipt is told. Where nothing went out, or the attempt failed, nothing but the
/// line of waiting handles changes. Handles of an attempt that was interrupted are dropped, and the
/// same bytes are tried again.
pub proof fn attempt_settles_its_handles(w: Writing, n: usize)
    ensures
        n > 0 ==> after_attempt(w, WriteEvent::Sent(n)) == next_write(
            Writing {
                metadata: MetadataView {
                    to_close: deferred(w.metadata.to_close, w.table, w.write.handles).0,
                    ..w.metadata
                },
                table: deferred(w.metadata.to_close, w.table, w.write.handles).1,
                write: WriteView {
                    offset: w.write.offset + n,
                    handles: Seq::empty(),
                    ..w.write
                },
            },
        ),
        after_attempt(w, WriteEvent::Interrupted) == next_write(
            Writing {
                metadata: w.metadata,
                table: released_all(w.table, w.write.handles),
                write: WriteView { handles: Seq::empty(), ..w.write },
            },
        ),
        after_attempt(w, WriteEvent::Sent(0)).1 == ActionView::WriteZero,
        after_attempt(w, WriteEvent::Failed).1 == ActionView::Failed,
        after_attempt(w, WriteEvent::Sent(0)).0 == after_attempt(w, WriteEvent::Failed).0,
        ({
            let failed = after_attempt(w, WriteEvent::Failed).0;
            &&& failed.metadata.to_send == w.write.handles + w.metadata.to_send
            &&& failed.metadata == (MetadataView {
                to_send: failed.metadata.to_send,
                ..w.metadata
            })
            &&& failed.table == w.table
            &&& failed.write.offset == w.write.offset
            &&& failed.write.len == w.write.len
            &&& failed.write.carrying == w.write.carrying
        }),
{
}

/// What to do next: as long as there are handles that can be sent, they go along with the bytes,
/// and once there are none, the bytes go alone for the rest of the write.
pub proof fn handles_go_first(w: Writing)
    requires
        w.write.offset != w.write.len,
    ensures
        ({
            let (after, action) = next_write(w);
            let (kept, table) = claimed(w.table, w.metadata.to_send);
            &&& w.write.carrying && kept.len() > 0 ==> {
                &&& action matches ActionView::Send { offset, fds } && offset == w.write.offset
                    && fds == raw_fds(table, batch(kept))
                &&& after.write.handles == batch(kept)
                &&& after.write.carrying
                &&& after.table == table
                &&& after.metadata == w.metadata.drained(w.table)
            }
            &&& w.write.carrying && kept.len() == 0 ==> {
                &&& action == (ActionView::Write { offset: w.write.offset })
                &&& !after.write.carrying
                &&& after.write.handles.len() == 0
                &&& after.table == table
            }
            &&& !w.write.carrying ==> {
                &&& action == (ActionView::Write { offset: w.write.offset })
                &&& !after.write.carrying
                &&& after.metadata == w.metadata
                &&& after.table == w.table
            }
        }),
{
}

/// The channel over an end of a connection has that end alone, and nothing has travelled over it.
/// There is none where the end was taken already.
pub proof fn taken_end_is_fresh(
    r: Result<Channel, HandleError>,
    t: TableView,
    handle: HandleView,
    pid: Pid,
)
    requires
        t.well_formed(),
        is_taken_channel(r, t, handle, pid),
    ensures
        r is Ok <==> handle.raw_fd(t) >= 0,
        r matches Ok(channel) ==> {
            &&& channel.inner@.raw_fd(taken(t, handle.cell)) == handle.raw_fd(t)
            &&& channel.metadata@.to_send.len() == 0
            &&& channel.metadata@.received.len() == 0
            &&& channel.metadata@.acked.len() == 0
            &&& channel.metadata@.to_close.dom() == Set::<RawFd>::empty()
            &&& channel.metadata@.pid == pid
        },
        r matches Err(e) ==> e == (HandleError::Unowned { fd: handle.raw_fd(t) }),
{
}

} // verus!
