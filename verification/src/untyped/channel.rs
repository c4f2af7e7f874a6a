//! Channels: sockets, and the descriptors that travel over them.
use vstd::prelude::*;

use crate::handle_table::{raw_fds, HandleTable, HandleView, RawFd, TableView};
use crate::untyped::handle::PlatformHandle;
use crate::untyped::metadata::{
    batch, claimed, deferred, handle_views, release_all, ChannelMetadata, MetadataView, Pid,
};
use crate::untyped::transfer::released_all;

verus! {

/// A connected socket.
#[derive(Debug)]
pub struct Channel {
    fd: RawFd,
}

/// The number of the socket of a channel, for someone who closes it behind the channel's back.
#[derive(Debug)]
pub struct ChannelRef {
    fd: RawFd,
}

impl View for Channel {
    type V = RawFd;

    closed spec fn view(&self) -> RawFd {
        self.fd
    }
}

impl View for ChannelRef {
    type V = RawFd;

    closed spec fn view(&self) -> RawFd {
        self.fd
    }
}

impl Channel {
    /// The channels over the two ends of a new connection.
    pub fn pair(local: RawFd, remote: RawFd) -> (r: (Self, Self))
        ensures
            r.0@ == local,
            r.1@ == remote,
    {
        (Channel { fd: local }, Channel { fd: remote })
    }

    /// The number of the socket.
    pub fn as_raw_fd(&self) -> (r: RawFd)
        ensures
            r == self@,
    {
        self.fd
    }

    /// The number of the socket, for someone who closes it.
    pub fn as_channel_ref(&self) -> (r: ChannelRef)
        ensures
            r@ == self@,
    {
        ChannelRef { fd: self.fd }
    }

    /// The handle that owns the socket.
    pub fn into_handle(self, table: &mut HandleTable) -> (r: PlatformHandle)
        requires
            old(table)@.well_formed(),
            old(table)@.has_room(1),
        ensures
            r@ == (HandleView { fd: self@, cell: old(table)@.next }),
            final(table)@ == old(table)@.with_cell(self@),
            final(table)@.well_formed(),
    {
        PlatformHandle::own(self.fd, table)
    }
}

impl ChannelRef {
    /// Closes the socket.
    pub fn close(self, table: &mut HandleTable)
        requires
            old(table)@.well_formed(),
        ensures
            final(table)@ == old(table)@.with_closed(self@),
            final(table)@.well_formed(),
    {
        table.close(self.fd);
    }
}

/// What to do for a buffer that is to be written.
#[derive(Debug)]
pub enum PollWrite {
    /// Send it with the descriptors of some handles.
    Send { fds: Vec<RawFd>, handles: Vec<PlatformHandle> },
    /// Write it.
    Write,
}

/// What came of an attempt to send a buffer with descriptors.
#[derive(Debug, Clone, Copy, PartialEq, Eq, Structural)]
pub enum SendEvent {
    /// Some bytes went out.
    Sent(usize),
    /// The socket was not ready.
    WouldBlock,
    /// It failed otherwise.
    Failed,
}

/// What to answer after an attempt to send a buffer with descriptors.
#[derive(Debug, Clone, Copy, PartialEq, Eq, Structural)]
pub enum SendAnswer {
    /// So many bytes were written.
    Ready(usize),
    /// Wait until the socket can be written to, and then that nothing was written.
    PollReady,
    /// The attempt failed. Fail as it did.
    Failed,
}

/// What came of an attempt to read a buffer with descriptors.
#[derive(Debug)]
pub enum ReceiveEvent {
    /// Some bytes came, and some descriptors.
    Received { bytes: usize, fds: Vec<RawFd> },
    /// The socket was not ready.
    WouldBlock,
    /// It failed otherwise.
    Failed,
}

/// What to answer after an attempt to read a buffer with descriptors.
#[derive(Debug, Clone, Copy, PartialEq, Eq, Structural)]
pub enum ReceiveAnswer {
    /// So many bytes of the buffer were filled.
    Ready(usize),
    /// Wait until the socket can be read from.
    PollReady,
    /// The attempt failed. Fail as it did.
    Failed,
}

/// The metadata and the table after an attempt to send, and the answer. Handles whose bytes went
/// out are kept until their receipt is told. Where the socket was not ready they wait again, before
/// the others. Those of a failed attempt are dropped.
pub open spec fn after_send(
    v: MetadataView,
    t: TableView,
    handles: Seq<HandleView>,
    event: SendEvent,
) -> (MetadataView, TableView, SendAnswer) {
    match event {
        SendEvent::Sent(n) => {
            let (to_close, t1) = deferred(v.to_close, t, handles);
            (MetadataView { to_close, ..v }, t1, SendAnswer::Ready(n))
        },
        SendEvent::WouldBlock => (v.reenqueued(handles), t, SendAnswer::PollReady),
        SendEvent::Failed => (v, released_all(t, handles), SendAnswer::Failed),
    }
}

/// A channel that does not block.
#[derive(Debug)]
pub struct AsyncChannel {
    pub metadata: ChannelMetadata,
}

impl AsyncChannel {
    /// The channel that nothing travelled over yet, in the process `pid`.
    pub fn new(pid: Pid) -> (r: Self)
        ensures
            r.metadata@ == MetadataView::fresh(pid),
    {
        AsyncChannel { metadata: ChannelMetadata::new(pid) }
    }

    /// What to do for a buffer that is to be written. Where handles wait to be sent, they go along.
    pub fn poll_write(&mut self, table: &mut HandleTable) -> (r: PollWrite)
        requires
            old(table)@.well_formed(),
            old(table)@.has_room(old(self).metadata@.to_send.len() as int),
        ensures
            final(table)@.well_formed(),
            final(table)@ == claimed(old(table)@, old(self).metadata@.to_send).1,
            final(self).metadata@ == old(self).metadata@.drained(old(table)@),
            ({
                let sent = batch(claimed(old(table)@, old(self).metadata@.to_send).0);
                if sent.len() > 0 {
                    r matches PollWrite::Send { fds, handles } && handle_views(handles@) == sent
                        && fds@ == raw_fds(final(table)@, sent)
                } else {
                    r is Write
                }
            }),
    {
        let handles = self.metadata.drain_to_send(table);
        assert(handle_views(handles@).len() == handles@.len());
        if handles.len() > 0 {
            let mut fds: Vec<RawFd> = Vec::new();
            for i in 0..handles.len()
                invariant
                    fds@ == raw_fds(table@, handle_views(handles@)).take(i as int),
            {
                fds.push(handles[i].as_raw_fd(table));
                assert(fds@ =~= raw_fds(table@, handle_views(handles@)).take(i + 1));
            }
            assert(fds@ =~= raw_fds(table@, handle_views(handles@)));
            PollWrite::Send { fds, handles }
        } else {
            PollWrite::Write
        }
    }

    /// What to answer after an attempt to send a buffer with the descriptors of some handles.
    pub fn finish_send(
        &mut self,
        handles: Vec<PlatformHandle>,
        event: SendEvent,
        table: &mut HandleTable,
    ) -> (r: SendAnswer)
        requires
            old(table)@.well_formed(),
        ensures
            final(table)@.well_formed(),
            (final(self).metadata@, final(table)@, r) == after_send(
                old(self).metadata@,
                old(table)@,
                handle_views(handles@),
                event,
            ),
    {
        match event {
            SendEvent::Sent(sent) => {
                self.metadata.defer_close_handles(handles, table);
                SendAnswer::Ready(sent)
            },
            SendEvent::WouldBlock => {
                self.metadata.reenqueue_for_sending(handles);
                SendAnswer::PollReady
            },
            SendEvent::Failed => {
                release_all(handles, table);
                SendAnswer::Failed
            },
        }
    }

    /// What to answer after an attempt to read a buffer. Descriptors that came are noted.
    pub fn poll_read(&mut self, event: ReceiveEvent) -> (r: ReceiveAnswer)
        ensures
            match event {
                ReceiveEvent::Received { bytes, fds } => {
                    &&& r == ReceiveAnswer::Ready(bytes)
                    &&& final(self).metadata@ == (MetadataView {
                        received: old(self).metadata@.received + fds@,
                        ..old(self).metadata@
                    })
                },
                ReceiveEvent::WouldBlock => r == ReceiveAnswer::PollReady && final(self).metadata@
                    == old(self).metadata@,
                ReceiveEvent::Failed => r == ReceiveAnswer::Failed && final(self).metadata@
                    == old(self).metadata@,
            },
    {
        match event {
            ReceiveEvent::Received { bytes, fds } => {
                self.metadata.receive_fds(fds.as_slice());
                ReceiveAnswer::Ready(bytes)
            },
            ReceiveEvent::WouldBlock => ReceiveAnswer::PollReady,
            ReceiveEvent::Failed => ReceiveAnswer::Failed,
        }
    }
}

/// What becomes of an attempt to send: handles whose bytes went out are kept until their receipt is
/// told. Where the socket was not ready they wait again, before the others, and nothing else
/// changes. Those of a failed attempt are dropped, and none of them waits again.
pub proof fn attempt_settles_its_handles(
    v: MetadataView,
    t: TableView,
    handles: Seq<HandleView>,
    n: usize,
)
    ensures
        ({
            let (after, t1, answer) = after_send(v, t, handles, SendEvent::Sent(n));
            &&& answer == SendAnswer::Ready(n)
            &&& after.to_send == v.to_send
            &&& (after.to_close, t1) == deferred(v.to_close, t, handles)
            &&& after == (MetadataView { to_close: after.to_close, ..v })
        }),
        ({
            let (after, t1, answer) = after_send(v, t, handles, SendEvent::WouldBlock);
            &&& answer == SendAnswer::PollReady
            &&& after == (MetadataView { to_send: handles + v.to_send, ..v })
            &&& t1 == t
        }),
        ({
            let (after, t1, answer) = after_send(v, t, handles, SendEvent::Failed);
            &&& answer == SendAnswer::Failed
            &&& after == v
            &&& t1 == released_all(t, handles)
        }),
{
}

} // verus!
