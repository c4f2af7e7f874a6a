//! Calls over a channel, one at a time.
use std::marker::PhantomData;

use vstd::prelude::*;

use crate::frame::{awaited, frame, from_head, unframed, FrameError, FramedBlocking};
use crate::frame::MAX_FRAME_LEN;
use crate::handle_error::HandleError;
use crate::handle_table::{HandleTable, RawFd};
use crate::rpc::{client_message_in, current_context, IdsView};
use crate::rpc::{ClientMessage, Nanos, Request, RequestIds, Response, UNIX_EPOCH};
use crate::typed::channel::{next_write, Channel, WriteAction, WriteAll, WriteView, Writing};
use crate::typed::handle::valid_fd;
use crate::typed::metadata::{settled, shared_all, ChannelMetadata, Message, MetadataView, Pid};
use crate::typed::transfer::{provided_all, released_all, TransferHandles};

verus! {

/// Why a call could not be sent.
#[derive(Debug, Clone, Copy, PartialEq, Eq, Structural)]
pub enum SendError {
    /// It is too long.
    Frame(FrameError),
    /// The channel has no socket.
    Handle(HandleError),
}

/// What to do next to receive an answer.
#[derive(Debug)]
pub enum ReceiveAction {
    /// Read more bytes.
    Read,
    /// Read a message from these data.
    Deserialize(Vec<u8>),
    /// Fail, for the frame was refused.
    Refused(FrameError),
    /// Fail, for the answer does not fit into memory.
    Incomplete,
}

/// A channel that calls are made over. Their answers are of kind `IncomingItem`, and what they ask
/// is of kind `OutgoingItem`.
#[derive(Debug)]
pub struct BlockingTransport<IncomingItem, OutgoingItem> {
    pub channel: Channel,
    pub pid: Pid,
    /// The counter that numbers the calls.
    pub requests_id: u64,
    pub codec: FramedBlocking,
    pub phantom: PhantomData<(IncomingItem, OutgoingItem)>,
}

impl<IncomingItem: TransferHandles, OutgoingItem: TransferHandles> BlockingTransport<
    IncomingItem,
    OutgoingItem,
> {
    /// The transport over a channel, in the process `pid`. Its calls are numbered from zero on.
    pub fn from(channel: Channel, pid: Pid, ids: &mut RequestIds) -> (r: Self)
        requires
            old(ids)@.well_formed(),
            old(ids)@.next < u64::MAX,
        ensures
            r.channel == channel,
            r.pid == pid,
            r.requests_id == old(ids)@.next,
            final(ids)@ == (IdsView { next: (old(ids)@.next + 1) as u64, ..old(ids)@ }),
            final(ids)@.well_formed(),
            final(ids)@.at(r.requests_id) == 0,
            r.codec.awaiting == None::<usize>,
            r.codec.well_formed(),
    {
        BlockingTransport {
            channel,
            pid,
            requests_id: ids.add_counter(),
            codec: FramedBlocking::default(),
            phantom: PhantomData,
        }
    }

    /// Another transport over the same socket. Its calls are numbered together with those of this
    /// one.
    pub fn share(&self, pid: Pid, table: &mut HandleTable) -> (r: Self)
        requires
            old(table)@.well_formed(),
        ensures
            final(table)@.well_formed(),
            final(table)@ == old(table)@.with_ref(self.channel.inner@.cell),
            r.channel.inner@ == self.channel.inner@,
            r.channel.metadata@ == MetadataView::fresh(pid),
            r.pid == self.pid,
            r.requests_id == self.requests_id,
            r.codec == self.codec,
    {
        BlockingTransport {
            channel: self.channel.share(pid, table),
            pid: self.pid,
            requests_id: self.requests_id,
            codec: self.codec,
            phantom: PhantomData,
        }
    }

    /// A call that is made now. Its context is that of the call that is being served, if there is
    /// one.
    pub fn new_client_message(
        &self,
        item: OutgoingItem,
        deadline: Option<Nanos>,
        ids: &mut RequestIds,
    ) -> (r: ClientMessage<OutgoingItem>)
        ensures
            final(ids)@ == old(ids)@.counted(self.requests_id),
            is_call(r, old(ids)@.at(self.requests_id), item, deadline),
    {
        let context = current_context();
        client_message_in(context, item, deadline, self.requests_id, ids)
    }

    /// Wraps a call whose answer is of no interest: its deadline has passed long ago.
    pub fn send_ignore_response(
        &mut self,
        item: OutgoingItem,
        ids: &mut RequestIds,
        table: &mut HandleTable,
    ) -> (r: Result<Message<ClientMessage<OutgoingItem>>, HandleError>)
        requires
            old(table)@.well_formed(),
        ensures
            final(table)@.well_formed(),
            final(ids)@ == old(ids)@.counted(old(self).requests_id),
            final(self).codec == old(self).codec,
            final(self).pid == old(self).pid,
            final(self).requests_id == old(self).requests_id,
            final(self).channel.inner == old(self).channel.inner,
            final(self).channel.metadata@ == wrapping(old(self).channel.metadata@, item),
            final(table)@ == shared_all(old(table)@, item.handles()),
            r matches Ok(message) && is_call(
                message.item,
                old(ids)@.at(old(self).requests_id),
                item,
                Some(UNIX_EPOCH),
            ) && message.acked_handles@ == old(self).channel.metadata@.acked && message.pid
                == old(self).channel.metadata@.pid,
    {
        let request = self.new_client_message(item, Some(UNIX_EPOCH), ids);
        self.channel.metadata.create_message(request, table)
    }

    /// Wraps a call.
    pub fn send(&mut self, item: OutgoingItem, ids: &mut RequestIds, table: &mut HandleTable) -> (r:
        Result<Message<ClientMessage<OutgoingItem>>, HandleError>)
        requires
            old(table)@.well_formed(),
        ensures
            final(table)@.well_formed(),
            final(ids)@ == old(ids)@.counted(old(self).requests_id),
            final(self).codec == old(self).codec,
            final(self).pid == old(self).pid,
            final(self).requests_id == old(self).requests_id,
            final(self).channel.inner == old(self).channel.inner,
            final(self).channel.metadata@ == wrapping(old(self).channel.metadata@, item),
            final(table)@ == shared_all(old(table)@, item.handles()),
            r matches Ok(message) && is_call(
                message.item,
                old(ids)@.at(old(self).requests_id),
                item,
                None,
            ) && message.acked_handles@ == old(self).channel.metadata@.acked && message.pid
                == old(self).channel.metadata@.pid,
    {
        let request = self.new_client_message(item, None, ids);
        self.channel.metadata.create_message(request, table)
    }

    /// Begins to write a message, given its bytes. Gives the frame to write, and what to do first.
    pub fn do_send(&mut self, data: &[u8], table: &mut HandleTable) -> (r: Result<
        (Vec<u8>, WriteAll, WriteAction),
        SendError,
    >)
        requires
            old(table)@.well_formed(),
        ensures
            final(table)@.well_formed(),
            final(self).codec == old(self).codec,
            final(self).pid == old(self).pid,
            final(self).requests_id == old(self).requests_id,
            final(self).channel.inner == old(self).channel.inner,
            if data@.len() > MAX_FRAME_LEN {
                &&& r matches Err(e) && e == SendError::Frame(FrameError::TooLongToSend)
                &&& final(self).channel.metadata@ == old(self).channel.metadata@
                &&& final(table)@ == old(table)@
            } else if !valid_fd(old(self).channel.inner@.raw_fd(old(table)@)) {
                &&& r matches Err(e) && e == SendError::Handle(
                    HandleError::Unowned { fd: old(self).channel.inner@.raw_fd(old(table)@) },
                )
                &&& final(self).channel.metadata@ == old(self).channel.metadata@
                &&& final(table)@ == old(table)@
            } else {
                &&& r matches Ok((buf, write, action))
                &&& buf@ == frame(data@)
                &&& (final(self).channel.writing(&write, final(table)), action@) == next_write(
                    Writing {
                        metadata: old(self).channel.metadata@,
                        table: old(table)@,
                        write: WriteView {
                            offset: 0,
                            len: buf@.len() as int,
                            carrying: true,
                            handles: Seq::empty(),
                        },
                    },
                )
            },
    {
        let mut buf: Vec<u8> = Vec::new();
        match self.codec.encode(data, &mut buf) {
            Ok(_) => {},
            Err(e) => {
                return Err(SendError::Frame(e));
            },
        }
        assert(buf@ =~= frame(data@));
        match self.channel.write_all(buf.len(), table) {
            Ok((write, action)) => Ok((buf, write, action)),
            Err(e) => Err(SendError::Handle(e)),
        }
    }

    /// What to do next to receive an answer, given the bytes that came and were not used yet.
    pub fn receive_response(&mut self, buf: &mut Vec<u8>) -> (r: ReceiveAction)
        requires
            old(self).codec.well_formed(),
        ensures
            final(self).codec.well_formed(),
            final(self).pid == old(self).pid,
            final(self).requests_id == old(self).requests_id,
            final(self).channel == old(self).channel,
            ({
                let bytes = from_head(old(self).codec.awaiting, old(buf)@);
                let (found, rest) = unframed(bytes);
                if old(buf)@.len() == usize::MAX {
                    &&& r is Incomplete
                    &&& final(buf)@ == old(buf)@
                    &&& final(self).codec == old(self).codec
                } else {
                    &&& final(buf)@ == rest
                    &&& final(self).codec.awaiting == awaited(bytes)
                    &&& match found {
                        Ok(Some(data)) => r matches ReceiveAction::Deserialize(d) && d@ == data,
                        Ok(None) => r is Read,
                        Err(e) => r matches ReceiveAction::Refused(f) && f == e,
                    }
                }
            }),
    {
        if buf.len() == usize::MAX {
            return ReceiveAction::Incomplete;
        }
        match self.codec.decode(buf) {
            Ok(Some(data)) => ReceiveAction::Deserialize(data),
            Ok(None) => ReceiveAction::Read,
            Err(e) => ReceiveAction::Refused(e),
        }
    }

    /// Notes what a read brought, some bytes and some descriptors.
    pub fn finish_read(&mut self, buf: &mut Vec<u8>, bytes: &[u8], fds: &[RawFd])
        ensures
            final(self).codec == old(self).codec,
            final(self).pid == old(self).pid,
            final(self).requests_id == old(self).requests_id,
            final(self).channel.inner == old(self).channel.inner,
            final(self).channel.metadata@ == (MetadataView {
                received: old(self).channel.metadata@.received + fds@,
                ..old(self).channel.metadata@
            }),
            final(buf)@ == old(buf)@ + bytes@,
    {
        self.channel.finish_read(bytes.len(), fds);
        buf.extend_from_slice(bytes);
        assert(buf@ =~= old(buf)@ + bytes@);
    }

    /// Takes the answer out of the message that came.
    pub fn finish_response(
        &mut self,
        message: Message<Response<IncomingItem>>,
        table: &mut HandleTable,
    ) -> (r: Result<Response<IncomingItem>, HandleError>)
        requires
            old(table)@.well_formed(),
            old(table)@.has_room(message.item.handles().len() as int),
        ensures
            final(table)@.well_formed(),
            final(self).codec == old(self).codec,
            final(self).pid == old(self).pid,
            final(self).requests_id == old(self).requests_id,
            final(self).channel.inner == old(self).channel.inner,
            ({
                let (v, t) = settled(
                    old(self).channel.metadata@,
                    old(table)@,
                    message.acked_handles@,
                    message.pid,
                );
                let (after, t1, handles, result) = provided_all::<ChannelMetadata>(
                    v,
                    t,
                    message.item.handles(),
                );
                &&& final(self).channel.metadata@ == after
                &&& match result {
                    Ok(_) => {
                        &&& r matches Ok(item) && item.like(&message.item) && item.handles()
                            == handles
                        &&& final(table)@ == t1
                    },
                    Err(e) => {
                        &&& r matches Err(f) && f == e
                        &&& final(table)@ == released_all(t1, handles)
                    },
                }
            }),
    {
        self.channel.metadata.unwrap_message(message, table)
    }
}

/// Whether a message is the call with the number `id` that asks `item`, with the deadline that was
/// given, if any.
pub open spec fn is_call<T>(
    message: ClientMessage<T>,
    id: u64,
    item: T,
    deadline: Option<Nanos>,
) -> bool {
    &&& message matches ClientMessage::Request(request)
    &&& request.id == id
    &&& request.message == item
    &&& deadline matches Some(deadline) ==> request.context.deadline == deadline
}

/// The metadata of a channel once an item was wrapped.
pub open spec fn wrapping<T: TransferHandles>(v: MetadataView, item: T) -> MetadataView {
    MetadataView { to_send: v.to_send + item.handles(), acked: Seq::empty(), ..v }
}

/// A call asks what it was made for, under its number, and has the deadline that was given.
pub proof fn call_asks_its_item<T>(
    message: ClientMessage<T>,
    id: u64,
    item: T,
    deadline: Option<Nanos>,
)
    requires
        is_call(message, id, item, deadline),
    ensures
        message is Request,
        message->Request_0.id == id,
        message->Request_0.message == item,
        deadline is Some ==> message->Request_0.context.deadline == deadline->0,
{
}

/// The handles of an item that is wrapped wait behind the others, and what was received so far is
/// told with it, once.
pub proof fn wrapped_item_sends_its_handles<T: TransferHandles>(v: MetadataView, item: T)
    ensures
        wrapping(v, item).to_send == v.to_send + item.handles(),
        wrapping(v, item).acked == Seq::<RawFd>::empty(),
        wrapping(v, item).received == v.received,
        wrapping(v, item).to_close == v.to_close,
        wrapping(v, item).pid == v.pid,
{
}

} // verus!
