//! The handles in what a client and a server say to each other.
use vstd::prelude::*;

use crate::handle_table::{HandleTable, HandleView};
use crate::rpc::{CallTrace, ClientMessage, Request, Response};
use crate::untyped::transfer::{HandlesTransport, TransferHandles};

verus! {

impl<T: TransferHandles> TransferHandles for Response<T> {
    open spec fn handles(&self) -> Seq<HandleView> {
        self.message.handles()
    }

    open spec fn like(&self, other: &Self) -> bool {
        self.request_id == other.request_id && self.message.like(&other.message)
    }

    fn move_handles<M: HandlesTransport>(&self, transport: &mut M, table: &mut HandleTable) -> (r:
        Result<(), M::Error>) {
        self.message.move_handles(transport, table)
    }

    fn receive_handles<P: HandlesTransport>(
        &mut self,
        transport: &mut P,
        table: &mut HandleTable,
    ) -> (r: Result<(), P::Error>) {
        self.message.receive_handles(transport, table)
    }

    fn release_handles(self, table: &mut HandleTable) {
        self.message.release_handles(table);
    }
}

impl<T: TransferHandles> TransferHandles for Request<T> {
    open spec fn handles(&self) -> Seq<HandleView> {
        self.message.handles()
    }

    open spec fn like(&self, other: &Self) -> bool {
        self.context == other.context && self.id == other.id && self.message.like(&other.message)
    }

    fn move_handles<M: HandlesTransport>(&self, transport: &mut M, table: &mut HandleTable) -> (r:
        Result<(), M::Error>) {
        self.message.move_handles(transport, table)
    }

    fn receive_handles<P: HandlesTransport>(
        &mut self,
        transport: &mut P,
        table: &mut HandleTable,
    ) -> (r: Result<(), P::Error>) {
        self.message.receive_handles(transport, table)
    }

    fn release_handles(self, table: &mut HandleTable) {
        self.message.release_handles(table);
    }
}

impl<T: TransferHandles> TransferHandles for ClientMessage<T> {
    open spec fn handles(&self) -> Seq<HandleView> {
        match self {
            ClientMessage::Request(request) => request.handles(),
            ClientMessage::Cancel { .. } => Seq::empty(),
        }
    }

    open spec fn like(&self, other: &Self) -> bool {
        match (self, other) {
            (ClientMessage::Request(a), ClientMessage::Request(b)) => a.like(b),
            _ => self == other,
        }
    }

    fn move_handles<M: HandlesTransport>(&self, transport: &mut M, table: &mut HandleTable) -> (r:
        Result<(), M::Error>) {
        match self {
            ClientMessage::Request(request) => request.move_handles(transport, table),
            ClientMessage::Cancel { .. } => Ok(()),
        }
    }

    fn receive_handles<P: HandlesTransport>(
        &mut self,
        transport: &mut P,
        table: &mut HandleTable,
    ) -> (r: Result<(), P::Error>) {
        match self {
            ClientMessage::Request(request) => request.receive_handles(transport, table),
            ClientMessage::Cancel { .. } => Ok(()),
        }
    }

    fn release_handles(self, table: &mut HandleTable) {
        match self {
            ClientMessage::Request(request) => request.release_handles(table),
            ClientMessage::Cancel { .. } => {},
        }
    }
}

/// Which handles travel with what a client and a server say: those of what is asked and of what is
/// answered. None travel with an error, or with the word that a call is of no interest.
pub proof fn calls_carry_their_handles<T: TransferHandles>(
    request: Request<T>,
    response: Response<T>,
    trace_context: CallTrace,
    request_id: u64,
)
    ensures
        request.handles() == request.message.handles(),
        ClientMessage::Request(request).handles() == request.message.handles(),
        (ClientMessage::<T>::Cancel { trace_context, request_id }).handles() == Seq::<
            HandleView,
        >::empty(),
        response.message matches Ok(item) ==> response.handles() == item.handles(),
        response.message is Err ==> response.handles() == Seq::<HandleView>::empty(),
{
}

} // verus!
