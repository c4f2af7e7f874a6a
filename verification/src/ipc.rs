//! What a process tells the sidecar, and what the sidecar does then.
use vstd::prelude::*;

use crate::handle_error::HandleError;
use crate::handle_table::{HandleTable, HandleView, RawFd};
use crate::rpc::{ClientMessage, IdsView, RequestIds, UNIX_EPOCH};
use crate::trace_context::clone_opt;
use crate::trace_events::{Event, EventView, SpanFinished, SpanFinishedView, SpanStart, SpanStartView};
use crate::typed::blocking::{is_call, wrapping, BlockingTransport};
use crate::typed::channel::{Channel, UnixStream};
use crate::typed::handle::{unwrapped, PlatformHandle};
use crate::typed::metadata::{shared_all, Message, MetadataView, Pid};
use crate::typed::transfer::{HandlesTransport, TransferHandles};

verus! {

/// That a process crashed.
#[derive(Debug)]
pub struct SegfaultNotification {
    /// What is known of the crash.
    pub text: String,
}

/// Whether a call is answered.
#[derive(Debug, Clone, Copy, PartialEq, Eq, Structural)]
pub enum Reply {
    /// It is answered at once.
    Ready,
    /// It is never answered.
    Pending,
}

/// A span that has begun, and whose end is waited for.
#[derive(Debug)]
pub struct SpanWatch {
    /// A socket whose other end is closed when the span ends.
    pub socket: PlatformHandle<UnixStream>,
    /// When the span began, in nanoseconds since the epoch.
    pub started_at: u64,
    /// What is told when the span has ended, but for the time.
    pub span_finished: SpanFinished,
}

/// What is to be done when a span has begun.
#[derive(Debug)]
pub struct SpanStarted {
    /// What is told of it.
    pub event: Event,
    /// What is waited for, if the end of the span can be seen.
    pub watch: Option<SpanWatch>,
    pub reply: Reply,
}

/// What a process can tell the sidecar.
pub trait SidecarInterface: Sized {
    /// That the process is there.
    fn notify(&self) -> (r: Reply)
        ensures
            r == Reply::Ready,
    ;

    /// That a span began.
    fn span_started(&self, msg: SpanStart) -> (r: SpanStarted)
        ensures
            r.reply == Reply::Pending,
            r.event@ == EventView::StartSpan(
                SpanStartView { span_end_socket: None, ..msg@ },
            ),
            r.event matches Event::StartSpan(start) && start.meta == msg.meta,
            match msg@.span_end_socket {
                Some(socket) => {
                    &&& r.watch matches Some(watch)
                    &&& watch.socket@ == socket
                    &&& watch.started_at == msg@.time
                    &&& watch.span_finished@ == not_finished(msg@)
                },
                None => r.watch is None,
            },
    ;

    /// That the process crashed.
    fn segfault(&self, msg: &SegfaultNotification) -> (r: Reply)
        ensures
            r == Reply::Pending,
    ;
}

/// What is told when a span has ended, but for the time.
pub open spec fn not_finished(start: SpanStartView) -> SpanFinishedView {
    SpanFinishedView {
        id: start.id,
        trace_id: start.trace_id,
        parent_span_id: start.parent_id,
        duration: 0,
        time: 0,
    }
}

/// What is told when a span has ended. A clock that went back is forgiven.
pub open spec fn finished_at(template: SpanFinishedView, started_at: u64, now: u64) -> SpanFinishedView {
    SpanFinishedView {
        time: now,
        duration: if now >= started_at {
            (now - started_at) as u64
        } else {
            0
        },
        ..template
    }
}

/// The sidecar.
#[derive(Debug, Clone, Copy)]
pub struct SidecarServer {}

impl SidecarServer {
    /// The sidecar.
    pub fn new() -> (r: Self) {
        SidecarServer {  }
    }
}

impl SidecarInterface for SidecarServer {
    fn notify(&self) -> (r: Reply) {
        Reply::Ready
    }

    fn span_started(&self, msg: SpanStart) -> (r: SpanStarted) {
        let mut msg = msg;
        let span_finished_template = SpanFinished {
            id: msg.id.clone(),
            trace_id: msg.trace_id.clone(),
            parent_span_id: clone_opt(&msg.parent_id),
            duration: 0,
            time: 0,
        };
        let socket = msg.span_end_socket.take();
        let started_at: u64 = msg.time;
        let watch = match socket {
            Some(socket) => Some(
                SpanWatch { socket, started_at, span_finished: span_finished_template },
            ),
            None => None,
        };
        SpanStarted { event: Event::StartSpan(Box::new(msg)), watch, reply: Reply::Pending }
    }

    fn segfault(&self, msg: &SegfaultNotification) -> (r: Reply) {
        Reply::Pending
    }
}

impl SpanWatch {
    /// The socket to wait for. It is no longer closed by the handle.
    pub fn open_socket(self, table: &mut HandleTable) -> (r: Result<
        (RawFd, u64, SpanFinished),
        HandleError,
    >)
        requires
            old(table)@.well_formed(),
        ensures
            final(table)@.well_formed(),
            final(table)@ == old(table)@.without_ref(self.socket@.cell),
            match unwrapped(old(table)@.cell(self.socket@.cell)) {
                Ok(inner) => r == Ok::<(RawFd, u64, SpanFinished), HandleError>(
                    (inner.fd, self.started_at, self.span_finished),
                ),
                Err(e) => r == Err::<(RawFd, u64, SpanFinished), HandleError>(e),
            },
    {
        match self.socket.try_unwrap_into(table) {
            Ok(fd) => Ok((fd, self.started_at, self.span_finished)),
            Err(e) => Err(e),
        }
    }
}

/// What is told of a span that has ended. `now` is given in nanoseconds since the epoch, of which
/// the lower sixty-four bits count.
pub fn finalize_span(span_finished: SpanFinished, started_at: u64, now: u128) -> (r: Event)
    ensures
        r@ == EventView::SpanFinished(finished_at(span_finished@, started_at, now as u64)),
{
    let mut span_finished = span_finished;
    span_finished.time = now as u64;
    span_finished.duration = match (now as u64).checked_sub(started_at) {
        Some(duration) => duration,
        None => 0,
    };
    Event::SpanFinished(span_finished)
}

/// A call to the sidecar.
#[derive(Debug)]
#[allow(inconsistent_fields)]
pub enum SidecarInterfaceRequest {
    Notify,
    SpanStarted { msg: SpanStart },
    Segfault { msg: SegfaultNotification },
}

/// An answer of the sidecar.
#[derive(Debug)]
pub enum SidecarInterfaceResponse {
    Notify,
    SpanStarted,
    Segfault,
}

impl TransferHandles for SidecarInterfaceResponse {
    open spec fn handles(&self) -> Seq<HandleView> {
        Seq::empty()
    }

    open spec fn like(&self, other: &Self) -> bool {
        self == other
    }

    fn move_handles<M: HandlesTransport>(&self, transport: &mut M, table: &mut HandleTable) -> (r:
        Result<(), M::Error>) {
        Ok(())
    }

    fn receive_handles<P: HandlesTransport>(
        &mut self,
        transport: &mut P,
        table: &mut HandleTable,
    ) -> (r: Result<(), P::Error>) {
        Ok(())
    }

    fn release_handles(self, table: &mut HandleTable) {
    }
}

impl TransferHandles for SidecarInterfaceRequest {
    open spec fn handles(&self) -> Seq<HandleView> {
        match self {
            SidecarInterfaceRequest::SpanStarted { msg } => msg.handles(),
            _ => Seq::empty(),
        }
    }

    open spec fn like(&self, other: &Self) -> bool {
        match (self, other) {
            (
                SidecarInterfaceRequest::SpanStarted { msg: a },
                SidecarInterfaceRequest::SpanStarted { msg: b },
            ) => a.like(b),
            _ => self == other,
        }
    }

    fn move_handles<M: HandlesTransport>(&self, transport: &mut M, table: &mut HandleTable) -> (r:
        Result<(), M::Error>) {
        match self {
            SidecarInterfaceRequest::SpanStarted { msg } => msg.move_handles(transport, table),
            _ => Ok(()),
        }
    }

    fn receive_handles<P: HandlesTransport>(
        &mut self,
        transport: &mut P,
        table: &mut HandleTable,
    ) -> (r: Result<(), P::Error>) {
        match self {
            SidecarInterfaceRequest::SpanStarted { msg } => msg.receive_handles(transport, table),
            _ => Ok(()),
        }
    }

    fn release_handles(self, table: &mut HandleTable) {
        match self {
            SidecarInterfaceRequest::SpanStarted { msg } => msg.release_handles(table),
            _ => {},
        }
    }
}

/// The way to the sidecar.
#[derive(Debug)]
pub struct SidecarTransport {
    pub transport: BlockingTransport<SidecarInterfaceResponse, SidecarInterfaceRequest>,
}

impl SidecarTransport {
    /// The way to the sidecar over a socket, in the process `pid`.
    pub fn new(socket: RawFd, pid: Pid, ids: &mut RequestIds, table: &mut HandleTable) -> (r: Self)
        requires
            old(table)@.well_formed(),
            old(table)@.has_room(1),
            old(ids)@.well_formed(),
            old(ids)@.next < u64::MAX,
        ensures
            r.transport.requests_id == old(ids)@.next,
            final(ids)@ == (IdsView { next: (old(ids)@.next + 1) as u64, ..old(ids)@ }),
            final(ids)@.well_formed(),
            final(ids)@.at(r.transport.requests_id) == 0,
            final(table)@.well_formed(),
            final(table)@ == old(table)@.with_cell(socket),
            r.transport.channel.inner@ == (HandleView { fd: socket, cell: old(table)@.next }),
            r.transport.channel.metadata@ == MetadataView::fresh(pid),
            r.transport.pid == pid,
            r.transport.codec.awaiting == None::<usize>,
            r.transport.codec.well_formed(),
    {
        let channel = Channel::from(PlatformHandle::own(socket, table), pid);
        SidecarTransport { transport: BlockingTransport::from(channel, pid, ids) }
    }

    /// Wraps the call that tells the sidecar that a span began. The answer is not waited for.
    pub fn span_started(
        &mut self,
        span_start: SpanStart,
        ids: &mut RequestIds,
        table: &mut HandleTable,
    ) -> (r: Result<Message<ClientMessage<SidecarInterfaceRequest>>, HandleError>)
        requires
            old(table)@.well_formed(),
        ensures
            final(table)@.well_formed(),
            final(ids)@ == old(ids)@.counted(old(self).transport.requests_id),
            final(self).transport.codec == old(self).transport.codec,
            final(self).transport.pid == old(self).transport.pid,
            final(self).transport.requests_id == old(self).transport.requests_id,
            final(self).transport.channel.inner == old(self).transport.channel.inner,
            final(self).transport.channel.metadata@ == wrapping(
                old(self).transport.channel.metadata@,
                span_start,
            ),
            final(table)@ == shared_all(old(table)@, span_start.handles()),
            r matches Ok(message) && is_call(
                message.item,
                old(ids)@.at(old(self).transport.requests_id),
                SidecarInterfaceRequest::SpanStarted { msg: span_start },
                Some(UNIX_EPOCH),
            ) && message.acked_handles@ == old(self).transport.channel.metadata@.acked
                && message.pid == old(self).transport.channel.metadata@.pid,
    {
        self.transport.send_ignore_response(
            SidecarInterfaceRequest::SpanStarted { msg: span_start },
            ids,
            table,
        )
    }
}

/// The end of a span is told of the span and the trace whose beginning was told, and its duration
/// is the time between the two, as long as the clock did not go back.
pub proof fn end_matches_beginning(start: SpanStartView, now: u64)
    ensures
        ({
            let finished = finished_at(not_finished(start), start.time, now);
            &&& finished.id == start.id
            &&& finished.trace_id == start.trace_id
            &&& finished.parent_span_id == start.parent_id
            &&& now >= start.time ==> start.time + finished.duration == finished.time
        }),
{
}

/// The end of a span is told with the time at which it was seen. A clock that went back gives no
/// duration. Before the end is seen, neither is known.
pub proof fn end_is_told_with_its_time(start: SpanStartView, now: u64)
    ensures
        finished_at(not_finished(start), start.time, now).time == now,
        now >= start.time ==> finished_at(not_finished(start), start.time, now).duration == now
            - start.time,
        now < start.time ==> finished_at(not_finished(start), start.time, now).duration == 0,
        not_finished(start).duration == 0,
        not_finished(start).time == 0,
{
}

/// The socket of a span travels with the word that it began, and with nothing else.
pub proof fn requests_carry_the_socket(start: SpanStart, text: SegfaultNotification)
    ensures
        start.span_end_socket matches Some(socket) ==> (SidecarInterfaceRequest::SpanStarted {
            msg: start,
        }).handles() == seq![socket@],
        start.span_end_socket is None ==> (SidecarInterfaceRequest::SpanStarted {
            msg: start,
        }).handles() == Seq::<HandleView>::empty(),
        SidecarInterfaceRequest::Notify.handles() == Seq::<HandleView>::empty(),
        (SidecarInterfaceRequest::Segfault { msg: text }).handles() == Seq::<HandleView>::empty(),
        SidecarInterfaceResponse::SpanStarted.handles() == Seq::<HandleView>::empty(),
{
}

} // verus!
