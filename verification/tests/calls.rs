use sidecar::frame::{FrameError, FramedBlocking, MAX_FRAME_LEN};
use sidecar::handle_error::HandleError;
use sidecar::handle_table::HandleTable;
use sidecar::id::Id;
use sidecar::ipc::{
    finalize_span, Reply, SegfaultNotification, SidecarInterface, SidecarInterfaceRequest,
    SidecarInterfaceResponse, SidecarServer, SidecarTransport,
};
use sidecar::rpc::{client_message_in, CallTrace, ClientMessage, Context, RequestIds, Response};
use sidecar::trace_context::TraceContext;
use sidecar::trace_events::{Event, SpanFinished, SpanStart};
use sidecar::typed::blocking::{BlockingTransport, ReceiveAction, SendError};
use sidecar::typed::channel::{Channel, WriteAction};
use sidecar::typed::handle::PlatformHandle;
use sidecar::typed::metadata::Message;
use sidecar::typed::transfer::TransferHandles;

type Transport = BlockingTransport<SidecarInterfaceResponse, SidecarInterfaceRequest>;

fn span_start(table: &mut HandleTable) -> SpanStart {
    let mut cmd = sidecar::exec_vec::ExecVec::<4>::empty();
    let context = TraceContext {
        trace_id: Id::Numeric(1),
        span_id: Id::Numeric(2),
        parent_span_id: Some(Id::Numeric(3)),
    };
    let socket = PlatformHandle::own(50, table);
    context.span_start(&cmd.as_clist(), 1000, 1, None, Some(socket))
}

#[test]
fn frames_begin_with_their_length() {
    let mut codec = FramedBlocking::default();
    let mut dst = vec![9];
    codec.encode(&[1, 2, 3], &mut dst).unwrap();
    assert_eq!(dst, vec![9, 0, 0, 0, 3, 1, 2, 3]);
    let mut long = vec![];
    codec.encode(&vec![7; 0x1_0203], &mut long).unwrap();
    assert_eq!(&long[..5], &[0, 1, 2, 3, 7]);
    assert_eq!(long.len(), 0x1_0203 + 4);
}

#[test]
fn frames_are_taken_apart() {
    let mut codec = FramedBlocking::default();
    let mut bytes = vec![];
    codec.encode(b"hello", &mut bytes).unwrap();
    codec.encode(b"", &mut bytes).unwrap();
    bytes.push(0);
    assert_eq!(codec.decode(&mut bytes), Ok(Some(b"hello".to_vec())));
    assert_eq!(codec.decode(&mut bytes), Ok(Some(vec![])));
    assert_eq!(codec.decode(&mut bytes), Ok(None));
    assert_eq!(bytes, vec![0]);
}

#[test]
fn frames_come_byte_by_byte() {
    let mut encoder = FramedBlocking::default();
    let mut bytes = vec![];
    encoder.encode(b"abc", &mut bytes).unwrap();
    let mut codec = FramedBlocking::default();
    let mut src = vec![];
    for (i, byte) in bytes.iter().enumerate() {
        assert_eq!(codec.decode(&mut src), Ok(None));
        assert_eq!(codec.awaiting.is_some(), i >= 4);
        src.push(*byte);
    }
    assert_eq!(codec.decode(&mut src), Ok(Some(b"abc".to_vec())));
    assert_eq!(codec.awaiting, None);
}

#[test]
fn long_frames_are_refused() {
    let mut codec = FramedBlocking::default();
    let mut dst = vec![];
    let data = vec![0; MAX_FRAME_LEN + 1];
    assert_eq!(codec.encode(&data, &mut dst), Err(FrameError::TooLongToSend));
    assert_eq!(dst.len(), 0);
    assert!(codec.encode(&data[1..], &mut dst).is_ok());
    let mut src = vec![0, 0x80, 0, 1];
    assert_eq!(codec.decode(&mut src), Err(FrameError::TooLongToReceive));
    assert_eq!(src.len(), 4);
}

#[test]
fn calls_are_numbered() {
    let mut ids = RequestIds::new();
    assert!(ids.can_add());
    let other = ids.add_counter();
    let counter = ids.add_counter();
    assert_eq!(ids.take(other), 0);
    let trace = CallTrace { trace_id: 1, span_id: 2, sampled: true };
    let context = Context { deadline: 77, trace_context: trace };
    for expected in 0..3 {
        match client_message_in(context, 'x', None, counter, &mut ids) {
            ClientMessage::Request(r) => {
                assert_eq!((r.id, r.message), (expected, 'x'));
                assert_eq!(r.context, context);
            }
            ClientMessage::Cancel { .. } => panic!("no call"),
        }
    }
    match client_message_in(context, 'x', Some(5), counter, &mut ids) {
        ClientMessage::Request(r) => {
            assert_eq!(r.context, Context { deadline: 5, trace_context: trace })
        }
        ClientMessage::Cancel { .. } => panic!("no call"),
    }
    assert_eq!((ids.take(counter), ids.take(other)), (4, 1));
}

#[test]
fn calls_have_a_deadline() {
    let mut table = HandleTable::new();
    let mut ids = RequestIds::new();
    let socket = PlatformHandle::own(3, &mut table);
    let transport: Transport = BlockingTransport::from(Channel::from(socket, 1), 1, &mut ids);
    let now = std::time::SystemTime::now()
        .duration_since(std::time::UNIX_EPOCH)
        .unwrap()
        .as_nanos();
    match transport.new_client_message(SidecarInterfaceRequest::Notify, None, &mut ids) {
        ClientMessage::Request(r) => assert!(r.context.deadline > now),
        ClientMessage::Cancel { .. } => panic!("no call"),
    }
}

#[test]
fn the_sidecar_is_told_that_a_span_began() {
    let mut table = HandleTable::new();
    let mut ids = RequestIds::new();
    let mut transport = SidecarTransport::new(3, 1, &mut ids, &mut table);
    let start = span_start(&mut table);
    let message = transport.span_started(start, &mut ids, &mut table).unwrap();
    assert_eq!(message.pid, 1);
    match &message.item {
        ClientMessage::Request(r) => {
            assert_eq!((r.id, r.context.deadline), (0, 0));
            assert!(matches!(&r.message, SidecarInterfaceRequest::SpanStarted { .. }));
        }
        ClientMessage::Cancel { .. } => panic!("no call"),
    }
    // the item goes out as bytes, and the descriptor along with them
    message.release_handles(&mut table);
    let (buf, _, action) = transport.transport.do_send(b"bytes", &mut table).unwrap();
    assert_eq!(buf, b"\0\0\0\x05bytes".to_vec());
    match action {
        WriteAction::Send { offset: 0, fds } => assert_eq!(fds, vec![50]),
        _ => panic!("the descriptor was lost"),
    }
}

#[test]
fn what_cannot_be_sent_is_refused() {
    let mut table = HandleTable::new();
    let mut ids = RequestIds::new();
    let socket = PlatformHandle::default(&mut table);
    let mut transport: Transport = BlockingTransport::from(Channel::from(socket, 1), 1, &mut ids);
    assert_eq!(
        transport.do_send(b"x", &mut table).unwrap_err(),
        SendError::Handle(HandleError::Unowned { fd: -1 })
    );
    assert_eq!(
        transport.do_send(&vec![0; MAX_FRAME_LEN + 1], &mut table).unwrap_err(),
        SendError::Frame(FrameError::TooLongToSend)
    );
}

#[test]
fn answers_are_received() {
    let mut table = HandleTable::new();
    let mut ids = RequestIds::new();
    let socket = PlatformHandle::own(3, &mut table);
    let mut transport: Transport = BlockingTransport::from(Channel::from(socket, 1), 1, &mut ids);
    let message = transport.send(SidecarInterfaceRequest::Notify, &mut ids, &mut table).unwrap();
    assert!(matches!(message.item, ClientMessage::Request(_)));
    let mut buf = vec![];
    assert!(matches!(transport.receive_response(&mut buf), ReceiveAction::Read));
    transport.finish_read(&mut buf, &[0, 0, 0, 2, b'o'], &[]);
    assert!(matches!(transport.receive_response(&mut buf), ReceiveAction::Read));
    transport.finish_read(&mut buf, b"k", &[]);
    match transport.receive_response(&mut buf) {
        ReceiveAction::Deserialize(data) => assert_eq!(data, b"ok".to_vec()),
        _ => panic!("the answer was lost"),
    }
    let response = Response { request_id: 0, message: Ok(SidecarInterfaceResponse::Notify) };
    let message = Message { item: response, acked_handles: vec![], pid: 2 };
    let response = transport.finish_response(message, &mut table).unwrap();
    assert_eq!(response.request_id, 0);
    transport.finish_read(&mut buf, &[0xff, 0xff, 0xff, 0xff], &[]);
    match transport.receive_response(&mut buf) {
        ReceiveAction::Refused(e) => assert_eq!(e, FrameError::TooLongToReceive),
        _ => panic!("the frame was taken"),
    }
}

#[test]
fn shared_transports_use_the_same_socket() {
    let mut table = HandleTable::new();
    let mut ids = RequestIds::new();
    let socket = PlatformHandle::own(3, &mut table);
    let transport: Transport = BlockingTransport::from(Channel::from(socket, 1), 1, &mut ids);
    let other = transport.share(1, &mut table);
    assert_eq!(other.channel.inner.as_raw_fd(&table), 3);
    assert_eq!(other.codec, transport.codec);
    // and number their calls together
    let mut numbers = vec![];
    for t in [&transport, &other, &transport] {
        match t.new_client_message(SidecarInterfaceRequest::Notify, None, &mut ids) {
            ClientMessage::Request(r) => numbers.push(r.id),
            ClientMessage::Cancel { .. } => panic!("no call"),
        }
    }
    assert_eq!(numbers, vec![0, 1, 2]);
}

#[test]
fn the_sidecar_watches_a_span() {
    let mut table = HandleTable::new();
    let server = SidecarServer::new();
    assert_eq!(server.notify(), Reply::Ready);
    let text = "crash".to_string();
    assert_eq!(server.segfault(&SegfaultNotification { text }), Reply::Pending);
    let started = server.span_started(span_start(&mut table));
    assert_eq!(started.reply, Reply::Pending);
    match &started.event {
        Event::StartSpan(start) => {
            assert_eq!(start.id, Id::Numeric(2));
            assert!(start.span_end_socket.is_none());
        }
        _ => panic!("another event"),
    }
    let (fd, started_at, template) = started.watch.unwrap().open_socket(&mut table).unwrap();
    assert_eq!((fd, started_at), (50, 1000));
    assert_eq!(table.take_closed().len(), 0);
    match finalize_span(template, started_at, 1500) {
        Event::SpanFinished(f) => {
            assert_eq!((f.id, f.trace_id), (Id::Numeric(2), Id::Numeric(1)));
            assert_eq!(f.parent_span_id, Some(Id::Numeric(3)));
            assert_eq!((f.time, f.duration), (1500, 500));
        }
        _ => panic!("another event"),
    }
}

#[test]
fn a_span_without_a_socket_is_not_watched() {
    let mut table = HandleTable::new();
    let mut start = span_start(&mut table);
    start.span_end_socket.take().unwrap().release(&mut table);
    assert!(SidecarServer::new().span_started(start).watch.is_none());
}

#[test]
fn a_clock_that_went_back_is_forgiven() {
    let template = SpanFinished {
        id: Id::Numeric(1),
        trace_id: Id::Numeric(1),
        parent_span_id: None,
        duration: 0,
        time: 0,
    };
    match finalize_span(template, 10, (1 << 64) + 9) {
        Event::SpanFinished(f) => assert_eq!((f.time, f.duration), (9, 0)),
        _ => panic!("another event"),
    }
}
