use sidecar::handle_error::HandleError;
use sidecar::handle_table::{HandleTable, RawFd};
use sidecar::untyped::channel::{
    AsyncChannel, Channel, PollWrite, ReceiveAnswer, ReceiveEvent, SendAnswer, SendEvent,
};
use sidecar::untyped::handle::{BetterHandle, PlatformHandle, PlatformHandleInner};
use sidecar::untyped::metadata::{ChannelMetadata, Message, MAX_FDS};
use sidecar::untyped::transfer::{HandlesTransport, TransferHandles};

#[derive(Debug)]
struct File;

fn mock_handle(mock_fd: RawFd, table: &mut HandleTable) -> PlatformHandle {
    let handle = PlatformHandle::own(mock_fd, table);
    handle.leak(table); // avoid platform handle calling close on non existing fd
    handle
}

fn assert_platform_handle_is_valid_file(
    handle: PlatformHandle,
    table: &mut HandleTable,
) -> PlatformHandle {
    let claimed = handle.claim_valid(table).unwrap();
    handle.release(table);
    let fd = claimed.leak(table);

    // Should return none, as handle's FD was leaked
    assert_eq!(true, claimed.claim_valid(table).is_none());
    claimed.release(table);
    PlatformHandle::own(fd, table)
}

fn raw(handles: &[PlatformHandle], table: &HandleTable) -> Vec<RawFd> {
    handles.iter().map(|h| h.as_raw_fd(table)).collect()
}

#[test]
fn unix_test_test_channel_metadata_only_provides_valid_owned() {
    let mut table = HandleTable::new();
    let mut meta = ChannelMetadata::new(1);

    // enqueue invalid platform handles those should be dropped before sending
    for fd in -1..10 {
        let handle = mock_handle(fd, &mut table);
        meta.enqueue_for_sending(handle);
    }

    // create real handles
    let file_fds: Vec<RawFd> = (0..(MAX_FDS as RawFd) * 2).map(|i| 10 + i).collect();
    for fd in &file_fds {
        let handle = PlatformHandle::own(*fd, &mut table);
        meta.enqueue_for_sending(handle);
    }

    let mut first_batch: Vec<PlatformHandle> = vec![];
    for handle in meta.drain_to_send(&mut table) {
        first_batch.push(assert_platform_handle_is_valid_file(handle, &mut table));
    }
    assert_eq!(MAX_FDS, first_batch.len());

    meta.reenqueue_for_sending(first_batch);

    let mut handles = meta.drain_to_send(&mut table);
    let second_batch = meta.drain_to_send(&mut table);

    handles.extend(second_batch.into_iter());
    assert_eq!(MAX_FDS * 2, handles.len());
    assert_eq!(0, meta.drain_to_send(&mut table).len());

    assert_eq!(file_fds, raw(&handles, &table));

    // nothing was closed on the way
    assert_eq!(0, table.take_closed().len());

    // test and dispose of all handles
    for handle in handles {
        assert_platform_handle_is_valid_file(handle, &mut table).release(&mut table);
    }
    assert_eq!(file_fds, table.take_closed());
}

#[test]
fn the_standard_input_is_not_owned() {
    assert!(!PlatformHandleInner::new(0).is_valid());
    assert!(PlatformHandleInner::new(1).is_valid());
    assert_eq!(PlatformHandleInner::default().as_raw_fd(), -1);
    let mut table = HandleTable::new();
    PlatformHandle::own(0, &mut table).release(&mut table);
    PlatformHandle::own(1, &mut table).release(&mut table);
    assert_eq!(table.take_closed(), vec![1]);
}

#[test]
fn descriptors_become_objects_once() {
    let mut table = HandleTable::new();
    let a: BetterHandle<File> = BetterHandle::from(PlatformHandle::own(5, &mut table));
    let b = a.share(&mut table);
    assert_eq!(a.try_into_rawfd(&mut table), Ok(5));
    assert_eq!(
        b.try_into_rawfd(&mut table),
        Err(HandleError::Taken { reference: 5, fd: -1 })
    );
    assert_eq!(PlatformHandle::own(0, &mut table).try_into_rawfd(&mut table), Ok(0));
    assert_eq!(table.take_closed().len(), 0);
    let nothing: BetterHandle<File> = BetterHandle::default(&mut table);
    assert_eq!(nothing.as_platform_handle().reference(), -1);
}

#[test]
fn untyped_handles_travel_with_their_items() {
    let mut sender = HandleTable::new();
    let mut out = ChannelMetadata::new(1);
    let item: BetterHandle<File> = BetterHandle::from(PlatformHandle::own(5, &mut sender));
    let message = out.create_message(item, &mut sender).unwrap();
    let sent = out.drain_to_send(&mut sender);
    assert_eq!(raw(&sent, &sender), vec![5]);
    out.defer_close_handles(sent, &mut sender);

    // the other process reads the item, and the kernel gives it another descriptor
    let mut receiver = HandleTable::new();
    let mut channel = ChannelMetadata::new(2);
    channel.receive_fds(&[9, 10]);
    let reference = message.item.as_platform_handle().reference();
    let read: BetterHandle<File> =
        BetterHandle::from(PlatformHandle::referring_to(reference, &mut receiver));
    let read = Message { item: read, acked_handles: message.acked_handles, pid: message.pid };
    let item = channel.unwrap_message(read, &mut receiver).unwrap();
    assert_eq!(item.as_platform_handle().as_raw_fd(&receiver), 9);

    // and says so
    let answer: Result<BetterHandle<File>, u8> = Err(0);
    let answer = Message { item: answer, acked_handles: vec![5], pid: 2 };
    assert!(out.unwrap_message(answer, &mut sender).is_ok());
    assert_eq!(sender.take_closed(), vec![5]);
}

#[test]
fn untyped_descriptors_of_the_same_process_are_leaked() {
    let mut table = HandleTable::new();
    let mut meta = ChannelMetadata::new(1);
    let sent = vec![PlatformHandle::own(5, &mut table)];
    meta.defer_close_handles(sent, &mut table);
    let item: Result<BetterHandle<File>, u8> = Err(0);
    let message = Message { item, acked_handles: vec![5], pid: 1 };
    assert!(meta.unwrap_message(message, &mut table).is_ok());
    assert_eq!(table.take_closed().len(), 0);
}

#[test]
fn hints_without_a_number_stand_for_themselves() {
    let mut table = HandleTable::new();
    let mut meta = ChannelMetadata::new(1);
    let hint = PlatformHandle::default(&mut table);
    assert_eq!(meta.provide_handle(&hint, &mut table).unwrap().reference(), -1);
    let hint = PlatformHandle::referring_to(4, &mut table);
    assert_eq!(
        meta.provide_handle(&hint, &mut table).unwrap_err(),
        HandleError::Missing { reference: 4, fd: -1 }
    );
}

#[test]
fn items_are_moved_by_sharing() {
    let mut table = HandleTable::new();
    let mut meta = ChannelMetadata::new(1);
    let item: BetterHandle<File> = BetterHandle::from(PlatformHandle::own(5, &mut table));
    item.move_handles(&mut meta, &mut table).unwrap();
    item.release_handles(&mut table);
    assert_eq!(table.take_closed().len(), 0);
    assert_eq!(meta.drain_to_send(&mut table).len(), 1);
}

#[test]
fn channels_can_be_closed_behind_their_back() {
    let mut table = HandleTable::new();
    let (local, remote) = Channel::pair(5, 6);
    local.as_channel_ref().close(&mut table);
    assert_eq!(table.take_closed(), vec![5]);
    assert_eq!(remote.as_raw_fd(), 6);
    let handle = remote.into_handle(&mut table);
    handle.release(&mut table);
    assert_eq!(table.take_closed(), vec![6]);
}

fn async_channel(fds: &[RawFd], table: &mut HandleTable) -> AsyncChannel {
    let mut channel = AsyncChannel::new(1);
    for fd in fds {
        let handle = PlatformHandle::own(*fd, table);
        channel.metadata.enqueue_for_sending(handle);
    }
    channel
}

#[test]
fn a_socket_that_is_not_ready_is_tried_again() {
    let mut table = HandleTable::new();
    let mut channel = async_channel(&[5, 6], &mut table);
    for _ in 0..2 {
        match channel.poll_write(&mut table) {
            PollWrite::Send { fds, handles } => {
                assert_eq!(fds, vec![5, 6]);
                let answer = channel.finish_send(handles, SendEvent::WouldBlock, &mut table);
                assert_eq!(answer, SendAnswer::PollReady);
            }
            PollWrite::Write => panic!("the descriptors were lost"),
        }
    }
}

#[test]
fn sent_descriptors_are_not_sent_again() {
    let mut table = HandleTable::new();
    let mut channel = async_channel(&[5], &mut table);
    match channel.poll_write(&mut table) {
        PollWrite::Send { handles, .. } => {
            let answer = channel.finish_send(handles, SendEvent::Sent(3), &mut table);
            assert_eq!(answer, SendAnswer::Ready(3));
        }
        PollWrite::Write => panic!("the descriptors were lost"),
    }
    assert!(matches!(channel.poll_write(&mut table), PollWrite::Write));
    assert_eq!(table.take_closed().len(), 0);
}

#[test]
fn a_failed_send_closes_the_descriptors() {
    let mut table = HandleTable::new();
    let mut channel = async_channel(&[5], &mut table);
    match channel.poll_write(&mut table) {
        PollWrite::Send { handles, .. } => {
            let answer = channel.finish_send(handles, SendEvent::Failed, &mut table);
            assert_eq!(answer, SendAnswer::Failed);
        }
        PollWrite::Write => panic!("the descriptors were lost"),
    }
    assert_eq!(table.take_closed(), vec![5]);
}

#[test]
fn received_descriptors_are_noted() {
    let mut table = HandleTable::new();
    let mut channel = AsyncChannel::new(1);
    let event = ReceiveEvent::Received { bytes: 4, fds: vec![8] };
    assert_eq!(channel.poll_read(event), ReceiveAnswer::Ready(4));
    assert_eq!(channel.poll_read(ReceiveEvent::WouldBlock), ReceiveAnswer::PollReady);
    assert_eq!(channel.poll_read(ReceiveEvent::Failed), ReceiveAnswer::Failed);
    let hint = PlatformHandle::referring_to(2, &mut table);
    let found = channel.metadata.find_handle(&hint, &mut table).unwrap();
    assert_eq!(found.as_raw_fd(&table), 8);
}

#[test]
fn untyped_handles_that_wait_can_be_counted() {
    let mut table = HandleTable::new();
    let mut meta = ChannelMetadata::new(1);
    for fd in 0..(MAX_FDS as RawFd) + 3 {
        meta.enqueue_for_sending(PlatformHandle::own(10 + fd, &mut table));
    }
    assert_eq!(meta.waiting(), MAX_FDS + 3);
    for handle in meta.drain_to_send(&mut table) {
        handle.release(&mut table);
    }
    assert_eq!(meta.waiting(), 3);
}

#[test]
fn a_descriptor_is_claimed_once() {
    let mut table = HandleTable::new();
    let a = PlatformHandle::own(5, &mut table);
    let b = a.share(&mut table);
    let claimed = a.claim_valid(&mut table).unwrap();
    assert_eq!(claimed.as_raw_fd(&table), 5);
    assert_eq!((a.as_raw_fd(&table), b.as_raw_fd(&table)), (-1, -1));
    assert!(a.claim_valid(&mut table).is_none());
    assert!(b.claim_valid(&mut table).is_none());
    assert_eq!(claimed.leak(&mut table), 5);
    assert!(claimed.claim_valid(&mut table).is_none());
    for handle in [a, b, claimed] {
        handle.release(&mut table);
    }
    assert_eq!(table.take_closed().len(), 0);
}
