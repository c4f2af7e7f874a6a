use sidecar::handle_error::HandleError;
use sidecar::handle_table::{HandleTable, RawFd};
use sidecar::typed::channel::{Channel, UnixStream, WriteAction, WriteEvent};
use sidecar::typed::handle::{PlatformHandle, PlatformHandleInner};
use sidecar::typed::metadata::{ChannelMetadata, Message, MAX_FDS};
use sidecar::typed::transfer::{HandlesTransport, TransferHandles};

#[derive(Debug)]
struct File;

fn leaked_handle(fd: RawFd, table: &mut HandleTable) -> PlatformHandle<RawFd> {
    let handle: PlatformHandle<File> = PlatformHandle::own(fd, table);
    let stolen = handle.try_steal(table).unwrap();
    stolen.release(table);
    handle.to_rawfd_type()
}

fn assert_platform_handle_is_valid_file(
    handle: PlatformHandle<RawFd>,
    table: &mut HandleTable,
) -> PlatformHandle<RawFd> {
    let handle = handle.try_claim(table).unwrap();
    let fd = handle.to_any_type::<File>().try_unwrap_into(table).unwrap();
    PlatformHandle::<File>::own(fd, table).to_rawfd_type()
}

fn raw(handles: &[PlatformHandle<RawFd>], table: &HandleTable) -> Vec<RawFd> {
    handles.iter().map(|h| h.as_raw_fd(table)).collect()
}

#[test]
fn mod_test_channel_metadata_only_provides_valid_owned() {
    let mut table = HandleTable::new();
    let mut meta = ChannelMetadata::new(1);

    // enqueue invalid platform handles those should be dropped before sending
    for fd in 0..10 {
        let handle = leaked_handle(1000 + fd, &mut table);
        meta.enqueue_for_sending(handle);
    }
    assert_eq!(table.take_closed(), (1000..1010).collect::<Vec<RawFd>>());

    // create real handles
    let file_fds: Vec<RawFd> = (0..(MAX_FDS as RawFd) * 2).map(|i| 10 + i).collect();
    for fd in &file_fds {
        let handle: PlatformHandle<File> = PlatformHandle::own(*fd, &mut table);
        meta.enqueue_for_sending(handle);
    }

    let mut first_batch: Vec<PlatformHandle<RawFd>> = vec![];
    for handle in meta.drain_to_send(&mut table) {
        first_batch.push(assert_platform_handle_is_valid_file(handle, &mut table));
    }
    assert_eq!(MAX_FDS, first_batch.len());

    meta.reenqueue_for_sending(first_batch);

    let mut handles = meta.drain_to_send(&mut table);
    let second_batch = meta.drain_to_send(&mut table);

    handles.extend(second_batch.into_iter());
    assert_eq!(MAX_FDS * 2, handles.len());
    assert_eq!(0, meta.drain_to_send(&mut table).len());

    assert_eq!(file_fds, raw(&handles, &table));

    // nothing was closed on the way
    assert_eq!(0, table.take_closed().len());

    // test and dispose of all handles
    for handle in handles {
        assert_platform_handle_is_valid_file(handle, &mut table).release(&mut table);
    }
    assert_eq!(file_fds, table.take_closed());
}

#[test]
fn owners_know_what_they_own() {
    let mut inner = PlatformHandleInner::new(0);
    assert!(inner.is_valid());
    assert!(inner.try_access_valid().is_ok());
    let claim = inner.try_claim().unwrap();
    assert_eq!(claim.as_raw_fd(), 0);
    assert!(!inner.is_valid());
    assert_eq!(inner.try_steal().unwrap_err(), HandleError::Unowned { fd: -1 });
    assert_eq!(inner.try_access_valid().unwrap_err(), HandleError::Unowned { fd: -1 });
    assert!(!PlatformHandleInner::default().is_valid());
}

#[test]
fn the_last_handle_closes() {
    let mut table = HandleTable::new();
    let a: PlatformHandle<File> = PlatformHandle::own(5, &mut table);
    let b = a.share(&mut table);
    a.release(&mut table);
    assert_eq!(table.take_closed().len(), 0);
    assert_eq!(b.as_raw_fd(&table), 5);
    b.release(&mut table);
    assert_eq!(table.take_closed(), vec![5]);
    let nothing: PlatformHandle<File> = PlatformHandle::default(&mut table);
    assert_eq!(nothing.as_raw_fd(&table), -1);
    nothing.release(&mut table);
    assert_eq!(table.take_closed().len(), 0);
}

#[test]
fn shared_handles_cannot_be_unwrapped() {
    let mut table = HandleTable::new();
    let a: PlatformHandle<File> = PlatformHandle::own(5, &mut table);
    let b = a.try_clone_valid(&mut table).unwrap();
    assert_eq!(a.try_leak(&mut table).unwrap_err(), HandleError::Shared { fd: 5 });
    let c = b.share(&mut table);
    assert_eq!(b.try_claim(&mut table).unwrap_err(), HandleError::Shared { fd: 5 });
    assert_eq!(c.try_leak(&mut table).unwrap(), 5);
    assert_eq!(table.take_closed().len(), 0);
}

#[test]
fn stolen_descriptors_leave_the_others_empty() {
    let mut table = HandleTable::new();
    let a: PlatformHandle<File> = PlatformHandle::own(5, &mut table);
    let b = a.share(&mut table);
    let stolen = a.try_steal(&mut table).unwrap();
    assert_eq!(stolen.as_raw_fd(&table), 5);
    assert_eq!(stolen.reference(), 5);
    assert_eq!(b.try_borrow_into(&table).unwrap_err(), HandleError::Unowned { fd: -1 });
    assert_eq!(b.try_steal(&mut table).unwrap_err(), HandleError::Unowned { fd: -1 });
    assert_eq!(b.try_clone_valid(&mut table).unwrap_err(), HandleError::Unowned { fd: -1 });
    a.release(&mut table);
    b.release(&mut table);
    assert_eq!(table.take_closed().len(), 0);
    stolen.release(&mut table);
    assert_eq!(table.take_closed(), vec![5]);
}

#[test]
fn borrows_keep_descriptors_open() {
    let mut table = HandleTable::new();
    let a: PlatformHandle<File> = PlatformHandle::own(5, &mut table);
    let borrowed = a.as_borrowed(&mut table).unwrap();
    assert_eq!(borrowed.deref(), 5);
    a.release(&mut table);
    assert_eq!(table.take_closed().len(), 0);
    borrowed.release(&mut table);
    assert_eq!(table.take_closed(), vec![5]);
}

#[test]
fn errors_say_what_is_wrong() {
    assert_eq!(
        HandleError::Shared { fd: 3 }.to_string(),
        "attempting to unwrap FD from shared platform handle (fd: 3)"
    );
    assert_eq!(
        HandleError::Unowned { fd: -1 }.to_string(),
        "attempting to accesss FD from unowned platform handle (fd: -1)"
    );
    assert_eq!(
        HandleError::Taken { reference: 4, fd: -1 }.to_string(),
        "attempting to unwrap FD from unowned platform handle (fd: 4 (-1))"
    );
    assert_eq!(
        HandleError::NotReceived { hint: 9 }.to_string(),
        "can't provide expected handle for hint: 9"
    );
    assert_eq!(
        HandleError::Missing { reference: 9, fd: -1 }.to_string(),
        "can't provide expected handle for hint: PlatformHandle { fd: 9, inner: \
         PlatformHandleInner { fd: -1 } }"
    );
}

#[test]
fn handles_travel_with_their_items() {
    let mut table = HandleTable::new();
    let mut meta = ChannelMetadata::new(1);
    let item: Option<PlatformHandle<File>> = Some(PlatformHandle::own(5, &mut table));
    let message = meta.create_message(item, &mut table).unwrap();
    assert_eq!(message.pid, 1);
    assert_eq!(message.acked_handles.len(), 0);
    assert!(message.ref_item().is_some());
    // the item and the queue share the descriptor, so it cannot be sent yet
    assert_eq!(meta.drain_to_send(&mut table).len(), 0);
    message.item.unwrap().release(&mut table);
    assert_eq!(table.take_closed(), vec![5]);
}

#[test]
fn descriptors_are_sent_once_the_item_is_gone() {
    let mut table = HandleTable::new();
    let mut meta = ChannelMetadata::new(1);
    let item: PlatformHandle<File> = PlatformHandle::own(5, &mut table);
    let message = meta.create_message(item, &mut table).unwrap();
    message.release_handles(&mut table);
    let handles = meta.drain_to_send(&mut table);
    assert_eq!(raw(&handles, &table), vec![5]);
}

#[test]
fn descriptors_that_came_are_handed_out_in_order() {
    let mut table = HandleTable::new();
    let mut meta = ChannelMetadata::new(1);
    meta.receive_fds(&[7, 8]);
    let hint: PlatformHandle<File> = PlatformHandle::own(3, &mut table);
    let a = meta.provide_handle(&hint, &mut table).unwrap();
    let b = meta.provide_handle(&hint, &mut table).unwrap();
    assert_eq!((a.as_raw_fd(&table), b.as_raw_fd(&table)), (7, 8));
    assert_eq!(
        meta.provide_handle(&hint, &mut table).unwrap_err(),
        HandleError::NotReceived { hint: 3 }
    );
}

#[test]
fn a_hint_that_owns_nothing_stands_for_itself() {
    let mut table = HandleTable::new();
    let mut meta = ChannelMetadata::new(1);
    meta.receive_fds(&[7]);
    let hint: PlatformHandle<File> = PlatformHandle::referring_to(3, &mut table);
    let found = meta.find_handle(&hint, &mut table).unwrap();
    assert_eq!(found.reference(), 3);
    assert_eq!(found.as_raw_fd(&table), -1);
}

#[test]
fn acknowledged_descriptors_are_closed() {
    let mut table = HandleTable::new();
    let mut meta = ChannelMetadata::new(1);
    let sent: Vec<PlatformHandle<File>> =
        vec![PlatformHandle::own(5, &mut table), PlatformHandle::own(6, &mut table)];
    meta.defer_close_handles(sent, &mut table);
    assert_eq!(table.take_closed().len(), 0);
    let item: Option<PlatformHandle<File>> = None;
    let message = Message { item, acked_handles: vec![6, 9], pid: 2 };
    assert!(meta.unwrap_message(message, &mut table).unwrap().is_none());
    assert_eq!(table.take_closed(), vec![6]);
}

#[test]
fn descriptors_of_the_same_process_are_leaked() {
    let mut table = HandleTable::new();
    let mut meta = ChannelMetadata::new(1);
    let sent: Vec<PlatformHandle<File>> = vec![PlatformHandle::own(5, &mut table)];
    meta.defer_close_handles(sent, &mut table);
    let item: Option<PlatformHandle<File>> = None;
    let message = Message { item, acked_handles: vec![5], pid: 1 };
    assert!(meta.unwrap_message(message, &mut table).is_ok());
    assert_eq!(table.take_closed().len(), 0);
}

#[test]
fn a_descriptor_that_is_sent_again_replaces_the_first() {
    let mut table = HandleTable::new();
    let mut meta = ChannelMetadata::new(1);
    let first: Vec<PlatformHandle<File>> = vec![PlatformHandle::own(5, &mut table)];
    meta.defer_close_handles(first, &mut table);
    let second: Vec<PlatformHandle<File>> = vec![PlatformHandle::own(5, &mut table)];
    meta.defer_close_handles(second, &mut table);
    assert_eq!(table.take_closed(), vec![5]);
}

#[test]
fn a_missing_descriptor_fails_the_message() {
    let mut table = HandleTable::new();
    let mut meta = ChannelMetadata::new(1);
    let item: PlatformHandle<File> = PlatformHandle::own(5, &mut table);
    let message = Message { item, acked_handles: vec![], pid: 2 };
    assert_eq!(
        meta.unwrap_message(message, &mut table).unwrap_err(),
        HandleError::NotReceived { hint: 5 }
    );
    assert_eq!(table.take_closed(), vec![5]);
}

#[test]
fn results_carry_handles_where_they_succeeded() {
    let mut table = HandleTable::new();
    let mut meta = ChannelMetadata::new(1);
    let ok: Result<PlatformHandle<File>, u8> = Ok(PlatformHandle::own(5, &mut table));
    ok.move_handles(&mut meta, &mut table).unwrap();
    ok.release_handles(&mut table);
    let err: Result<PlatformHandle<File>, u8> = Err(1);
    err.move_handles(&mut meta, &mut table).unwrap();
    assert_eq!(raw(&meta.drain_to_send(&mut table), &table), vec![5]);
}

#[test]
fn one_end_of_a_pair_is_kept() {
    let mut table = HandleTable::new();
    let pair = Channel::pair(5, 6, &mut table);
    let local = pair.local(1, &mut table).unwrap();
    assert_eq!(table.take_closed(), vec![6]);
    assert_eq!(local.inner.as_raw_fd(&table), 5);
    assert_eq!(pair.remote(1, &mut table).unwrap_err(), HandleError::Unowned { fd: -1 });

    let pair = Channel::pair(7, 8, &mut table);
    let remote = pair.remote(1, &mut table).unwrap();
    assert_eq!(table.take_closed(), vec![7]);
    assert_eq!(remote.into_handle().as_raw_fd(&table), 8);

    let pair = Channel::pair(9, 10, &mut table);
    let (a, b) = pair.pair(1, &mut table).unwrap();
    assert_eq!((a.inner.as_raw_fd(&table), b.inner.as_raw_fd(&table)), (9, 10));
    assert_eq!(table.take_closed().len(), 0);
}

fn channel_with(fds: &[RawFd], table: &mut HandleTable) -> Channel {
    let socket: PlatformHandle<UnixStream> = PlatformHandle::own(3, table);
    let mut channel = Channel::from(socket, 1);
    for fd in fds {
        let handle: PlatformHandle<File> = PlatformHandle::own(*fd, table);
        channel.metadata.enqueue_for_sending(handle);
    }
    channel
}

#[test]
fn descriptors_go_with_the_first_bytes() {
    let mut table = HandleTable::new();
    let mut channel = channel_with(&[5, 6], &mut table);
    let (write, action) = channel.write_all(10, &mut table).unwrap();
    match action {
        WriteAction::Send { offset: 0, fds } => assert_eq!(fds, vec![5, 6]),
        _ => panic!("the descriptors were not sent"),
    }
    let (write, action) = channel.write_step(write, WriteEvent::Sent(4), &mut table);
    assert!(matches!(action, WriteAction::Write { offset: 4 }));
    let (write, action) = channel.write_step(write, WriteEvent::Interrupted, &mut table);
    assert!(matches!(action, WriteAction::Write { offset: 4 }));
    let (write, action) = channel.write_step(write, WriteEvent::Sent(6), &mut table);
    assert!(matches!(action, WriteAction::Finished));
    assert_eq!((write.offset, write.len), (10, 10));
    assert_eq!(table.take_closed().len(), 0);
}

#[test]
fn descriptors_of_a_failed_attempt_wait_again() {
    let mut table = HandleTable::new();
    let mut channel = channel_with(&[5, 6], &mut table);
    let (write, _) = channel.write_all(10, &mut table).unwrap();
    let (_, action) = channel.write_step(write, WriteEvent::Failed, &mut table);
    assert!(matches!(action, WriteAction::Failed));
    let (write, action) = channel.write_all(10, &mut table).unwrap();
    match action {
        WriteAction::Send { offset: 0, fds } => assert_eq!(fds, vec![5, 6]),
        _ => panic!("the descriptors were lost"),
    }
    let (_, action) = channel.write_step(write, WriteEvent::Sent(0), &mut table);
    assert!(matches!(action, WriteAction::WriteZero));
    assert_eq!(raw(&channel.metadata.drain_to_send(&mut table), &table), vec![5, 6]);
}

#[test]
fn descriptors_of_an_interrupted_attempt_are_closed() {
    let mut table = HandleTable::new();
    let mut channel = channel_with(&[5], &mut table);
    let (write, _) = channel.write_all(10, &mut table).unwrap();
    let (_, action) = channel.write_step(write, WriteEvent::Interrupted, &mut table);
    assert!(matches!(action, WriteAction::Write { offset: 0 }));
    assert_eq!(table.take_closed(), vec![5]);
}

#[test]
fn an_empty_buffer_is_written_at_once() {
    let mut table = HandleTable::new();
    let mut channel = channel_with(&[5], &mut table);
    let (_, action) = channel.write_all(0, &mut table).unwrap();
    assert!(matches!(action, WriteAction::Finished));
    assert_eq!(channel.metadata.drain_to_send(&mut table).len(), 1);
}

#[test]
fn many_descriptors_go_in_several_messages() {
    let mut table = HandleTable::new();
    let fds: Vec<RawFd> = (10..35).collect();
    let mut channel = channel_with(&fds, &mut table);
    let (write, action) = channel.write_all(10, &mut table).unwrap();
    match action {
        WriteAction::Send { fds, .. } => assert_eq!(fds.len(), MAX_FDS),
        _ => panic!("the descriptors were not sent"),
    }
    let (_, action) = channel.write_step(write, WriteEvent::Sent(1), &mut table);
    match action {
        WriteAction::Send { offset: 1, fds } => assert_eq!(fds, (30..35).collect::<Vec<RawFd>>()),
        _ => panic!("the other descriptors were not sent"),
    }
}

#[test]
fn a_channel_without_a_socket_does_not_write() {
    let mut table = HandleTable::new();
    let mut channel = Channel::from(PlatformHandle::default(&mut table), 1);
    assert_eq!(
        channel.write_all(1, &mut table).unwrap_err(),
        HandleError::Unowned { fd: -1 }
    );
}

#[test]
fn reads_bring_descriptors() {
    let mut table = HandleTable::new();
    let mut channel = channel_with(&[], &mut table);
    let other = channel.share(1, &mut table);
    assert_eq!(channel.finish_read(3, &[11]), 3);
    let hint: PlatformHandle<File> = PlatformHandle::own(4, &mut table);
    let found = channel.metadata.find_handle(&hint, &mut table).unwrap();
    assert_eq!(found.as_raw_fd(&table), 11);
    assert_eq!(other.inner.as_raw_fd(&table), 3);
}

#[test]
fn what_waits_can_be_counted() {
    let mut table = HandleTable::new();
    let mut meta = ChannelMetadata::new(1);
    for fd in 0..(MAX_FDS as RawFd) + 3 {
        let handle: PlatformHandle<File> = PlatformHandle::own(10 + fd, &mut table);
        meta.enqueue_for_sending(handle);
    }
    assert_eq!(meta.waiting(), MAX_FDS + 3);
    for handle in meta.drain_to_send(&mut table) {
        handle.release(&mut table);
    }
    assert_eq!(meta.waiting(), 3);
}

#[test]
fn a_table_says_how_many_cells_it_can_make() {
    let mut table = HandleTable::new();
    assert!(table.can_make(u64::MAX));
    let handle: PlatformHandle<File> = PlatformHandle::own(10, &mut table);
    handle.release(&mut table);
    assert!(!table.can_make(u64::MAX));
    assert!(table.can_make(u64::MAX - 1));
}
