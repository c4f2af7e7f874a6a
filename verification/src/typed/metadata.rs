//! What a channel knows of the descriptors that travel over it.
use std::collections::{BTreeMap, VecDeque};

use vstd::prelude::*;

use crate::handle_error::HandleError;
use crate::handle_table::{HandleTable, HandleView, RawFd, TableView};
use crate::typed::handle::{released, unwrapped, PlatformHandle};
use crate::typed::transfer::{
    moved_all, provided_all, released_all, HandlesTransport, TransferHandles,
};

verus! {

/// The number of descriptors that one message of the socket carries at most. The receiver cannot
/// make more room once a message has arrived.
pub const MAX_FDS: usize = 20;

/// The number of a process.
pub type Pid = i32;

/// An item on its way, with what its sender says of the descriptors that it received.
#[derive(Debug)]
pub struct Message<Item> {
    pub item: Item,
    /// The descriptors, by their numbers at the other side, that arrived.
    pub acked_handles: Vec<RawFd>,
    /// The process of the sender.
    pub pid: Pid,
}

impl<Item> Message<Item> {
    /// The item.
    pub fn ref_item(&self) -> (r: &Item)
        ensures
            *r == self.item,
    {
        &self.item
    }
}

impl<T: TransferHandles> TransferHandles for Message<T> {
    open spec fn handles(&self) -> Seq<HandleView> {
        self.item.handles()
    }

    open spec fn like(&self, other: &Self) -> bool {
        &&& self.item.like(&other.item)
        &&& self.acked_handles == other.acked_handles
        &&& self.pid == other.pid
    }

    fn move_handles<M: HandlesTransport>(&self, transport: &mut M, table: &mut HandleTable) -> (r:
        Result<(), M::Error>) {
        self.item.move_handles(transport, table)
    }

    fn receive_handles<P: HandlesTransport>(
        &mut self,
        transport: &mut P,
        table: &mut HandleTable,
    ) -> (r: Result<(), P::Error>) {
        self.item.receive_handles(transport, table)
    }

    fn release_handles(self, table: &mut HandleTable) {
        self.item.release_handles(table);
    }
}

/// The state of the metadata of a channel.
pub struct MetadataView {
    /// The handles that wait to be sent, in order.
    pub to_send: Seq<HandleView>,
    /// The descriptors that came and were not handed out yet, in order.
    pub received: Seq<RawFd>,
    /// The descriptors whose receipt is to be told to the other side.
    pub acked: Seq<RawFd>,
    /// The handles that were sent, kept open until their receipt is told, by their descriptors.
    pub to_close: Map<RawFd, HandleView>,
    /// The process.
    pub pid: Pid,
}

impl MetadataView {
    /// The metadata of a channel that nothing travelled over.
    pub open spec fn fresh(pid: Pid) -> MetadataView {
        MetadataView {
            to_send: Seq::empty(),
            received: Seq::empty(),
            acked: Seq::empty(),
            to_close: Map::empty(),
            pid,
        }
    }

    /// With a handle that waits behind the others.
    pub open spec fn enqueued(self, handle: HandleView) -> MetadataView {
        MetadataView { to_send: self.to_send.push(handle), ..self }
    }

    /// With handles that wait before the others.
    pub open spec fn reenqueued(self, handles: Seq<HandleView>) -> MetadataView {
        MetadataView { to_send: handles + self.to_send, ..self }
    }

    /// With only those handles left to send that no message has room for.
    pub open spec fn drained(self, t: TableView) -> MetadataView {
        MetadataView { to_send: after_batch(claimed(t, self.to_send).0), ..self }
    }
}

/// The handles that can be claimed, in order, and the table once the others were dropped.
pub open spec fn claimed(t: TableView, handles: Seq<HandleView>) -> (Seq<HandleView>, TableView)
    decreases handles.len(),
{
    if handles.len() == 0 {
        (Seq::empty(), t)
    } else {
        let (kept, t1) = claimed(t, handles.drop_last());
        let handle = handles.last();
        if unwrapped(t1.cell(handle.cell)) is Ok {
            (kept.push(handle), t1)
        } else {
            (kept, t1.without_ref(handle.cell))
        }
    }
}

/// The handles that one message takes.
pub open spec fn batch(handles: Seq<HandleView>) -> Seq<HandleView> {
    if handles.len() <= MAX_FDS {
        handles
    } else {
        handles.take(MAX_FDS as int)
    }
}

/// The handles that one message leaves.
pub open spec fn after_batch(handles: Seq<HandleView>) -> Seq<HandleView> {
    if handles.len() <= MAX_FDS {
        Seq::empty()
    } else {
        handles.skip(MAX_FDS as int)
    }
}

/// The handles to close later, and the table, once some handles were sent. A handle is kept under
/// its descriptor, and takes the place of one that was kept there.
pub open spec fn deferred(
    to_close: Map<RawFd, HandleView>,
    t: TableView,
    handles: Seq<HandleView>,
) -> (Map<RawFd, HandleView>, TableView)
    decreases handles.len(),
{
    if handles.len() == 0 {
        (to_close, t)
    } else {
        let (before, t1) = deferred(to_close, t, handles.drop_last());
        let handle = handles.last();
        let fd = handle.raw_fd(t1);
        (
            before.insert(fd, handle),
            if before.contains_key(fd) {
                released(t1, before[fd].cell)
            } else {
                t1
            },
        )
    }
}

/// The handles to close later once those of some descriptors were taken out, and these handles, in
/// order.
pub open spec fn acknowledged(to_close: Map<RawFd, HandleView>, fds: Seq<RawFd>) -> (
    Map<RawFd, HandleView>,
    Seq<HandleView>,
)
    decreases fds.len(),
{
    if fds.len() == 0 {
        (to_close, Seq::empty())
    } else {
        let (before, handles) = acknowledged(to_close, fds.drop_last());
        let fd = fds.last();
        (
            before.remove(fd),
            if before.contains_key(fd) {
                handles.push(before[fd])
            } else {
                handles
            },
        )
    }
}

/// A table once the descriptors of some handles were leaked, in order.
pub open spec fn leaked_all(t: TableView, handles: Seq<HandleView>) -> TableView
    decreases handles.len(),
{
    if handles.len() == 0 {
        t
    } else {
        leaked_all(t, handles.drop_last()).without_ref(handles.last().cell)
    }
}

/// What a channel knows of the descriptors that travel over it.
#[derive(Debug)]
pub struct ChannelMetadata {
    fds_to_send: Vec<PlatformHandle<RawFd>>,
    fds_received: VecDeque<RawFd>,
    fds_acked: Vec<RawFd>,
    fds_to_close: BTreeMap<RawFd, PlatformHandle<RawFd>>,
    pid: Pid,
}

/// Handles by their views.
pub open spec fn handle_views<T>(handles: Seq<PlatformHandle<T>>) -> Seq<HandleView> {
    Seq::new(handles.len(), |i: int| handles[i]@)
}

impl View for ChannelMetadata {
    type V = MetadataView;

    closed spec fn view(&self) -> MetadataView {
        MetadataView {
            to_send: handle_views(self.fds_to_send@),
            received: self.fds_received@,
            acked: self.fds_acked@,
            to_close: self.fds_to_close@.map_values(|handle: PlatformHandle<RawFd>| handle@),
            pid: self.pid,
        }
    }
}

impl ChannelMetadata {
    /// The metadata of a channel that nothing travelled over, in the process `pid`.
    pub fn new(pid: Pid) -> (r: Self)
        ensures
            r@ == MetadataView::fresh(pid),
    {
        let r = ChannelMetadata {
            fds_to_send: Vec::new(),
            fds_received: VecDeque::new(),
            fds_acked: Vec::new(),
            fds_to_close: BTreeMap::new(),
            pid,
        };
        assert(r@.to_send =~= Seq::<HandleView>::empty());
        assert(r@.to_close =~= Map::<RawFd, HandleView>::empty());
        r
    }

    /// The number of handles that wait to be sent.
    pub fn waiting(&self) -> (r: usize)
        ensures
            r == self@.to_send.len(),
    {
        self.fds_to_send.len()
    }

    /// Puts a handle behind those that wait to be sent.
    pub fn enqueue_for_sending<T>(&mut self, handle: PlatformHandle<T>)
        ensures
            final(self)@ == old(self)@.enqueued(handle@),
    {
        self.fds_to_send.push(handle.to_rawfd_type());
        assert(self@.to_send =~= old(self)@.to_send.push(handle@));
    }

    /// Puts handles before those that wait to be sent.
    pub fn reenqueue_for_sending(&mut self, handles: Vec<PlatformHandle<RawFd>>)
        ensures
            final(self)@ == old(self)@.reenqueued(handle_views(handles@)),
    {
        let mut handles = handles;
        let ghost before = handles@;
        handles.append(&mut self.fds_to_send);
        self.fds_to_send = handles;
        assert(self@.to_send =~= handle_views(before) + old(self)@.to_send);
    }

    /// Takes out the handles that wait to be sent, as many as one message carries. Handles that
    /// own nothing, or share what they own, are dropped.
    pub fn drain_to_send(&mut self, table: &mut HandleTable) -> (r: Vec<PlatformHandle<RawFd>>)
        requires
            old(table)@.well_formed(),
        ensures
            final(table)@.well_formed(),
            final(table)@ == claimed(old(table)@, old(self)@.to_send).1,
            handle_views(r@) == batch(claimed(old(table)@, old(self)@.to_send).0),
            final(self)@ == old(self)@.drained(old(table)@),
    {
        let mut queue: Vec<PlatformHandle<RawFd>> = Vec::new();
        std::mem::swap(&mut queue, &mut self.fds_to_send);
        let mut to_send: Vec<PlatformHandle<RawFd>> = Vec::new();
        let mut leftover: Vec<PlatformHandle<RawFd>> = Vec::new();
        let ghost handles = handle_views(queue@);
        let ghost t0 = table@;
        for handle in iter: queue
            invariant
                table@.well_formed(),
                handles == handle_views(iter.seq()),
                table@ == claimed(t0, handles.take(iter.index() as int)).1,
                handle_views(to_send@) == batch(
                    claimed(t0, handles.take(iter.index() as int)).0,
                ),
                handle_views(leftover@) == after_batch(
                    claimed(t0, handles.take(iter.index() as int)).0,
                ),
                to_send.len() <= MAX_FDS,
                leftover.len() > 0 ==> to_send.len() == MAX_FDS,
        {
            let ghost i = iter.index() as int;
            let ghost kept = claimed(t0, handles.take(i)).0;
            assert(handles.take(i + 1).drop_last() =~= handles.take(i));
            assert(handles.take(i + 1).last() == handle@);
            match handle.try_claim(table) {
                Ok(handle) => {
                    let ghost before = to_send@;
                    let ghost before_leftover = leftover@;
                    if to_send.len() < MAX_FDS {
                        to_send.push(handle);
                        assert(handle_views(to_send@) =~= handle_views(before).push(handle@));
                        assert(handle_views(leftover@).len() == 0);
                    } else {
                        leftover.push(handle);
                        assert(handle_views(leftover@) =~= handle_views(before_leftover).push(
                            handle@,
                        ));
                    }
                    assert(batch(kept.push(handle@)) =~= handle_views(to_send@));
                    assert(after_batch(kept.push(handle@)) =~= handle_views(leftover@));
                },
                Err(_) => {},
            }
        }
        assert(handles.take(handles.len() as int) =~= handles);
        assert(handles =~= old(self)@.to_send);
        self.reenqueue_for_sending(leftover);
        assert(self@.to_send =~= old(self)@.drained(t0).to_send);
        to_send
    }

    /// Keeps handles that were sent, until the other side says that they arrived.
    pub fn defer_close_handles<T>(
        &mut self,
        handles: Vec<PlatformHandle<T>>,
        table: &mut HandleTable,
    )
        requires
            old(table)@.well_formed(),
        ensures
            final(table)@.well_formed(),
            final(table)@.next == old(table)@.next,
            final(self)@ == (MetadataView {
                to_close: deferred(
                    old(self)@.to_close,
                    old(table)@,
                    handle_views(handles@),
                ).0,
                ..old(self)@
            }),
            final(table)@ == deferred(
                old(self)@.to_close,
                old(table)@,
                handle_views(handles@),
            ).1,
    {
        let ghost sent = handle_views(handles@);
        let ghost before = self@;
        let ghost t0 = table@;
        for handle in iter: handles
            invariant
                table@.well_formed(),
                table@.next == t0.next,
                sent == handle_views(iter.seq()),
                self@ == (MetadataView {
                    to_close: deferred(before.to_close, t0, sent.take(iter.index() as int)).0,
                    ..before
                }),
                table@ == deferred(before.to_close, t0, sent.take(iter.index() as int)).1,
        {
            let ghost i: int = iter.index() as int;
            let ghost so_far = self@;
            assert(sent.take(i + 1).drop_last() =~= sent.take(i));
            assert(sent.take(i + 1).last() == handle@);
            let fd: RawFd = handle.as_raw_fd(table);
            match self.keep(fd, handle.to_rawfd_type()) {
                Some(replaced) => {
                    replaced.release(table);
                },
                None => {},
            }
        }
        assert(sent.take(sent.len() as int) =~= sent);
    }

    fn keep(&mut self, fd: RawFd, handle: PlatformHandle<RawFd>) -> (r: Option<
        PlatformHandle<RawFd>,
    >)
        ensures
            final(self)@ == (MetadataView {
                to_close: old(self)@.to_close.insert(fd, handle@),
                ..old(self)@
            }),
            match r {
                Some(replaced) => old(self)@.to_close.contains_key(fd) && replaced@
                    == old(self)@.to_close[fd],
                None => !old(self)@.to_close.contains_key(fd),
            },
    {
        broadcast use {vstd::std_specs::btree::group_btree_axioms, vstd::laws_cmp::group_laws_cmp};

        let replaced = self.fds_to_close.insert(fd, handle);
        assert(self@.to_close =~= old(self)@.to_close.insert(fd, handle@));
        replaced
    }

    fn unkeep(&mut self, fd: RawFd) -> (r: Option<PlatformHandle<RawFd>>)
        ensures
            final(self)@ == (MetadataView {
                to_close: old(self)@.to_close.remove(fd),
                ..old(self)@
            }),
            match r {
                Some(kept) => old(self)@.to_close.contains_key(fd) && kept@
                    == old(self)@.to_close[fd],
                None => !old(self)@.to_close.contains_key(fd),
            },
    {
        broadcast use {vstd::std_specs::btree::group_btree_axioms, vstd::laws_cmp::group_laws_cmp};

        let kept = self.fds_to_close.remove(&fd);
        assert(self@.to_close =~= old(self)@.to_close.remove(fd));
        kept
    }

    /// Notes descriptors that came.
    pub fn receive_fds(&mut self, fds: &[RawFd])
        ensures
            final(self)@ == (MetadataView {
                received: old(self)@.received + fds@,
                ..old(self)@
            }),
    {
        let ghost before = self@;
        for i in 0..fds.len()
            invariant
                self@ == (MetadataView { received: before.received + fds@.take(i as int), ..before }),
        {
            let ghost so_far = self@;
            self.fds_received.push_back(fds[i]);
            assert(self@.to_send =~= so_far.to_send);
            assert(self@.to_close =~= so_far.to_close);
            assert(self@.received =~= before.received + fds@.take(i + 1));
        }
        assert(fds@.take(fds@.len() as int) =~= fds@);
    }

    /// The handle that came in place of `hint`. One that owns nothing travelled without a
    /// descriptor, and stands for itself.
    pub fn find_handle<T>(&mut self, hint: &PlatformHandle<T>, table: &mut HandleTable) -> (r:
        Option<PlatformHandle<T>>)
        requires
            old(table)@.well_formed(),
            old(table)@.has_room(1),
        ensures
            final(table)@.well_formed(),
            (final(self)@, final(table)@, (match r {
                Some(handle) => Some(handle@),
                None => None,
            })) == found(old(self)@, old(table)@, hint@),
    {
        if hint.as_raw_fd(table) < 0 {
            return Some(hint.share(table));
        }
        let fd = self.fds_received.pop_front();
        assert(self@.to_send =~= old(self)@.to_send);
        assert(self@.to_close =~= old(self)@.to_close);
        match fd {
            Some(fd) => {
                assert(self@.received =~= old(self)@.received.skip(1));
                Some(PlatformHandle::own(fd, table))
            },
            None => None,
        }
    }

    /// Takes the item out of a message. The descriptors that the other side has received are
    /// closed here. Where the other side is in this very process, they are leaked instead, for
    /// they are the same. On failure the item is dropped.
    pub fn unwrap_message<T: TransferHandles>(
        &mut self,
        message: Message<T>,
        table: &mut HandleTable,
    ) -> (r: Result<T, HandleError>)
        requires
            old(table)@.well_formed(),
            old(table)@.has_room(message.item.handles().len() as int),
        ensures
            final(table)@.well_formed(),
            ({
                let (v, t) = settled(old(self)@, old(table)@, message.acked_handles@, message.pid);
                let (after, t1, handles, result) = provided_all::<ChannelMetadata>(
                    v,
                    t,
                    message.item.handles(),
                );
                &&& final(self)@ == after
                &&& match result {
                    Ok(_) => {
                        &&& r matches Ok(item) && item.like(&message.item) && item.handles()
                            == handles
                        &&& final(table)@ == t1
                    },
                    Err(e) => {
                        &&& r matches Err(f) && f == e
                        &&& final(table)@ == released_all(t1, handles)
                    },
                }
            }),
    {
        self.settle(message.acked_handles, message.pid, table);
        let mut item = message.item;
        match item.receive_handles(self, table) {
            Ok(_) => Ok(item),
            Err(e) => {
                item.release_handles(table);
                Err(e)
            },
        }
    }

    fn settle(&mut self, acked_handles: Vec<RawFd>, pid: Pid, table: &mut HandleTable)
        requires
            old(table)@.well_formed(),
        ensures
            final(table)@.well_formed(),
            final(table)@.next == old(table)@.next,
            (final(self)@, final(table)@) == settled(
                old(self)@,
                old(table)@,
                acked_handles@,
                pid,
            ),
    {
        let mut fds_to_close: Vec<PlatformHandle<RawFd>> = Vec::new();
        let ghost before = self@;
        let ghost t0 = table@;
        let ghost fds = acked_handles@;
        for fd in iter: acked_handles
            invariant
                fds == iter.seq(),
                self@ == (MetadataView {
                    to_close: acknowledged(before.to_close, fds.take(iter.index() as int)).0,
                    ..before
                }),
                handle_views(fds_to_close@) == acknowledged(
                    before.to_close,
                    fds.take(iter.index() as int),
                ).1,
        {
            let ghost i: int = iter.index() as int;
            let ghost so_far = fds_to_close@;
            assert(fds.take(i + 1).drop_last() =~= fds.take(i));
            assert(fds.take(i + 1).last() == fd);
            match self.unkeep(fd) {
                Some(handle) => {
                    fds_to_close.push(handle);
                    assert(handle_views(fds_to_close@) =~= handle_views(so_far).push(handle@));
                },
                None => {},
            }
        }
        assert(fds.take(fds.len() as int) =~= fds);
        let same: bool = pid == self.pid;
        let ghost handles = handle_views(fds_to_close@);
        for handle in iter: fds_to_close
            invariant
                table@.well_formed(),
                table@.next == t0.next,
                handles == handle_views(iter.seq()),
                table@ == (if same {
                    leaked_all(t0, handles.take(iter.index() as int))
                } else {
                    released_all(t0, handles.take(iter.index() as int))
                }),
        {
            let ghost i: int = iter.index() as int;
            assert(handles.take(i + 1).drop_last() =~= handles.take(i));
            assert(handles.take(i + 1).last() == handle@);
            if same {
                let _ = handle.try_leak(table);
            } else {
                handle.release(table);
            }
        }
        assert(handles.take(handles.len() as int) =~= handles);
    }

    /// Wraps an item. Another handle on each of its descriptors waits to be sent along.
    pub fn create_message<T: TransferHandles>(&mut self, item: T, table: &mut HandleTable) -> (r:
        Result<Message<T>, HandleError>)
        requires
            old(table)@.well_formed(),
        ensures
            final(table)@.well_formed(),
            final(table)@.next == old(table)@.next,
            final(table)@ == shared_all(old(table)@, item.handles()),
            final(self)@ == (MetadataView {
                to_send: old(self)@.to_send + item.handles(),
                acked: Seq::empty(),
                ..old(self)@
            }),
            r matches Ok(message) && message.item == item && message.acked_handles@
                == old(self)@.acked && message.pid == old(self)@.pid,
    {
        proof {
            lemma_moved_all(old(self)@, old(table)@, item.handles());
        }
        match item.move_handles(self, table) {
            Ok(_) => {},
            Err(e) => {
                return Err(e);
            },
        }
        let mut acked_handles: Vec<RawFd> = Vec::new();
        let ghost before = self@;
        std::mem::swap(&mut acked_handles, &mut self.fds_acked);
        assert(self@.to_send =~= before.to_send);
        assert(self@.to_close =~= before.to_close);
        assert(self@.acked =~= Seq::<RawFd>::empty());
        Ok(Message { item, acked_handles, pid: self.pid })
    }
}

/// What becomes of the metadata and of the table when the handle that came in place of `hint` is
/// looked for, and that handle.
pub open spec fn found(v: MetadataView, t: TableView, hint: HandleView) -> (
    MetadataView,
    TableView,
    Option<HandleView>,
) {
    if hint.raw_fd(t) < 0 {
        (v, t.with_ref(hint.cell), Some(hint))
    } else if v.received.len() > 0 {
        (
            MetadataView { received: v.received.skip(1), ..v },
            t.with_cell(v.received[0]),
            Some(HandleView { fd: v.received[0], cell: t.next }),
        )
    } else {
        (v, t, None)
    }
}

/// What becomes of the metadata and of the table when the process `pid` says that it has received
/// some descriptors.
pub open spec fn settled(v: MetadataView, t: TableView, fds: Seq<RawFd>, pid: Pid) -> (
    MetadataView,
    TableView,
) {
    let (to_close, handles) = acknowledged(v.to_close, fds);
    (
        MetadataView { to_close, ..v },
        if pid == v.pid {
            leaked_all(t, handles)
        } else {
            released_all(t, handles)
        },
    )
}

/// A table once each of some handles was shared, in order.
pub open spec fn shared_all(t: TableView, handles: Seq<HandleView>) -> TableView
    decreases handles.len(),
{
    if handles.len() == 0 {
        t
    } else {
        shared_all(t.with_ref(handles[0].cell), handles.skip(1))
    }
}

impl HandlesTransport for ChannelMetadata {
    type Error = HandleError;

    open spec fn moved(before: MetadataView, t: TableView, handle: HandleView) -> (
        MetadataView,
        TableView,
        Result<(), HandleError>,
    ) {
        (before.enqueued(handle), t, Ok(()))
    }

    open spec fn provided(before: MetadataView, t: TableView, hint: HandleView) -> (
        MetadataView,
        TableView,
        Result<HandleView, HandleError>,
    ) {
        let (after, t1, handle) = found(before, t, hint);
        match handle {
            Some(handle) => (after, t1, Ok(handle)),
            None => (after, t1, Err(HandleError::NotReceived { hint: hint.raw_fd(t) })),
        }
    }

    fn move_handle<T>(&mut self, handle: PlatformHandle<T>, table: &mut HandleTable) -> (r: Result<
        (),
        HandleError,
    >) {
        self.enqueue_for_sending(handle);
        Ok(())
    }

    fn provide_handle<T>(&mut self, hint: &PlatformHandle<T>, table: &mut HandleTable) -> (r: Result<
        PlatformHandle<T>,
        HandleError,
    >) {
        match self.find_handle(hint, table) {
            Some(handle) => Ok(handle),
            None => Err(HandleError::NotReceived { hint: hint.as_raw_fd(table) }),
        }
    }
}

/// Moving handles into the metadata of a channel always succeeds: they wait behind the others.
pub proof fn lemma_moved_all(v: MetadataView, t: TableView, handles: Seq<HandleView>)
    ensures
        moved_all::<ChannelMetadata>(v, t, handles) == (
            MetadataView { to_send: v.to_send + handles, ..v },
            shared_all(t, handles),
            Ok::<(), HandleError>(()),
        ),
    decreases handles.len(),
{
    if handles.len() == 0 {
        assert(v.to_send + handles =~= v.to_send);
    } else {
        lemma_moved_all(
            v.enqueued(handles[0]),
            t.with_ref(handles[0].cell),
            handles.skip(1),
        );
        assert(v.to_send.push(handles[0]) + handles.skip(1) =~= v.to_send + handles);
    }
}

// ---------------------------------------------------------------------------
// What holds of the handles on their way
// ---------------------------------------------------------------------------

/// A handle that is drained owns its descriptor, and nobody shares it.
pub proof fn drained_handles_are_owned(t: TableView, handles: Seq<HandleView>)
    ensures
        ({
            let (kept, after) = claimed(t, handles);
            forall|i: int|
                0 <= i < kept.len() ==> unwrapped(
                    after.cell((#[trigger] kept[i]).cell),
                ) is Ok
        }),
    decreases handles.len(),
{
    if handles.len() > 0 {
        drained_handles_are_owned(t, handles.drop_last());
    }
}

/// Draining drops handles, but it closes no descriptor, and takes none from its owner.
pub proof fn draining_closes_nothing(t: TableView, handles: Seq<HandleView>)
    ensures
        ({
            let after = claimed(t, handles).1;
            &&& after.closed == t.closed
            &&& forall|cell: u64|
                t.cell(cell).fd >= 0 ==> (#[trigger] after.cell(cell)).fd == t.cell(cell).fd
        }),
    decreases handles.len(),
{
    if handles.len() > 0 {
        draining_closes_nothing(t, handles.drop_last());
        let before = claimed(t, handles.drop_last()).1;
        let after = claimed(t, handles).1;
        assert forall|cell: u64| t.cell(cell).fd >= 0 implies (#[trigger] after.cell(cell)).fd
            == t.cell(cell).fd by {
            assert(before.cell(cell).fd == t.cell(cell).fd);
        }
    }
}

/// Handles that own what they have, and share it with nobody, can all be claimed again.
pub proof fn lemma_claimed_again(t: TableView, handles: Seq<HandleView>)
    requires
        forall|i: int|
            0 <= i < handles.len() ==> unwrapped(t.cell((#[trigger] handles[i]).cell)) is Ok,
    ensures
        claimed(t, handles) == (handles, t),
    decreases handles.len(),
{
    if handles.len() == 0 {
        assert(handles =~= Seq::empty());
    } else {
        lemma_claimed_again(t, handles.drop_last());
        assert(handles.drop_last().push(handles.last()) =~= handles);
    }
}

/// A batch that could not be sent is put back, and comes out again first and in the same order.
pub proof fn reenqueued_batch_comes_first(v: MetadataView, t: TableView)
    ensures
        ({
            let (kept, t1) = claimed(t, v.to_send);
            let again = v.drained(t).reenqueued(batch(kept));
            &&& claimed(t1, again.to_send) == (kept, t1)
            &&& batch(claimed(t1, again.to_send).0) == batch(kept)
            &&& again.drained(t1) == v.drained(t)
        }),
{
    let (kept, t1) = claimed(t, v.to_send);
    drained_handles_are_owned(t, v.to_send);
    assert(batch(kept) + after_batch(kept) =~= kept);
    lemma_claimed_again(t1, kept);
}

/// The handles of an item that arrives own the descriptors that came with it, in the order in
/// which they came, provided that each of the handles in whose place they come owned a descriptor,
/// and shared it with none of the others. Descriptors that come after them are left for the items
/// that follow.
pub proof fn items_get_their_descriptors(
    v: MetadataView,
    t: TableView,
    hints: Seq<HandleView>,
    fds: Seq<RawFd>,
    rest: Seq<RawFd>,
)
    requires
        t.well_formed(),
        t.has_room(hints.len() as int),
        v.received == fds + rest,
        fds.len() == hints.len(),
        forall|i: int| 0 <= i < hints.len() ==> (#[trigger] hints[i]).raw_fd(t) >= 0,
        forall|i: int, j: int|
            0 <= i < j < hints.len() ==> (#[trigger] hints[i]).cell != (#[trigger] hints[j]).cell,
    ensures
        ({
            let (after, t1, handles, r) = provided_all::<ChannelMetadata>(v, t, hints);
            &&& r is Ok
            &&& after == (MetadataView { received: rest, ..v })
            &&& handles.len() == fds.len()
            &&& forall|i: int|
                0 <= i < fds.len() ==> {
                    &&& (#[trigger] handles[i]).fd == fds[i]
                    &&& handles[i].raw_fd(t1) == fds[i]
                    &&& t1.cell(handles[i].cell).refs == 1
                }
        }),
    decreases hints.len(),
{
    if hints.len() == 0 {
        assert(v.received =~= rest);
    } else {
        let (v1, t1, handle) = found(v, t, hints[0]);
        let t2 = released(t1, hints[0].cell);
        let more = hints.skip(1);
        assert(v1.received =~= fds.skip(1) + rest);
        assert forall|i: int| 0 <= i < more.len() implies (#[trigger] more[i]).raw_fd(t2) >= 0
            && more[i].cell != t.next by {
            assert(more[i] == hints[i + 1]);
            assert(hints[0].cell != hints[i + 1].cell);
        }
        assert forall|i: int, j: int| 0 <= i < j < more.len() implies (#[trigger] more[i]).cell != (
        #[trigger] more[j]).cell by {
            assert(more[i] == hints[i + 1] && more[j] == hints[j + 1]);
        }
        items_get_their_descriptors(v1, t2, more, fds.skip(1), rest);
        lemma_other_cells(v1, t2, more, t.next);
        let (after, t3, handles, r) = provided_all::<ChannelMetadata>(v1, t2, more);
        let all = provided_all::<ChannelMetadata>(v, t, hints).2;
        assert(all =~= seq![handle.unwrap()] + handles);
        assert forall|i: int| 0 <= i < fds.len() implies {
            &&& (#[trigger] all[i]).fd == fds[i]
            &&& all[i].raw_fd(t3) == fds[i]
            &&& t3.cell(all[i].cell).refs == 1
        } by {
            if i > 0 {
                assert(all[i] == handles[i - 1]);
                assert(fds.skip(1)[i - 1] == fds[i]);
            }
        }
    }
}

/// Receiving handles leaves alone the cells that none of them refers to.
proof fn lemma_other_cells(v: MetadataView, t: TableView, hints: Seq<HandleView>, cell: u64)
    requires
        t.well_formed(),
        t.has_room(hints.len() as int),
        cell < t.next,
        forall|i: int| 0 <= i < hints.len() ==> (#[trigger] hints[i]).cell != cell,
    ensures
        provided_all::<ChannelMetadata>(v, t, hints).1.cell(cell) == t.cell(cell),
    decreases hints.len(),
{
    if hints.len() > 0 {
        let (v1, t1, handle) = found(v, t, hints[0]);
        let more = hints.skip(1);
        assert forall|i: int| 0 <= i < more.len() implies (#[trigger] more[i]).cell != cell by {
            assert(more[i] == hints[i + 1]);
        }
        if handle is Some {
            lemma_other_cells(v1, released(t1, hints[0].cell), more, cell);
        }
    }
}

/// Handles that own nothing travel without descriptors: an item that has no others arrives with
/// the handles that it has, no descriptor is taken for it, and none is closed.
pub proof fn hints_that_own_nothing_stay(v: MetadataView, t: TableView, hints: Seq<HandleView>)
    requires
        forall|i: int| 0 <= i < hints.len() ==> (#[trigger] hints[i]).raw_fd(t) < 0,
    ensures
        ({
            let (after, t1, handles, r) = provided_all::<ChannelMetadata>(v, t, hints);
            &&& r is Ok
            &&& after == v
            &&& handles == hints
            &&& t1.closed == t.closed
            &&& t1.next == t.next
        }),
    decreases hints.len(),
{
    if hints.len() > 0 {
        let (v1, t1, handle) = found(v, t, hints[0]);
        let t2 = released(t1, hints[0].cell);
        let more = hints.skip(1);
        assert forall|i: int| 0 <= i < more.len() implies (#[trigger] more[i]).raw_fd(t2) < 0 by {
            assert(more[i] == hints[i + 1]);
        }
        hints_that_own_nothing_stay(v1, t2, more);
        assert(seq![hints[0]] + more =~= hints);
    }
}

/// One message takes the handles that come first, twenty of them at most, and leaves the others in
/// order.
pub proof fn one_message_takes_twenty(handles: Seq<HandleView>)
    ensures
        batch(handles) + after_batch(handles) == handles,
        handles.len() <= 20 ==> batch(handles).len() == handles.len(),
        handles.len() > 20 ==> batch(handles).len() == 20,
{
    assert(batch(handles) + after_batch(handles) =~= handles);
}

/// Handles wait in line: a new one behind the others, and those that could not be sent before them.
/// Those that one message takes are gone from the line. Nothing else changes.
pub proof fn handles_wait_in_line(
    v: MetadataView,
    t: TableView,
    handle: HandleView,
    handles: Seq<HandleView>,
)
    ensures
        v.enqueued(handle).to_send == v.to_send + seq![handle],
        v.reenqueued(handles).to_send == handles + v.to_send,
        batch(claimed(t, v.to_send).0) + v.drained(t).to_send == claimed(t, v.to_send).0,
        v.enqueued(handle) == (MetadataView { to_send: v.enqueued(handle).to_send, ..v }),
        v.reenqueued(handles) == (MetadataView { to_send: v.reenqueued(handles).to_send, ..v }),
        v.drained(t) == (MetadataView { to_send: v.drained(t).to_send, ..v }),
{
    one_message_takes_twenty(claimed(t, v.to_send).0);
    assert(v.enqueued(handle).to_send =~= v.to_send + seq![handle]);
}

/// A handle that waits is sent exactly where it owns a descriptor and shares it with nobody. The
/// others are dropped, and those that are sent stay in order.
pub proof fn waiting_handle_is_claimed(t: TableView, handles: Seq<HandleView>, handle: HandleView)
    ensures
        claimed(t, Seq::empty()) == (Seq::<HandleView>::empty(), t),
        ({
            let (kept, t1) = claimed(t, handles);
            let (more, t2) = claimed(t, handles.push(handle));
            let cell = t1.cell(handle.cell);
            if cell.refs <= 1 && cell.fd >= 0 {
                more == kept.push(handle) && t2 == t1
            } else {
                more == kept && t2 == t1.without_ref(handle.cell)
            }
        }),
{
    assert(handles.push(handle).drop_last() =~= handles);
}

/// A handle that was sent is kept under its descriptor, until its receipt is told. It takes the place of
/// one that is kept there, which is dropped.
pub proof fn sent_handle_is_kept(
    to_close: Map<RawFd, HandleView>,
    t: TableView,
    handles: Seq<HandleView>,
    handle: HandleView,
)
    ensures
        deferred(to_close, t, Seq::empty()) == (to_close, t),
        ({
            let (before, t1) = deferred(to_close, t, handles);
            let (after, t2) = deferred(to_close, t, handles.push(handle));
            let fd = handle.raw_fd(t1);
            &&& after == before.insert(fd, handle)
            &&& before.contains_key(fd) ==> t2 == released(t1, before[fd].cell)
            &&& !before.contains_key(fd) ==> t2 == t1
        }),
{
    assert(handles.push(handle).drop_last() =~= handles);
}

/// Once the receipt of a descriptor is told by another process, the descriptor is closed, for the
/// handle on it was the last. Where this very process tells it, the descriptor is not closed, and
/// is no longer owned here. A descriptor that is not kept does not matter.
pub proof fn receipt_settles_the_descriptor(v: MetadataView, t: TableView, fd: RawFd, pid: Pid)
    ensures
        ({
            let (after, t1) = settled(v, t, seq![fd], pid);
            &&& after == (MetadataView { to_close: v.to_close.remove(fd), ..v })
            &&& !v.to_close.contains_key(fd) ==> t1 == t
            &&& v.to_close.contains_key(fd) && t.cell(v.to_close[fd].cell).refs == 1 && t.cell(
                v.to_close[fd].cell,
            ).fd > 0 ==> {
                &&& pid != v.pid ==> t1.closed == t.closed.push(t.cell(v.to_close[fd].cell).fd)
                &&& pid == v.pid ==> t1.closed == t.closed
                &&& t1.cell(v.to_close[fd].cell).fd == -1
            }
        }),
        settled(v, t, Seq::empty(), pid) == (v, t),
{
    reveal_with_fuel(acknowledged, 2);
    reveal_with_fuel(released_all, 2);
    reveal_with_fuel(leaked_all, 2);
    let fds = seq![fd];
    assert(fds.drop_last() =~= Seq::<RawFd>::empty());
    assert(settled(v, t, fds, pid).0.to_close =~= v.to_close.remove(fd));
    if v.to_close.contains_key(fd) {
        let handle = v.to_close[fd];
        let one = Seq::<HandleView>::empty().push(handle);
        assert(acknowledged(v.to_close, fds).1 =~= one);
        assert(one.drop_last() =~= Seq::<HandleView>::empty());
    }
}

/// Receipts are settled one after the other: each takes out what is kept under its descriptor, if
/// there is something.
pub proof fn receipts_come_in_order(to_close: Map<RawFd, HandleView>, fds: Seq<RawFd>, fd: RawFd)
    ensures
        ({
            let (before, handles) = acknowledged(to_close, fds);
            let (after, more) = acknowledged(to_close, fds.push(fd));
            &&& after == before.remove(fd)
            &&& before.contains_key(fd) ==> more == handles.push(before[fd])
            &&& !before.contains_key(fd) ==> more == handles
        }),
{
    assert(fds.push(fd).drop_last() =~= fds);
}

/// A handle that arrives is the next descriptor that came, in a cell of its own, in place of one
/// that owns something. In place of another one, that one itself is shared. Where no descriptor came,
/// there is none.
pub proof fn arriving_handle_is_the_next(v: MetadataView, t: TableView, hint: HandleView)
    requires
        t.well_formed(),
    ensures
        ({
            let (after, t1, handle) = found(v, t, hint);
            &&& hint.raw_fd(t) < 0 ==> after == v && handle == Some(hint) && t1 == t.with_ref(hint.cell)
            &&& hint.raw_fd(t) >= 0 && v.received.len() > 0 ==> {
                &&& handle == Some(HandleView { fd: v.received[0], cell: t.next })
                &&& after == (MetadataView { received: v.received.skip(1), ..v })
                &&& t1.cell(t.next).fd == v.received[0]
                &&& t1.cell(t.next).refs == 1
                &&& t1.closed == t.closed
                &&& forall|cell: u64| cell != t.next ==> #[trigger] t1.cell(cell) == t.cell(cell)
            }
            &&& hint.raw_fd(t) >= 0 && v.received.len() == 0 ==> after == v && t1 == t && handle is None
        }),
{
}

/// A handle that is moved waits behind the others, and nothing else changes. One that is asked for
/// is the next that was received, the hint itself where it owns nothing, or an error that tells
/// of the hint.
pub proof fn handles_move_through_the_channel(
    v: MetadataView,
    t: TableView,
    handle: HandleView,
    hint: HandleView,
)
    ensures
        ({
            let (after, t1, r) = <ChannelMetadata as HandlesTransport>::moved(v, t, handle);
            &&& after == (MetadataView { to_send: v.to_send + seq![handle], ..v })
            &&& t1 == t
            &&& r is Ok
        }),
        ({
            let (after, t1, r) = <ChannelMetadata as HandlesTransport>::provided(v, t, hint);
            &&& hint.raw_fd(t) < 0 ==> r == Ok::<HandleView, HandleError>(hint) && after == v
            &&& hint.raw_fd(t) >= 0 && v.received.len() > 0 ==> r == Ok::<HandleView, HandleError>(
                HandleView { fd: v.received[0], cell: t.next },
            ) && after == (MetadataView { received: v.received.skip(1), ..v })
            &&& hint.raw_fd(t) >= 0 && v.received.len() == 0 ==> r == Err::<HandleView, HandleError>(
                HandleError::NotReceived { hint: hint.raw_fd(t) },
            ) && after == v && t1 == t
        }),
{
    assert(v.to_send.push(handle) =~= v.to_send + seq![handle]);
}

} // verus!
