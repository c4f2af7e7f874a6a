//! What a client and a server say to each other.
use std::collections::HashMap;

use vstd::prelude::*;
use vstd::std_specs::hash::*;

verus! {

/// A point in time: nanoseconds since the epoch.
pub type Nanos = u128;

/// The epoch.
pub const UNIX_EPOCH: Nanos = 0;

/// Where a call belongs in a trace of calls.
#[derive(Debug, Clone, Copy, PartialEq, Eq, Structural)]
pub struct CallTrace {
    pub trace_id: u128,
    pub span_id: u64,
    /// Whether it was decided that the call is part of the sample.
    pub sampled: bool,
}

/// What goes along with a call.
#[derive(Debug, Clone, Copy, PartialEq, Eq, Structural)]
pub struct Context {
    /// When the client wants the answer by.
    pub deadline: Nanos,
    pub trace_context: CallTrace,
}

/// Calls `tarpc::context::current`, and takes the result apart into plain values. A deadline before
/// the epoch is taken for the epoch. Nothing is claimed of what comes back: it depends on the clock
/// and on the call that is being served.
#[verifier::external_body]
pub(crate) fn current_context() -> (r: Context) {
    let c = tarpc::context::current();
    let deadline = c.deadline.duration_since(std::time::UNIX_EPOCH).unwrap_or_default();
    Context {
        deadline: deadline.as_nanos(),
        trace_context: CallTrace {
            trace_id: c.trace_context.trace_id.into(),
            span_id: c.trace_context.span_id.into(),
            sampled: match c.trace_context.sampling_decision {
                tarpc::trace::SamplingDecision::Sampled => true,
                tarpc::trace::SamplingDecision::Unsampled => false,
            },
        },
    }
}

/// A call.
#[derive(Debug)]
pub struct Request<T> {
    /// What goes along with the call.
    pub context: Context,
    /// The number of the call, which no other call over the channel has.
    pub id: u64,
    /// What is asked.
    pub message: T,
}

/// What a client says.
#[derive(Debug)]
pub enum ClientMessage<T> {
    /// A call.
    Request(Request<T>),
    /// That a call is no longer of interest.
    Cancel { trace_context: CallTrace, request_id: u64 },
}

/// Why a server gave no answer.
#[derive(Debug)]
pub struct ServerError {
    /// The kind of the error, by its number.
    pub kind: u32,
    /// What more there is to say.
    pub detail: String,
}

/// What a server says to a call.
#[derive(Debug)]
pub struct Response<T> {
    /// The number of the call.
    pub request_id: u64,
    /// The answer.
    pub message: Result<T, ServerError>,
}

/// The numbers that the calls of a process get. Transports over one channel share a counter, which
/// they know by its number here.
#[derive(Debug)]
pub struct RequestIds {
    counters: HashMap<u64, u64>,
    next: u64,
}

/// The state of the counters.
pub struct IdsView {
    /// The number of the next call, for each counter that has counted.
    pub counters: Map<u64, u64>,
    /// The number of the next counter.
    pub next: u64,
}

impl IdsView {
    /// Every counter that has counted was made.
    pub open spec fn well_formed(self) -> bool {
        forall|counter: u64| #[trigger]
            self.counters.contains_key(counter) ==> counter < self.next
    }

    /// The number of the next call that a counter counts. The first one is zero.
    pub open spec fn at(self, counter: u64) -> u64 {
        if self.counters.contains_key(counter) {
            self.counters[counter]
        } else {
            0
        }
    }

    /// Once a counter has counted a call.
    pub open spec fn counted(self, counter: u64) -> IdsView {
        IdsView { counters: self.counters.insert(counter, id_after(self.at(counter))), ..self }
    }
}

impl View for RequestIds {
    type V = IdsView;

    closed spec fn view(&self) -> IdsView {
        IdsView { counters: self.counters@, next: self.next }
    }
}

/// The number after `id`. After the greatest one, it begins again.
pub open spec fn id_after(id: u64) -> u64 {
    if id == u64::MAX {
        0
    } else {
        (id + 1) as u64
    }
}

impl RequestIds {
    /// There is no counter yet.
    pub fn new() -> (r: Self)
        ensures
            r@ == (IdsView { counters: Map::empty(), next: 0 }),
            r@.well_formed(),
    {
        RequestIds { counters: HashMap::new(), next: 0 }
    }

    /// Whether another counter can be made.
    pub fn can_add(&self) -> (r: bool)
        ensures
            r == (self@.next < u64::MAX),
    {
        self.next < u64::MAX
    }

    /// Makes a counter that has counted nothing.
    pub fn add_counter(&mut self) -> (counter: u64)
        requires
            old(self)@.well_formed(),
            old(self)@.next < u64::MAX,
        ensures
            counter == old(self)@.next,
            final(self)@ == (IdsView { next: (counter + 1) as u64, ..old(self)@ }),
            final(self)@.well_formed(),
            final(self)@.at(counter) == 0,
    {
        let counter: u64 = self.next;
        self.next = counter + 1;
        counter
    }

    /// The number of the next call that a counter counts.
    pub fn take(&mut self, counter: u64) -> (id: u64)
        ensures
            id == old(self)@.at(counter),
            final(self)@ == old(self)@.counted(counter),
    {
        broadcast use group_hash_axioms;

        let id: u64 = match self.counters.get(&counter) {
            Some(id) => *id,
            None => 0,
        };
        self.counters.insert(counter, id.wrapping_add(1));
        id
    }
}

/// The numbers of as many calls as there are numbers are all different.
pub proof fn request_ids_do_not_repeat(first: u64, i: nat, j: nat)
    requires
        i < j <= u64::MAX,
    ensures
        id_of_call(first, i) != id_of_call(first, j),
{
    lemma_id_of_call(first, i);
    lemma_id_of_call(first, j);
}

/// The counters after some calls, each over a transport with the given counter.
pub open spec fn after_calls(ids: IdsView, calls: Seq<u64>) -> IdsView
    decreases calls.len(),
{
    if calls.len() == 0 {
        ids
    } else {
        after_calls(ids, calls.drop_last()).counted(calls.last())
    }
}

/// The number of a call among some calls, each over a transport with the given counter.
pub open spec fn number_of(ids: IdsView, calls: Seq<u64>, i: int) -> u64 {
    after_calls(ids, calls.take(i)).at(calls[i])
}

/// How many calls a counter has counted.
pub open spec fn calls_of(calls: Seq<u64>, counter: u64) -> nat
    decreases calls.len(),
{
    if calls.len() == 0 {
        0
    } else if calls.last() == counter {
        calls_of(calls.drop_last(), counter) + 1
    } else {
        calls_of(calls.drop_last(), counter)
    }
}

/// Two calls over a channel have different numbers, whichever of the transports that share its
/// counter they are made over, and whatever calls are made over other channels.
pub proof fn calls_over_a_channel_differ(ids: IdsView, calls: Seq<u64>, i: int, j: int)
    requires
        0 <= i < j < calls.len() <= u64::MAX,
        calls[i] == calls[j],
    ensures
        number_of(ids, calls, i) != number_of(ids, calls, j),
{
    let counter = calls[i];
    lemma_counted(ids, calls.take(i), counter);
    lemma_counted(ids, calls.take(j), counter);
    lemma_calls_of(calls, counter, i, i + 1);
    lemma_calls_of(calls, counter, i + 1, j);
    assert(calls.take(i + 1).drop_last() =~= calls.take(i));
    request_ids_do_not_repeat(
        ids.at(counter),
        calls_of(calls.take(i), counter),
        calls_of(calls.take(j), counter),
    );
}

/// A counter goes on by one with each call that it counts, and with no other.
proof fn lemma_counted(ids: IdsView, calls: Seq<u64>, counter: u64)
    ensures
        after_calls(ids, calls).at(counter) == id_of_call(
            ids.at(counter),
            calls_of(calls, counter),
        ),
    decreases calls.len(),
{
    if calls.len() > 0 {
        lemma_counted(ids, calls.drop_last(), counter);
    }
}

/// More calls are counted over time, and no more than there are.
proof fn lemma_calls_of(calls: Seq<u64>, counter: u64, i: int, j: int)
    requires
        0 <= i <= j <= calls.len(),
    ensures
        calls_of(calls.take(i), counter) <= calls_of(calls.take(j), counter) <= j,
    decreases j,
{
    if j > 0 {
        assert(calls.take(j).drop_last() =~= calls.take(j - 1));
        if i < j {
            lemma_calls_of(calls, counter, i, j - 1);
        } else {
            lemma_calls_of(calls, counter, j - 1, j - 1);
        }
    }
}

/// The number of the call with the index `i`, when the first call has the number `first`.
pub open spec fn id_of_call(first: u64, i: nat) -> u64
    decreases i,
{
    if i == 0 {
        first
    } else {
        id_after(id_of_call(first, (i - 1) as nat))
    }
}

proof fn lemma_id_of_call(first: u64, i: nat)
    requires
        i <= u64::MAX,
    ensures
        id_of_call(first, i) == (if first + i <= u64::MAX {
            first + i
        } else {
            first + i - u64::MAX - 1
        }),
    decreases i,
{
    if i > 0 {
        lemma_id_of_call(first, (i - 1) as nat);
    }
}

/// The call with a given context, and the next number of a counter. A deadline takes the place of
/// that of the context.
pub fn client_message_in<T>(
    context: Context,
    item: T,
    deadline: Option<Nanos>,
    counter: u64,
    ids: &mut RequestIds,
) -> (r: ClientMessage<T>)
    ensures
        final(ids)@ == old(ids)@.counted(counter),
        r == ClientMessage::Request(
            (Request {
                context: (Context {
                    deadline: (match deadline {
                        Some(deadline) => deadline,
                        None => context.deadline,
                    }),
                    trace_context: context.trace_context,
                }),
                id: old(ids)@.at(counter),
                message: item,
            }),
        ),
{
    let mut context = context;
    if let Some(deadline) = deadline {
        context.deadline = deadline;
    }
    let id: u64 = ids.take(counter);
    ClientMessage::Request(Request { context, id, message: item })
}

/// A counter counts its own calls, one after the other and round the end of the numbers, and no
/// others. One that has counted nothing is at zero.
pub proof fn counters_are_apart(ids: IdsView, counter: u64, other: u64)
    ensures
        ids.at(counter) < u64::MAX ==> ids.counted(counter).at(counter) == ids.at(counter) + 1,
        ids.at(counter) == u64::MAX ==> ids.counted(counter).at(counter) == 0,
        other != counter ==> ids.counted(counter).at(other) == ids.at(other),
        ids.counted(counter).next == ids.next,
        ids.well_formed() && counter >= ids.next ==> ids.at(counter) == 0,
{
}

} // verus!
