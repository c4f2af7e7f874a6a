//! Puts the traces together, of the events that are told.
use std::collections::BTreeMap;

use vstd::prelude::*;
use vstd::std_specs::iter::IteratorSpec;
use vstd::string::*;

use crate::assoc::{distinct_keys, entry_is_found, entry_is_gone, has_key, lemma_mapped};
use crate::assoc::{key_is_looked_up, lemma_first_place, lemma_place, mapped, place, value_of};
use crate::assoc::{with_entry, without_entry, AssocMap};
use crate::handle_table::{HandleTable, TableView};
use crate::id::{Id, IdView};
use crate::pb::{chunk_views, span_views, ChunkView, PayloadView, Span, SpanView};
use crate::pb::{text_of, TraceChunk, TracerPayload};
use crate::trace_events::{
    Event, EventConsume, EventView, SpanFinished, SpanFinishedView, SpanStart, SpanStartView,
};
use crate::trace_events::span_says_what_its_beginning_says;
use crate::typed::transfer::{released_all, TransferHandles};

verus! {

/// The seconds between the end of a trace and its report.
pub const CULL_DELAY: u64 = 2;

/// The system that the traces come from.
#[derive(Debug)]
pub struct SystemInfo {
    pub env: String,
    pub hostname: String,
}

impl Clone for SystemInfo {
    fn clone(&self) -> (r: Self)
        ensures
            r.env@ == self.env@,
            r.hostname@ == self.hostname@,
    {
        SystemInfo { env: self.env.clone(), hostname: self.hostname.clone() }
    }
}

/// The beginnings of the spans of a trace.
pub type Starts = AssocMap<Id, Box<SpanStart>>;

/// What the beginning of a span says.
pub open spec fn start_view() -> spec_fn(Box<SpanStart>) -> SpanStartView {
    |start: Box<SpanStart>| start@
}

/// What the beginnings of some spans say.
pub open spec fn starts_view() -> spec_fn(Starts) -> Seq<(IdView, SpanStartView)> {
    |starts: Starts| mapped(starts@, start_view())
}

/// What some events say.
pub open spec fn events_view() -> spec_fn(Vec<Event>) -> Seq<EventView> {
    |events: Vec<Event>| event_views(events@)
}

/// What some events say.
pub open spec fn event_views(events: Seq<Event>) -> Seq<EventView> {
    Seq::new(events.len(), |i: int| events[i]@)
}

/// What some identifiers are.
pub open spec fn id_views(ids: Seq<Id>) -> Seq<IdView> {
    Seq::new(ids.len(), |i: int| ids[i]@)
}

/// The identifiers that are to be reported at one time.
pub open spec fn ids_view() -> spec_fn(Vec<Id>) -> Seq<IdView> {
    |ids: Vec<Id>| id_views(ids@)
}

/// The state of a collector.
pub struct CollectorView {
    pub env: Seq<char>,
    pub hostname: Seq<char>,
    /// The spans that have begun, by their traces.
    pub span_starts: Seq<(IdView, Seq<(IdView, SpanStartView)>)>,
    /// The traces to report, by the time in seconds from which on they are reported.
    pub cull_list: Map<u64, Seq<IdView>>,
    /// The other events, by their traces.
    pub events: Seq<(IdView, Seq<EventView>)>,
    /// When a trace was last heard of.
    pub last_seen: Seq<(IdView, u64)>,
}

impl CollectorView {
    /// No trace stands in one of the maps twice, and no span twice in its trace.
    pub open spec fn well_formed(self) -> bool {
        &&& distinct_keys(self.span_starts)
        &&& distinct_keys(self.events)
        &&& distinct_keys(self.last_seen)
        &&& forall|i: int|
            0 <= i < self.span_starts.len() ==> distinct_keys((#[trigger] self.span_starts[i]).1)
    }

    /// The spans of a trace that have begun.
    pub open spec fn starts_of(self, trace_id: IdView) -> Seq<(IdView, SpanStartView)> {
        match value_of(self.span_starts, trace_id) {
            Some(starts) => starts,
            None => Seq::empty(),
        }
    }

    /// The other events of a trace.
    pub open spec fn events_of(self, trace_id: IdView) -> Seq<EventView> {
        match value_of(self.events, trace_id) {
            Some(events) => events,
            None => Seq::empty(),
        }
    }

    /// Once something was heard of a trace.
    pub open spec fn seen(self, trace_id: IdView, at: u64) -> CollectorView {
        CollectorView { last_seen: with_entry(self.last_seen, trace_id, at), ..self }
    }

    /// Once the beginning of a span was told.
    pub open spec fn started(self, start: SpanStartView) -> CollectorView {
        CollectorView {
            span_starts: with_entry(
                self.span_starts,
                start.trace_id,
                with_entry(self.starts_of(start.trace_id), start.id, start),
            ),
            ..self
        }
    }

    /// Once an event was kept.
    pub open spec fn stored(self, event: EventView) -> CollectorView {
        CollectorView {
            events: with_entry(
                self.events,
                event.trace_id(),
                self.events_of(event.trace_id()).push(event),
            ),
            ..self
        }
    }

    /// Once a trace was put on the list of those to report.
    pub open spec fn culled(self, trace_id: IdView, now: u64) -> CollectorView {
        let time = (now + CULL_DELAY) as u64;
        CollectorView {
            cull_list: self.cull_list.insert(
                time,
                if self.cull_list.contains_key(time) {
                    self.cull_list[time].push(trace_id)
                } else {
                    seq![trace_id]
                },
            ),
            ..self
        }
    }

    /// Once the end of a span was told. A trace is reported when a span has ended that has no
    /// parent, or whose parent is not known though the trace is.
    pub open spec fn finished(self, finished: SpanFinishedView, now: u64) -> CollectorView {
        let event = EventView::SpanFinished(finished);
        let report = match finished.parent_span_id {
            None => true,
            Some(parent) => has_key(self.span_starts, finished.trace_id) && !has_key(
                self.starts_of(finished.trace_id),
                parent,
            ),
        };
        if report {
            self.culled(finished.trace_id, now).stored(event)
        } else {
            self.stored(event)
        }
    }

    /// Without the spans and events of a trace. Where no span of it has begun, its events stay.
    pub open spec fn without_trace(self, trace_id: IdView) -> CollectorView {
        if has_key(self.span_starts, trace_id) {
            CollectorView {
                span_starts: without_entry(self.span_starts, trace_id),
                events: without_entry(self.events, trace_id),
                ..self
            }
        } else {
            self
        }
    }

    /// What is reported of a trace: all its spans that have begun, each with its duration, if it
    /// has ended.
    pub open spec fn chunk(self, trace_id: IdView) -> ChunkView {
        ChunkView {
            priority: -1i32,
            origin: "web_todo"@,
            spans: ended_spans(self.starts_of(trace_id), self.events_of(trace_id)),
            tags: Seq::empty(),
            dropped_trace: false,
        }
    }

    /// Whether a trace can be reported: errors in spans cannot.
    pub open spec fn reportable(self, trace_id: IdView) -> bool {
        has_key(self.span_starts, trace_id) ==> no_errors(self.events_of(trace_id))
    }

    /// The payload that tells of some chunks.
    pub open spec fn payload(self, chunks: Seq<ChunkView>, runtime_id: Seq<char>) -> PayloadView {
        PayloadView {
            container_id: ""@,
            language_name: "shell"@,
            language_version: "1.1"@,
            tracer_version: "todo"@,
            runtime_id,
            chunks,
            tags: Seq::empty(),
            env: self.env,
            hostname: self.hostname,
            app_version: "6.6.6"@,
        }
    }
}

/// Whether no event is an error in a span.
pub open spec fn no_errors(events: Seq<EventView>) -> bool {
    forall|i: int| 0 <= i < events.len() ==> !((#[trigger] events[i]) is ReportError)
}

/// The duration of a span according to some events: that of its last end, if it has ended.
pub open spec fn told_duration(events: Seq<EventView>, span: IdView) -> Option<u64>
    decreases events.len(),
{
    if events.len() == 0 {
        None
    } else {
        match events.last() {
            EventView::SpanFinished(finished) if finished.id == span => Some(finished.duration),
            _ => told_duration(events.drop_last(), span),
        }
    }
}

/// A span with its duration, if it has ended.
pub open spec fn ended(span: SpanView, duration: Option<u64>) -> SpanView {
    match duration {
        Some(duration) => SpanView { duration: duration as i64, ..span },
        None => span,
    }
}

/// The spans that have begun, with their durations.
pub open spec fn ended_spans(
    starts: Seq<(IdView, SpanStartView)>,
    events: Seq<EventView>,
) -> Seq<SpanView> {
    Seq::new(
        starts.len(),
        |i: int| ended(starts[i].1.span(), told_duration(events, starts[i].0)),
    )
}

/// A table once the beginnings of some spans were dropped, in order.
pub open spec fn released_starts(t: TableView, starts: Seq<(IdView, SpanStartView)>) -> TableView
    decreases starts.len(),
{
    if starts.len() == 0 {
        t
    } else {
        released_all(released_starts(t, starts.drop_last()), starts.last().1.handles())
    }
}

/// A table once some events were dropped, in order.
pub open spec fn released_events(t: TableView, events: Seq<EventView>) -> TableView
    decreases events.len(),
{
    if events.len() == 0 {
        t
    } else {
        released_all(released_events(t, events.drop_last()), events.last().handles())
    }
}

/// The collector, the table and the chunks once some traces were reported, in order.
pub open spec fn reported(v: CollectorView, t: TableView, ids: Seq<IdView>) -> (
    CollectorView,
    TableView,
    Seq<ChunkView>,
)
    decreases ids.len(),
{
    if ids.len() == 0 {
        (v, t, Seq::empty())
    } else {
        let (v1, t1, chunks) = reported(v, t, ids.drop_last());
        let id = ids.last();
        if has_key(v1.span_starts, id) {
            (
                v1.without_trace(id),
                released_events(released_starts(t1, v1.starts_of(id)), v1.events_of(id)),
                chunks.push(v1.chunk(id)),
            )
        } else {
            (v1, t1, chunks)
        }
    }
}

/// The traces that are to be reported at a time.
pub open spec fn due(cull_list: Map<u64, Seq<IdView>>, now: u64) -> Set<IdView> {
    Set::new(
        |id: IdView|
            exists|time: u64| #[trigger]
                cull_list.contains_key(time) && time <= now && cull_list[time].contains(id),
    )
}

/// The list of the traces that are to be reported after a time.
pub open spec fn later(cull_list: Map<u64, Seq<IdView>>, now: u64) -> Map<u64, Seq<IdView>> {
    cull_list.restrict(Set::new(|time: u64| time > now))
}

/// Puts the traces together, of the events that are told.
pub struct EventCollector {
    system_info: SystemInfo,
    span_starts: AssocMap<Id, Starts>,
    cull_list: BTreeMap<u64, Vec<Id>>,
    events: AssocMap<Id, Vec<Event>>,
    last_seen: AssocMap<Id, u64>,
}

impl View for EventCollector {
    type V = CollectorView;

    closed spec fn view(&self) -> CollectorView {
        CollectorView {
            env: self.system_info.env@,
            hostname: self.system_info.hostname@,
            span_starts: mapped(self.span_starts@, starts_view()),
            cull_list: self.cull_list@.map_values(ids_view()),
            events: mapped(self.events@, events_view()),
            last_seen: self.last_seen@,
        }
    }
}

impl EventCollector {
    /// Whether the maps in the collector are maps, and every span is kept under its identifier.
    pub closed spec fn well_formed(&self) -> bool {
        &&& self.span_starts.well_formed()
        &&& self.events.well_formed()
        &&& self.last_seen.well_formed()
        &&& forall|i: int|
            0 <= i < self.span_starts@.len() ==> starts_in_order(
                (#[trigger] self.span_starts@[i]).1,
            )
    }

    /// The state of a collector in which all is in order has no key twice.
    pub proof fn state_is_well_formed(&self)
        requires
            self.well_formed(),
        ensures
            self@.well_formed(),
    {
        let trace = IdView::Numeric(0);
        lemma_mapped(self.span_starts@, starts_view(), trace);
        lemma_mapped(self.events@, events_view(), trace);
        assert forall|i: int| 0 <= i < self@.span_starts.len() implies distinct_keys(
            (#[trigger] self@.span_starts[i]).1,
        ) by {
            assert(starts_in_order(self.span_starts@[i].1));
            lemma_mapped(self.span_starts@[i].1@, start_view(), trace);
        }
    }

    /// A trace that was taken out is not there to be taken out again: what is left says nothing
    /// of it, and taking it out again changes nothing.
    pub proof fn trace_is_taken_once(&self, id: IdView)
        requires
            self.well_formed(),
        ensures
            !has_key(self@.without_trace(id).span_starts, id),
            self@.without_trace(id).without_trace(id) == self@.without_trace(id),
            has_key(self@.span_starts, id) ==> self@.without_trace(id).events_of(id)
                == Seq::<EventView>::empty(),
    {
        self.state_is_well_formed();
        entry_is_gone(self@.span_starts, id, id);
        entry_is_gone(self@.events, id, id);
    }

    /// The collector that was told nothing yet.
    pub fn init(system_info: SystemInfo) -> (r: Self)
        ensures
            r.well_formed(),
            r@ == (CollectorView {
                env: system_info.env@,
                hostname: system_info.hostname@,
                span_starts: Seq::empty(),
                cull_list: Map::empty(),
                events: Seq::empty(),
                last_seen: Seq::empty(),
            }),
    {
        let r = EventCollector {
            system_info,
            span_starts: AssocMap::new(),
            cull_list: BTreeMap::new(),
            events: AssocMap::new(),
            last_seen: AssocMap::new(),
        };
        assert(r@.span_starts =~= Seq::empty());
        assert(r@.events =~= Seq::empty());
        assert(r@.cull_list =~= Map::empty());
        r
    }

    /// Notes that something was heard of a trace.
    pub fn update_last_seen(&mut self, trace_id: &Id, seen_at: u64)
        requires
            old(self).well_formed(),
        ensures
            final(self).well_formed(),
            final(self)@ == old(self)@.seen(trace_id@, seen_at),
    {
        self.last_seen.insert(trace_id.clone(), seen_at);
    }

    /// Takes note of the beginning of a span. One that was told before under the same identifier
    /// is dropped.
    pub fn on_span_start(
        &mut self,
        span_start: Box<SpanStart>,
        seen_at: u64,
        table: &mut HandleTable,
    )
        requires
            old(self).well_formed(),
            old(table)@.well_formed(),
        ensures
            final(self).well_formed(),
            final(table)@.well_formed(),
            final(self)@ == old(self)@.seen(span_start@.trace_id, seen_at).started(span_start@),
            final(table)@ == (match value_of(
                old(self)@.starts_of(span_start@.trace_id),
                span_start@.id,
            ) {
                Some(replaced) => released_all(old(table)@, replaced.handles()),
                None => old(table)@,
            }),
    {
        self.update_last_seen(&span_start.trace_id, seen_at);
        let ghost start = span_start@;
        let ghost before = self.span_starts@;
        let trace_id = span_start.trace_id.clone();
        proof {
            lemma_mapped(before, starts_view(), start.trace_id);
            lemma_place(before, start.trace_id);
        }
        let replaced = match self.span_starts.get_mut(&trace_id) {
            Some(starts) => add_start(starts, span_start),
            None => {
                let mut starts: Starts = AssocMap::new();
                assert(starts_view()(starts) =~= Seq::<(IdView, SpanStartView)>::empty());
                let replaced = add_start(&mut starts, span_start);
                self.span_starts.insert(trace_id, starts);
                replaced
            },
        };
        match replaced {
            Some(replaced) => {
                let replaced: SpanStart = *replaced;
                replaced.release_handles(table);
            },
            None => {},
        }
    }

    /// Puts a trace on the list of those to report.
    pub fn cull(&mut self, trace_id: &Id, now: u64)
        requires
            old(self).well_formed(),
            now <= u64::MAX - CULL_DELAY,
        ensures
            final(self).well_formed(),
            final(self)@ == old(self)@.culled(trace_id@, now),
    {
        broadcast use {vstd::std_specs::btree::group_btree_axioms, vstd::laws_cmp::group_laws_cmp};

        let time: u64 = now + CULL_DELAY;
        let mut ids: Vec<Id> = match self.cull_list.remove(&time) {
            Some(ids) => ids,
            None => Vec::new(),
        };
        let ghost before = ids@;
        ids.push(trace_id.clone());
        assert(id_views(ids@) =~= id_views(before).push(trace_id@));
        assert(ids_view()(ids) == id_views(ids@));
        self.cull_list.insert(time, ids);
        assert(id_views(Seq::<Id>::empty()).push(trace_id@) =~= seq![trace_id@]);
        assert(self@.cull_list =~= old(self)@.culled(trace_id@, now).cull_list);
    }

    /// Keeps an event until its trace is reported.
    pub fn store_event(&mut self, ev: Event)
        requires
            old(self).well_formed(),
        ensures
            final(self).well_formed(),
            final(self)@ == old(self)@.stored(ev@),
    {
        let ghost event = ev@;
        let ghost before = self.events@;
        let trace_id = ev.trace_id().clone();
        proof {
            lemma_mapped(before, events_view(), event.trace_id());
            lemma_place(before, event.trace_id());
        }
        match self.events.get_mut(&trace_id) {
            Some(events) => {
                let ghost told = events@;
                events.push(ev);
                assert(event_views(events@) =~= event_views(told).push(event));
                assert(events_view()(*events) == event_views(events@));
            },
            None => {
                let mut events: Vec<Event> = Vec::new();
                events.push(ev);
                assert(event_views(events@) =~= Seq::<EventView>::empty().push(event));
                assert(events_view()(events) == event_views(events@));
                self.events.insert(trace_id, events);
            },
        }
    }

    /// Takes note of the end of a span.
    pub fn on_span_finished(&mut self, span_finished: SpanFinished, seen_at: u64, now: u64)
        requires
            old(self).well_formed(),
            now <= u64::MAX - CULL_DELAY,
        ensures
            final(self).well_formed(),
            final(self)@ == old(self)@.seen(span_finished@.trace_id, seen_at).finished(
                span_finished@,
                now,
            ),
    {
        self.update_last_seen(&span_finished.trace_id, seen_at);
        let parent_id = match &span_finished.parent_span_id {
            Some(id) => id,
            None => {
                self.cull(&span_finished.trace_id, now);
                self.store_event(Event::SpanFinished(span_finished));
                return;
            },
        };
        proof {
            lemma_mapped(self.span_starts@, starts_view(), span_finished@.trace_id);
        }
        let report: bool = match self.span_starts.get(&span_finished.trace_id) {
            Some(starts) => {
                proof {
                    lemma_mapped(starts@, start_view(), parent_id@);
                }
                !starts.contains_key(parent_id)
            },
            None => false,
        };
        if report {
            self.cull(&span_finished.trace_id, now);
        }
        self.store_event(Event::SpanFinished(span_finished));
    }

    /// Takes note of an event that is neither the beginning nor the end of a span.
    pub fn on_unmatched_event(&mut self, ev: Event, seen_at: u64)
        requires
            old(self).well_formed(),
        ensures
            final(self).well_formed(),
            final(self)@ == old(self)@.seen(ev@.trace_id(), seen_at).stored(ev@),
    {
        self.update_last_seen(ev.trace_id(), seen_at);
        self.store_event(ev);
    }

    /// Takes note of an event. It was heard of at `seen_at`, and traces that it completes are
    /// reported some time after `now`.
    pub fn on_event(&mut self, ev: Event, seen_at: u64, now: u64, table: &mut HandleTable)
        requires
            old(self).well_formed(),
            old(table)@.well_formed(),
            now <= u64::MAX - CULL_DELAY,
        ensures
            final(self).well_formed(),
            final(table)@.well_formed(),
            match ev@ {
                EventView::StartSpan(start) => {
                    &&& final(self)@ == old(self)@.seen(start.trace_id, seen_at).started(start)
                    &&& final(table)@ == (match value_of(
                        old(self)@.starts_of(start.trace_id),
                        start.id,
                    ) {
                        Some(replaced) => released_all(old(table)@, replaced.handles()),
                        None => old(table)@,
                    })
                },
                EventView::SpanFinished(finished) => {
                    &&& final(self)@ == old(self)@.seen(finished.trace_id, seen_at).finished(
                        finished,
                        now,
                    )
                    &&& final(table)@ == old(table)@
                },
                EventView::ReportError { .. } => {
                    &&& final(self)@ == old(self)@.seen(ev@.trace_id(), seen_at).stored(ev@)
                    &&& final(table)@ == old(table)@
                },
            },
    {
        match ev {
            Event::StartSpan(s) => {
                self.on_span_start(s, seen_at, table);
            },
            Event::SpanFinished(s) => {
                self.on_span_finished(s, seen_at, now);
            },
            ev => {
                self.on_unmatched_event(ev, seen_at);
            },
        }
    }

    /// Takes a trace out of the collector, if a span of it has begun, and puts it together.
    pub fn reassemble_trace_chunk(&mut self, id: &Id, table: &mut HandleTable) -> (r: Option<
        TraceChunk,
    >)
        requires
            old(self).well_formed(),
            old(table)@.well_formed(),
            old(self)@.reportable(id@),
        ensures
            final(self).well_formed(),
            final(table)@.well_formed(),
            match r {
                Some(chunk) => {
                    &&& has_key(old(self)@.span_starts, id@)
                    &&& chunk@ == old(self)@.chunk(id@)
                    &&& chunk.well_formed()
                    &&& final(self)@ == old(self)@.without_trace(id@)
                    &&& final(table)@ == released_events(
                        released_starts(old(table)@, old(self)@.starts_of(id@)),
                        old(self)@.events_of(id@),
                    )
                },
                None => {
                    &&& !has_key(old(self)@.span_starts, id@)
                    &&& final(self)@ == old(self)@
                    &&& final(table)@ == old(table)@
                },
            },
    {
        proof {
            lemma_mapped(self.span_starts@, starts_view(), id@);
            lemma_mapped(self.events@, events_view(), id@);
            lemma_place(self.span_starts@, id@);
            lemma_place(self.events@, id@);
        }
        let span_starts = match self.span_starts.remove(id) {
            Some(starts) => starts,
            None => {
                return None;
            },
        };
        assert(starts_in_order(span_starts));
        let events: Vec<Event> = match self.events.remove(id) {
            Some(events) => events,
            None => Vec::new(),
        };
        assert(starts_view()(span_starts) == old(self)@.starts_of(id@));
        assert(event_views(events@) =~= old(self)@.events_of(id@));
        let mut spans = begun(span_starts, table);
        end_spans(&mut spans, events, table);
        let ghost shown = mapped(spans@, span_view());
        let ghost starts = old(self)@.starts_of(id@);
        let spans = into_spans(spans);
        proof {
            let expected = old(self)@.chunk(id@).spans;
            assert(shown.len() == spans@.len());
            assert forall|i: int| 0 <= i < spans@.len() implies span_views(spans@)[i]
                == #[trigger] expected[i] by {
                assert(shown[i].1 == spans@[i]@);
                assert(begun_spans(starts)[i].1 == starts[i].1.span());
            }
            assert(span_views(spans@) =~= expected);
        }
        let tags: AssocMap<String, String> = AssocMap::new();
        assert(mapped(tags@, text_of()) =~= Seq::<(Seq<char>, Seq<char>)>::empty());
        Some(
            TraceChunk {
                priority: -1,
                origin: String::from_str("web_todo"),
                spans,
                tags,
                dropped_trace: false,
            },
        )
    }

    /// The payload that tells of some chunks.
    pub fn payload_of(&self, chunks: Vec<TraceChunk>, runtime_id: String) -> (r: TracerPayload)
        requires
            forall|i: int| 0 <= i < chunks@.len() ==> (#[trigger] chunks@[i]).well_formed(),
        ensures
            r@ == self@.payload(chunk_views(chunks@), runtime_id@),
            r.well_formed(),
    {
        let tags: AssocMap<String, String> = AssocMap::new();
        assert(mapped(tags@, text_of()) =~= Seq::<(Seq<char>, Seq<char>)>::empty());
        TracerPayload {
            container_id: String::from_str(""),
            language_name: String::from_str("shell"),
            language_version: String::from_str("1.1"),
            tracer_version: String::from_str("todo"),
            runtime_id,
            chunks,
            tags,
            env: self.system_info.env.clone(),
            hostname: self.system_info.hostname.clone(),
            app_version: String::from_str("6.6.6"),
        }
    }

    /// Takes some traces out of the collector and puts them together in one payload, if a span of
    /// one of them has begun.
    pub fn reassemble_payloads(&mut self, trace_ids: &Vec<Id>, table: &mut HandleTable) -> (r:
        Option<TracerPayload>)
        requires
            old(self).well_formed(),
            old(table)@.well_formed(),
            id_views(trace_ids@).no_duplicates(),
            forall|i: int|
                0 <= i < trace_ids@.len() ==> old(self)@.reportable((#[trigger] trace_ids@[i])@),
        ensures
            final(self).well_formed(),
            final(table)@.well_formed(),
            is_report(
                r,
                old(self)@,
                old(table)@,
                id_views(trace_ids@),
                final(self)@,
                final(table)@,
            ),
    {
        let ghost v0 = self@;
        let ghost t0 = table@;
        let ghost ids = id_views(trace_ids@);
        let mut chunks: Vec<TraceChunk> = Vec::new();
        assert(chunk_views(chunks@) =~= Seq::<ChunkView>::empty());
        for i in 0..trace_ids.len()
            invariant
                self.well_formed(),
                table@.well_formed(),
                ids == id_views(trace_ids@),
                ids.no_duplicates(),
                forall|j: int|
                    0 <= j < trace_ids@.len() ==> v0.reportable((#[trigger] trace_ids@[j])@),
                distinct_keys(v0.span_starts),
                distinct_keys(v0.events),
                (self@, table@, chunk_views(chunks@)) == reported(v0, t0, ids.take(i as int)),
                forall|j: int| 0 <= j < chunks@.len() ==> (#[trigger] chunks@[j]).well_formed(),
        {
            let ghost before = chunks@;
            proof {
                assert(ids.take(i + 1).drop_last() =~= ids.take(i as int));
                assert(ids.take(i + 1).last() == trace_ids@[i as int]@);
                assert(v0.reportable(trace_ids@[i as int]@));
                assert forall|j: int| 0 <= j < i implies ids.take(i as int)[j]
                    != trace_ids@[i as int]@ by {
                    assert(ids[j] != ids[i as int]);
                }
                lemma_other_trace(v0, t0, ids.take(i as int), trace_ids@[i as int]@);
            }
            match self.reassemble_trace_chunk(&trace_ids[i], table) {
                Some(chunk) => {
                    chunks.push(chunk);
                    assert(chunk_views(chunks@) =~= chunk_views(before).push(chunk@));
                },
                None => {},
            }
        }
        assert(ids.take(ids.len() as int) =~= ids);
        proof {
            lemma_same_system(v0, t0, ids);
        }
        if chunks.len() == 0 {
            return None;
        }
        let runtime_id = new_runtime_id();
        Some(self.payload_of(chunks, runtime_id))
    }

    /// Takes the traces from the list whose time has come.
    fn take_due(&mut self, now: u64) -> (r: Vec<Id>)
        requires
            old(self).well_formed(),
        ensures
            final(self).well_formed(),
            final(self)@ == (CollectorView {
                cull_list: later(old(self)@.cull_list, now),
                ..old(self)@
            }),
            id_views(r@).no_duplicates(),
            id_views(r@).to_set() == due(old(self)@.cull_list, now),
    {
        let keys_to_cull = self.due_times(now);
        let mut trace_ids: Vec<Id> = Vec::new();
        let ghost list = self@.cull_list;
        let ghost before = self@;
        proof {
            assert forall|j: int| 0 <= j < keys_to_cull@.len() implies list.contains_key(
                #[trigger] keys_to_cull@[j],
            ) && keys_to_cull@[j] <= now by {
                assert(keys_to_cull@.contains(keys_to_cull@[j]));
            }
        }
        for i in 0..keys_to_cull.len()
            invariant
                self.well_formed(),
                self@ == (CollectorView { cull_list: self@.cull_list, ..before }),
                keys_to_cull@.no_duplicates(),
                forall|j: int|
                    0 <= j < keys_to_cull@.len() ==> list.contains_key(
                        #[trigger] keys_to_cull@[j],
                    ),
                forall|time: u64| #[trigger]
                    self@.cull_list.contains_key(time) <==> list.contains_key(time) && !exists|
                        j: int,
                    |
                        0 <= j < i && #[trigger] keys_to_cull@[j] == time,
                forall|time: u64| #[trigger]
                    self@.cull_list.contains_key(time) ==> self@.cull_list[time] == list[time],
                id_views(trace_ids@).no_duplicates(),
                forall|id: IdView| #[trigger]
                    id_views(trace_ids@).contains(id) <==> exists|j: int|
                        0 <= j < i && list[#[trigger] keys_to_cull@[j]].contains(id),
        {
            let key: u64 = keys_to_cull[i];
            let ghost so_far = id_views(trace_ids@);
            assert(list.contains_key(keys_to_cull@[i as int]));
            assert(self@.cull_list.contains_key(key));
            let ids = self.take_ids(key);
            add_new(&mut trace_ids, ids);
            assert forall|id: IdView| #[trigger]
                id_views(trace_ids@).contains(id) <==> exists|j: int|
                    0 <= j < i + 1 && list[#[trigger] keys_to_cull@[j]].contains(id) by {
                if list[key].contains(id) {
                    assert(list[keys_to_cull@[i as int]].contains(id));
                }
                if so_far.contains(id) {
                    let j = choose|j: int|
                        0 <= j < i && list[#[trigger] keys_to_cull@[j]].contains(id);
                    assert(list[keys_to_cull@[j]].contains(id));
                }
            }
        }
        proof {
            assert forall|time: u64|
                list.contains_key(time) && time <= now implies exists|j: int|
                0 <= j < keys_to_cull@.len() && #[trigger] keys_to_cull@[j] == time by {
                assert(keys_to_cull@.contains(time));
            }
            assert(self@.cull_list =~= later(list, now));
            assert forall|id: IdView| id_views(trace_ids@).to_set().contains(id) <==> due(
                list,
                now,
            ).contains(id) by {
                if due(list, now).contains(id) {
                    let time = choose|time: u64| #[trigger]
                        list.contains_key(time) && time <= now && list[time].contains(id);
                    let j = choose|j: int|
                        0 <= j < keys_to_cull@.len() && #[trigger] keys_to_cull@[j] == time;
                    assert(list[keys_to_cull@[j]].contains(id));
                }
            }
            assert(id_views(trace_ids@).to_set() =~= due(list, now));
        }
        trace_ids
    }

    fn due_times(&self, now: u64) -> (r: Vec<u64>)
        ensures
            r@.no_duplicates(),
            forall|time: u64| #[trigger]
                r@.contains(time) <==> self@.cull_list.contains_key(time) && time <= now,
    {
        broadcast use {vstd::std_specs::btree::group_btree_axioms, vstd::laws_cmp::group_laws_cmp};

        let ghost keys = vstd::std_specs::btree::spec_keys_iter(&self.cull_list).remaining();
        let mut times: Vec<u64> = Vec::new();
        for time in iter: self.cull_list.keys()
            invariant
                iter.seq() == keys,
                keys.no_duplicates(),
                times@.no_duplicates(),
                forall|time: u64| #[trigger]
                    times@.contains(time) <==> exists|j: int|
                        0 <= j < iter.index() && *(#[trigger] keys[j]) == time && time <= now,
        {
            let ghost i = iter.index();
            let ghost so_far = times@;
            assert(*keys[i] == *time);
            if *time <= now {
                proof {
                    if so_far.contains(*time) {
                        let j = choose|j: int|
                            0 <= j < i && *(#[trigger] keys[j]) == *time && *time <= now;
                        assert(keys[j] == keys[i]);
                    }
                }
                times.push(*time);
                assert forall|other: u64| #[trigger]
                    times@.contains(other) <==> so_far.contains(other) || other == *time by {
                    if so_far.contains(other) {
                        let j = so_far.index_of(other);
                        assert(times@[j] == other);
                    }
                    assert(times@[times@.len() - 1] == *time);
                }
            }
        }
        proof {
            assert forall|time: u64| self.cull_list@.contains_key(time) <==> exists|j: int|
                0 <= j < keys.len() && *(#[trigger] keys[j]) == time by {
                assert(keys.unref().to_set() == self.cull_list@.dom());
                if self.cull_list@.contains_key(time) {
                    assert(keys.unref().to_set().contains(time));
                    let j = keys.unref().index_of(time);
                    assert(*keys[j] == time);
                }
                if exists|j: int| 0 <= j < keys.len() && *(#[trigger] keys[j]) == time {
                    let j = choose|j: int| 0 <= j < keys.len() && *(#[trigger] keys[j]) == time;
                    assert(keys.unref()[j] == time);
                    assert(keys.unref().to_set().contains(time));
                }
            }
        }
        times
    }

    /// Whether all traces whose time has come can be reported.
    pub fn reportable_at(&self, now: u64) -> (r: bool)
        ensures
            r == (forall|id: IdView|
                due(self@.cull_list, now).contains(id) ==> #[trigger] self@.reportable(id)),
    {
        let times = self.due_times(now);
        proof {
            assert forall|j: int| 0 <= j < times@.len() implies self@.cull_list.contains_key(
                #[trigger] times@[j],
            ) && times@[j] <= now by {
                assert(times@.contains(times@[j]));
            }
        }
        for i in 0..times.len()
            invariant
                forall|j: int|
                    0 <= j < times@.len() ==> self@.cull_list.contains_key(#[trigger] times@[j])
                        && times@[j] <= now,
                forall|j: int, id: IdView|
                    #![trigger self@.cull_list[times@[j]].contains(id)]
                    0 <= j < i && self@.cull_list[times@[j]].contains(id) ==> self@.reportable(id),
        {
            assert(self@.cull_list.contains_key(times@[i as int]));
            if !self.reportable_ids(times[i]) {
                proof {
                    let id = choose|id: IdView|
                        #![trigger self@.cull_list[times@[i as int]].contains(id)]
                        self@.cull_list[times@[i as int]].contains(id) && !self@.reportable(id);
                    assert(self@.cull_list.contains_key(times@[i as int]));
                    assert(due(self@.cull_list, now).contains(id));
                }
                return false;
            }
        }
        proof {
            assert forall|id: IdView| due(self@.cull_list, now).contains(
                id,
            ) implies #[trigger] self@.reportable(id) by {
                let time = choose|time: u64| #[trigger]
                    self@.cull_list.contains_key(time) && time <= now
                        && self@.cull_list[time].contains(id);
                assert(times@.contains(time));
                let j = times@.index_of(time);
                assert(self@.cull_list[times@[j]].contains(id));
            }
        }
        true
    }

    fn reportable_ids(&self, time: u64) -> (r: bool)
        requires
            self@.cull_list.contains_key(time),
        ensures
            r == (forall|id: IdView| #[trigger]
                self@.cull_list[time].contains(id) ==> self@.reportable(id)),
    {
        broadcast use {vstd::std_specs::btree::group_btree_axioms, vstd::laws_cmp::group_laws_cmp};

        match self.cull_list.get(&time) {
            Some(ids) => {
                assert(self@.cull_list[time] == id_views(ids@));
                self.all_reportable(ids)
            },
            None => true,
        }
    }

    fn all_reportable(&self, ids: &Vec<Id>) -> (r: bool)
        ensures
            r == (forall|id: IdView| #[trigger]
                id_views(ids@).contains(id) ==> self@.reportable(id)),
    {
        for i in 0..ids.len()
            invariant
                forall|j: int| 0 <= j < i ==> self@.reportable(#[trigger] id_views(ids@)[j]),
        {
            if !self.is_reportable(&ids[i]) {
                assert(id_views(ids@)[i as int] == ids@[i as int]@);
                assert(id_views(ids@).contains(ids@[i as int]@));
                return false;
            }
        }
        proof {
            assert forall|id: IdView| #[trigger]
                id_views(ids@).contains(id) implies self@.reportable(id) by {
                let j = id_views(ids@).index_of(id);
                assert(self@.reportable(id_views(ids@)[j]));
            }
        }
        true
    }

    fn is_reportable(&self, id: &Id) -> (r: bool)
        ensures
            r == self@.reportable(id@),
    {
        proof {
            lemma_mapped(self.span_starts@, starts_view(), id@);
            lemma_mapped(self.events@, events_view(), id@);
        }
        if !self.span_starts.contains_key(id) {
            return true;
        }
        match self.events.get(id) {
            Some(events) => {
                assert(event_views(events@) == self@.events_of(id@));
                !has_error(events)
            },
            None => true,
        }
    }

    fn take_ids(&mut self, time: u64) -> (r: Vec<Id>)
        requires
            old(self).well_formed(),
        ensures
            final(self).well_formed(),
            final(self)@ == (CollectorView {
                cull_list: old(self)@.cull_list.remove(time),
                ..old(self)@
            }),
            id_views(r@) == (if old(self)@.cull_list.contains_key(time) {
                old(self)@.cull_list[time]
            } else {
                Seq::empty()
            }),
    {
        broadcast use {vstd::std_specs::btree::group_btree_axioms, vstd::laws_cmp::group_laws_cmp};

        let r: Vec<Id> = match self.cull_list.remove(&time) {
            Some(ids) => ids,
            None => Vec::new(),
        };
        assert(self@.cull_list =~= old(self)@.cull_list.remove(time));
        assert(id_views(Seq::<Id>::empty()) =~= Seq::empty());
        r
    }

    /// Takes the traces out of the collector whose time has come, and puts them together.
    pub fn on_cull_interval(&mut self, now: u64, table: &mut HandleTable) -> (r: Vec<
        Box<TracerPayload>,
    >)
        requires
            old(self).well_formed(),
            old(table)@.well_formed(),
            forall|id: IdView|
                due(old(self)@.cull_list, now).contains(id) ==> #[trigger] old(self)@.reportable(
                    id,
                ),
        ensures
            final(self).well_formed(),
            final(table)@.well_formed(),
            exists|ids: Seq<IdView>|
                {
                    &&& ids.no_duplicates()
                    &&& ids.to_set() == due(old(self)@.cull_list, now)
                    &&& #[trigger] is_cull(
                        r@,
                        old(self)@,
                        old(table)@,
                        now,
                        ids,
                        final(self)@,
                        final(table)@,
                    )
                },
    {
        let trace_ids = self.take_due(now);
        proof {
            assert forall|i: int| 0 <= i < trace_ids@.len() implies self@.reportable(
                (#[trigger] trace_ids@[i])@,
            ) by {
                assert(id_views(trace_ids@)[i] == trace_ids@[i]@);
                assert(id_views(trace_ids@).to_set().contains(trace_ids@[i]@));
                assert(old(self)@.reportable(trace_ids@[i]@));
            }
        }
        let mut payloads: Vec<Box<TracerPayload>> = Vec::new();
        match self.reassemble_payloads(&trace_ids, table) {
            Some(payload) => {
                payloads.push(Box::new(payload));
            },
            None => {},
        }
        assert(is_cull(
            payloads@,
            old(self)@,
            old(table)@,
            now,
            id_views(trace_ids@),
            self@,
            table@,
        ));
        payloads
    }
}

/// Whether `payloads` is the report of the traces `ids` at a time, if there is anything to report,
/// and the collector and the table have changed accordingly. The traces are no longer on the list.
pub open spec fn is_cull(
    payloads: Seq<Box<TracerPayload>>,
    v: CollectorView,
    t: TableView,
    now: u64,
    ids: Seq<IdView>,
    after: CollectorView,
    t_after: TableView,
) -> bool {
    let listed = CollectorView { cull_list: later(v.cull_list, now), ..v };
    if payloads.len() == 0 {
        is_report(None, listed, t, ids, after, t_after)
    } else {
        payloads.len() == 1 && is_report(Some(*payloads[0]), listed, t, ids, after, t_after)
    }
}

fn has_error(events: &Vec<Event>) -> (r: bool)
    ensures
        r == !no_errors(event_views(events@)),
{
    for i in 0..events.len()
        invariant
            forall|j: int| 0 <= j < i ==> !((#[trigger] event_views(events@)[j]) is ReportError),
    {
        if let Event::ReportError(_) = &events[i] {
            assert(event_views(events@)[i as int] is ReportError);
            return true;
        }
    }
    false
}

/// Adds those identifiers that are not there yet.
fn add_new(ids: &mut Vec<Id>, more: Vec<Id>)
    requires
        id_views(old(ids)@).no_duplicates(),
    ensures
        id_views(final(ids)@).no_duplicates(),
        forall|id: IdView| #[trigger]
            id_views(final(ids)@).contains(id) <==> id_views(old(ids)@).contains(id) || id_views(
                more@,
            ).contains(id),
{
    let ghost before = id_views(ids@);
    let ghost all = id_views(more@);
    for id in iter: more
        invariant
            all == id_views(iter.seq()),
            id_views(ids@).no_duplicates(),
            forall|id: IdView| #[trigger]
                id_views(ids@).contains(id) <==> before.contains(id) || all.take(
                    iter.index() as int,
                ).contains(id),
    {
        let ghost i: int = iter.index() as int;
        let ghost so_far = id_views(ids@);
        let ghost next = all.take(i + 1);
        proof {
            assert(next =~= all.take(i).push(id@));
            assert forall|other: IdView| next.contains(other) <==> all.take(i).contains(other)
                || other == id@ by {
                if all.take(i).contains(other) {
                    let j = all.take(i).index_of(other);
                    assert(next[j] == other);
                }
                assert(next[i] == id@);
            }
        }
        if !contains_id(ids, &id) {
            ids.push(id);
            assert(id_views(ids@) =~= so_far.push(id@));
            assert forall|other: IdView| #[trigger]
                id_views(ids@).contains(other) <==> so_far.contains(other) || other == id@ by {
                if so_far.contains(other) {
                    let j = so_far.index_of(other);
                    assert(id_views(ids@)[j] == other);
                }
                assert(id_views(ids@)[so_far.len() as int] == id@);
            }
        }
    }
    assert(all.take(all.len() as int) =~= all);
}

fn contains_id(ids: &Vec<Id>, id: &Id) -> (r: bool)
    ensures
        r == id_views(ids@).contains(id@),
{
    for i in 0..ids.len()
        invariant
            forall|j: int| 0 <= j < i ==> id_views(ids@)[j] != id@,
    {
        if ids[i].same(id) {
            assert(id_views(ids@)[i as int] == id@);
            return true;
        }
    }
    false
}

/// Reporting other traces does not touch a trace.
proof fn lemma_other_trace(v: CollectorView, t: TableView, ids: Seq<IdView>, id: IdView)
    requires
        distinct_keys(v.span_starts),
        distinct_keys(v.events),
        forall|i: int| 0 <= i < ids.len() ==> (#[trigger] ids[i]) != id,
    ensures
        ({
            let v1 = reported(v, t, ids).0;
            &&& value_of(v1.span_starts, id) == value_of(v.span_starts, id)
            &&& value_of(v1.events, id) == value_of(v.events, id)
            &&& distinct_keys(v1.span_starts)
            &&& distinct_keys(v1.events)
        }),
    decreases ids.len(),
{
    if ids.len() > 0 {
        let before = ids.drop_last();
        assert forall|i: int| 0 <= i < before.len() implies (#[trigger] before[i]) != id by {
            assert(before[i] == ids[i]);
        }
        lemma_other_trace(v, t, before, id);
        let v1 = reported(v, t, before).0;
        assert(ids[ids.len() - 1] != id);
        entry_is_gone(v1.span_starts, ids.last(), id);
        entry_is_gone(v1.events, ids.last(), id);
    }
}

/// Reporting traces does not change what is known of the system.
proof fn lemma_same_system(v: CollectorView, t: TableView, ids: Seq<IdView>)
    ensures
        reported(v, t, ids).0.env == v.env,
        reported(v, t, ids).0.hostname == v.hostname,
    decreases ids.len(),
{
    if ids.len() > 0 {
        lemma_same_system(v, t, ids.drop_last());
    }
}

/// Whether `r` tells of some traces, taken in order, and the collector and the table have changed
/// accordingly.
pub open spec fn is_report(
    r: Option<TracerPayload>,
    v: CollectorView,
    t: TableView,
    ids: Seq<IdView>,
    after: CollectorView,
    t_after: TableView,
) -> bool {
    let (v1, t1, chunks) = reported(v, t, ids);
    &&& after == v1
    &&& t_after == t1
    &&& match r {
        Some(payload) => {
            &&& chunks.len() > 0
            &&& payload@ == v.payload(chunks, payload@.runtime_id)
            &&& is_uuid_text(payload@.runtime_id)
            &&& payload.well_formed()
        },
        None => chunks.len() == 0,
    }
}

/// Whether a text is a random UUID: thirty-two hexadecimal digits in groups, the first of the
/// third group a four.
pub open spec fn is_uuid_text(text: Seq<char>) -> bool {
    &&& text.len() == 36
    &&& forall|i: int|
        0 <= i < 36 ==> if i == 8 || i == 13 || i == 18 || i == 23 {
            #[trigger] text[i] == '-'
        } else {
            '0' <= text[i] <= '9' || 'a' <= text[i] <= 'f'
        }
    &&& text[14] == '4'
}

/// `uuid::Uuid::new_v4` makes a random UUID, and `to_string` writes it in hexadecimal digits of
/// lower case, in five groups with hyphens between them. The version in it, which is four, is the
/// first digit of the third group. The other digits are random.
#[verifier::external_body]
fn new_runtime_id() -> (r: String)
    ensures
        is_uuid_text(r@),
{
    uuid::Uuid::new_v4().to_string()
}

/// What a span says.
pub open spec fn span_view() -> spec_fn(Span) -> SpanView {
    |span: Span| span@
}

/// Whether the maps in all spans are maps.
pub open spec fn spans_well_formed(spans: Seq<(IdView, Span)>) -> bool {
    forall|i: int| 0 <= i < spans.len() ==> (#[trigger] spans[i]).1.well_formed()
}

/// The spans that have begun, with their identifiers.
pub open spec fn begun_spans(starts: Seq<(IdView, SpanStartView)>) -> Seq<(IdView, SpanView)> {
    Seq::new(starts.len(), |i: int| (starts[i].0, starts[i].1.span()))
}

/// Spans with their durations.
pub open spec fn with_durations(
    spans: Seq<(IdView, SpanView)>,
    events: Seq<EventView>,
) -> Seq<(IdView, SpanView)> {
    Seq::new(
        spans.len(),
        |i: int| (spans[i].0, ended(spans[i].1, told_duration(events, spans[i].0))),
    )
}

/// The spans that have begun.
fn begun(starts: Starts, table: &mut HandleTable) -> (r: AssocMap<Id, Span>)
    requires
        starts_in_order(starts),
        old(table)@.well_formed(),
    ensures
        r.well_formed(),
        spans_well_formed(r@),
        mapped(r@, span_view()) == begun_spans(starts_view()(starts)),
        final(table)@.well_formed(),
        final(table)@ == released_starts(old(table)@, starts_view()(starts)),
{
    let ghost all = starts_view()(starts);
    let ghost t0 = table@;
    let ghost given = starts@;
    let mut spans: AssocMap<Id, Span> = AssocMap::new();
    assert(mapped(spans@, span_view()) =~= begun_spans(all.take(0)));
    for (key, start) in iter: starts.into_entries()
        invariant
            all == mapped(given, start_view()),
            distinct_keys(given),
            iter.seq().len() == given.len(),
            forall|i: int| 0 <= i < given.len() ==> (#[trigger] given[i]).0 == given[i].1@.id,
            forall|i: int|
                0 <= i < given.len() ==> ((#[trigger] iter.seq()[i]).0@, iter.seq()[i].1)
                    == given[i],
            spans.well_formed(),
            spans_well_formed(spans@),
            mapped(spans@, span_view()) == begun_spans(all.take(iter.index() as int)),
            table@.well_formed(),
            table@ == released_starts(t0, all.take(iter.index() as int)),
    {
        let ghost i: int = iter.index() as int;
        let ghost before = spans@;
        let ghost shown = mapped(before, span_view());
        proof {
            assert((iter.seq()[i].0@, iter.seq()[i].1) == given[i]);
            assert(given[i].0 == given[i].1@.id);
            assert(all.take(i + 1).drop_last() =~= all.take(i));
            assert(shown.len() == i);
            assert(before.len() == i);
            assert forall|j: int| 0 <= j < i implies (#[trigger] before[j]).0 != start@.id by {
                assert(shown[j].0 == all.take(i)[j].0);
                assert(given[j].0 != given[i].0);
            }
            lemma_first_place(before, start@.id, before.len() as int);
        }
        let ghost told = start@;
        let id = start.id.clone();
        let span = Span::from(*start, table);
        spans.insert(id, span);
        assert(spans@ == before.push((told.id, span)));
        assert(mapped(spans@, span_view()) =~= begun_spans(all.take(i + 1))) by {
            assert forall|j: int| 0 <= j < i implies mapped(spans@, span_view())[j]
                == #[trigger] begun_spans(all.take(i + 1))[j] by {
                assert(shown[j] == begun_spans(all.take(i))[j]);
            }
            assert(mapped(spans@, span_view())[i].1 == span@);
            assert(all.take(i + 1)[i] == (told.id, told));
        }
    }
    assert(all.take(all.len() as int) =~= all);
    spans
}

/// Tells the spans what happened to them.
fn end_spans(spans: &mut AssocMap<Id, Span>, events: Vec<Event>, table: &mut HandleTable)
    requires
        old(spans).well_formed(),
        spans_well_formed(old(spans)@),
        no_errors(event_views(events@)),
        old(table)@.well_formed(),
    ensures
        final(spans).well_formed(),
        spans_well_formed(final(spans)@),
        mapped(final(spans)@, span_view()) == with_durations(
            mapped(old(spans)@, span_view()),
            event_views(events@),
        ),
        final(table)@.well_formed(),
        final(table)@ == released_events(old(table)@, event_views(events@)),
{
    let ghost first = mapped(spans@, span_view());
    let ghost told = event_views(events@);
    let ghost t0 = table@;
    assert(first =~= with_durations(first, told.take(0)));
    proof {
        lemma_mapped(spans@, span_view(), IdView::Numeric(0));
    }
    for ev in iter: events
        invariant
            told == event_views(iter.seq()),
            no_errors(told),
            distinct_keys(first),
            spans.well_formed(),
            spans_well_formed(spans@),
            mapped(spans@, span_view()) == with_durations(
                first,
                told.take(iter.index() as int),
            ),
            table@.well_formed(),
            table@ == released_events(t0, told.take(iter.index() as int)),
    {
        let ghost i: int = iter.index() as int;
        let ghost before = spans@;
        let ghost shown = mapped(before, span_view());
        proof {
            assert(told.take(i + 1).drop_last() =~= told.take(i));
            assert(told.take(i + 1).last() == ev@);
            assert(told[i] == ev@);
        }
        let ghost after = with_durations(first, told.take(i + 1));
        match ev {
            Event::SpanFinished(sf) => {
                let ghost id = sf@.id;
                let ghost duration = sf@.duration;
                proof {
                    lemma_mapped(before, span_view(), id);
                    lemma_place(before, id);
                    lemma_place(shown, id);
                }
                match spans.get_mut(&sf.id) {
                    Some(s) => {
                        sf.apply_into(s);
                    },
                    None => {},
                }
                proof {
                    let p = place(shown, id);
                    assert forall|j: int| 0 <= j < first.len() implies mapped(
                        spans@,
                        span_view(),
                    )[j] == #[trigger] after[j] by {
                        assert(shown[j] == with_durations(first, told.take(i))[j]);
                        if j != p && p < first.len() {
                            assert(first[j].0 != first[p].0);
                            assert(shown[p].0 == first[p].0);
                        }
                    }
                    assert(mapped(spans@, span_view()) =~= after);
                }
            },
            Event::StartSpan(start) => {
                let start: SpanStart = *start;
                start.release_handles(table);
                assert(after =~= shown);
            },
            Event::ReportError(_) => {},
        }
    }
    assert(told.take(told.len() as int) =~= told);
}

/// The spans, in order.
fn into_spans(spans: AssocMap<Id, Span>) -> (r: Vec<Span>)
    requires
        spans_well_formed(spans@),
    ensures
        r@.len() == spans@.len(),
        forall|i: int| 0 <= i < r@.len() ==> (#[trigger] r@[i]) == spans@[i].1,
        forall|i: int| 0 <= i < r@.len() ==> (#[trigger] r@[i]).well_formed(),
{
    let ghost given = spans@;
    let mut r: Vec<Span> = Vec::new();
    for (id, span) in iter: spans.into_entries()
        invariant
            iter.seq().len() == given.len(),
            spans_well_formed(given),
            forall|i: int|
                0 <= i < given.len() ==> ((#[trigger] iter.seq()[i]).0@, iter.seq()[i].1)
                    == given[i],
            r@.len() == iter.index(),
            forall|i: int| 0 <= i < r@.len() ==> (#[trigger] r@[i]) == given[i].1,
            forall|i: int| 0 <= i < r@.len() ==> (#[trigger] r@[i]).well_formed(),
    {
        assert((iter.seq()[iter.index() as int].0@, iter.seq()[iter.index() as int].1)
            == given[iter.index() as int]);
        r.push(span);
    }
    r
}

/// Puts the beginning of a span among the others. One with the same identifier comes out.
fn add_start(starts: &mut Starts, span_start: Box<SpanStart>) -> (r: Option<Box<SpanStart>>)
    requires
        starts_in_order(*old(starts)),
    ensures
        starts_in_order(*final(starts)),
        starts_view()(*final(starts)) == with_entry(
            starts_view()(*old(starts)),
            span_start@.id,
            span_start@,
        ),
        match r {
            Some(replaced) => value_of(starts_view()(*old(starts)), span_start@.id) == Some(
                replaced@,
            ),
            None => value_of(starts_view()(*old(starts)), span_start@.id) is None,
        },
{
    let ghost before = starts@;
    proof {
        lemma_mapped(before, start_view(), span_start@.id);
        lemma_place(before, span_start@.id);
        assert(start_view()(span_start) == span_start@);
    }
    let id = span_start.id.clone();
    starts.insert(id, span_start)
}

/// Whether a map holds the beginnings of spans, each under its identifier.
pub open spec fn starts_in_order(starts: Starts) -> bool {
    &&& starts.well_formed()
    &&& forall|i: int| 0 <= i < starts@.len() ==> (#[trigger] starts@[i]).0 == starts@[i].1@.id
}

// ---------------------------------------------------------------------------
// What holds of every trace
// ---------------------------------------------------------------------------

/// Whatever was told before, a span that is told to begin and then to end is part of the report of
/// its trace, with its duration.
pub proof fn ended_span_is_reported(
    v: CollectorView,
    start: SpanStartView,
    finished: SpanFinishedView,
    now: u64,
)
    requires
        finished.id == start.id,
        finished.trace_id == start.trace_id,
    ensures
        ({
            let after = v.started(start).finished(finished, now);
            &&& has_key(after.span_starts, start.trace_id)
            &&& after.chunk(start.trace_id).spans.contains(
                ended(start.span(), Some(finished.duration)),
            )
        }),
{
    let trace = start.trace_id;
    let starts = with_entry(v.starts_of(trace), start.id, start);
    let v1 = v.started(start);
    let after = v1.finished(finished, now);
    let event = EventView::SpanFinished(finished);
    entry_is_found(v.span_starts, trace, starts, trace);
    entry_is_found(v.starts_of(trace), start.id, start, start.id);
    entry_is_found(v1.events, trace, v1.events_of(trace).push(event), trace);
    assert(after.starts_of(trace) == starts);
    assert(after.events_of(trace) == v1.events_of(trace).push(event));
    let i = place(starts, start.id);
    lemma_place(starts, start.id);
    assert(after.events_of(trace).last() == event);
    assert(after.chunk(trace).spans[i] == ended(start.span(), Some(finished.duration)));
}

/// Once a span without a parent has ended, its trace is due after the delay.
pub proof fn ended_root_is_due(v: CollectorView, finished: SpanFinishedView, now: u64)
    requires
        finished.parent_span_id is None,
        now <= u64::MAX - CULL_DELAY,
    ensures
        due(v.finished(finished, now).cull_list, (now + CULL_DELAY) as u64).contains(
            finished.trace_id,
        ),
{
    let time = (now + CULL_DELAY) as u64;
    let list = v.finished(finished, now).cull_list;
    assert(list.contains_key(time));
    let ids = list[time];
    assert(ids[ids.len() - 1] == finished.trace_id);
    assert(ids.contains(finished.trace_id));
}

/// The end of a span whose parent has begun leads to no report: the end of the parent will.
pub proof fn ended_child_is_not_due(
    v: CollectorView,
    finished: SpanFinishedView,
    parent: IdView,
    now: u64,
)
    requires
        finished.parent_span_id == Some(parent),
        has_key(v.starts_of(finished.trace_id), parent),
    ensures
        v.finished(finished, now).cull_list == v.cull_list,
{
}

/// What was reported is gone: no span is reported twice, unless it is told to begin again.
pub proof fn reported_trace_is_gone(v: CollectorView, t: TableView, ids: Seq<IdView>, id: IdView)
    requires
        v.well_formed(),
        ids.contains(id),
    ensures
        !has_key(reported(v, t, ids).0.span_starts, id),
        reported(v, t, ids.push(id)).2 == reported(v, t, ids).2,
{
    lemma_gone(v, t, ids, id);
    assert(ids.push(id).drop_last() =~= ids);
}

proof fn lemma_gone(v: CollectorView, t: TableView, ids: Seq<IdView>, id: IdView)
    requires
        distinct_keys(v.span_starts),
        distinct_keys(v.events),
    ensures
        distinct_keys(reported(v, t, ids).0.span_starts),
        distinct_keys(reported(v, t, ids).0.events),
        ids.contains(id) ==> !has_key(reported(v, t, ids).0.span_starts, id),
    decreases ids.len(),
{
    if ids.len() > 0 {
        let before = ids.drop_last();
        lemma_gone(v, t, before, id);
        let v1 = reported(v, t, before).0;
        entry_is_gone(v1.span_starts, ids.last(), id);
        entry_is_gone(v1.events, ids.last(), id);
        if ids.contains(id) && ids.last() != id {
            let i = ids.index_of(id);
            assert(before[i] == id);
        }
    }
}

/// What is told of one trace does not change the report of another.
pub proof fn traces_are_independent(
    v: CollectorView,
    start: SpanStartView,
    finished: SpanFinishedView,
    now: u64,
    other: IdView,
)
    requires
        start.trace_id != other,
        finished.trace_id != other,
    ensures
        v.started(start).chunk(other) == v.chunk(other),
        v.finished(finished, now).chunk(other) == v.chunk(other),
{
    entry_is_found(
        v.span_starts,
        start.trace_id,
        with_entry(v.starts_of(start.trace_id), start.id, start),
        other,
    );
    let event = EventView::SpanFinished(finished);
    entry_is_found(
        v.events,
        finished.trace_id,
        v.events_of(finished.trace_id).push(event),
        other,
    );
}

/// The end of a span whose parent never began here completes the trace, however many spans of it
/// have begun: the trace is due after two seconds.
pub proof fn ended_orphan_is_due(
    v: CollectorView,
    finished: SpanFinishedView,
    parent: IdView,
    starts: Seq<(IdView, SpanStartView)>,
    now: u64,
)
    requires
        finished.parent_span_id == Some(parent),
        value_of(v.span_starts, finished.trace_id) == Some(starts),
        forall|i: int| 0 <= i < starts.len() ==> (#[trigger] starts[i]).0 != parent,
        now <= u64::MAX - 2,
    ensures
        ({
            let list = v.finished(finished, now).cull_list;
            let time = (now + 2) as u64;
            &&& list.contains_key(time)
            &&& list[time].len() > 0 && list[time].last() == finished.trace_id
            &&& due(list, time).contains(finished.trace_id)
        }),
{
    key_is_looked_up(starts, parent, 0);
    let list = v.finished(finished, now).cull_list;
    let time = (now + 2) as u64;
    let ids = list[time];
    assert(list.contains_key(time));
    assert(ids[ids.len() - 1] == finished.trace_id);
    assert(ids.contains(finished.trace_id));
}

/// The end of a span leads to a report exactly where the span has no parent, or where its parent is
/// not among those of the trace that have begun, of which there are some. The trace is then put
/// behind the others that are due two seconds later, and no other report is put off, brought
/// forward or left out.
pub proof fn end_completes_its_trace(v: CollectorView, finished: SpanFinishedView, now: u64)
    requires
        now <= u64::MAX - 2,
    ensures
        ({
            let list = v.finished(finished, now).cull_list;
            let time = (now + 2) as u64;
            let complete = finished.parent_span_id is None || (exists|i: int|
                0 <= i < v.span_starts.len() && (#[trigger] v.span_starts[i]).0
                    == finished.trace_id) && !(exists|j: int|
                0 <= j < v.starts_of(finished.trace_id).len() && (#[trigger] v.starts_of(
                    finished.trace_id,
                )[j]).0 == finished.parent_span_id->0);
            &&& !complete ==> list == v.cull_list
            &&& complete ==> list.dom() == v.cull_list.dom().insert(time) && (forall|t: u64|
                t != time && v.cull_list.contains_key(t) ==> #[trigger] list[t] == v.cull_list[t])
                && list[time] == (if v.cull_list.contains_key(time) {
                v.cull_list[time]
            } else {
                Seq::empty()
            }) + seq![finished.trace_id]
        }),
{
    let trace = finished.trace_id;
    key_is_looked_up(v.span_starts, trace, 0);
    if let Some(parent) = finished.parent_span_id {
        key_is_looked_up(v.starts_of(trace), parent, 0);
    }
    let list = v.finished(finished, now).cull_list;
    let time = (now + 2) as u64;
    assert(v.culled(trace, now).cull_list.dom() =~= v.cull_list.dom().insert(time));
    let before = if v.cull_list.contains_key(time) {
        v.cull_list[time]
    } else {
        Seq::empty()
    };
    assert(v.culled(trace, now).cull_list[time] =~= before + seq![trace]);
}

/// A trace is due from the time on that it is listed under.
pub proof fn listed_trace_is_due(list: Map<u64, Seq<IdView>>, now: u64, id: IdView)
    ensures
        due(list, now).contains(id) <==> exists|time: u64| #[trigger]
            list.contains_key(time) && time <= now && list[time].contains(id),
        forall|time: u64| #[trigger]
            later(list, now).contains_key(time) <==> list.contains_key(time) && time > now,
        forall|time: u64|
            later(list, now).contains_key(time) ==> #[trigger] later(list, now)[time]
                == list[time],
{
}

/// The beginning of a span is kept in its trace under its identifier, in place of one that was told
/// before. Nothing else changes.
pub proof fn beginning_is_kept(
    v: CollectorView,
    start: SpanStartView,
    other: IdView,
    other_trace: IdView,
)
    ensures
        ({
            let after = v.started(start);
            &&& has_key(after.span_starts, start.trace_id)
            &&& value_of(after.starts_of(start.trace_id), start.id) == Some(start)
            &&& other != start.id ==> value_of(after.starts_of(start.trace_id), other) == value_of(
                v.starts_of(start.trace_id),
                other,
            )
            &&& other_trace != start.trace_id ==> value_of(after.span_starts, other_trace)
                == value_of(v.span_starts, other_trace)
            &&& after == (CollectorView { span_starts: after.span_starts, ..v })
        }),
{
    let starts = with_entry(v.starts_of(start.trace_id), start.id, start);
    entry_is_found(v.span_starts, start.trace_id, starts, other_trace);
    entry_is_found(v.starts_of(start.trace_id), start.id, start, other);
}

/// The spans of a trace that have begun, and its other events, are those that are kept under it.
pub proof fn trace_has_what_is_kept(v: CollectorView, trace: IdView)
    ensures
        value_of(v.span_starts, trace) matches Some(starts) ==> v.starts_of(trace) == starts,
        value_of(v.span_starts, trace) is None ==> v.starts_of(trace).len() == 0,
        value_of(v.events, trace) matches Some(events) ==> v.events_of(trace) == events,
        value_of(v.events, trace) is None ==> v.events_of(trace).len() == 0,
{
}

/// An event is kept behind the others of its trace. Nothing else changes.
pub proof fn event_is_kept(v: CollectorView, event: EventView, other: IdView)
    ensures
        ({
            let after = v.stored(event);
            &&& after.events_of(event.trace_id()) == v.events_of(event.trace_id()) + seq![event]
            &&& other != event.trace_id() ==> value_of(after.events, other) == value_of(
                v.events,
                other,
            )
            &&& after == (CollectorView { events: after.events, ..v })
        }),
{
    let events = v.events_of(event.trace_id()).push(event);
    assert(events =~= v.events_of(event.trace_id()) + seq![event]);
    entry_is_found(v.events, event.trace_id(), events, other);
}

/// The end of a span is kept behind the other events of its trace, whether or not it leads to a
/// report. Nothing else changes but the list of the traces to report.
pub proof fn end_is_kept(v: CollectorView, finished: SpanFinishedView, now: u64, other: IdView)
    ensures
        ({
            let after = v.finished(finished, now);
            &&& after.events_of(finished.trace_id) == v.events_of(finished.trace_id) + seq![
                EventView::SpanFinished(finished),
            ]
            &&& other != finished.trace_id ==> value_of(after.events, other) == value_of(
                v.events,
                other,
            )
            &&& after == (CollectorView {
                events: after.events,
                cull_list: after.cull_list,
                ..v
            })
        }),
{
    let event = EventView::SpanFinished(finished);
    event_is_kept(v, event, other);
    event_is_kept(v.culled(finished.trace_id, now), event, other);
}

/// What was heard last of a trace is when it was heard. Nothing else changes.
pub proof fn hearing_is_noted(v: CollectorView, trace: IdView, at: u64, other: IdView)
    ensures
        value_of(v.seen(trace, at).last_seen, trace) == Some(at),
        other != trace ==> value_of(v.seen(trace, at).last_seen, other) == value_of(
            v.last_seen,
            other,
        ),
        v.seen(trace, at) == (CollectorView { last_seen: v.seen(trace, at).last_seen, ..v }),
{
    entry_is_found(v.last_seen, trace, at, other);
}

/// The report of a trace tells of each of its spans that have begun, in order and once, what its
/// beginning says.
pub proof fn report_tells_of_every_span(v: CollectorView, trace: IdView, i: int)
    requires
        0 <= i < v.starts_of(trace).len(),
    ensures
        ({
            let chunk = v.chunk(trace);
            let start = v.starts_of(trace)[i].1;
            &&& chunk.spans.len() == v.starts_of(trace).len()
            &&& chunk.spans[i].service == start.service
            &&& chunk.spans[i].name == start.name
            &&& chunk.spans[i].resource == start.resource
            &&& chunk.spans[i].trace_id == start.trace_id.number()
            &&& chunk.spans[i].span_id == start.id.number()
            &&& chunk.spans[i] == (SpanView {
                duration: chunk.spans[i].duration,
                ..start.span()
            })
            &&& chunk.priority == -1
            &&& chunk.origin == "web_todo"@
            &&& chunk.tags == Seq::<(Seq<char>, Seq<char>)>::empty()
            &&& !chunk.dropped_trace
        }),
{
    span_says_what_its_beginning_says(v.starts_of(trace)[i].1);
}

/// The duration of a span that is reported is that of the last end that was told of it, and zero
/// where none was told.
pub proof fn last_end_counts(v: CollectorView, trace: IdView, i: int, k: int)
    requires
        0 <= i < v.starts_of(trace).len(),
    ensures
        ({
            let id = v.starts_of(trace)[i].0;
            let events = v.events_of(trace);
            let duration = v.chunk(trace).spans[i].duration;
            &&& (0 <= k < events.len() && events[k] is SpanFinished && events[k]->SpanFinished_0.id
                == id && (forall|j: int|
                k < j < events.len() ==> !((#[trigger] events[j]) is SpanFinished
                    && events[j]->SpanFinished_0.id == id))) ==> duration
                == events[k]->SpanFinished_0.duration as i64
            &&& (forall|j: int|
                0 <= j < events.len() ==> !((#[trigger] events[j]) is SpanFinished
                    && events[j]->SpanFinished_0.id == id)) ==> duration == 0
        }),
{
    lemma_told_duration(v.events_of(trace), v.starts_of(trace)[i].0, k);
    span_says_what_its_beginning_says(v.starts_of(trace)[i].1);
}

proof fn lemma_told_duration(events: Seq<EventView>, id: IdView, k: int)
    ensures
        (0 <= k < events.len() && events[k] is SpanFinished && events[k]->SpanFinished_0.id == id
            && (forall|j: int|
            k < j < events.len() ==> !((#[trigger] events[j]) is SpanFinished
                && events[j]->SpanFinished_0.id == id))) ==> told_duration(events, id) == Some(
            events[k]->SpanFinished_0.duration,
        ),
        (forall|j: int|
            0 <= j < events.len() ==> !((#[trigger] events[j]) is SpanFinished
                && events[j]->SpanFinished_0.id == id)) ==> told_duration(events, id) is None,
    decreases events.len(),
{
    if events.len() > 0 {
        let less = events.drop_last();
        lemma_told_duration(less, id, k);
        assert(events.last() == events[events.len() - 1]);
        assert forall|j: int| 0 <= j < less.len() implies less[j] == #[trigger] events[j] by {}
    }
}

/// Every trace that is due and of which a span has begun is reported, and is then gone. The report
/// of a trace does not depend on which others are reported with it.
pub proof fn due_trace_is_reported(
    payloads: Seq<Box<TracerPayload>>,
    v: CollectorView,
    t: TableView,
    now: u64,
    ids: Seq<IdView>,
    after: CollectorView,
    t_after: TableView,
    id: IdView,
)
    requires
        is_cull(payloads, v, t, now, ids, after, t_after),
        v.well_formed(),
        ids.no_duplicates(),
        ids.contains(id),
        has_key(v.span_starts, id),
    ensures
        payloads.len() == 1,
        payloads[0]@.chunks.contains(v.chunk(id)),
        !has_key(after.span_starts, id),
        !has_key(after.events, id),
{
    let listed = CollectorView { cull_list: later(v.cull_list, now), ..v };
    lemma_reported(listed, t, ids, id);
    let chunks = reported(listed, t, ids).2;
    let i = chunks.index_of(listed.chunk(id));
    assert(listed.chunk(id) == v.chunk(id));
    assert(chunks[i] == v.chunk(id));
}

/// Nothing but traces that are due is reported, each at most once. Traces that are not due stay as
/// they are, and on the list. Where nothing is to be reported there is no payload.
pub proof fn nothing_else_is_reported(
    payloads: Seq<Box<TracerPayload>>,
    v: CollectorView,
    t: TableView,
    now: u64,
    ids: Seq<IdView>,
    after: CollectorView,
    t_after: TableView,
    other: IdView,
)
    requires
        is_cull(payloads, v, t, now, ids, after, t_after),
        v.well_formed(),
        ids.no_duplicates(),
    ensures
        payloads.len() <= 1,
        payloads.len() == 1 ==> {
            &&& 0 < payloads[0]@.chunks.len() <= ids.len()
            &&& forall|k: int|
                0 <= k < payloads[0]@.chunks.len() ==> is_chunk_of_one(
                    #[trigger] payloads[0]@.chunks[k],
                    v,
                    ids,
                )
            &&& payloads[0]@.env == v.env
            &&& payloads[0]@.hostname == v.hostname
            &&& payloads[0]@.container_id == ""@
            &&& payloads[0]@.language_name == "shell"@
            &&& payloads[0]@.language_version == "1.1"@
            &&& payloads[0]@.tracer_version == "todo"@
            &&& payloads[0]@.app_version == "6.6.6"@
            &&& payloads[0]@.tags.len() == 0
        },
        !ids.contains(other) ==> value_of(after.span_starts, other) == value_of(
            v.span_starts,
            other,
        ) && value_of(after.events, other) == value_of(v.events, other),
        forall|time: u64| #[trigger]
            after.cull_list.contains_key(time) <==> v.cull_list.contains_key(time) && time > now,
        forall|time: u64|
            after.cull_list.contains_key(time) ==> #[trigger] after.cull_list[time]
                == v.cull_list[time],
        after.last_seen == v.last_seen,
        after.env == v.env,
        after.hostname == v.hostname,
{
    let listed = CollectorView { cull_list: later(v.cull_list, now), ..v };
    lemma_reported(listed, t, ids, other);
    let chunks = reported(listed, t, ids).2;
    lemma_chunks(listed, t, ids);
    assert forall|k: int| 0 <= k < chunks.len() implies is_chunk_of_one(
        #[trigger] chunks[k],
        v,
        ids,
    ) by {
        assert(is_chunk_of_one(chunks[k], listed, ids));
        let id = choose|id: IdView| #[trigger]
            ids.contains(id) && has_key(listed.span_starts, id) && chunks[k] == listed.chunk(id);
        assert(ids.contains(id));
        assert(listed.chunk(id) == v.chunk(id));
    }
}

/// Whether a chunk is the report of one of some traces, of which a span has begun.
pub open spec fn is_chunk_of_one(chunk: ChunkView, v: CollectorView, ids: Seq<IdView>) -> bool {
    exists|id: IdView| #[trigger]
        ids.contains(id) && has_key(v.span_starts, id) && chunk == v.chunk(id)
}

/// Each chunk of a report is that of one of the traces that are reported.
proof fn lemma_chunks(v: CollectorView, t: TableView, ids: Seq<IdView>)
    requires
        distinct_keys(v.span_starts),
        distinct_keys(v.events),
        ids.no_duplicates(),
    ensures
        forall|k: int|
            0 <= k < reported(v, t, ids).2.len() ==> is_chunk_of_one(
                #[trigger] reported(v, t, ids).2[k],
                v,
                ids,
            ),
    decreases ids.len(),
{
    if ids.len() > 0 {
        let less = ids.drop_last();
        let last = ids.last();
        lemma_not_among_others(ids);
        lemma_reported(v, t, less, last);
        lemma_chunks(v, t, less);
        let (v1, t1, chunks1) = reported(v, t, less);
        let chunks = reported(v, t, ids).2;
        assert(ids[ids.len() - 1] == last);
        assert(v1.chunk(last) == v.chunk(last));
        assert forall|k: int| 0 <= k < chunks.len() implies is_chunk_of_one(
            #[trigger] chunks[k],
            v,
            ids,
        ) by {
            if k < chunks1.len() {
                assert(is_chunk_of_one(chunks1[k], v, less));
                let x = choose|x: IdView| #[trigger]
                    less.contains(x) && has_key(v.span_starts, x) && chunks1[k] == v.chunk(x);
                let i = less.index_of(x);
                assert(ids[i] == x);
                assert(ids.contains(x));
            } else {
                assert(ids.contains(last));
            }
        }
    }
}

proof fn lemma_not_among_others(ids: Seq<IdView>)
    requires
        ids.no_duplicates(),
        ids.len() > 0,
    ensures
        !ids.drop_last().contains(ids.last()),
        ids.drop_last().no_duplicates(),
{
    let less = ids.drop_last();
    if less.contains(ids.last()) {
        let i = less.index_of(ids.last());
        assert(ids[i] == ids[ids.len() - 1]);
    }
    assert forall|i: int, j: int| 0 <= i < less.len() && 0 <= j < less.len() && i != j implies
        less[i] != less[j] by {
        assert(ids[i] != ids[j]);
    }
}

/// What is reported of some traces, and what becomes of the collector.
proof fn lemma_reported(v: CollectorView, t: TableView, ids: Seq<IdView>, id: IdView)
    requires
        distinct_keys(v.span_starts),
        distinct_keys(v.events),
        ids.no_duplicates(),
    ensures
        ({
            let (after, _, chunks) = reported(v, t, ids);
            &&& distinct_keys(after.span_starts)
            &&& distinct_keys(after.events)
            &&& after == (CollectorView {
                span_starts: after.span_starts,
                events: after.events,
                ..v
            })
            &&& chunks.len() <= ids.len()
            &&& ids.contains(id) && has_key(v.span_starts, id) ==> chunks.contains(v.chunk(id))
                && !has_key(after.span_starts, id) && !has_key(after.events, id)
            &&& !ids.contains(id) ==> value_of(after.span_starts, id) == value_of(
                v.span_starts,
                id,
            ) && value_of(after.events, id) == value_of(v.events, id)
        }),
    decreases ids.len(),
{
    if ids.len() > 0 {
        let less = ids.drop_last();
        let last = ids.last();
        lemma_not_among_others(ids);
        lemma_reported(v, t, less, id);
        lemma_reported(v, t, less, last);
        let (v1, t1, chunks1) = reported(v, t, less);
        let chunks = reported(v, t, ids).2;
        assert(ids[ids.len() - 1] == last);
        assert(ids.contains(id) ==> id == last || less.contains(id)) by {
            if ids.contains(id) && id != last {
                let i = ids.index_of(id);
                assert(less[i] == id);
            }
        }
        assert(less.contains(id) ==> ids.contains(id)) by {
            if less.contains(id) {
                let i = less.index_of(id);
                assert(ids[i] == id);
            }
        }
        entry_is_gone(v1.span_starts, last, id);
        entry_is_gone(v1.events, last, id);
        assert(v1.chunk(last) == v.chunk(last));
        if has_key(v1.span_starts, last) {
            assert(chunks == chunks1.push(v.chunk(last)));
            assert(chunks[chunks.len() - 1] == v.chunk(last));
            if less.contains(id) && has_key(v.span_starts, id) {
                let i = chunks1.index_of(v.chunk(id));
                assert(chunks[i] == v.chunk(id));
            }
        }
    }
}

/// What is reported is dropped, and with it the sockets in it, one after the other.
pub proof fn reported_sockets_are_dropped(
    t: TableView,
    starts: Seq<(IdView, SpanStartView)>,
    start: (IdView, SpanStartView),
    events: Seq<EventView>,
    event: EventView,
)
    ensures
        released_starts(t, Seq::empty()) == t,
        released_starts(t, starts.push(start)) == released_all(
            released_starts(t, starts),
            start.1.handles(),
        ),
        released_events(t, Seq::empty()) == t,
        released_events(t, events.push(event)) == released_all(
            released_events(t, events),
            event.handles(),
        ),
{
    assert(starts.push(start).drop_last() =~= starts);
    assert(events.push(event).drop_last() =~= events);
}

/// A trace that is taken out takes its beginnings and its events with it. Where no span of it has
/// begun, nothing is taken out, and its events stay for later. Other traces stay.
pub proof fn only_the_trace_is_taken_out(v: CollectorView, trace: IdView, other: IdView)
    requires
        v.well_formed(),
    ensures
        has_key(v.span_starts, trace) ==> !has_key(v.without_trace(trace).span_starts, trace)
            && !has_key(v.without_trace(trace).events, trace),
        !has_key(v.span_starts, trace) ==> v.without_trace(trace) == v,
        other != trace ==> value_of(v.without_trace(trace).span_starts, other) == value_of(
            v.span_starts,
            other,
        ) && value_of(v.without_trace(trace).events, other) == value_of(v.events, other),
        v.without_trace(trace).cull_list == v.cull_list,
        v.without_trace(trace).last_seen == v.last_seen,
{
    entry_is_gone(v.span_starts, trace, other);
    entry_is_gone(v.events, trace, other);
}

/// A trace can be reported exactly where no error was told of it, or nothing is to be reported.
pub proof fn errors_cannot_be_reported(v: CollectorView, trace: IdView)
    ensures
        v.reportable(trace) <==> !has_key(v.span_starts, trace) || forall|i: int|
            0 <= i < v.events_of(trace).len() ==> !((#[trigger] v.events_of(trace)[i])
                is ReportError),
{
}

/// A report is one payload, and there is one exactly where there are chunks to tell of. It holds
/// all of them, in order, and names the system that the collector was made for. Its number is a
/// random one of thirty-two digits.
pub proof fn report_names_its_system(
    r: Option<TracerPayload>,
    v: CollectorView,
    t: TableView,
    ids: Seq<IdView>,
    after: CollectorView,
    t_after: TableView,
)
    requires
        is_report(r, v, t, ids, after, t_after),
    ensures
        r is Some <==> reported(v, t, ids).2.len() > 0,
        r matches Some(payload) ==> {
            &&& payload@.chunks == reported(v, t, ids).2
            &&& payload@.env == v.env
            &&& payload@.hostname == v.hostname
            &&& payload@.language_name == "shell"@
            &&& payload@.language_version == "1.1"@
            &&& payload@.tracer_version == "todo"@
            &&& payload@.app_version == "6.6.6"@
            &&& payload@.container_id == ""@
            &&& payload@.tags.len() == 0
            &&& payload@.runtime_id.len() == 36
            &&& payload@.runtime_id[14] == '4'
        },
        after == reported(v, t, ids).0,
        t_after == reported(v, t, ids).1,
{
}

} // verus!
