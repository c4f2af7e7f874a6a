//! What is told of the spans of a trace.
use vstd::prelude::*;
use vstd::string::*;

use crate::assoc::{entry_is_found, lemma_mapped, mapped, value_of, with_entry};
use crate::assoc::{AssocMap, MapKey};
use crate::handle_table::{HandleTable, HandleView};
use crate::id::{Id, IdView};
use crate::pb::{text_of, DoubleBits, Span, SpanView};
use crate::text::{i32_to_string, signed_decimal};
use crate::trace_context::opt_id_view;
use crate::typed::channel::UnixStream;
use crate::typed::handle::PlatformHandle;
use crate::typed::transfer::{released_all, HandlesTransport, TransferHandles};

verus! {

/// What a piece of information on a span is about.
#[derive(Debug, PartialEq, Eq, Hash)]
pub enum MetaKey {
    String(String),
    CmdCurrentWorkingDirectory,
    CmdOriginPid,
    ExecutablePath,
}

/// What a key is, whatever memory it occupies.
pub enum MetaKeyView {
    String(Seq<char>),
    CmdCurrentWorkingDirectory,
    CmdOriginPid,
    ExecutablePath,
}

impl View for MetaKey {
    type V = MetaKeyView;

    open spec fn view(&self) -> MetaKeyView {
        match self {
            MetaKey::String(s) => MetaKeyView::String(s@),
            MetaKey::CmdCurrentWorkingDirectory => MetaKeyView::CmdCurrentWorkingDirectory,
            MetaKey::CmdOriginPid => MetaKeyView::CmdOriginPid,
            MetaKey::ExecutablePath => MetaKeyView::ExecutablePath,
        }
    }
}

impl MetaKeyView {
    /// The key as text.
    pub open spec fn text(self) -> Seq<char> {
        match self {
            MetaKeyView::String(s) => s,
            MetaKeyView::CmdCurrentWorkingDirectory => "current_working_directory"@,
            MetaKeyView::CmdOriginPid => "pid"@,
            MetaKeyView::ExecutablePath => "executable_path"@,
        }
    }
}

impl MapKey for MetaKey {
    fn same_key(&self, other: &Self) -> (r: bool) {
        match (self, other) {
            (MetaKey::String(a), MetaKey::String(b)) => *a == *b,
            (MetaKey::CmdCurrentWorkingDirectory, MetaKey::CmdCurrentWorkingDirectory) => true,
            (MetaKey::CmdOriginPid, MetaKey::CmdOriginPid) => true,
            (MetaKey::ExecutablePath, MetaKey::ExecutablePath) => true,
            _ => false,
        }
    }
}

impl MetaKey {
    /// The key as text.
    pub fn to_string(&self) -> (r: String)
        ensures
            r@ == self@.text(),
    {
        match self {
            MetaKey::String(s) => s.clone(),
            MetaKey::CmdCurrentWorkingDirectory => String::from_str("current_working_directory"),
            MetaKey::CmdOriginPid => String::from_str("pid"),
            MetaKey::ExecutablePath => String::from_str("executable_path"),
        }
    }
}

/// A piece of information on a span.
#[derive(Debug, PartialEq, Eq, Hash)]
pub enum MetaValue {
    String(String),
    Pid(i32),
}

/// What a piece of information is, whatever memory it occupies.
pub enum MetaValueView {
    String(Seq<char>),
    Pid(i32),
}

impl View for MetaValue {
    type V = MetaValueView;

    open spec fn view(&self) -> MetaValueView {
        match self {
            MetaValue::String(s) => MetaValueView::String(s@),
            MetaValue::Pid(pid) => MetaValueView::Pid(*pid),
        }
    }
}

impl MetaValueView {
    /// The information as text.
    pub open spec fn text(self) -> Seq<char> {
        match self {
            MetaValueView::String(s) => s,
            MetaValueView::Pid(pid) => signed_decimal(pid as int),
        }
    }
}

impl MetaValue {
    /// The information as text.
    pub fn to_string(&self) -> (r: String)
        ensures
            r@ == self@.text(),
    {
        match self {
            MetaValue::String(s) => s.clone(),
            MetaValue::Pid(p) => i32_to_string(*p),
        }
    }
}

impl From<String> for MetaValue {
    fn from(value: String) -> (r: Self) {
        MetaValue::String(value)
    }
}

impl vstd::std_specs::convert::FromSpecImpl<String> for MetaValue {
    open spec fn obeys_from_spec() -> bool {
        true
    }

    open spec fn from_spec(value: String) -> Self {
        MetaValue::String(value)
    }
}

/// Something that happened to a span.
#[derive(Debug)]
pub enum Event {
    StartSpan(Box<SpanStart>),
    SpanFinished(SpanFinished),
    ReportError(ReportError),
}

/// That an error occurred in a span.
#[derive(Debug)]
pub struct ReportError {
    pub trace_id: Id,
    pub span_id: Id,
}

/// That a span began.
#[derive(Debug)]
pub struct SpanStart {
    pub id: Id,
    pub name: String,
    pub trace_id: Id,
    pub parent_id: Option<Id>,
    pub resource: String,
    pub service: String,
    /// Nanoseconds since the epoch.
    pub time: u64,
    /// A socket whose other end is closed when the span ends.
    pub span_end_socket: Option<PlatformHandle<UnixStream>>,
    pub meta: AssocMap<MetaKey, MetaValue>,
}

/// That a span ended.
#[derive(Debug)]
pub struct SpanFinished {
    pub id: Id,
    pub trace_id: Id,
    pub parent_span_id: Option<Id>,
    /// Nanoseconds.
    pub duration: u64,
    /// Nanoseconds since the epoch.
    pub time: u64,
}

/// What the beginning of a span says.
pub struct SpanStartView {
    pub id: IdView,
    pub name: Seq<char>,
    pub trace_id: IdView,
    pub parent_id: Option<IdView>,
    pub resource: Seq<char>,
    pub service: Seq<char>,
    pub time: u64,
    pub span_end_socket: Option<HandleView>,
    pub meta: Seq<(MetaKeyView, MetaValueView)>,
}

/// What the end of a span says.
pub struct SpanFinishedView {
    pub id: IdView,
    pub trace_id: IdView,
    pub parent_span_id: Option<IdView>,
    pub duration: u64,
    pub time: u64,
}

/// What an event says.
pub enum EventView {
    StartSpan(SpanStartView),
    SpanFinished(SpanFinishedView),
    ReportError { trace_id: IdView, span_id: IdView },
}

/// What a piece of information is.
pub open spec fn value_view() -> spec_fn(MetaValue) -> MetaValueView {
    |value: MetaValue| value@
}

impl View for SpanStart {
    type V = SpanStartView;

    open spec fn view(&self) -> SpanStartView {
        SpanStartView {
            id: self.id@,
            name: self.name@,
            trace_id: self.trace_id@,
            parent_id: opt_id_view(self.parent_id),
            resource: self.resource@,
            service: self.service@,
            time: self.time,
            span_end_socket: match self.span_end_socket {
                Some(handle) => Some(handle@),
                None => None,
            },
            meta: mapped(self.meta@, value_view()),
        }
    }
}

impl View for SpanFinished {
    type V = SpanFinishedView;

    open spec fn view(&self) -> SpanFinishedView {
        SpanFinishedView {
            id: self.id@,
            trace_id: self.trace_id@,
            parent_span_id: opt_id_view(self.parent_span_id),
            duration: self.duration,
            time: self.time,
        }
    }
}

impl View for Event {
    type V = EventView;

    open spec fn view(&self) -> EventView {
        match self {
            Event::StartSpan(start) => EventView::StartSpan(start@),
            Event::SpanFinished(finished) => EventView::SpanFinished(finished@),
            Event::ReportError(error) => EventView::ReportError {
                trace_id: error.trace_id@,
                span_id: error.span_id@,
            },
        }
    }
}

impl EventView {
    /// The trace that the event is about.
    pub open spec fn trace_id(self) -> IdView {
        match self {
            EventView::StartSpan(start) => start.trace_id,
            EventView::SpanFinished(finished) => finished.trace_id,
            EventView::ReportError { trace_id, .. } => trace_id,
        }
    }

    /// The handles in the event.
    pub open spec fn handles(self) -> Seq<HandleView> {
        match self {
            EventView::StartSpan(start) => start.handles(),
            _ => Seq::empty(),
        }
    }
}

impl SpanStartView {
    /// The handles in the beginning of a span.
    pub open spec fn handles(self) -> Seq<HandleView> {
        match self.span_end_socket {
            Some(handle) => seq![handle],
            None => Seq::empty(),
        }
    }

    /// The span, as it is at its beginning.
    pub open spec fn span(self) -> SpanView {
        SpanView {
            service: self.service,
            name: self.name,
            resource: self.resource,
            trace_id: self.trace_id.number(),
            span_id: self.id.number(),
            parent_id: match self.parent_id {
                Some(parent) => parent.number(),
                None => 0,
            },
            start: self.time as i64,
            duration: 0,
            error: 0,
            meta: meta_texts(self.meta),
            metrics: Seq::empty(),
            span_type: "type_todo"@,
            meta_struct: Seq::empty(),
        }
    }
}

/// Information as texts. Where two keys have the same text, the later one counts.
pub open spec fn meta_texts(meta: Seq<(MetaKeyView, MetaValueView)>) -> Seq<(Seq<char>, Seq<char>)>
    decreases meta.len(),
{
    if meta.len() == 0 {
        Seq::empty()
    } else {
        with_entry(meta_texts(meta.drop_last()), meta.last().0.text(), meta.last().1.text())
    }
}

impl Event {
    /// The trace that the event is about.
    pub fn trace_id(&self) -> (r: &Id)
        ensures
            r@ == self@.trace_id(),
    {
        match self {
            Event::StartSpan(s) => &s.trace_id,
            Event::SpanFinished(s) => &s.trace_id,
            Event::ReportError(e) => &e.trace_id,
        }
    }

    /// Drops the event, and with it its handles.
    pub fn release(self, table: &mut HandleTable)
        requires
            old(table)@.well_formed(),
        ensures
            final(table)@.well_formed(),
            final(table)@ == released_all(old(table)@, self@.handles()),
    {
        match self {
            Event::StartSpan(start) => {
                let start: SpanStart = *start;
                start.release_handles(table);
            },
            _ => {},
        }
    }
}

impl TransferHandles for SpanStart {
    open spec fn handles(&self) -> Seq<HandleView> {
        self@.handles()
    }

    open spec fn like(&self, other: &Self) -> bool {
        &&& SpanStartView { span_end_socket: None, ..self@ } == SpanStartView {
            span_end_socket: None,
            ..other@
        }
        &&& self.span_end_socket is Some == other.span_end_socket is Some
        &&& self.meta == other.meta
    }

    fn move_handles<M: HandlesTransport>(&self, transport: &mut M, table: &mut HandleTable) -> (r:
        Result<(), M::Error>) {
        self.span_end_socket.move_handles(transport, table)
    }

    fn receive_handles<P: HandlesTransport>(
        &mut self,
        transport: &mut P,
        table: &mut HandleTable,
    ) -> (r: Result<(), P::Error>) {
        self.span_end_socket.receive_handles(transport, table)
    }

    fn release_handles(self, table: &mut HandleTable) {
        self.span_end_socket.release_handles(table);
    }
}

impl Span {
    /// The span whose beginning was told. Its socket is dropped.
    pub fn from(span_start: SpanStart, table: &mut HandleTable) -> (r: Self)
        requires
            old(table)@.well_formed(),
        ensures
            final(table)@.well_formed(),
            final(table)@ == released_all(old(table)@, span_start@.handles()),
            r@ == span_start@.span(),
            r.well_formed(),
            r.service@ == span_start.service@,
            r.name@ == span_start.name@,
            r.resource@ == span_start.resource@,
            r.trace_id == span_start.trace_id@.number(),
            r.span_id == span_start.id@.number(),
            r.start == span_start.time as i64,
            r.duration == 0,
            r.error == 0,
            r.metrics@.len() == 0,
    {
        let ghost start = span_start@;
        let ghost given = span_start.meta@;
        let mut meta: AssocMap<String, String> = AssocMap::new();
        assert(mapped(meta@, text_of()) =~= meta_texts(start.meta.take(0)));
        for (k, v) in iter: span_start.meta.into_entries()
            invariant
                meta.well_formed(),
                start.meta.len() == iter.seq().len(),
                forall|i: int|
                    0 <= i < iter.seq().len() ==> (
                    (#[trigger] iter.seq()[i]).0@,
                    iter.seq()[i].1@,
                    ) == start.meta[i],
                mapped(meta@, text_of()) == meta_texts(start.meta.take(iter.index() as int)),
        {
            let ghost i: int = iter.index() as int;
            assert(start.meta.take(i + 1).drop_last() =~= start.meta.take(i));
            assert((iter.seq()[i].0@, iter.seq()[i].1@) == start.meta[i]);
            let key = k.to_string();
            let value = v.to_string();
            proof {
                lemma_mapped(meta@, text_of(), key@);
                assert(text_of()(value) == value@);
            }
            meta.insert(key, value);
        }
        assert(start.meta.take(start.meta.len() as int) =~= start.meta);
        let metrics: AssocMap<String, DoubleBits> = AssocMap::new();
        let meta_struct: AssocMap<String, Vec<u8>> = AssocMap::new();
        span_start.span_end_socket.release_handles(table);
        Span {
            service: span_start.service,
            name: span_start.name,
            resource: span_start.resource,
            trace_id: span_start.trace_id.to_u64(),
            span_id: span_start.id.to_u64(),
            parent_id: match span_start.parent_id {
                Some(parent) => parent.to_u64(),
                None => 0,
            },
            start: span_start.time as i64,
            duration: 0,
            error: 0,
            meta,
            metrics,
            span_type: String::from_str("type_todo"),
            meta_struct,
        }
    }
}

/// Something that changes a span.
pub trait EventConsume: Sized {
    /// The span once it was changed.
    spec fn applied(self, span: SpanView) -> SpanView;

    /// Changes the span.
    fn apply_into(self, span: &mut Span)
        requires
            old(span).well_formed(),
        ensures
            final(span).well_formed(),
            final(span)@ == self.applied(old(span)@),
    ;
}

impl EventConsume for SpanFinished {
    open spec fn applied(self, span: SpanView) -> SpanView {
        SpanView { duration: self.duration as i64, ..span }
    }

    fn apply_into(self, span: &mut Span) {
        span.duration = self.duration as i64;
    }
}

// ---------------------------------------------------------------------------
// What holds of every span
// ---------------------------------------------------------------------------

/// A span says what its beginning says, and has no end yet.
pub proof fn span_says_what_its_beginning_says(start: SpanStartView)
    ensures
        start.span().service == start.service,
        start.span().name == start.name,
        start.span().resource == start.resource,
        start.span().trace_id == start.trace_id.number(),
        start.span().span_id == start.id.number(),
        start.parent_id matches Some(parent) ==> start.span().parent_id == parent.number(),
        start.parent_id is None ==> start.span().parent_id == 0,
        start.span().start == start.time as i64,
        start.span().duration == 0,
        start.span().error == 0,
        start.span().metrics == Seq::<(Seq<char>, DoubleBits)>::empty(),
        start.span().meta_struct == Seq::<(Seq<char>, Vec<u8>)>::empty(),
        start.span().span_type == "type_todo"@,
        start.span().meta == meta_texts(start.meta),
{
}

/// All information on a span is told. Where two keys have the same text, the later one counts.
pub proof fn information_is_told(meta: Seq<(MetaKeyView, MetaValueView)>, k: int)
    requires
        0 <= k < meta.len(),
        forall|j: int| k < j < meta.len() ==> (#[trigger] meta[j]).0.text() != meta[k].0.text(),
    ensures
        value_of(meta_texts(meta), meta[k].0.text()) == Some(meta[k].1.text()),
    decreases meta.len(),
{
    let less = meta.drop_last();
    let last = meta.last();
    entry_is_found(meta_texts(less), last.0.text(), last.1.text(), meta[k].0.text());
    if k < less.len() {
        assert(meta[meta.len() - 1].0.text() != meta[k].0.text());
        assert forall|j: int| k < j < less.len() implies (#[trigger] less[j]).0.text()
            != less[k].0.text() by {
            assert(less[j] == meta[j]);
        }
        information_is_told(less, k);
    }
}

/// Nothing is told that is no information on the span.
pub proof fn nothing_else_is_told(meta: Seq<(MetaKeyView, MetaValueView)>, key: Seq<char>)
    requires
        forall|j: int| 0 <= j < meta.len() ==> (#[trigger] meta[j]).0.text() != key,
    ensures
        value_of(meta_texts(meta), key) is None,
    decreases meta.len(),
{
    if meta.len() > 0 {
        let less = meta.drop_last();
        let last = meta.last();
        assert(meta[meta.len() - 1].0.text() != key);
        assert forall|j: int| 0 <= j < less.len() implies (#[trigger] less[j]).0.text()
            != key by {
            assert(less[j] == meta[j]);
        }
        nothing_else_is_told(less, key);
        entry_is_found(meta_texts(less), last.0.text(), last.1.text(), key);
    }
}

/// The texts of keys and values.
pub proof fn information_has_its_text(text: Seq<char>, pid: i32)
    ensures
        MetaKeyView::String(text).text() == text,
        MetaKeyView::CmdCurrentWorkingDirectory.text() == "current_working_directory"@,
        MetaKeyView::CmdOriginPid.text() == "pid"@,
        MetaKeyView::ExecutablePath.text() == "executable_path"@,
        MetaValueView::String(text).text() == text,
        MetaValueView::Pid(pid).text() == signed_decimal(pid as int),
{
}

/// The end of a span sets its duration, and nothing else.
pub proof fn end_sets_the_duration(finished: SpanFinished, span: SpanView)
    ensures
        finished.applied(span).duration == finished.duration as i64,
        finished.applied(span) == (SpanView { duration: finished.applied(span).duration, ..span }),
{
}

/// An event is about the trace of its span, and carries the socket of a span that begins.
pub proof fn event_is_about_its_trace(
    start: SpanStartView,
    finished: SpanFinishedView,
    trace_id: IdView,
    span_id: IdView,
)
    ensures
        EventView::StartSpan(start).trace_id() == start.trace_id,
        EventView::SpanFinished(finished).trace_id() == finished.trace_id,
        (EventView::ReportError { trace_id, span_id }).trace_id() == trace_id,
        start.span_end_socket matches Some(socket) ==> EventView::StartSpan(start).handles()
            == seq![socket],
        start.span_end_socket is None ==> EventView::StartSpan(start).handles() == Seq::<
            HandleView,
        >::empty(),
        EventView::SpanFinished(finished).handles() == Seq::<HandleView>::empty(),
        (EventView::ReportError { trace_id, span_id }).handles() == Seq::<HandleView>::empty(),
{
}

} // verus!
