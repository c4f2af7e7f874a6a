//! What is told to the backend of the traces.
use vstd::prelude::*;
use vstd::string::*;

use crate::assoc::{mapped, AssocMap};

verus! {

/// The text in a string.
pub open spec fn text_of() -> spec_fn(String) -> Seq<char> {
    |s: String| s@
}

/// A number in the double precision of IEEE 754, by its bits: one for the sign, eleven for the
/// exponent, which is too great by 1023, and the others for what follows the leading one.
pub type DoubleBits = u64;

/// Whether a number is `factor` times two to the power `exponent`, where it is a normal one that is
/// not negative. `factor` is given in parts of two to the power of 52, and is at least one.
pub open spec fn denotes(number: DoubleBits, factor: int, exponent: int) -> bool {
    &&& -1022 <= exponent <= 1023
    &&& 0x10_0000_0000_0000 <= factor < 0x20_0000_0000_0000
    &&& number == (exponent + 1023) * 0x10_0000_0000_0000 + (factor - 0x10_0000_0000_0000)
}

/// One.
pub const ONE: DoubleBits = 0x3ff0_0000_0000_0000;

/// Sixty.
pub const SIXTY: DoubleBits = 0x404e_0000_0000_0000;

/// The constants are the numbers that they are named after: one is once two to the power of zero,
/// and sixty is fifteen eighths of two to the power of five.
pub proof fn constants_are_their_numbers()
    ensures
        denotes(ONE, 0x10_0000_0000_0000, 0),
        denotes(SIXTY, 0x1e_0000_0000_0000, 5),
{
}

/// One piece of work.
#[derive(Debug)]
pub struct Span {
    pub service: String,
    pub name: String,
    pub resource: String,
    pub trace_id: u64,
    pub span_id: u64,
    /// Zero where the span has no parent.
    pub parent_id: u64,
    /// Nanoseconds since the epoch.
    pub start: i64,
    /// Nanoseconds.
    pub duration: i64,
    pub error: i32,
    pub meta: AssocMap<String, String>,
    pub metrics: AssocMap<String, DoubleBits>,
    pub span_type: String,
    pub meta_struct: AssocMap<String, Vec<u8>>,
}

/// What a span says.
pub struct SpanView {
    pub service: Seq<char>,
    pub name: Seq<char>,
    pub resource: Seq<char>,
    pub trace_id: u64,
    pub span_id: u64,
    pub parent_id: u64,
    pub start: i64,
    pub duration: i64,
    pub error: i32,
    pub meta: Seq<(Seq<char>, Seq<char>)>,
    pub metrics: Seq<(Seq<char>, DoubleBits)>,
    pub span_type: Seq<char>,
    pub meta_struct: Seq<(Seq<char>, Vec<u8>)>,
}

impl View for Span {
    type V = SpanView;

    open spec fn view(&self) -> SpanView {
        SpanView {
            service: self.service@,
            name: self.name@,
            resource: self.resource@,
            trace_id: self.trace_id,
            span_id: self.span_id,
            parent_id: self.parent_id,
            start: self.start,
            duration: self.duration,
            error: self.error,
            meta: mapped(self.meta@, text_of()),
            metrics: self.metrics@,
            span_type: self.span_type@,
            meta_struct: self.meta_struct@,
        }
    }
}

impl Span {
    /// Whether the maps in the span are maps.
    pub open spec fn well_formed(&self) -> bool {
        &&& self.meta.well_formed()
        &&& self.metrics.well_formed()
        &&& self.meta_struct.well_formed()
    }
}

/// What some spans say.
pub open spec fn span_views(spans: Seq<Span>) -> Seq<SpanView> {
    Seq::new(spans.len(), |i: int| spans[i]@)
}

/// The spans of one trace.
#[derive(Debug)]
pub struct TraceChunk {
    pub priority: i32,
    pub origin: String,
    pub spans: Vec<Span>,
    pub tags: AssocMap<String, String>,
    pub dropped_trace: bool,
}

/// What a chunk says.
pub struct ChunkView {
    pub priority: i32,
    pub origin: Seq<char>,
    pub spans: Seq<SpanView>,
    pub tags: Seq<(Seq<char>, Seq<char>)>,
    pub dropped_trace: bool,
}

impl View for TraceChunk {
    type V = ChunkView;

    open spec fn view(&self) -> ChunkView {
        ChunkView {
            priority: self.priority,
            origin: self.origin@,
            spans: span_views(self.spans@),
            tags: mapped(self.tags@, text_of()),
            dropped_trace: self.dropped_trace,
        }
    }
}

impl TraceChunk {
    /// Whether the maps in the chunk are maps.
    pub open spec fn well_formed(&self) -> bool {
        &&& self.tags.well_formed()
        &&& forall|i: int| 0 <= i < self.spans@.len() ==> (#[trigger] self.spans@[i]).well_formed()
    }
}

/// What some chunks say.
pub open spec fn chunk_views(chunks: Seq<TraceChunk>) -> Seq<ChunkView> {
    Seq::new(chunks.len(), |i: int| chunks[i]@)
}

/// What one tracer has seen.
#[derive(Debug)]
pub struct TracerPayload {
    pub container_id: String,
    pub language_name: String,
    pub language_version: String,
    pub tracer_version: String,
    pub runtime_id: String,
    pub chunks: Vec<TraceChunk>,
    pub tags: AssocMap<String, String>,
    pub env: String,
    pub hostname: String,
    pub app_version: String,
}

/// What a payload says.
pub struct PayloadView {
    pub container_id: Seq<char>,
    pub language_name: Seq<char>,
    pub language_version: Seq<char>,
    pub tracer_version: Seq<char>,
    pub runtime_id: Seq<char>,
    pub chunks: Seq<ChunkView>,
    pub tags: Seq<(Seq<char>, Seq<char>)>,
    pub env: Seq<char>,
    pub hostname: Seq<char>,
    pub app_version: Seq<char>,
}

impl View for TracerPayload {
    type V = PayloadView;

    open spec fn view(&self) -> PayloadView {
        PayloadView {
            container_id: self.container_id@,
            language_name: self.language_name@,
            language_version: self.language_version@,
            tracer_version: self.tracer_version@,
            runtime_id: self.runtime_id@,
            chunks: chunk_views(self.chunks@),
            tags: mapped(self.tags@, text_of()),
            env: self.env@,
            hostname: self.hostname@,
            app_version: self.app_version@,
        }
    }
}

impl TracerPayload {
    /// Whether the maps in the payload are maps.
    pub open spec fn well_formed(&self) -> bool {
        &&& self.tags.well_formed()
        &&& forall|i: int|
            0 <= i < self.chunks@.len() ==> (#[trigger] self.chunks@[i]).well_formed()
    }
}

/// What some payloads say.
pub open spec fn payload_views(payloads: Seq<TracerPayload>) -> Seq<PayloadView> {
    Seq::new(payloads.len(), |i: int| payloads[i]@)
}

/// What an agent tells the backend.
#[derive(Debug)]
pub struct AgentPayload {
    pub host_name: String,
    pub env: String,
    pub tracer_payloads: Vec<TracerPayload>,
    pub tags: AssocMap<String, String>,
    pub agent_version: String,
    pub target_tps: DoubleBits,
    pub error_tps: DoubleBits,
}

/// What the payload of an agent says.
pub struct AgentPayloadView {
    pub host_name: Seq<char>,
    pub env: Seq<char>,
    pub tracer_payloads: Seq<PayloadView>,
    pub tags: Seq<(Seq<char>, Seq<char>)>,
    pub agent_version: Seq<char>,
    pub target_tps: DoubleBits,
    pub error_tps: DoubleBits,
}

impl View for AgentPayload {
    type V = AgentPayloadView;

    open spec fn view(&self) -> AgentPayloadView {
        AgentPayloadView {
            host_name: self.host_name@,
            env: self.env@,
            tracer_payloads: payload_views(self.tracer_payloads@),
            tags: mapped(self.tags@, text_of()),
            agent_version: self.agent_version@,
            target_tps: self.target_tps,
            error_tps: self.error_tps,
        }
    }
}

} // verus!
