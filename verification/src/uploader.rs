//! Tells the backend of the traces.
use std::collections::HashSet;

use hyper::header::{HeaderMap, HeaderName, HeaderValue};
use vstd::prelude::*;
use vstd::std_specs::hash::*;
use vstd::string::*;
use vstd::utf8::*;

use crate::assoc::{entry_is_found, mapped, value_of, with_entry, AssocMap};
use crate::collector::SystemInfo;
use crate::pb::{chunk_views, payload_views, span_views, text_of};
use crate::pb::{AgentPayload, AgentPayloadView, ChunkView, PayloadView, Span, SpanView};
use crate::pb::{TraceChunk, TracerPayload, ONE, SIXTY};

verus! {

/// How the backend wants to be told.
#[derive(Debug, Clone, Copy, PartialEq, Eq, Structural)]
pub enum TracingProtocol {
    BackendProtobufV01,
    AgentV04,
}

/// Where the backend is, and how it wants to be told.
#[derive(Debug)]
pub struct TracingConfig {
    pub protocol: TracingProtocol,
    pub url: String,
    pub http_headers: Vec<(String, String)>,
}

/// What is sent to the backend.
#[derive(Debug)]
pub struct Submission {
    pub method: String,
    pub url: String,
    pub headers: HeaderMap<HeaderValue>,
    pub body: SubmissionBody,
}

/// What the backend is told.
#[derive(Debug)]
pub enum SubmissionBody {
    /// The payload of an agent.
    Agent(AgentPayload),
    /// Traces.
    Traces(Vec<TraceChunk>),
}

/// Why there is nothing that can be sent to the backend.
#[derive(Debug, Clone, Copy, PartialEq, Eq, Structural)]
pub enum RequestError {
    /// The place of the backend is none.
    InvalidUri,
    /// A header has a name that no header can have.
    InvalidHeaderName,
    /// A header says something that no header can say.
    InvalidHeaderValue,
    /// There are more headers than a request has room for.
    TooManyHeaders,
}

/// Whether a character can stand in the name of a header.
pub open spec fn is_name_char(c: char) -> bool {
    ||| '0' <= c <= '9'
    ||| 'a' <= c <= 'z'
    ||| 'A' <= c <= 'Z'
    ||| '!' <= c <= '\''
    ||| c == '*'
    ||| c == '+'
    ||| c == '-'
    ||| c == '.'
    ||| c == '^'
    ||| c == '_'
    ||| c == '`'
    ||| c == '|'
    ||| c == '~'
}

/// Whether a header can have a name.
pub open spec fn is_header_name(name: Seq<char>) -> bool {
    &&& 0 < name.len() <= 65535
    &&& forall|i: int| 0 <= i < name.len() ==> is_name_char(#[trigger] name[i])
}

/// Whether a header can say something: there is no control character in it but a tab.
pub open spec fn is_header_value(value: Seq<char>) -> bool {
    forall|i: int|
        0 <= i < value.len() ==> #[trigger] value[i] == '\t' || (value[i] >= ' ' && value[i]
            != '\u{7f}')
}

/// Whether a text is a place that something can be sent to.
pub uninterp spec fn is_uri(text: Seq<char>) -> bool;

/// `hyper::header::HeaderName::from_bytes` takes names of one up to 65535 bytes, each of which is a
/// letter, a digit or one of some punctuation marks.
#[verifier::external_body]
fn check_header_name(name: &str) -> (r: bool)
    ensures
        r == is_header_name(name@),
{
    hyper::header::HeaderName::from_bytes(name.as_bytes()).is_ok()
}

/// `hyper::header::HeaderValue::from_bytes` takes bytes that are no control characters, and tabs.
/// All bytes of a character beyond ASCII are taken.
#[verifier::external_body]
fn check_header_value(value: &str) -> (r: bool)
    ensures
        r == is_header_value(value@),
{
    hyper::header::HeaderValue::from_bytes(value.as_bytes()).is_ok()
}

/// The headers of a request.
#[verifier::external_type_specification]
#[verifier::external_body]
#[verifier::reject_recursive_types(T)]
pub struct ExHeaderMap<T>(hyper::header::HeaderMap<T>);

/// What a header says.
#[verifier::external_type_specification]
#[verifier::external_body]
pub struct ExHeaderValue(hyper::header::HeaderValue);

/// What some headers say, in bytes, by their names in small letters. What is said under one name
/// stays in order.
pub uninterp spec fn header_contents(map: HeaderMap<HeaderValue>) -> Map<Seq<char>, Seq<Seq<u8>>>;

/// A letter of ASCII as a small one. Other characters stay as they are.
pub open spec fn small_letter(c: char) -> char {
    if 'A' <= c <= 'Z' {
        (c as int + 32) as char
    } else {
        c
    }
}

/// A name in small letters.
pub open spec fn small_letters(name: Seq<char>) -> Seq<char> {
    name.map_values(|c: char| small_letter(c))
}

/// What headers say once one more was added.
pub open spec fn with_header(
    contents: Map<Seq<char>, Seq<Seq<u8>>>,
    header: (Seq<char>, Seq<char>),
) -> Map<Seq<char>, Seq<Seq<u8>>> {
    let name = small_letters(header.0);
    let said = if contents.contains_key(name) {
        contents[name]
    } else {
        Seq::empty()
    };
    contents.insert(name, said.push(encode_utf8(header.1)))
}

/// What headers say that were added in order.
pub open spec fn all_headers(headers: Seq<(Seq<char>, Seq<char>)>) -> Map<Seq<char>, Seq<Seq<u8>>>
    decreases headers.len(),
{
    if headers.len() == 0 {
        Map::empty()
    } else {
        with_header(all_headers(headers.drop_last()), headers.last())
    }
}

/// The number of names that a request has room for, whatever they are.
pub const SURE_NAMES: usize = 6_554;

/// `HeaderMap::new` makes a map without headers.
#[verifier::external_body]
fn no_headers() -> (r: HeaderMap<HeaderValue>)
    ensures
        header_contents(r) == all_headers(Seq::empty()),
{
    HeaderMap::new()
}

/// `HeaderMap::try_append` adds a header behind those of the same name, in whatever letters. It
/// refuses where the map would have to grow beyond 32768 places, and then leaves the map as it is.
/// The map grows where three quarters of its places are taken, or a fifth of them and the names
/// collide. So it does not refuse while less than a fifth of 32768 names are in it. Which maps with
/// more names refuse is not said here: it depends on how the names are hashed.
#[verifier::external_body]
fn append_header(map: &mut HeaderMap<HeaderValue>, name: &str, value: &str) -> (r: bool)
    requires
        is_header_name(name@),
        is_header_value(value@),
    ensures
        r ==> header_contents(*final(map)) == with_header(
            header_contents(*old(map)),
            (name@, value@),
        ),
        !r ==> header_contents(*final(map)) == header_contents(*old(map)),
        header_contents(*old(map)).dom().len() < SURE_NAMES ==> r,
{
    match (HeaderName::from_bytes(name.as_bytes()), HeaderValue::from_bytes(value.as_bytes())) {
        (Ok(name), Ok(value)) => map.try_append(name, value).is_ok(),
        _ => false,
    }
}

/// `hyper::Uri::try_from` on a text. Whether it takes the text is named, and depends on nothing
/// but the text.
#[verifier::external_body]
fn check_uri(text: &str) -> (r: bool)
    ensures
        r == is_uri(text@),
{
    hyper::Uri::try_from(text).is_ok()
}

/// What is wrong with a header, if anything is.
pub open spec fn header_error(header: (Seq<char>, Seq<char>)) -> Option<RequestError> {
    if !is_header_name(header.0) {
        Some(RequestError::InvalidHeaderName)
    } else if !is_header_value(header.1) {
        Some(RequestError::InvalidHeaderValue)
    } else {
        None
    }
}

/// What is wrong with the first header with which something is wrong.
pub open spec fn headers_error(headers: Seq<(Seq<char>, Seq<char>)>) -> Option<RequestError>
    decreases headers.len(),
{
    if headers.len() == 0 {
        None
    } else {
        match headers_error(headers.drop_last()) {
            Some(e) => Some(e),
            None => header_error(headers.last()),
        }
    }
}

/// The name of a header, and what it says.
pub open spec fn header_view(header: (String, String)) -> (Seq<char>, Seq<char>) {
    (header.0@, header.1@)
}

/// The names of some headers, and what they say.
pub open spec fn header_views(headers: Seq<(String, String)>) -> Seq<(Seq<char>, Seq<char>)> {
    Seq::new(headers.len(), |i: int| header_view(headers[i]))
}

/// The headers that a protocol asks for.
pub open spec fn protocol_headers(protocol: TracingProtocol) -> Seq<(Seq<char>, Seq<char>)> {
    match protocol {
        TracingProtocol::BackendProtobufV01 => seq![
            ("Content-Type"@, "application/x-protobuf"@),
            ("X-Datadog-Reported-Languages"@, "rust,TODO"@),
        ],
        TracingProtocol::AgentV04 => seq![("Content-Type"@, "application/json"@)],
    }
}

/// Whether some span has an identifier.
pub open spec fn has_span(spans: Seq<SpanView>, span_id: u64) -> bool {
    exists|i: int| 0 <= i < spans.len() && (#[trigger] spans[i]).span_id == span_id
}

/// The place of the first span whose parent is not among the spans, or their number where there is
/// no such span.
pub open spec fn top_level(spans: Seq<SpanView>) -> int {
    top_level_from(spans, 0)
}

/// The place, from `i` on, of the first span whose parent is not among the spans.
pub open spec fn top_level_from(spans: Seq<SpanView>, i: int) -> int
    decreases spans.len() - i,
{
    if i >= spans.len() {
        spans.len() as int
    } else if !has_span(spans, spans[i].parent_id) {
        i
    } else {
        top_level_from(spans, i + 1)
    }
}

/// A span that is told to be the first of its trace, and part of the sample.
pub open spec fn marked_span(span: SpanView) -> SpanView {
    SpanView {
        metrics: with_entry(
            with_entry(
                with_entry(
                    with_entry(span.metrics, "_dd.agent_psr"@, ONE),
                    "_sample_rate"@,
                    ONE,
                ),
                "_sampling_priority_v1"@,
                ONE,
            ),
            "_top_level"@,
            ONE,
        ),
        ..span
    }
}

/// A chunk, its first span marked.
pub open spec fn marked_chunk(chunk: ChunkView) -> ChunkView {
    let i = top_level(chunk.spans);
    if i < chunk.spans.len() {
        ChunkView { spans: chunk.spans.update(i, marked_span(chunk.spans[i])), ..chunk }
    } else {
        chunk
    }
}

/// A payload, the first span of each chunk marked.
pub open spec fn marked_payload(payload: PayloadView) -> PayloadView {
    PayloadView {
        chunks: Seq::new(payload.chunks.len(), |i: int| marked_chunk(payload.chunks[i])),
        ..payload
    }
}

/// The chunks of some payloads, in order.
pub open spec fn all_chunks(payloads: Seq<PayloadView>) -> Seq<ChunkView>
    decreases payloads.len(),
{
    if payloads.len() == 0 {
        Seq::empty()
    } else {
        all_chunks(payloads.drop_last()) + payloads.last().chunks
    }
}

/// Whether the maps in some payloads are maps.
pub open spec fn payloads_well_formed(payloads: Seq<TracerPayload>) -> bool {
    forall|i: int| 0 <= i < payloads.len() ==> (#[trigger] payloads[i]).well_formed()
}

/// Tells the backend of the traces.
#[derive(Debug)]
pub struct Uploader {
    pub tracing_config: TracingConfig,
    pub system_info: SystemInfo,
}

impl Uploader {
    /// Tells of the traces of a system.
    pub fn init(tracing_config: TracingConfig, system_info: SystemInfo) -> (r: Self)
        ensures
            r.tracing_config == tracing_config,
            r.system_info == system_info,
    {
        Uploader { tracing_config, system_info }
    }

    /// The first span whose parent is not in the chunk.
    pub fn find_top_level(chunk: &TraceChunk) -> (r: Option<usize>)
        ensures
            match r {
                Some(i) => i == top_level(chunk@.spans) && i < chunk@.spans.len(),
                None => top_level(chunk@.spans) == chunk@.spans.len(),
            },
    {
        broadcast use group_hash_axioms;

        let ghost spans = chunk@.spans;
        let mut span_ids: HashSet<u64> = HashSet::new();
        for i in 0..chunk.spans.len()
            invariant
                spans == span_views(chunk.spans@),
                forall|id: u64| #[trigger]
                    span_ids@.contains(id) <==> exists|j: int|
                        0 <= j < i && (#[trigger] spans[j]).span_id == id,
        {
            assert(spans[i as int].span_id == chunk.spans@[i as int].span_id);
            span_ids.insert(chunk.spans[i].span_id);
        }
        for i in 0..chunk.spans.len()
            invariant
                spans == span_views(chunk.spans@),
                forall|id: u64| #[trigger] span_ids@.contains(id) <==> has_span(spans, id),
                top_level(spans) == top_level_from(spans, i as int),
        {
            assert(spans[i as int].parent_id == chunk.spans@[i as int].parent_id);
            if !span_ids.contains(&chunk.spans[i].parent_id) {
                return Some(i);
            }
        }
        None
    }

    /// What to send to the backend, to tell of some payloads. Fails where no request can go to the
    /// backend, or have the headers that it wants.
    pub fn submit(&self, payloads: Vec<TracerPayload>) -> (r: Result<Submission, RequestError>)
        requires
            payloads_well_formed(payloads@),
        ensures
            self.is_submission(r, is_uri(self.tracing_config.url@), payload_views(payloads@)),
    {
        let url_taken: bool = check_uri(self.tracing_config.url.as_str());
        let headers = self.request_headers();
        self.submit_to(url_taken, headers, payloads)
    }

    /// The headers of a request: those that the protocol asks for, and those of the configuration.
    /// Fails with the first of them that cannot be a header, or that there is no room for.
    pub fn request_headers(&self) -> (r: Result<HeaderMap<HeaderValue>, RequestError>)
        ensures
            self.has_headers(r),
    {
        let mut map = no_headers();
        proof {
            lemma_protocol_headers(self.tracing_config.protocol);
            lemma_few_names(Seq::empty());
        }
        let ghost first = protocol_headers(self.tracing_config.protocol);
        match self.tracing_config.protocol {
            TracingProtocol::BackendProtobufV01 => {
                append_header(&mut map, "Content-Type", "application/x-protobuf");
                proof {
                    lemma_one_more(Seq::empty(), first[0]);
                    lemma_few_names(Seq::empty().push(first[0]));
                }
                append_header(&mut map, "X-Datadog-Reported-Languages", "rust,TODO");
                proof {
                    lemma_one_more(Seq::empty().push(first[0]), first[1]);
                    assert(Seq::empty().push(first[0]).push(first[1]) =~= first);
                }
            },
            TracingProtocol::AgentV04 => {
                append_header(&mut map, "Content-Type", "application/json");
                proof {
                    lemma_one_more(Seq::empty(), first[0]);
                    assert(Seq::empty().push(first[0]) =~= first);
                }
            },
        }
        let ghost more = header_views(self.tracing_config.http_headers@);
        assert(first + more.take(0) =~= first);
        for i in 0..self.tracing_config.http_headers.len()
            invariant
                first == protocol_headers(self.tracing_config.protocol),
                more == header_views(self.tracing_config.http_headers@),
                header_contents(map) == all_headers(first + more.take(i as int)),
                headers_error(more.take(i as int)) is None,
        {
            let name = self.tracing_config.http_headers[i].0.as_str();
            let value = self.tracing_config.http_headers[i].1.as_str();
            proof {
                assert(more[i as int] == (name@, value@));
                assert(more.take(i + 1).drop_last() =~= more.take(i as int));
                assert(more.take(i + 1).last() == (name@, value@));
            }
            if !check_header_name(name) {
                proof {
                    lemma_first_error(more, i + 1);
                }
                return Err(RequestError::InvalidHeaderName);
            }
            if !check_header_value(value) {
                proof {
                    lemma_first_error(more, i + 1);
                }
                return Err(RequestError::InvalidHeaderValue);
            }
            proof {
                lemma_few_names(first + more.take(i as int));
                lemma_one_more(first + more.take(i as int), more[i as int]);
                assert((first + more.take(i as int)).push(more[i as int]) =~= first + more.take(
                    i + 1,
                ));
            }
            if !append_header(&mut map, name, value) {
                assert(self.is_refused_at(i as int));
                return Err(RequestError::TooManyHeaders);
            }
        }
        assert(more.take(more.len() as int) =~= more);
        Ok(map)
    }

    /// Whether the header of the configuration at `i` is one that there may be no room for: there
    /// are many before it, and nothing is wrong with them or with it.
    pub open spec fn is_refused_at(&self, i: int) -> bool {
        let first = protocol_headers(self.tracing_config.protocol);
        let more = header_views(self.tracing_config.http_headers@);
        &&& 0 <= i < more.len()
        &&& first.len() + i >= SURE_NAMES
        &&& headers_error(more.take(i + 1)) is None
    }

    /// Whether `r` is what comes of making the headers of a request. Where there are fewer than
    /// `SURE_NAMES`, there is room for all of them.
    pub open spec fn has_headers(&self, r: Result<HeaderMap<HeaderValue>, RequestError>) -> bool {
        let first = protocol_headers(self.tracing_config.protocol);
        let more = header_views(self.tracing_config.http_headers@);
        match r {
            Ok(map) => headers_error(more) is None && header_contents(map) == all_headers(
                first + more,
            ),
            Err(RequestError::TooManyHeaders) => exists|i: int| #[trigger] self.is_refused_at(i),
            Err(e) => headers_error(more) == Some(e),
        }
    }

    /// What to send to the backend, to tell of some payloads. `url_taken` says whether something
    /// can be sent to the place where the backend is, and `headers` what came of making the
    /// headers.
    pub fn submit_to(
        &self,
        url_taken: bool,
        headers: Result<HeaderMap<HeaderValue>, RequestError>,
        payloads: Vec<TracerPayload>,
    ) -> (r: Result<Submission, RequestError>)
        requires
            payloads_well_formed(payloads@),
        ensures
            match (url_taken, headers) {
                (false, _) => r == Err::<Submission, RequestError>(RequestError::InvalidUri),
                (true, Err(e)) => r == Err::<Submission, RequestError>(e),
                (true, Ok(map)) => {
                    &&& r matches Ok(submission)
                    &&& submission.headers == map
                    &&& self.tells(submission, payload_views(payloads@))
                },
            },
    {
        if !url_taken {
            return Err(RequestError::InvalidUri);
        }
        let headers = match headers {
            Ok(headers) => headers,
            Err(e) => {
                return Err(e);
            },
        };
        let body = match self.tracing_config.protocol {
            TracingProtocol::BackendProtobufV01 => SubmissionBody::Agent(
                self.to_agent_payload(payloads),
            ),
            TracingProtocol::AgentV04 => SubmissionBody::Traces(flatten(payloads)),
        };
        Ok(
            Submission {
                method: String::from_str("POST"),
                url: self.tracing_config.url.clone(),
                headers,
                body,
            },
        )
    }

    /// Whether something that is sent goes to the backend and tells of some payloads, whatever its
    /// headers.
    pub open spec fn tells(&self, submission: Submission, payloads: Seq<PayloadView>) -> bool {
        &&& submission.method@ == "POST"@
        &&& submission.url@ == self.tracing_config.url@
        &&& match self.tracing_config.protocol {
            TracingProtocol::BackendProtobufV01 => {
                &&& submission.body matches SubmissionBody::Agent(payload)
                &&& payload@ == self.agent_payload(payloads)
            },
            TracingProtocol::AgentV04 => {
                &&& submission.body matches SubmissionBody::Traces(traces)
                &&& chunk_views(traces@) == all_chunks(payloads)
            },
        }
    }

    /// Whether `r` is what to send to the backend, to tell of some payloads.
    pub open spec fn is_submission(
        &self,
        r: Result<Submission, RequestError>,
        url_taken: bool,
        payloads: Seq<PayloadView>,
    ) -> bool {
        if !url_taken {
            r == Err::<Submission, RequestError>(RequestError::InvalidUri)
        } else {
            match r {
                Ok(submission) => self.has_headers(Ok(submission.headers)) && self.tells(
                    submission,
                    payloads,
                ),
                Err(e) => self.has_headers(Err(e)),
            }
        }
    }

    /// What an agent tells of some payloads.
    pub open spec fn agent_payload(&self, payloads: Seq<PayloadView>) -> AgentPayloadView {
        AgentPayloadView {
            host_name: self.system_info.hostname@,
            env: self.system_info.env@,
            tracer_payloads: Seq::new(payloads.len(), |i: int| marked_payload(payloads[i])),
            tags: seq![("some_tag"@, "value"@)],
            agent_version: "libdatadog"@,
            target_tps: SIXTY,
            error_tps: SIXTY,
        }
    }

    /// What an agent tells of some payloads.
    fn to_agent_payload(&self, payloads: Vec<TracerPayload>) -> (r: AgentPayload)
        requires
            payloads_well_formed(payloads@),
        ensures
            r@ == self.agent_payload(payload_views(payloads@)),
    {
        let mut tags: AssocMap<String, String> = AssocMap::new();
        let value = String::from_str("value");
        tags.insert(String::from_str("some_tag"), value);
        assert(tags@ =~= seq![("some_tag"@, value)]);
        assert(mapped(tags@, text_of()) =~= seq![("some_tag"@, "value"@)]);
        let ghost given = payload_views(payloads@);
        let mut tracer_payloads: Vec<TracerPayload> = Vec::new();
        for payload in iter: payloads
            invariant
                payloads_well_formed(iter.seq()),
                given == payload_views(iter.seq()),
                tracer_payloads@.len() == iter.index(),
                forall|i: int|
                    0 <= i < tracer_payloads@.len() ==> (#[trigger] tracer_payloads@[i])@
                        == marked_payload(given[i]),
        {
            assert(given[iter.index() as int] == payload@);
            assert(iter.seq()[iter.index() as int].well_formed());
            tracer_payloads.push(mark_payload(payload));
        }
        assert(payload_views(tracer_payloads@) =~= self.agent_payload(given).tracer_payloads);
        AgentPayload {
            host_name: self.system_info.hostname.clone(),
            env: self.system_info.env.clone(),
            tracer_payloads,
            tags,
            agent_version: String::from_str("libdatadog"),
            target_tps: SIXTY,
            error_tps: SIXTY,
        }
    }
}

/// Headers that follow one with which something is wrong do not matter.
proof fn lemma_first_error(headers: Seq<(Seq<char>, Seq<char>)>, n: int)
    requires
        0 <= n <= headers.len(),
        headers_error(headers.take(n)) is Some,
    ensures
        headers_error(headers) == headers_error(headers.take(n)),
    decreases headers.len() - n,
{
    if n < headers.len() {
        assert(headers.take(n + 1).drop_last() =~= headers.take(n));
        lemma_first_error(headers, n + 1);
    } else {
        assert(headers.take(n) =~= headers);
    }
}

/// The headers that a protocol asks for can be headers.
proof fn lemma_protocol_headers(protocol: TracingProtocol)
    ensures
        forall|i: int|
            0 <= i < protocol_headers(protocol).len() ==> header_error(
                #[trigger] protocol_headers(protocol)[i],
            ) is None,
{
    reveal_strlit("Content-Type");
    reveal_strlit("application/x-protobuf");
    reveal_strlit("X-Datadog-Reported-Languages");
    reveal_strlit("rust,TODO");
    reveal_strlit("application/json");
}

/// There are no more names than headers.
proof fn lemma_few_names(headers: Seq<(Seq<char>, Seq<char>)>)
    ensures
        all_headers(headers).dom().finite(),
        all_headers(headers).dom().len() <= headers.len(),
    decreases headers.len(),
{
    if headers.len() > 0 {
        lemma_few_names(headers.drop_last());
        let before = all_headers(headers.drop_last());
        let name = small_letters(headers.last().0);
        assert(all_headers(headers).dom() =~= before.dom().insert(name));
    }
}

/// What headers say once one more was added.
proof fn lemma_one_more(headers: Seq<(Seq<char>, Seq<char>)>, header: (Seq<char>, Seq<char>))
    ensures
        all_headers(headers.push(header)) == with_header(all_headers(headers), header),
{
    assert(headers.push(header).drop_last() =~= headers);
}

/// The chunks of some payloads, in order.
fn flatten(payloads: Vec<TracerPayload>) -> (r: Vec<TraceChunk>)
    ensures
        chunk_views(r@) == all_chunks(payload_views(payloads@)),
{
    let ghost given = payload_views(payloads@);
    let mut traces: Vec<TraceChunk> = Vec::new();
    assert(chunk_views(traces@) =~= Seq::<ChunkView>::empty());
    for payload in iter: payloads
        invariant
            given == payload_views(iter.seq()),
            chunk_views(traces@) == all_chunks(given.take(iter.index() as int)),
    {
        let ghost i: int = iter.index() as int;
        let ghost so_far = traces@;
        proof {
            assert(given.take(i + 1).drop_last() =~= given.take(i));
            assert(given.take(i + 1).last() == payload@);
        }
        let mut chunks = payload.chunks;
        let ghost more = chunks@;
        traces.append(&mut chunks);
        assert(chunk_views(traces@) =~= chunk_views(so_far) + chunk_views(more));
    }
    assert(given.take(given.len() as int) =~= given);
    traces
}

/// Marks a span as the first of its trace, and part of the sample.
fn mark_span(span: &mut Span)
    requires
        old(span).well_formed(),
    ensures
        final(span).well_formed(),
        final(span)@ == marked_span(old(span)@),
{
    span.metrics.insert(String::from_str("_dd.agent_psr"), ONE);
    span.metrics.insert(String::from_str("_sample_rate"), ONE);
    span.metrics.insert(String::from_str("_sampling_priority_v1"), ONE);
    span.metrics.insert(String::from_str("_top_level"), ONE);
}

/// Marks the first span of a chunk.
fn mark_chunk(chunk: TraceChunk) -> (r: TraceChunk)
    requires
        chunk.well_formed(),
    ensures
        r.well_formed(),
        r@ == marked_chunk(chunk@),
{
    let ghost before = chunk;
    let mut chunk = chunk;
    match Uploader::find_top_level(&chunk) {
        Some(i) => {
            assert(before.spans@[i as int].well_formed());
            mark_span(&mut chunk.spans[i]);
            assert(span_views(chunk.spans@) =~= marked_chunk(before@).spans);
        },
        None => {},
    }
    chunk
}

/// Marks the first span of each chunk of a payload.
fn mark_payload(payload: TracerPayload) -> (r: TracerPayload)
    requires
        payload.well_formed(),
    ensures
        r.well_formed(),
        r@ == marked_payload(payload@),
{
    let mut payload = payload;
    let ghost given = payload@;
    let mut chunks: Vec<TraceChunk> = Vec::new();
    std::mem::swap(&mut chunks, &mut payload.chunks);
    let ghost all = chunks@;
    let mut marked: Vec<TraceChunk> = Vec::new();
    for chunk in iter: chunks
        invariant
            all == iter.seq(),
            forall|i: int| 0 <= i < all.len() ==> (#[trigger] all[i]).well_formed(),
            marked@.len() == iter.index(),
            forall|i: int|
                0 <= i < marked@.len() ==> (#[trigger] marked@[i])@ == marked_chunk(all[i]@)
                    && marked@[i].well_formed(),
    {
        assert(all[iter.index() as int] == chunk);
        marked.push(mark_chunk(chunk));
    }
    assert(chunk_views(marked@) =~= marked_payload(given).chunks);
    payload.chunks = marked;
    payload
}

/// The payloads that wait to be sent.
#[derive(Debug)]
pub struct PendingPayloads {
    payloads: Vec<Box<TracerPayload>>,
}

impl View for PendingPayloads {
    type V = Seq<TracerPayload>;

    closed spec fn view(&self) -> Seq<TracerPayload> {
        Seq::new(self.payloads@.len(), |i: int| *self.payloads@[i])
    }
}

impl PendingPayloads {
    /// None waits.
    pub fn new() -> (r: Self)
        ensures
            r@ == Seq::<TracerPayload>::empty(),
    {
        let r = PendingPayloads { payloads: Vec::new() };
        assert(r@ =~= Seq::<TracerPayload>::empty());
        r
    }

    /// A payload has come.
    pub fn on_payload(&mut self, payload: Box<TracerPayload>)
        ensures
            final(self)@ == old(self)@.push(*payload),
    {
        self.payloads.push(payload);
        assert(self@ =~= old(self)@.push(*payload));
    }

    /// It is time to send. Where something waits, it comes out in order.
    pub fn on_tick(&mut self) -> (r: Option<Vec<TracerPayload>>)
        ensures
            final(self)@ == Seq::<TracerPayload>::empty(),
            match r {
                Some(payloads) => payloads@ == old(self)@ && payloads@.len() > 0,
                None => old(self)@.len() == 0,
            },
    {
        let ghost waiting = self@;
        let mut payloads: Vec<Box<TracerPayload>> = Vec::new();
        std::mem::swap(&mut payloads, &mut self.payloads);
        assert(self@ =~= Seq::<TracerPayload>::empty());
        if payloads.len() == 0 {
            return None;
        }
        let mut out: Vec<TracerPayload> = Vec::new();
        for payload in iter: payloads
            invariant
                waiting.len() == iter.seq().len(),
                forall|i: int| 0 <= i < waiting.len() ==> waiting[i] == *(#[trigger] iter.seq()[i]),
                out@ == waiting.take(iter.index() as int),
        {
            let ghost i: int = iter.index() as int;
            assert(waiting[i] == *iter.seq()[i]);
            out.push(*payload);
            assert(out@ =~= waiting.take(i + 1));
        }
        assert(waiting.take(waiting.len() as int) =~= waiting);
        Some(out)
    }
}

/// As many headers as `SURE_NAMES` always fit into a request, those of the protocol included: what
/// comes of making them is then decided by what they are alone.
pub proof fn few_headers_always_fit(
    uploader: Uploader,
    r: Result<HeaderMap<HeaderValue>, RequestError>,
)
    requires
        protocol_headers(uploader.tracing_config.protocol).len()
            + uploader.tracing_config.http_headers@.len() <= SURE_NAMES,
        uploader.has_headers(r),
    ensures
        match headers_error(header_views(uploader.tracing_config.http_headers@)) {
            Some(e) => r == Err::<HeaderMap<HeaderValue>, RequestError>(e),
            None => r is Ok,
        },
{
    lemma_kinds_of_errors(header_views(uploader.tracing_config.http_headers@));
}

/// What is wrong with a header is its name or what it says.
proof fn lemma_kinds_of_errors(headers: Seq<(Seq<char>, Seq<char>)>)
    ensures
        headers_error(headers) != Some(RequestError::TooManyHeaders),
    decreases headers.len(),
{
    if headers.len() > 0 {
        lemma_kinds_of_errors(headers.drop_last());
    }
}

/// At most one span of a chunk is marked: the first whose parent is not in the chunk. The others
/// stay as they are.
pub proof fn only_the_head_is_marked(chunk: ChunkView, i: int)
    requires
        0 <= i < chunk.spans.len(),
    ensures
        marked_chunk(chunk).spans.len() == chunk.spans.len(),
        i != top_level(chunk.spans) ==> marked_chunk(chunk).spans[i] == chunk.spans[i],
        i == top_level(chunk.spans) ==> {
            let metrics = marked_chunk(chunk).spans[i].metrics;
            &&& !has_span(chunk.spans, chunk.spans[i].parent_id)
            &&& value_of(metrics, "_dd.agent_psr"@) == Some(ONE)
            &&& value_of(metrics, "_sample_rate"@) == Some(ONE)
            &&& value_of(metrics, "_sampling_priority_v1"@) == Some(ONE)
            &&& value_of(metrics, "_top_level"@) == Some(ONE)
        },
{
    lemma_top_level(chunk.spans, 0);
    let m0 = chunk.spans[i].metrics;
    let m1 = with_entry(m0, "_dd.agent_psr"@, ONE);
    let m2 = with_entry(m1, "_sample_rate"@, ONE);
    let m3 = with_entry(m2, "_sampling_priority_v1"@, ONE);
    entry_is_found(m0, "_dd.agent_psr"@, ONE, "_dd.agent_psr"@);
    entry_is_found(m1, "_sample_rate"@, ONE, "_dd.agent_psr"@);
    entry_is_found(m2, "_sampling_priority_v1"@, ONE, "_dd.agent_psr"@);
    entry_is_found(m3, "_top_level"@, ONE, "_dd.agent_psr"@);
    entry_is_found(m2, "_sampling_priority_v1"@, ONE, "_sample_rate"@);
    entry_is_found(m3, "_top_level"@, ONE, "_sample_rate"@);
    entry_is_found(m3, "_top_level"@, ONE, "_sampling_priority_v1"@);
}

proof fn lemma_top_level(spans: Seq<SpanView>, from: int)
    requires
        0 <= from <= spans.len(),
    ensures
        from <= top_level_from(spans, from) <= spans.len(),
        top_level_from(spans, from) < spans.len() ==> !has_span(
            spans,
            spans[top_level_from(spans, from)].parent_id,
        ),
    decreases spans.len() - from,
{
    if from < spans.len() && has_span(spans, spans[from].parent_id) {
        lemma_top_level(spans, from + 1);
    }
}

/// Whether the span at `k` is the first whose parent is not among some spans.
pub open spec fn is_head(spans: Seq<SpanView>, k: int) -> bool {
    &&& 0 <= k < spans.len()
    &&& forall|n: int|
        0 <= n < spans.len() ==> (#[trigger] spans[n]).span_id != spans[k].parent_id
    &&& forall|m: int|
        0 <= m < k ==> exists|n: int|
            0 <= n < spans.len() && (#[trigger] spans[n]).span_id == (
            #[trigger] spans[m]).parent_id
}

/// Every trace that is told to the backend has its first span marked, in every payload and in every
/// chunk: the first whose parent is not in the chunk says that it is at the top and part of the
/// sample, each by the number one. What else it says, and all other spans, are told as they are.
pub proof fn every_head_is_marked(
    uploader: Uploader,
    submission: Submission,
    payloads: Seq<PayloadView>,
    i: int,
    j: int,
    k: int,
)
    requires
        uploader.tells(submission, payloads),
        uploader.tracing_config.protocol == TracingProtocol::BackendProtobufV01,
        0 <= i < payloads.len(),
        0 <= j < payloads[i].chunks.len(),
        0 <= k < payloads[i].chunks[j].spans.len(),
    ensures
        submission.body matches SubmissionBody::Agent(agent) && ({
            let told = agent@.tracer_payloads[i].chunks[j].spans;
            let spans = payloads[i].chunks[j].spans;
            &&& agent@.tracer_payloads.len() == payloads.len()
            &&& agent@.tracer_payloads[i].chunks.len() == payloads[i].chunks.len()
            &&& told.len() == spans.len()
            &&& !is_head(spans, k) ==> told[k] == spans[k]
            &&& is_head(spans, k) ==> {
                &&& value_of(told[k].metrics, "_top_level"@) == Some(0x3ff0_0000_0000_0000u64)
                &&& value_of(told[k].metrics, "_sample_rate"@) == Some(0x3ff0_0000_0000_0000u64)
                &&& value_of(told[k].metrics, "_sampling_priority_v1"@) == Some(
                    0x3ff0_0000_0000_0000u64,
                )
                &&& value_of(told[k].metrics, "_dd.agent_psr"@) == Some(0x3ff0_0000_0000_0000u64)
                &&& told[k] == (SpanView { metrics: told[k].metrics, ..spans[k] })
            }
        }),
{
    let chunk = payloads[i].chunks[j];
    let marked = marked_payload(payloads[i]);
    only_the_head_is_marked(chunk, k);
    lemma_top_level(chunk.spans, 0);
    lemma_head(chunk.spans, 0);
    let top = top_level(chunk.spans);
    if k == top {
        assert(has_span(chunk.spans, chunk.spans[k].parent_id) <==> exists|n: int|
            0 <= n < chunk.spans.len() && (#[trigger] chunk.spans[n]).span_id
                == chunk.spans[k].parent_id);
        assert(is_head(chunk.spans, k));
    }
    if is_head(chunk.spans, k) && k != top {
        if k < top {
            assert(has_span(chunk.spans, chunk.spans[k].parent_id));
            let n = choose|n: int|
                0 <= n < chunk.spans.len() && (#[trigger] chunk.spans[n]).span_id
                    == chunk.spans[k].parent_id;
            assert(chunk.spans[n].span_id != chunk.spans[k].parent_id);
        } else {
            assert(!has_span(chunk.spans, chunk.spans[top].parent_id));
            assert(chunk.spans[top].parent_id == chunk.spans[top].parent_id);
            let n = choose|n: int|
                0 <= n < chunk.spans.len() && (#[trigger] chunk.spans[n]).span_id
                    == chunk.spans[top].parent_id;
            assert(chunk.spans[n].span_id == chunk.spans[top].parent_id);
        }
    }
}

/// Before the first span whose parent is not among the spans, every span has its parent there.
proof fn lemma_head(spans: Seq<SpanView>, from: int)
    requires
        0 <= from <= spans.len(),
    ensures
        forall|m: int|
            from <= m < top_level_from(spans, from) ==> has_span(
                spans,
                (#[trigger] spans[m]).parent_id,
            ),
    decreases spans.len() - from,
{
    if from < spans.len() && has_span(spans, spans[from].parent_id) {
        lemma_head(spans, from + 1);
    }
}

/// Metrics that a first span has already are kept, those aside that mark it.
pub proof fn other_metrics_are_kept(span: SpanView, key: Seq<char>)
    requires
        key != "_dd.agent_psr"@,
        key != "_sample_rate"@,
        key != "_sampling_priority_v1"@,
        key != "_top_level"@,
    ensures
        value_of(marked_span(span).metrics, key) == value_of(span.metrics, key),
{
    let m1 = with_entry(span.metrics, "_dd.agent_psr"@, ONE);
    let m2 = with_entry(m1, "_sample_rate"@, ONE);
    let m3 = with_entry(m2, "_sampling_priority_v1"@, ONE);
    entry_is_found(span.metrics, "_dd.agent_psr"@, ONE, key);
    entry_is_found(m1, "_sample_rate"@, ONE, key);
    entry_is_found(m2, "_sampling_priority_v1"@, ONE, key);
    entry_is_found(m3, "_top_level"@, ONE, key);
}

/// What is told to the backend goes to it by `POST`, and says of the payloads, but for the marks on
/// their first spans, what they say, and which system they come from.
pub proof fn backend_is_told_of_the_system(
    uploader: Uploader,
    submission: Submission,
    payloads: Seq<PayloadView>,
    i: int,
    j: int,
)
    requires
        uploader.tells(submission, payloads),
        uploader.tracing_config.protocol == TracingProtocol::BackendProtobufV01,
        0 <= i < payloads.len(),
        0 <= j < payloads[i].chunks.len(),
    ensures
        submission.method@ == "POST"@,
        submission.url@ == uploader.tracing_config.url@,
        submission.body matches SubmissionBody::Agent(agent) && ({
            let told = agent@.tracer_payloads[i];
            &&& agent@.host_name == uploader.system_info.hostname@
            &&& agent@.env == uploader.system_info.env@
            &&& agent@.agent_version == "libdatadog"@
            &&& agent@.target_tps == 0x404e_0000_0000_0000u64
            &&& agent@.error_tps == 0x404e_0000_0000_0000u64
            &&& agent@.tags == seq![("some_tag"@, "value"@)]
            &&& told == (PayloadView { chunks: told.chunks, ..payloads[i] })
            &&& told.chunks[j] == (ChunkView {
                spans: told.chunks[j].spans,
                ..payloads[i].chunks[j]
            })
        }),
{
}

/// Agents are told of all chunks of all payloads, in order and as they are: with one more payload,
/// its chunks come behind the others, and of no payload there is nothing to tell.
pub proof fn agents_are_told_of_every_chunk(
    uploader: Uploader,
    submission: Submission,
    more: Submission,
    payloads: Seq<PayloadView>,
    payload: PayloadView,
)
    requires
        uploader.tracing_config.protocol == TracingProtocol::AgentV04,
        uploader.tells(submission, payloads),
        uploader.tells(more, payloads.push(payload)),
    ensures
        submission.method@ == "POST"@,
        submission.url@ == uploader.tracing_config.url@,
        submission.body is Traces,
        more.body is Traces,
        chunk_views(more.body->Traces_0@) == chunk_views(submission.body->Traces_0@)
            + payload.chunks,
        payloads.len() == 0 ==> submission.body->Traces_0@.len() == 0,
{
    assert(payloads.push(payload).drop_last() =~= payloads);
    if payloads.len() == 0 {
        assert(chunk_views(submission.body->Traces_0@).len() == 0);
    }
}

/// What a request says under a name is what the headers of that name say, in order and in whatever
/// letters it is written: those that the protocol asks for, and those of the configuration.
pub proof fn request_has_its_headers(
    uploader: Uploader,
    map: HeaderMap<HeaderValue>,
    name: Seq<char>,
)
    requires
        uploader.has_headers(Ok(map)),
    ensures
        ({
            let kind = match uploader.tracing_config.protocol {
                TracingProtocol::BackendProtobufV01 => "application/x-protobuf"@,
                TracingProtocol::AgentV04 => "application/json"@,
            };
            let languages = match uploader.tracing_config.protocol {
                TracingProtocol::BackendProtobufV01 => seq![
                    ("X-Datadog-Reported-Languages"@, "rust,TODO"@),
                ],
                TracingProtocol::AgentV04 => Seq::empty(),
            };
            let configured = Seq::new(
                uploader.tracing_config.http_headers@.len(),
                |i: int|
                    (
                        uploader.tracing_config.http_headers@[i].0@,
                        uploader.tracing_config.http_headers@[i].1@,
                    ),
            );
            let headers = seq![("Content-Type"@, kind)] + languages + configured;
            let said = headers.filter(
                |h: (Seq<char>, Seq<char>)| small_letters(h.0) == name,
            ).map_values(|h: (Seq<char>, Seq<char>)| encode_utf8(h.1));
            &&& header_contents(map).contains_key(name) <==> said.len() > 0
            &&& said.len() > 0 ==> header_contents(map)[name] == said
        }),
{
    let more = header_views(uploader.tracing_config.http_headers@);
    let first = protocol_headers(uploader.tracing_config.protocol);
    lemma_said(first + more, name);
    let configured = Seq::new(
        uploader.tracing_config.http_headers@.len(),
        |i: int|
            (
                uploader.tracing_config.http_headers@[i].0@,
                uploader.tracing_config.http_headers@[i].1@,
            ),
    );
    assert(more =~= configured);
    match uploader.tracing_config.protocol {
        TracingProtocol::BackendProtobufV01 => {
            assert(first =~= seq![("Content-Type"@, "application/x-protobuf"@)] + seq![
                ("X-Datadog-Reported-Languages"@, "rust,TODO"@),
            ]);
        },
        TracingProtocol::AgentV04 => {
            assert(first =~= seq![("Content-Type"@, "application/json"@)] + Seq::empty());
        },
    }
}

/// What some headers say under a name.
proof fn lemma_said(headers: Seq<(Seq<char>, Seq<char>)>, name: Seq<char>)
    ensures
        ({
            let said = headers.filter(
                |h: (Seq<char>, Seq<char>)| small_letters(h.0) == name,
            ).map_values(|h: (Seq<char>, Seq<char>)| encode_utf8(h.1));
            &&& all_headers(headers).contains_key(name) <==> said.len() > 0
            &&& said.len() > 0 ==> all_headers(headers)[name] == said
        }),
    decreases headers.len(),
{
    reveal(Seq::filter);
    let same = |h: (Seq<char>, Seq<char>)| small_letters(h.0) == name;
    let value = |h: (Seq<char>, Seq<char>)| encode_utf8(h.1);
    if headers.len() > 0 {
        let less = headers.drop_last();
        lemma_said(less, name);
        let before = less.filter(same).map_values(value);
        let said = headers.filter(same).map_values(value);
        if same(headers.last()) {
            assert(said =~= before.push(value(headers.last())));
            if before.len() == 0 {
                assert(before =~= Seq::empty());
            }
        } else {
            assert(said =~= before);
        }
    }
}

/// A name in small letters has a small letter in place of each capital one of ASCII, and is else as
/// it was.
pub proof fn letters_become_small(name: Seq<char>, i: int)
    requires
        0 <= i < name.len(),
    ensures
        small_letters(name).len() == name.len(),
        'A' <= name[i] <= 'Z' ==> small_letters(name)[i] as int == name[i] as int + 32,
        !('A' <= name[i] <= 'Z') ==> small_letters(name)[i] == name[i],
{
}

/// The first header of the configuration that cannot be one decides what is wrong: its name, or
/// else what it says. Where all can be headers, nothing is wrong.
pub proof fn first_wrong_header_decides(headers: Seq<(Seq<char>, Seq<char>)>, i: int)
    requires
        0 <= i <= headers.len(),
        forall|j: int|
            0 <= j < i ==> is_header_name((#[trigger] headers[j]).0) && is_header_value(
                headers[j].1,
            ),
    ensures
        i == headers.len() ==> headers_error(headers) is None,
        i < headers.len() && !is_header_name(headers[i].0) ==> headers_error(headers) == Some(
            RequestError::InvalidHeaderName,
        ),
        i < headers.len() && is_header_name(headers[i].0) && !is_header_value(headers[i].1)
            ==> headers_error(headers) == Some(RequestError::InvalidHeaderValue),
    decreases headers.len(),
{
    if headers.len() > 0 {
        let less = headers.drop_last();
        assert(headers.last() == headers[headers.len() - 1]);
        assert forall|j: int| 0 <= j < i && j < less.len() implies is_header_name(
            (#[trigger] less[j]).0,
        ) && is_header_value(less[j].1) by {
            assert(less[j] == headers[j]);
        }
        if i < headers.len() {
            first_wrong_header_decides(less, i);
        } else {
            first_wrong_header_decides(less, i - 1);
        }
    }
}

/// What comes of telling the backend: a place that is none is refused first, then what came of the
/// headers decides, and what is sent has them.
pub proof fn refusals_come_in_order(
    uploader: Uploader,
    r: Result<Submission, RequestError>,
    url_taken: bool,
    payloads: Seq<PayloadView>,
)
    requires
        uploader.is_submission(r, url_taken, payloads),
    ensures
        !url_taken ==> r == Err::<Submission, RequestError>(RequestError::InvalidUri),
        url_taken && r is Err ==> uploader.has_headers(Err(r->Err_0)) && r->Err_0
            != RequestError::InvalidUri,
        url_taken && r is Ok ==> uploader.has_headers(Ok(r->Ok_0.headers)) && uploader.tells(
            r->Ok_0,
            payloads,
        ),
        url_taken && r is Ok ==> headers_error(
            header_views(uploader.tracing_config.http_headers@),
        ) is None,
        url_taken && r is Err && r->Err_0 != RequestError::TooManyHeaders ==> headers_error(
            header_views(uploader.tracing_config.http_headers@),
        ) == Some(r->Err_0),
{
    lemma_no_uri_error(header_views(uploader.tracing_config.http_headers@));
}

proof fn lemma_no_uri_error(headers: Seq<(Seq<char>, Seq<char>)>)
    ensures
        headers_error(headers) != Some(RequestError::InvalidUri),
    decreases headers.len(),
{
    if headers.len() > 0 {
        lemma_no_uri_error(headers.drop_last());
    }
}

} // verus!
