use sidecar::agent::{
    route, stderr_path, stdout_path, AcceptAction, AcceptEvent, AgentKind, MainLoop, Route,
    StartStep, StepEvent,
};
use sidecar::assoc::AssocMap;
use sidecar::collector::{EventCollector, SystemInfo};
use sidecar::handle_table::HandleTable;
use sidecar::id::Id;
use sidecar::pb::{Span, TraceChunk, TracerPayload, ONE, SIXTY};
use sidecar::trace_events::{
    Event, EventConsume, MetaKey, MetaValue, ReportError, SpanFinished, SpanStart,
};
use sidecar::typed::handle::PlatformHandle;
use sidecar::uploader::{
    PendingPayloads, RequestError, SubmissionBody, TracingConfig, TracingProtocol, Uploader,
    SURE_NAMES,
};

fn system() -> SystemInfo {
    SystemInfo { env: "prod".to_string(), hostname: "host".to_string() }
}

fn start(trace: u64, id: u64, parent: Option<u64>) -> SpanStart {
    SpanStart {
        id: Id::Numeric(id),
        name: "name".to_string(),
        trace_id: Id::Numeric(trace),
        parent_id: parent.map(Id::Numeric),
        resource: "resource".to_string(),
        service: "service".to_string(),
        time: 1000 + id,
        span_end_socket: None,
        meta: AssocMap::new(),
    }
}

fn finished(trace: u64, id: u64, parent: Option<u64>, duration: u64) -> SpanFinished {
    SpanFinished {
        id: Id::Numeric(id),
        trace_id: Id::Numeric(trace),
        parent_span_id: parent.map(Id::Numeric),
        duration,
        time: 0,
    }
}

fn tell(collector: &mut EventCollector, event: Event, now: u64, table: &mut HandleTable) {
    collector.on_event(event, now, now, table);
}

fn begin(collector: &mut EventCollector, start: SpanStart, table: &mut HandleTable) {
    tell(collector, Event::StartSpan(Box::new(start)), 10, table);
}

#[test]
fn keys_and_values_are_texts() {
    assert_eq!(MetaKey::String("k".to_string()).to_string(), "k");
    assert_eq!(MetaKey::CmdCurrentWorkingDirectory.to_string(), "current_working_directory");
    assert_eq!(MetaKey::CmdOriginPid.to_string(), "pid");
    assert_eq!(MetaKey::ExecutablePath.to_string(), "executable_path");
    assert_eq!(MetaValue::from("v".to_string()).to_string(), "v");
    assert_eq!(MetaValue::Pid(-3).to_string(), "-3");
}

#[test]
fn maps_keep_their_entries_apart() {
    let mut map: AssocMap<String, u8> = AssocMap::new();
    assert_eq!(map.insert("a".to_string(), 1), None);
    assert_eq!(map.insert("b".to_string(), 2), None);
    assert_eq!(map.insert("a".to_string(), 3), Some(1));
    assert_eq!(map.len(), 2);
    assert_eq!(map.get(&"a".to_string()), Some(&3));
    assert_eq!((map.key_at(1).as_str(), *map.value_at(1)), ("b", 2));
    if let Some(value) = map.get_mut(&"b".to_string()) {
        *value = 9;
    }
    assert!(map.get_mut(&"c".to_string()).is_none());
    assert_eq!(map.remove(&"a".to_string()), Some(3));
    assert_eq!(map.remove(&"a".to_string()), None);
    assert!(!map.contains_key(&"a".to_string()));
    assert_eq!(map.into_entries(), vec![("b".to_string(), 9)]);
}

#[test]
fn a_span_is_made_of_its_beginning() {
    let mut table = HandleTable::new();
    let mut begun = start(1, 2, Some(3));
    begun.span_end_socket = Some(PlatformHandle::own(44, &mut table));
    begun.meta.insert(MetaKey::CmdOriginPid, MetaValue::Pid(5));
    begun.meta.insert(MetaKey::String("pid".to_string()), MetaValue::Pid(6));
    let mut span = Span::from(begun, &mut table);
    assert_eq!((span.trace_id, span.span_id, span.parent_id), (1, 2, 3));
    assert_eq!((span.start, span.duration, span.error), (1002, 0, 0));
    assert_eq!(span.span_type, "type_todo");
    assert_eq!(span.meta.len(), 1);
    assert_eq!(span.meta.get(&"pid".to_string()), Some(&"6".to_string()));
    assert_eq!(span.metrics.len(), 0);
    assert_eq!(span.meta_struct.len(), 0);
    assert_eq!(table.take_closed(), vec![44]);
    finished(1, 2, None, 77).apply_into(&mut span);
    assert_eq!(span.duration, 77);
    assert_eq!(Span::from(start(1, 2, None), &mut table).parent_id, 0);
}

#[test]
fn a_trace_is_reported_after_its_end() {
    let mut table = HandleTable::new();
    let mut collector = EventCollector::init(system());
    begin(&mut collector, start(1, 10, None), &mut table);
    begin(&mut collector, start(1, 11, Some(10)), &mut table);
    begin(&mut collector, start(2, 20, None), &mut table);
    tell(&mut collector, Event::SpanFinished(finished(1, 11, Some(10), 5)), 20, &mut table);
    assert_eq!(collector.on_cull_interval(100, &mut table).len(), 0);
    tell(&mut collector, Event::SpanFinished(finished(1, 10, None, 9)), 100, &mut table);
    assert_eq!(collector.on_cull_interval(101, &mut table).len(), 0);
    let payloads = collector.on_cull_interval(102, &mut table);
    assert_eq!(payloads.len(), 1);
    let payload = &payloads[0];
    assert_eq!((payload.env.as_str(), payload.hostname.as_str()), ("prod", "host"));
    assert_eq!(payload.language_name, "shell");
    assert_eq!(payload.language_version, "1.1");
    assert_eq!(payload.tracer_version, "todo");
    assert_eq!(payload.app_version, "6.6.6");
    assert_eq!(payload.container_id, "");
    assert_eq!(payload.tags.len(), 0);
    assert_eq!(payload.runtime_id.len(), 36);
    assert_eq!(payload.runtime_id.chars().nth(14), Some('4'));
    assert_eq!(payload.chunks.len(), 1);
    let chunk = &payload.chunks[0];
    assert_eq!((chunk.priority, chunk.origin.as_str()), (-1, "web_todo"));
    assert!(!chunk.dropped_trace);
    let mut spans: Vec<(u64, i64)> = chunk.spans.iter().map(|s| (s.span_id, s.duration)).collect();
    spans.sort();
    assert_eq!(spans, vec![(10, 9), (11, 5)]);
    // what was reported is gone
    assert_eq!(collector.on_cull_interval(200, &mut table).len(), 0);
}

#[test]
fn runtimes_differ() {
    let mut table = HandleTable::new();
    let mut ids: Vec<String> = vec![];
    for _ in 0..2 {
        let mut collector = EventCollector::init(system());
        begin(&mut collector, start(1, 10, None), &mut table);
        tell(&mut collector, Event::SpanFinished(finished(1, 10, None, 9)), 0, &mut table);
        ids.push(collector.on_cull_interval(2, &mut table)[0].runtime_id.clone());
    }
    assert_ne!(ids[0], ids[1]);
}

#[test]
fn the_last_end_of_a_span_counts() {
    let mut table = HandleTable::new();
    let mut collector = EventCollector::init(system());
    begin(&mut collector, start(1, 10, None), &mut table);
    for duration in [1, 2, u64::MAX] {
        let end = Event::SpanFinished(finished(1, 10, None, duration));
        tell(&mut collector, end, 0, &mut table);
    }
    tell(&mut collector, Event::SpanFinished(finished(1, 99, None, 4)), 0, &mut table);
    let payloads = collector.on_cull_interval(2, &mut table);
    assert_eq!(payloads[0].chunks.len(), 1);
    assert_eq!(payloads[0].chunks[0].spans.len(), 1);
    assert_eq!(payloads[0].chunks[0].spans[0].duration, -1);
}

#[test]
fn a_span_whose_parent_is_unknown_ends_its_trace() {
    let mut table = HandleTable::new();
    let mut collector = EventCollector::init(system());
    begin(&mut collector, start(1, 10, Some(5)), &mut table);
    tell(&mut collector, Event::SpanFinished(finished(1, 10, Some(5), 3)), 0, &mut table);
    assert_eq!(collector.on_cull_interval(2, &mut table).len(), 1);
    // nothing is known of this trace
    tell(&mut collector, Event::SpanFinished(finished(2, 10, Some(5), 3)), 0, &mut table);
    assert_eq!(collector.on_cull_interval(2, &mut table).len(), 0);
}

#[test]
fn events_may_come_before_the_beginning() {
    let mut table = HandleTable::new();
    let mut collector = EventCollector::init(system());
    tell(&mut collector, Event::SpanFinished(finished(1, 10, None, 3)), 0, &mut table);
    begin(&mut collector, start(1, 10, None), &mut table);
    let payloads = collector.on_cull_interval(2, &mut table);
    assert_eq!(payloads[0].chunks[0].spans[0].duration, 3);
}

#[test]
fn a_beginning_that_is_told_again_replaces_the_first() {
    let mut table = HandleTable::new();
    let mut collector = EventCollector::init(system());
    let mut first = start(1, 10, None);
    first.span_end_socket = Some(PlatformHandle::own(44, &mut table));
    begin(&mut collector, first, &mut table);
    let mut second = start(1, 10, None);
    second.name = "again".to_string();
    begin(&mut collector, second, &mut table);
    assert_eq!(table.take_closed(), vec![44]);
    let chunk = collector.reassemble_trace_chunk(&Id::Numeric(1), &mut table).unwrap();
    assert_eq!(chunk.spans.len(), 1);
    assert_eq!(chunk.spans[0].name, "again");
    assert!(collector.reassemble_trace_chunk(&Id::Numeric(1), &mut table).is_none());
}

#[test]
fn errors_are_kept() {
    let mut table = HandleTable::new();
    let mut collector = EventCollector::init(system());
    let error = ReportError { trace_id: Id::Numeric(1), span_id: Id::Numeric(2) };
    let event = Event::ReportError(error);
    assert_eq!(event.trace_id(), &Id::Numeric(1));
    tell(&mut collector, event, 0, &mut table);
    assert_eq!(collector.on_cull_interval(9, &mut table).len(), 0);
}

fn span(id: u64, parent: u64) -> Span {
    let mut table = HandleTable::new();
    Span::from(start(1, id, Some(parent)), &mut table)
}

fn chunk(spans: Vec<Span>) -> TraceChunk {
    TraceChunk {
        priority: -1,
        origin: "o".to_string(),
        spans,
        tags: AssocMap::new(),
        dropped_trace: false,
    }
}

fn payload(chunks: Vec<TraceChunk>) -> TracerPayload {
    EventCollector::init(system()).payload_of(chunks, "id".to_string())
}

fn uploader(protocol: TracingProtocol, url: &str, headers: &[(&str, &str)]) -> Uploader {
    let http_headers = headers.iter().map(|(k, v)| (k.to_string(), v.to_string())).collect();
    Uploader::init(TracingConfig { protocol, url: url.to_string(), http_headers }, system())
}

#[test]
fn the_head_of_a_trace_is_found() {
    assert_eq!(Uploader::find_top_level(&chunk(vec![span(1, 2), span(2, 0)])), Some(1));
    assert_eq!(Uploader::find_top_level(&chunk(vec![span(1, 2), span(2, 1)])), None);
    assert_eq!(Uploader::find_top_level(&chunk(vec![])), None);
    assert_eq!(Uploader::find_top_level(&chunk(vec![span(1, 7), span(2, 8)])), Some(0));
}

#[test]
fn heads_are_marked_for_the_backend() {
    let up = uploader(
        TracingProtocol::BackendProtobufV01,
        "http://localhost:8126/x",
        &[("DD-API-KEY", "abc")],
    );
    let spans = vec![span(1, 2), span(2, 0)];
    let submission = up.submit(vec![payload(vec![chunk(spans)])]).unwrap();
    assert_eq!(submission.method, "POST");
    assert_eq!(submission.url, "http://localhost:8126/x");
    assert_eq!(submission.headers.len(), 3);
    assert_eq!(submission.headers["Content-Type"], "application/x-protobuf");
    assert_eq!(submission.headers["X-Datadog-Reported-Languages"], "rust,TODO");
    assert_eq!(submission.headers["DD-API-KEY"], "abc");
    match submission.body {
        SubmissionBody::Agent(agent) => {
            assert_eq!((agent.host_name.as_str(), agent.env.as_str()), ("host", "prod"));
            assert_eq!(agent.agent_version, "libdatadog");
            assert_eq!(f64::from_bits(agent.target_tps), 60.0);
            assert_eq!(f64::from_bits(agent.error_tps), 60.0);
            assert_eq!(agent.tags.get(&"some_tag".to_string()), Some(&"value".to_string()));
            let spans = &agent.tracer_payloads[0].chunks[0].spans;
            assert_eq!(spans[0].metrics.len(), 0);
            for key in ["_dd.agent_psr", "_sample_rate", "_sampling_priority_v1", "_top_level"] {
                let bits = spans[1].metrics.get(&key.to_string()).unwrap();
                assert_eq!(f64::from_bits(*bits), 1.0);
            }
            assert_eq!(spans[1].metrics.len(), 4);
        }
        SubmissionBody::Traces(_) => panic!("another protocol"),
    }
}

#[test]
fn agents_get_the_traces() {
    let up = uploader(TracingProtocol::AgentV04, "http://localhost/v0.4/traces", &[]);
    let first = payload(vec![chunk(vec![span(1, 0)]), chunk(vec![span(2, 0)])]);
    let second = payload(vec![chunk(vec![span(3, 0)])]);
    let submission = up.submit(vec![first, second]).unwrap();
    assert_eq!(submission.headers["Content-Type"], "application/json");
    match submission.body {
        SubmissionBody::Traces(traces) => {
            let ids: Vec<u64> = traces.iter().map(|t| t.spans[0].span_id).collect();
            assert_eq!(ids, vec![1, 2, 3]);
            assert_eq!(traces[0].spans[0].metrics.len(), 0);
        }
        SubmissionBody::Agent(_) => panic!("another protocol"),
    }
}

#[test]
fn requests_that_cannot_be_made_are_refused() {
    let protocol = TracingProtocol::AgentV04;
    let refused = |url: &str, headers: &[(&str, &str)]| {
        uploader(protocol, url, headers).submit(vec![]).err()
    };
    let url = "http://localhost/";
    assert_eq!(refused("not a uri", &[]), Some(RequestError::InvalidUri));
    assert_eq!(refused("", &[("a b", "x")]), Some(RequestError::InvalidUri));
    assert_eq!(refused(url, &[("a b", "x")]), Some(RequestError::InvalidHeaderName));
    assert_eq!(refused(url, &[("", "x")]), Some(RequestError::InvalidHeaderName));
    assert_eq!(refused(url, &[("a", "x\n")]), Some(RequestError::InvalidHeaderValue));
    assert_eq!(
        refused(url, &[("a", "\u{7f}"), ("a b", "x")]),
        Some(RequestError::InvalidHeaderValue)
    );
    assert_eq!(refused(url, &[("a!#\"", "x\t\u{e9}")]), None);
    assert_eq!(refused(url, &[("\u{e9}", "x")]), Some(RequestError::InvalidHeaderName));
    assert_eq!(refused(url, &[("(", "x")]), Some(RequestError::InvalidHeaderName));
    let long = "a".repeat(65536);
    assert_eq!(refused(url, &[(&long[..], "x")]), Some(RequestError::InvalidHeaderName));
    assert_eq!(refused(url, &[(&long[1..], "x")]), None);
    let up = uploader(protocol, url, &[]);
    let headers = up.request_headers();
    assert_eq!(up.submit_to(false, headers, vec![]).err(), Some(RequestError::InvalidUri));
    let error = RequestError::TooManyHeaders;
    assert_eq!(up.submit_to(true, Err(error), vec![]).err(), Some(error));
    assert_eq!(up.submit_to(false, Err(error), vec![]).err(), Some(RequestError::InvalidUri));
    assert!(up.submit_to(true, up.request_headers(), vec![]).is_ok());
}

#[test]
fn what_is_said_under_one_name_stays_in_order() {
    let headers = [("Tag", "b"), ("tag", "a"), ("other", "c"), ("content-type", "d")];
    let up = uploader(TracingProtocol::AgentV04, "http://localhost/", &headers);
    let map = up.request_headers().unwrap();
    let said = |name: &str| -> Vec<String> {
        map.get_all(name).iter().map(|v| v.to_str().unwrap().to_string()).collect()
    };
    assert_eq!(said("TAG"), vec!["b", "a"]);
    assert_eq!(said("other"), vec!["c"]);
    assert_eq!(said("Content-Type"), vec!["application/json", "d"]);
    assert_eq!(map.keys_len(), 3);
}

#[test]
fn there_is_room_for_many_headers() {
    // whoever builds the request in one go is refused for the same headers
    for n in [SURE_NAMES - 1, 24_575, 24_576, 40_000] {
        let names: Vec<String> = (0..n).map(|i| format!("name-{}", i)).collect();
        let headers: Vec<(&str, &str)> = names.iter().map(|k| (k.as_str(), "x")).collect();
        let up = uploader(TracingProtocol::AgentV04, "http://localhost/", &headers);
        let mut builder =
            hyper::Request::builder().method("POST").header("Content-Type", "application/json");
        builder = builder.uri("http://localhost/");
        for (key, value) in &headers {
            builder = builder.header(*key, *value);
        }
        let built = builder.body(()).is_ok();
        assert_eq!(built, n < 24_576);
        match up.submit(vec![]) {
            Ok(submission) => {
                assert!(built);
                assert_eq!(submission.headers.len(), n + 1);
            }
            Err(e) => {
                assert!(!built);
                assert_eq!(e, RequestError::TooManyHeaders);
            }
        }
    }
}

#[test]
fn broken_metrics_are_passed_on() {
    let up = uploader(TracingProtocol::BackendProtobufV01, "http://localhost/", &[]);
    let mut first = span(1, 0);
    first.metrics.insert("rate".to_string(), 0.5f64.to_bits());
    let submission = up.submit(vec![payload(vec![chunk(vec![first])])]).unwrap();
    match submission.body {
        SubmissionBody::Agent(agent) => {
            let metrics = &agent.tracer_payloads[0].chunks[0].spans[0].metrics;
            assert_eq!(f64::from_bits(*metrics.get(&"rate".to_string()).unwrap()), 0.5);
            assert_eq!(metrics.len(), 5);
        }
        SubmissionBody::Traces(_) => panic!("another protocol"),
    }
    assert_eq!((f64::from_bits(ONE), f64::from_bits(SIXTY)), (1.0, 60.0));
}

#[test]
fn every_character_is_judged_like_a_header_is() {
    for n in 0..=255u8 {
        let c = n as char;
        let name = c.to_string();
        let up = uploader(TracingProtocol::AgentV04, "http://localhost/", &[(&name[..], "x")]);
        let taken = hyper::header::HeaderName::from_bytes(name.as_bytes()).is_ok();
        assert_eq!(up.submit(vec![]).is_ok(), taken);
        let up = uploader(TracingProtocol::AgentV04, "http://localhost/", &[("x", &name[..])]);
        let taken = hyper::header::HeaderValue::from_bytes(name.as_bytes()).is_ok();
        assert_eq!(up.submit(vec![]).is_ok(), taken);
    }
}

#[test]
fn payloads_wait_for_the_next_tick() {
    let mut pending = PendingPayloads::new();
    assert!(pending.on_tick().is_none());
    for runtime in ["a", "b"] {
        let payload = EventCollector::init(system()).payload_of(vec![], runtime.to_string());
        pending.on_payload(Box::new(payload));
    }
    let sent = pending.on_tick().unwrap();
    let runtimes: Vec<&str> = sent.iter().map(|p| p.runtime_id.as_str()).collect();
    assert_eq!(runtimes, vec!["a", "b"]);
    assert!(pending.on_tick().is_none());
}

#[test]
fn the_sidecar_stops_when_nobody_is_there() {
    let mut agent = MainLoop::new();
    agent.on_tick();
    assert!(!agent.cancelled);
    assert_eq!(agent.on_accept(AcceptEvent::Accepted), AcceptAction::Serve);
    agent.on_tick();
    agent.on_served();
    agent.on_tick();
    assert!(!agent.cancelled);
    agent.on_tick();
    assert!(agent.cancelled);
    assert_eq!(agent.on_accept(AcceptEvent::Cancelled), AcceptAction::Stop);
    assert_eq!(agent.on_accept(AcceptEvent::Failed), AcceptAction::Fail);
}

#[test]
fn the_sidecar_is_started_by_the_first() {
    let kind = AgentKind::Sidecar;
    let mut steps = vec![kind.maybe_start()];
    while *steps.last().unwrap() != StartStep::Done {
        let next = kind.after(*steps.last().unwrap(), StepEvent::Succeeded);
        steps.push(next);
    }
    assert_eq!(
        steps,
        vec![
            StartStep::OpenStdout,
            StartStep::OpenStderr,
            StartStep::AttemptListen,
            StartStep::Spawn,
            StartStep::Connect,
            StartStep::KeepOpen,
            StartStep::SetNonblocking,
            StartStep::Done,
        ]
    );
    assert_eq!(kind.after(StartStep::AttemptListen, StepEvent::NotListening), StartStep::Connect);
    assert_eq!(kind.after(StartStep::Spawn, StepEvent::Failed), StartStep::Failed);
    assert_eq!(kind.process_name(), "datadog-ipc-sidecar");
    assert_eq!(stdout_path(), "/tmp/sidecar.stdout.log");
    assert_eq!(stderr_path(), "/tmp/sidecar.stderr.log");
    let mini = AgentKind::MiniAgent;
    assert_eq!(mini.maybe_start(), StartStep::AttemptListen);
    assert_eq!(mini.after(StartStep::KeepOpen, StepEvent::Succeeded), StartStep::Done);
    assert_eq!(mini.process_name(), "datadog-mini-agent-sidecar");
}

#[test]
fn traces_are_posted_or_put() {
    assert_eq!(route("POST", "/v0.4/traces"), Route::Traces);
    assert_eq!(route("PUT", "/v0.4/traces"), Route::Traces);
    assert_eq!(route("GET", "/v0.4/traces"), Route::NotFound);
    assert_eq!(route("POST", "/v0.4/traces/"), Route::NotFound);
}

#[test]
fn a_trace_with_an_error_cannot_be_reported() {
    let mut table = HandleTable::new();
    let mut collector = EventCollector::init(system());
    begin(&mut collector, start(1, 2, None), &mut table);
    let error = ReportError { trace_id: Id::Numeric(1), span_id: Id::Numeric(2) };
    tell(&mut collector, Event::ReportError(error), 10, &mut table);
    assert!(collector.reportable_at(100));
    tell(&mut collector, Event::SpanFinished(finished(1, 2, None, 5)), 10, &mut table);
    // the time of the trace comes two seconds after its end
    assert!(collector.reportable_at(11));
    assert!(!collector.reportable_at(12));
}

#[test]
fn a_trace_is_taken_once() {
    let mut table = HandleTable::new();
    let mut collector = EventCollector::init(system());
    begin(&mut collector, start(1, 2, None), &mut table);
    let id = Id::Numeric(1);
    assert!(collector.reassemble_trace_chunk(&id, &mut table).is_some());
    assert!(collector.reassemble_trace_chunk(&id, &mut table).is_none());
}
