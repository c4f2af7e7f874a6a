use sidecar::c_string::{CStr, CString};
use sidecar::exec_vec::ExecVec;
use sidecar::handle_table::HandleTable;
use sidecar::id::Id;
use sidecar::matcher::EnvError;
use sidecar::text::{contains_char, file_name, i32_to_string, parse_u64, trim, u64_to_string};
use sidecar::trace_context::TraceContext;
use sidecar::trace_events::{MetaKey, MetaValue};
use sidecar::typed::handle::PlatformHandle;
use std::collections::hash_map::DefaultHasher;
use std::hash::{Hash, Hasher};

fn c(s: &str) -> CStr<'_> {
    CStr::from_bytes(s.as_bytes()).unwrap()
}

fn environment(entries: &[&str]) -> ExecVec<10> {
    let mut vec = ExecVec::<10>::empty();
    for s in entries {
        vec.push_cstr(c(s));
    }
    vec
}

fn texts(vec: &mut ExecVec<10>) -> Vec<String> {
    vec.as_clist().to_owned_vec().iter().map(|s: &CString| s.to_string_lossy()).collect()
}

#[test]
fn numbers_are_written_and_read() {
    for n in [0, 7, 10, 1234567890, u64::MAX] {
        assert_eq!(u64_to_string(n), n.to_string());
        assert_eq!(parse_u64(&n.to_string()), Some(n));
    }
    for n in [0, -1, 42, i32::MIN, i32::MAX] {
        assert_eq!(i32_to_string(n), n.to_string());
    }
    for s in ["", "+", "-1", "12a", " 1", "18446744073709551616", "+5", "007"] {
        assert_eq!(parse_u64(s), s.parse::<u64>().ok());
    }
}

#[test]
fn white_space_is_trimmed() {
    for s in ["", "  ", " a b ", "\u{a0}x\u{3000}", "\tq\n", "z"] {
        assert_eq!(trim(s), s.trim());
    }
    assert!(contains_char("a b", ' '));
    assert!(!contains_char("ab", ' '));
}

#[test]
fn file_names_are_found() {
    for s in ["/usr/bin/java", "java", "/", "", "a/..", "a/.", "/a/b/", "..", ".", "./x", "a//"] {
        let expected = std::path::Path::new(s).file_name().map(|n| n.to_str().unwrap().to_string());
        assert_eq!(file_name(s), expected);
    }
}

#[test]
fn identifiers_are_numbers_where_they_can() {
    assert_eq!(Id::from_text("12"), Id::Numeric(12));
    assert_eq!(Id::from_text("12x"), Id::String("12x".to_string()));
    assert_eq!(Id::from_c_str(c(" 77\n")), Id::Numeric(77));
    assert_eq!(Id::from_c_str(c(" ab ")), Id::String("ab".to_string()));
    assert_eq!(Id::Numeric(5).to_string(), "5");
    assert_eq!(Id::String("q".to_string()).to_string(), "q");
    assert!(!Id::Numeric(5).same(&Id::String("5".to_string())));
    assert!(Id::Numeric(5).same(&Id::Numeric(5).clone()));
}

#[test]
fn text_identifiers_are_hashed() {
    let mut hasher = DefaultHasher::new();
    "abc".to_string().hash(&mut hasher);
    assert_eq!(Id::String("abc".to_string()).to_u64(), hasher.finish());
    assert_ne!(
        Id::String("abc".to_string()).to_u64(),
        Id::String("abd".to_string()).to_u64()
    );
    assert_eq!(Id::Numeric(9).to_u64(), 9);
}

#[test]
fn new_identifiers_differ() {
    assert_ne!(Id::default(), Id::default());
    let context = TraceContext::default();
    assert!(context.parent_span_id.is_none());
    assert_ne!(context.trace_id, context.span_id);
}

#[test]
fn children_keep_the_trace() {
    let parent = TraceContext {
        trace_id: Id::Numeric(1),
        span_id: Id::String("s".to_string()),
        parent_span_id: None,
    };
    let child = parent.to_child();
    assert_eq!(child.trace_id, Id::Numeric(1));
    assert_eq!(child.parent_span_id, Some(Id::String("s".to_string())));
    assert_ne!(child.span_id, parent.span_id);
    let copy = child.clone();
    assert_eq!(copy.span_id, child.span_id);
    let given = parent.child_with(Id::Numeric(8));
    assert_eq!(given.span_id, Id::Numeric(8));
}

#[test]
fn contexts_travel_through_the_environment() {
    let context = TraceContext {
        trace_id: Id::Numeric(11),
        span_id: Id::String("span".to_string()),
        parent_span_id: Some(Id::Numeric(13)),
    };
    let mut env = environment(&["PATH=/bin", "DD_EXEC_T_TRACE_ID=1"]);
    context.store_in_c_env(&mut env).unwrap();
    assert_eq!(
        texts(&mut env),
        vec![
            "PATH=/bin",
            "DD_EXEC_T_TRACE_ID=1",
            "DD_EXEC_T_TRACE_ID=11",
            "DD_EXEC_T_SPAN_ID=span",
            "DD_EXEC_T_PARENT_SPAN_ID=13",
        ]
    );
    let read = TraceContext::extract_from_c_env(&mut env.as_clist()).unwrap();
    assert_eq!(read.trace_id, context.trace_id);
    assert_eq!(read.span_id, context.span_id);
    assert_eq!(read.parent_span_id, context.parent_span_id);
    assert_eq!(texts(&mut env), vec!["PATH=/bin", "DD_EXEC_T_TRACE_ID=1"]);
}

#[test]
fn half_a_context_is_none() {
    let mut env = environment(&["A=1"]);
    assert!(TraceContext::extract_from_c_env(&mut env.as_clist()).is_none());
    let mut env = environment(&["DD_EXEC_T_TRACE_ID=1", "A=1"]);
    assert!(TraceContext::extract_from_c_env(&mut env.as_clist()).is_none());
    assert_eq!(texts(&mut env), vec!["A=1"]);
    let mut env = environment(&["DD_EXEC_T_TRACE_ID=1", "DD_EXEC_T_SPAN_ID=2"]);
    let read = TraceContext::extract_from_c_env(&mut env.as_clist()).unwrap();
    assert!(read.parent_span_id.is_none());
}

#[test]
fn contexts_with_a_zero_are_refused() {
    let context = TraceContext {
        trace_id: Id::String("a\0".to_string()),
        span_id: Id::Numeric(1),
        parent_span_id: None,
    };
    let mut env = environment(&["A=1"]);
    match context.store_in_c_env(&mut env) {
        Err(EnvError::InteriorNul(e)) => assert_eq!(e.position, "DD_EXEC_T_TRACE_ID=a".len()),
        _ => panic!("a zero was taken"),
    }
    assert_eq!(texts(&mut env), vec!["A=1"]);
    let context = TraceContext {
        trace_id: Id::Numeric(1),
        span_id: Id::Numeric(2),
        parent_span_id: Some(Id::String("\0".to_string())),
    };
    context.store_in_c_env(&mut env).unwrap();
    assert_eq!(texts(&mut env), vec!["A=1", "DD_EXEC_T_TRACE_ID=1", "DD_EXEC_T_SPAN_ID=2"]);
}

#[test]
fn a_span_begins_with_its_command() {
    let context = TraceContext {
        trace_id: Id::Numeric(1),
        span_id: Id::Numeric(2),
        parent_span_id: Some(Id::Numeric(3)),
    };
    let mut table = HandleTable::new();
    let socket = PlatformHandle::own(7, &mut table);
    let mut cmd = environment(&["/usr/bin/echo", "hello world", "-n"]);
    let start = context.span_start(
        &cmd.as_clist(),
        1000,
        42,
        Some("/home".to_string()),
        Some(socket),
    );
    assert_eq!(start.id, Id::Numeric(2));
    assert_eq!(start.trace_id, Id::Numeric(1));
    assert_eq!(start.parent_id, Some(Id::Numeric(3)));
    assert_eq!(start.name, "echo");
    assert_eq!(start.resource, "echo \"hello world\" -n");
    assert_eq!(start.service, "executable");
    assert_eq!(start.time, 1000);
    assert_eq!(start.span_end_socket.as_ref().unwrap().as_raw_fd(&table), 7);
    assert_eq!(start.meta.len(), 3);
    assert_eq!(
        start.meta.get(&MetaKey::ExecutablePath),
        Some(&MetaValue::String("/usr/bin/echo".to_string()))
    );
    assert_eq!(start.meta.get(&MetaKey::CmdOriginPid), Some(&MetaValue::Pid(42)));
    assert_eq!(
        start.meta.get(&MetaKey::CmdCurrentWorkingDirectory),
        Some(&MetaValue::String("/home".to_string()))
    );
}

#[test]
fn a_command_without_a_name_is_unknown() {
    let context = TraceContext::default();
    let mut cmd = environment(&["..", "x"]);
    let start = context.span_start(&cmd.as_clist(), 0, 1, None, None);
    assert_eq!(start.name, "unknown");
    assert_eq!(start.resource, ".. x");
    let mut cmd = environment(&[]);
    let start = context.span_start(&cmd.as_clist(), 0, 1, None, None);
    assert_eq!(start.name, "unknown");
    assert_eq!(start.resource, "");
    assert_eq!(start.meta.len(), 1);
}
