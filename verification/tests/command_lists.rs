use sidecar::c_string::{CStr, CStrExt, CString, NulError};
use sidecar::clist::CListMutPtr;
use sidecar::dl_path::{get_dl_path_raw, DlInfo};
use sidecar::exec_vec::ExecVec;
use sidecar::java::{check_java_rewrite, rewrite_cmd_args};
use sidecar::matcher::{EndsWith, EntryByteMatcher, EnvError, EnvKey, Exact, StartsWith};

fn c(s: &str) -> CStr<'_> {
    CStr::from_bytes(s.as_bytes()).unwrap()
}

fn owned(s: &str) -> CString {
    CString::new(s.as_bytes().to_vec()).unwrap()
}

fn texts(strings: Vec<CString>) -> Vec<String> {
    strings.iter().map(|s| s.to_string_lossy()).collect()
}

fn list(strings: &[&str]) -> ExecVec<10> {
    let mut vec = ExecVec::<10>::empty();
    for s in strings {
        vec.push_cstr(c(s));
    }
    vec
}

#[test]
fn test_clist_element_fetch_and_removal() {
    let mut vec = ExecVec::<10>::empty();
    vec.push_cstr(c("hello"));
    vec.push_cstr(c("ehlo="));
    vec.push_cstr(c("1"));
    vec.push_cstr(c("2"));
    assert_eq!(4, vec.len());

    let mut clist: CListMutPtr = vec.as_clist();
    // fetch entry from CList
    assert_eq!(b"ehlo=", clist.get_entry(EnvKey::from("ehlo")).unwrap().to_bytes());
    // remove entry from CList
    assert_eq!(b"ehlo=", clist.remove_entry(EnvKey::from("ehlo")).unwrap().to_bytes());
    assert_eq!(3, clist.len());
    // underlying vec should be updated as well
    assert_eq!(3, vec.as_clist().len());
    assert_eq!(3, vec.len());
    assert_eq!(vec!["hello", "1", "2"], texts(vec.as_clist().to_owned_vec()));
}

#[test]
fn test_exec_vec_cstr_lifetime() {
    let str = owned("a string");
    let mut vec = ExecVec::<10>::empty();
    vec.push_cstr(str.as_c_str());
    assert_eq!(vec!["a string"], texts(vec.as_clist().to_owned_vec()));
}

#[test]
fn test_split_cstr() {
    let (bytes, str) = c("string_a=string_b").split_once(b'=');
    assert_eq!(b"string_a", bytes);
    assert_eq!(b"string_b", str.to_bytes());
}

#[test]
fn test_exec_vec_insert_ptr() {
    let mut vec = ExecVec::<10>::empty();
    vec.push_cstr(c("3"));
    vec.insert_cstr(0, c("1"));
    vec.insert_cstring(1, owned("2"));
    assert_eq!(vec!["1", "2", "3"], texts(vec.as_clist().to_owned_vec()));
}

#[test]
fn split_without_the_byte_gives_all_of_it_second() {
    let (before, after) = c("abc").split_once(b'=');
    assert_eq!(0, before.len());
    assert_eq!(b"abc", after.to_bytes());
    let (before, after) = c("=x=y").split_once(b'=');
    assert_eq!(0, before.len());
    assert_eq!(b"x=y", after.to_bytes());
}

#[test]
fn c_strings_hold_no_zero() {
    assert_eq!(CString::new(vec![1, 2, 0, 3]).unwrap_err(), NulError { position: 2 });
    assert!(CStr::from_bytes(&[b'a', 0]).is_none());
    assert_eq!(owned("x").clone().to_bytes(), b"x");
    assert_eq!(c("xy").to_owned().to_bytes(), b"xy");
}

#[test]
fn bytes_that_are_no_text_are_replaced() {
    assert_eq!(c("gr\u{fc}n").to_string_lossy(), "gr\u{fc}n");
    let broken = CString::new(vec![b'a', 0xff, b'b']).unwrap();
    assert_eq!(broken.to_string_lossy(), "a\u{fffd}b");
}

#[test]
fn matchers_tell_entries_apart() {
    assert!(Exact::from("-jar").matches_bytes(b"-jar"));
    assert!(!Exact::from("-jar").matches_bytes(b"-jar "));
    assert!(StartsWith::from("-javaagent").matches_bytes(b"-javaagent:x"));
    assert!(!StartsWith::from("-javaagent").matches_bytes(b"-java"));
    assert!(EndsWith::from("java").matches_bytes(b"/usr/bin/java"));
    assert!(!EndsWith::from("java").matches_bytes(b"javac"));
    assert!(EnvKey::from("A").matches_bytes(b"A="));
    assert!(!EnvKey::from("A").matches_bytes(b"A"));
    assert!(!EnvKey::from("A").matches_bytes(b"AB=1"));
    assert!(!EnvKey::from("A").matches_bytes(b"B=1"));
    assert!(EnvKey::from_c_str(c("A")).matches_bytes(b"A=1"));
}

#[test]
fn environment_entries_are_built_and_read() {
    let entry = EnvKey::from("KEY").build_c_env("value=1").unwrap();
    assert_eq!(entry.to_bytes(), b"KEY=value=1");
    assert_eq!(EnvKey::get_value(entry.as_c_str()).to_bytes(), b"value=1");
    match EnvKey::from("KEY").build_c_env("a\0b") {
        Err(EnvError::InteriorNul(NulError { position })) => assert_eq!(5, position),
        _ => panic!("a zero was taken"),
    }
    let bytes = CString::new(vec![0xff]).unwrap();
    match EnvKey::from_c_str(bytes.as_c_str()).build_c_env("x") {
        Err(EnvError::InvalidUtf8) => {}
        _ => panic!("a key that is no text was taken"),
    }
}

#[test]
fn the_last_match_counts_but_the_first_is_replaced() {
    let mut vec = list(&["A=1", "B=2", "A=3"]);
    let mut clist = vec.as_clist();
    assert_eq!(clist.get_entry(EnvKey::from("A")).unwrap().to_bytes(), b"A=3");
    assert!(clist.get_entry(EnvKey::from("C")).is_none());
    let replaced = clist.replace_entry(|e: &[u8]| e.starts_with(b"A="), c("A=9"));
    assert_eq!(replaced.unwrap().to_bytes(), b"A=1");
    assert!(clist.replace_entry(|e: &[u8]| e.starts_with(b"C="), c("C=9")).is_none());
    assert_eq!(clist.remove_entry(EnvKey::from("A")).unwrap().to_bytes(), b"A=3");
    assert!(clist.remove_entry(EnvKey::from("C")).is_none());
    assert_eq!(vec!["A=9", "B=2"], texts(vec.as_clist().to_owned_vec()));
}

#[test]
fn only_the_first_entry_is_looked_at() {
    let mut vec = list(&["java", "-jar"]);
    assert!(vec.as_clist().get_first_entry(Exact::from("-jar")).is_none());
    assert_eq!(
        vec.as_clist().get_first_entry(Exact::from("java")).unwrap().to_bytes(),
        b"java"
    );
    assert!(list(&[]).as_clist().get_first_entry(Exact::from("")).is_none());
}

#[test]
fn lists_go_back_and_forth() {
    let mut vec = list(&["a", "b"]);
    let mut copy: ExecVec<4> = vec.as_clist().into_exec_vec();
    assert_eq!(vec!["a", "b"], texts(copy.as_clist().to_owned_vec()));
    let mut many = ExecVec::<2>::from_slice(&[c("x"), c("y"), c("z")]);
    many.push_cstring(owned("w"));
    assert_eq!(4, many.len());
    assert_eq!(vec!["x", "y", "z", "w"], texts(many.as_clist().to_owned_vec()));
    assert!(many.as_slots().last().unwrap().is_none());
}

#[test]
fn long_lists_leave_the_stack() {
    let mut vec = ExecVec::<2>::empty();
    for i in 0..100 {
        vec.push_cstring(owned(&i.to_string()));
    }
    assert_eq!(100, vec.len());
    assert_eq!("99", texts(vec.as_clist().to_owned_vec())[99]);
}

#[test]
fn an_entry_behind_the_end_is_not_seen() {
    let mut vec = list(&["a"]);
    vec.insert_cstr(2, c("z"));
    assert_eq!(1, vec.len());
    vec.push_cstr(c("b"));
    assert_eq!(vec!["a", "b"], texts(vec.as_clist().to_owned_vec()));
}

#[test]
fn java_gets_its_agent_once() {
    let mut vec = list(&["/usr/bin/java", "-jar", "app.jar"]);
    rewrite_cmd_args(&mut vec, true);
    let expected = vec!["/usr/bin/java", "-javaagent:dd-java-agent.jar", "-jar", "app.jar"];
    assert_eq!(expected, texts(vec.as_clist().to_owned_vec()));
    rewrite_cmd_args(&mut vec, true);
    assert_eq!(expected, texts(vec.as_clist().to_owned_vec()));
}

#[test]
fn other_commands_are_left_alone() {
    assert!(!check_java_rewrite(&list(&["java", "-jar", "x"]).as_clist(), false));
    assert!(!check_java_rewrite(&list(&["python", "-jar", "x"]).as_clist(), true));
    assert!(!check_java_rewrite(&list(&["java", "Main"]).as_clist(), true));
    assert!(!check_java_rewrite(&list(&["java", "-javaagent:y", "-jar", "x"]).as_clist(), true));
    assert!(check_java_rewrite(&list(&["java", "-jar", "x"]).as_clist(), true));
    let mut vec = list(&["ls"]);
    rewrite_cmd_args(&mut vec, true);
    assert_eq!(vec!["ls"], texts(vec.as_clist().to_owned_vec()));
}

#[test]
fn the_linker_is_believed_where_it_knows() {
    let (path, symbol) = get_dl_path_raw(None);
    assert!(path.is_none() && symbol.is_none());
    let (path, symbol) = get_dl_path_raw(Some(DlInfo {
        base_known: true,
        file_name: Some(owned("/lib/x.so")),
        symbol_known: false,
        symbol_name: Some(owned("f")),
    }));
    assert_eq!(path.unwrap().to_bytes(), b"/lib/x.so");
    assert!(symbol.is_none());
    let (path, symbol) = get_dl_path_raw(Some(DlInfo {
        base_known: false,
        file_name: Some(owned("/lib/x.so")),
        symbol_known: true,
        symbol_name: Some(owned("f")),
    }));
    assert!(path.is_none());
    assert_eq!(symbol.unwrap().to_bytes(), b"f");
}

#[test]
fn a_string_beyond_the_end_is_kept_in_its_slot() {
    let slots = |vec: &ExecVec<10>| -> Vec<Option<String>> {
        vec.as_slots().iter().map(|s| s.as_ref().map(|s| s.to_string_lossy())).collect()
    };
    let some = |s: &str| Some(s.to_string());
    let mut vec = list(&["a"]);
    vec.insert_cstring(2, owned("x"));
    assert_eq!(slots(&vec), vec![some("a"), None, some("x"), None]);
    assert_eq!(vec.len(), 1);
    let mut vec = list(&["a"]);
    vec.insert_cstr(3, c("x"));
    assert_eq!(slots(&vec), vec![some("a"), None, None, some("x")]);
    let mut vec = list(&["a"]);
    vec.insert_cstr(0, c("x"));
    assert_eq!(slots(&vec), vec![some("x"), some("a"), None, None]);
}
