//! Tests on the entries of an argument or environment list.
use vstd::prelude::*;
use vstd::string::*;
use vstd::utf8::*;

use crate::c_string::{
    bytes_equal, nul_free, split_at_byte, string_from_utf8, CStr, CStrExt, CString, NulError,
};
use crate::c_string::{lemma_encode_utf8_concat, string_is_split_at_the_first};

verus! {

/// A test on the bytes of an entry.
pub trait EntryByteMatcher {
    /// Which entries pass the test.
    spec fn matches(&self, data: Seq<u8>) -> bool;

    /// Whether an entry passes the test.
    fn matches_bytes(&self, data: &[u8]) -> (r: bool)
        ensures
            r == self.matches(data@),
    ;
}

/// Whether `data` begins with `prefix`.
pub open spec fn starts_with(data: Seq<u8>, prefix: Seq<u8>) -> bool {
    data.len() >= prefix.len() && data.take(prefix.len() as int) == prefix
}

/// Whether `data` ends with `suffix`.
pub open spec fn ends_with(data: Seq<u8>, suffix: Seq<u8>) -> bool {
    data.len() >= suffix.len() && data.skip(data.len() - suffix.len()) == suffix
}

/// Whether `data` is an assignment to the variable `key`: the key, an equals sign and any value.
pub open spec fn assigns(data: Seq<u8>, key: Seq<u8>) -> bool {
    starts_with(data, key.push(0x3d))
}

fn has_prefix(data: &[u8], prefix: &[u8]) -> (r: bool)
    ensures
        r == starts_with(data@, prefix@),
{
    if data.len() < prefix.len() {
        return false;
    }
    let head = vstd::slice::slice_subrange(data, 0, prefix.len());
    assert(head@ =~= data@.take(prefix@.len() as int));
    bytes_equal(head, prefix)
}

fn has_suffix(data: &[u8], suffix: &[u8]) -> (r: bool)
    ensures
        r == ends_with(data@, suffix@),
{
    if data.len() < suffix.len() {
        return false;
    }
    let tail = vstd::slice::slice_subrange(data, data.len() - suffix.len(), data.len());
    assert(tail@ =~= data@.skip(data@.len() - suffix@.len()));
    bytes_equal(tail, suffix)
}

/// Matches one exact entry.
pub struct Exact<'a>(&'a [u8]);

impl<'a> View for Exact<'a> {
    type V = Seq<u8>;

    closed spec fn view(&self) -> Seq<u8> {
        self.0@
    }
}

impl<'a> EntryByteMatcher for Exact<'a> {
    open spec fn matches(&self, data: Seq<u8>) -> bool {
        data == self@
    }

    fn matches_bytes(&self, data: &[u8]) -> (r: bool) {
        bytes_equal(self.0, data)
    }
}

impl<'a> Exact<'a> {
    /// Matches the entry `str`.
    pub fn from(str: &'a str) -> (r: Self)
        ensures
            r@ == encode_utf8(str@),
    {
        Exact(str.as_bytes())
    }
}

/// Matches the entries that begin with a given string.
pub struct StartsWith<'a>(&'a [u8]);

impl<'a> View for StartsWith<'a> {
    type V = Seq<u8>;

    closed spec fn view(&self) -> Seq<u8> {
        self.0@
    }
}

impl<'a> EntryByteMatcher for StartsWith<'a> {
    open spec fn matches(&self, data: Seq<u8>) -> bool {
        starts_with(data, self@)
    }

    fn matches_bytes(&self, data: &[u8]) -> (r: bool) {
        has_prefix(data, self.0)
    }
}

impl<'a> StartsWith<'a> {
    /// Matches the entries that begin with `str`.
    pub fn from(str: &'a str) -> (r: Self)
        ensures
            r@ == encode_utf8(str@),
    {
        StartsWith(str.as_bytes())
    }
}

/// Matches the entries that end with a given string.
pub struct EndsWith<'a>(&'a [u8]);

impl<'a> View for EndsWith<'a> {
    type V = Seq<u8>;

    closed spec fn view(&self) -> Seq<u8> {
        self.0@
    }
}

impl<'a> EntryByteMatcher for EndsWith<'a> {
    open spec fn matches(&self, data: Seq<u8>) -> bool {
        ends_with(data, self@)
    }

    fn matches_bytes(&self, data: &[u8]) -> (r: bool) {
        has_suffix(data, self.0)
    }
}

impl<'a> EndsWith<'a> {
    /// Matches the entries that end with `str`.
    pub fn from(str: &'a str) -> (r: Self)
        ensures
            r@ == encode_utf8(str@),
    {
        EndsWith(str.as_bytes())
    }
}

/// Why no environment entry could be built.
#[derive(Debug, Clone, Copy, PartialEq, Eq, Structural)]
pub enum EnvError {
    /// The name of the variable is not valid UTF-8.
    InvalidUtf8,
    /// The entry would hold a NUL byte.
    InteriorNul(NulError),
}

/// The name of an environment variable. Matches the entries that assign to it.
pub struct EnvKey<'a>(&'a [u8]);

impl<'a> View for EnvKey<'a> {
    type V = Seq<u8>;

    closed spec fn view(&self) -> Seq<u8> {
        self.0@
    }
}

/// The entry that assigns `value` to the variable `key`.
pub open spec fn assignment(key: Seq<u8>, value: Seq<char>) -> Seq<u8> {
    key.push(0x3d) + encode_utf8(value)
}

/// The value of an assignment: what follows its first equals sign, or all of it where there is
/// none.
pub open spec fn assigned_value(entry: Seq<u8>) -> Seq<u8> {
    split_at_byte(entry, 0x3d).1
}

impl<'a> EnvKey<'a> {
    /// The variable named `str`.
    pub fn from(str: &'a str) -> (r: Self)
        ensures
            r@ == encode_utf8(str@),
    {
        EnvKey(str.as_bytes())
    }

    /// The variable named by a byte string.
    pub fn from_c_str(str: CStr<'a>) -> (r: Self)
        ensures
            r@ == str@,
    {
        EnvKey(str.to_bytes())
    }

    /// The value of an assignment.
    pub fn get_value(src: CStr<'a>) -> (r: CStr<'a>)
        ensures
            r@ == assigned_value(src@),
    {
        let (_, val) = src.split_once(0x3d);
        val
    }

    /// The entry that assigns `val` to this variable.
    pub fn build_c_env(&self, val: &str) -> (r: Result<CString, EnvError>)
        ensures
            match r {
                Ok(entry) => {
                    &&& valid_utf8(self@)
                    &&& nul_free(assignment(self@, val@))
                    &&& entry@ == assignment(self@, val@)
                },
                Err(EnvError::InvalidUtf8) => !valid_utf8(self@),
                Err(EnvError::InteriorNul(e)) => {
                    let entry = assignment(self@, val@);
                    &&& valid_utf8(self@)
                    &&& e.position < entry.len()
                    &&& entry[e.position as int] == 0
                    &&& nul_free(entry.take(e.position as int))
                },
            },
    {
        let key = match string_from_utf8(vstd::slice::slice_to_vec(self.0)) {
            Some(key) => key,
            None => {
                return Err(EnvError::InvalidUtf8);
            },
        };
        let mut entry = key;
        entry.append("=");
        entry.append(val);
        proof {
            reveal_strlit("=");
            let eq = seq!['='];
            assert("="@ =~= eq);
            decode_utf8_encode_utf8(self@);
            lemma_encode_utf8_concat(decode_utf8(self@), eq);
            lemma_encode_utf8_concat(decode_utf8(self@) + eq, val@);
            is_ascii_chars_encode_utf8(eq);
            assert(encode_utf8(eq) =~= seq![0x3du8]);
            assert(self@ + seq![0x3du8] =~= self@.push(0x3d));
        }
        match CString::new(vstd::slice::slice_to_vec(entry.as_str().as_bytes())) {
            Ok(entry) => Ok(entry),
            Err(e) => Err(EnvError::InteriorNul(e)),
        }
    }
}

impl<'a> EntryByteMatcher for EnvKey<'a> {
    open spec fn matches(&self, data: Seq<u8>) -> bool {
        assigns(data, self@)
    }

    fn matches_bytes(&self, data: &[u8]) -> (r: bool) {
        let key = self.0;
        // data must be longer than the key, as it also holds the equals sign
        if data.len() <= key.len() {
            return false;
        }
        proof {
            let n = key@.len() as int;
            let expected = key@.push(0x3d);
            assert(data@.take(n + 1) =~= data@.take(n).push(data@[n]));
            assert(data@.take(n + 1).take(n) =~= data@.take(n));
            assert(expected.take(n) =~= key@);
            assert(expected[n] == 0x3d);
        }
        if !has_prefix(data, key) {
            return false;
        }
        // the key is followed by the equals sign

        data[key.len()] == 0x3d
    }
}

/// Data begins with a prefix exactly where it is the prefix and something after it.
pub proof fn lemma_starts_with(data: Seq<u8>, prefix: Seq<u8>)
    ensures
        starts_with(data, prefix) <==> exists|rest: Seq<u8>| data == #[trigger] (prefix + rest),
{
    if starts_with(data, prefix) {
        let rest = data.skip(prefix.len() as int);
        assert(data =~= prefix + rest);
    }
    if exists|rest: Seq<u8>| data == #[trigger] (prefix + rest) {
        let rest = choose|rest: Seq<u8>| data == #[trigger] (prefix + rest);
        assert((prefix + rest).take(prefix.len() as int) =~= prefix);
    }
}

/// Data ends with a suffix exactly where it is something and the suffix after it.
pub proof fn lemma_ends_with(data: Seq<u8>, suffix: Seq<u8>)
    ensures
        ends_with(data, suffix) <==> exists|start: Seq<u8>| data == #[trigger] (start + suffix),
{
    if ends_with(data, suffix) {
        let start = data.take(data.len() - suffix.len());
        assert(data =~= start + suffix);
    }
    if exists|start: Seq<u8>| data == #[trigger] (start + suffix) {
        let start = choose|start: Seq<u8>| data == #[trigger] (start + suffix);
        assert((start + suffix).skip(start.len() as int) =~= suffix);
    }
}

/// Which entries the tests match: the same bytes, bytes with something after them, bytes with
/// something before them, and a variable with an equals sign and any value after it.
pub proof fn tests_match_their_entries(
    exact: Exact<'_>,
    prefix: StartsWith<'_>,
    suffix: EndsWith<'_>,
    key: EnvKey<'_>,
    data: Seq<u8>,
)
    ensures
        exact.matches(data) <==> data == exact@,
        prefix.matches(data) <==> exists|rest: Seq<u8>| data == #[trigger] (prefix@ + rest),
        suffix.matches(data) <==> exists|start: Seq<u8>| data == #[trigger] (start + suffix@),
        key.matches(data) <==> exists|value: Seq<u8>|
            data == #[trigger] (key@.push(0x3d) + value),
{
    lemma_starts_with(data, prefix@);
    lemma_ends_with(data, suffix@);
    lemma_starts_with(data, key@.push(0x3d));
}

/// The value of an entry is what follows the variable and the equals sign, whatever the value
/// holds. An entry without an equals sign is its own value. Building an entry puts the variable,
/// an equals sign and the value in a row.
pub proof fn value_is_read_back(key: Seq<u8>, value: Seq<u8>, text: Seq<char>)
    requires
        !key.contains(0x3d),
    ensures
        assigned_value(key + seq![0x3du8] + value) == value,
        assigned_value(key) == key,
        assignment(key, text) == key + seq![0x3du8] + encode_utf8(text),
{
    string_is_split_at_the_first(key, 0x3d, value);
    assert(assignment(key, text) =~= key + seq![0x3du8] + encode_utf8(text));
}

} // verus!
