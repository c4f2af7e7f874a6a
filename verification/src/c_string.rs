//! Byte strings without NUL bytes, owned and borrowed.
use vstd::prelude::*;
use vstd::string::*;
use vstd::utf8::*;

verus! {

/// Whether no byte is NUL.
pub open spec fn nul_free(s: Seq<u8>) -> bool {
    forall|i: int| 0 <= i < s.len() ==> #[trigger] s[i] != 0
}

/// The number of bytes before the first `c`, or of all bytes where `c` does not occur.
pub open spec fn find_byte(s: Seq<u8>, c: u8) -> int
    decreases s.len(),
{
    if s.len() == 0 || s[0] == c {
        0
    } else {
        1 + find_byte(s.skip(1), c)
    }
}

/// The parts of `s` before and after its first `c`. Where `c` does not occur the first part is
/// empty and the second is all of `s`.
pub open spec fn split_at_byte(s: Seq<u8>, c: u8) -> (Seq<u8>, Seq<u8>) {
    let i = find_byte(s, c);
    if i < s.len() {
        (s.take(i), s.skip(i + 1))
    } else {
        (Seq::empty(), s)
    }
}

/// `find_byte` gives the index of the first `c`.
pub proof fn lemma_find_byte(s: Seq<u8>, c: u8, i: int)
    requires
        0 <= i <= s.len(),
        forall|j: int| 0 <= j < i ==> s[j] != c,
        i < s.len() ==> s[i] == c,
    ensures
        find_byte(s, c) == i,
    decreases i,
{
    if i > 0 {
        let t = s.skip(1);
        assert forall|j: int| 0 <= j < i - 1 implies t[j] != c by {
            assert(t[j] == s[j + 1]);
        }
        lemma_find_byte(t, c, i - 1);
    }
}

/// The encoding of two texts in a row is the two encodings in a row.
pub proof fn lemma_encode_utf8_concat(a: Seq<char>, b: Seq<char>)
    ensures
        encode_utf8(a + b) == encode_utf8(a) + encode_utf8(b),
    decreases a.len(),
{
    if a.len() == 0 {
        assert(a + b =~= b);
        assert(encode_utf8(a) + encode_utf8(b) =~= encode_utf8(b));
    } else {
        lemma_encode_utf8_concat(a.drop_first(), b);
        assert((a + b).drop_first() =~= a.drop_first() + b);
        assert(encode_utf8(a + b) =~= encode_utf8(a) + encode_utf8(b));
    }
}

/// What bytes that are not valid UTF-8 read as once their malformed parts are replaced.
pub uninterp spec fn replaced_utf8(bytes: Seq<u8>) -> Seq<char>;

/// The text of bytes: their decoding where they are valid UTF-8, else with malformed parts
/// replaced.
pub open spec fn lossy_text(bytes: Seq<u8>) -> Seq<char> {
    if valid_utf8(bytes) {
        decode_utf8(bytes)
    } else {
        replaced_utf8(bytes)
    }
}

/// `String::from_utf8_lossy`: bytes that are valid UTF-8 are decoded. Of other bytes the result is
/// named, and nothing else is claimed.
#[verifier::external_body]
fn from_utf8_lossy(bytes: &[u8]) -> (r: String)
    ensures
        valid_utf8(bytes@) ==> r@ == decode_utf8(bytes@),
        !valid_utf8(bytes@) ==> r@ == replaced_utf8(bytes@),
{
    String::from_utf8_lossy(bytes).into_owned()
}

/// `String::from_utf8`: succeeds on valid UTF-8 alone, and then decodes it.
#[verifier::external_body]
pub(crate) fn string_from_utf8(bytes: Vec<u8>) -> (r: Option<String>)
    ensures
        r is Some <==> valid_utf8(bytes@),
        r matches Some(s) ==> s@ == decode_utf8(bytes@),
{
    String::from_utf8(bytes).ok()
}

/// Whether two byte strings are the same.
pub fn bytes_equal(a: &[u8], b: &[u8]) -> (r: bool)
    ensures
        r == (a@ == b@),
{
    if a.len() != b.len() {
        return false;
    }
    let mut i: usize = 0;
    while i < a.len()
        invariant
            a@.len() == b@.len(),
            i <= a@.len(),
            forall|j: int| 0 <= j < i ==> a@[j] == b@[j],
        decreases a@.len() - i,
    {
        if a[i] != b[i] {
            assert(a@[i as int] != b@[i as int]);
            return false;
        }
        i = i + 1;
    }
    assert(a@ =~= b@);
    true
}

/// A byte of an intended string was NUL.
#[derive(Debug, Clone, Copy, PartialEq, Eq, Structural)]
pub struct NulError {
    /// The index of the first NUL byte.
    pub position: usize,
}

/// An owned byte string without NUL bytes.
#[derive(Debug, PartialEq, Eq, Hash)]
pub struct CString {
    bytes: Vec<u8>,
}

impl View for CString {
    type V = Seq<u8>;

    closed spec fn view(&self) -> Seq<u8> {
        self.bytes@
    }
}

impl Clone for CString {
    fn clone(&self) -> (r: Self)
        ensures
            r@ == self@,
    {
        proof {
            use_type_invariant(self);
        }
        CString { bytes: vstd::slice::slice_to_vec(self.bytes.as_slice()) }
    }
}

impl CString {
    #[verifier::type_invariant]
    spec fn no_nul_inside(self) -> bool {
        nul_free(self.bytes@)
    }

    /// Makes a string of bytes, which must not hold a NUL byte.
    pub fn new(bytes: Vec<u8>) -> (r: Result<CString, NulError>)
        ensures
            match r {
                Ok(s) => nul_free(bytes@) && s@ == bytes@,
                Err(e) => {
                    &&& e.position < bytes@.len()
                    &&& bytes@[e.position as int] == 0
                    &&& nul_free(bytes@.take(e.position as int))
                },
            },
    {
        let mut i: usize = 0;
        while i < bytes.len()
            invariant
                i <= bytes@.len(),
                nul_free(bytes@.take(i as int)),
            decreases bytes@.len() - i,
        {
            if bytes[i] == 0 {
                return Err(NulError { position: i });
            }
            assert(bytes@.take(i + 1) =~= bytes@.take(i as int).push(bytes@[i as int]));
            i = i + 1;
        }
        assert(bytes@.take(i as int) =~= bytes@);
        Ok(CString { bytes })
    }

    /// The string as a borrowed one.
    pub fn as_c_str(&self) -> (r: CStr<'_>)
        ensures
            r@ == self@,
    {
        proof {
            use_type_invariant(self);
        }
        CStr { bytes: self.bytes.as_slice() }
    }

    /// The bytes of the string, without a terminator.
    pub fn to_bytes(&self) -> (r: &[u8])
        ensures
            r@ == self@,
            nul_free(r@),
    {
        proof {
            use_type_invariant(self);
        }
        self.bytes.as_slice()
    }

    /// The text of the string, malformed UTF-8 replaced.
    pub fn to_string_lossy(&self) -> (r: String)
        ensures
            r@ == lossy_text(self@),
    {
        from_utf8_lossy(self.bytes.as_slice())
    }
}

/// A borrowed byte string without NUL bytes.
#[derive(Debug, Clone, Copy, PartialEq, Eq)]
pub struct CStr<'a> {
    bytes: &'a [u8],
}

impl<'a> View for CStr<'a> {
    type V = Seq<u8>;

    closed spec fn view(&self) -> Seq<u8> {
        self.bytes@
    }
}

impl<'a> CStr<'a> {
    #[verifier::type_invariant]
    spec fn no_nul_inside(self) -> bool {
        nul_free(self.bytes@)
    }

    /// Borrows bytes as a string. There is none where a byte is NUL.
    pub fn from_bytes(bytes: &'a [u8]) -> (r: Option<CStr<'a>>)
        ensures
            r is Some <==> nul_free(bytes@),
            r matches Some(s) ==> s@ == bytes@,
    {
        let mut i: usize = 0;
        while i < bytes.len()
            invariant
                i <= bytes@.len(),
                forall|j: int| 0 <= j < i ==> bytes@[j] != 0,
            decreases bytes@.len() - i,
        {
            if bytes[i] == 0 {
                assert(bytes@[i as int] == 0);
                return None;
            }
            i = i + 1;
        }
        Some(CStr { bytes })
    }

    /// The bytes of the string, without a terminator.
    pub fn to_bytes(&self) -> (r: &'a [u8])
        ensures
            r@ == self@,
            nul_free(r@),
    {
        proof {
            use_type_invariant(self);
        }
        self.bytes
    }

    /// Copies the string.
    pub fn to_owned(&self) -> (r: CString)
        ensures
            r@ == self@,
    {
        proof {
            use_type_invariant(self);
        }
        CString { bytes: vstd::slice::slice_to_vec(self.bytes) }
    }

    /// The text of the string, malformed UTF-8 replaced.
    pub fn to_string_lossy(&self) -> (r: String)
        ensures
            r@ == lossy_text(self@),
    {
        from_utf8_lossy(self.bytes)
    }
}

/// Splitting of borrowed strings.
pub trait CStrExt<'a>: Sized {
    /// The bytes that are split.
    spec fn contents(&self) -> Seq<u8>;

    /// Splits a string in two at the first byte `c`. Nothing is copied: both parts borrow from
    /// the string. The second part is terminated where the string is, so it is a string again.
    ///
    /// Where `c` does not occur the first part is empty and the second is the whole string.
    fn split_once(self, c: u8) -> (r: (&'a [u8], CStr<'a>))
        ensures
            (r.0@, r.1@) == split_at_byte(self.contents(), c),
    ;
}

impl<'a> CStrExt<'a> for CStr<'a> {
    open spec fn contents(&self) -> Seq<u8> {
        self@
    }

    fn split_once(self, c: u8) -> (r: (&'a [u8], CStr<'a>)) {
        proof {
            use_type_invariant(&self);
        }
        let bytes = self.bytes;
        let mut i: usize = 0;
        while i < bytes.len()
            invariant
                bytes@ == self@,
                nul_free(bytes@),
                i <= bytes@.len(),
                forall|j: int| 0 <= j < i ==> bytes@[j] != c,
            decreases bytes@.len() - i,
        {
            if bytes[i] == c {
                proof {
                    lemma_find_byte(bytes@, c, i as int);
                }
                let head = vstd::slice::slice_subrange(bytes, 0, i);
                let tail = vstd::slice::slice_subrange(bytes, i + 1, bytes.len());
                assert(head@ =~= bytes@.take(i as int));
                assert(tail@ =~= bytes@.skip(i + 1));
                return (head, CStr { bytes: tail });
            }
            i = i + 1;
        }
        proof {
            lemma_find_byte(bytes@, c, i as int);
        }
        let head = vstd::slice::slice_subrange(bytes, 0, 0);
        assert(head@ =~= Seq::<u8>::empty());
        (head, self)
    }
}

/// Splitting finds the first of the bytes that separate: what is before it does not hold it, and
/// what is after it may. Where there is none, all is in the second part.
pub proof fn string_is_split_at_the_first(head: Seq<u8>, c: u8, tail: Seq<u8>)
    requires
        !head.contains(c),
    ensures
        split_at_byte(head + seq![c] + tail, c) == (head, tail),
        split_at_byte(head, c) == (Seq::<u8>::empty(), head),
{
    let s = head + seq![c] + tail;
    let n = head.len() as int;
    assert forall|j: int| 0 <= j < n implies s[j] != c && head[j] != c by {
        assert(head.contains(head[j]));
    }
    lemma_find_byte(s, c, n);
    lemma_find_byte(head, c, n);
    assert(s.take(n) =~= head);
    assert(s.skip(n + 1) =~= tail);
}

/// The text of the bytes of a text is that text.
pub proof fn encoded_text_reads_back(text: Seq<char>)
    ensures
        lossy_text(encode_utf8(text)) == text,
{
    encode_utf8_valid_utf8(text);
    encode_utf8_decode_utf8(text);
}

} // verus!
