//! Identifiers of traces and spans.
use std::collections::hash_map::DefaultHasher;

use vstd::prelude::*;
use vstd::std_specs::hash::*;
use vstd::string::*;
use vstd::utf8::*;

use crate::c_string::{encoded_text_reads_back, lossy_text, CStr};
use crate::text::{decimal, parse_u64, parsed_u64, trim, trimmed, u64_to_string};
use crate::text::white_space_around_is_removed;
use crate::text::{decimal_denotes_its_number, decimal_parses_back, is_digit, is_white_space};

verus! {

/// An identifier: a number, or text that does not denote one.
#[derive(Debug, PartialEq, Eq, Hash)]
pub enum Id {
    Numeric(u64),
    String(String),
}

/// What an identifier is, whatever memory it occupies.
pub enum IdView {
    Numeric(u64),
    String(Seq<char>),
}

impl View for Id {
    type V = IdView;

    open spec fn view(&self) -> IdView {
        match self {
            Id::Numeric(n) => IdView::Numeric(*n),
            Id::String(s) => IdView::String(s@),
        }
    }
}

impl IdView {
    /// The identifier as text.
    pub open spec fn text(self) -> Seq<char> {
        match self {
            IdView::Numeric(n) => decimal(n as nat),
            IdView::String(s) => s,
        }
    }

    /// The identifier as a number: a number as it is, text by its hash.
    pub open spec fn number(self) -> u64 {
        match self {
            IdView::Numeric(n) => n,
            IdView::String(s) => DefaultHasher::spec_finish(hashed_str(Seq::empty(), s)),
        }
    }
}

/// The identifier that a text denotes: a number where it reads as one.
pub open spec fn id_of_text(text: Seq<char>) -> IdView {
    match parsed_u64(text) {
        Some(n) => IdView::Numeric(n),
        None => IdView::String(text),
    }
}

/// The identifier that a byte string denotes, white space around it aside.
pub open spec fn id_of_bytes(bytes: Seq<u8>) -> IdView {
    id_of_text(trimmed(lossy_text(bytes)))
}

/// The writes that a hasher has seen, once a string was hashed after the writes `before`.
pub uninterp spec fn hashed_str(before: Seq<Seq<u8>>, s: Seq<char>) -> Seq<Seq<u8>>;

/// `str::hash` feeds a string to a hasher. What it writes is named, and depends on nothing but the
/// string.
#[verifier::external_body]
fn hash_str(s: &str, state: &mut DefaultHasher)
    ensures
        final(state)@ == hashed_str(old(state)@, s@),
{
    std::hash::Hash::hash(s, state)
}

/// `rand::Rng::gen` on `rand::thread_rng` draws a random number. Nothing is claimed of it.
#[verifier::external_body]
fn random_u64() -> (r: u64) {
    rand::Rng::gen(&mut rand::thread_rng())
}

impl Default for Id {
    /// A random number.
    fn default() -> (r: Self)
        ensures
            r is Numeric,
    {
        Id::Numeric(random_u64())
    }
}

impl Clone for Id {
    fn clone(&self) -> (r: Self)
        ensures
            r == *self,
    {
        match self {
            Id::Numeric(n) => Id::Numeric(*n),
            Id::String(s) => Id::String(s.clone()),
        }
    }
}

impl Id {
    /// Whether two identifiers are the same.
    pub fn same(&self, other: &Id) -> (r: bool)
        ensures
            r == (self@ == other@),
    {
        match (self, other) {
            (Id::Numeric(a), Id::Numeric(b)) => *a == *b,
            (Id::String(a), Id::String(b)) => *a == *b,
            _ => false,
        }
    }

    /// The identifier as text.
    pub fn to_string(&self) -> (r: String)
        ensures
            r@ == self@.text(),
    {
        match self {
            Id::Numeric(n) => u64_to_string(*n),
            Id::String(s) => s.clone(),
        }
    }

    /// The identifier as a number: a number as it is, text by its hash.
    pub fn to_u64(&self) -> (r: u64)
        ensures
            r == self@.number(),
    {
        match self {
            Id::Numeric(n) => *n,
            Id::String(s) => {
                let mut hasher = DefaultHasher::new();
                hash_str(s.as_str(), &mut hasher);
                std::hash::Hasher::finish(&hasher)
            },
        }
    }

    /// The identifier that a text denotes.
    pub fn from_text(value: &str) -> (r: Id)
        ensures
            r@ == id_of_text(value@),
    {
        match parse_u64(value) {
            Some(id) => Id::Numeric(id),
            None => Id::String(value.to_owned()),
        }
    }

    /// The identifier that a byte string denotes.
    pub fn from_c_str(value: CStr<'_>) -> (r: Id)
        ensures
            r@ == id_of_bytes(value@),
    {
        let text = value.to_string_lossy();
        let trimmed_text = trim(text.as_str());
        Id::from_text(trimmed_text.as_str())
    }
}

/// Whether an identifier is the one that its own text denotes.
pub open spec fn canonical(id: IdView) -> bool {
    match id {
        IdView::Numeric(n) => true,
        IdView::String(s) => trimmed(s) == s && parsed_u64(s) is None,
    }
}

/// An identifier is read back from the bytes of its text.
pub proof fn id_reads_back(id: IdView)
    requires
        canonical(id),
    ensures
        id_of_bytes(encode_utf8(id.text())) == id,
{
    let text = id.text();
    encode_utf8_valid_utf8(text);
    encode_utf8_decode_utf8(text);
    if let IdView::Numeric(n) = id {
        decimal_parses_back(n);
        decimal_denotes_its_number(n as nat);
        assert(is_digit(text[0]));
        assert(is_digit(text[text.len() - 1]));
        assert(!is_white_space(text[0]) && !is_white_space(text.last()));
    }
}

/// The identifier that a text denotes has that text, a number in another notation aside: what does
/// not read as a number is kept as it is, white space around it aside.
pub proof fn text_is_kept(before: Seq<char>, text: Seq<char>, after: Seq<char>)
    requires
        forall|i: int| 0 <= i < before.len() ==> is_white_space(#[trigger] before[i]),
        forall|i: int| 0 <= i < after.len() ==> is_white_space(#[trigger] after[i]),
        text.len() > 0 ==> !is_white_space(text[0]) && !is_white_space(text.last()),
    ensures
        id_of_bytes(encode_utf8(before + text + after)) == (match parsed_u64(text) {
            Some(n) => IdView::Numeric(n),
            None => IdView::String(text),
        }),
        id_of_text(text) == id_of_bytes(encode_utf8(before + text + after)),
{
    encoded_text_reads_back(before + text + after);
    white_space_around_is_removed(before, text, after);
}

/// The number and the text of a numeric identifier are its number, and the text of another one is
/// its text.
pub proof fn numeric_identifier_is_its_number(n: u64, text: Seq<char>)
    ensures
        IdView::Numeric(n).number() == n,
        IdView::Numeric(n).text() == decimal(n as nat),
        IdView::String(text).text() == text,
        id_of_text(decimal(n as nat)) == IdView::Numeric(n),
{
    decimal_parses_back(n);
}

} // verus!
