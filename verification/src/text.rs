//! Text helpers: decimal numbers, white space and file names, over Unicode characters.
use vstd::prelude::*;
use vstd::string::*;

verus! {

/// `String::push` appends one character.
pub assume_specification[ std::string::String::push ](s: &mut std::string::String, c: char)
    ensures
        final(s)@ == old(s)@.push(c),
;

/// The characters of a string, in order.
pub fn chars_of(s: &str) -> (r: Vec<char>)
    ensures
        r@ == s@,
{
    let mut out: Vec<char> = Vec::new();
    for c in it: s.chars()
        invariant
            out@ =~= it.seq().take(it.index() as int),
            it.seq() == s@,
    {
        out.push(c);
    }
    out
}

/// The string made of the characters `chars[from..to]`.
pub fn string_of(chars: &Vec<char>, from: usize, to: usize) -> (r: String)
    requires
        from <= to <= chars@.len(),
    ensures
        r@ == chars@.subrange(from as int, to as int),
{
    let mut out = String::new();
    let mut i: usize = from;
    while i < to
        invariant
            from <= i <= to <= chars@.len(),
            out@ =~= chars@.subrange(from as int, i as int),
        decreases to - i,
    {
        out.push(chars[i]);
        i = i + 1;
    }
    out
}

/// Whether `needle` occurs among the characters of `s`.
pub fn contains_char(s: &str, needle: char) -> (r: bool)
    ensures
        r == s@.contains(needle),
{
    let chars = chars_of(s);
    let mut i: usize = 0;
    while i < chars.len()
        invariant
            chars@ == s@,
            i <= chars@.len(),
            forall|j: int| 0 <= j < i ==> chars@[j] != needle,
        decreases chars@.len() - i,
    {
        if chars[i] == needle {
            assert(s@[i as int] == needle);
            return true;
        }
        i = i + 1;
    }
    false
}

// ---------------------------------------------------------------------------
// Decimal numbers
// ---------------------------------------------------------------------------

/// Whether `c` is one of the ten ASCII digits.
pub open spec fn is_digit(c: char) -> bool {
    '0' <= c <= '9'
}

/// The value of an ASCII digit.
pub open spec fn digit_value(c: char) -> int {
    c as int - '0' as int
}

/// The ASCII digit of a value below ten.
pub open spec fn digit_char(d: int) -> char {
    ('0' as int + d) as char
}

/// Whether every character is an ASCII digit.
pub open spec fn all_digits(s: Seq<char>) -> bool {
    forall|i: int| 0 <= i < s.len() ==> is_digit(#[trigger] s[i])
}

/// The number that a sequence of digits denotes in base ten.
pub open spec fn decimal_value(s: Seq<char>) -> int
    decreases s.len(),
{
    if s.len() == 0 {
        0
    } else {
        10 * decimal_value(s.drop_last()) + digit_value(s.last())
    }
}

/// The shortest base-ten notation of `n`.
pub open spec fn decimal(n: nat) -> Seq<char>
    decreases n,
{
    if n < 10 {
        seq![digit_char(n as int)]
    } else {
        decimal(n / 10).push(digit_char((n % 10) as int))
    }
}

/// The base-ten notation of a signed number.
pub open spec fn signed_decimal(n: int) -> Seq<char> {
    if n < 0 {
        seq!['-'] + decimal((-n) as nat)
    } else {
        decimal(n as nat)
    }
}

/// What a string denotes as a `u64`: an optional plus sign and at least one digit, nothing else,
/// with a value that fits.
pub open spec fn parsed_u64(s: Seq<char>) -> Option<u64> {
    let digits = if s.len() > 0 && s[0] == '+' {
        s.skip(1)
    } else {
        s
    };
    if digits.len() > 0 && all_digits(digits) && decimal_value(digits) <= u64::MAX {
        Some(decimal_value(digits) as u64)
    } else {
        None
    }
}

proof fn lemma_decimal_value_bounds(s: Seq<char>, n: int)
    requires
        all_digits(s),
        0 <= n <= s.len(),
    ensures
        0 <= decimal_value(s.take(n)) <= decimal_value(s),
    decreases s.len() - n,
{
    lemma_decimal_value_nonneg(s.take(n));
    if n < s.len() {
        lemma_decimal_value_bounds(s, n + 1);
        assert(s.take(n + 1).drop_last() =~= s.take(n));
        assert(is_digit(s[n]));
    } else {
        assert(s.take(n) =~= s);
    }
}

proof fn lemma_decimal_value_nonneg(s: Seq<char>)
    requires
        all_digits(s),
    ensures
        decimal_value(s) >= 0,
    decreases s.len(),
{
    if s.len() > 0 {
        assert(all_digits(s.drop_last()));
        assert(is_digit(s[s.len() - 1]));
        lemma_decimal_value_nonneg(s.drop_last());
    }
}

/// The decimal notation of a number consists of digits and denotes that number.
pub proof fn decimal_denotes_its_number(n: nat)
    ensures
        decimal(n).len() > 0,
        all_digits(decimal(n)),
        decimal_value(decimal(n)) == n,
    decreases n,
{
    if n < 10 {
        assert(decimal(n).drop_last() =~= Seq::<char>::empty());
        assert(decimal_value(Seq::<char>::empty()) == 0);
    } else {
        decimal_denotes_its_number(n / 10);
        let d = digit_char((n % 10) as int);
        assert(decimal(n).drop_last() =~= decimal(n / 10));
        assert(is_digit(d));
    }
}

/// Reading back the decimal notation of a `u64` gives the number itself.
pub proof fn decimal_parses_back(n: u64)
    ensures
        parsed_u64(decimal(n as nat)) == Some(n),
{
    decimal_denotes_its_number(n as nat);
    assert(is_digit(decimal(n as nat)[0]));
}

/// The value of an ASCII digit character.
fn digit_of(c: char) -> (r: u64)
    requires
        is_digit(c),
    ensures
        r == digit_value(c),
        r < 10,
{
    (c as u32 - '0' as u32) as u64
}

/// Reads a `u64` in base ten: an optional plus sign followed by at least one digit.
pub fn parse_u64(s: &str) -> (r: Option<u64>)
    ensures
        r == parsed_u64(s@),
{
    let chars = chars_of(s);
    let start: usize = if chars.len() > 0 && chars[0] == '+' {
        1
    } else {
        0
    };
    let ghost digits = s@.skip(start as int);
    assert(start == 0 ==> digits =~= s@);
    if start == chars.len() {
        return None;
    }
    let mut value: u64 = 0;
    let mut i: usize = start;
    while i < chars.len()
        invariant
            chars@ == s@,
            start <= i <= chars@.len(),
            digits == s@.skip(start as int),
            digits.len() > 0,
            parsed_u64(s@) == (if all_digits(digits) && decimal_value(digits) <= u64::MAX {
                Some(decimal_value(digits) as u64)
            } else {
                None
            }),
            all_digits(digits.take(i - start)),
            value == decimal_value(digits.take(i - start)),
        decreases chars@.len() - i,
    {
        let c = chars[i];
        assert(digits[i - start] == c);
        if !(c >= '0' && c <= '9') {
            assert(!is_digit(digits[i - start]));
            return None;
        }
        let d: u64 = digit_of(c);
        proof {
            assert(digits.take(i - start + 1).drop_last() =~= digits.take(i - start));
            assert forall|j: int| 0 <= j < i - start + 1 implies is_digit(
                #[trigger] digits.take(i - start + 1)[j],
            ) by {
                if j < i - start {
                    assert(is_digit(digits.take(i - start)[j]));
                }
            }
            if all_digits(digits) {
                lemma_decimal_value_bounds(digits, i - start + 1);
            }
        }
        if value > u64::MAX / 10 || value * 10 > u64::MAX - d {
            return None;
        }
        value = value * 10 + d;
        i = i + 1;
    }
    assert(digits.take(i - start) =~= digits);
    Some(value)
}

/// Appends the decimal notation of `n`.
fn push_decimal(out: &mut String, n: u64)
    ensures
        final(out)@ == old(out)@ + decimal(n as nat),
    decreases n,
{
    if n >= 10 {
        push_decimal(out, n / 10);
    }
    let d: u32 = (n % 10) as u32;
    let c = digit_char_of(d);
    out.push(c);
    assert(decimal(n as nat) =~= if n < 10 {
        seq![c]
    } else {
        decimal((n / 10) as nat).push(c)
    });
    assert(out@ =~= old(out)@ + decimal(n as nat));
}

fn digit_char_of(d: u32) -> (c: char)
    requires
        d < 10,
    ensures
        c == digit_char(d as int),
{
    if d == 0 {
        '0'
    } else if d == 1 {
        '1'
    } else if d == 2 {
        '2'
    } else if d == 3 {
        '3'
    } else if d == 4 {
        '4'
    } else if d == 5 {
        '5'
    } else if d == 6 {
        '6'
    } else if d == 7 {
        '7'
    } else if d == 8 {
        '8'
    } else {
        '9'
    }
}

/// The decimal notation of a `u64`.
pub fn u64_to_string(n: u64) -> (r: String)
    ensures
        r@ == decimal(n as nat),
{
    let mut out = String::new();
    push_decimal(&mut out, n);
    assert(Seq::<char>::empty() + decimal(n as nat) =~= decimal(n as nat));
    out
}

/// The decimal notation of an `i32`, with a minus sign where it is negative.
pub fn i32_to_string(n: i32) -> (r: String)
    ensures
        r@ == signed_decimal(n as int),
{
    let mut out = String::new();
    if n < 0 {
        out.push('-');
        let m: i64 = -(n as i64);
        push_decimal(&mut out, m as u64);
        assert(out@ =~= seq!['-'] + decimal((-n) as nat));
    } else {
        push_decimal(&mut out, n as u64);
        assert(out@ =~= decimal(n as nat));
    }
    out
}

// ---------------------------------------------------------------------------
// White space
// ---------------------------------------------------------------------------

/// The characters with the Unicode property `White_Space`.
pub open spec fn is_white_space(c: char) -> bool {
    let n = c as u32;
    ||| 0x09 <= n <= 0x0d
    ||| n == 0x20
    ||| n == 0x85
    ||| n == 0xa0
    ||| n == 0x1680
    ||| 0x2000 <= n <= 0x200a
    ||| n == 0x2028
    ||| n == 0x2029
    ||| n == 0x202f
    ||| n == 0x205f
    ||| n == 0x3000
}

/// `s` without the white space that it starts with.
pub open spec fn trimmed_start(s: Seq<char>) -> Seq<char>
    decreases s.len(),
{
    if s.len() > 0 && is_white_space(s[0]) {
        trimmed_start(s.skip(1))
    } else {
        s
    }
}

/// `s` without the white space that it ends with.
pub open spec fn trimmed_end(s: Seq<char>) -> Seq<char>
    decreases s.len(),
{
    if s.len() > 0 && is_white_space(s.last()) {
        trimmed_end(s.drop_last())
    } else {
        s
    }
}

/// `s` without the white space at either end.
pub open spec fn trimmed(s: Seq<char>) -> Seq<char> {
    trimmed_end(trimmed_start(s))
}

fn has_white_space_property(c: char) -> (r: bool)
    ensures
        r == is_white_space(c),
{
    let n: u32 = c as u32;
    (0x09 <= n && n <= 0x0d) || n == 0x20 || n == 0x85 || n == 0xa0 || n == 0x1680 || (0x2000 <= n
        && n <= 0x200a) || n == 0x2028 || n == 0x2029 || n == 0x202f || n == 0x205f || n == 0x3000
}

/// Removes white space at both ends.
pub fn trim(s: &str) -> (r: String)
    ensures
        r@ == trimmed(s@),
{
    let chars = chars_of(s);
    let mut start: usize = 0;
    assert(s@.skip(0) =~= s@);
    while start < chars.len() && has_white_space_property(chars[start])
        invariant
            chars@ == s@,
            start <= chars@.len(),
            trimmed_start(s@.skip(start as int)) == trimmed_start(s@),
        decreases chars@.len() - start,
    {
        assert(s@.skip(start as int).skip(1) =~= s@.skip(start + 1));
        start = start + 1;
    }
    let ghost tail = s@.skip(start as int);
    assert(trimmed_start(s@) == tail);
    let mut end: usize = chars.len();
    assert(tail.take(end - start) =~= tail);
    while end > start && has_white_space_property(chars[end - 1])
        invariant
            chars@ == s@,
            start <= end <= chars@.len(),
            tail == s@.skip(start as int),
            trimmed_end(tail.take(end - start)) == trimmed_end(tail),
        decreases end - start,
    {
        assert(tail.take(end - start).drop_last() =~= tail.take(end - start - 1));
        end = end - 1;
    }
    assert(s@.subrange(start as int, end as int) =~= tail.take(end - start));
    string_of(&chars, start, end)
}

/// Text that neither starts nor ends with white space is its own trimmed form.
pub proof fn trimmed_keeps_bounded_text(s: Seq<char>)
    requires
        s.len() > 0 ==> !is_white_space(s[0]) && !is_white_space(s.last()),
    ensures
        trimmed(s) == s,
{
}

// ---------------------------------------------------------------------------
// File names
// ---------------------------------------------------------------------------

/// What follows the last slash of `path`, or all of it where there is none.
pub open spec fn last_segment(path: Seq<char>) -> Seq<char>
    decreases path.len(),
{
    if path.len() == 0 || path.last() == '/' {
        Seq::empty()
    } else {
        last_segment(path.drop_last()).push(path.last())
    }
}

/// The final component of a path: its last segment that is neither empty nor a single dot. There
/// is none where no such segment exists, or where it is the parent directory.
pub open spec fn file_name_of(path: Seq<char>) -> Option<Seq<char>>
    decreases path.len(),
{
    let segment = last_segment(path);
    if segment.len() == 0 || segment == seq!['.'] {
        if segment.len() >= path.len() {
            None
        } else {
            file_name_of(path.take(path.len() - segment.len() - 1))
        }
    } else if segment == seq!['.', '.'] {
        None
    } else {
        Some(segment)
    }
}

proof fn lemma_last_segment(path: Seq<char>, start: int)
    requires
        0 <= start <= path.len(),
        start > 0 ==> path[start - 1] == '/',
        forall|j: int| start <= j < path.len() ==> path[j] != '/',
    ensures
        last_segment(path) == path.skip(start),
    decreases path.len() - start,
{
    if start < path.len() {
        lemma_last_segment(path.drop_last(), start);
        assert(path.drop_last().skip(start).push(path.last()) =~= path.skip(start));
    } else {
        assert(path.skip(start) =~= Seq::empty());
    }
}

/// The final component of a path, if it has one.
pub fn file_name(path: &str) -> (r: Option<String>)
    ensures
        match r {
            Some(name) => file_name_of(path@) == Some(name@),
            None => file_name_of(path@) is None,
        },
{
    let chars = chars_of(path);
    let mut end: usize = chars.len();
    assert(path@.take(end as int) =~= path@);
    loop
        invariant
            chars@ == path@,
            end <= chars@.len(),
            file_name_of(path@.take(end as int)) == file_name_of(path@),
        decreases end,
    {
        let ghost current = path@.take(end as int);
        let mut start: usize = end;
        while start > 0 && chars[start - 1] != '/'
            invariant
                chars@ == path@,
                start <= end <= chars@.len(),
                forall|j: int| start <= j < end ==> chars@[j] != '/',
            decreases start,
        {
            start = start - 1;
        }
        proof {
            lemma_last_segment(current, start as int);
            assert(current.skip(start as int) =~= path@.subrange(start as int, end as int));
        }
        let len: usize = end - start;
        let ghost segment = last_segment(current);
        assert(len == 1 && segment[0] == '.' ==> segment =~= seq!['.']);
        assert(len == 2 && segment[0] == '.' && segment[1] == '.' ==> segment =~= seq!['.', '.']);
        if len == 0 || (len == 1 && chars[start] == '.') {
            if start == 0 {
                return None;
            }
            assert(current.take(start - 1) =~= path@.take(start - 1));
            end = start - 1;
        } else if len == 2 && chars[start] == '.' && chars[start + 1] == '.' {
            return None;
        } else {
            assert(segment == seq!['.'] ==> segment.len() == 1 && segment[0] == '.');
            assert(segment == seq!['.', '.'] ==> segment.len() == 2 && segment[0] == '.'
                && segment[1] == '.');
            assert(segment[0] == chars@[start as int]);
            assert(len >= 2 ==> segment[1] == chars@[start + 1]);
            return Some(string_of(&chars, start, end));
        }
    }
}

// ---------------------------------------------------------------------------
// What holds of every text
// ---------------------------------------------------------------------------

/// The value of a number grows digit by digit, and its notation has no zero at the head but that
/// of zero itself. A minus sign stands before the notation of a negative number.
pub proof fn notation_is_positional(s: Seq<char>, c: char, n: nat)
    ensures
        decimal_value(Seq::empty()) == 0,
        decimal_value(s.push(c)) == 10 * decimal_value(s) + (c as int - '0' as int),
        n > 0 ==> decimal(n)[0] != '0',
        decimal(0) == seq!['0'],
        signed_decimal(n as int) == decimal(n),
        n > 0 ==> signed_decimal(-(n as int)) == seq!['-'] + decimal(n),
    decreases n,
{
    assert(s.push(c).drop_last() =~= s);
    if n >= 10 {
        notation_is_positional(s, c, n / 10);
        decimal_denotes_its_number(n / 10);
    }
}

/// A text reads as a number exactly where it is made of digits, at least one, with or without a
/// plus sign before them, and the number fits.
pub proof fn digits_are_read(digits: Seq<char>)
    requires
        digits.len() > 0,
        forall|i: int| 0 <= i < digits.len() ==> '0' <= #[trigger] digits[i] <= '9',
    ensures
        decimal_value(digits) <= u64::MAX ==> parsed_u64(digits) == Some(
            decimal_value(digits) as u64,
        ) && parsed_u64(seq!['+'] + digits) == Some(decimal_value(digits) as u64),
        decimal_value(digits) > u64::MAX ==> parsed_u64(digits) is None && parsed_u64(
            seq!['+'] + digits,
        ) is None,
{
    assert(digits[0] != '+');
    assert((seq!['+'] + digits).skip(1) =~= digits);
}

/// A text with anything but digits, a plus sign before them aside, reads as no number, nor does one
/// without digits.
pub proof fn other_text_is_not_read(text: Seq<char>, i: int)
    requires
        0 <= i < text.len(),
        !('0' <= text[i] <= '9'),
        i > 0 || text[0] != '+' || text.len() == 1,
    ensures
        parsed_u64(text) is None,
        parsed_u64(Seq::empty()) is None,
{
    if text[0] == '+' {
        if i > 0 {
            assert(!is_digit(text.skip(1)[i - 1]));
        }
    } else {
        assert(!is_digit(text[i]));
    }
}

/// White space around a text is removed, and nothing else.
pub proof fn white_space_around_is_removed(before: Seq<char>, text: Seq<char>, after: Seq<char>)
    requires
        forall|i: int| 0 <= i < before.len() ==> is_white_space(#[trigger] before[i]),
        forall|i: int| 0 <= i < after.len() ==> is_white_space(#[trigger] after[i]),
        text.len() > 0 ==> !is_white_space(text[0]) && !is_white_space(text.last()),
    ensures
        trimmed(before + text + after) == text,
    decreases before.len() + after.len(),
{
    let all = before + text + after;
    if before.len() > 0 {
        assert(all[0] == before[0]);
        assert(all.skip(1) =~= before.skip(1) + text + after);
        assert forall|i: int| 0 <= i < before.skip(1).len() implies is_white_space(
            #[trigger] before.skip(1)[i],
        ) by {
            assert(before.skip(1)[i] == before[i + 1]);
        }
        white_space_around_is_removed(before.skip(1), text, after);
    } else if text.len() == 0 {
        if after.len() > 0 {
            assert(all[0] == after[0]);
            assert(all =~= after);
            assert(all.skip(1) =~= before + text + after.skip(1));
            assert forall|i: int| 0 <= i < after.skip(1).len() implies is_white_space(
                #[trigger] after.skip(1)[i],
            ) by {
                assert(after.skip(1)[i] == after[i + 1]);
            }
            white_space_around_is_removed(before, text, after.skip(1));
        } else {
            assert(all =~= text);
        }
    } else {
        assert(all[0] == text[0]);
        if after.len() > 0 {
            assert(all.last() == after.last());
            assert(is_white_space(after[after.len() - 1]));
            let less = before + text + after.drop_last();
            assert(all.drop_last() =~= less);
            assert(less[0] == text[0]);
            assert forall|i: int| 0 <= i < after.drop_last().len() implies is_white_space(
                #[trigger] after.drop_last()[i],
            ) by {
                assert(after.drop_last()[i] == after[i]);
            }
            white_space_around_is_removed(before, text, after.drop_last());
        } else {
            assert(all =~= text);
        }
    }
}

/// White space are the characters that Unicode lists as such.
pub proof fn white_space_is_listed(c: char)
    ensures
        is_white_space(c) <==> c == '\t' || c == '\n' || c == '\u{b}' || c == '\u{c}' || c == '\r'
            || c == ' ' || c == '\u{85}' || c == '\u{a0}' || c == '\u{1680}' || '\u{2000}' <= c
            <= '\u{200a}' || c == '\u{2028}' || c == '\u{2029}' || c == '\u{202f}' || c
            == '\u{205f}' || c == '\u{3000}',
{
}

/// The name of a file is what follows the last slash of its path, wherever the file is.
pub proof fn file_name_follows_the_last_slash(directory: Seq<char>, name: Seq<char>)
    requires
        name.len() > 0,
        !name.contains('/'),
        name != seq!['.'],
        name != seq!['.', '.'],
    ensures
        file_name_of(name) == Some(name),
        file_name_of(directory + seq!['/'] + name) == Some(name),
{
    assert forall|j: int| 0 <= j < name.len() implies name[j] != '/' by {
        assert(name.contains(name[j]));
    }
    lemma_last_segment(name, 0);
    assert(name.skip(0) =~= name);
    let path = directory + seq!['/'] + name;
    let n = directory.len() as int;
    lemma_last_segment(path, n + 1);
    assert(path.skip(n + 1) =~= name);
}

/// Slashes and single dots at the end of a path do not matter.
pub proof fn end_of_path_does_not_matter(path: Seq<char>)
    ensures
        file_name_of(path.push('/')) == file_name_of(path),
        file_name_of(path + seq!['/', '.']) == file_name_of(path),
{
    let n = path.len() as int;
    lemma_last_segment(path.push('/'), n + 1);
    assert(path.push('/').take(n) =~= path);
    assert(path.push('/').skip(n + 1) =~= Seq::empty());
    let dotted = path + seq!['/', '.'];
    lemma_last_segment(dotted, n + 1);
    assert(dotted.skip(n + 1) =~= seq!['.']);
    assert(dotted.take(n) =~= path);
}

/// No file has the parent directory for its name, and no path without anything in it has a name.
pub proof fn parent_directory_is_no_file(directory: Seq<char>)
    ensures
        file_name_of(seq!['.', '.']) is None,
        file_name_of(directory + seq!['/', '.', '.']) is None,
        file_name_of(seq!['.']) is None,
        file_name_of(Seq::empty()) is None,
{
    let n = directory.len() as int;
    let up = seq!['.', '.'];
    lemma_last_segment(up, 0);
    assert(up.skip(0) =~= up);
    assert(up.len() == 2);
    let dot = seq!['.'];
    assert(dot.len() == 1);
    lemma_last_segment(dot, 0);
    assert(dot.skip(0) =~= dot);
    let path = directory + seq!['/', '.', '.'];
    lemma_last_segment(path, n + 1);
    assert(path.skip(n + 1) =~= up);
    lemma_last_segment(Seq::empty(), 0);
}

} // verus!
