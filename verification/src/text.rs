//! Text as sequences of characters: splitting paths into segments, reading
//! and writing decimal indices, and replacing one piece of text by another.

use crate::backend::push_char;
use vstd::prelude::*;

verus! {

/// The characters of `s`, in order.
pub fn chars_of(s: &str) -> (chars: Vec<char>)
    ensures
        chars@ == s@,
{
    let mut chars: Vec<char> = Vec::new();
    for c in it: s.chars()
        invariant
            chars@ == it.seq().take(it.index() as int),
            it.seq() == s@,
    {
        chars.push(c);
    }
    chars
}

/// The string that holds exactly `chars`.
pub fn string_of(chars: &Vec<char>) -> (s: String)
    ensures
        s@ == chars@,
{
    let mut s = String::new();
    let mut i: usize = 0;
    while i < chars.len()
        invariant
            i <= chars.len(),
            s@ == chars@.take(i as int),
        decreases chars.len() - i,
    {
        push_char(&mut s, chars[i]);
        i = i + 1;
    }
    s
}

/// Whether two texts hold the same characters.
pub fn same_chars(a: &Vec<char>, b: &Vec<char>) -> (same: bool)
    ensures
        same == (a@ == b@),
{
    if a.len() != b.len() {
        return false;
    }
    let mut i: usize = 0;
    while i < a.len()
        invariant
            i <= a.len(),
            a.len() == b.len(),
            forall|j: int| 0 <= j < i ==> a@[j] == b@[j],
        decreases a.len() - i,
    {
        if a[i] != b[i] {
            return false;
        }
        i = i + 1;
    }
    assert(a@ =~= b@);
    true
}

/// The contents of a list of strings.
pub open spec fn strings_of(strings: Seq<String>) -> Seq<Seq<char>> {
    strings.map_values(|s: String| s@)
}

/// A copy of a list of strings.
pub fn copy_strings(strings: &Vec<String>) -> (copies: Vec<String>)
    ensures
        strings_of(copies@) == strings_of(strings@),
{
    let mut copies: Vec<String> = Vec::new();
    let mut i: usize = 0;
    while i < strings.len()
        invariant
            i <= strings.len(),
            copies.len() == i,
            forall|j: int| 0 <= j < i ==> (#[trigger] copies@[j])@ == strings@[j]@,
        decreases strings.len() - i,
    {
        copies.push(strings[i].clone());
        i = i + 1;
    }
    copies
}

/// Whether two strings hold the same text.
pub fn same_text(a: &str, b: &str) -> (same: bool)
    ensures
        same == (a@ == b@),
{
    let x = a.as_bytes();
    let y = b.as_bytes();
    proof {
        vstd::utf8::encode_utf8_decode_utf8(a@);
        vstd::utf8::encode_utf8_decode_utf8(b@);
    }
    if x.len() != y.len() {
        return false;
    }
    let mut i: usize = 0;
    while i < x.len()
        invariant
            i <= x.len(),
            x.len() == y.len(),
            x@ == vstd::utf8::encode_utf8(a@),
            y@ == vstd::utf8::encode_utf8(b@),
            forall|j: int| 0 <= j < i ==> x@[j] == y@[j],
        decreases x.len() - i,
    {
        if x[i] != y[i] {
            return false;
        }
        i = i + 1;
    }
    assert(x@ =~= y@);
    true
}

/// What separates the pieces of a text.
#[derive(Debug, Clone, Copy, PartialEq, Eq, Structural)]
pub enum Separator {
    /// The `/` between the segments of a path.
    Slash,
    /// The line feed between lines.
    LineFeed,
    /// Any white space, as Unicode defines it, between words.
    WhiteSpace,
}

/// Whether `c` is white space: a character with the Unicode property
/// `White_Space`.
pub open spec fn is_white_space(c: char) -> bool {
    let code = c as u32;
    ||| 0x09 <= code <= 0x0D
    ||| code == 0x20
    ||| code == 0x85
    ||| code == 0xA0
    ||| code == 0x1680
    ||| 0x2000 <= code <= 0x200A
    ||| code == 0x2028
    ||| code == 0x2029
    ||| code == 0x202F
    ||| code == 0x205F
    ||| code == 0x3000
}

impl Separator {
    /// Whether `c` separates two pieces.
    pub open spec fn separates(self, c: char) -> bool {
        match self {
            Separator::Slash => c == '/',
            Separator::LineFeed => c == '\n',
            Separator::WhiteSpace => is_white_space(c),
        }
    }

    /// Whether `c` separates two pieces.
    pub fn is_separator(self, c: char) -> (found: bool)
        ensures
            found == self.separates(c),
    {
        match self {
            Separator::Slash => c == '/',
            Separator::LineFeed => c == '\n',
            Separator::WhiteSpace => {
                let code: u32 = c as u32;
                (0x09 <= code && code <= 0x0D) || code == 0x20 || code == 0x85 || code == 0xA0
                    || code == 0x1680 || (0x2000 <= code && code <= 0x200A) || code == 0x2028
                    || code == 0x2029 || code == 0x202F || code == 0x205F || code == 0x3000
            },
        }
    }
}

/// The length of the longest prefix of `text` that holds no separator.
pub open spec fn run_len(text: Seq<char>, sep: Separator) -> nat
    decreases text.len(),
{
    if text.len() == 0 || sep.separates(text[0]) {
        0
    } else {
        1 + run_len(text.skip(1), sep)
    }
}

/// The pieces of a text: the non-empty stretches between its separators, in
/// order. Empty stretches (before a leading, after a trailing or between two
/// adjacent separators) do not count.
pub open spec fn pieces(text: Seq<char>, sep: Separator) -> Seq<Seq<char>>
    decreases text.len(),
{
    if text.len() == 0 {
        Seq::empty()
    } else if sep.separates(text[0]) {
        pieces(text.skip(1), sep)
    } else {
        proof {
            lemma_run_len_bounds(text, sep);
        }
        seq![text.take(run_len(text, sep) as int)] + pieces(
            text.skip(run_len(text, sep) as int),
            sep,
        )
    }
}

/// The segments of a path: the non-empty pieces that its `/` separate.
pub open spec fn segments(path: Seq<char>) -> Seq<Seq<char>> {
    pieces(path, Separator::Slash)
}

/// The longest separator-free prefix is separator-free, and a separator or
/// the end of the text follows it.
pub proof fn lemma_run_len_bounds(text: Seq<char>, sep: Separator)
    ensures
        run_len(text, sep) <= text.len(),
        forall|i: int| 0 <= i < run_len(text, sep) ==> !sep.separates(text[i]),
        run_len(text, sep) < text.len() ==> sep.separates(text[run_len(text, sep) as int]),
    decreases text.len(),
{
    if text.len() == 0 || sep.separates(text[0]) {
    } else {
        lemma_run_len_bounds(text.skip(1), sep);
        assert forall|i: int| 0 <= i < run_len(text, sep) implies !sep.separates(text[i]) by {
            if i > 0 {
                assert(text.skip(1)[i - 1] == text[i]);
            }
        }
    }
}

/// A separator-free stretch that ends at a separator or at the end of the
/// text is the longest separator-free prefix.
pub proof fn lemma_run_len_is(text: Seq<char>, sep: Separator, n: int)
    requires
        0 <= n <= text.len(),
        forall|i: int| 0 <= i < n ==> !sep.separates(text[i]),
        n < text.len() ==> sep.separates(text[n]),
    ensures
        run_len(text, sep) == n,
{
    lemma_run_len_bounds(text, sep);
    let r = run_len(text, sep) as int;
    if r < n {
        assert(sep.separates(text[r]));
    }
    if n < r {
        assert(!sep.separates(text[n]));
    }
}

/// The contents of a list of texts.
pub open spec fn texts(parts: Seq<Vec<char>>) -> Seq<Seq<char>> {
    parts.map_values(|p: Vec<char>| p@)
}

/// Splits a text into its pieces.
pub fn split_pieces(text: &Vec<char>, sep: Separator) -> (parts: Vec<Vec<char>>)
    ensures
        texts(parts@) == pieces(text@, sep),
{
    let mut parts: Vec<Vec<char>> = Vec::new();
    let mut i: usize = 0;
    assert(text@.skip(0) == text@);
    while i < text.len()
        invariant
            i <= text.len(),
            pieces(text@, sep) == texts(parts@) + pieces(text@.skip(i as int), sep),
        decreases text.len() - i,
    {
        let ghost rest = text@.skip(i as int);
        if sep.is_separator(text[i]) {
            assert(rest.skip(1) == text@.skip(i + 1));
            i = i + 1;
        } else {
            let start = i;
            let mut piece: Vec<char> = Vec::new();
            while i < text.len() && !sep.is_separator(text[i])
                invariant
                    start <= i <= text.len(),
                    piece@ == text@.subrange(start as int, i as int),
                    forall|j: int| start <= j < i ==> !sep.separates(text@[j]),
                decreases text.len() - i,
            {
                piece.push(text[i]);
                i = i + 1;
            }
            proof {
                lemma_run_len_is(rest, sep, i - start);
                assert(rest.take(i - start) == piece@);
                assert(rest.skip(i - start) == text@.skip(i as int));
            }
            parts.push(piece);
        }
    }
    parts
}

/// Splits a path into its segments.
pub fn split_segments(path: &Vec<char>) -> (parts: Vec<Vec<char>>)
    ensures
        texts(parts@) == segments(path@),
{
    split_pieces(path, Separator::Slash)
}

/// Whether `c` is one of the digits `0` to `9`.
pub open spec fn is_digit(c: char) -> bool {
    '0' <= c <= '9'
}

/// The number that a digit stands for.
pub open spec fn digit_value(c: char) -> nat {
    (c as u32 - '0' as u32) as nat
}

/// The number that a run of digits stands for, read in base ten.
pub open spec fn digits_value(digits: Seq<char>) -> nat
    decreases digits.len(),
{
    if digits.len() == 0 {
        0
    } else {
        10 * digits_value(digits.drop_last()) + digit_value(digits.last())
    }
}

/// Whether `text` is one digit or more, and nothing else.
pub open spec fn all_digits(text: Seq<char>) -> bool {
    text.len() > 0 && forall|i: int| 0 <= i < text.len() ==> is_digit(#[trigger] text[i])
}

/// The array index that a path segment names: a run of decimal digits whose
/// value fits in a `usize`. Any other segment names none.
pub open spec fn index_value(text: Seq<char>) -> Option<nat> {
    if all_digits(text) && digits_value(text) <= usize::MAX {
        Some(digits_value(text))
    } else {
        None
    }
}

/// A run of digits stands for no less than any of its prefixes.
pub proof fn lemma_digits_value_grows(digits: Seq<char>, n: int)
    requires
        0 <= n <= digits.len(),
    ensures
        digits_value(digits.take(n)) <= digits_value(digits),
    decreases digits.len(),
{
    if n == digits.len() {
        assert(digits.take(n) == digits);
    } else {
        lemma_digits_value_grows(digits.drop_last(), n);
        assert(digits.drop_last().take(n) == digits.take(n));
    }
}

/// Reads a path segment as an array index.
pub fn parse_index(text: &Vec<char>) -> (index: Option<usize>)
    ensures
        match index {
            Some(n) => index_value(text@) == Some(n as nat),
            None => index_value(text@) is None,
        },
{
    if text.len() == 0 {
        return None;
    }
    let mut value: usize = 0;
    let mut i: usize = 0;
    while i < text.len()
        invariant
            i <= text.len(),
            text.len() > 0,
            forall|j: int| 0 <= j < i ==> is_digit(#[trigger] text@[j]),
            value == digits_value(text@.take(i as int)),
        decreases text.len() - i,
    {
        let c = text[i];
        if c < '0' || c > '9' {
            return None;
        }
        let d: usize = (c as u32 - '0' as u32) as usize;
        let ghost next = text@.take(i + 1);
        assert(next.drop_last() == text@.take(i as int));
        proof {
            lemma_digits_value_grows(text@, i + 1);
        }
        let tens = match value.checked_mul(10) {
            Some(t) => t,
            None => {
                return None;
            },
        };
        value = match tens.checked_add(d) {
            Some(v) => v,
            None => {
                return None;
            },
        };
        i = i + 1;
    }
    assert(text@.take(text.len() as int) == text@);
    Some(value)
}

/// The character that stands for a digit's value.
pub open spec fn digit_char(d: nat) -> char {
    ((d + 48) as u8) as char
}

/// A number written in base ten, without leading zeros.
pub open spec fn decimal(n: nat) -> Seq<char>
    decreases n,
{
    if n < 10 {
        seq![digit_char(n)]
    } else {
        decimal(n / 10).push(digit_char(n % 10))
    }
}

/// A number written in base ten is a run of digits that stands for it.
pub proof fn lemma_decimal_digits(n: nat)
    ensures
        all_digits(decimal(n)),
        digits_value(decimal(n)) == n,
    decreases n,
{
    let last = digit_char(n % 10);
    assert(is_digit(last) && digit_value(last) == n % 10);
    if n < 10 {
        assert(decimal(n).drop_last() =~= Seq::<char>::empty());
        assert(digits_value(decimal(n).drop_last()) == 0);
    } else {
        lemma_decimal_digits(n / 10);
        assert(decimal(n).drop_last() =~= decimal(n / 10));
        assert forall|i: int| 0 <= i < decimal(n).len() implies is_digit(
            #[trigger] decimal(n)[i],
        ) by {
            if i < decimal(n / 10).len() {
                assert(decimal(n)[i] == decimal(n / 10)[i]);
            }
        }
    }
}

fn digit_of(d: usize) -> (c: char)
    requires
        d < 10,
    ensures
        c == digit_char(d as nat),
        is_digit(c),
        digit_value(c) == d,
{
    let code: u8 = d as u8 + 48u8;
    code as char
}

/// Writes an index in base ten.
pub fn decimal_of(n: usize) -> (text: Vec<char>)
    ensures
        text@ == decimal(n as nat),
    decreases n,
{
    if n < 10 {
        let mut text: Vec<char> = Vec::new();
        text.push(digit_of(n));
        text
    } else {
        let mut text = decimal_of(n / 10);
        text.push(digit_of(n % 10));
        text
    }
}

/// Whether `text` begins with `prefix`.
pub open spec fn starts_with(text: Seq<char>, prefix: Seq<char>) -> bool {
    prefix.len() <= text.len() && text.take(prefix.len() as int) == prefix
}

/// `text` with every occurrence of `from` replaced by `to`. Occurrences are
/// found from left to right and do not overlap; an empty `from` occurs nowhere.
pub open spec fn replaced(text: Seq<char>, from: Seq<char>, to: Seq<char>) -> Seq<char>
    decreases text.len(),
{
    if text.len() == 0 || from.len() == 0 {
        text
    } else if starts_with(text, from) {
        to + replaced(text.skip(from.len() as int), from, to)
    } else {
        seq![text[0]] + replaced(text.skip(1), from, to)
    }
}

/// Whether `prefix` stands in `text` at position `at`.
pub fn starts_at(text: &Vec<char>, at: usize, prefix: &Vec<char>) -> (found: bool)
    requires
        at <= text.len(),
    ensures
        found == starts_with(text@.skip(at as int), prefix@),
{
    if prefix.len() > text.len() - at {
        return false;
    }
    let ghost rest = text@.skip(at as int);
    let mut i: usize = 0;
    while i < prefix.len()
        invariant
            i <= prefix.len(),
            at + prefix.len() <= text.len(),
            rest == text@.skip(at as int),
            forall|j: int| 0 <= j < i ==> rest[j] == prefix@[j],
        decreases prefix.len() - i,
    {
        if text[at + i] != prefix[i] {
            return false;
        }
        i = i + 1;
    }
    assert(rest.take(prefix.len() as int) =~= prefix@);
    true
}

/// Whether `text` ends with `suffix`.
pub open spec fn ends_with(text: Seq<char>, suffix: Seq<char>) -> bool {
    suffix.len() <= text.len() && text.skip(text.len() - suffix.len()) == suffix
}

/// Whether `text` ends with `suffix`.
pub fn ends_in(text: &Vec<char>, suffix: &Vec<char>) -> (found: bool)
    ensures
        found == ends_with(text@, suffix@),
{
    if suffix.len() > text.len() {
        return false;
    }
    let at = text.len() - suffix.len();
    assert(text@.skip(at as int).take(suffix.len() as int) == text@.skip(at as int));
    starts_at(text, at, suffix)
}

/// Appends `more` to `text`.
pub fn append_chars(text: &mut Vec<char>, more: &Vec<char>)
    ensures
        final(text)@ == old(text)@ + more@,
{
    let mut i: usize = 0;
    while i < more.len()
        invariant
            i <= more.len(),
            text@ == old(text)@ + more@.take(i as int),
        decreases more.len() - i,
    {
        text.push(more[i]);
        i = i + 1;
    }
}

/// Replaces every occurrence of `from` in `text` by `to`.
pub fn replace_all(text: &Vec<char>, from: &Vec<char>, to: &Vec<char>) -> (out: Vec<char>)
    ensures
        out@ == replaced(text@, from@, to@),
{
    let mut out: Vec<char> = Vec::new();
    let mut i: usize = 0;
    assert(text@.skip(0) == text@);
    while i < text.len()
        invariant
            i <= text.len(),
            replaced(text@, from@, to@) == out@ + replaced(text@.skip(i as int), from@, to@),
        decreases text.len() - i,
    {
        let ghost rest = text@.skip(i as int);
        if from.len() > 0 && starts_at(text, i, from) {
            assert(rest.skip(from.len() as int) == text@.skip(i + from.len()));
            append_chars(&mut out, to);
            i = i + from.len();
        } else {
            if from.len() > 0 {
                assert(rest.skip(1) == text@.skip(i + 1));
            }
            out.push(text[i]);
            i = i + 1;
        }
    }
    out
}

} // verus!
