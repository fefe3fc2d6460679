//! Lexical primitives of the map-file grammar: a cursor over the characters
//! of a text, and recognizers for runs of a character class, line endings,
//! literals, `0x` hexadecimal literals, bracketed decimal indices and the
//! rest of a line.
//!
//! Every recognizer is specified by a function of the text and a position.
//! A recognizer that fails leaves the cursor where it was.

use vstd::prelude::*;
use crate::text::{string_of, to_chars};

verus! {

/// A text and a position in it. The position is at most the length of the
/// text; at the length, the input is exhausted.
#[derive(Debug)]
pub struct Input {
    pub chars: Vec<char>,
    pub pos: usize,
}

/// The character classes that the grammar scans runs of.
#[derive(Debug, Clone, Copy, PartialEq, Eq)]
pub enum CharClass {
    /// Space, tab, carriage return, line feed.
    Space,
    /// `0` to `9`.
    Digit,
    /// `0` to `9`, `a` to `f`, `A` to `F`.
    HexDigit,
    /// ASCII letters, digits and `_`.
    Word,
    /// Anything but carriage return and line feed.
    Inline,
}

/// Whether `c` is a decimal digit.
pub open spec fn is_digit(c: char) -> bool {
    '0' <= c <= '9'
}

/// Whether `c` is a hexadecimal digit, in either case.
pub open spec fn is_hex_digit(c: char) -> bool {
    is_digit(c) || 'a' <= c <= 'f' || 'A' <= c <= 'F'
}

/// Whether `c` is an ASCII letter, a digit or `_`.
pub open spec fn is_word(c: char) -> bool {
    is_digit(c) || 'a' <= c <= 'z' || 'A' <= c <= 'Z' || c == '_'
}

/// Whether `c` is whitespace: space, tab, carriage return or line feed.
pub open spec fn is_space(c: char) -> bool {
    c == ' ' || c == '\t' || c == '\r' || c == '\n'
}

/// Whether `c` belongs to `class`.
pub open spec fn in_class(class: CharClass, c: char) -> bool {
    match class {
        CharClass::Space => is_space(c),
        CharClass::Digit => is_digit(c),
        CharClass::HexDigit => is_hex_digit(c),
        CharClass::Word => is_word(c),
        CharClass::Inline => c != '\r' && c != '\n',
    }
}

/// The end of the longest run of characters of `class` that starts at `i`:
/// `i` itself where the input is exhausted or `s[i]` is not of the class.
pub open spec fn run_end(s: Seq<char>, i: int, class: CharClass) -> int
    decreases s.len() - i,
{
    if 0 <= i < s.len() && in_class(class, s[i]) {
        run_end(s, i + 1, class)
    } else {
        i
    }
}

/// `run_end` is the first position from `i` on that is past the text or
/// holds a character outside the class.
pub proof fn lemma_run_end(s: Seq<char>, i: int, class: CharClass)
    requires
        0 <= i,
    ensures
        i <= run_end(s, i, class),
        i <= s.len() ==> run_end(s, i, class) <= s.len(),
        forall|j: int| i <= j < run_end(s, i, class) ==> in_class(class, #[trigger] s[j]),
        run_end(s, i, class) < s.len() ==> !in_class(class, s[run_end(s, i, class)]),
    decreases s.len() - i,
{
    if i < s.len() && in_class(class, s[i]) {
        lemma_run_end(s, i + 1, class);
    }
}

/// Whether `lit` stands in `s` at position `i`.
pub open spec fn has_literal(s: Seq<char>, i: int, lit: Seq<char>) -> bool {
    0 <= i && i + lit.len() <= s.len() && s.subrange(i, i + lit.len()) == lit
}

/// The position after a line ending (`\n` or `\r\n`) at `i`, if one is there.
pub open spec fn line_ending_end(s: Seq<char>, i: int) -> Option<int> {
    if 0 <= i < s.len() && s[i] == '\n' {
        Some(i + 1)
    } else if 0 <= i && i + 1 < s.len() && s[i] == '\r' && s[i + 1] == '\n' {
        Some(i + 2)
    } else {
        None
    }
}

/// The position after an optional line ending at `i`.
pub open spec fn skip_line_ending(s: Seq<char>, i: int) -> int {
    match line_ending_end(s, i) {
        Some(e) => e,
        None => i,
    }
}

/// The end of the rest of the line that starts at `i`: the position of the
/// next line ending or the end of the text. A carriage return that no line
/// feed follows is neither: the rest of such a line is not recognized.
pub open spec fn rest_of_line_end(s: Seq<char>, i: int) -> Option<int> {
    let e = run_end(s, i, CharClass::Inline);
    if 0 <= e < s.len() && s[e] == '\r' && line_ending_end(s, e) is None {
        None
    } else {
        Some(e)
    }
}

/// The end of a hexadecimal literal at `i`: `0x` and at least one hex digit.
pub open spec fn hex_value_end(s: Seq<char>, i: int) -> Option<int> {
    if 0 <= i && i + 2 <= s.len() && s[i] == '0' && s[i + 1] == 'x' && run_end(
        s,
        i + 2,
        CharClass::HexDigit,
    ) > i + 2 {
        Some(run_end(s, i + 2, CharClass::HexDigit))
    } else {
        None
    }
}

/// A bracketed index at `i`: `[`, optional whitespace, at least one decimal
/// digit, `]`. The result is where the digits start and where they end; the
/// closing bracket stands at their end.
pub open spec fn bracketed_digits(s: Seq<char>, i: int) -> Option<(int, int)> {
    if 0 <= i < s.len() && s[i] == '[' {
        let d0 = run_end(s, i + 1, CharClass::Space);
        let d1 = run_end(s, d0, CharClass::Digit);
        if d1 > d0 && d1 < s.len() && s[d1] == ']' {
            Some((d0, d1))
        } else {
            None
        }
    } else {
        None
    }
}

/// The end of an identifier at `i`: `__` and at least one word character.
pub open spec fn identifier_end(s: Seq<char>, i: int) -> Option<int> {
    if 0 <= i && i + 2 <= s.len() && s[i] == '_' && s[i + 1] == '_' && run_end(
        s,
        i + 2,
        CharClass::Word,
    ) > i + 2 {
        Some(run_end(s, i + 2, CharClass::Word))
    } else {
        None
    }
}

/// Whether `c` belongs to `class`.
pub fn char_in_class(class: CharClass, c: char) -> (b: bool)
    ensures
        b == in_class(class, c),
{
    match class {
        CharClass::Space => c == ' ' || c == '\t' || c == '\r' || c == '\n',
        CharClass::Digit => '0' <= c && c <= '9',
        CharClass::HexDigit => ('0' <= c && c <= '9') || ('a' <= c && c <= 'f') || ('A' <= c && c
            <= 'F'),
        CharClass::Word => ('0' <= c && c <= '9') || ('a' <= c && c <= 'z') || ('A' <= c && c
            <= 'Z') || c == '_',
        CharClass::Inline => c != '\r' && c != '\n',
    }
}

/// The end of the run of `class` that starts at `pos`.
pub fn scan(chars: &[char], pos: usize, class: CharClass) -> (end: usize)
    requires
        pos <= chars@.len(),
    ensures
        end == run_end(chars@, pos as int, class),
        pos <= end <= chars@.len(),
{
    let mut end: usize = pos;
    while end < chars.len() && char_in_class(class, chars[end])
        invariant
            pos <= end <= chars@.len(),
            run_end(chars@, pos as int, class) == run_end(chars@, end as int, class),
        decreases chars@.len() - end,
    {
        end += 1;
    }
    end
}

/// The position after `lit` where it stands in `chars` at `pos`.
pub fn literal_end(chars: &[char], pos: usize, lit: &str) -> (r: Option<usize>)
    requires
        pos <= chars@.len(),
    ensures
        r.is_some() == has_literal(chars@, pos as int, lit@),
        r.is_some() ==> r.unwrap() == pos + lit@.len(),
{
    let lit_chars = to_chars(lit);
    let n = lit_chars.len();
    let total = chars.len();
    if n > total - pos {
        return None;
    }
    let mut k: usize = 0;
    while k < n
        invariant
            n == lit_chars@.len(),
            total == chars@.len(),
            lit_chars@ == lit@,
            pos + n <= total,
            k <= n,
            forall|j: int| 0 <= j < k ==> chars@[pos + j] == lit_chars@[j],
        decreases n - k,
    {
        if chars[pos + k] != lit_chars[k] {
            assert(chars@.subrange(pos as int, pos + n)[k as int] != lit@[k as int]);
            return None;
        }
        k += 1;
    }
    assert(chars@.subrange(pos as int, pos + n) =~= lit@);
    Some(pos + n)
}

impl Input {
    /// The whole text.
    pub open spec fn text(self) -> Seq<char> {
        self.chars@
    }

    /// The cursor is within the text or at its end.
    pub open spec fn wf(self) -> bool {
        self.pos <= self.chars@.len()
    }

    /// What is left of the text from the cursor on.
    pub open spec fn rest(self) -> Seq<char> {
        self.chars@.subrange(self.pos as int, self.chars@.len() as int)
    }

    /// A cursor at the start of `text`.
    pub fn new(text: &str) -> (input: Input)
        ensures
            input.wf(),
            input.text() == text@,
            input.pos == 0,
    {
        Input { chars: to_chars(text), pos: 0 }
    }

    /// The text from the cursor on.
    pub fn remaining(&self) -> (s: String)
        requires
            self.wf(),
        ensures
            s@ == self.rest(),
    {
        string_of(self.chars.as_slice(), self.pos, self.chars.len())
    }

    /// Skips `lit` if the text from the cursor on starts with it.
    pub fn literal(&mut self, lit: &str) -> (found: bool)
        requires
            old(self).wf(),
        ensures
            final(self).wf(),
            final(self).text() == old(self).text(),
            found == has_literal(old(self).text(), old(self).pos as int, lit@),
            found ==> final(self).pos == old(self).pos + lit@.len(),
            !found ==> final(self).pos == old(self).pos,
    {
        match literal_end(self.chars.as_slice(), self.pos, lit) {
            Some(end) => {
                self.pos = end;
                true
            },
            None => false,
        }
    }

    /// Skips the run of `class` at the cursor and returns where it ended.
    pub fn skip_run(&mut self, class: CharClass) -> (end: usize)
        requires
            old(self).wf(),
        ensures
            final(self).wf(),
            final(self).text() == old(self).text(),
            final(self).pos == end,
            end == run_end(old(self).text(), old(self).pos as int, class),
    {
        let end = scan(self.chars.as_slice(), self.pos, class);
        self.pos = end;
        end
    }

    /// The string made of the characters from `from` up to `to`.
    pub fn slice(&self, from: usize, to: usize) -> (s: String)
        requires
            from <= to <= self.text().len(),
        ensures
            s@ == self.text().subrange(from as int, to as int),
    {
        string_of(self.chars.as_slice(), from, to)
    }
}

/// Skips whitespace: spaces, tabs, carriage returns and line feeds. Never
/// fails.
pub fn spaces(input: &mut Input)
    requires
        old(input).wf(),
    ensures
        final(input).wf(),
        final(input).text() == old(input).text(),
        final(input).pos == run_end(old(input).text(), old(input).pos as int, CharClass::Space),
{
    input.skip_run(CharClass::Space);
}

/// Skips one line ending, `\n` or `\r\n`, if one stands at the cursor.
pub fn line_ending(input: &mut Input) -> (found: bool)
    requires
        old(input).wf(),
    ensures
        final(input).wf(),
        final(input).text() == old(input).text(),
        found == line_ending_end(old(input).text(), old(input).pos as int).is_some(),
        final(input).pos == skip_line_ending(old(input).text(), old(input).pos as int),
{
    let n = input.chars.len();
    let p = input.pos;
    if p < n && input.chars[p] == '\n' {
        input.pos = p + 1;
        true
    } else if p < n && n - p >= 2 && input.chars[p] == '\r' && input.chars[p + 1] == '\n' {
        input.pos = p + 2;
        true
    } else {
        false
    }
}

/// What a recognizer of one token does to the cursor: where the token ends
/// at `end`, the cursor moves there and the token is the text in between;
/// where there is none, the cursor stays.
pub open spec fn token_taken(before: Input, after: Input, token: Option<String>, end: Option<int>)
    -> bool {
    &&& after.wf()
    &&& after.text() == before.text()
    &&& match end {
        Some(e) => token.is_some() && after.pos == e && token.unwrap()@
            == before.text().subrange(before.pos as int, e),
        None => token.is_none() && after.pos == before.pos,
    }
}

/// The rest of the line: everything up to, not including, the next line
/// ending or the end of the text. Fails at a carriage return that no line
/// feed follows.
pub fn rest_of_line(input: &mut Input) -> (r: Option<String>)
    requires
        old(input).wf(),
    ensures
        token_taken(
            *old(input),
            *final(input),
            r,
            rest_of_line_end(old(input).text(), old(input).pos as int),
        ),
{
    let start = input.pos;
    let n = input.chars.len();
    let e = scan(input.chars.as_slice(), start, CharClass::Inline);
    if e < n && input.chars[e] == '\r' && !(n - e >= 2 && input.chars[e + 1] == '\n') {
        return None;
    }
    input.pos = e;
    Some(input.slice(start, e))
}

/// A hexadecimal literal: `0x` and one or more hex digits. The token is the
/// literal as written, prefix included.
pub fn hex_value(input: &mut Input) -> (r: Option<String>)
    requires
        old(input).wf(),
    ensures
        token_taken(
            *old(input),
            *final(input),
            r,
            hex_value_end(old(input).text(), old(input).pos as int),
        ),
{
    let start = input.pos;
    let n = input.chars.len();
    if n - start < 2 || input.chars[start] != '0' || input.chars[start + 1] != 'x' {
        return None;
    }
    let e = scan(input.chars.as_slice(), start + 2, CharClass::HexDigit);
    if e == start + 2 {
        return None;
    }
    input.pos = e;
    Some(input.slice(start, e))
}

/// An identifier of a segment or a section: `__` and one or more letters,
/// digits or underscores. The token is the identifier as written.
pub fn parse_segment_or_section(input: &mut Input) -> (r: Option<String>)
    requires
        old(input).wf(),
    ensures
        token_taken(
            *old(input),
            *final(input),
            r,
            identifier_end(old(input).text(), old(input).pos as int),
        ),
{
    let start = input.pos;
    let n = input.chars.len();
    if n - start < 2 || input.chars[start] != '_' || input.chars[start + 1] != '_' {
        return None;
    }
    let e = scan(input.chars.as_slice(), start + 2, CharClass::Word);
    if e == start + 2 {
        return None;
    }
    input.pos = e;
    Some(input.slice(start, e))
}

/// A bracketed index: `[`, optional whitespace, one or more decimal digits,
/// `]`. The result is the digits as written; the cursor moves past the
/// closing bracket.
pub fn bracketed_index(input: &mut Input) -> (r: Option<String>)
    requires
        old(input).wf(),
    ensures
        final(input).wf(),
        final(input).text() == old(input).text(),
        match bracketed_digits(old(input).text(), old(input).pos as int) {
            Some((d0, d1)) => {
                &&& r.is_some()
                &&& final(input).pos == d1 + 1
                &&& r.unwrap()@ == old(input).text().subrange(d0, d1)
            },
            None => r.is_none() && final(input).pos == old(input).pos,
        },
{
    let start = input.pos;
    let n = input.chars.len();
    if start >= n || input.chars[start] != '[' {
        return None;
    }
    let d0 = scan(input.chars.as_slice(), start + 1, CharClass::Space);
    let d1 = scan(input.chars.as_slice(), d0, CharClass::Digit);
    if d1 == d0 || d1 >= n || input.chars[d1] != ']' {
        return None;
    }
    input.pos = d1 + 1;
    Some(input.slice(d0, d1))
}

} // verus!
