//! Text for the terminal browser: block titles, sizes in hexadecimal, and
//! paths cut to a width.

use vstd::prelude::*;
use crate::sorting::SortDirection;
use crate::sections::Bucket;
use crate::text::{push_chars, to_chars};

verus! {

/// How sizes are shown.
#[derive(Debug, Clone, Copy, PartialEq, Eq, Structural)]
pub enum DisplayUnits {
    Human,
    Hex,
}

/// The title of the objects block.
pub fn objects_block_title() -> (title: &'static str)
    ensures
        title@ == " OBJECTS "@,
{
    " OBJECTS "
}

/// The title of the symbols block.
pub fn symbols_block_title() -> (title: &'static str)
    ensures
        title@ == " SYMBOLS "@,
{
    " SYMBOLS "
}

/// The upper-case hex digit for `d`.
pub open spec fn upper_hex_digit(d: int) -> char {
    if d < 10 {
        ('0' as int + d) as char
    } else {
        ('A' as int + d - 10) as char
    }
}

/// The upper-case hex digits of `n`, without leading zeros; `0` for zero.
pub open spec fn upper_hex(n: nat) -> Seq<char>
    decreases n,
{
    if n < 16 {
        seq![upper_hex_digit(n as int)]
    } else {
        upper_hex(n / 16).push(upper_hex_digit((n % 16) as int))
    }
}

/// `size` in hexadecimal: `0x` and the upper-case digits without leading
/// zeros.
pub fn format_hex(size: u64) -> (s: String)
    ensures
        s@ == seq!['0', 'x'] + upper_hex(size as nat),
{
    let mut digits: Vec<char> = Vec::new();
    let mut rest: u64 = size;
    // The digits from the least significant on.
    loop
        invariant_except_break
            upper_hex(size as nat) == upper_hex(rest as nat) + digits@.reverse(),
        ensures
            upper_hex(size as nat) == digits@.reverse(),
        decreases rest,
    {
        let d = (rest % 16) as u8;
        let c = if d < 10 {
            (48u8 + d) as char
        } else {
            (65u8 + (d - 10)) as char
        };
        assert(c == upper_hex_digit((rest % 16) as int));
        let ghost before = digits@;
        digits.push(c);
        assert(digits@.reverse() =~= seq![c] + before.reverse());
        if rest < 16 {
            assert(upper_hex(rest as nat) =~= seq![c]);
            assert(upper_hex(size as nat) =~= digits@.reverse());
            break;
        }
        assert(upper_hex(rest as nat) + before.reverse() =~= upper_hex((rest / 16) as nat)
            + digits@.reverse());
        rest = rest / 16;
    }
    let mut s = String::new();
    s.push('0');
    s.push('x');
    let mut i: usize = digits.len();
    assert(digits@.reverse().take(0) =~= Seq::<char>::empty());
    while i > 0
        invariant
            i <= digits@.len(),
            s@ == seq!['0', 'x'] + digits@.reverse().take(digits@.len() - i),
        decreases i,
    {
        i -= 1;
        s.push(digits[i]);
        assert(s@ =~= seq!['0', 'x'] + digits@.reverse().take(digits@.len() - i));
    }
    assert(digits@.reverse().take(digits@.len() as int) =~= digits@.reverse());
    s
}

/// `2 * a / 5`, rounded down.
pub open spec fn two_fifths(a: int) -> int {
    a / 5 * 2 + (a % 5) * 2 / 5
}

/// A path cut to at most `max` characters: the path itself where it fits;
/// `...` where `max` is under 3; else the start of the path, `...` and its
/// end, the start taking two fifths of what `...` leaves and the end the
/// rest.
pub open spec fn truncated(path: Seq<char>, max: int) -> Seq<char> {
    if path.len() <= max {
        path
    } else if max < 3 {
        seq!['.', '.', '.']
    } else {
        let start_len = two_fifths(max - 3);
        let end_len = max - 3 - start_len;
        path.subrange(0, start_len) + seq!['.', '.', '.'] + path.subrange(
            path.len() - end_len,
            path.len() as int,
        )
    }
}

/// Cuts `path` to at most `max` characters, keeping its start and its end.
pub fn truncate_path(path: &str, max: usize) -> (s: String)
    ensures
        s@ == truncated(path@, max as int),
        max >= 3 ==> s@.len() <= max,
{
    let chars = to_chars(path);
    let n = chars.len();
    if n <= max {
        return path.to_owned();
    }
    let mut s = String::new();
    if max < 3 {
        s.push('.');
        s.push('.');
        s.push('.');
        assert(s@ =~= seq!['.', '.', '.']);
        return s;
    }
    let available = max - 3;
    let start_len = available / 5 * 2 + (available % 5) * 2 / 5;
    let end_len = available - start_len;
    push_chars(&mut s, chars.as_slice(), 0, start_len);
    s.push('.');
    s.push('.');
    s.push('.');
    push_chars(&mut s, chars.as_slice(), n - end_len, n);
    assert(s@ =~= truncated(path@, max as int));
    s
}

/// The smaller of two numbers.
pub open spec fn least(a: int, b: int) -> int {
    if a <= b {
        a
    } else {
        b
    }
}

/// The rows of a list of `count` rows that a window of `rows` rows at
/// `offset` shows: from the first of the two positions up to the second.
pub fn visible_range(offset: usize, rows: usize, count: usize) -> (range: (usize, usize))
    ensures
        range.0 == least(offset as int, count as int),
        range.1 == least(offset + rows, count as int),
        range.0 <= range.1 <= count,
{
    if offset >= count {
        (count, count)
    } else if rows >= count - offset {
        (offset, count)
    } else {
        (offset, offset + rows)
    }
}

/// The name of a category as the symbol table shows it.
pub fn bucket_label(bucket: Bucket) -> (label: &'static str)
    ensures
        label@ == (match bucket {
            Bucket::Text => "TEXT"@,
            Bucket::Data => "DATA"@,
            Bucket::Bss => "BSS"@,
            Bucket::Other => "OTHER"@,
        }),
{
    match bucket {
        Bucket::Text => "TEXT",
        Bucket::Data => "DATA",
        Bucket::Bss => "BSS",
        Bucket::Other => "OTHER",
    }
}

/// The name of the units as the status line shows it.
pub fn units_label(units: DisplayUnits) -> (label: &'static str)
    ensures
        label@ == (match units {
            DisplayUnits::Human => "human"@,
            DisplayUnits::Hex => "hex"@,
        }),
{
    match units {
        DisplayUnits::Human => "human",
        DisplayUnits::Hex => "hex",
    }
}

/// The mark of a sort direction in a column title.
pub open spec fn arrow(direction: SortDirection) -> Seq<char> {
    match direction {
        SortDirection::Ascending => " \u{2191}"@,
        SortDirection::Descending => " \u{2193}"@,
    }
}

/// The title of a column: its name, followed by the mark of the sort
/// direction where the list is sorted by this column.
pub fn column_label(base: &str, active: bool, direction: SortDirection) -> (label: String)
    ensures
        label@ == (if active {
            base@ + arrow(direction)
        } else {
            base@
        }),
{
    let mut label = base.to_owned();
    if active {
        let mark = match direction {
            SortDirection::Ascending => to_chars(" \u{2191}"),
            SortDirection::Descending => to_chars(" \u{2193}"),
        };
        push_chars(&mut label, mark.as_slice(), 0, mark.len());
        assert(mark@.subrange(0, mark@.len() as int) =~= mark@);
    }
    label
}

/// `count` zeros.
pub open spec fn zeros(count: int) -> Seq<char> {
    Seq::new(
        if count > 0 {
            count as nat
        } else {
            0
        },
        |i: int| '0',
    )
}

/// `address` as the symbol table shows it: `0x` and the upper-case hex
/// digits, with leading zeros up to eight digits.
pub fn format_address(address: u64) -> (s: String)
    ensures
        s@ == seq!['0', 'x'] + zeros(8 - upper_hex(address as nat).len()) + upper_hex(
            address as nat,
        ),
{
    let digits = to_chars(format_hex(address).as_str());
    let n = digits.len();
    assert(digits@.subrange(2, n as int) =~= upper_hex(address as nat));
    let mut s = String::new();
    s.push('0');
    s.push('x');
    let mut k: usize = n - 2;
    assert(zeros(0) =~= Seq::<char>::empty());
    assert(s@ =~= seq!['0', 'x'] + zeros(0));
    while k < 8
        invariant
            n - 2 <= k,
            k <= 8 || k == n - 2,
            n == digits@.len(),
            s@ == seq!['0', 'x'] + zeros(k - (n - 2)),
        decreases 8 - k,
    {
        s.push('0');
        k += 1;
        assert(s@ =~= seq!['0', 'x'] + zeros(k - (n - 2)));
    }
    assert(zeros(k - (n - 2)) =~= zeros(8 - (n - 2)));
    push_chars(&mut s, digits.as_slice(), 2, n);
    s
}

} // verus!
