//! Three-way comparison: the order of two sizes, of two texts and of two
//! symbols under a sort key and direction.

use std::cmp::Ordering;
use vstd::prelude::*;
use crate::cli::{SortKey, SortOrder};
use crate::model::{Symbol, SymbolView};
use crate::numbers::{hex_size, spec_hex_size};
use crate::text::{lemma_lex_order, lex_compare, text_order};

verus! {

/// -1, 0 or 1 for less, equal or greater.
pub open spec fn sign_of(o: Ordering) -> int {
    match o {
        Ordering::Less => -1,
        Ordering::Equal => 0,
        Ordering::Greater => 1,
    }
}

/// The order of two numbers: -1, 0 or 1.
pub open spec fn three_way(a: u64, b: u64) -> int {
    if a < b {
        -1
    } else if a == b {
        0
    } else {
        1
    }
}

/// The order of two symbols: by the size that their size text writes, by
/// name, or by the text of the file index; reversed for a descending sort.
pub open spec fn symbol_order(a: SymbolView, b: SymbolView, key: SortKey, order: SortOrder)
    -> int {
    let ascending = match key {
        SortKey::Size => three_way(spec_hex_size(a.size), spec_hex_size(b.size)),
        SortKey::Name => lex_compare(a.name, b.name),
        SortKey::Path => lex_compare(a.file_index, b.file_index),
    };
    match order {
        SortOrder::Asc => ascending,
        SortOrder::Desc => -ascending,
    }
}

/// The order of symbols is a total order up to ties: a symbol is level
/// with itself, two symbols compare one way as the opposite of the other
/// way, and what is not after something that is not after a third is not
/// after the third.
pub proof fn lemma_symbol_order(
    a: SymbolView,
    b: SymbolView,
    c: SymbolView,
    key: SortKey,
    order: SortOrder,
)
    ensures
        symbol_order(a, a, key, order) == 0,
        symbol_order(a, b, key, order) == -symbol_order(b, a, key, order),
        symbol_order(a, b, key, order) <= 0 && symbol_order(b, c, key, order) <= 0
            ==> symbol_order(a, c, key, order) <= 0,
{
    lemma_lex_order(a.name, b.name, c.name);
    lemma_lex_order(b.name, c.name, a.name);
    lemma_lex_order(c.name, b.name, a.name);
    lemma_lex_order(a.name, c.name, b.name);
    lemma_lex_order(a.file_index, b.file_index, c.file_index);
    lemma_lex_order(b.file_index, c.file_index, a.file_index);
    lemma_lex_order(c.file_index, b.file_index, a.file_index);
    lemma_lex_order(a.file_index, c.file_index, b.file_index);
}

/// The order of two numbers.
pub fn compare_u64(a: u64, b: u64) -> (o: Ordering)
    ensures
        sign_of(o) == three_way(a, b),
{
    if a < b {
        Ordering::Less
    } else if a == b {
        Ordering::Equal
    } else {
        Ordering::Greater
    }
}

/// The lexicographic order of two texts.
pub fn compare_text(a: &str, b: &str) -> (o: Ordering)
    ensures
        sign_of(o) == lex_compare(a@, b@),
{
    let sign = text_order(a, b);
    if sign < 0 {
        Ordering::Less
    } else if sign == 0 {
        Ordering::Equal
    } else {
        Ordering::Greater
    }
}

/// The order that a sign stands for: negative, zero or positive.
pub fn from_sign(sign: i8) -> (o: Ordering)
    requires
        -1 <= sign <= 1,
    ensures
        sign_of(o) == sign,
{
    if sign < 0 {
        Ordering::Less
    } else if sign == 0 {
        Ordering::Equal
    } else {
        Ordering::Greater
    }
}

/// The opposite order.
pub fn reversed(o: Ordering) -> (r: Ordering)
    ensures
        sign_of(r) == -sign_of(o),
{
    match o {
        Ordering::Less => Ordering::Greater,
        Ordering::Equal => Ordering::Equal,
        Ordering::Greater => Ordering::Less,
    }
}

/// The order of two sizes written in hexadecimal. A text that writes no
/// size counts as 0.
pub fn compare_hex_size(a: &str, b: &str) -> (o: Ordering)
    ensures
        sign_of(o) == three_way(spec_hex_size(a@), spec_hex_size(b@)),
{
    compare_u64(hex_size(a), hex_size(b))
}

/// The order of two symbols under a sort key and direction.
pub fn compare_symbols(a: &Symbol, b: &Symbol, key: SortKey, order: SortOrder) -> (o: Ordering)
    ensures
        sign_of(o) == symbol_order(a@, b@, key, order),
{
    let ascending = match key {
        SortKey::Size => compare_hex_size(a.size.as_str(), b.size.as_str()),
        SortKey::Name => compare_text(a.name.as_str(), b.name.as_str()),
        SortKey::Path => compare_text(a.file_index.as_str(), b.file_index.as_str()),
    };
    match order {
        SortOrder::Asc => ascending,
        SortOrder::Desc => reversed(ascending),
    }
}

} // verus!
