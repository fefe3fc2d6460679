//! Stable sorting of rows by a key: the order of keys, what it means for
//! row indices to be stably ordered, and the sort itself.

use std::cmp::Ordering;
use vstd::prelude::*;
use crate::order::{from_sign, sign_of, three_way};
use crate::text::{lemma_lex_order, lex_compare, text_order};

verus! {

/// The direction of a sort.
#[derive(Debug, Clone, Copy, PartialEq, Eq, Structural)]
pub enum SortDirection {
    Ascending,
    Descending,
}

/// What a row is sorted by: a number or a text.
pub enum SortValue {
    Number(u64),
    Text(String),
}

/// What a row is sorted by, as a value of specifications.
pub enum RowKey {
    Number(u64),
    Text(Seq<char>),
}

impl View for SortValue {
    type V = RowKey;

    open spec fn view(&self) -> RowKey {
        match self {
            SortValue::Number(n) => RowKey::Number(*n),
            SortValue::Text(t) => RowKey::Text(t@),
        }
    }
}

/// The views of a sequence of sort values.
pub open spec fn key_views(v: Seq<SortValue>) -> Seq<RowKey> {
    v.map_values(|k: SortValue| k@)
}

/// Whether two keys are of one kind: both numbers or both texts.
pub open spec fn same_kind(a: RowKey, b: RowKey) -> bool {
    (a is Number) == (b is Number)
}

/// Whether all keys are of one kind.
pub open spec fn uniform(keys: Seq<RowKey>) -> bool {
    forall|i: int, j: int|
        0 <= i < keys.len() && 0 <= j < keys.len() ==> same_kind(#[trigger] keys[i], #[trigger] keys[j])
}

/// The order of two keys: numbers by value, texts lexicographically.
pub open spec fn key_order(a: RowKey, b: RowKey) -> int {
    match (a, b) {
        (RowKey::Number(x), RowKey::Number(y)) => three_way(x, y),
        (RowKey::Text(x), RowKey::Text(y)) => lex_compare(x, y),
        _ => 0,
    }
}

/// An order, or its opposite for a descending sort.
pub open spec fn directed(sign: int, direction: SortDirection) -> int {
    match direction {
        SortDirection::Ascending => sign,
        SortDirection::Descending => -sign,
    }
}

/// The order of the rows `a` and `b` of a list whose rows have the keys
/// `keys`.
pub open spec fn index_order(keys: Seq<RowKey>, a: usize, b: usize, direction: SortDirection)
    -> int {
    directed(key_order(keys[a as int], keys[b as int]), direction)
}

/// The indices of `indices` whose rows the order puts level with row `x`,
/// in their order.
pub open spec fn level_indices(
    indices: Seq<usize>,
    x: usize,
    keys: Seq<RowKey>,
    direction: SortDirection,
) -> Seq<usize>
    decreases indices.len(),
{
    if indices.len() == 0 {
        Seq::empty()
    } else if index_order(keys, x, indices.last(), direction) == 0 {
        level_indices(indices.drop_last(), x, keys, direction).push(indices.last())
    } else {
        level_indices(indices.drop_last(), x, keys, direction)
    }
}

/// Whether `sorted` holds the indices of `source` in the order of their
/// rows, indices of level rows in the order they have in `source`. Levels
/// are those of the rows that there are.
pub open spec fn indices_stably_ordered(
    sorted: Seq<usize>,
    source: Seq<usize>,
    keys: Seq<RowKey>,
    direction: SortDirection,
) -> bool {
    &&& sorted.to_multiset() == source.to_multiset()
    &&& forall|i: int, j: int|
        0 <= i <= j < sorted.len() ==> index_order(keys, sorted[i], sorted[j], direction) <= 0
    &&& forall|x: usize|
        x < keys.len() ==> #[trigger] level_indices(sorted, x, keys, direction) == level_indices(
            source,
            x,
            keys,
            direction,
        )
}

/// The sign of the order of two numbers.
pub fn number_sign(a: u64, b: u64) -> (sign: i8)
    ensures
        sign == three_way(a, b),
        -1 <= sign <= 1,
{
    if a < b {
        -1
    } else if a == b {
        0
    } else {
        1
    }
}

/// A sign, or its opposite for a descending sort.
pub fn directed_sign(sign: i8, direction: SortDirection) -> (r: i8)
    requires
        -1 <= sign <= 1,
    ensures
        r == directed(sign as int, direction),
        -1 <= r <= 1,
{
    match direction {
        SortDirection::Ascending => sign,
        SortDirection::Descending => -sign,
    }
}

/// The other direction.
pub open spec fn directed_other(direction: SortDirection) -> SortDirection {
    match direction {
        SortDirection::Ascending => SortDirection::Descending,
        SortDirection::Descending => SortDirection::Ascending,
    }
}

/// The other direction.
pub fn opposite(direction: SortDirection) -> (r: SortDirection)
    ensures
        r == directed_other(direction),
{
    match direction {
        SortDirection::Ascending => SortDirection::Descending,
        SortDirection::Descending => SortDirection::Ascending,
    }
}

/// The sign of the order of the rows `a` and `b`.
fn row_sign(keys: &Vec<SortValue>, a: usize, b: usize, direction: SortDirection) -> (sign: i8)
    requires
        a < keys@.len(),
        b < keys@.len(),
    ensures
        sign == index_order(key_views(keys@), a, b, direction),
        -1 <= sign <= 1,
{
    let ascending = match (&keys[a], &keys[b]) {
        (SortValue::Number(x), SortValue::Number(y)) => number_sign(*x, *y),
        (SortValue::Text(x), SortValue::Text(y)) => text_order(x.as_str(), y.as_str()),
        _ => 0,
    };
    directed_sign(ascending, direction)
}

/// The order of the rows `a` and `b` of a list whose rows have the keys
/// `keys`.
pub fn compare_rows(keys: &Vec<SortValue>, a: usize, b: usize, direction: SortDirection) -> (o:
    Ordering)
    requires
        a < keys@.len(),
        b < keys@.len(),
    ensures
        sign_of(o) == index_order(key_views(keys@), a, b, direction),
{
    from_sign(row_sign(keys, a, b, direction))
}

/// `std`'s stable `sort_by` on row indices, with the order of
/// `compare_rows`: afterwards the same indices stand in the order of their
/// rows, indices of level rows as they stood.
#[verifier::external_body]
fn sort_by_keys(indices: &mut Vec<usize>, keys: &Vec<SortValue>, direction: SortDirection)
    requires
        all_below(old(indices)@, keys@.len()),
        uniform(key_views(keys@)),
    ensures
        indices_stably_ordered(final(indices)@, old(indices)@, key_views(keys@), direction),
{
    indices.sort_by(|&a, &b| compare_rows(keys, a, b, direction));
}

/// Sorts row indices by the keys of their rows. Indices of level rows keep
/// their places among themselves, and every index stays a valid one.
pub fn sort_indices(indices: &mut Vec<usize>, keys: &Vec<SortValue>, direction: SortDirection)
    requires
        all_below(old(indices)@, keys@.len()),
        uniform(key_views(keys@)),
    ensures
        indices_stably_ordered(final(indices)@, old(indices)@, key_views(keys@), direction),
        all_below(final(indices)@, keys@.len()),
        final(indices)@.len() == old(indices)@.len(),
{
    sort_by_keys(indices, keys, direction);
    proof {
        lemma_sorted_stay_below(indices@, old(indices)@, keys@.len());
    }
}

/// Whether every index of `indices` is below `count`.
pub open spec fn all_below(indices: Seq<usize>, count: nat) -> bool {
    forall|i: int| 0 <= i < indices.len() ==> #[trigger] indices[i] < count
}

/// A sort keeps the indices, so it keeps them below the count.
pub proof fn lemma_sorted_stay_below(sorted: Seq<usize>, source: Seq<usize>, count: nat)
    requires
        sorted.to_multiset() == source.to_multiset(),
        all_below(source, count),
    ensures
        all_below(sorted, count),
        sorted.len() == source.len(),
{
    sorted.to_multiset_ensures();
    source.to_multiset_ensures();
    assert forall|i: int| 0 <= i < sorted.len() implies #[trigger] sorted[i] < count by {
        assert(sorted.contains(sorted[i]));
        assert(source.to_multiset().count(sorted[i]) > 0);
        assert(source.contains(sorted[i]));
    }
}

/// The order of keys is a total order up to ties: a key is level with
/// itself, two keys compare one way as the opposite of the other way, and
/// among keys of one kind what is not after something that is not after a
/// third is not after the third.
pub proof fn lemma_key_order(a: RowKey, b: RowKey, c: RowKey, direction: SortDirection)
    ensures
        directed(key_order(a, a), direction) == 0,
        directed(key_order(a, b), direction) == -directed(key_order(b, a), direction),
        same_kind(a, b) && same_kind(b, c) && directed(key_order(a, b), direction) <= 0
            && directed(key_order(b, c), direction) <= 0 ==> directed(
            key_order(a, c),
            direction,
        ) <= 0,
{
    match (a, b, c) {
        (RowKey::Text(x), RowKey::Text(y), RowKey::Text(z)) => {
            lemma_lex_order(x, y, z);
            lemma_lex_order(y, z, x);
            lemma_lex_order(z, y, x);
            lemma_lex_order(x, z, y);
        },
        (RowKey::Text(x), RowKey::Text(y), _) => {
            lemma_lex_order(x, y, x);
        },
        (RowKey::Text(x), _, _) => {
            lemma_lex_order(x, x, x);
        },
        _ => {},
    }
}

/// The last of the indices level with row `x` is one of the indices, and
/// level with `x`.
proof fn lemma_level_witness(
    indices: Seq<usize>,
    x: usize,
    keys: Seq<RowKey>,
    direction: SortDirection,
) -> (i: int)
    requires
        level_indices(indices, x, keys, direction).len() > 0,
    ensures
        0 <= i < indices.len(),
        indices[i] == level_indices(indices, x, keys, direction).last(),
        index_order(keys, x, indices[i], direction) == 0,
    decreases indices.len(),
{
    if index_order(keys, x, indices.last(), direction) == 0 {
        indices.len() - 1
    } else {
        lemma_level_witness(indices.drop_last(), x, keys, direction)
    }
}

/// Two ordered sequences that hold the same indices on every level, in the
/// same order, are equal.
proof fn lemma_same_levels(
    a: Seq<usize>,
    b: Seq<usize>,
    keys: Seq<RowKey>,
    direction: SortDirection,
)
    requires
        all_below(a, keys.len()),
        all_below(b, keys.len()),
        forall|i: int, j: int|
            0 <= i <= j < a.len() ==> index_order(keys, a[i], a[j], direction) <= 0,
        forall|i: int, j: int|
            0 <= i <= j < b.len() ==> index_order(keys, b[i], b[j], direction) <= 0,
        forall|x: usize|
            x < keys.len() ==> #[trigger] level_indices(a, x, keys, direction) == level_indices(
                b,
                x,
                keys,
                direction,
            ),
    ensures
        a == b,
    decreases a.len(),
{
    if a.len() == 0 {
        if b.len() > 0 {
            let y = b.last();
            lemma_key_order(keys[y as int], keys[y as int], keys[y as int], direction);
            assert(level_indices(a, y, keys, direction) == level_indices(b, y, keys, direction));
        }
        assert(a =~= b);
    } else {
        let x = a.last();
        lemma_key_order(keys[x as int], keys[x as int], keys[x as int], direction);
        assert(level_indices(a, x, keys, direction) == level_indices(b, x, keys, direction));
        let j = lemma_level_witness(b, x, keys, direction);
        let y = b.last();
        lemma_key_order(keys[y as int], keys[y as int], keys[y as int], direction);
        assert(level_indices(a, y, keys, direction) == level_indices(b, y, keys, direction));
        let i = lemma_level_witness(a, y, keys, direction);
        assert(index_order(keys, a[i], a[a.len() - 1], direction) <= 0);
        assert(index_order(keys, b[j], b[b.len() - 1], direction) <= 0);
        lemma_key_order(keys[x as int], keys[y as int], keys[x as int], direction);
        assert(index_order(keys, x, y, direction) == 0);
        assert(x == y);
        let front_a = a.drop_last();
        let front_b = b.drop_last();
        assert forall|z: usize| z < keys.len() implies #[trigger] level_indices(
            front_a,
            z,
            keys,
            direction,
        ) == level_indices(front_b, z, keys, direction) by {
            assert(level_indices(a, z, keys, direction) == level_indices(b, z, keys, direction));
            if index_order(keys, z, x, direction) == 0 {
                assert(level_indices(front_a, z, keys, direction) =~= level_indices(
                    a,
                    z,
                    keys,
                    direction,
                ).drop_last());
                assert(level_indices(front_b, z, keys, direction) =~= level_indices(
                    b,
                    z,
                    keys,
                    direction,
                ).drop_last());
            }
        }
        lemma_same_levels(front_a, front_b, keys, direction);
        assert(a =~= front_a.push(x));
        assert(b =~= front_b.push(y));
    }
}

/// A sorted list is determined by its source: two sequences that both hold
/// the indices of `source` stably ordered are equal.
pub proof fn lemma_sorted_list_is_unique(
    a: Seq<usize>,
    b: Seq<usize>,
    source: Seq<usize>,
    keys: Seq<RowKey>,
    direction: SortDirection,
)
    requires
        all_below(source, keys.len()),
        indices_stably_ordered(a, source, keys, direction),
        indices_stably_ordered(b, source, keys, direction),
    ensures
        a == b,
{
    lemma_sorted_stay_below(a, source, keys.len());
    lemma_sorted_stay_below(b, source, keys.len());
    assert forall|x: usize| x < keys.len() implies #[trigger] level_indices(
        a,
        x,
        keys,
        direction,
    ) == level_indices(b, x, keys, direction) by {
        assert(level_indices(a, x, keys, direction) == level_indices(source, x, keys, direction));
        assert(level_indices(b, x, keys, direction) == level_indices(source, x, keys, direction));
    }
    lemma_same_levels(a, b, keys, direction);
}

} // verus!
