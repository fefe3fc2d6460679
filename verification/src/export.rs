//! The selection of symbols for an export: filtered by a regular expression
//! on the name, and sorted by size, name or file index.

use vstd::prelude::*;
use crate::cli::{ExportArgs, SortKey, SortOrder};
use crate::sorting::{
    all_below, index_order, indices_stably_ordered, key_views, level_indices, sort_indices,
    uniform, RowKey, SortDirection, SortValue,
};
use crate::model::{symbol_views, MapFile, Symbol, SymbolView};
use crate::numbers::{hex_size, spec_hex_size};
use crate::order::{lemma_symbol_order, symbol_order};

verus! {

/// A compiled regular expression of the `regex` crate.
#[verifier::external_type_specification]
#[verifier::external_body]
pub struct ExRegex(regex::Regex);

/// Whether `regex::Regex::new` compiles `pattern`: the pattern is well
/// formed, and the compiled expression stays within the size that the crate
/// allows by default. The crate counts that size in bytes of its own states,
/// so for a pattern at the limit the answer is that of the target that the
/// library is built for.
pub uninterp spec fn regex_compiles(pattern: Seq<char>) -> bool;

/// The message that the error of `regex::Regex::new` displays for a
/// `pattern` that it does not compile.
pub uninterp spec fn regex_error_text(pattern: Seq<char>) -> Seq<char>;

/// Whether the regular expression that `regex::Regex::new` compiles from
/// `pattern` matches somewhere in `haystack`.
pub uninterp spec fn regex_matches(pattern: Seq<char>, haystack: Seq<char>) -> bool;

/// A filter on symbol names: a pattern and the regular expression compiled
/// from it. A filter is only ever made by `NameFilter::new`, so the two
/// belong together.
#[derive(Debug)]
pub struct NameFilter {
    pattern: String,
    regex: regex::Regex,
}

/// `regex::Regex::new` on `pattern`. Where the pattern compiles, the result
/// is the expression, kept together with the pattern; where it does not, the
/// result is the error as the crate displays it. Which of the two, and the
/// text of the error, are functions of the pattern.
#[verifier::external_body]
fn compile(pattern: &str) -> (r: Result<NameFilter, String>)
    ensures
        r.is_ok() == regex_compiles(pattern@),
        r.is_ok() ==> r.unwrap().pattern() == pattern@,
        r.is_err() ==> r.unwrap_err()@ == regex_error_text(pattern@),
{
    match regex::Regex::new(pattern) {
        Ok(regex) => Ok(NameFilter { pattern: pattern.to_string(), regex }),
        Err(error) => Err(error.to_string()),
    }
}

/// `regex::Regex::is_match` of the filter's expression on `name`.
#[verifier::external_body]
fn is_match(filter: &NameFilter, name: &str) -> (found: bool)
    ensures
        found == regex_matches(filter.pattern(), name@),
{
    filter.regex.is_match(name)
}

impl NameFilter {
    /// The pattern that the filter was compiled from.
    pub closed spec fn pattern(&self) -> Seq<char> {
        self.pattern@
    }

    /// Compiles `pattern` into a filter. It succeeds exactly where the
    /// `regex` crate compiles the pattern; where it does not, the result is
    /// the message of its error.
    pub fn new(pattern: &str) -> (r: Result<NameFilter, String>)
        ensures
            r.is_ok() == regex_compiles(pattern@),
            r.is_ok() ==> r.unwrap().pattern() == pattern@,
            r.is_err() ==> r.unwrap_err()@ == regex_error_text(pattern@),
    {
        compile(pattern)
    }

    /// Whether the filter lets `name` through.
    pub fn accepts(&self, name: &str) -> (found: bool)
        ensures
            found == regex_matches(self.pattern(), name@),
    {
        is_match(self, name)
    }
}

/// The views of a sequence of borrowed symbols.
pub open spec fn borrowed_views(v: Seq<&Symbol>) -> Seq<SymbolView> {
    v.map_values(|x: &Symbol| x@)
}

/// Whether a filter with `pattern` lets `name` through; without a pattern
/// every name passes.
pub open spec fn passes(pattern: Option<Seq<char>>, name: Seq<char>) -> bool {
    match pattern {
        Some(p) => regex_matches(p, name),
        None => true,
    }
}

/// The symbols of `symbols` whose name passes, in their order.
pub open spec fn kept(symbols: Seq<SymbolView>, pattern: Option<Seq<char>>) -> Seq<SymbolView>
    decreases symbols.len(),
{
    if symbols.len() == 0 {
        Seq::empty()
    } else if passes(pattern, symbols.last().name) {
        kept(symbols.drop_last(), pattern).push(symbols.last())
    } else {
        kept(symbols.drop_last(), pattern)
    }
}

/// The symbols of `symbols` that the order puts level with `x`, in their
/// order.
pub open spec fn level_with(
    symbols: Seq<SymbolView>,
    x: SymbolView,
    key: SortKey,
    order: SortOrder,
) -> Seq<SymbolView>
    decreases symbols.len(),
{
    if symbols.len() == 0 {
        Seq::empty()
    } else if symbol_order(x, symbols.last(), key, order) == 0 {
        level_with(symbols.drop_last(), x, key, order).push(symbols.last())
    } else {
        level_with(symbols.drop_last(), x, key, order)
    }
}

/// Whether `sorted` holds the symbols of `source` in the order of `key` and
/// `order`, those that the order puts level in the order they have in
/// `source`.
pub open spec fn stably_ordered(
    sorted: Seq<SymbolView>,
    source: Seq<SymbolView>,
    key: SortKey,
    order: SortOrder,
) -> bool {
    &&& forall|i: int, j: int|
        0 <= i <= j < sorted.len() ==> symbol_order(sorted[i], sorted[j], key, order) <= 0
    &&& forall|x: SymbolView| #[trigger]
        level_with(sorted, x, key, order) == level_with(source, x, key, order)
}

/// The pattern of an optional filter.
pub open spec fn pattern_of(filter: Option<&NameFilter>) -> Option<Seq<char>> {
    match filter {
        Some(f) => Some(f.pattern()),
        None => None,
    }
}

/// What a symbol is sorted by under `key`.
pub open spec fn export_key(symbol: SymbolView, key: SortKey) -> RowKey {
    match key {
        SortKey::Size => RowKey::Number(spec_hex_size(symbol.size)),
        SortKey::Name => RowKey::Text(symbol.name),
        SortKey::Path => RowKey::Text(symbol.file_index),
    }
}

/// The direction of an order.
pub open spec fn direction_of(order: SortOrder) -> SortDirection {
    match order {
        SortOrder::Asc => SortDirection::Ascending,
        SortOrder::Desc => SortDirection::Descending,
    }
}

/// The symbols at the positions `indices`.
pub open spec fn picked(symbols: Seq<SymbolView>, indices: Seq<usize>) -> Seq<SymbolView> {
    indices.map_values(|i: usize| symbols[i as int])
}

/// The sort keys of all symbols, as values.
fn export_sort_values(symbols: &Vec<Symbol>, key: SortKey) -> (keys: Vec<SortValue>)
    ensures
        keys@.len() == symbols@.len(),
        forall|j: int|
            0 <= j < keys@.len() ==> (#[trigger] key_views(keys@)[j]) == export_key(
                symbols@[j]@,
                key,
            ),
        uniform(key_views(keys@)),
{
    let n = symbols.len();
    let mut keys: Vec<SortValue> = Vec::new();
    let mut i: usize = 0;
    while i < n
        invariant
            i <= n == symbols@.len(),
            keys@.len() == i,
            forall|j: int|
                0 <= j < i ==> (#[trigger] keys@[j])@ == export_key(symbols@[j]@, key),
        decreases n - i,
    {
        let symbol = &symbols[i];
        let value = match key {
            SortKey::Size => SortValue::Number(hex_size(symbol.size.as_str())),
            SortKey::Name => SortValue::Text(symbol.name.clone()),
            SortKey::Path => SortValue::Text(symbol.file_index.clone()),
        };
        keys.push(value);
        i += 1;
    }
    keys
}

/// The symbols whose name passes the filter, sorted by `key` in the
/// direction `order`. Symbols that the order puts level keep the order of
/// the document.
pub fn select_symbols<'a>(
    symbols: &'a Vec<Symbol>,
    filter: Option<&NameFilter>,
    key: SortKey,
    order: SortOrder,
) -> (selected: Vec<&'a Symbol>)
    ensures
        stably_ordered(
            borrowed_views(selected@),
            kept(symbol_views(symbols@), pattern_of(filter)),
            key,
            order,
        ),
{
    let n = symbols.len();
    let ghost all = symbol_views(symbols@);
    let ghost pattern = pattern_of(filter);
    let mut positions: Vec<usize> = Vec::new();
    let mut i: usize = 0;
    assert(all.take(0) =~= Seq::<SymbolView>::empty());
    assert(picked(all, positions@) =~= Seq::<SymbolView>::empty());
    while i < n
        invariant
            i <= n == symbols@.len(),
            all == symbol_views(symbols@),
            pattern == pattern_of(filter),
            all_below(positions@, i as nat),
            picked(all, positions@) == kept(all.take(i as int), pattern),
        decreases n - i,
    {
        let symbol = &symbols[i];
        proof {
            let next = all.take(i + 1);
            assert(next.drop_last() =~= all.take(i as int));
            assert(next.last() == symbol@);
        }
        let pass = match filter {
            Some(f) => f.accepts(symbol.name.as_str()),
            None => true,
        };
        if pass {
            let ghost before = positions@;
            positions.push(i);
            assert(picked(all, positions@) =~= picked(all, before).push(symbol@));
        }
        i += 1;
    }
    assert(all.take(n as int) =~= all);
    let ghost source = positions@;
    let keys = export_sort_values(symbols, key);
    let direction = match order {
        SortOrder::Asc => SortDirection::Ascending,
        SortOrder::Desc => SortDirection::Descending,
    };
    sort_indices(&mut positions, &keys, direction);
    proof {
        lemma_picked_in_order(all, key_views(keys@), positions@, source, key, order);
    }
    let count = positions.len();
    let mut selected: Vec<&'a Symbol> = Vec::new();
    let mut j: usize = 0;
    assert(borrowed_views(selected@) =~= picked(all, positions@.take(0)));
    while j < count
        invariant
            j <= count == positions@.len(),
            all == symbol_views(symbols@),
            all_below(positions@, symbols@.len()),
            borrowed_views(selected@) == picked(all, positions@.take(j as int)),
        decreases count - j,
    {
        let ghost before = selected@;
        let position = positions[j];
        selected.push(&symbols[position]);
        j += 1;
        proof {
            assert(all[position as int] == symbols@[position as int]@);
            assert(borrowed_views(selected@) =~= borrowed_views(before).push(
                symbols@[position as int]@,
            ));
            assert(positions@.take(j as int) =~= positions@.take(j - 1).push(position));
            assert(picked(all, positions@.take(j as int)) =~= picked(
                all,
                positions@.take(j - 1),
            ).push(all[position as int]));
        }
    }
    assert(positions@.take(count as int) =~= positions@);
    selected
}

/// The pattern that an export asks to filter by.
pub open spec fn asked_pattern(args: ExportArgs) -> Option<Seq<char>> {
    match args.filter {
        Some(p) => Some(p@),
        None => None,
    }
}

/// Whether an export can be made: its filter, if it has one, compiles.
pub open spec fn can_export(args: ExportArgs) -> bool {
    match args.filter {
        Some(p) => regex_compiles(p@),
        None => true,
    }
}

/// The symbols of a document that an export writes, in the order in which
/// it writes them: those whose name passes the filter, sorted by the key in
/// the direction asked for. It fails exactly where the filter does not
/// compile, with the message of the `regex` crate.
pub fn export<'a>(map: &'a MapFile, args: &ExportArgs) -> (r: Result<Vec<&'a Symbol>, String>)
    ensures
        r.is_ok() == can_export(*args),
        r.is_ok() ==> stably_ordered(
            borrowed_views(r.unwrap()@),
            kept(map@.symbols, asked_pattern(*args)),
            args.sort,
            args.order,
        ),
        r.is_err() ==> args.filter.is_some() && r.unwrap_err()@ == regex_error_text(
            args.filter.unwrap()@,
        ),
{
    match &args.filter {
        Some(pattern) => match NameFilter::new(pattern.as_str()) {
            Ok(filter) => Ok(select_symbols(&map.symbols, Some(&filter), args.sort, args.order)),
            Err(message) => Err(message),
        },
        None => Ok(select_symbols(&map.symbols, None, args.sort, args.order)),
    }
}

/// The last of the symbols level with `x` is one of the symbols, and level
/// with `x`.
proof fn lemma_level_witness(
    symbols: Seq<SymbolView>,
    x: SymbolView,
    key: SortKey,
    order: SortOrder,
) -> (i: int)
    requires
        level_with(symbols, x, key, order).len() > 0,
    ensures
        0 <= i < symbols.len(),
        symbols[i] == level_with(symbols, x, key, order).last(),
        symbol_order(x, symbols[i], key, order) == 0,
    decreases symbols.len(),
{
    if symbol_order(x, symbols.last(), key, order) == 0 {
        symbols.len() - 1
    } else {
        lemma_level_witness(symbols.drop_last(), x, key, order)
    }
}

/// Two ordered sequences that hold the same symbols on every level, in
/// the same order, are equal.
proof fn lemma_same_levels(
    a: Seq<SymbolView>,
    b: Seq<SymbolView>,
    key: SortKey,
    order: SortOrder,
)
    requires
        forall|i: int, j: int|
            0 <= i <= j < a.len() ==> symbol_order(a[i], a[j], key, order) <= 0,
        forall|i: int, j: int|
            0 <= i <= j < b.len() ==> symbol_order(b[i], b[j], key, order) <= 0,
        forall|x: SymbolView| #[trigger]
            level_with(a, x, key, order) == level_with(b, x, key, order),
    ensures
        a == b,
    decreases a.len(),
{
    if a.len() == 0 {
        if b.len() > 0 {
            let y = b.last();
            lemma_symbol_order(y, y, y, key, order);
            assert(level_with(a, y, key, order) == level_with(b, y, key, order));
        }
        assert(a =~= b);
    } else {
        let x = a.last();
        lemma_symbol_order(x, x, x, key, order);
        assert(level_with(a, x, key, order) == level_with(b, x, key, order));
        let j = lemma_level_witness(b, x, key, order);
        let y = b.last();
        lemma_symbol_order(y, y, y, key, order);
        assert(level_with(a, y, key, order) == level_with(b, y, key, order));
        let i = lemma_level_witness(a, y, key, order);
        assert(symbol_order(a[i], a[a.len() - 1], key, order) <= 0);
        assert(symbol_order(b[j], b[b.len() - 1], key, order) <= 0);
        lemma_symbol_order(x, y, x, key, order);
        assert(symbol_order(x, y, key, order) == 0);
        assert(x == y);
        let front_a = a.drop_last();
        let front_b = b.drop_last();
        assert forall|z: SymbolView| #[trigger]
            level_with(front_a, z, key, order) == level_with(front_b, z, key, order) by {
            assert(level_with(a, z, key, order) == level_with(b, z, key, order));
            if symbol_order(z, x, key, order) == 0 {
                assert(level_with(front_a, z, key, order) =~= level_with(
                    a,
                    z,
                    key,
                    order,
                ).drop_last());
                assert(level_with(front_b, z, key, order) =~= level_with(
                    b,
                    z,
                    key,
                    order,
                ).drop_last());
            }
        }
        lemma_same_levels(front_a, front_b, key, order);
        assert(a =~= front_a.push(x));
        assert(b =~= front_b.push(y));
    }
}

/// A selection is determined by its source: two sequences that both hold
/// the symbols of `source` stably ordered are equal.
pub proof fn lemma_selection_is_unique(
    a: Seq<SymbolView>,
    b: Seq<SymbolView>,
    source: Seq<SymbolView>,
    key: SortKey,
    order: SortOrder,
)
    requires
        stably_ordered(a, source, key, order),
        stably_ordered(b, source, key, order),
    ensures
        a == b,
{
    assert forall|x: SymbolView| #[trigger]
        level_with(a, x, key, order) == level_with(b, x, key, order) by {
        assert(level_with(a, x, key, order) == level_with(source, x, key, order));
        assert(level_with(b, x, key, order) == level_with(source, x, key, order));
    }
    lemma_same_levels(a, b, key, order);
}

/// Symbols that are level with each other are level with the same symbols.
proof fn lemma_level_same_class(
    symbols: Seq<SymbolView>,
    x: SymbolView,
    w: SymbolView,
    key: SortKey,
    order: SortOrder,
)
    requires
        symbol_order(x, w, key, order) == 0,
    ensures
        level_with(symbols, x, key, order) == level_with(symbols, w, key, order),
    decreases symbols.len(),
{
    if symbols.len() > 0 {
        let y = symbols.last();
        lemma_level_same_class(symbols.drop_last(), x, w, key, order);
        lemma_symbol_order(x, w, y, key, order);
        lemma_symbol_order(w, x, y, key, order);
        lemma_symbol_order(y, x, w, key, order);
        lemma_symbol_order(y, w, x, key, order);
        lemma_symbol_order(x, y, w, key, order);
        lemma_symbol_order(w, y, x, key, order);
    }
}

/// Where no symbol is level with `x`, nothing is level with `x`.
proof fn lemma_level_empty(symbols: Seq<SymbolView>, x: SymbolView, key: SortKey, order: SortOrder)
    requires
        forall|i: int| 0 <= i < symbols.len() ==> symbol_order(x, #[trigger] symbols[i], key, order)
            != 0,
    ensures
        level_with(symbols, x, key, order).len() == 0,
    decreases symbols.len(),
{
    if symbols.len() > 0 {
        let front = symbols.drop_last();
        assert forall|i: int| 0 <= i < front.len() implies symbol_order(
            x,
            #[trigger] front[i],
            key,
            order,
        ) != 0 by {
            assert(front[i] == symbols[i]);
        }
        lemma_level_empty(front, x, key, order);
        assert(symbols.last() == symbols[symbols.len() - 1]);
    }
}

/// The symbols level with the symbol at `z`, among those at `indices`, are
/// the symbols at the indices that are level with `z`.
proof fn lemma_level_of_picked(
    symbols: Seq<SymbolView>,
    keys: Seq<RowKey>,
    indices: Seq<usize>,
    z: usize,
    key: SortKey,
    order: SortOrder,
)
    requires
        keys.len() == symbols.len(),
        forall|j: int| 0 <= j < keys.len() ==> #[trigger] keys[j] == export_key(symbols[j], key),
        all_below(indices, symbols.len()),
        z < symbols.len(),
    ensures
        level_with(picked(symbols, indices), symbols[z as int], key, order) == picked(
            symbols,
            level_indices(indices, z, keys, direction_of(order)),
        ),
    decreases indices.len(),
{
    let direction = direction_of(order);
    if indices.len() == 0 {
        assert(picked(symbols, indices) =~= Seq::<SymbolView>::empty());
        assert(picked(symbols, level_indices(indices, z, keys, direction)) =~= Seq::<
            SymbolView,
        >::empty());
    } else {
        let front = indices.drop_last();
        let last = indices.last();
        assert(last == indices[indices.len() - 1]);
        lemma_level_of_picked(symbols, keys, front, z, key, order);
        assert(picked(symbols, indices).drop_last() =~= picked(symbols, front));
        assert(picked(symbols, indices).last() == symbols[last as int]);
        assert(keys[z as int] == export_key(symbols[z as int], key));
        assert(keys[last as int] == export_key(symbols[last as int], key));
        if symbol_order(symbols[z as int], symbols[last as int], key, order) == 0 {
            assert(picked(symbols, level_indices(indices, z, keys, direction)) =~= picked(
                symbols,
                level_indices(front, z, keys, direction),
            ).push(symbols[last as int]));
        }
    }
}

/// Indices stably ordered by the keys of their symbols pick the symbols
/// stably ordered.
proof fn lemma_picked_in_order(
    symbols: Seq<SymbolView>,
    keys: Seq<RowKey>,
    sorted: Seq<usize>,
    source: Seq<usize>,
    key: SortKey,
    order: SortOrder,
)
    requires
        keys.len() == symbols.len(),
        forall|j: int| 0 <= j < keys.len() ==> #[trigger] keys[j] == export_key(symbols[j], key),
        all_below(source, symbols.len()),
        all_below(sorted, symbols.len()),
        indices_stably_ordered(sorted, source, keys, direction_of(order)),
    ensures
        stably_ordered(picked(symbols, sorted), picked(symbols, source), key, order),
{
    let direction = direction_of(order);
    let a = picked(symbols, sorted);
    let b = picked(symbols, source);
    assert forall|i: int, j: int| 0 <= i <= j < a.len() implies symbol_order(
        a[i],
        a[j],
        key,
        order,
    ) <= 0 by {
        assert(index_order(keys, sorted[i], sorted[j], direction) <= 0);
        assert(keys[sorted[i] as int] == export_key(symbols[sorted[i] as int], key));
        assert(keys[sorted[j] as int] == export_key(symbols[sorted[j] as int], key));
    }
    sorted.to_multiset_ensures();
    source.to_multiset_ensures();
    assert forall|x: SymbolView| #[trigger]
        level_with(a, x, key, order) == level_with(b, x, key, order) by {
        if exists|i: int| 0 <= i < sorted.len() && symbol_order(x, #[trigger] a[i], key, order) == 0 {
            let i = choose|i: int|
                0 <= i < sorted.len() && symbol_order(x, #[trigger] a[i], key, order) == 0;
            let z = sorted[i];
            lemma_level_same_class(a, x, symbols[z as int], key, order);
            lemma_level_same_class(b, x, symbols[z as int], key, order);
            lemma_level_of_picked(symbols, keys, sorted, z, key, order);
            lemma_level_of_picked(symbols, keys, source, z, key, order);
            assert(level_indices(sorted, z, keys, direction) == level_indices(
                source,
                z,
                keys,
                direction,
            ));
        } else {
            lemma_level_empty(a, x, key, order);
            assert forall|j: int| 0 <= j < b.len() implies symbol_order(
                x,
                #[trigger] b[j],
                key,
                order,
            ) != 0 by {
                assert(source.contains(source[j]));
                assert(sorted.to_multiset().count(source[j]) > 0);
                assert(sorted.contains(source[j]));
                let i = choose|i: int| 0 <= i < sorted.len() && sorted[i] == source[j];
                assert(a[i] == b[j]);
            }
            lemma_level_empty(b, x, key, order);
            assert(level_with(a, x, key, order) =~= level_with(b, x, key, order));
        }
    }
}

} // verus!
