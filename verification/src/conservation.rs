//! What holds of the metrics of every document: the totals are the sums of
//! the symbol sizes, the categories add up to the total, and what the
//! objects hold together with what belongs to no known object is the total.

use vstd::prelude::*;
use crate::metrics::{
    counted, lemma_object_position, lemma_tally_bounds, object_metrics_at,
    object_position, owns_symbols, resolve, resolved, resolved_symbols, sizes_fit, spec_metrics,
    tally, ObjectMetricsView, SymbolMetricsView,
};
use crate::model::{MapFileView, ObjectFileView, SymbolView};
use crate::numbers::spec_parse_hex_u64;
use crate::sections::{valid_ranges, Bucket, SectionRangeView};

verus! {

/// The sum of the sizes of `ms`.
pub open spec fn sum_of_sizes(ms: Seq<SymbolMetricsView>) -> int
    decreases ms.len(),
{
    if ms.len() == 0 {
        0
    } else {
        sum_of_sizes(ms.drop_last()) + ms.last().size
    }
}

/// The sum of the totals of `objects`.
pub open spec fn sum_of_totals(objects: Seq<ObjectMetricsView>) -> int
    decreases objects.len(),
{
    if objects.len() == 0 {
        0
    } else {
        sum_of_totals(objects.drop_last()) + objects.last().total
    }
}

/// The sum of the sizes of the symbols of `ms` whose file index is the index
/// of no object.
pub open spec fn unattributed(objects: Seq<ObjectFileView>, ms: Seq<SymbolMetricsView>) -> int
    decreases ms.len(),
{
    if ms.len() == 0 {
        0
    } else if object_position(objects, ms.last().file_index).is_none() {
        unattributed(objects, ms.drop_last()) + ms.last().size
    } else {
        unattributed(objects, ms.drop_last())
    }
}

/// The sum over every object and every category is the sum of the sizes.
pub proof fn lemma_tally_all(ms: Seq<SymbolMetricsView>)
    ensures
        tally(ms, None, None) == sum_of_sizes(ms),
    decreases ms.len(),
{
    if ms.len() > 0 {
        lemma_tally_all(ms.drop_last());
    }
}

/// The four categories add up to the sum over all categories.
pub proof fn lemma_tally_by_bucket(ms: Seq<SymbolMetricsView>, owner: Option<i32>)
    ensures
        tally(ms, owner, Some(Bucket::Text)) + tally(ms, owner, Some(Bucket::Data)) + tally(
            ms,
            owner,
            Some(Bucket::Bss),
        ) + tally(ms, owner, Some(Bucket::Other)) == tally(ms, owner, None),
    decreases ms.len(),
{
    if ms.len() > 0 {
        lemma_tally_by_bucket(ms.drop_last(), owner);
    }
}

/// What the first `n` objects hold of `ms`.
spec fn attributed(objects: Seq<ObjectFileView>, ms: Seq<SymbolMetricsView>, n: int) -> int
    decreases n,
{
    if n <= 0 {
        0
    } else if owns_symbols(objects, n - 1) {
        attributed(objects, ms, n - 1) + tally(ms, Some(objects[n - 1].index), None)
    } else {
        attributed(objects, ms, n - 1)
    }
}

/// One more symbol adds its size to the first `n` objects exactly where its
/// object is among them.
proof fn lemma_attributed_push(
    objects: Seq<ObjectFileView>,
    ms: Seq<SymbolMetricsView>,
    m: SymbolMetricsView,
    n: int,
)
    requires
        0 <= n <= objects.len(),
    ensures
        attributed(objects, ms.push(m), n) == attributed(objects, ms, n) + (match object_position(
            objects,
            m.file_index,
        ) {
            Some(q) => if q < n {
                m.size as int
            } else {
                0
            },
            None => 0,
        }),
    decreases n,
{
    lemma_object_position(objects, m.file_index);
    if n > 0 {
        lemma_attributed_push(objects, ms, m, n - 1);
        let next = ms.push(m);
        assert(next.drop_last() =~= ms);
        assert(next.last() == m);
        let id = objects[n - 1].index;
        assert(tally(next, Some(id), None) == tally(ms, Some(id), None) + counted(
            m,
            Some(id),
            None,
        ));
    }
}

/// What all objects hold and what belongs to none is the sum of the sizes.
proof fn lemma_attributed_all(objects: Seq<ObjectFileView>, ms: Seq<SymbolMetricsView>)
    ensures
        attributed(objects, ms, objects.len() as int) + unattributed(objects, ms) == tally(
            ms,
            None,
            None,
        ),
        unattributed(objects, ms) >= 0,
    decreases ms.len(),
{
    if ms.len() == 0 {
        assert(ms =~= Seq::<SymbolMetricsView>::empty());
        lemma_attributed_empty(objects, objects.len() as int);
    } else {
        let front = ms.drop_last();
        lemma_attributed_all(objects, front);
        lemma_attributed_push(objects, front, ms.last(), objects.len() as int);
        lemma_object_position(objects, ms.last().file_index);
        assert(front.push(ms.last()) =~= ms);
    }
}

/// Without symbols the objects hold nothing.
proof fn lemma_attributed_empty(objects: Seq<ObjectFileView>, n: int)
    requires
        0 <= n <= objects.len(),
    ensures
        attributed(objects, Seq::empty(), n) == 0,
    decreases n,
{
    if n > 0 {
        lemma_attributed_empty(objects, n - 1);
    }
}

/// The totals of the first `n` object metrics are what the first `n` objects
/// hold.
proof fn lemma_sum_of_totals(objects: Seq<ObjectFileView>, ms: Seq<SymbolMetricsView>, n: int)
    requires
        0 <= n <= objects.len(),
        tally(ms, None, None) <= u64::MAX,
    ensures
        sum_of_totals(Seq::new(n as nat, |p: int| object_metrics_at(objects, ms, p)))
            == attributed(objects, ms, n),
    decreases n,
{
    if n > 0 {
        lemma_sum_of_totals(objects, ms, n - 1);
        let here = Seq::new(n as nat, |p: int| object_metrics_at(objects, ms, p));
        let front = Seq::new((n - 1) as nat, |p: int| object_metrics_at(objects, ms, p));
        assert(here.drop_last() =~= front);
        lemma_tally_bounds(ms, Some(objects[n - 1].index), None);
    }
}

/// The total of a document is the sum of the sizes of its resolved symbols,
/// and the four categories of the totals add up to the total.
pub proof fn lemma_totals_are_sums(map: MapFileView)
    requires
        sizes_fit(map),
    ensures
        spec_metrics(map).totals.total == sum_of_sizes(spec_metrics(map).symbols),
        spec_metrics(map).totals.text + spec_metrics(map).totals.data + spec_metrics(
            map,
        ).totals.bss + spec_metrics(map).totals.other == spec_metrics(map).totals.total,
{
    let ms = resolved_symbols(map);
    lemma_tally_all(ms);
    lemma_tally_by_bucket(ms, None);
    lemma_tally_bounds(ms, None, Some(Bucket::Text));
    lemma_tally_bounds(ms, None, Some(Bucket::Data));
    lemma_tally_bounds(ms, None, Some(Bucket::Bss));
    lemma_tally_bounds(ms, None, Some(Bucket::Other));
}

/// In the metrics of every object the four categories add up to the total.
pub proof fn lemma_object_categories_add_up(map: MapFileView, p: int)
    requires
        sizes_fit(map),
        0 <= p < map.object_files.len(),
    ensures
        spec_metrics(map).objects[p].text + spec_metrics(map).objects[p].data + spec_metrics(
            map,
        ).objects[p].bss + spec_metrics(map).objects[p].other == spec_metrics(
            map,
        ).objects[p].total,
{
    let ms = resolved_symbols(map);
    let owner = Some(map.object_files[p].index);
    lemma_tally_by_bucket(ms, owner);
    lemma_tally_bounds(ms, owner, Some(Bucket::Text));
    lemma_tally_bounds(ms, owner, Some(Bucket::Data));
    lemma_tally_bounds(ms, owner, Some(Bucket::Bss));
    lemma_tally_bounds(ms, owner, Some(Bucket::Other));
}

/// The totals of the objects and the sizes of the symbols that belong to no
/// known object add up to the total of the document. So the objects hold at
/// most the total, and exactly the total where every symbol with a size
/// belongs to a known object.
pub proof fn lemma_objects_hold_their_share(map: MapFileView)
    requires
        sizes_fit(map),
    ensures
        sum_of_totals(spec_metrics(map).objects) + unattributed(
            map.object_files,
            spec_metrics(map).symbols,
        ) == spec_metrics(map).totals.total,
        sum_of_totals(spec_metrics(map).objects) <= spec_metrics(map).totals.total,
        unattributed(map.object_files, spec_metrics(map).symbols) >= 0,
{
    let ms = resolved_symbols(map);
    lemma_attributed_all(map.object_files, ms);
    lemma_sum_of_totals(map.object_files, ms, map.object_files.len() as int);
    lemma_tally_bounds(ms, None, None);
}

/// A symbol without metrics can be left out: the others resolve to the same
/// metrics.
proof fn lemma_resolved_without(rs: Seq<SectionRangeView>, symbols: Seq<SymbolView>, i: int)
    requires
        0 <= i < symbols.len(),
        resolve(rs, symbols[i]).is_none(),
    ensures
        resolved(rs, symbols) == resolved(rs, symbols.remove(i)),
    decreases symbols.len(),
{
    if i == symbols.len() - 1 {
        assert(symbols.remove(i) =~= symbols.drop_last());
    } else {
        let front = symbols.drop_last();
        lemma_resolved_without(rs, front, i);
        assert(symbols.remove(i).drop_last() =~= front.remove(i));
        assert(symbols.remove(i).last() == symbols.last());
    }
}

/// A symbol whose address is no hexadecimal `u64` counts for nothing: the
/// document has the metrics that it has without this symbol.
pub proof fn lemma_unreadable_symbol_counts_for_nothing(map: MapFileView, i: int)
    requires
        0 <= i < map.symbols.len(),
        spec_parse_hex_u64(map.symbols[i].address).is_none(),
    ensures
        spec_metrics(map) == spec_metrics(
            MapFileView { symbols: map.symbols.remove(i), ..map },
        ),
{
    let rs = valid_ranges(map.sections);
    lemma_resolved_without(rs, map.symbols, i);
    let other = MapFileView { symbols: map.symbols.remove(i), ..map };
    assert(resolved_symbols(other) == resolved_symbols(map));
    assert(spec_metrics(map).objects =~= spec_metrics(other).objects);
}

} // verus!
