//! Size attribution: every symbol of a document is resolved to numbers and
//! to the category of the section that holds its address, and its size is
//! added to the totals of its object and of the whole document.

use std::collections::HashMap;
use vstd::prelude::*;
use crate::model::{
    object_file_views, MapFile, MapFileView, ObjectFile, ObjectFileView, Symbol, SymbolView,
};
use crate::numbers::{parse_hex_u64, parse_i32, spec_parse_hex_u64, spec_parse_i32};
use crate::sections::{
    build_section_ranges, classify, containing_range, find_section, lemma_lookup_in_sorted,
    range_views, spec_classify, stably_sorted, valid_ranges, Bucket, SectionRange,
    SectionRangeView,
};

verus! {

broadcast use vstd::std_specs::hash::group_hash_axioms;

/// The bytes that one object contributes, by category.
#[derive(Debug, Clone)]
pub struct ObjectMetrics {
    pub id: i32,
    pub path: String,
    pub text: u64,
    pub data: u64,
    pub bss: u64,
    pub other: u64,
    pub total: u64,
}

/// One symbol with its numbers resolved and its category.
#[derive(Debug, Clone)]
pub struct SymbolMetrics {
    pub address: u64,
    pub size: u64,
    pub file_index: i32,
    pub name: String,
    pub bucket: Bucket,
}

/// Bytes by category, and their sum.
#[derive(Debug, Clone, Copy, PartialEq, Eq, Structural)]
pub struct GlobalTotals {
    pub text: u64,
    pub data: u64,
    pub bss: u64,
    pub other: u64,
    pub total: u64,
}

/// The metrics of a document.
#[derive(Debug, Clone)]
pub struct Metrics {
    pub objects: Vec<ObjectMetrics>,
    pub symbols: Vec<SymbolMetrics>,
    pub totals: GlobalTotals,
}

/// The metrics of an object, with its path as a sequence of characters.
pub struct ObjectMetricsView {
    pub id: i32,
    pub path: Seq<char>,
    pub text: u64,
    pub data: u64,
    pub bss: u64,
    pub other: u64,
    pub total: u64,
}

/// The metrics of a symbol, with its name as a sequence of characters.
pub struct SymbolMetricsView {
    pub address: u64,
    pub size: u64,
    pub file_index: i32,
    pub name: Seq<char>,
    pub bucket: Bucket,
}

/// The metrics of a document as sequences.
pub struct MetricsView {
    pub objects: Seq<ObjectMetricsView>,
    pub symbols: Seq<SymbolMetricsView>,
    pub totals: GlobalTotals,
}

impl View for ObjectMetrics {
    type V = ObjectMetricsView;

    open spec fn view(&self) -> ObjectMetricsView {
        ObjectMetricsView {
            id: self.id,
            path: self.path@,
            text: self.text,
            data: self.data,
            bss: self.bss,
            other: self.other,
            total: self.total,
        }
    }
}

impl View for SymbolMetrics {
    type V = SymbolMetricsView;

    open spec fn view(&self) -> SymbolMetricsView {
        SymbolMetricsView {
            address: self.address,
            size: self.size,
            file_index: self.file_index,
            name: self.name@,
            bucket: self.bucket,
        }
    }
}

/// The views of a sequence of object metrics.
pub open spec fn object_metrics_views(v: Seq<ObjectMetrics>) -> Seq<ObjectMetricsView> {
    v.map_values(|x: ObjectMetrics| x@)
}

/// The views of a sequence of symbol metrics.
pub open spec fn symbol_metrics_views(v: Seq<SymbolMetrics>) -> Seq<SymbolMetricsView> {
    v.map_values(|x: SymbolMetrics| x@)
}

impl View for Metrics {
    type V = MetricsView;

    open spec fn view(&self) -> MetricsView {
        MetricsView {
            objects: object_metrics_views(self.objects@),
            symbols: symbol_metrics_views(self.symbols@),
            totals: self.totals,
        }
    }
}

impl Default for GlobalTotals {
    /// Totals that count nothing.
    fn default() -> (r: GlobalTotals)
        ensures
            r == zero_totals(),
    {
        GlobalTotals { text: 0, data: 0, bss: 0, other: 0, total: 0 }
    }
}

/// Totals that count nothing.
pub open spec fn zero_totals() -> GlobalTotals {
    GlobalTotals { text: 0, data: 0, bss: 0, other: 0, total: 0 }
}

/// The category of the section that holds `address`, among the ranges `rs`
/// in the order of the source; `Other` where none holds it.
pub open spec fn bucket_at(rs: Seq<SectionRangeView>, address: u64) -> Bucket {
    match containing_range(rs, address) {
        Some(r) => spec_classify(r.segment, r.section),
        None => Bucket::Other,
    }
}

/// The metrics of one symbol. A symbol whose address is no hexadecimal `u64`
/// has none. A size that is none counts as 0, a file index that is no
/// decimal `i32` as -1.
pub open spec fn resolve(rs: Seq<SectionRangeView>, symbol: SymbolView) -> Option<
    SymbolMetricsView,
> {
    match spec_parse_hex_u64(symbol.address) {
        Some(address) => Some(
            SymbolMetricsView {
                address,
                size: match spec_parse_hex_u64(symbol.size) {
                    Some(size) => size,
                    None => 0,
                },
                file_index: match spec_parse_i32(symbol.file_index) {
                    Some(index) => index,
                    None => -1i32,
                },
                name: symbol.name,
                bucket: bucket_at(rs, address),
            },
        ),
        None => None,
    }
}

/// The metrics of the symbols that have some, in the order of the symbols.
pub open spec fn resolved(rs: Seq<SectionRangeView>, symbols: Seq<SymbolView>) -> Seq<
    SymbolMetricsView,
>
    decreases symbols.len(),
{
    if symbols.len() == 0 {
        Seq::empty()
    } else {
        match resolve(rs, symbols.last()) {
            Some(m) => resolved(rs, symbols.drop_last()).push(m),
            None => resolved(rs, symbols.drop_last()),
        }
    }
}

/// What the symbol `m` adds to a sum that counts the symbols of the object
/// `owner` (of any object where `owner` is `None`) in the category `bucket`
/// (in any category where `bucket` is `None`).
pub open spec fn counted(m: SymbolMetricsView, owner: Option<i32>, bucket: Option<Bucket>) -> int {
    if (owner.is_none() || owner == Some(m.file_index)) && (bucket.is_none() || bucket == Some(
        m.bucket,
    )) {
        m.size as int
    } else {
        0
    }
}

/// The sum of the sizes of the symbols of `ms` that count for `owner` and
/// `bucket`.
pub open spec fn tally(ms: Seq<SymbolMetricsView>, owner: Option<i32>, bucket: Option<Bucket>)
    -> int
    decreases ms.len(),
{
    if ms.len() == 0 {
        0
    } else {
        tally(ms.drop_last(), owner, bucket) + counted(ms.last(), owner, bucket)
    }
}

/// The sums of `ms` for `owner`, by category and over all categories.
pub open spec fn counts(ms: Seq<SymbolMetricsView>, owner: Option<i32>) -> GlobalTotals {
    GlobalTotals {
        text: tally(ms, owner, Some(Bucket::Text)) as u64,
        data: tally(ms, owner, Some(Bucket::Data)) as u64,
        bss: tally(ms, owner, Some(Bucket::Bss)) as u64,
        other: tally(ms, owner, Some(Bucket::Other)) as u64,
        total: tally(ms, owner, None) as u64,
    }
}

/// The position of the object with the index `id`: where several objects
/// have it, the last of them.
pub open spec fn object_position(objects: Seq<ObjectFileView>, id: i32) -> Option<int>
    decreases objects.len(),
{
    if objects.len() == 0 {
        None
    } else if objects.last().index == id {
        Some(objects.len() - 1)
    } else {
        object_position(objects.drop_last(), id)
    }
}

/// Whether symbols are attributed to the object at `p`: it is the last
/// object with its index.
pub open spec fn owns_symbols(objects: Seq<ObjectFileView>, p: int) -> bool {
    object_position(objects, objects[p].index) == Some(p)
}

/// The sums of the object at `p`: those of the symbols with its index, or
/// nothing where a later object has the same index.
pub open spec fn object_counts(objects: Seq<ObjectFileView>, ms: Seq<SymbolMetricsView>, p: int)
    -> GlobalTotals {
    if owns_symbols(objects, p) {
        counts(ms, Some(objects[p].index))
    } else {
        zero_totals()
    }
}

/// The metrics of the object at `p`.
pub open spec fn object_metrics_at(
    objects: Seq<ObjectFileView>,
    ms: Seq<SymbolMetricsView>,
    p: int,
) -> ObjectMetricsView {
    let c = object_counts(objects, ms, p);
    ObjectMetricsView {
        id: objects[p].index,
        path: objects[p].path,
        text: c.text,
        data: c.data,
        bss: c.bss,
        other: c.other,
        total: c.total,
    }
}

/// The resolved symbols of a document.
pub open spec fn resolved_symbols(map: MapFileView) -> Seq<SymbolMetricsView> {
    resolved(valid_ranges(map.sections), map.symbols)
}

/// The metrics of a document: one entry per object file, in their order; one
/// per symbol with a readable address, in their order; and the totals over
/// all of these symbols, whether or not their object is known.
pub open spec fn spec_metrics(map: MapFileView) -> MetricsView {
    let ms = resolved_symbols(map);
    MetricsView {
        objects: Seq::new(
            map.object_files.len(),
            |p: int| object_metrics_at(map.object_files, ms, p),
        ),
        symbols: ms,
        totals: counts(ms, None),
    }
}

/// Whether the sizes of all resolved symbols of the document add up to a
/// `u64`.
pub open spec fn sizes_fit(map: MapFileView) -> bool {
    tally(resolved_symbols(map), None, None) <= u64::MAX
}

/// A sum over some of the symbols is at most the sum over all of them.
pub proof fn lemma_tally_bounds(
    ms: Seq<SymbolMetricsView>,
    owner: Option<i32>,
    bucket: Option<Bucket>,
)
    ensures
        0 <= tally(ms, owner, bucket) <= tally(ms, owner, None) <= tally(ms, None, None),
    decreases ms.len(),
{
    if ms.len() > 0 {
        lemma_tally_bounds(ms.drop_last(), owner, bucket);
    }
}

/// The sizes of the first `k` symbols add up to at most the sizes of all.
proof fn lemma_total_monotone(rs: Seq<SectionRangeView>, symbols: Seq<SymbolView>, k: int)
    requires
        0 <= k <= symbols.len(),
    ensures
        tally(resolved(rs, symbols.take(k)), None, None) <= tally(
            resolved(rs, symbols),
            None,
            None,
        ),
    decreases symbols.len(),
{
    if k == symbols.len() {
        assert(symbols.take(k) =~= symbols);
    } else {
        assert(symbols.drop_last().take(k) =~= symbols.take(k));
        lemma_total_monotone(rs, symbols.drop_last(), k);
        match resolve(rs, symbols.last()) {
            Some(m) => {
                assert(resolved(rs, symbols).drop_last() =~= resolved(rs, symbols.drop_last()));
            },
            None => {},
        }
    }
}

/// The position of an index is that of an object with this index; where it
/// has none, no object has the index.
pub proof fn lemma_object_position(objects: Seq<ObjectFileView>, id: i32)
    ensures
        match object_position(objects, id) {
            Some(p) => 0 <= p < objects.len() && objects[p].index == id,
            None => forall|i: int| 0 <= i < objects.len() ==> (#[trigger] objects[i]).index != id,
        },
    decreases objects.len(),
{
    if objects.len() > 0 && objects.last().index != id {
        let front = objects.drop_last();
        lemma_object_position(front, id);
        if object_position(objects, id).is_none() {
            assert forall|i: int| 0 <= i < objects.len() implies (#[trigger] objects[i]).index
                != id by {
                if i < front.len() {
                    assert(front[i].index != id);
                }
            }
        }
    }
}

/// The positions of the objects by their index. Where several objects have
/// one index, the last of them is kept.
fn index_objects(objects: &Vec<ObjectFile>) -> (lookup: HashMap<i32, usize>)
    ensures
        forall|id: i32|
            match object_position(object_file_views(objects@), id) {
                Some(p) => #[trigger] lookup@.contains_key(id) && lookup@[id] == p,
                None => !lookup@.contains_key(id),
            },
{
    let mut lookup: HashMap<i32, usize> = HashMap::new();
    let n = objects.len();
    let ghost views = object_file_views(objects@);
    let mut i: usize = 0;
    while i < n
        invariant
            i <= n == objects@.len(),
            views == object_file_views(objects@),
            forall|id: i32|
                match object_position(views.take(i as int), id) {
                    Some(p) => #[trigger] lookup@.contains_key(id) && lookup@[id] == p,
                    None => !lookup@.contains_key(id),
                },
        decreases n - i,
    {
        let ghost before = lookup@;
        lookup.insert(objects[i].index, i);
        proof {
            let next = views.take(i + 1);
            assert(next.drop_last() =~= views.take(i as int));
            assert(next.last().index == objects@[i as int].index);
            assert forall|id: i32|
                match object_position(next, id) {
                    Some(p) => #[trigger] lookup@.contains_key(id) && lookup@[id] == p,
                    None => !lookup@.contains_key(id),
                } by {
                if id != objects@[i as int].index {
                    assert(before.contains_key(id) == lookup@.contains_key(id));
                }
            }
        }
        i += 1;
    }
    assert(views.take(n as int) =~= views);
    lookup
}

/// `c` with `size` added to the category `bucket` and to the sum.
fn add_size(c: GlobalTotals, bucket: Bucket, size: u64) -> (r: GlobalTotals)
    requires
        c.total + size <= u64::MAX,
        c.text <= c.total,
        c.data <= c.total,
        c.bss <= c.total,
        c.other <= c.total,
    ensures
        r.total == c.total + size,
        r.text == c.text + (if bucket == Bucket::Text { size as int } else { 0 }),
        r.data == c.data + (if bucket == Bucket::Data { size as int } else { 0 }),
        r.bss == c.bss + (if bucket == Bucket::Bss { size as int } else { 0 }),
        r.other == c.other + (if bucket == Bucket::Other { size as int } else { 0 }),
{
    let mut r = c;
    match bucket {
        Bucket::Text => {
            r.text = r.text + size;
        },
        Bucket::Data => {
            r.data = r.data + size;
        },
        Bucket::Bss => {
            r.bss = r.bss + size;
        },
        Bucket::Other => {
            r.other = r.other + size;
        },
    }
    r.total = r.total + size;
    r
}

/// The sums for `owner` after one more symbol, where they all fit.
proof fn lemma_counts_push(ms: Seq<SymbolMetricsView>, m: SymbolMetricsView, owner: Option<i32>)
    requires
        tally(ms.push(m), None, None) <= u64::MAX,
    ensures
        counts(ms.push(m), owner).total == counts(ms, owner).total + counted(m, owner, None),
        counts(ms.push(m), owner).text == counts(ms, owner).text + counted(
            m,
            owner,
            Some(Bucket::Text),
        ),
        counts(ms.push(m), owner).data == counts(ms, owner).data + counted(
            m,
            owner,
            Some(Bucket::Data),
        ),
        counts(ms.push(m), owner).bss == counts(ms, owner).bss + counted(
            m,
            owner,
            Some(Bucket::Bss),
        ),
        counts(ms.push(m), owner).other == counts(ms, owner).other + counted(
            m,
            owner,
            Some(Bucket::Other),
        ),
        counts(ms, owner).text <= counts(ms, owner).total,
        counts(ms, owner).data <= counts(ms, owner).total,
        counts(ms, owner).bss <= counts(ms, owner).total,
        counts(ms, owner).other <= counts(ms, owner).total,
        counts(ms, owner).total + counted(m, owner, None) <= u64::MAX,
{
    let next = ms.push(m);
    assert(next.drop_last() =~= ms);
    assert(next.last() == m);
    lemma_tally_bounds(ms, owner, Some(Bucket::Text));
    lemma_tally_bounds(ms, owner, Some(Bucket::Data));
    lemma_tally_bounds(ms, owner, Some(Bucket::Bss));
    lemma_tally_bounds(ms, owner, Some(Bucket::Other));
    lemma_tally_bounds(next, owner, Some(Bucket::Text));
    lemma_tally_bounds(next, owner, Some(Bucket::Data));
    lemma_tally_bounds(next, owner, Some(Bucket::Bss));
    lemma_tally_bounds(next, owner, Some(Bucket::Other));
    lemma_tally_bounds(ms, None, None);
}

/// Resolves one symbol against the sorted table of ranges.
fn resolve_symbol(
    ranges: &Vec<SectionRange>,
    symbol: &Symbol,
    Ghost(rs): Ghost<Seq<SectionRangeView>>,
) -> (r: Option<SymbolMetrics>)
    requires
        stably_sorted(range_views(ranges@), rs),
    ensures
        match resolve(rs, symbol@) {
            Some(m) => r.is_some() && r.unwrap()@ == m,
            None => r.is_none(),
        },
{
    let address = match parse_hex_u64(symbol.address.as_str()) {
        Some(a) => a,
        None => {
            return None;
        },
    };
    let size = match parse_hex_u64(symbol.size.as_str()) {
        Some(z) => z,
        None => 0,
    };
    let file_index: i32 = match parse_i32(symbol.file_index.as_str()) {
        Some(i) => i,
        None => -1,
    };
    proof {
        lemma_lookup_in_sorted(range_views(ranges@), rs, address);
    }
    let bucket = match find_section(ranges.as_slice(), address) {
        Some(range) => classify(range.segment.as_str(), range.section.as_str()),
        None => Bucket::Other,
    };
    Some(SymbolMetrics { address, size, file_index, name: symbol.name.clone(), bucket })
}

/// Builds the metrics of a document, or `None` where the sizes of its
/// resolved symbols do not add up to a `u64`.
pub fn checked_build_metrics(map: &MapFile) -> (r: Option<Metrics>)
    ensures
        r.is_some() == sizes_fit(map@),
        r.is_some() ==> r.unwrap()@ == spec_metrics(map@),
{
    let ranges = build_section_ranges(map.sections.as_slice());
    let lookup = index_objects(&map.object_files);
    let ghost rs = valid_ranges(map@.sections);
    let ghost objects = map@.object_files;
    let ghost all = map@.symbols;
    let n_objects = map.object_files.len();
    let n_symbols = map.symbols.len();

    let mut per_object: Vec<GlobalTotals> = Vec::new();
    let mut k: usize = 0;
    while k < n_objects
        invariant
            k <= n_objects,
            per_object@.len() == k,
            forall|p: int| 0 <= p < k ==> #[trigger] per_object@[p] == zero_totals(),
        decreases n_objects - k,
    {
        per_object.push(GlobalTotals::default());
        k += 1;
    }
    let mut totals = GlobalTotals::default();
    let mut symbols: Vec<SymbolMetrics> = Vec::new();
    let mut i: usize = 0;
    proof {
        assert(all.take(0) =~= Seq::<SymbolView>::empty());
        assert(symbol_metrics_views(symbols@) =~= Seq::<SymbolMetricsView>::empty());
    }
    while i < n_symbols
        invariant
            i <= n_symbols == map.symbols@.len(),
            n_objects == map.object_files@.len(),
            rs == valid_ranges(map@.sections),
            objects == map@.object_files,
            all == map@.symbols,
            stably_sorted(range_views(ranges@), rs),
            forall|id: i32|
                match object_position(objects, id) {
                    Some(p) => #[trigger] lookup@.contains_key(id) && lookup@[id] == p,
                    None => !lookup@.contains_key(id),
                },
            symbol_metrics_views(symbols@) == resolved(rs, all.take(i as int)),
            tally(resolved(rs, all.take(i as int)), None, None) <= u64::MAX,
            totals == counts(resolved(rs, all.take(i as int)), None),
            per_object@.len() == n_objects,
            forall|p: int|
                0 <= p < n_objects ==> #[trigger] per_object@[p] == object_counts(
                    objects,
                    resolved(rs, all.take(i as int)),
                    p,
                ),
        decreases n_symbols - i,
    {
        let symbol = &map.symbols[i];
        let ghost done = resolved(rs, all.take(i as int));
        proof {
            let next = all.take(i + 1);
            assert(next.drop_last() =~= all.take(i as int));
            assert(next.last() == symbol@);
        }
        match resolve_symbol(&ranges, symbol, Ghost(rs)) {
            Some(metrics) => {
                let ghost m = metrics@;
                let ghost after = done.push(m);
                assert(resolved(rs, all.take(i + 1)) == after);
                proof {
                    assert(after.drop_last() =~= done);
                }
                if totals.total.checked_add(metrics.size).is_none() {
                    proof {
                        lemma_tally_bounds(done, None, None);
                        assert(after.last() == m);
                        assert(tally(after, None, None) == tally(done, None, None) + m.size);
                        lemma_total_monotone(rs, all, i + 1);
                    }
                    return None;
                }
                proof {
                    lemma_counts_push(done, m, None);
                }
                totals = add_size(totals, metrics.bucket, metrics.size);
                match lookup.get(&metrics.file_index) {
                    Some(position) => {
                        let q = *position;
                        proof {
                            lemma_object_position(objects, m.file_index);
                            lemma_counts_push(done, m, Some(m.file_index));
                        }
                        let updated = add_size(per_object[q], metrics.bucket, metrics.size);
                        per_object.set(q, updated);
                    },
                    None => {},
                }
                proof {
                    assert forall|p: int| 0 <= p < n_objects implies #[trigger] per_object@[p]
                        == object_counts(objects, after, p) by {
                        lemma_counts_push(done, m, Some(objects[p].index));
                    }
                }
                let ghost before = symbols@;
                symbols.push(metrics);
                assert(symbol_metrics_views(symbols@) =~= symbol_metrics_views(before).push(m));
            },
            None => {},
        }
        i += 1;
    }
    proof {
        assert(all.take(n_symbols as int) =~= all);
    }
    let ghost ms = resolved(rs, all);
    let mut entries: Vec<ObjectMetrics> = Vec::new();
    let mut p: usize = 0;
    while p < n_objects
        invariant
            p <= n_objects == map.object_files@.len(),
            objects == map@.object_files,
            per_object@.len() == n_objects,
            forall|j: int|
                0 <= j < n_objects ==> #[trigger] per_object@[j] == object_counts(objects, ms, j),
            entries@.len() == p,
            forall|j: int|
                0 <= j < p ==> (#[trigger] entries@[j])@ == object_metrics_at(objects, ms, j),
        decreases n_objects - p,
    {
        let object = &map.object_files[p];
        let c = per_object[p];
        assert(objects[p as int] == object@);
        entries.push(
            ObjectMetrics {
                id: object.index,
                path: object.path.clone(),
                text: c.text,
                data: c.data,
                bss: c.bss,
                other: c.other,
                total: c.total,
            },
        );
        p += 1;
    }
    assert(object_metrics_views(entries@) =~= spec_metrics(map@).objects);
    Some(Metrics { objects: entries, symbols, totals })
}

/// Builds the metrics of a document: per object, per symbol and in total.
pub fn build_metrics(map: &MapFile) -> (metrics: Metrics)
    requires
        sizes_fit(map@),
    ensures
        metrics@ == spec_metrics(map@),
{
    checked_build_metrics(map).unwrap()
}

} // verus!
