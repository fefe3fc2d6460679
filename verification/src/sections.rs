//! The section-range index: the address ranges of the sections of a
//! document, sorted by their start, the lookup of the range that holds an
//! address, and the category of a section.

use vstd::prelude::*;
use crate::sorting::{
    all_below, index_order, indices_stably_ordered, key_views, level_indices, sort_indices,
    uniform, RowKey, SortDirection, SortValue,
};
use crate::model::{section_views, Section, SectionView};
use crate::numbers::{parse_hex_u64, spec_parse_hex_u64};
use crate::text::{ascii_fold, eq_ignore_ascii_case, same_ignoring_case};

verus! {

/// The category of memory that a symbol counts towards.
#[derive(Debug, Clone, Copy, PartialEq, Eq, Hash, Structural)]
pub enum Bucket {
    Text,
    Data,
    Bss,
    Other,
}

/// The half-open address range `[start, end)` of one section.
#[derive(Debug)]
pub struct SectionRange {
    pub start: u64,
    pub end: u64,
    pub segment: String,
    pub section: String,
}

/// A range, with its names as sequences of characters.
pub struct SectionRangeView {
    pub start: u64,
    pub end: u64,
    pub segment: Seq<char>,
    pub section: Seq<char>,
}

impl View for SectionRange {
    type V = SectionRangeView;

    open spec fn view(&self) -> SectionRangeView {
        SectionRangeView {
            start: self.start,
            end: self.end,
            segment: self.segment@,
            section: self.section@,
        }
    }
}

/// The views of a sequence of ranges.
pub open spec fn range_views(v: Seq<SectionRange>) -> Seq<SectionRangeView> {
    v.map_values(|x: SectionRange| x@)
}

/// Whether a section name belongs to initialized data.
pub open spec fn is_data_section(section: Seq<char>) -> bool {
    ||| eq_ignore_ascii_case(section, "__data"@)
    ||| eq_ignore_ascii_case(section, "__const"@)
    ||| eq_ignore_ascii_case(section, "__got"@)
    ||| eq_ignore_ascii_case(section, "__mod_init_func"@)
    ||| eq_ignore_ascii_case(section, "__cstring"@)
    ||| eq_ignore_ascii_case(section, "__const_coal"@)
}

/// Whether a section name belongs to uninitialized data.
pub open spec fn is_bss_section(section: Seq<char>) -> bool {
    ||| eq_ignore_ascii_case(section, "__bss"@)
    ||| eq_ignore_ascii_case(section, "__bss_coal"@)
    ||| eq_ignore_ascii_case(section, "__common"@)
}

/// The category of a section: everything in the segment `__TEXT` is code,
/// whatever the section; elsewhere the section name decides. Names are
/// compared without regard to the case of ASCII letters.
pub open spec fn spec_classify(segment: Seq<char>, section: Seq<char>) -> Bucket {
    if eq_ignore_ascii_case(segment, "__TEXT"@) {
        Bucket::Text
    } else if is_data_section(section) {
        Bucket::Data
    } else if is_bss_section(section) {
        Bucket::Bss
    } else {
        Bucket::Other
    }
}

/// The category of the section `section` of the segment `segment`.
pub fn classify(segment: &str, section: &str) -> (bucket: Bucket)
    ensures
        bucket == spec_classify(segment@, section@),
{
    if same_ignoring_case(segment, "__TEXT") {
        return Bucket::Text;
    }
    if same_ignoring_case(section, "__data") || same_ignoring_case(section, "__const")
        || same_ignoring_case(section, "__got") || same_ignoring_case(section, "__mod_init_func")
        || same_ignoring_case(section, "__cstring") || same_ignoring_case(
        section,
        "__const_coal",
    ) {
        return Bucket::Data;
    }
    if same_ignoring_case(section, "__bss") || same_ignoring_case(section, "__bss_coal")
        || same_ignoring_case(section, "__common") {
        return Bucket::Bss;
    }
    Bucket::Other
}

/// `a + b`, or the largest `u64` where the sum is larger.
pub open spec fn saturating_sum(a: u64, b: u64) -> u64 {
    if a + b > u64::MAX {
        u64::MAX
    } else {
        (a + b) as u64
    }
}

/// The range of a section: its address and size read as hexadecimal, the
/// end saturating. None where either of them is no hexadecimal `u64`.
pub open spec fn range_of(section: SectionView) -> Option<SectionRangeView> {
    match (spec_parse_hex_u64(section.address), spec_parse_hex_u64(section.size)) {
        (Some(start), Some(size)) => Some(
            SectionRangeView {
                start,
                end: saturating_sum(start, size),
                segment: section.segment,
                section: section.section,
            },
        ),
        _ => None,
    }
}

/// The ranges of the sections that have one, in the order of the sections.
pub open spec fn valid_ranges(sections: Seq<SectionView>) -> Seq<SectionRangeView>
    decreases sections.len(),
{
    if sections.len() == 0 {
        Seq::empty()
    } else {
        match range_of(sections.last()) {
            Some(r) => valid_ranges(sections.drop_last()).push(r),
            None => valid_ranges(sections.drop_last()),
        }
    }
}

/// Whether the starts of `rs` ascend.
pub open spec fn sorted_by_start(rs: Seq<SectionRangeView>) -> bool {
    forall|i: int, j: int| 0 <= i <= j < rs.len() ==> rs[i].start <= rs[j].start
}

/// The ranges of `rs` that start at `start`, in their order.
pub open spec fn with_start(rs: Seq<SectionRangeView>, start: u64) -> Seq<SectionRangeView>
    decreases rs.len(),
{
    if rs.len() == 0 {
        Seq::empty()
    } else if rs.last().start == start {
        with_start(rs.drop_last(), start).push(rs.last())
    } else {
        with_start(rs.drop_last(), start)
    }
}

/// Whether `sorted` holds the ranges of `rs` in ascending order of their
/// start, those with the same start in the order they have in `rs`.
pub open spec fn stably_sorted(sorted: Seq<SectionRangeView>, rs: Seq<SectionRangeView>) -> bool {
    &&& sorted_by_start(sorted)
    &&& forall|start: u64| #[trigger] with_start(sorted, start) == with_start(rs, start)
}

/// The last index of `rs` whose range starts at or below `address`, or -1.
pub open spec fn rightmost_at_or_below(rs: Seq<SectionRangeView>, address: u64) -> int
    decreases rs.len(),
{
    if rs.len() == 0 {
        -1
    } else if rs.last().start <= address {
        rs.len() - 1
    } else {
        rightmost_at_or_below(rs.drop_last(), address)
    }
}

/// The lookup in a sorted table: the last range that starts at or below
/// `address`, if `address` lies before its end.
pub open spec fn spec_find_section(rs: Seq<SectionRangeView>, address: u64) -> Option<
    SectionRangeView,
> {
    let k = rightmost_at_or_below(rs, address);
    if k >= 0 && address < rs[k].end {
        Some(rs[k])
    } else {
        None
    }
}

/// Among the ranges of `rs` that start at or below `address`, the one with
/// the largest start; among several with that start, the last of them.
pub open spec fn nearest_below(rs: Seq<SectionRangeView>, address: u64) -> Option<
    SectionRangeView,
>
    decreases rs.len(),
{
    if rs.len() == 0 {
        None
    } else {
        let before = nearest_below(rs.drop_last(), address);
        let x = rs.last();
        if x.start <= address && (before.is_none() || before.unwrap().start <= x.start) {
            Some(x)
        } else {
            before
        }
    }
}

/// The range that holds `address`: the nearest range at or below it, if
/// `address` lies before its end. Where ranges overlap, the nearest start
/// decides, and nothing else is looked at.
pub open spec fn containing_range(rs: Seq<SectionRangeView>, address: u64) -> Option<
    SectionRangeView,
> {
    match nearest_below(rs, address) {
        Some(r) => if address < r.end {
            Some(r)
        } else {
            None
        },
        None => None,
    }
}

/// The ranges at the positions `indices`.
pub open spec fn picked_ranges(rs: Seq<SectionRangeView>, indices: Seq<usize>) -> Seq<
    SectionRangeView,
> {
    indices.map_values(|i: usize| rs[i as int])
}

/// The ranges of the sections that have one, in the order of the sections.
fn section_ranges(sections: &[Section]) -> (ranges: Vec<SectionRange>)
    ensures
        range_views(ranges@) == valid_ranges(section_views(sections@)),
{
    let mut ranges: Vec<SectionRange> = Vec::new();
    let n = sections.len();
    let mut i: usize = 0;
    assert(section_views(sections@.take(0)) =~= Seq::<SectionView>::empty());
    assert(range_views(ranges@) =~= Seq::<SectionRangeView>::empty());
    while i < n
        invariant
            i <= n == sections@.len(),
            range_views(ranges@) == valid_ranges(section_views(sections@.take(i as int))),
        decreases n - i,
    {
        let section = &sections[i];
        let ghost before = ranges@;
        proof {
            let next = section_views(sections@.take(i + 1));
            assert(next.drop_last() =~= section_views(sections@.take(i as int)));
            assert(next.last() == section@);
        }
        let start = parse_hex_u64(section.address.as_str());
        let size = parse_hex_u64(section.size.as_str());
        if start.is_some() && size.is_some() {
            let start = start.unwrap();
            let range = SectionRange {
                start,
                end: start.saturating_add(size.unwrap()),
                segment: section.segment.clone(),
                section: section.section.clone(),
            };
            ranges.push(range);
            assert(range_views(ranges@) =~= range_views(before).push(range@));
        }
        i += 1;
    }
    assert(sections@.take(n as int) =~= sections@);
    ranges
}

/// The ranges of `sections`, sorted by their start. Sections whose address
/// or size is no hexadecimal `u64` have no range. Ranges with the same
/// start keep the order of their sections.
pub fn build_section_ranges(sections: &[Section]) -> (ranges: Vec<SectionRange>)
    ensures
        stably_sorted(range_views(ranges@), valid_ranges(section_views(sections@))),
{
    let unsorted = section_ranges(sections);
    let n = unsorted.len();
    let ghost rs = range_views(unsorted@);
    let mut keys: Vec<SortValue> = Vec::new();
    let mut positions: Vec<usize> = Vec::new();
    let mut i: usize = 0;
    while i < n
        invariant
            i <= n == unsorted@.len(),
            rs == range_views(unsorted@),
            keys@.len() == i,
            forall|j: int| 0 <= j < i ==> (#[trigger] keys@[j])@ == RowKey::Number(rs[j].start),
            positions@ == Seq::new(i as nat, |k: int| k as usize),
        decreases n - i,
    {
        keys.push(SortValue::Number(unsorted[i].start));
        positions.push(i);
        i += 1;
        assert(positions@ =~= Seq::new(i as nat, |k: int| k as usize));
    }
    let ghost source = positions@;
    sort_indices(&mut positions, &keys, SortDirection::Ascending);
    proof {
        assert(picked_ranges(rs, source) =~= rs);
        lemma_picked_sorted(rs, key_views(keys@), positions@, source);
    }
    let mut ranges: Vec<SectionRange> = Vec::new();
    let mut j: usize = 0;
    assert(range_views(ranges@) =~= picked_ranges(rs, positions@.take(0)));
    while j < n
        invariant
            j <= n == positions@.len(),
            n == unsorted@.len(),
            rs == range_views(unsorted@),
            all_below(positions@, n as nat),
            range_views(ranges@) == picked_ranges(rs, positions@.take(j as int)),
        decreases n - j,
    {
        let ghost before = ranges@;
        let position = positions[j];
        let from = &unsorted[position];
        let range = SectionRange {
            start: from.start,
            end: from.end,
            segment: from.segment.clone(),
            section: from.section.clone(),
        };
        ranges.push(range);
        j += 1;
        proof {
            assert(range@ == rs[position as int]);
            assert(range_views(ranges@) =~= range_views(before).push(range@));
            assert(positions@.take(j as int) =~= positions@.take(j - 1).push(position));
            assert(picked_ranges(rs, positions@.take(j as int)) =~= picked_ranges(
                rs,
                positions@.take(j - 1),
            ).push(rs[position as int]));
        }
    }
    assert(positions@.take(n as int) =~= positions@);
    ranges
}

/// In a sorted table in which the ranges before `k` start at or below
/// `address` and those from `k` on start above it, the last index at or
/// below `address` is `k - 1`.
proof fn lemma_rightmost(rs: Seq<SectionRangeView>, address: u64, k: int)
    requires
        0 <= k <= rs.len(),
        forall|i: int| 0 <= i < k ==> (#[trigger] rs[i]).start <= address,
        forall|i: int| k <= i < rs.len() ==> (#[trigger] rs[i]).start > address,
    ensures
        rightmost_at_or_below(rs, address) == k - 1,
    decreases rs.len(),
{
    if rs.len() > k {
        lemma_rightmost(rs.drop_last(), address, k);
    }
}

/// Finds the range that holds `address` in a table sorted by start: the last
/// range that starts at or below `address`, where `address` lies before its
/// end.
pub fn find_section(ranges: &[SectionRange], address: u64) -> (r: Option<&SectionRange>)
    requires
        sorted_by_start(range_views(ranges@)),
    ensures
        match spec_find_section(range_views(ranges@), address) {
            Some(v) => r.is_some() && r.unwrap()@ == v,
            None => r.is_none(),
        },
{
    let ghost rs = range_views(ranges@);
    let mut low: usize = 0;
    let mut high: usize = ranges.len();
    while low < high
        invariant
            low <= high <= ranges@.len(),
            rs == range_views(ranges@),
            sorted_by_start(rs),
            forall|i: int| 0 <= i < low ==> (#[trigger] rs[i]).start <= address,
            forall|i: int| high <= i < rs.len() ==> (#[trigger] rs[i]).start > address,
        decreases high - low,
    {
        let mid = low + (high - low) / 2;
        assert(rs[mid as int] == ranges@[mid as int]@);
        if ranges[mid].start <= address {
            low = mid + 1;
        } else {
            high = mid;
        }
    }
    proof {
        lemma_rightmost(rs, address, low as int);
    }
    if low == 0 {
        return None;
    }
    let candidate = &ranges[low - 1];
    assert(rs[low - 1] == candidate@);
    if address < candidate.end {
        Some(candidate)
    } else {
        None
    }
}

/// A range of `rs` is among the ranges of `rs` with its start.
proof fn lemma_with_start_nonempty(rs: Seq<SectionRangeView>, i: int)
    requires
        0 <= i < rs.len(),
    ensures
        with_start(rs, rs[i].start).len() > 0,
    decreases rs.len(),
{
    if i < rs.len() - 1 {
        lemma_with_start_nonempty(rs.drop_last(), i);
    }
}

/// Where some ranges of `rs` start at `start`, one of `rs` does.
proof fn lemma_with_start_witness(rs: Seq<SectionRangeView>, start: u64) -> (i: int)
    requires
        with_start(rs, start).len() > 0,
    ensures
        0 <= i < rs.len(),
        rs[i].start == start,
    decreases rs.len(),
{
    if rs.last().start == start {
        rs.len() - 1
    } else {
        lemma_with_start_witness(rs.drop_last(), start)
    }
}

/// The last range of `rs` with a given start is the last of the ranges with
/// that start.
proof fn lemma_with_start_last(rs: Seq<SectionRangeView>, k: int)
    requires
        0 <= k < rs.len(),
        forall|j: int| k < j < rs.len() ==> (#[trigger] rs[j]).start != rs[k].start,
    ensures
        with_start(rs, rs[k].start).len() > 0,
        with_start(rs, rs[k].start).last() == rs[k],
    decreases rs.len(),
{
    if k < rs.len() - 1 {
        assert(rs[rs.len() - 1].start != rs[k].start);
        lemma_with_start_last(rs.drop_last(), k);
    }
}

/// `rightmost_at_or_below` is the last index whose range starts at or below
/// the address.
proof fn lemma_rightmost_is_last(rs: Seq<SectionRangeView>, address: u64)
    ensures
        -1 <= rightmost_at_or_below(rs, address) < rs.len(),
        rightmost_at_or_below(rs, address) >= 0 ==> rs[rightmost_at_or_below(
            rs,
            address,
        )].start <= address,
        forall|j: int|
            rightmost_at_or_below(rs, address) < j < rs.len() ==> (#[trigger] rs[j]).start
                > address,
    decreases rs.len(),
{
    if rs.len() > 0 && rs.last().start > address {
        let front = rs.drop_last();
        lemma_rightmost_is_last(front, address);
        assert forall|j: int| rightmost_at_or_below(rs, address) < j < rs.len() implies (
        #[trigger] rs[j]).start > address by {
            if j < front.len() {
                assert(front[j].start > address);
            }
        }
    }
}

/// `nearest_below` has the largest start at or below the address, and is the
/// last of the ranges with that start.
proof fn lemma_nearest_below(rs: Seq<SectionRangeView>, address: u64)
    ensures
        match nearest_below(rs, address) {
            Some(x) => {
                &&& x.start <= address
                &&& forall|i: int|
                    0 <= i < rs.len() && (#[trigger] rs[i]).start <= address ==> rs[i].start
                        <= x.start
                &&& with_start(rs, x.start).len() > 0
                &&& with_start(rs, x.start).last() == x
            },
            None => forall|i: int| 0 <= i < rs.len() ==> (#[trigger] rs[i]).start > address,
        },
    decreases rs.len(),
{
    if rs.len() > 0 {
        let front = rs.drop_last();
        lemma_nearest_below(front, address);
        assert forall|i: int| 0 <= i < front.len() implies front[i] == rs[i] by {}
        match nearest_below(rs, address) {
            Some(x) => {
                assert forall|i: int|
                    0 <= i < rs.len() && (#[trigger] rs[i]).start <= address implies rs[i].start
                    <= x.start by {
                    if i < front.len() {
                        assert(front[i].start <= address);
                    }
                }
            },
            None => {
                assert forall|i: int| 0 <= i < rs.len() implies (#[trigger] rs[i]).start
                    > address by {
                    if i < front.len() {
                        assert(front[i].start > address);
                    }
                }
            },
        }
    }
}

/// The lookup in the sorted table finds the range that holds the address:
/// among the ranges that start at or below it, the one with the largest
/// start and, among several with that start, the last in the order of the
/// source.
pub proof fn lemma_lookup_in_sorted(
    sorted: Seq<SectionRangeView>,
    rs: Seq<SectionRangeView>,
    address: u64,
)
    requires
        stably_sorted(sorted, rs),
    ensures
        spec_find_section(sorted, address) == containing_range(rs, address),
{
    lemma_rightmost_is_last(sorted, address);
    lemma_nearest_below(rs, address);
    let k = rightmost_at_or_below(sorted, address);
    if k < 0 {
        if nearest_below(rs, address).is_some() {
            let x = nearest_below(rs, address).unwrap();
            assert(with_start(sorted, x.start) == with_start(rs, x.start));
            let j = lemma_with_start_witness(sorted, x.start);
            assert(sorted[j].start > address);
        }
    } else {
        let y = sorted[k];
        lemma_with_start_nonempty(sorted, k);
        assert(with_start(sorted, y.start) == with_start(rs, y.start));
        let i = lemma_with_start_witness(rs, y.start);
        assert(rs[i].start <= address);
        let x = nearest_below(rs, address).unwrap();
        assert(with_start(sorted, x.start) == with_start(rs, x.start));
        let j = lemma_with_start_witness(sorted, x.start);
        if j > k {
            assert(sorted[j].start > address);
        }
        assert(x.start == y.start);
        assert forall|m: int| k < m < sorted.len() implies (#[trigger] sorted[m]).start
            != sorted[k].start by {
            assert(sorted[m].start > address);
        }
        lemma_with_start_last(sorted, k);
    }
}

/// The category does not depend on the case of the ASCII letters of the
/// segment and section names.
pub proof fn lemma_classify_ignores_case(
    segment: Seq<char>,
    section: Seq<char>,
    other_segment: Seq<char>,
    other_section: Seq<char>,
)
    requires
        eq_ignore_ascii_case(segment, other_segment),
        eq_ignore_ascii_case(section, other_section),
    ensures
        spec_classify(segment, section) == spec_classify(other_segment, other_section),
{
    lemma_same_up_to_case(segment, other_segment, "__TEXT"@);
    lemma_same_up_to_case(section, other_section, "__data"@);
    lemma_same_up_to_case(section, other_section, "__const"@);
    lemma_same_up_to_case(section, other_section, "__got"@);
    lemma_same_up_to_case(section, other_section, "__mod_init_func"@);
    lemma_same_up_to_case(section, other_section, "__cstring"@);
    lemma_same_up_to_case(section, other_section, "__const_coal"@);
    lemma_same_up_to_case(section, other_section, "__bss"@);
    lemma_same_up_to_case(section, other_section, "__bss_coal"@);
    lemma_same_up_to_case(section, other_section, "__common"@);
}

/// Two texts that are equal up to case are equal up to case to the same
/// texts.
proof fn lemma_same_up_to_case(a: Seq<char>, b: Seq<char>, name: Seq<char>)
    requires
        eq_ignore_ascii_case(a, b),
    ensures
        eq_ignore_ascii_case(a, name) == eq_ignore_ascii_case(b, name),
{
    if a.len() == name.len() {
        if eq_ignore_ascii_case(a, name) {
            assert forall|i: int| 0 <= i < b.len() implies ascii_fold(
                #[trigger] b[i],
            ) == ascii_fold(name[i]) by {
                assert(ascii_fold(a[i]) == ascii_fold(b[i]));
            }
        }
        if eq_ignore_ascii_case(b, name) {
            assert forall|i: int| 0 <= i < a.len() implies ascii_fold(
                #[trigger] a[i],
            ) == ascii_fold(name[i]) by {
                assert(ascii_fold(b[i]) == ascii_fold(name[i]));
            }
        }
    }
}

/// The range that holds an address is one of the ranges, and the address
/// lies from its start up to, not including, its end.
pub proof fn lemma_containing_range_holds(rs: Seq<SectionRangeView>, address: u64)
    ensures
        match containing_range(rs, address) {
            Some(r) => rs.contains(r) && r.start <= address < r.end,
            None => true,
        },
{
    lemma_nearest_below(rs, address);
    if containing_range(rs, address).is_some() {
        let r = nearest_below(rs, address).unwrap();
        let i = lemma_with_start_witness_of_last(rs, r.start);
        assert(rs[i] == r);
    }
}

/// The last of the ranges with a start is one of the ranges.
proof fn lemma_with_start_witness_of_last(rs: Seq<SectionRangeView>, start: u64) -> (i: int)
    requires
        with_start(rs, start).len() > 0,
    ensures
        0 <= i < rs.len(),
        rs[i] == with_start(rs, start).last(),
    decreases rs.len(),
{
    if rs.last().start == start {
        rs.len() - 1
    } else {
        lemma_with_start_witness_of_last(rs.drop_last(), start)
    }
}

/// Sorting is determined by its source: two tables that both hold the
/// ranges of `rs` stably sorted are the same table.
pub proof fn lemma_sorted_table_is_unique(
    a: Seq<SectionRangeView>,
    b: Seq<SectionRangeView>,
    rs: Seq<SectionRangeView>,
)
    requires
        stably_sorted(a, rs),
        stably_sorted(b, rs),
    ensures
        a == b,
{
    assert forall|start: u64| #[trigger] with_start(a, start) == with_start(b, start) by {
        assert(with_start(a, start) == with_start(rs, start));
        assert(with_start(b, start) == with_start(rs, start));
    }
    lemma_same_groups_same_table(a, b);
}

/// Two sorted tables that hold the same ranges for every start, in the same
/// order, are equal.
proof fn lemma_same_groups_same_table(a: Seq<SectionRangeView>, b: Seq<SectionRangeView>)
    requires
        sorted_by_start(a),
        sorted_by_start(b),
        forall|start: u64| #[trigger] with_start(a, start) == with_start(b, start),
    ensures
        a == b,
    decreases a.len(),
{
    if a.len() == 0 {
        if b.len() > 0 {
            lemma_with_start_nonempty(b, 0);
            assert(with_start(a, b[0].start) == with_start(b, b[0].start));
        }
        assert(a =~= b);
    } else {
        let x = a.last();
        lemma_with_start_nonempty(a, a.len() - 1);
        assert(with_start(a, x.start) == with_start(b, x.start));
        let j = lemma_with_start_witness(b, x.start);
        let y = b.last();
        lemma_with_start_nonempty(b, b.len() - 1);
        assert(with_start(a, y.start) == with_start(b, y.start));
        let i = lemma_with_start_witness(a, y.start);
        assert(b[j].start <= y.start);
        assert(a[i].start <= x.start);
        assert(x.start == y.start);
        let front_a = a.drop_last();
        let front_b = b.drop_last();
        assert(with_start(a, x.start) == with_start(front_a, x.start).push(x));
        assert(with_start(b, x.start) == with_start(front_b, x.start).push(y));
        assert(with_start(a, x.start).last() == x);
        assert(with_start(b, x.start).last() == y);
        assert forall|start: u64| #[trigger]
            with_start(front_a, start) == with_start(front_b, start) by {
            assert(with_start(a, start) == with_start(b, start));
            if start == x.start {
                assert(with_start(front_a, start) =~= with_start(a, start).drop_last());
                assert(with_start(front_b, start) =~= with_start(b, start).drop_last());
            }
        }
        lemma_same_groups_same_table(front_a, front_b);
        assert(a =~= front_a.push(x));
        assert(b =~= front_b.push(y));
    }
}

/// Where no range starts at `start`, the ranges with that start are none.
proof fn lemma_with_start_empty(rs: Seq<SectionRangeView>, start: u64)
    requires
        forall|i: int| 0 <= i < rs.len() ==> (#[trigger] rs[i]).start != start,
    ensures
        with_start(rs, start).len() == 0,
{
    if with_start(rs, start).len() > 0 {
        let i = lemma_with_start_witness(rs, start);
    }
}

/// The ranges with the start of the range at `z`, among those at `indices`,
/// are the ranges at the indices that are level with `z`.
proof fn lemma_with_start_of_picked(
    rs: Seq<SectionRangeView>,
    keys: Seq<RowKey>,
    indices: Seq<usize>,
    z: usize,
)
    requires
        keys.len() == rs.len(),
        forall|j: int| 0 <= j < keys.len() ==> #[trigger] keys[j] == RowKey::Number(rs[j].start),
        all_below(indices, rs.len()),
        z < rs.len(),
    ensures
        with_start(picked_ranges(rs, indices), rs[z as int].start) == picked_ranges(
            rs,
            level_indices(indices, z, keys, SortDirection::Ascending),
        ),
    decreases indices.len(),
{
    let direction = SortDirection::Ascending;
    if indices.len() == 0 {
        assert(picked_ranges(rs, indices) =~= Seq::<SectionRangeView>::empty());
        assert(picked_ranges(rs, level_indices(indices, z, keys, direction)) =~= Seq::<
            SectionRangeView,
        >::empty());
    } else {
        let front = indices.drop_last();
        let last = indices.last();
        assert(last == indices[indices.len() - 1]);
        lemma_with_start_of_picked(rs, keys, front, z);
        assert(picked_ranges(rs, indices).drop_last() =~= picked_ranges(rs, front));
        assert(picked_ranges(rs, indices).last() == rs[last as int]);
        assert(keys[z as int] == RowKey::Number(rs[z as int].start));
        assert(keys[last as int] == RowKey::Number(rs[last as int].start));
        if rs[last as int].start == rs[z as int].start {
            assert(picked_ranges(rs, level_indices(indices, z, keys, direction)) =~= picked_ranges(
                rs,
                level_indices(front, z, keys, direction),
            ).push(rs[last as int]));
        }
    }
}

/// Indices stably ordered by the starts of their ranges pick the ranges
/// stably sorted.
proof fn lemma_picked_sorted(
    rs: Seq<SectionRangeView>,
    keys: Seq<RowKey>,
    sorted: Seq<usize>,
    source: Seq<usize>,
)
    requires
        keys.len() == rs.len(),
        forall|j: int| 0 <= j < keys.len() ==> #[trigger] keys[j] == RowKey::Number(rs[j].start),
        all_below(source, rs.len()),
        all_below(sorted, rs.len()),
        indices_stably_ordered(sorted, source, keys, SortDirection::Ascending),
    ensures
        stably_sorted(picked_ranges(rs, sorted), picked_ranges(rs, source)),
{
    let direction = SortDirection::Ascending;
    let a = picked_ranges(rs, sorted);
    let b = picked_ranges(rs, source);
    assert forall|i: int, j: int| 0 <= i <= j < a.len() implies a[i].start <= a[j].start by {
        assert(index_order(keys, sorted[i], sorted[j], direction) <= 0);
        assert(keys[sorted[i] as int] == RowKey::Number(rs[sorted[i] as int].start));
        assert(keys[sorted[j] as int] == RowKey::Number(rs[sorted[j] as int].start));
    }
    sorted.to_multiset_ensures();
    source.to_multiset_ensures();
    assert forall|start: u64| #[trigger] with_start(a, start) == with_start(b, start) by {
        if exists|i: int| 0 <= i < sorted.len() && (#[trigger] a[i]).start == start {
            let i = choose|i: int| 0 <= i < sorted.len() && (#[trigger] a[i]).start == start;
            let z = sorted[i];
            lemma_with_start_of_picked(rs, keys, sorted, z);
            lemma_with_start_of_picked(rs, keys, source, z);
            assert(level_indices(sorted, z, keys, direction) == level_indices(
                source,
                z,
                keys,
                direction,
            ));
        } else {
            lemma_with_start_empty(a, start);
            assert forall|j: int| 0 <= j < b.len() implies (#[trigger] b[j]).start != start by {
                assert(source.contains(source[j]));
                assert(sorted.to_multiset().count(source[j]) > 0);
                assert(sorted.contains(source[j]));
                let i = choose|i: int| 0 <= i < sorted.len() && sorted[i] == source[j];
                assert(a[i] == b[j]);
            }
            lemma_with_start_empty(b, start);
            assert(with_start(a, start) =~= with_start(b, start));
        }
    }
}

} // verus!
