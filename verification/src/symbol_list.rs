//! The list of symbols in the browser: the symbols of the selected object
//! that pass the filter, their order, the selection and the window.

use vstd::prelude::*;
use crate::listing::{clamp_selection, clamped, scroll_to, scrolled};
use crate::sorting::{
    all_below, indices_stably_ordered, key_views, opposite, sort_indices, uniform, RowKey,
    SortDirection, SortValue,
};
use crate::metrics::{symbol_metrics_views, SymbolMetrics, SymbolMetricsView};
use crate::text::{contains_ignoring_case, contains_text};

verus! {

/// What the symbols are sorted by.
#[derive(Debug, Clone, Copy, PartialEq, Eq, Structural)]
pub enum SymbolSortKey {
    Size,
    Address,
    Name,
}

/// The state of the list of symbols. `filtered_indices` holds positions in
/// the symbols; they are valid positions as long as `wf` holds.
pub struct SymbolsState {
    pub symbols: Vec<SymbolMetrics>,
    pub current_object_id: Option<i32>,
    pub filter_text: String,
    pub filtered_indices: Vec<usize>,
    pub sort_key: SymbolSortKey,
    pub sort_direction: SortDirection,
    pub selected_pos: usize,
    pub offset: usize,
    pub view_rows: usize,
}

/// What a symbol is sorted by under `key`.
pub open spec fn symbol_key(symbol: SymbolMetricsView, key: SymbolSortKey) -> RowKey {
    match key {
        SymbolSortKey::Size => RowKey::Number(symbol.size),
        SymbolSortKey::Address => RowKey::Number(symbol.address),
        SymbolSortKey::Name => RowKey::Text(symbol.name),
    }
}

/// The sort keys of all symbols.
pub open spec fn symbol_keys(symbols: Seq<SymbolMetricsView>, key: SymbolSortKey) -> Seq<RowKey> {
    symbols.map_values(|m: SymbolMetricsView| symbol_key(m, key))
}

/// The positions of the symbols of the object `id` whose name holds
/// `needle`, up to the case of ASCII letters, in ascending order.
pub open spec fn matching_symbols(symbols: Seq<SymbolMetricsView>, id: i32, needle: Seq<char>)
    -> Seq<usize>
    decreases symbols.len(),
{
    if symbols.len() == 0 {
        Seq::empty()
    } else if symbols.last().file_index == id && contains_ignoring_case(
        symbols.last().name,
        needle,
    ) {
        matching_symbols(symbols.drop_last(), id, needle).push((symbols.len() - 1) as usize)
    } else {
        matching_symbols(symbols.drop_last(), id, needle)
    }
}

/// The key that follows `key` when the sort key is cycled.
pub open spec fn next_symbol_key(key: SymbolSortKey) -> SymbolSortKey {
    match key {
        SymbolSortKey::Size => SymbolSortKey::Address,
        SymbolSortKey::Address => SymbolSortKey::Name,
        SymbolSortKey::Name => SymbolSortKey::Size,
    }
}

/// The sort keys of all symbols, as values.
fn symbol_sort_values(symbols: &Vec<SymbolMetrics>, key: SymbolSortKey) -> (keys: Vec<SortValue>)
    ensures
        key_views(keys@) == symbol_keys(symbol_metrics_views(symbols@), key),
        uniform(key_views(keys@)),
        keys@.len() == symbols@.len(),
{
    let n = symbols.len();
    let mut keys: Vec<SortValue> = Vec::new();
    let mut i: usize = 0;
    while i < n
        invariant
            i <= n == symbols@.len(),
            keys@.len() == i,
            forall|j: int|
                0 <= j < i ==> (#[trigger] keys@[j])@ == symbol_key(symbols@[j]@, key),
        decreases n - i,
    {
        let m = &symbols[i];
        let value = match key {
            SymbolSortKey::Size => SortValue::Number(m.size),
            SymbolSortKey::Address => SortValue::Number(m.address),
            SymbolSortKey::Name => SortValue::Text(m.name.clone()),
        };
        keys.push(value);
        i += 1;
    }
    assert(key_views(keys@) =~= symbol_keys(symbol_metrics_views(symbols@), key));
    keys
}

impl SymbolsState {
    /// Every filtered index is a position of a symbol.
    pub open spec fn wf(self) -> bool {
        all_below(self.filtered_indices@, self.symbols@.len())
    }

    /// The sort keys of the symbols under the current key.
    pub open spec fn keys(self) -> Seq<RowKey> {
        symbol_keys(symbol_metrics_views(self.symbols@), self.sort_key)
    }

    /// `after` is this state with its indices sorted anew.
    pub open spec fn sorted_to(self, after: SymbolsState) -> bool {
        &&& after == (SymbolsState { filtered_indices: after.filtered_indices, ..self })
        &&& after.wf()
        &&& indices_stably_ordered(
            after.filtered_indices@,
            self.filtered_indices@,
            self.keys(),
            self.sort_direction,
        )
    }

    /// `after` is this state showing the symbols of `object_id`: without an
    /// object an empty list with the first row selected; with one, its
    /// symbols that pass the filter, sorted, and the selection kept within
    /// the list.
    pub open spec fn refreshed_to(self, after: SymbolsState, object_id: Option<i32>) -> bool {
        &&& after == (SymbolsState {
            current_object_id: object_id,
            filtered_indices: after.filtered_indices,
            selected_pos: after.selected_pos,
            ..self
        })
        &&& after.wf()
        &&& match object_id {
            Some(id) => {
                &&& indices_stably_ordered(
                    after.filtered_indices@,
                    matching_symbols(symbol_metrics_views(self.symbols@), id, self.filter_text@),
                    self.keys(),
                    self.sort_direction,
                )
                &&& after.selected_pos == clamped(self.selected_pos, after.filtered_indices@.len())
            },
            None => after.filtered_indices@.len() == 0 && after.selected_pos == 0,
        }
    }

    /// This state with the window moved to show the selection.
    pub open spec fn shown(self) -> SymbolsState {
        SymbolsState {
            offset: scrolled(
                self.selected_pos as int,
                self.offset as int,
                self.view_rows as int,
                self.filtered_indices@.len() as int,
            ) as usize,
            ..self
        }
    }

    /// Whether this is the list as it starts for `symbols`: none of them
    /// shown yet, to be sorted by size, largest first.
    pub open spec fn fresh(self, symbols: Vec<SymbolMetrics>) -> bool {
        &&& self.wf()
        &&& self.symbols == symbols
        &&& self.current_object_id.is_none()
        &&& self.filter_text@.len() == 0
        &&& self.filtered_indices@.len() == 0
        &&& self.sort_key == SymbolSortKey::Size
        &&& self.sort_direction == SortDirection::Descending
        &&& self.selected_pos == 0
        &&& self.offset == 0
        &&& self.view_rows == 0
    }

    /// A list of `symbols` that shows none of them yet, to be sorted by
    /// size, largest first.
    pub fn new(symbols: Vec<SymbolMetrics>) -> (state: SymbolsState)
        ensures
            state.fresh(symbols),
    {
        SymbolsState {
            symbols,
            filtered_indices: Vec::new(),
            selected_pos: 0,
            offset: 0,
            view_rows: 0,
            filter_text: String::new(),
            sort_key: SymbolSortKey::Size,
            sort_direction: SortDirection::Descending,
            current_object_id: None,
        }
    }

    /// All symbols, filtered or not.
    pub fn symbols(&self) -> (all: &[SymbolMetrics])
        ensures
            all@ == self.symbols@,
    {
        self.symbols.as_slice()
    }

    /// Sets the number of rows that the window shows.
    pub fn set_view_rows(&mut self, rows: usize)
        ensures
            *final(self) == (SymbolsState { view_rows: rows, ..*old(self) }),
    {
        self.view_rows = rows;
    }

    /// Shows the symbols of the object `object_id`, or none without one.
    pub fn refresh_for_object(&mut self, object_id: Option<i32>)
        ensures
            old(self).refreshed_to(*final(self), object_id),
    {
        self.current_object_id = object_id;
        let id = match object_id {
            Some(id) => id,
            None => {
                self.filtered_indices.clear();
                self.selected_pos = 0;
                return ;
            },
        };
        let n = self.symbols.len();
        let mut indices: Vec<usize> = Vec::new();
        let ghost views = symbol_metrics_views(self.symbols@);
        let ghost needle = self.filter_text@;
        let ghost entered = *self;
        let mut i: usize = 0;
        assert(views.take(0) =~= Seq::<SymbolMetricsView>::empty());
        while i < n
            invariant
                i <= n == self.symbols@.len(),
                views == symbol_metrics_views(self.symbols@),
                needle == self.filter_text@,
                *self == entered,
                indices@ == matching_symbols(views.take(i as int), id, needle),
                all_below(indices@, i as nat),
            decreases n - i,
        {
            proof {
                let next = views.take(i + 1);
                assert(next.drop_last() =~= views.take(i as int));
                assert(next.last() == self.symbols@[i as int]@);
            }
            if self.symbols[i].file_index == id && contains_text(
                self.symbols[i].name.as_str(),
                self.filter_text.as_str(),
            ) {
                indices.push(i);
            }
            i += 1;
        }
        assert(views.take(n as int) =~= views);
        self.filtered_indices = indices;
        self.sort();
        self.selected_pos = clamp_selection(self.selected_pos, self.filtered_indices.len());
    }

    /// Applies the filter anew to the symbols of the current object.
    pub fn filter(&mut self)
        ensures
            old(self).refreshed_to(*final(self), old(self).current_object_id),
    {
        let id = self.current_object_id;
        self.refresh_for_object(id);
    }

    /// Sorts the list by the current key and direction. Symbols that the
    /// order puts level keep their places among themselves.
    pub fn sort(&mut self)
        requires
            old(self).wf(),
        ensures
            old(self).sorted_to(*final(self)),
    {
        let keys = symbol_sort_values(&self.symbols, self.sort_key);
        sort_indices(&mut self.filtered_indices, &keys, self.sort_direction);
    }

    /// Adds `c` to the filter text and applies the filter.
    pub fn push_filter_char(&mut self, c: char)
        ensures
            (SymbolsState { filter_text: final(self).filter_text, ..*old(self) }).refreshed_to(
                *final(self),
                old(self).current_object_id,
            ),
            final(self).filter_text@ == old(self).filter_text@.push(c),
    {
        self.filter_text.push(c);
        self.filter();
    }

    /// Takes the last character off the filter text, if it has one, and
    /// applies the filter.
    pub fn pop_filter_char(&mut self)
        ensures
            (SymbolsState { filter_text: final(self).filter_text, ..*old(self) }).refreshed_to(
                *final(self),
                old(self).current_object_id,
            ),
            final(self).filter_text@ == (if old(self).filter_text@.len() > 0 {
                old(self).filter_text@.drop_last()
            } else {
                old(self).filter_text@
            }),
    {
        self.filter_text.pop();
        self.filter();
    }

    /// Moves on to the next sort key and sorts.
    pub fn cycle_sort_key(&mut self)
        requires
            old(self).wf(),
        ensures
            (SymbolsState { sort_key: next_symbol_key(old(self).sort_key), ..*old(self) }).sorted_to(
                *final(self),
            ),
    {
        self.sort_key = match self.sort_key {
            SymbolSortKey::Size => SymbolSortKey::Address,
            SymbolSortKey::Address => SymbolSortKey::Name,
            SymbolSortKey::Name => SymbolSortKey::Size,
        };
        self.sort();
    }

    /// Turns the sort direction round and sorts.
    pub fn toggle_sort_direction(&mut self)
        requires
            old(self).wf(),
        ensures
            (SymbolsState {
                sort_direction: match old(self).sort_direction {
                    SortDirection::Ascending => SortDirection::Descending,
                    SortDirection::Descending => SortDirection::Ascending,
                },
                ..*old(self)
            }).sorted_to(*final(self)),
    {
        self.sort_direction = opposite(self.sort_direction);
        self.sort();
    }

    /// This state after a step up: the row above selected and shown, if
    /// there is one.
    pub open spec fn stepped_up(self) -> SymbolsState {
        if self.selected_pos > 0 {
            (SymbolsState { selected_pos: (self.selected_pos - 1) as usize, ..self }).shown()
        } else {
            self
        }
    }

    /// This state after a step down: the row below selected and shown, if
    /// there is one.
    pub open spec fn stepped_down(self) -> SymbolsState {
        if self.selected_pos + 1 < self.filtered_indices@.len() {
            (SymbolsState { selected_pos: (self.selected_pos + 1) as usize, ..self }).shown()
        } else {
            self
        }
    }

    /// This state with the first row selected and shown.
    pub open spec fn reset(self) -> SymbolsState {
        (SymbolsState { selected_pos: 0, ..self }).shown()
    }

    /// Selects the row above, if there is one.
    pub fn navigate_up(&mut self)
        ensures
            *final(self) == old(self).stepped_up(),
    {
        if self.selected_pos > 0 {
            self.selected_pos -= 1;
            self.ensure_visible();
        }
    }

    /// Selects the row below, if there is one.
    pub fn navigate_down(&mut self)
        ensures
            *final(self) == old(self).stepped_down(),
    {
        let count = self.filtered_indices.len();
        if count > 0 && self.selected_pos < count - 1 {
            self.selected_pos += 1;
            self.ensure_visible();
        }
    }

    /// Moves the window so that it shows the selection. With rows to show
    /// and a selection within the list, the selection lies in the window
    /// afterwards.
    pub fn ensure_visible(&mut self)
        ensures
            *final(self) == old(self).shown(),
            old(self).view_rows > 0 && old(self).selected_pos < old(self).filtered_indices@.len()
                ==> final(self).offset <= final(self).selected_pos < final(self).offset + final(
                self).view_rows,
    {
        self.offset = scroll_to(
            self.selected_pos,
            self.offset,
            self.view_rows,
            self.filtered_indices.len(),
        );
    }

    /// Selects the first row and shows it.
    pub fn reset_selection(&mut self)
        ensures
            *final(self) == old(self).reset(),
    {
        self.selected_pos = 0;
        self.ensure_visible();
    }
}

} // verus!
