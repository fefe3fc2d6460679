//! The list of objects in the browser: which objects pass the filter, in
//! which order they stand, which one is selected, and which part of the
//! list the window shows.

use vstd::prelude::*;
use crate::listing::{clamp_selection, clamped, scroll_to, scrolled};
use crate::sorting::{
    all_below, indices_stably_ordered, key_views, opposite, sort_indices, uniform, RowKey,
    SortDirection, SortValue,
};
use crate::metrics::{object_metrics_views, ObjectMetrics, ObjectMetricsView};
use crate::text::{contains_ignoring_case, contains_text};

verus! {

/// What the objects are sorted by.
#[derive(Debug, Clone, Copy, PartialEq, Eq, Structural)]
pub enum ObjectSortKey {
    Total,
    Text,
    Data,
    Bss,
    Path,
}

/// The state of the list of objects. `filtered_indices` holds positions in
/// the objects; they are valid positions as long as `wf` holds.
pub struct ObjectsState {
    pub objects: Vec<ObjectMetrics>,
    pub filter_text: String,
    pub filtered_indices: Vec<usize>,
    pub sort_key: ObjectSortKey,
    pub sort_direction: SortDirection,
    pub selected_position: usize,
    pub scroll_offset: usize,
    pub visible_row_count: usize,
}

/// What an object is sorted by under `key`.
pub open spec fn object_key(object: ObjectMetricsView, key: ObjectSortKey) -> RowKey {
    match key {
        ObjectSortKey::Total => RowKey::Number(object.total),
        ObjectSortKey::Text => RowKey::Number(object.text),
        ObjectSortKey::Data => RowKey::Number(object.data),
        ObjectSortKey::Bss => RowKey::Number(object.bss),
        ObjectSortKey::Path => RowKey::Text(object.path),
    }
}

/// The sort keys of all objects.
pub open spec fn object_keys(objects: Seq<ObjectMetricsView>, key: ObjectSortKey) -> Seq<RowKey> {
    objects.map_values(|o: ObjectMetricsView| object_key(o, key))
}

/// The positions of the objects whose path holds `needle`, up to the case of
/// ASCII letters, in ascending order.
pub open spec fn matching_objects(objects: Seq<ObjectMetricsView>, needle: Seq<char>) -> Seq<
    usize,
>
    decreases objects.len(),
{
    if objects.len() == 0 {
        Seq::empty()
    } else if contains_ignoring_case(objects.last().path, needle) {
        matching_objects(objects.drop_last(), needle).push((objects.len() - 1) as usize)
    } else {
        matching_objects(objects.drop_last(), needle)
    }
}

/// The key that follows `key` when the sort key is cycled.
pub open spec fn next_object_key(key: ObjectSortKey) -> ObjectSortKey {
    match key {
        ObjectSortKey::Total => ObjectSortKey::Text,
        ObjectSortKey::Text => ObjectSortKey::Data,
        ObjectSortKey::Data => ObjectSortKey::Bss,
        ObjectSortKey::Bss => ObjectSortKey::Path,
        ObjectSortKey::Path => ObjectSortKey::Total,
    }
}

/// The sort keys of all objects, as values.
fn object_sort_values(objects: &Vec<ObjectMetrics>, key: ObjectSortKey) -> (keys: Vec<SortValue>)
    ensures
        key_views(keys@) == object_keys(object_metrics_views(objects@), key),
        uniform(key_views(keys@)),
        keys@.len() == objects@.len(),
{
    let n = objects.len();
    let mut keys: Vec<SortValue> = Vec::new();
    let mut i: usize = 0;
    while i < n
        invariant
            i <= n == objects@.len(),
            keys@.len() == i,
            forall|j: int|
                0 <= j < i ==> (#[trigger] keys@[j])@ == object_key(objects@[j]@, key),
        decreases n - i,
    {
        let o = &objects[i];
        let value = match key {
            ObjectSortKey::Total => SortValue::Number(o.total),
            ObjectSortKey::Text => SortValue::Number(o.text),
            ObjectSortKey::Data => SortValue::Number(o.data),
            ObjectSortKey::Bss => SortValue::Number(o.bss),
            ObjectSortKey::Path => SortValue::Text(o.path.clone()),
        };
        keys.push(value);
        i += 1;
    }
    assert(key_views(keys@) =~= object_keys(object_metrics_views(objects@), key));
    keys
}

impl ObjectsState {
    /// Every filtered index is a position of an object.
    pub open spec fn wf(self) -> bool {
        all_below(self.filtered_indices@, self.objects@.len())
    }

    /// The sort keys of the objects under the current key.
    pub open spec fn keys(self) -> Seq<RowKey> {
        object_keys(object_metrics_views(self.objects@), self.sort_key)
    }

    /// `after` is this state with its indices sorted anew.
    pub open spec fn sorted_to(self, after: ObjectsState) -> bool {
        &&& after == (ObjectsState { filtered_indices: after.filtered_indices, ..self })
        &&& after.wf()
        &&& indices_stably_ordered(
            after.filtered_indices@,
            self.filtered_indices@,
            self.keys(),
            self.sort_direction,
        )
    }

    /// `after` is this state with the filter applied anew: the objects that
    /// pass it, sorted, and the selection kept within the list.
    pub open spec fn filtered_to(self, after: ObjectsState) -> bool {
        &&& after == (ObjectsState {
            filtered_indices: after.filtered_indices,
            selected_position: after.selected_position,
            ..self
        })
        &&& after.wf()
        &&& indices_stably_ordered(
            after.filtered_indices@,
            matching_objects(object_metrics_views(self.objects@), self.filter_text@),
            self.keys(),
            self.sort_direction,
        )
        &&& after.selected_position == clamped(
            self.selected_position,
            after.filtered_indices@.len(),
        )
    }

    /// This state with the window moved to show the selection.
    pub open spec fn shown(self) -> ObjectsState {
        ObjectsState {
            scroll_offset: scrolled(
                self.selected_position as int,
                self.scroll_offset as int,
                self.visible_row_count as int,
                self.filtered_indices@.len() as int,
            ) as usize,
            ..self
        }
    }

    /// This state after a step up: the row above selected and shown, if
    /// there is one.
    pub open spec fn stepped_up(self) -> ObjectsState {
        if self.selected_position > 0 {
            (ObjectsState {
                selected_position: (self.selected_position - 1) as usize,
                ..self
            }).shown()
        } else {
            self
        }
    }

    /// This state after a step down: the row below selected and shown, if
    /// there is one.
    pub open spec fn stepped_down(self) -> ObjectsState {
        if self.selected_position + 1 < self.filtered_indices@.len() {
            (ObjectsState {
                selected_position: (self.selected_position + 1) as usize,
                ..self
            }).shown()
        } else {
            self
        }
    }

    /// The position of the selected object, if the selection is in the list.
    pub open spec fn selected_index(self) -> Option<usize> {
        if self.selected_position < self.filtered_indices@.len() {
            Some(self.filtered_indices@[self.selected_position as int])
        } else {
            None
        }
    }

    /// The index of the selected object, if the selection is in the list.
    pub open spec fn selected_id(self) -> Option<i32> {
        match self.selected_index() {
            Some(index) => Some(self.objects@[index as int].id),
            None => None,
        }
    }

    /// Whether this is the list as it starts for `data`: all objects, sorted
    /// by total, largest first, no filter, the first row selected.
    pub open spec fn fresh(self, data: Vec<ObjectMetrics>) -> bool {
        &&& self.wf()
        &&& self.objects == data
        &&& self.filter_text@.len() == 0
        &&& self.sort_key == ObjectSortKey::Total
        &&& self.sort_direction == SortDirection::Descending
        &&& self.selected_position == 0
        &&& self.scroll_offset == 0
        &&& self.visible_row_count == 0
        &&& indices_stably_ordered(
            self.filtered_indices@,
            Seq::new(data@.len(), |i: int| i as usize),
            self.keys(),
            SortDirection::Descending,
        )
    }

    /// The list of all of `data`, sorted by total, largest first.
    pub fn new(data: Vec<ObjectMetrics>) -> (state: ObjectsState)
        ensures
            state.fresh(data),
    {
        let n = data.len();
        let mut indices: Vec<usize> = Vec::new();
        let mut i: usize = 0;
        while i < n
            invariant
                i <= n,
                indices@ == Seq::new(i as nat, |k: int| k as usize),
            decreases n - i,
        {
            indices.push(i);
            i += 1;
            assert(indices@ =~= Seq::new(i as nat, |k: int| k as usize));
        }
        let mut state = ObjectsState {
            objects: data,
            filtered_indices: indices,
            selected_position: 0,
            scroll_offset: 0,
            visible_row_count: 0,
            filter_text: String::new(),
            sort_key: ObjectSortKey::Total,
            sort_direction: SortDirection::Descending,
        };
        state.sort();
        state
    }

    /// All objects, filtered or not.
    pub fn objects(&self) -> (all: &[ObjectMetrics])
        ensures
            all@ == self.objects@,
    {
        self.objects.as_slice()
    }

    /// Sets the number of rows that the window shows.
    pub fn set_view_rows(&mut self, rows: usize)
        ensures
            *final(self) == (ObjectsState { visible_row_count: rows, ..*old(self) }),
    {
        self.visible_row_count = rows;
    }

    /// The position of the selected object.
    pub fn current_index(&self) -> (index: Option<usize>)
        ensures
            index == self.selected_index(),
    {
        if self.selected_position < self.filtered_indices.len() {
            Some(self.filtered_indices[self.selected_position])
        } else {
            None
        }
    }

    /// The index of the selected object.
    pub fn current_object_id(&self) -> (id: Option<i32>)
        requires
            self.wf(),
        ensures
            id == self.selected_id(),
    {
        match self.current_index() {
            Some(index) => Some(self.objects[index].id),
            None => None,
        }
    }

    /// Applies the filter anew: the list holds the objects whose path holds
    /// the filter text, sorted, and the selection stays within the list.
    pub fn filter(&mut self)
        ensures
            old(self).filtered_to(*final(self)),
    {
        let n = self.objects.len();
        let mut indices: Vec<usize> = Vec::new();
        let ghost views = object_metrics_views(self.objects@);
        let ghost needle = self.filter_text@;
        let mut i: usize = 0;
        assert(views.take(0) =~= Seq::<ObjectMetricsView>::empty());
        while i < n
            invariant
                i <= n == self.objects@.len(),
                views == object_metrics_views(self.objects@),
                needle == self.filter_text@,
                *self == *old(self),
                indices@ == matching_objects(views.take(i as int), needle),
                all_below(indices@, i as nat),
            decreases n - i,
        {
            proof {
                let next = views.take(i + 1);
                assert(next.drop_last() =~= views.take(i as int));
                assert(next.last() == self.objects@[i as int]@);
            }
            if contains_text(self.objects[i].path.as_str(), self.filter_text.as_str()) {
                indices.push(i);
            }
            i += 1;
        }
        assert(views.take(n as int) =~= views);
        self.filtered_indices = indices;
        self.sort();
        self.selected_position = clamp_selection(
            self.selected_position,
            self.filtered_indices.len(),
        );
    }

    /// Sorts the list by the current key and direction. Objects that the
    /// order puts level keep their places among themselves.
    pub fn sort(&mut self)
        requires
            old(self).wf(),
        ensures
            old(self).sorted_to(*final(self)),
    {
        let keys = object_sort_values(&self.objects, self.sort_key);
        sort_indices(&mut self.filtered_indices, &keys, self.sort_direction);
    }

    /// Adds `c` to the filter text and applies the filter.
    pub fn push_filter_char(&mut self, c: char)
        ensures
            (ObjectsState { filter_text: final(self).filter_text, ..*old(self) }).filtered_to(
                *final(self),
            ),
            final(self).filter_text@ == old(self).filter_text@.push(c),
    {
        self.filter_text.push(c);
        self.filter();
    }

    /// Takes the last character off the filter text, if it has one, and
    /// applies the filter.
    pub fn pop_filter_char(&mut self)
        ensures
            (ObjectsState { filter_text: final(self).filter_text, ..*old(self) }).filtered_to(
                *final(self),
            ),
            final(self).filter_text@ == (if old(self).filter_text@.len() > 0 {
                old(self).filter_text@.drop_last()
            } else {
                old(self).filter_text@
            }),
    {
        self.filter_text.pop();
        self.filter();
    }

    /// Moves on to the next sort key and sorts.
    pub fn cycle_sort_key(&mut self)
        requires
            old(self).wf(),
        ensures
            (ObjectsState { sort_key: next_object_key(old(self).sort_key), ..*old(self) }).sorted_to(
                *final(self),
            ),
    {
        self.sort_key = match self.sort_key {
            ObjectSortKey::Total => ObjectSortKey::Text,
            ObjectSortKey::Text => ObjectSortKey::Data,
            ObjectSortKey::Data => ObjectSortKey::Bss,
            ObjectSortKey::Bss => ObjectSortKey::Path,
            ObjectSortKey::Path => ObjectSortKey::Total,
        };
        self.sort();
    }

    /// Turns the sort direction round and sorts.
    pub fn toggle_sort_direction(&mut self)
        requires
            old(self).wf(),
        ensures
            (ObjectsState {
                sort_direction: match old(self).sort_direction {
                    SortDirection::Ascending => SortDirection::Descending,
                    SortDirection::Descending => SortDirection::Ascending,
                },
                ..*old(self)
            }).sorted_to(*final(self)),
    {
        self.sort_direction = opposite(self.sort_direction);
        self.sort();
    }

    /// Selects the row above, if there is one, and says whether it did.
    pub fn navigate_up(&mut self) -> (moved: bool)
        ensures
            moved == (old(self).selected_position > 0),
            *final(self) == old(self).stepped_up(),
    {
        if self.selected_position > 0 {
            self.selected_position -= 1;
            self.ensure_visible();
            true
        } else {
            false
        }
    }

    /// Selects the row below, if there is one, and says whether it did.
    pub fn navigate_down(&mut self) -> (moved: bool)
        ensures
            moved == (old(self).selected_position + 1 < old(self).filtered_indices@.len()),
            *final(self) == old(self).stepped_down(),
    {
        let count = self.filtered_indices.len();
        if count > 0 && self.selected_position < count - 1 {
            self.selected_position += 1;
            self.ensure_visible();
            true
        } else {
            false
        }
    }

    /// Moves the window so that it shows the selection. With rows to show
    /// and a selection within the list, the selection lies in the window
    /// afterwards.
    pub fn ensure_visible(&mut self)
        ensures
            *final(self) == old(self).shown(),
            old(self).visible_row_count > 0 && old(self).selected_position < old(
                self).filtered_indices@.len() ==> final(self).scroll_offset <= final(
                self).selected_position < final(self).scroll_offset + final(
                self).visible_row_count,
    {
        self.scroll_offset = scroll_to(
            self.selected_position,
            self.scroll_offset,
            self.visible_row_count,
            self.filtered_indices.len(),
        );
    }
}

} // verus!
