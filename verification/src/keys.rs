//! The browser as a state machine: its state, and what a key does to it.

use vstd::prelude::*;
use crate::display::DisplayUnits;
use crate::sorting::directed_other;
use crate::metrics::Metrics;
use crate::model::MapFile;
use crate::object_list::{next_object_key, ObjectsState};
use crate::symbol_list::{next_symbol_key, SymbolsState};

verus! {

/// The list that the keys act on.
#[derive(Debug, Clone, Copy, PartialEq, Eq, Structural)]
pub enum FocusPane {
    Objects,
    Symbols,
}

/// A key press, as far as the browser tells keys apart.
#[derive(Debug, Clone, Copy, PartialEq, Eq, Structural)]
pub enum Key {
    Char(char),
    Esc,
    Enter,
    Backspace,
    Tab,
    Up,
    Down,
    Other,
}

/// The state of the browser.
pub struct AppState {
    pub map_path: String,
    pub arch: String,
    pub objects: ObjectsState,
    pub symbols: SymbolsState,
    pub focus: FocusPane,
    pub show_help: bool,
    pub filter_mode: bool,
    pub display_units: DisplayUnits,
}

/// Whether `c` is a control character: one of the codes 0 to 0x1F and 0x7F
/// to 0x9F.
pub open spec fn is_control(c: char) -> bool {
    c as u32 <= 0x1F || 0x7F <= c as u32 <= 0x9F
}

/// Whether `c` is a control character.
pub fn char_is_control(c: char) -> (r: bool)
    ensures
        r == is_control(c),
{
    let code = c as u32;
    code <= 0x1F || (0x7F <= code && code <= 0x9F)
}

/// The other list.
pub open spec fn other_pane(focus: FocusPane) -> FocusPane {
    match focus {
        FocusPane::Objects => FocusPane::Symbols,
        FocusPane::Symbols => FocusPane::Objects,
    }
}

/// The other way to show sizes.
pub open spec fn other_units(units: DisplayUnits) -> DisplayUnits {
    match units {
        DisplayUnits::Human => DisplayUnits::Hex,
        DisplayUnits::Hex => DisplayUnits::Human,
    }
}

/// The list of objects after its filter text has become `text`: filtered
/// anew with that text.
pub open spec fn objects_retyped(before: ObjectsState, after: ObjectsState, text: Seq<char>)
    -> bool {
    &&& after.filter_text@ == text
    &&& (ObjectsState { filter_text: after.filter_text, ..before }).filtered_to(after)
}

/// The list of symbols after its filter text has become `text`: filtered
/// anew with that text, for the same object.
pub open spec fn symbols_retyped(before: SymbolsState, after: SymbolsState, text: Seq<char>)
    -> bool {
    &&& after.filter_text@ == text
    &&& (SymbolsState { filter_text: after.filter_text, ..before }).refreshed_to(
        after,
        before.current_object_id,
    )
}

/// The list of symbols after the selected object has changed to `id`: the
/// symbols of that object, with the first row selected and shown.
pub open spec fn symbols_switched(before: SymbolsState, after: SymbolsState, id: Option<i32>)
    -> bool {
    exists|shown: SymbolsState| #[trigger] before.refreshed_to(shown, id) && after == shown.reset()
}

/// A text without its last character, if it has one.
pub open spec fn without_last(text: Seq<char>) -> Seq<char> {
    if text.len() > 0 {
        text.drop_last()
    } else {
        text
    }
}

/// What a key does while the help is shown: `q`, `Esc` and `?` close the
/// help; nothing else happens.
pub open spec fn help_step(before: AppState, after: AppState, key: Key) -> bool {
    after == (AppState {
        show_help: !(key == Key::Char('q') || key == Key::Esc || key == Key::Char('?')),
        ..before
    })
}

/// What a key does while the filter is edited: `Esc` and `Enter` end the
/// editing; a character that is no control character is added to the filter
/// of the focused list, `Backspace` takes the last one off; with the objects
/// focused, the symbols follow the selected object. Other keys do nothing.
pub open spec fn filter_step(before: AppState, after: AppState, key: Key) -> bool {
    match key {
        Key::Esc | Key::Enter => after == (AppState { filter_mode: false, ..before }),
        Key::Char(c) if !is_control(c) => typed(
            before,
            after,
            before.objects.filter_text@.push(c),
            before.symbols.filter_text@.push(c),
        ),
        Key::Backspace => typed(
            before,
            after,
            without_last(before.objects.filter_text@),
            without_last(before.symbols.filter_text@),
        ),
        _ => after == before,
    }
}

/// The state after the filter text of the focused list has changed: to
/// `object_text` for the objects, to `symbol_text` for the symbols.
pub open spec fn typed(
    before: AppState,
    after: AppState,
    object_text: Seq<char>,
    symbol_text: Seq<char>,
) -> bool {
    &&& after == (AppState { objects: after.objects, symbols: after.symbols, ..before })
    &&& match before.focus {
        FocusPane::Objects => {
            &&& objects_retyped(before.objects, after.objects, object_text)
            &&& before.symbols.refreshed_to(after.symbols, after.objects.selected_id())
        },
        FocusPane::Symbols => {
            &&& after.objects == before.objects
            &&& symbols_retyped(before.symbols, after.symbols, symbol_text)
        },
    }
}

/// The state after the selection of the focused list has moved, `objects`
/// being the list of objects after the move: the symbols move by
/// `symbols`; with the objects focused they stay, unless another object is
/// selected now, whose symbols they then show from the first row.
pub open spec fn moved(
    before: AppState,
    after: AppState,
    objects: ObjectsState,
    symbols: SymbolsState,
) -> bool {
    &&& after == (AppState { objects: after.objects, symbols: after.symbols, ..before })
    &&& match before.focus {
        FocusPane::Objects => {
            &&& after.objects == objects
            &&& if before.objects.selected_id() != objects.selected_id() {
                symbols_switched(before.symbols, after.symbols, objects.selected_id())
            } else {
                after.symbols == before.symbols
            }
        },
        FocusPane::Symbols => after.objects == before.objects && after.symbols == symbols,
    }
}

/// The state after the focused list was sorted anew, `objects` and `symbols`
/// being the lists before the sort with their new key or direction.
pub open spec fn resorted(
    before: AppState,
    after: AppState,
    objects: ObjectsState,
    symbols: SymbolsState,
) -> bool {
    &&& after == (AppState { objects: after.objects, symbols: after.symbols, ..before })
    &&& match before.focus {
        FocusPane::Objects => objects.sorted_to(after.objects) && after.symbols == before.symbols,
        FocusPane::Symbols => after.objects == before.objects && symbols.sorted_to(after.symbols),
    }
}

/// What a key does otherwise: `Tab` changes the focus, `/` starts editing
/// the filter, `?` shows the help, `Up` and `Down` move the selection, `s`
/// moves on to the next sort key, `r` turns the sort direction round, `u`
/// changes the units. Other keys do nothing.
pub open spec fn browse_step(before: AppState, after: AppState, key: Key) -> bool {
    match key {
        Key::Tab => after == (AppState { focus: other_pane(before.focus), ..before }),
        Key::Char('/') => after == (AppState { filter_mode: true, ..before }),
        Key::Char('?') => after == (AppState { show_help: true, ..before }),
        Key::Up => moved(before, after, before.objects.stepped_up(), before.symbols.stepped_up()),
        Key::Down => moved(
            before,
            after,
            before.objects.stepped_down(),
            before.symbols.stepped_down(),
        ),
        Key::Char('s') => resorted(
            before,
            after,
            ObjectsState {
                sort_key: next_object_key(before.objects.sort_key),
                ..before.objects
            },
            SymbolsState {
                sort_key: next_symbol_key(before.symbols.sort_key),
                ..before.symbols
            },
        ),
        Key::Char('r') => resorted(
            before,
            after,
            ObjectsState {
                sort_direction: directed_other(before.objects.sort_direction),
                ..before.objects
            },
            SymbolsState {
                sort_direction: directed_other(before.symbols.sort_direction),
                ..before.symbols
            },
        ),
        Key::Char('u') => after == (AppState {
            display_units: other_units(before.display_units),
            ..before
        }),
        _ => after == before,
    }
}

/// What a key does to the browser, and whether it ends it. Only `q` ends
/// it, and only while neither the help is shown nor the filter edited.
pub open spec fn key_step(before: AppState, after: AppState, key: Key, quit: bool) -> bool {
    if before.show_help {
        !quit && help_step(before, after, key)
    } else if before.filter_mode {
        !quit && filter_step(before, after, key)
    } else if key == Key::Char('q') {
        quit && after == before
    } else {
        !quit && browse_step(before, after, key)
    }
}

impl AppState {
    /// Both lists hold valid positions.
    pub open spec fn wf(self) -> bool {
        self.objects.wf() && self.symbols.wf()
    }

    /// The browser as it starts on a document and its metrics: the objects
    /// focused, all of them listed, and the symbols of the selected object
    /// shown.
    pub fn new(map: MapFile, metrics: Metrics) -> (app: AppState)
        ensures
            app.wf(),
            app.map_path == map.target_path,
            app.arch == map.arch,
            app.focus == FocusPane::Objects,
            !app.show_help,
            !app.filter_mode,
            app.display_units == DisplayUnits::Human,
            exists|first: ObjectsState| #[trigger]
                first.fresh(metrics.objects) && first.filtered_to(app.objects),
            exists|first: SymbolsState| #[trigger]
                first.fresh(metrics.symbols) && first.refreshed_to(
                    app.symbols,
                    app.objects.selected_id(),
                ),
    {
        let mut objects = ObjectsState::new(metrics.objects);
        let mut symbols = SymbolsState::new(metrics.symbols);
        let ghost first_objects = objects;
        let ghost first_symbols = symbols;
        objects.filter();
        let id = objects.current_object_id();
        symbols.refresh_for_object(id);
        assert(first_objects.fresh(metrics.objects) && first_objects.filtered_to(objects));
        assert(first_symbols.fresh(metrics.symbols) && first_symbols.refreshed_to(symbols, id));
        AppState {
            arch: map.arch,
            display_units: DisplayUnits::Human,
            filter_mode: false,
            focus: FocusPane::Objects,
            map_path: map.target_path,
            objects,
            show_help: false,
            symbols,
        }
    }
}

/// Handles one key press. The result says whether the browser is to end.
pub fn handle_key(key: Key, app: &mut AppState) -> (quit: bool)
    requires
        old(app).wf(),
    ensures
        final(app).wf(),
        key_step(*old(app), *final(app), key, quit),
{
    if app.show_help {
        match key {
            Key::Char('q') | Key::Esc | Key::Char('?') => {
                app.show_help = false;
            },
            _ => {},
        }
        return false;
    }
    if app.filter_mode {
        match key {
            Key::Esc | Key::Enter => {
                app.filter_mode = false;
            },
            Key::Char(c) => {
                if !char_is_control(c) {
                    match app.focus {
                        FocusPane::Objects => {
                            app.objects.push_filter_char(c);
                            let id = app.objects.current_object_id();
                            app.symbols.refresh_for_object(id);
                        },
                        FocusPane::Symbols => {
                            app.symbols.push_filter_char(c);
                        },
                    }
                }
            },
            Key::Backspace => match app.focus {
                FocusPane::Objects => {
                    app.objects.pop_filter_char();
                    let id = app.objects.current_object_id();
                    app.symbols.refresh_for_object(id);
                },
                FocusPane::Symbols => {
                    app.symbols.pop_filter_char();
                },
            },
            _ => {},
        }
        return false;
    }
    match key {
        Key::Char('q') => {
            return true;
        },
        Key::Tab => {
            app.focus = match app.focus {
                FocusPane::Objects => FocusPane::Symbols,
                FocusPane::Symbols => FocusPane::Objects,
            };
        },
        Key::Char('/') => {
            app.filter_mode = true;
        },
        Key::Char('?') => {
            app.show_help = true;
        },
        Key::Up => match app.focus {
            FocusPane::Objects => {
                let prev_id = app.objects.current_object_id();
                app.objects.navigate_up();
                let new_id = app.objects.current_object_id();
                if !same_id(prev_id, new_id) {
                    app.symbols.refresh_for_object(new_id);
                    let ghost shown = app.symbols;
                    app.symbols.reset_selection();
                    assert(old(app).symbols.refreshed_to(shown, new_id));
                }
            },
            FocusPane::Symbols => {
                app.symbols.navigate_up();
            },
        },
        Key::Down => match app.focus {
            FocusPane::Objects => {
                let prev_id = app.objects.current_object_id();
                app.objects.navigate_down();
                let new_id = app.objects.current_object_id();
                if !same_id(prev_id, new_id) {
                    app.symbols.refresh_for_object(new_id);
                    let ghost shown = app.symbols;
                    app.symbols.reset_selection();
                    assert(old(app).symbols.refreshed_to(shown, new_id));
                }
            },
            FocusPane::Symbols => {
                app.symbols.navigate_down();
            },
        },
        Key::Char('s') => match app.focus {
            FocusPane::Objects => {
                app.objects.cycle_sort_key();
            },
            FocusPane::Symbols => {
                app.symbols.cycle_sort_key();
            },
        },
        Key::Char('r') => match app.focus {
            FocusPane::Objects => {
                app.objects.toggle_sort_direction();
            },
            FocusPane::Symbols => {
                app.symbols.toggle_sort_direction();
            },
        },
        Key::Char('u') => {
            app.display_units = match app.display_units {
                DisplayUnits::Human => DisplayUnits::Hex,
                DisplayUnits::Hex => DisplayUnits::Human,
            };
        },
        _ => {},
    }
    false
}

/// The symbols after they were brought in line with the selected object
/// `id`: those of that object; left as they were where no object is
/// selected.
pub open spec fn symbols_follow(before: SymbolsState, after: SymbolsState, id: Option<i32>)
    -> bool {
    match id {
        Some(_) => before.refreshed_to(after, id),
        None => after == before,
    }
}

/// Sorts the list of objects anew.
pub fn apply_object_sort(app: &mut AppState)
    requires
        old(app).wf(),
    ensures
        final(app).wf(),
        *final(app) == (AppState { objects: final(app).objects, ..*old(app) }),
        old(app).objects.sorted_to(final(app).objects),
{
    app.objects.sort();
}

/// Sorts the list of symbols anew.
pub fn apply_symbol_sort(app: &mut AppState)
    requires
        old(app).wf(),
    ensures
        final(app).wf(),
        *final(app) == (AppState { symbols: final(app).symbols, ..*old(app) }),
        old(app).symbols.sorted_to(final(app).symbols),
{
    app.symbols.sort();
}

/// Brings the list of symbols in line with the selected object. Without a
/// selected object the list stays as it is.
pub fn refresh_symbols(app: &mut AppState)
    requires
        old(app).wf(),
    ensures
        final(app).wf(),
        *final(app) == (AppState { symbols: final(app).symbols, ..*old(app) }),
        symbols_follow(old(app).symbols, final(app).symbols, old(app).objects.selected_id()),
{
    match app.objects.current_object_id() {
        Some(id) => {
            app.symbols.refresh_for_object(Some(id));
        },
        None => {},
    }
}

/// Applies the filter of the objects anew and brings the symbols in line
/// with the object that is selected then.
pub fn apply_object_filter(app: &mut AppState)
    requires
        old(app).wf(),
    ensures
        final(app).wf(),
        *final(app) == (AppState {
            objects: final(app).objects,
            symbols: final(app).symbols,
            ..*old(app)
        }),
        old(app).objects.filtered_to(final(app).objects),
        symbols_follow(old(app).symbols, final(app).symbols, final(app).objects.selected_id()),
{
    app.objects.filter();
    refresh_symbols(app);
}

/// The selected row of a plain list of `count` rows after a key: `Down`
/// selects the next row if there is one, `Up` the one before; other keys
/// leave the selection.
pub open spec fn row_after(selected: usize, count: usize, key: Key) -> usize {
    match key {
        Key::Down => if selected + 1 < count {
            (selected + 1) as usize
        } else {
            selected
        },
        Key::Up => if selected > 0 {
            (selected - 1) as usize
        } else {
            0
        },
        _ => selected,
    }
}

/// One step of a plain list of `count` rows: the selected row after the
/// key, and whether the key, `q` or `Esc`, ends the list.
pub fn list_step(selected: usize, count: usize, key: Key) -> (r: (usize, bool))
    ensures
        r.0 == row_after(selected, count, key),
        r.1 == (key == Key::Char('q') || key == Key::Esc),
{
    match key {
        Key::Char('q') | Key::Esc => (selected, true),
        Key::Down => {
            if count > 0 && selected < count - 1 {
                (selected + 1, false)
            } else {
                (selected, false)
            }
        },
        Key::Up => {
            if selected > 0 {
                (selected - 1, false)
            } else {
                (0, false)
            }
        },
        _ => (selected, false),
    }
}

/// Whether two optional object indices are the same.
fn same_id(a: Option<i32>, b: Option<i32>) -> (r: bool)
    ensures
        r == (a == b),
{
    match (a, b) {
        (Some(x), Some(y)) => x == y,
        (None, None) => true,
        _ => false,
    }
}

} // verus!
