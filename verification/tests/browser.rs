use linkerland::display::{
    bucket_label, column_label, format_address, units_label, visible_range, DisplayUnits,
};
use linkerland::keys::{
    apply_object_filter, apply_object_sort, apply_symbol_sort, handle_key, list_step,
    refresh_symbols, AppState, FocusPane, Key,
};
use linkerland::listing::{clamp_selection, scroll_to};
use linkerland::sorting::SortDirection;
use linkerland::metrics::{
    checked_build_metrics, GlobalTotals, Metrics, ObjectMetrics, SymbolMetrics,
};
use linkerland::model::MapFile;
use linkerland::object_list::{ObjectSortKey, ObjectsState};
use linkerland::sections::Bucket;
use linkerland::symbol_list::{SymbolSortKey, SymbolsState};
use linkerland::text::contains_text;

fn object(id: i32, path: &str, text: u64, data: u64, bss: u64) -> ObjectMetrics {
    ObjectMetrics { id, path: path.into(), text, data, bss, other: 0, total: text + data + bss }
}

fn symbol(address: u64, size: u64, file_index: i32, name: &str) -> SymbolMetrics {
    SymbolMetrics { address, size, file_index, name: name.into(), bucket: Bucket::Text }
}

fn objects() -> Vec<ObjectMetrics> {
    vec![
        object(1, "lib/Alpha.o", 10, 5, 0),
        object(2, "lib/beta.o", 30, 0, 7),
        object(3, "src/gamma.o", 10, 5, 0),
        object(4, "src/ALPHABET.o", 1, 50, 3),
    ]
}

fn symbols() -> Vec<SymbolMetrics> {
    vec![
        symbol(0x100, 8, 2, "_zeta"),
        symbol(0x200, 16, 4, "_one"),
        symbol(0x300, 4, 4, "_two"),
        symbol(0x400, 16, 4, "_Three"),
        symbol(0x500, 2, 1, "_only"),
    ]
}

fn app() -> AppState {
    let map = MapFile {
        arch: "arm64".into(),
        target_path: "/tmp/app".into(),
        object_files: vec![],
        sections: vec![],
        symbols: vec![],
    };
    let metrics = Metrics {
        objects: objects(),
        symbols: symbols(),
        totals: GlobalTotals { text: 0, data: 0, bss: 0, other: 0, total: 0 },
    };
    AppState::new(map, metrics)
}

#[test]
fn substring_search_ignores_ascii_case() {
    assert!(contains_text("lib/Alpha.o", "alpha"));
    assert!(contains_text("lib/Alpha.o", "ALPHA.O"));
    assert!(contains_text("lib/Alpha.o", ""));
    assert!(contains_text("", ""));
    assert!(!contains_text("lib/Alpha.o", "alphab"));
    assert!(!contains_text("", "a"));
    assert!(!contains_text("ab", "abc"));
}

#[test]
fn objects_start_sorted_by_total_largest_first() {
    let state = ObjectsState::new(objects());
    assert_eq!(state.filtered_indices, vec![3, 1, 0, 2]);
    assert_eq!(state.sort_key, ObjectSortKey::Total);
    assert_eq!(state.sort_direction, SortDirection::Descending);
    assert_eq!(state.current_index(), Some(3));
    assert_eq!(state.current_object_id(), Some(4));
    assert_eq!(state.objects().len(), 4);
}

#[test]
fn object_filter_and_sort_keys() {
    let mut state = ObjectsState::new(objects());
    state.selected_position = 3;
    for c in "alpha".chars() {
        state.push_filter_char(c);
    }
    assert_eq!(state.filter_text, "alpha");
    assert_eq!(state.filtered_indices, vec![3, 0]);
    assert_eq!(state.selected_position, 1);
    state.cycle_sort_key();
    assert_eq!(state.sort_key, ObjectSortKey::Text);
    assert_eq!(state.filtered_indices, vec![0, 3]);
    state.toggle_sort_direction();
    assert_eq!(state.sort_direction, SortDirection::Ascending);
    assert_eq!(state.filtered_indices, vec![3, 0]);
    state.cycle_sort_key();
    state.cycle_sort_key();
    state.cycle_sort_key();
    assert_eq!(state.sort_key, ObjectSortKey::Path);
    assert_eq!(state.filtered_indices, vec![0, 3]);
    state.cycle_sort_key();
    assert_eq!(state.sort_key, ObjectSortKey::Total);
    state.pop_filter_char();
    assert_eq!(state.filter_text, "alph");
    for _ in 0..6 {
        state.pop_filter_char();
    }
    assert_eq!(state.filter_text, "");
    assert_eq!(state.filtered_indices, vec![0, 2, 1, 3]);
    state.filter_text = "nothing".into();
    state.filter();
    assert!(state.filtered_indices.is_empty());
    assert_eq!(state.selected_position, 0);
    assert_eq!(state.current_index(), None);
    assert_eq!(state.current_object_id(), None);
}

#[test]
fn navigation_keeps_the_selection_in_the_window() {
    let mut state = ObjectsState::new(objects());
    state.set_view_rows(2);
    assert!(!state.navigate_up());
    assert!(state.navigate_down());
    assert!(state.navigate_down());
    assert_eq!(state.selected_position, 2);
    assert_eq!(state.scroll_offset, 1);
    assert!(state.navigate_down());
    assert!(!state.navigate_down());
    assert_eq!(state.selected_position, 3);
    assert_eq!(state.scroll_offset, 2);
    assert!(state.navigate_up());
    assert!(state.navigate_up());
    assert_eq!(state.selected_position, 1);
    assert_eq!(state.scroll_offset, 1);
    state.selected_position = 0;
    state.ensure_visible();
    assert_eq!(state.scroll_offset, 0);
}

#[test]
fn scrolling_formula() {
    assert_eq!(scroll_to(5, 9, 0, 20), 9);
    assert_eq!(scroll_to(5, 9, 3, 20), 5);
    assert_eq!(scroll_to(12, 9, 3, 20), 10);
    assert_eq!(scroll_to(10, 9, 3, 20), 9);
    assert_eq!(scroll_to(1, 9, 30, 20), 0);
    assert_eq!(scroll_to(19, 0, 3, 20), 17);
    assert_eq!(clamp_selection(5, 3), 2);
    assert_eq!(clamp_selection(5, 0), 0);
    assert_eq!(clamp_selection(2, 3), 2);
}

#[test]
fn symbols_of_one_object() {
    let mut state = SymbolsState::new(symbols());
    assert!(state.filtered_indices.is_empty());
    assert_eq!(state.symbols().len(), 5);
    state.refresh_for_object(Some(4));
    assert_eq!(state.filtered_indices, vec![1, 3, 2]);
    state.cycle_sort_key();
    assert_eq!(state.sort_key, SymbolSortKey::Address);
    assert_eq!(state.filtered_indices, vec![3, 2, 1]);
    state.cycle_sort_key();
    assert_eq!(state.sort_key, SymbolSortKey::Name);
    assert_eq!(state.filtered_indices, vec![2, 1, 3]);
    state.toggle_sort_direction();
    assert_eq!(state.filtered_indices, vec![3, 1, 2]);
    state.cycle_sort_key();
    assert_eq!(state.sort_key, SymbolSortKey::Size);
    state.push_filter_char('T');
    assert_eq!(state.filtered_indices, vec![2, 3]);
    state.pop_filter_char();
    state.selected_pos = 2;
    state.set_view_rows(1);
    state.ensure_visible();
    assert_eq!(state.offset, 2);
    state.navigate_up();
    assert_eq!((state.selected_pos, state.offset), (1, 1));
    state.navigate_down();
    state.navigate_down();
    assert_eq!((state.selected_pos, state.offset), (2, 2));
    state.reset_selection();
    assert_eq!((state.selected_pos, state.offset), (0, 0));
    state.selected_pos = 2;
    state.refresh_for_object(Some(1));
    assert_eq!(state.filtered_indices, vec![4]);
    assert_eq!(state.selected_pos, 0);
    state.refresh_for_object(None);
    assert!(state.filtered_indices.is_empty());
    assert_eq!(state.current_object_id, None);
    state.filter();
    assert!(state.filtered_indices.is_empty());
}

#[test]
fn browser_starts_on_the_largest_object() {
    let app = app();
    assert_eq!(app.map_path, "/tmp/app");
    assert_eq!(app.arch, "arm64");
    assert_eq!(app.focus, FocusPane::Objects);
    assert_eq!(app.display_units, DisplayUnits::Human);
    assert!(!app.show_help && !app.filter_mode);
    assert_eq!(app.objects.current_object_id(), Some(4));
    assert_eq!(app.symbols.filtered_indices, vec![1, 3, 2]);
}

#[test]
fn keys_while_browsing() {
    let mut app = app();
    assert!(!handle_key(Key::Down, &mut app));
    assert_eq!(app.objects.current_object_id(), Some(2));
    assert_eq!(app.symbols.filtered_indices, vec![0]);
    assert!(!handle_key(Key::Up, &mut app));
    assert_eq!(app.objects.current_object_id(), Some(4));
    assert_eq!(app.symbols.filtered_indices, vec![1, 3, 2]);
    assert!(!handle_key(Key::Up, &mut app));
    assert_eq!(app.objects.selected_position, 0);
    assert!(!handle_key(Key::Tab, &mut app));
    assert_eq!(app.focus, FocusPane::Symbols);
    assert!(!handle_key(Key::Down, &mut app));
    assert_eq!(app.symbols.selected_pos, 1);
    assert_eq!(app.objects.selected_position, 0);
    assert!(!handle_key(Key::Char('s'), &mut app));
    assert_eq!(app.symbols.sort_key, SymbolSortKey::Address);
    assert_eq!(app.objects.sort_key, ObjectSortKey::Total);
    assert!(!handle_key(Key::Char('r'), &mut app));
    assert_eq!(app.symbols.sort_direction, SortDirection::Ascending);
    assert_eq!(app.symbols.filtered_indices, vec![1, 2, 3]);
    assert!(!handle_key(Key::Tab, &mut app));
    assert!(!handle_key(Key::Char('s'), &mut app));
    assert_eq!(app.objects.sort_key, ObjectSortKey::Text);
    assert!(!handle_key(Key::Char('u'), &mut app));
    assert_eq!(app.display_units, DisplayUnits::Hex);
    assert!(!handle_key(Key::Char('u'), &mut app));
    assert_eq!(app.display_units, DisplayUnits::Human);
    assert!(!handle_key(Key::Other, &mut app));
    assert!(!handle_key(Key::Enter, &mut app));
    assert!(handle_key(Key::Char('q'), &mut app));
}

#[test]
fn keys_while_the_help_is_shown() {
    let mut app = app();
    assert!(!handle_key(Key::Char('?'), &mut app));
    assert!(app.show_help);
    assert!(!handle_key(Key::Down, &mut app));
    assert_eq!(app.objects.selected_position, 0);
    assert!(app.show_help);
    assert!(!handle_key(Key::Char('q'), &mut app));
    assert!(!app.show_help);
    handle_key(Key::Char('?'), &mut app);
    assert!(!handle_key(Key::Esc, &mut app));
    assert!(!app.show_help);
    handle_key(Key::Char('?'), &mut app);
    assert!(!handle_key(Key::Char('?'), &mut app));
    assert!(!app.show_help);
}

#[test]
fn keys_while_the_filter_is_edited() {
    let mut app = app();
    assert!(!handle_key(Key::Char('/'), &mut app));
    assert!(app.filter_mode);
    assert!(!handle_key(Key::Char('q'), &mut app));
    assert_eq!(app.objects.filter_text, "q");
    assert!(app.objects.filtered_indices.is_empty());
    assert!(app.symbols.filtered_indices.is_empty());
    assert!(!handle_key(Key::Backspace, &mut app));
    assert!(!handle_key(Key::Char('\u{7}'), &mut app));
    assert!(!handle_key(Key::Char('\u{9f}'), &mut app));
    assert_eq!(app.objects.filter_text, "");
    for c in "BETA".chars() {
        handle_key(Key::Char(c), &mut app);
    }
    assert_eq!(app.objects.filtered_indices, vec![1]);
    assert_eq!(app.symbols.filtered_indices, vec![0]);
    assert!(!handle_key(Key::Up, &mut app));
    assert!(!handle_key(Key::Enter, &mut app));
    assert!(!app.filter_mode);
    handle_key(Key::Tab, &mut app);
    handle_key(Key::Char('/'), &mut app);
    handle_key(Key::Char('x'), &mut app);
    assert_eq!(app.symbols.filter_text, "x");
    assert_eq!(app.objects.filter_text, "BETA");
    assert!(app.symbols.filtered_indices.is_empty());
    handle_key(Key::Backspace, &mut app);
    assert_eq!(app.symbols.filtered_indices, vec![0]);
    assert!(!handle_key(Key::Esc, &mut app));
    assert!(!app.filter_mode);
}

#[test]
fn lists_applied_from_outside() {
    let mut app = app();
    app.objects.filter_text = "gamma".into();
    apply_object_filter(&mut app);
    assert_eq!(app.objects.filtered_indices, vec![2]);
    assert!(app.symbols.filtered_indices.is_empty());
    app.objects.filter_text = "none".into();
    app.symbols.filtered_indices = vec![4];
    apply_object_filter(&mut app);
    assert_eq!(app.symbols.filtered_indices, vec![4]);
    app.objects.filter_text = "".into();
    app.objects.sort_direction = SortDirection::Ascending;
    apply_object_filter(&mut app);
    assert_eq!(app.objects.filtered_indices, vec![0, 2, 1, 3]);
    app.objects.sort_key = ObjectSortKey::Bss;
    apply_object_sort(&mut app);
    assert_eq!(app.objects.filtered_indices, vec![0, 2, 3, 1]);
    app.objects.selected_position = 3;
    refresh_symbols(&mut app);
    assert_eq!(app.symbols.filtered_indices, vec![0]);
    app.symbols.filtered_indices = vec![0, 1, 2];
    app.symbols.sort_key = SymbolSortKey::Name;
    apply_symbol_sort(&mut app);
    assert_eq!(app.symbols.filtered_indices, vec![0, 2, 1]);
}

#[test]
fn plain_list_steps() {
    assert_eq!(list_step(0, 3, Key::Down), (1, false));
    assert_eq!(list_step(2, 3, Key::Down), (2, false));
    assert_eq!(list_step(0, 0, Key::Down), (0, false));
    assert_eq!(list_step(2, 3, Key::Up), (1, false));
    assert_eq!(list_step(0, 3, Key::Up), (0, false));
    assert_eq!(list_step(1, 3, Key::Char('q')), (1, true));
    assert_eq!(list_step(1, 3, Key::Esc), (1, true));
    assert_eq!(list_step(1, 3, Key::Tab), (1, false));
}

#[test]
fn view_helpers() {
    assert_eq!(visible_range(2, 3, 10), (2, 5));
    assert_eq!(visible_range(8, 3, 10), (8, 10));
    assert_eq!(visible_range(12, 3, 10), (10, 10));
    assert_eq!(visible_range(0, 0, 10), (0, 0));
    assert_eq!(visible_range(usize::MAX, usize::MAX, 4), (4, 4));
    assert_eq!(bucket_label(Bucket::Text), "TEXT");
    assert_eq!(bucket_label(Bucket::Data), "DATA");
    assert_eq!(bucket_label(Bucket::Bss), "BSS");
    assert_eq!(bucket_label(Bucket::Other), "OTHER");
    assert_eq!(units_label(DisplayUnits::Human), "human");
    assert_eq!(units_label(DisplayUnits::Hex), "hex");
    assert_eq!(column_label("TEXT", false, SortDirection::Ascending), "TEXT");
    assert_eq!(column_label("TEXT", true, SortDirection::Ascending), "TEXT ↑");
    assert_eq!(column_label("Name", true, SortDirection::Descending), "Name ↓");
    assert_eq!(format_address(0x1000), "0x00001000");
    assert_eq!(format_address(0), "0x00000000");
    assert_eq!(format_address(0x10004C058), "0x10004C058");
    assert_eq!(format_address(u64::MAX), format!("0x{:08X}", u64::MAX));
}

#[test]
fn metrics_feed_the_browser() {
    let text = "# Path: /t/app\n# Arch: arm64\n# Object files:\n[  0] a.o\n[  1] b.o\n# Sections:\n# caption\n0x1000 0x100 __TEXT __text\n# Symbols:\n# caption\n0x1000 0x10 [  1] _f\n0x1010 0x20 [  0] _g\n";
    let map = linkerland::parser::parse(text).unwrap();
    let metrics = checked_build_metrics(&map).unwrap();
    let app = AppState::new(map, metrics);
    assert_eq!(app.objects.current_object_id(), Some(0));
    assert_eq!(app.symbols.filtered_indices, vec![1]);
    assert_eq!(app.map_path, "/t/app");
}
