use std::cmp::Ordering;

use linkerland::cli::{ExportArgs, ExportFormat, SortKey, SortOrder};
use linkerland::export::{export, select_symbols, NameFilter};
use linkerland::model::{MapFile, Symbol};
use linkerland::numbers::hex_size;
use linkerland::order::{compare_hex_size, compare_symbols, compare_text};

fn symbol(address: &str, size: &str, file_index: &str, name: &str) -> Symbol {
    Symbol {
        address: address.into(),
        size: size.into(),
        file_index: file_index.into(),
        name: name.into(),
    }
}

fn map() -> MapFile {
    MapFile {
        arch: "arm64".into(),
        target_path: "/tmp/app".into(),
        object_files: vec![],
        sections: vec![],
        symbols: vec![
            symbol("0x1", "0x20", "2", "_beta"),
            symbol("0x2", "0x10", "10", "_alpha"),
            symbol("0x3", "0x20", "1", "_gamma"),
            symbol("0x4", "junk", "9", "main"),
            symbol("0x5", "0x0x30", "3", "_delta"),
        ],
    }
}

fn args(filter: Option<&str>, sort: SortKey, order: SortOrder) -> ExportArgs {
    ExportArgs {
        mapfile: "a.map".into(),
        format: ExportFormat::Json,
        filter: filter.map(|f| f.to_string()),
        out: None,
        sort,
        order,
    }
}

fn names(rows: &[&Symbol]) -> Vec<String> {
    rows.iter().map(|s| s.name.clone()).collect()
}

#[test]
fn hex_sizes_for_sorting() {
    assert_eq!(hex_size("0x20"), 0x20);
    assert_eq!(hex_size("20"), 0x20);
    assert_eq!(hex_size("0x0x30"), 0x30);
    assert_eq!(hex_size("junk"), 0);
    assert_eq!(hex_size(""), 0);
    assert_eq!(hex_size("0x10000000000000000"), 0);
    assert_eq!(compare_hex_size("0x10", "0x9"), Ordering::Greater);
    assert_eq!(compare_hex_size("0x10", "0x0010"), Ordering::Equal);
    assert_eq!(compare_hex_size("nothing", "0x1"), Ordering::Less);
}

#[test]
fn text_order_is_lexicographic() {
    assert_eq!(compare_text("10", "9"), Ordering::Less);
    assert_eq!(compare_text("abc", "ab"), Ordering::Greater);
    assert_eq!(compare_text("", ""), Ordering::Equal);
    assert_eq!(compare_text("", "a"), Ordering::Less);
    assert_eq!(compare_text("Z", "a"), "Z".cmp("a"));
    assert_eq!(compare_text("é", "z"), "é".cmp("z"));
}

#[test]
fn symbols_compare_by_key_and_direction() {
    let a = symbol("0x1", "0x20", "2", "_beta");
    let b = symbol("0x2", "0x10", "10", "_alpha");
    assert_eq!(compare_symbols(&a, &b, SortKey::Size, SortOrder::Asc), Ordering::Greater);
    assert_eq!(compare_symbols(&a, &b, SortKey::Size, SortOrder::Desc), Ordering::Less);
    assert_eq!(compare_symbols(&a, &b, SortKey::Name, SortOrder::Asc), Ordering::Greater);
    assert_eq!(compare_symbols(&a, &b, SortKey::Path, SortOrder::Asc), Ordering::Greater);
    assert_eq!(compare_symbols(&a, &a, SortKey::Path, SortOrder::Desc), Ordering::Equal);
}

#[test]
fn export_sorts_by_size_largest_first_and_keeps_ties_in_place() {
    let map = map();
    let rows = export(&map, &args(None, SortKey::Size, SortOrder::Desc)).unwrap();
    assert_eq!(names(&rows), ["_delta", "_beta", "_gamma", "_alpha", "main"]);
    let rows = export(&map, &args(None, SortKey::Size, SortOrder::Asc)).unwrap();
    assert_eq!(names(&rows), ["main", "_alpha", "_beta", "_gamma", "_delta"]);
}

#[test]
fn export_sorts_by_name_and_by_file_index_text() {
    let map = map();
    let rows = export(&map, &args(None, SortKey::Name, SortOrder::Asc)).unwrap();
    assert_eq!(names(&rows), ["_alpha", "_beta", "_delta", "_gamma", "main"]);
    let rows = export(&map, &args(None, SortKey::Path, SortOrder::Asc)).unwrap();
    let indices: Vec<&str> = rows.iter().map(|s| s.file_index.as_str()).collect();
    assert_eq!(indices, ["1", "10", "2", "3", "9"]);
}

#[test]
fn export_filters_by_regular_expression() {
    let map = map();
    let rows = export(&map, &args(Some("^_.*a$"), SortKey::Name, SortOrder::Desc)).unwrap();
    assert_eq!(names(&rows), ["_gamma", "_delta", "_beta", "_alpha"]);
    let rows = export(&map, &args(Some("mai"), SortKey::Name, SortOrder::Asc)).unwrap();
    assert_eq!(names(&rows), ["main"]);
    let rows = export(&map, &args(Some("nothing"), SortKey::Name, SortOrder::Asc)).unwrap();
    assert!(rows.is_empty());
}

#[test]
fn a_pattern_that_does_not_compile_is_an_error() {
    let map = map();
    let result = export(&map, &args(Some("("), SortKey::Name, SortOrder::Asc));
    assert!(result.is_err());
    assert!(!result.unwrap_err().is_empty());
    assert!(NameFilter::new("[").is_err());
}

#[test]
fn a_filter_accepts_what_its_pattern_matches() {
    let filter = NameFilter::new("^_[ab]").unwrap();
    assert!(filter.accepts("_alpha"));
    assert!(filter.accepts("_beta"));
    assert!(!filter.accepts("_gamma"));
    assert!(!filter.accepts("x_alpha"));
    let map = map();
    let rows = select_symbols(&map.symbols, Some(&filter), SortKey::Size, SortOrder::Asc);
    assert_eq!(names(&rows), ["_alpha", "_beta"]);
}

#[test]
fn a_failed_compilation_gives_the_message_of_its_error() {
    for pattern in ["(", "[", "a{2,1}", "\\", "(?P<n>a)(?P<n>b)"] {
        let message = regex::Regex::new(pattern).unwrap_err().to_string();
        assert_eq!(NameFilter::new(pattern).unwrap_err(), message);
        let map = map();
        let failed = export(&map, &args(Some(pattern), SortKey::Name, SortOrder::Asc));
        assert_eq!(failed.unwrap_err(), message);
    }
}

#[test]
fn a_pattern_compiles_where_the_regex_crate_compiles_it() {
    let map = map();
    for pattern in ["", "a", "^_", "_(alpha|beta)$", "\\d+", "(", "[z-a]", "a**", "\\p{Greek}"] {
        let compiles = regex::Regex::new(pattern).is_ok();
        assert_eq!(NameFilter::new(pattern).is_ok(), compiles, "on {:?}", pattern);
        let rows = export(&map, &args(Some(pattern), SortKey::Size, SortOrder::Desc));
        assert_eq!(rows.is_ok(), compiles, "on {:?}", pattern);
        if let Ok(rows) = rows {
            let expression = regex::Regex::new(pattern).unwrap();
            let expected = map.symbols.iter().filter(|s| expression.is_match(&s.name)).count();
            assert_eq!(rows.len(), expected, "on {:?}", pattern);
        }
    }
}
