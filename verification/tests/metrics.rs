use linkerland::metrics::{build_metrics, checked_build_metrics, GlobalTotals};
use linkerland::model::{MapFile, ObjectFile, Section, Symbol};
use linkerland::sections::{build_section_ranges, classify, find_section, Bucket, SectionRange};

fn section(address: &str, size: &str, segment: &str, name: &str) -> Section {
    Section {
        address: address.into(),
        size: size.into(),
        segment: segment.into(),
        section: name.into(),
    }
}

fn symbol(address: &str, size: &str, file_index: &str, name: &str) -> Symbol {
    Symbol {
        address: address.into(),
        size: size.into(),
        file_index: file_index.into(),
        name: name.into(),
    }
}

fn mk_map() -> MapFile {
    MapFile {
        arch: "arm64".into(),
        target_path: "/tmp/app".into(),
        object_files: vec![ObjectFile { index: 1, path: "a.o".into() }],
        sections: vec![section("0x1000", "0x50", "__TEXT", "__text")],
        symbols: vec![symbol("0x1000", "0x10", "1", "_foo")],
    }
}

fn range(start: u64, end: u64, segment: &str, name: &str) -> SectionRange {
    SectionRange { start, end, segment: segment.into(), section: name.into() }
}

#[test]
fn build_basic() {
    let map = mk_map();
    let res = build_metrics(&map);
    assert_eq!(res.objects.len(), 1);
    assert_eq!(res.objects[0].text, 0x10);
    assert_eq!(res.totals.text, 0x10);
    assert_eq!(res.symbols[0].bucket, Bucket::Text);
}

#[test]
fn classification() {
    assert_eq!(classify("__TEXT", "__text"), Bucket::Text);
    assert_eq!(classify("__DATA", "__data"), Bucket::Data);
    assert_eq!(classify("__DATA", "__bss"), Bucket::Bss);
    assert_eq!(classify("__DATA", "__unknown_xyz"), Bucket::Other);
    assert_eq!(classify("__text", "__bss"), Bucket::Text);
    assert_eq!(classify("__Data", "__CONST"), Bucket::Data);
    assert_eq!(classify("__DATA", "__Common"), Bucket::Bss);
    for name in ["__data", "__const", "__got", "__mod_init_func", "__cstring", "__const_coal"] {
        assert_eq!(classify("__DATA", name), Bucket::Data);
        assert_eq!(classify("__DATA", &name.to_uppercase()), Bucket::Data);
    }
    for name in ["__bss", "__bss_coal", "__common"] {
        assert_eq!(classify("__DATA", name), Bucket::Bss);
    }
    assert_eq!(classify("__TEXT_", "__text"), Bucket::Other);
    assert_eq!(classify("", ""), Bucket::Other);
}

#[test]
fn range_lookup_boundary() {
    let ranges = vec![
        range(0x1000, 0x1050, "__TEXT", "__text"),
        range(0x1050, 0x1100, "__DATA", "__data"),
    ];
    assert_eq!(find_section(&ranges, 0x104F).unwrap().section, "__text");
    assert_eq!(find_section(&ranges, 0x1050).unwrap().section, "__data");
    assert!(find_section(&ranges, 0x1100).is_none());
    assert!(find_section(&ranges, 0xFFF).is_none());
    assert_eq!(find_section(&ranges, 0x1000).unwrap().start, 0x1000);
    assert!(find_section(&[], 0).is_none());
}

#[test]
fn ranges_are_sorted_and_malformed_sections_dropped() {
    let sections = vec![
        section("0x3000", "0x10", "__DATA", "__bss"),
        section("0xnope", "0x10", "__DATA", "__data"),
        section("0x1000", "0x10", "__TEXT", "__text"),
        section("0x2000", "zz", "__DATA", "__data"),
        section("0x1000", "0x20", "__DATA", "__const"),
        section("0xFFFFFFFFFFFFFFF0", "0x20", "__DATA", "__got"),
    ];
    let ranges = build_section_ranges(&sections);
    let starts: Vec<u64> = ranges.iter().map(|r| r.start).collect();
    assert_eq!(starts, vec![0x1000, 0x1000, 0x3000, 0xFFFFFFFFFFFFFFF0]);
    assert_eq!(ranges[0].section, "__text");
    assert_eq!(ranges[1].section, "__const");
    assert_eq!(ranges[1].end, 0x1020);
    assert_eq!(ranges[3].end, u64::MAX);
    // Of two ranges with one start, the later one of the source is found.
    assert_eq!(find_section(&ranges, 0x1005).unwrap().section, "__const");
}

#[test]
fn dropped_symbol() {
    let mut map = mk_map();
    map.symbols = vec![symbol("0xZZZZ", "0x10", "1", "_bad")];
    let res = build_metrics(&map);
    assert_eq!(res.symbols.len(), 0);
    assert_eq!(res.totals, GlobalTotals { text: 0, data: 0, bss: 0, other: 0, total: 0 });
    assert_eq!(res.objects[0].total, 0);
    assert_eq!(res.objects[0].text, 0);
}

#[test]
fn size_and_index_defaults() {
    let mut map = mk_map();
    map.symbols = vec![
        symbol("0x1000", "junk", "1", "_no_size"),
        symbol("0x1004", "0x8", "x", "_no_index"),
        symbol("0x2000", "0x4", "7", "_unknown_object"),
    ];
    let res = build_metrics(&map);
    assert_eq!(res.symbols.len(), 3);
    assert_eq!(res.symbols[0].size, 0);
    assert_eq!(res.symbols[0].file_index, 1);
    assert_eq!(res.symbols[1].file_index, -1);
    assert_eq!(res.symbols[1].bucket, Bucket::Text);
    assert_eq!(res.symbols[2].bucket, Bucket::Other);
    assert_eq!(res.symbols[2].address, 0x2000);
    assert_eq!(res.totals, GlobalTotals { text: 8, data: 0, bss: 0, other: 4, total: 12 });
    assert_eq!(res.objects[0].total, 0);
}

#[test]
fn sums_are_conserved() {
    let map = MapFile {
        arch: "arm64".into(),
        target_path: "/tmp/app".into(),
        object_files: vec![
            ObjectFile { index: 1, path: "a.o".into() },
            ObjectFile { index: 5, path: "b.o".into() },
            ObjectFile { index: 1, path: "c.o".into() },
        ],
        sections: vec![
            section("0x1000", "0x100", "__TEXT", "__text"),
            section("0x2000", "0x100", "__DATA", "__data"),
            section("0x3000", "0x100", "__DATA", "__bss"),
            section("0x4000", "0x100", "__LINKEDIT", "__misc"),
        ],
        symbols: vec![
            symbol("0x1000", "0x10", "1", "_a"),
            symbol("0x2000", "0x20", "5", "_b"),
            symbol("0x3000", "0x30", "1", "_c"),
            symbol("0x4000", "0x40", "5", "_d"),
            symbol("0x1010", "0x50", "9", "_e"),
            symbol("oops", "0x60", "1", "_f"),
            symbol("0x20FF", "0x1", "5", "_g"),
            symbol("0x2100", "0x2", "5", "_h"),
        ],
    };
    let res = build_metrics(&map);
    assert_eq!(res.symbols.len(), 7);
    let sizes: u64 = res.symbols.iter().map(|s| s.size).sum();
    assert_eq!(res.totals.total, sizes);
    assert_eq!(sizes, 0x10 + 0x20 + 0x30 + 0x40 + 0x50 + 1 + 2);
    let t = res.totals;
    assert_eq!(t.text + t.data + t.bss + t.other, t.total);
    assert_eq!(t, GlobalTotals { text: 0x60, data: 0x21, bss: 0x30, other: 0x42, total: 0xF3 });
    for o in &res.objects {
        assert_eq!(o.text + o.data + o.bss + o.other, o.total);
    }
    let held: u64 = res.objects.iter().map(|o| o.total).sum();
    assert!(held <= t.total);
    assert_eq!(held + 0x50, t.total);
    // Of two objects with one index the later one gets the symbols.
    assert_eq!(res.objects[0].total, 0);
    assert_eq!(res.objects[2].text, 0x10);
    assert_eq!(res.objects[2].bss, 0x30);
    assert_eq!(res.objects[2].id, 1);
    assert_eq!(res.objects[2].path, "c.o");
    assert_eq!(res.objects[1].data, 0x21);
    assert_eq!(res.objects[1].other, 0x42);
    assert_eq!(res.symbols[4].name, "_e");
    assert_eq!(res.symbols[5].bucket, Bucket::Data);
    assert_eq!(res.symbols[6].bucket, Bucket::Other);
}

#[test]
fn sizes_that_do_not_fit() {
    let mut map = mk_map();
    map.symbols = vec![
        symbol("0x1000", "0xFFFFFFFFFFFFFFFF", "1", "_a"),
        symbol("0x1001", "0x1", "1", "_b"),
    ];
    assert!(checked_build_metrics(&map).is_none());
    map.symbols.pop();
    let res = checked_build_metrics(&map).unwrap();
    assert_eq!(res.totals.total, u64::MAX);
    assert_eq!(res.objects[0].text, u64::MAX);
}

#[test]
fn overlapping_ranges_go_by_the_nearest_start() {
    let mut map = mk_map();
    map.sections = vec![
        section("0x1000", "0x1000", "__TEXT", "__text"),
        section("0x1800", "0x10", "__DATA", "__data"),
    ];
    map.symbols = vec![
        symbol("0x17FF", "0x1", "1", "_in_text"),
        symbol("0x1800", "0x2", "1", "_in_data"),
        symbol("0x1900", "0x4", "1", "_behind_data"),
    ];
    let res = build_metrics(&map);
    assert_eq!(res.symbols[0].bucket, Bucket::Text);
    assert_eq!(res.symbols[1].bucket, Bucket::Data);
    // The nearest range at or below 0x1900 ends at 0x1810; the wider one is not asked.
    assert_eq!(res.symbols[2].bucket, Bucket::Other);
    assert_eq!(res.totals, GlobalTotals { text: 1, data: 2, bss: 0, other: 4, total: 7 });
    assert_eq!(res.objects[0].other, 4);
}

#[test]
fn metrics_of_a_parsed_document() {
    let text = "# Path: /t/app\n# Arch: arm64\n# Object files:\n[  0] linker synthesized\n[  1] a.o\n# Sections:\n# Address\tSize\tSegment\tSection\n0x100000000\t0x00000100\t__TEXT\t__text\n0x100000100\t0x00000040\t__DATA\t__bss\n# Symbols:\n# Address\tSize\tFile  Name\n0x100000000\t0x00000080\t[  1] _main\n0x100000080\t0x00000080\t[  1] _helper\n0x100000100\t0x00000040\t[  0] _zeroed\n";
    let map = linkerland::parser::parse(text).unwrap();
    let res = build_metrics(&map);
    assert_eq!(res.objects.len(), 2);
    assert_eq!(res.objects[1].text, 0x100);
    assert_eq!(res.objects[0].bss, 0x40);
    assert_eq!(res.totals, GlobalTotals { text: 0x100, data: 0, bss: 0x40, other: 0, total: 0x140 });
    assert_eq!(res.symbols[1].address, 0x100000080);
    assert_eq!(res.symbols[1].name, "_helper");
    assert_eq!(res.symbols[2].file_index, 0);
}
