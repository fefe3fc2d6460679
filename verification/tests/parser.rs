use linkerland::lexer::Input;
use linkerland::model::{MapFileHeaders, ParseError};
use linkerland::parser::{
    arch, object_file, object_files, parse, section, section_table, sections, symbol,
    symbol_table, symbols, target_path,
};

const SMALL: &str = "# Path: /target/debug/deps/sample-app\n# Arch: arm64\n# Object files:\n[  0] linker synthesized\n# Sections:\n# Address\tSize    \tSegment\tSection\n0x100000000\t0x00001000\t__TEXT\t__text\n# Symbols:\n# Address\tSize    \tFile  Name\n0x100000000\t0x00000018\t[  0] _main\n";

fn large_sample() -> String {
    let mut text = String::from(
        "# Path: /target/debug/deps/learning_linkers-97732971bdfee10d\n# Arch: arm64\n# Object files:\n",
    );
    for i in 0..67 {
        text.push_str(&format!("[{:3}] /objects/unit{}.o\n", i, i));
    }
    text.push_str("# Sections:\n# Address\tSize    \tSegment\tSection\n");
    let names = [
        ("__TEXT", "__text"),
        ("__TEXT", "__stubs"),
        ("__TEXT", "__gcc_except_tab"),
        ("__TEXT", "__const"),
        ("__TEXT", "__cstring"),
        ("__TEXT", "__unwind_info"),
        ("__TEXT", "__eh_frame"),
        ("__DATA_CONST", "__got"),
        ("__DATA_CONST", "__const"),
        ("__DATA", "__la_symbol_ptr"),
        ("__DATA", "__data"),
        ("__DATA", "__thread_vars"),
        ("__DATA", "__thread_bss"),
        ("__DATA", "__bss"),
    ];
    for (k, (segment, section)) in names.iter().enumerate() {
        text.push_str(&format!(
            "0x{:X}\t0x{:08X}\t{}\t{}\n",
            0x100000000u64 + (k as u64) * 0x1000,
            0x1000,
            segment,
            section
        ));
    }
    text.push_str("# Symbols:\n# Address\tSize    \tFile  Name\n");
    for k in 0..200u64 {
        text.push_str(&format!(
            "0x{:X}\t0x{:08X}\t[{:3}] _symbol_{}\n",
            0x100000000u64 + k * 0x40,
            0x40,
            k % 67,
            k
        ));
    }
    text.push_str("# Dead Stripped Symbols:\n#        \tSize    \tFile  Name\n<<dead>>\t0x00000008\t[  2] _unused\n");
    text
}

#[test]
fn test_arch() {
    let mut input = Input::new("# Arch: x86_64");
    let result = arch(&mut input);
    assert_eq!(result.unwrap(), "x86_64");
}

#[test]
fn test_object_files() {
    let mut input = Input::new(
        "# Object files:
[ 66] /Library/Developer/CommandLineTools/SDKs/MacOSX14.4.sdk/usr/lib/system/libunwind.tbd",
    );
    let result = object_files(&mut input);
    let object_files = result.unwrap();

    assert_eq!(object_files.len(), 1);
    assert_eq!(object_files[0].index, 66);
    assert_eq!(
        object_files[0].path,
        "/Library/Developer/CommandLineTools/SDKs/MacOSX14.4.sdk/usr/lib/system/libunwind.tbd"
    );
}

#[test]
fn test_target_path() {
    let mut input = Input::new("# Path: /target/debug/deps/sample-app");
    let result = target_path(&mut input);
    assert_eq!(result.unwrap(), "/target/debug/deps/sample-app");
}

#[test]
fn test_object_files_immediately_followed_by_sections() {
    let mut input = Input::new(
        "# Object files:
[  0] a.o
[  1] b.o
# Sections:
# Address	Size    	Segment Section
0x0	0x1	__TEXT	__text",
    );
    let result = object_files(&mut input).unwrap();
    assert_eq!(result.len(), 2);
    assert_eq!(result[0].index, 0);
    assert_eq!(result[0].path, "a.o");
    assert!(input.remaining().starts_with("# Sections:"));
}

#[test]
fn test_symbol() {
    let mut input = Input::new("0x10004C058	0x00000018	[  1] __ZN3std3sys3pal4unix17thread_local_dtor13register_dtor5DTORS17hf7230a0b661819a4E");
    let result = symbol(&mut input);
    let symbol = result.unwrap();
    assert_eq!(symbol.address, "0x10004C058");
    assert_eq!(symbol.size, "0x00000018");
    assert_eq!(symbol.file_index, "1");
    assert_eq!(
        symbol.name,
        "__ZN3std3sys3pal4unix17thread_local_dtor13register_dtor5DTORS17hf7230a0b661819a4E"
    );
}

#[test]
fn test_single_symbol_row() {
    let mut input = Input::new("0x10004C058	0x00000018	[  1] __ZN3std3sys3pal4unix17thread_local_dtor13register_dtor5DTORS17hf7230a0b661819a4E");
    let symbols = symbols(&mut input);
    assert_eq!(symbols.len(), 1);
    assert_eq!(symbols[0].address, "0x10004C058");
}

#[test]
fn test_multiple_symbol_rows() {
    let mut input = Input::new(
        "
        0x10004C058	0x00000018	[  1] __ZN3std3sys3pal4unix17thread_local_dtor13register_dtor5DTORS17hf7230a0b661819a4E
        0x10004C059	0x00000020	[  2] __ZN3std3sys3pal4unix17thread_local_dtor13register_dtor5DTORS17hf7230a0b661819a4E",
    );
    let symbols = symbols(&mut input);
    assert_eq!(symbols.len(), 2);
    assert_eq!(symbols[0].address, "0x10004C058");
    assert_eq!(symbols[1].address, "0x10004C059");
}

#[test]
fn test_symbol_table() {
    let mut input = Input::new(
        "# Symbols:
    # Address	Size    	File  Name
    0x10004C058	0x00000018	[  1] __ZN3std3sys3pal4unix17thread_local_dtor13register_dtor5DTORS17hf7230a0b661819a4E",
    );
    let result = symbol_table(&mut input);
    let symbols = result.unwrap();
    assert_eq!(symbols.len(), 1);
    assert_eq!(symbols[0].address, "0x10004C058");
}

#[test]
fn test_single_section_row() {
    let mut input = Input::new("0x10004C058	0x00000018	__TEXT	__text");
    let result = section(&mut input);
    let section = result.unwrap();
    assert_eq!(section.address, "0x10004C058");
    assert_eq!(section.size, "0x00000018");
    assert_eq!(section.segment, "__TEXT");
    assert_eq!(section.section, "__text");
}

#[test]
fn test_section_with_underscores() {
    let mut input = Input::new("0x10003BBB8\t0x000017F4\t__TEXT\t__gcc_except_tab");
    let result = section(&mut input).unwrap();
    assert_eq!(result.segment, "__TEXT");
    assert_eq!(result.section, "__gcc_except_tab");
}

#[test]
fn test_sections() {
    let mut input = Input::new(
        "0x10004C058	0x00000018	__TEXT	__text
        0x10004C059	0x00000020	__TEXT	__text",
    );
    let sections = sections(&mut input);
    assert_eq!(sections.len(), 2);
    assert_eq!(sections[0].address, "0x10004C058");
    assert_eq!(sections[0].section, "__text");
    assert_eq!(sections[0].segment, "__TEXT");
    assert_eq!(sections[1].address, "0x10004C059");
    assert_eq!(sections[1].section, "__text");
    assert_eq!(sections[1].segment, "__TEXT");
}

#[test]
fn test_section_table() {
    let mut input = Input::new(
        "# Sections:
        # Address	Size    	Segment Section
        0x10004C058	0x00000018	__TEXT	__text",
    );
    let result = section_table(&mut input);
    let sections = result.unwrap();
    assert_eq!(sections.len(), 1);
    assert_eq!(sections[0].address, "0x10004C058");
    assert_eq!(sections[0].size, "0x00000018");
    assert_eq!(sections[0].segment, "__TEXT");
    assert_eq!(sections[0].section, "__text");
}

#[test]
fn test_section_table_stops_at_symbols() {
    let mut input = Input::new(
        "# Sections:
    # Address	Size    	Segment Section
    0x10004C058	0x00000018	__TEXT	__text
    # Symbols:
    0x10004C060	0x00000030	[  1] some_symbol",
    );
    let result = section_table(&mut input);
    let sections = result.unwrap();
    assert_eq!(sections.len(), 1);
    assert_eq!(sections[0].address, "0x10004C058");
}

#[test]
fn test_parse_small_sample() {
    let result = parse(SMALL).unwrap();
    assert_eq!(result.target_path, "/target/debug/deps/sample-app");
    assert_eq!(result.arch, "arm64");
    assert_eq!(result.object_files.len(), 1);
    assert_eq!(result.sections.len(), 1);
    assert_eq!(result.symbols.len(), 1);
}

#[test]
fn test_parse_large_sample() {
    let text = large_sample();
    let result = parse(&text).unwrap();
    assert_eq!(
        result.target_path,
        "/target/debug/deps/learning_linkers-97732971bdfee10d"
    );
    assert_eq!(result.arch, "arm64");
    assert_eq!(result.object_files.len(), 67);
    assert_eq!(result.sections.len(), 14);
    assert!(result.symbols.len() > 0);
}

#[test]
fn test_parse_linker_map_detects_macho() {
    let text = large_sample();
    let result = parse(&text);
    assert!(
        result.is_ok(),
        "Failed to parse linker map: {:?}",
        result.err()
    );
    let map = result.unwrap();
    assert_eq!(map.arch, "arm64");
    assert!(map.target_path.contains("learning_linkers"));
    assert!(!map.sections.is_empty());
    assert!(map.sections.iter().any(|s| s.segment.starts_with("__")));
    assert!(!map.symbols.is_empty());
}

#[test]
fn parse_twice_gives_equal_documents() {
    let text = large_sample();
    assert_eq!(parse(&text), parse(&text));
    assert_eq!(parse("# Arch: x"), parse("# Arch: x"));
}

#[test]
fn rows_keep_source_order() {
    let map = parse(&large_sample()).unwrap();
    for (n, object) in map.object_files.iter().enumerate() {
        assert_eq!(object.index, n as i32);
        assert_eq!(object.path, format!("/objects/unit{}.o", n));
    }
    for (n, symbol) in map.symbols.iter().enumerate() {
        assert_eq!(symbol.name, format!("_symbol_{}", n));
    }
    assert_eq!(map.symbols.len(), 200);
    assert_eq!(map.sections[2].section, "__gcc_except_tab");
    assert_eq!(map.sections[13].address, "0x10000D000");
}

#[test]
fn missing_headers_are_reported_with_their_position() {
    assert_eq!(
        parse("").unwrap_err(),
        ParseError { expected: MapFileHeaders::Path, position: 0 }
    );
    assert_eq!(
        parse("# Path: a\nArch").unwrap_err(),
        ParseError { expected: MapFileHeaders::Architecture, position: 9 }
    );
    assert_eq!(
        parse("# Path: a\n# Arch: b\n").unwrap_err(),
        ParseError { expected: MapFileHeaders::ObjectFiles, position: 19 }
    );
    assert_eq!(
        parse("# Path: a\n# Arch: b\n# Object files:\n[ 1] a.o\nbroken\n").unwrap_err(),
        ParseError { expected: MapFileHeaders::Sections, position: 45 }
    );
    let text = "# Path: a\n# Arch: b\n# Object files:\n[ 1] a.o\n# Sections:\n# caption\n0x1 0x2 __A __b\nnot a row\n";
    assert_eq!(
        parse(text).unwrap_err(),
        ParseError { expected: MapFileHeaders::Symbols, position: 83 }
    );
}

#[test]
fn a_failed_block_leaves_the_cursor() {
    let mut input = Input::new("# Sections:\nno caption line ending");
    assert_eq!(
        section_table(&mut input).unwrap_err(),
        ParseError { expected: MapFileHeaders::Sections, position: 0 }
    );
    assert_eq!(input.pos, 0);
    let mut input = Input::new("0x10 0x20 __TEXT text");
    assert!(section(&mut input).is_none());
    assert_eq!(input.pos, 0);
    let mut input = Input::new("0x10 0x20 [ x] name");
    assert!(symbol(&mut input).is_none());
    assert_eq!(input.pos, 0);
}

#[test]
fn a_malformed_symbol_row_ends_the_table() {
    let text = "# Path: a\n# Arch: b\n# Object files:\n[ 1] a.o\n# Sections:\n# caption\n0x1 0x2 __A __b\n# Symbols:\n# caption\n0x1 0x2 [ 1] first\n0xZZZZ 0x2 [ 1] second\n0x3 0x4 [ 1] third\n";
    let map = parse(text).unwrap();
    assert_eq!(map.symbols.len(), 1);
    assert_eq!(map.symbols[0].name, "first");
}

#[test]
fn symbols_end_at_the_next_header() {
    let mut input = Input::new("0x1 0x2 [ 1] # not a header\n# Dead Stripped Symbols:\n0x3 0x4 [ 1] x");
    let rows = symbols(&mut input);
    assert_eq!(rows.len(), 1);
    assert_eq!(rows[0].name, "# not a header");
    assert!(input.remaining().starts_with("# Dead Stripped Symbols:"));
}

#[test]
fn carriage_returns() {
    let mut input = Input::new("# Path: a\r\n# Arch: b\r\n");
    assert_eq!(target_path(&mut input).unwrap(), "a");
    assert_eq!(arch(&mut input).unwrap(), "b");
    assert_eq!(input.remaining(), "\r\n");
    let mut input = Input::new("# Path: a\rb\n");
    assert_eq!(
        target_path(&mut input).unwrap_err(),
        ParseError { expected: MapFileHeaders::Path, position: 0 }
    );
}

#[test]
fn a_block_may_follow_one_blank_line() {
    let mut input = Input::new("\n# Path: a");
    assert_eq!(target_path(&mut input).unwrap(), "a");
    let mut input = Input::new("\n\n# Path: a");
    assert!(target_path(&mut input).is_err());
}

#[test]
fn object_index_must_fit_an_i32() {
    let mut input = Input::new("[2147483647] a.o");
    assert_eq!(object_file(&mut input).unwrap().index, i32::MAX);
    let mut input = Input::new("[2147483648] a.o");
    assert!(object_file(&mut input).is_none());
    assert_eq!(input.pos, 0);
    let mut input = Input::new(" [ 1] a.o");
    assert!(object_file(&mut input).is_none());
}

#[test]
fn header_literals() {
    assert_eq!(MapFileHeaders::Path.as_str(), "# Path:");
    assert_eq!(MapFileHeaders::Architecture.as_str(), "# Arch:");
    assert_eq!(MapFileHeaders::ObjectFiles.as_str(), "# Object files:");
    assert_eq!(MapFileHeaders::Sections.as_str(), "# Sections:");
    assert_eq!(MapFileHeaders::Symbols.as_str(), "# Symbols:");
}
