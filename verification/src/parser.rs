//! The map-file parser: one function per block of the grammar, and `parse`,
//! which runs them in the order of the file.
//!
//! Every function takes a cursor. It moves the cursor past what it has
//! recognized, and leaves it where it was when it fails.

use vstd::prelude::*;
use crate::grammar::{
    arch_block, document, header_end, header_value, mismatch, next_row, object_file_row,
    object_file_rows, object_files_block, section_row, section_rows, sections_block, symbol_row,
    symbol_rows, symbols_block, table_start, target_path_block,
};
use crate::lexer::{
    bracketed_index, hex_value, lemma_run_end, line_ending, parse_segment_or_section,
    rest_of_line, run_end, spaces, CharClass, Input,
};
use crate::model::{
    object_file_views, section_views, symbol_views, MapFile, MapFileHeaders, ObjectFile,
    ObjectFileView, ParseError, Section, SectionView, Symbol, SymbolView,
};
use crate::numbers::parse_i32;

verus! {

/// What a fallible step does to the cursor: the text stays, and the cursor
/// moves to `end` or, on failure, stays where it was.
pub open spec fn cursor_moved(before: Input, after: Input, end: Option<int>) -> bool {
    &&& after.wf()
    &&& after.text() == before.text()
    &&& after.pos == match end {
        Some(e) => e,
        None => before.pos as int,
    }
}

/// Skips the header `h` of a block, after one optional line ending.
fn header(input: &mut Input, h: MapFileHeaders) -> (found: bool)
    requires
        old(input).wf(),
    ensures
        cursor_moved(*old(input), *final(input), header_end(old(input).text(), old(input).pos as int, h)),
        found == header_end(old(input).text(), old(input).pos as int, h).is_some(),
{
    let start = input.pos;
    line_ending(input);
    if input.literal(h.as_str()) {
        true
    } else {
        input.pos = start;
        false
    }
}

/// A one-line block: the header `h`, optional whitespace, and the rest of the
/// line as the value.
fn header_line(input: &mut Input, h: MapFileHeaders) -> (r: Result<String, ParseError>)
    requires
        old(input).wf(),
    ensures
        final(input).wf(),
        final(input).text() == old(input).text(),
        match header_value(old(input).text(), old(input).pos as int, h) {
            Some((k, e)) => {
                &&& r.is_ok()
                &&& final(input).pos == e
                &&& r.unwrap()@ == old(input).text().subrange(k, e)
            },
            None => r == Err::<String, ParseError>(mismatch(h, old(input).pos as int))
                && final(input).pos == old(input).pos,
        },
{
    let start = input.pos;
    if !header(input, h) {
        return Err(ParseError { expected: h, position: start });
    }
    spaces(input);
    match rest_of_line(input) {
        Some(value) => Ok(value),
        None => {
            input.pos = start;
            Err(ParseError { expected: h, position: start })
        },
    }
}

/// The introduction of a table: the header `h` and a line ending and, where
/// the table has a caption, the caption line and its line ending.
fn table_header(input: &mut Input, h: MapFileHeaders, caption: bool) -> (r: Result<
    (),
    ParseError,
>)
    requires
        old(input).wf(),
    ensures
        cursor_moved(
            *old(input),
            *final(input),
            table_start(old(input).text(), old(input).pos as int, h, caption),
        ),
        match table_start(old(input).text(), old(input).pos as int, h, caption) {
            Some(_) => r.is_ok(),
            None => r == Err::<(), ParseError>(mismatch(h, old(input).pos as int)),
        },
{
    let start = input.pos;
    let mut ok = header(input, h);
    if ok {
        ok = line_ending(input);
    }
    if ok && caption {
        ok = rest_of_line(input).is_some();
        if ok {
            ok = line_ending(input);
        }
    }
    if ok {
        Ok(())
    } else {
        input.pos = start;
        Err(ParseError { expected: h, position: start })
    }
}

/// Parses the target-path block, such as `# Path: /target/debug/deps/app`.
pub fn target_path(input: &mut Input) -> (r: Result<String, ParseError>)
    requires
        old(input).wf(),
    ensures
        final(input).wf(),
        final(input).text() == old(input).text(),
        match target_path_block(old(input).text(), old(input).pos as int) {
            Ok((path, end)) => r.is_ok() && r.unwrap()@ == path && final(input).pos == end,
            Err(e) => r == Err::<String, ParseError>(e) && final(input).pos == old(input).pos,
        },
{
    header_line(input, MapFileHeaders::Path)
}

/// Parses the architecture block, such as `# Arch: arm64`.
pub fn arch(input: &mut Input) -> (r: Result<String, ParseError>)
    requires
        old(input).wf(),
    ensures
        final(input).wf(),
        final(input).text() == old(input).text(),
        match arch_block(old(input).text(), old(input).pos as int) {
            Ok((name, end)) => r.is_ok() && r.unwrap()@ == name && final(input).pos == end,
            Err(e) => r == Err::<String, ParseError>(e) && final(input).pos == old(input).pos,
        },
{
    header_line(input, MapFileHeaders::Architecture)
}

/// Parses one object-file row, such as `[ 66] /path/libunwind.tbd`.
pub fn object_file(input: &mut Input) -> (r: Option<ObjectFile>)
    requires
        old(input).wf(),
    ensures
        final(input).wf(),
        final(input).text() == old(input).text(),
        match object_file_row(old(input).text(), old(input).pos as int) {
            Some((row, end)) => r.is_some() && r.unwrap()@ == row && final(input).pos == end,
            None => r.is_none() && final(input).pos == old(input).pos,
        },
{
    let start = input.pos;
    let digits = match bracketed_index(input) {
        Some(d) => d,
        None => {
            return None;
        },
    };
    let index = match parse_i32(digits.as_str()) {
        Some(v) => v,
        None => {
            input.pos = start;
            return None;
        },
    };
    spaces(input);
    match rest_of_line(input) {
        Some(path) => Some(ObjectFile { index, path }),
        None => {
            input.pos = start;
            None
        },
    }
}

/// Parses one section row, such as `0x100000000 0x00001000 __TEXT __text`.
pub fn section(input: &mut Input) -> (r: Option<Section>)
    requires
        old(input).wf(),
    ensures
        final(input).wf(),
        final(input).text() == old(input).text(),
        match section_row(old(input).text(), old(input).pos as int) {
            Some((row, end)) => r.is_some() && r.unwrap()@ == row && final(input).pos == end,
            None => r.is_none() && final(input).pos == old(input).pos,
        },
{
    let start = input.pos;
    spaces(input);
    let address = match hex_value(input) {
        Some(t) => t,
        None => {
            input.pos = start;
            return None;
        },
    };
    spaces(input);
    let size = match hex_value(input) {
        Some(t) => t,
        None => {
            input.pos = start;
            return None;
        },
    };
    spaces(input);
    let segment = match parse_segment_or_section(input) {
        Some(t) => t,
        None => {
            input.pos = start;
            return None;
        },
    };
    spaces(input);
    match parse_segment_or_section(input) {
        Some(name) => Some(Section { address, size, segment, section: name }),
        None => {
            input.pos = start;
            None
        },
    }
}

/// Parses one symbol row, such as `0x100000000 0x00000018 [  1] _main`.
pub fn symbol(input: &mut Input) -> (r: Option<Symbol>)
    requires
        old(input).wf(),
    ensures
        final(input).wf(),
        final(input).text() == old(input).text(),
        match symbol_row(old(input).text(), old(input).pos as int) {
            Some((row, end)) => r.is_some() && r.unwrap()@ == row && final(input).pos == end,
            None => r.is_none() && final(input).pos == old(input).pos,
        },
{
    let start = input.pos;
    spaces(input);
    let address = match hex_value(input) {
        Some(t) => t,
        None => {
            input.pos = start;
            return None;
        },
    };
    spaces(input);
    let size = match hex_value(input) {
        Some(t) => t,
        None => {
            input.pos = start;
            return None;
        },
    };
    spaces(input);
    let file_index = match bracketed_index(input) {
        Some(t) => t,
        None => {
            input.pos = start;
            return None;
        },
    };
    spaces(input);
    match rest_of_line(input) {
        Some(name) => Some(Symbol { address, size, file_index, name }),
        None => {
            input.pos = start;
            None
        },
    }
}

/// A row of any of the three tables takes at least one character, and the
/// row after it starts within the text.
pub proof fn lemma_rows_advance(s: Seq<char>, i: int)
    requires
        0 <= i <= s.len(),
    ensures
        object_file_row(s, i).is_some() ==> i < object_file_row(s, i).unwrap().1 <= next_row(
            s,
            object_file_row(s, i).unwrap().1,
        ) <= s.len(),
        section_row(s, i).is_some() ==> i < section_row(s, i).unwrap().1 <= next_row(
            s,
            section_row(s, i).unwrap().1,
        ) <= s.len(),
        symbol_row(s, i).is_some() ==> i < symbol_row(s, i).unwrap().1 <= next_row(
            s,
            symbol_row(s, i).unwrap().1,
        ) <= s.len(),
{
    lemma_run_end(s, i, CharClass::Space);
    lemma_run_end(s, i + 1, CharClass::Space);
    let a0 = run_end(s, i, CharClass::Space);
    if a0 + 2 <= s.len() {
        lemma_run_end(s, a0 + 2, CharClass::HexDigit);
        let a1 = run_end(s, a0 + 2, CharClass::HexDigit);
        lemma_run_end(s, a1, CharClass::Space);
        let z0 = run_end(s, a1, CharClass::Space);
        if z0 + 2 <= s.len() {
            lemma_run_end(s, z0 + 2, CharClass::HexDigit);
            let z1 = run_end(s, z0 + 2, CharClass::HexDigit);
            lemma_run_end(s, z1, CharClass::Space);
            let g0 = run_end(s, z1, CharClass::Space);
            if g0 + 2 <= s.len() {
                lemma_run_end(s, g0 + 2, CharClass::Word);
                let g1 = run_end(s, g0 + 2, CharClass::Word);
                lemma_run_end(s, g1, CharClass::Space);
                let c0 = run_end(s, g1, CharClass::Space);
                if c0 + 2 <= s.len() {
                    lemma_run_end(s, c0 + 2, CharClass::Word);
                }
            }
            if g0 + 1 <= s.len() {
                lemma_line_end(s, g0 + 1);
            }
        }
    }
    if i + 1 <= s.len() {
        lemma_line_end(s, i + 1);
    }
}

/// What follows a bracketed index whose opening bracket stands before `j`:
/// the digits, the closing bracket and the rest of the line all end within
/// the text.
proof fn lemma_line_end(s: Seq<char>, j: int)
    requires
        0 <= j <= s.len(),
    ensures
        ({
            let d0 = run_end(s, j, CharClass::Space);
            let d1 = run_end(s, d0, CharClass::Digit);
            let from = run_end(s, d1 + 1, CharClass::Space);
            let to = run_end(s, from, CharClass::Inline);
            j <= d0 <= d1 <= s.len() && (d1 < s.len() ==> d1 + 1 <= from <= to <= s.len())
        }),
{
    lemma_run_end(s, j, CharClass::Space);
    let d0 = run_end(s, j, CharClass::Space);
    lemma_run_end(s, d0, CharClass::Digit);
    let d1 = run_end(s, d0, CharClass::Digit);
    if d1 < s.len() {
        lemma_run_end(s, d1 + 1, CharClass::Space);
        let from = run_end(s, d1 + 1, CharClass::Space);
        lemma_run_end(s, from, CharClass::Inline);
    }
}

/// Parses object-file rows up to the first line that is none.
fn object_file_list(input: &mut Input) -> (rows: Vec<ObjectFile>)
    requires
        old(input).wf(),
    ensures
        final(input).wf(),
        final(input).text() == old(input).text(),
        object_file_views(rows@) == object_file_rows(old(input).text(), old(input).pos as int).0,
        final(input).pos == object_file_rows(old(input).text(), old(input).pos as int).1,
{
    let ghost s = input.text();
    let ghost start = input.pos as int;
    let mut rows: Vec<ObjectFile> = Vec::new();
    let mut done = false;
    assert(object_file_views(rows@) =~= Seq::<ObjectFileView>::empty());
    assert(Seq::<ObjectFileView>::empty() + object_file_rows(s, start).0 =~= object_file_rows(
        s,
        start,
    ).0);
    while !done
        invariant
            input.wf(),
            input.text() == s,
            object_file_rows(s, start).0 == object_file_views(rows@) + object_file_rows(
                s,
                input.pos as int,
            ).0,
            object_file_rows(s, start).1 == object_file_rows(s, input.pos as int).1,
            done ==> object_file_rows(s, input.pos as int) == (
                Seq::<ObjectFileView>::empty(),
                input.pos as int,
            ),
        decreases s.len() - input.pos + (if done { 0int } else { 1int }),
    {
        let ghost here = input.pos as int;
        let ghost before = rows@;
        proof {
            lemma_rows_advance(s, here);
        }
        match object_file(input) {
            Some(row) => {
                line_ending(input);
                let ghost tail = object_file_rows(s, input.pos as int).0;
                proof {
                    assert(object_file_rows(s, here).0 == seq![row@] + tail);
                }
                rows.push(row);
                proof {
                    assert(object_file_views(rows@) =~= object_file_views(before) + seq![row@]);
                    assert(object_file_views(rows@) + tail =~= object_file_views(before) + (
                    seq![row@] + tail));
                }
            },
            None => {
                done = true;
            },
        }
    }
    assert(object_file_views(rows@) + Seq::<ObjectFileView>::empty() =~= object_file_views(
        rows@,
    ));
    rows
}

/// Parses section rows up to the first line that is none.
pub fn sections(input: &mut Input) -> (rows: Vec<Section>)
    requires
        old(input).wf(),
    ensures
        final(input).wf(),
        final(input).text() == old(input).text(),
        section_views(rows@) == section_rows(old(input).text(), old(input).pos as int).0,
        final(input).pos == section_rows(old(input).text(), old(input).pos as int).1,
{
    let ghost s = input.text();
    let ghost start = input.pos as int;
    let mut rows: Vec<Section> = Vec::new();
    let mut done = false;
    assert(section_views(rows@) =~= Seq::<SectionView>::empty());
    assert(Seq::<SectionView>::empty() + section_rows(s, start).0 =~= section_rows(s, start).0);
    while !done
        invariant
            input.wf(),
            input.text() == s,
            section_rows(s, start).0 == section_views(rows@) + section_rows(
                s,
                input.pos as int,
            ).0,
            section_rows(s, start).1 == section_rows(s, input.pos as int).1,
            done ==> section_rows(s, input.pos as int) == (
                Seq::<SectionView>::empty(),
                input.pos as int,
            ),
        decreases s.len() - input.pos + (if done { 0int } else { 1int }),
    {
        let ghost here = input.pos as int;
        let ghost before = rows@;
        proof {
            lemma_rows_advance(s, here);
        }
        match section(input) {
            Some(row) => {
                line_ending(input);
                let ghost tail = section_rows(s, input.pos as int).0;
                proof {
                    assert(section_rows(s, here).0 == seq![row@] + tail);
                }
                rows.push(row);
                proof {
                    assert(section_views(rows@) =~= section_views(before) + seq![row@]);
                    assert(section_views(rows@) + tail =~= section_views(before) + (seq![row@]
                        + tail));
                }
            },
            None => {
                done = true;
            },
        }
    }
    assert(section_views(rows@) + Seq::<SectionView>::empty() =~= section_views(rows@));
    rows
}

/// Parses symbol rows up to the first line that is none.
pub fn symbols(input: &mut Input) -> (rows: Vec<Symbol>)
    requires
        old(input).wf(),
    ensures
        final(input).wf(),
        final(input).text() == old(input).text(),
        symbol_views(rows@) == symbol_rows(old(input).text(), old(input).pos as int).0,
        final(input).pos == symbol_rows(old(input).text(), old(input).pos as int).1,
{
    let ghost s = input.text();
    let ghost start = input.pos as int;
    let mut rows: Vec<Symbol> = Vec::new();
    let mut done = false;
    assert(symbol_views(rows@) =~= Seq::<SymbolView>::empty());
    assert(Seq::<SymbolView>::empty() + symbol_rows(s, start).0 =~= symbol_rows(s, start).0);
    while !done
        invariant
            input.wf(),
            input.text() == s,
            symbol_rows(s, start).0 == symbol_views(rows@) + symbol_rows(s, input.pos as int).0,
            symbol_rows(s, start).1 == symbol_rows(s, input.pos as int).1,
            done ==> symbol_rows(s, input.pos as int) == (
                Seq::<SymbolView>::empty(),
                input.pos as int,
            ),
        decreases s.len() - input.pos + (if done { 0int } else { 1int }),
    {
        let ghost here = input.pos as int;
        let ghost before = rows@;
        proof {
            lemma_rows_advance(s, here);
        }
        match symbol(input) {
            Some(row) => {
                line_ending(input);
                let ghost tail = symbol_rows(s, input.pos as int).0;
                proof {
                    assert(symbol_rows(s, here).0 == seq![row@] + tail);
                }
                rows.push(row);
                proof {
                    assert(symbol_views(rows@) =~= symbol_views(before) + seq![row@]);
                    assert(symbol_views(rows@) + tail =~= symbol_views(before) + (seq![row@]
                        + tail));
                }
            },
            None => {
                done = true;
            },
        }
    }
    assert(symbol_views(rows@) + Seq::<SymbolView>::empty() =~= symbol_views(rows@));
    rows
}

/// Parses the object-file block: the line `# Object files:`, then the rows.
pub fn object_files(input: &mut Input) -> (r: Result<Vec<ObjectFile>, ParseError>)
    requires
        old(input).wf(),
    ensures
        final(input).wf(),
        final(input).text() == old(input).text(),
        match object_files_block(old(input).text(), old(input).pos as int) {
            Ok((rows, end)) => r.is_ok() && object_file_views(r.unwrap()@) == rows && final(input).pos == end,
            Err(e) => r == Err::<Vec<ObjectFile>, ParseError>(e) && final(input).pos == old(input).pos,
        },
{
    match table_header(input, MapFileHeaders::ObjectFiles, false) {
        Ok(()) => Ok(object_file_list(input)),
        Err(e) => Err(e),
    }
}

/// Parses the section block: the line `# Sections:`, a caption line, then
/// the rows.
pub fn section_table(input: &mut Input) -> (r: Result<Vec<Section>, ParseError>)
    requires
        old(input).wf(),
    ensures
        final(input).wf(),
        final(input).text() == old(input).text(),
        match sections_block(old(input).text(), old(input).pos as int) {
            Ok((rows, end)) => r.is_ok() && section_views(r.unwrap()@) == rows && final(input).pos == end,
            Err(e) => r == Err::<Vec<Section>, ParseError>(e) && final(input).pos == old(input).pos,
        },
{
    match table_header(input, MapFileHeaders::Sections, true) {
        Ok(()) => Ok(sections(input)),
        Err(e) => Err(e),
    }
}

/// Parses the symbol block: the line `# Symbols:`, a caption line, then the
/// rows.
pub fn symbol_table(input: &mut Input) -> (r: Result<Vec<Symbol>, ParseError>)
    requires
        old(input).wf(),
    ensures
        final(input).wf(),
        final(input).text() == old(input).text(),
        match symbols_block(old(input).text(), old(input).pos as int) {
            Ok((rows, end)) => r.is_ok() && symbol_views(r.unwrap()@) == rows && final(input).pos == end,
            Err(e) => r == Err::<Vec<Symbol>, ParseError>(e) && final(input).pos == old(input).pos,
        },
{
    match table_header(input, MapFileHeaders::Symbols, true) {
        Ok(()) => Ok(symbols(input)),
        Err(e) => Err(e),
    }
}

/// Whether `r` is the outcome of parsing `text`: the document that the text
/// describes, or the error of the first block that is missing.
pub open spec fn parses_to(text: Seq<char>, r: Result<MapFile, ParseError>) -> bool {
    match document(text) {
        Ok(doc) => r.is_ok() && r.unwrap()@ == doc,
        Err(e) => r == Err::<MapFile, ParseError>(e),
    }
}

/// Parsing one text twice gives equal documents, or the same error twice.
pub proof fn lemma_parse_is_deterministic(
    text: Seq<char>,
    first: Result<MapFile, ParseError>,
    second: Result<MapFile, ParseError>,
)
    requires
        parses_to(text, first),
        parses_to(text, second),
    ensures
        first.is_ok() == second.is_ok(),
        first.is_ok() ==> first.unwrap()@ == second.unwrap()@,
        first.is_err() ==> first.unwrap_err() == second.unwrap_err(),
{
}

/// Parses a whole map file: target path, architecture, object files,
/// sections and symbols, in this order. The result is the document that the
/// text describes, or the first block that was not found where it had to
/// start.
pub fn parse(text: &str) -> (r: Result<MapFile, ParseError>)
    ensures
        parses_to(text@, r),
{
    let mut input = Input::new(text);
    let target_path = match target_path(&mut input) {
        Ok(v) => v,
        Err(e) => {
            return Err(e);
        },
    };
    let arch = match arch(&mut input) {
        Ok(v) => v,
        Err(e) => {
            return Err(e);
        },
    };
    let object_files = match object_files(&mut input) {
        Ok(v) => v,
        Err(e) => {
            return Err(e);
        },
    };
    let sections = match section_table(&mut input) {
        Ok(v) => v,
        Err(e) => {
            return Err(e);
        },
    };
    let symbols = match symbol_table(&mut input) {
        Ok(v) => v,
        Err(e) => {
            return Err(e);
        },
    };
    Ok(MapFile { arch, object_files, target_path, symbols, sections })
}

} // verus!
