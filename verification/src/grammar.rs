//! The grammar of a map file, as functions of the text and a position.
//!
//! A map file is five blocks in a fixed order: the target path, the
//! architecture, the object files, the sections and the symbols. Each block
//! starts with its header, after one optional line ending. The three tables
//! hold rows up to the first line that is no row of theirs; since no row can
//! start at a header or at the end of the text, a table ends there at the
//! latest.

use vstd::prelude::*;
use crate::lexer::{
    bracketed_digits, has_literal, hex_value_end, identifier_end, lemma_run_end, line_ending_end,
    rest_of_line_end, run_end, skip_line_ending, CharClass,
};
use crate::model::{
    MapFileHeaders, MapFileView, ObjectFileView, ParseError, SectionView, SymbolView,
};
use crate::numbers::spec_parse_i32;

verus! {

/// The position after the header `h` of a block that starts at `i`: the
/// header stands at `i` or after one line ending at `i`.
pub open spec fn header_end(s: Seq<char>, i: int, h: MapFileHeaders) -> Option<int> {
    let j = skip_line_ending(s, i);
    if has_literal(s, j, h.text()) {
        Some(j + h.text().len())
    } else {
        None
    }
}

/// The value of a one-line block (target path, architecture) that starts at
/// `i`: after the header and optional whitespace, the rest of the line. The
/// result is where the value starts and where it ends.
pub open spec fn header_value(s: Seq<char>, i: int, h: MapFileHeaders) -> Option<(int, int)> {
    match header_end(s, i, h) {
        Some(j) => {
            let k = run_end(s, j, CharClass::Space);
            match rest_of_line_end(s, k) {
                Some(e) => Some((k, e)),
                None => None,
            }
        },
        None => None,
    }
}

/// Where the rows of a table that starts at `i` begin: after the header and
/// a line ending and, where the table has a caption, after the caption line
/// and its line ending.
pub open spec fn table_start(s: Seq<char>, i: int, h: MapFileHeaders, caption: bool) -> Option<
    int,
> {
    match header_end(s, i, h) {
        Some(j) => match line_ending_end(s, j) {
            Some(k) => if caption {
                match rest_of_line_end(s, k) {
                    Some(e) => line_ending_end(s, e),
                    None => None,
                }
            } else {
                Some(k)
            },
            None => None,
        },
        None => None,
    }
}

/// An object-file row at `i`: a bracketed index that fits in an `i32`,
/// optional whitespace, and the rest of the line as the path.
pub open spec fn object_file_row(s: Seq<char>, i: int) -> Option<(ObjectFileView, int)> {
    match bracketed_digits(s, i) {
        Some((d0, d1)) => match spec_parse_i32(s.subrange(d0, d1)) {
            Some(index) => {
                let from = run_end(s, d1 + 1, CharClass::Space);
                match rest_of_line_end(s, from) {
                    Some(to) => Some((ObjectFileView { index, path: s.subrange(from, to) }, to)),
                    None => None,
                }
            },
            None => None,
        },
        None => None,
    }
}

/// A section row at `i`: a hex address, a hex size and two identifiers that
/// start with `__`, the segment and the section, each after optional
/// whitespace.
pub open spec fn section_row(s: Seq<char>, i: int) -> Option<(SectionView, int)> {
    let a0 = run_end(s, i, CharClass::Space);
    match hex_value_end(s, a0) {
        Some(a1) => {
            let z0 = run_end(s, a1, CharClass::Space);
            match hex_value_end(s, z0) {
                Some(z1) => {
                    let g0 = run_end(s, z1, CharClass::Space);
                    match identifier_end(s, g0) {
                        Some(g1) => {
                            let c0 = run_end(s, g1, CharClass::Space);
                            match identifier_end(s, c0) {
                                Some(c1) => Some(
                                    (
                                        SectionView {
                                            address: s.subrange(a0, a1),
                                            size: s.subrange(z0, z1),
                                            segment: s.subrange(g0, g1),
                                            section: s.subrange(c0, c1),
                                        },
                                        c1,
                                    ),
                                ),
                                None => None,
                            }
                        },
                        None => None,
                    }
                },
                None => None,
            }
        },
        None => None,
    }
}

/// A symbol row at `i`: a hex address, a hex size, a bracketed file index
/// and the rest of the line as the name, each after optional whitespace.
pub open spec fn symbol_row(s: Seq<char>, i: int) -> Option<(SymbolView, int)> {
    let a0 = run_end(s, i, CharClass::Space);
    match hex_value_end(s, a0) {
        Some(a1) => {
            let z0 = run_end(s, a1, CharClass::Space);
            match hex_value_end(s, z0) {
                Some(z1) => {
                    let b0 = run_end(s, z1, CharClass::Space);
                    match bracketed_digits(s, b0) {
                        Some((d0, d1)) => {
                            let n0 = run_end(s, d1 + 1, CharClass::Space);
                            match rest_of_line_end(s, n0) {
                                Some(n1) => Some(
                                    (
                                        SymbolView {
                                            address: s.subrange(a0, a1),
                                            size: s.subrange(z0, z1),
                                            file_index: s.subrange(d0, d1),
                                            name: s.subrange(n0, n1),
                                        },
                                        n1,
                                    ),
                                ),
                                None => None,
                            }
                        },
                        None => None,
                    }
                },
                None => None,
            }
        },
        None => None,
    }
}

/// Where the row that follows a row ending at `e` starts: after one optional
/// line ending.
pub open spec fn next_row(s: Seq<char>, e: int) -> int {
    skip_line_ending(s, e)
}

/// The object-file rows from `i` on, and where they end: rows are taken as
/// long as one stands at the position reached.
pub open spec fn object_file_rows(s: Seq<char>, i: int) -> (Seq<ObjectFileView>, int)
    decreases s.len() - i,
{
    match object_file_row(s, i) {
        Some((row, e)) => if i < next_row(s, e) <= s.len() {
            let (rest, end) = object_file_rows(s, next_row(s, e));
            (seq![row] + rest, end)
        } else {
            (Seq::empty(), i)
        },
        None => (Seq::empty(), i),
    }
}

/// The section rows from `i` on, and where they end.
pub open spec fn section_rows(s: Seq<char>, i: int) -> (Seq<SectionView>, int)
    decreases s.len() - i,
{
    match section_row(s, i) {
        Some((row, e)) => if i < next_row(s, e) <= s.len() {
            let (rest, end) = section_rows(s, next_row(s, e));
            (seq![row] + rest, end)
        } else {
            (Seq::empty(), i)
        },
        None => (Seq::empty(), i),
    }
}

/// The symbol rows from `i` on, and where they end.
pub open spec fn symbol_rows(s: Seq<char>, i: int) -> (Seq<SymbolView>, int)
    decreases s.len() - i,
{
    match symbol_row(s, i) {
        Some((row, e)) => if i < next_row(s, e) <= s.len() {
            let (rest, end) = symbol_rows(s, next_row(s, e));
            (seq![row] + rest, end)
        } else {
            (Seq::empty(), i)
        },
        None => (Seq::empty(), i),
    }
}

/// The error of a block `h` that was expected at `i`.
pub open spec fn mismatch(h: MapFileHeaders, i: int) -> ParseError {
    ParseError { expected: h, position: i as usize }
}

/// The target-path block at `i`: the path and where the block ends.
pub open spec fn target_path_block(s: Seq<char>, i: int) -> Result<(Seq<char>, int), ParseError> {
    match header_value(s, i, MapFileHeaders::Path) {
        Some((k, e)) => Ok((s.subrange(k, e), e)),
        None => Err(mismatch(MapFileHeaders::Path, i)),
    }
}

/// The architecture block at `i`.
pub open spec fn arch_block(s: Seq<char>, i: int) -> Result<(Seq<char>, int), ParseError> {
    match header_value(s, i, MapFileHeaders::Architecture) {
        Some((k, e)) => Ok((s.subrange(k, e), e)),
        None => Err(mismatch(MapFileHeaders::Architecture, i)),
    }
}

/// The object-file block at `i`: the header line, then the rows.
pub open spec fn object_files_block(s: Seq<char>, i: int) -> Result<
    (Seq<ObjectFileView>, int),
    ParseError,
> {
    match table_start(s, i, MapFileHeaders::ObjectFiles, false) {
        Some(k) => Ok(object_file_rows(s, k)),
        None => Err(mismatch(MapFileHeaders::ObjectFiles, i)),
    }
}

/// The section block at `i`: the header line, a caption line, then the rows.
pub open spec fn sections_block(s: Seq<char>, i: int) -> Result<
    (Seq<SectionView>, int),
    ParseError,
> {
    match table_start(s, i, MapFileHeaders::Sections, true) {
        Some(k) => Ok(section_rows(s, k)),
        None => Err(mismatch(MapFileHeaders::Sections, i)),
    }
}

/// The symbol block at `i`: the header line, a caption line, then the rows.
pub open spec fn symbols_block(s: Seq<char>, i: int) -> Result<
    (Seq<SymbolView>, int),
    ParseError,
> {
    match table_start(s, i, MapFileHeaders::Symbols, true) {
        Some(k) => Ok(symbol_rows(s, k)),
        None => Err(mismatch(MapFileHeaders::Symbols, i)),
    }
}

/// The document that the text `s` describes: the five blocks in their order,
/// each starting where the one before ended. The first block that is not
/// found where it is expected gives the error.
pub open spec fn document(s: Seq<char>) -> Result<MapFileView, ParseError> {
    match target_path_block(s, 0) {
        Err(e) => Err(e),
        Ok((target_path, after_path)) => match arch_block(s, after_path) {
            Err(e) => Err(e),
            Ok((arch, after_arch)) => match object_files_block(s, after_arch) {
                Err(e) => Err(e),
                Ok((object_files, after_objects)) => match sections_block(s, after_objects) {
                    Err(e) => Err(e),
                    Ok((sections, after_sections)) => match symbols_block(s, after_sections) {
                        Err(e) => Err(e),
                        Ok((symbols, _)) => Ok(
                            MapFileView { arch, object_files, target_path, symbols, sections },
                        ),
                    },
                },
            },
        },
    }
}

/// Where the object-file row number `n` (from 0) of the rows from `i` on starts.
pub open spec fn object_file_row_start(s: Seq<char>, i: int, n: nat) -> int
    decreases n,
{
    if n == 0 {
        i
    } else {
        match object_file_row(s, i) {
            Some((_, e)) => object_file_row_start(s, next_row(s, e), (n - 1) as nat),
            None => i,
        }
    }
}

/// The object-files of a table stand in the order of the source: entry number
/// `n` is the row that is written at the start of row number `n`, and the
/// next row starts after it.
pub proof fn lemma_object_files_in_source_order(s: Seq<char>, i: int, n: nat)
    requires
        0 <= i <= s.len(),
        n < object_file_rows(s, i).0.len(),
    ensures
        object_file_row(s, object_file_row_start(s, i, n)).is_some(),
        object_file_row(s, object_file_row_start(s, i, n)).unwrap().0 == object_file_rows(s, i).0[n as int],
        object_file_row_start(s, i, n) < object_file_row_start(s, i, n + 1),
    decreases n,
{
    let e = object_file_row(s, i).unwrap().1;
    assert(object_file_row_start(s, i, n + 1) == object_file_row_start(s, next_row(s, e), n));
    if n > 0 {
        lemma_object_files_in_source_order(s, next_row(s, e), (n - 1) as nat);
    }
}

/// Where the section row number `n` (from 0) of the rows from `i` on starts.
pub open spec fn section_row_start(s: Seq<char>, i: int, n: nat) -> int
    decreases n,
{
    if n == 0 {
        i
    } else {
        match section_row(s, i) {
            Some((_, e)) => section_row_start(s, next_row(s, e), (n - 1) as nat),
            None => i,
        }
    }
}

/// The sections of a table stand in the order of the source: entry number
/// `n` is the row that is written at the start of row number `n`, and the
/// next row starts after it.
pub proof fn lemma_sections_in_source_order(s: Seq<char>, i: int, n: nat)
    requires
        0 <= i <= s.len(),
        n < section_rows(s, i).0.len(),
    ensures
        section_row(s, section_row_start(s, i, n)).is_some(),
        section_row(s, section_row_start(s, i, n)).unwrap().0 == section_rows(s, i).0[n as int],
        section_row_start(s, i, n) < section_row_start(s, i, n + 1),
    decreases n,
{
    let e = section_row(s, i).unwrap().1;
    assert(section_row_start(s, i, n + 1) == section_row_start(s, next_row(s, e), n));
    if n > 0 {
        lemma_sections_in_source_order(s, next_row(s, e), (n - 1) as nat);
    }
}

/// Where the symbol row number `n` (from 0) of the rows from `i` on starts.
pub open spec fn symbol_row_start(s: Seq<char>, i: int, n: nat) -> int
    decreases n,
{
    if n == 0 {
        i
    } else {
        match symbol_row(s, i) {
            Some((_, e)) => symbol_row_start(s, next_row(s, e), (n - 1) as nat),
            None => i,
        }
    }
}

/// The symbols of a table stand in the order of the source: entry number
/// `n` is the row that is written at the start of row number `n`, and the
/// next row starts after it.
pub proof fn lemma_symbols_in_source_order(s: Seq<char>, i: int, n: nat)
    requires
        0 <= i <= s.len(),
        n < symbol_rows(s, i).0.len(),
    ensures
        symbol_row(s, symbol_row_start(s, i, n)).is_some(),
        symbol_row(s, symbol_row_start(s, i, n)).unwrap().0 == symbol_rows(s, i).0[n as int],
        symbol_row_start(s, i, n) < symbol_row_start(s, i, n + 1),
    decreases n,
{
    let e = symbol_row(s, i).unwrap().1;
    assert(symbol_row_start(s, i, n + 1) == symbol_row_start(s, next_row(s, e), n));
    if n > 0 {
        lemma_symbols_in_source_order(s, next_row(s, e), (n - 1) as nat);
    }
}

/// No row of any table starts at the end of the text or at a `#`, so a
/// table ends at the next header at the latest.
pub proof fn lemma_no_row_at_header(s: Seq<char>, i: int)
    requires
        0 <= i <= s.len(),
        i == s.len() || s[i] == '#',
    ensures
        object_file_row(s, i).is_none(),
        section_row(s, i).is_none(),
        symbol_row(s, i).is_none(),
        object_file_rows(s, i) == (Seq::<ObjectFileView>::empty(), i),
        section_rows(s, i) == (Seq::<SectionView>::empty(), i),
        symbol_rows(s, i) == (Seq::<SymbolView>::empty(), i),
{
    lemma_run_end(s, i, CharClass::Space);
}

} // verus!
