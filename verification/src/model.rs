//! The document that a map file describes: its target path, architecture,
//! object files, sections and symbols, each kept as the text that the file
//! holds. Every type has a view that holds the same fields as sequences of
//! characters; contracts speak of the views.

use vstd::prelude::*;

verus! {

/// One row of the symbol table.
#[derive(Debug, PartialEq, Eq)]
pub struct Symbol {
    pub address: String,
    pub size: String,
    pub file_index: String,
    pub name: String,
}

/// One row of the section table.
#[derive(Debug, PartialEq, Eq)]
pub struct Section {
    pub address: String,
    pub size: String,
    pub segment: String,
    pub section: String,
}

/// One row of the object-file table.
#[derive(Debug, PartialEq, Eq)]
pub struct ObjectFile {
    pub index: i32,
    pub path: String,
}

/// A whole map file. The rows of each table stand in the order of the source.
#[derive(Debug, PartialEq, Eq)]
pub struct MapFile {
    pub arch: String,
    pub object_files: Vec<ObjectFile>,
    pub target_path: String,
    pub symbols: Vec<Symbol>,
    pub sections: Vec<Section>,
}

/// A symbol row as sequences of characters.
pub struct SymbolView {
    pub address: Seq<char>,
    pub size: Seq<char>,
    pub file_index: Seq<char>,
    pub name: Seq<char>,
}

/// A section row as sequences of characters.
pub struct SectionView {
    pub address: Seq<char>,
    pub size: Seq<char>,
    pub segment: Seq<char>,
    pub section: Seq<char>,
}

/// An object-file row, its path as a sequence of characters.
pub struct ObjectFileView {
    pub index: i32,
    pub path: Seq<char>,
}

/// A document as sequences.
pub struct MapFileView {
    pub arch: Seq<char>,
    pub object_files: Seq<ObjectFileView>,
    pub target_path: Seq<char>,
    pub symbols: Seq<SymbolView>,
    pub sections: Seq<SectionView>,
}

impl View for Symbol {
    type V = SymbolView;

    open spec fn view(&self) -> SymbolView {
        SymbolView {
            address: self.address@,
            size: self.size@,
            file_index: self.file_index@,
            name: self.name@,
        }
    }
}

impl View for Section {
    type V = SectionView;

    open spec fn view(&self) -> SectionView {
        SectionView {
            address: self.address@,
            size: self.size@,
            segment: self.segment@,
            section: self.section@,
        }
    }
}

impl View for ObjectFile {
    type V = ObjectFileView;

    open spec fn view(&self) -> ObjectFileView {
        ObjectFileView { index: self.index, path: self.path@ }
    }
}

/// The views of a sequence of symbols.
pub open spec fn symbol_views(v: Seq<Symbol>) -> Seq<SymbolView> {
    v.map_values(|x: Symbol| x@)
}

/// The views of a sequence of sections.
pub open spec fn section_views(v: Seq<Section>) -> Seq<SectionView> {
    v.map_values(|x: Section| x@)
}

/// The views of a sequence of object files.
pub open spec fn object_file_views(v: Seq<ObjectFile>) -> Seq<ObjectFileView> {
    v.map_values(|x: ObjectFile| x@)
}

impl View for MapFile {
    type V = MapFileView;

    open spec fn view(&self) -> MapFileView {
        MapFileView {
            arch: self.arch@,
            object_files: object_file_views(self.object_files@),
            target_path: self.target_path@,
            symbols: symbol_views(self.symbols@),
            sections: section_views(self.sections@),
        }
    }
}

/// The headers that introduce the blocks of a map file.
#[derive(Debug, Clone, Copy, PartialEq, Eq, Structural)]
pub enum MapFileHeaders {
    Path,
    Architecture,
    ObjectFiles,
    Symbols,
    Sections,
}

impl MapFileHeaders {
    /// The literal that introduces the block.
    pub open spec fn text(self) -> Seq<char> {
        match self {
            MapFileHeaders::Path => "# Path:"@,
            MapFileHeaders::Architecture => "# Arch:"@,
            MapFileHeaders::ObjectFiles => "# Object files:"@,
            MapFileHeaders::Sections => "# Sections:"@,
            MapFileHeaders::Symbols => "# Symbols:"@,
        }
    }

    /// The literal that introduces the block.
    pub fn as_str(&self) -> (s: &'static str)
        ensures
            s@ == self.text(),
    {
        match self {
            MapFileHeaders::Path => "# Path:",
            MapFileHeaders::Architecture => "# Arch:",
            MapFileHeaders::ObjectFiles => "# Object files:",
            MapFileHeaders::Sections => "# Sections:",
            MapFileHeaders::Symbols => "# Symbols:",
        }
    }
}

/// Why a text is no map file: the introduction of a block was not found
/// where the block had to start.
#[derive(Debug, Clone, Copy, PartialEq, Eq, Structural)]
pub struct ParseError {
    /// The block that was expected.
    pub expected: MapFileHeaders,
    /// The position in the text, in characters, at which it was expected.
    pub position: usize,
}

} // verus!
