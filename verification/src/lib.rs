//! Linker map files: a strict parser for the line-oriented report that a
//! linker writes, and the attribution of symbol sizes to objects and to
//! memory-region categories.
//!
//! The pipeline runs one way: text, document, section ranges, metrics.
//!
//! - `lexer`, `grammar`, `parser`: the text of a map file and the document
//!   that it describes (`model`).
//! - `numbers`: hexadecimal and decimal numbers written as text.
//! - `sections`: the sorted table of section ranges, the lookup of an
//!   address, and the category of a section.
//! - `metrics`, `conservation`: sizes per object, per symbol and in total,
//!   and what holds of them for every document.
//! - `export`, `order`, `sorting`: the symbols of an export, filtered and
//!   sorted; the stable sort that the library uses throughout.
//! - `cli`: the command line as plain values.
//! - `keys`, `listing`, `object_list`, `symbol_list`, `display`: the state
//!   of the terminal browser, what keys do to it, and its texts.
//! - `text`: characters, strings, and comparison without regard to case.

pub mod cli;
pub mod conservation;
pub mod display;
pub mod export;
pub mod grammar;
pub mod keys;
pub mod lexer;
pub mod listing;
pub mod metrics;
pub mod model;
pub mod numbers;
pub mod object_list;
pub mod order;
pub mod parser;
pub mod sections;
pub mod sorting;
pub mod symbol_list;
pub mod text;
