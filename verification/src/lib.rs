//! Reading, editing and writing ConfigNode files: text files of nested named
//! blocks and `key = value` assignments.
//!
//! A file is parsed into a [`document::Document`], the blocks of one kind that
//! go by a given name are cut out of it, and the tree is written back with the
//! line ending of the file it came from.
//!
//! - [`grammar`] says what the language is, [`parser`] reads a text into its
//!   raw parse tree ([`pairs`]), and [`tree`] builds the document from it.
//! - [`strip`] cuts blocks out; [`strip_laws`] states what holds of the cut.
//! - [`render`] writes a document as text; [`round_trip`] proves that reading
//!   undoes writing.
//! - [`line_endings`] tells Windows text from Unix text.
//! - [`edit`] puts the steps together for the contents of one file, and
//!   [`report`] lists the lines that an edit changed.
//! - [`cli`], [`action`] and [`backup`] hold the decisions of the command
//!   line program that need no file system.
//! - [`builder`] holds the contracts under which the `string_builder` crate
//!   is used, and [`text`] small tools for strings.

pub mod action;
pub mod backup;
pub mod builder;
pub mod cli;
pub mod document;
pub mod edit;
pub mod grammar;
pub mod line_endings;
pub mod pairs;
pub mod parser;
pub mod render;
pub mod report;
pub mod round_trip;
pub mod strip;
pub mod strip_laws;
pub mod text;
pub mod tree;
