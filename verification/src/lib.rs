//! A verified parser for plain-text note files.
//!
//! Two dialects are supported: an outline dialect with `*` headings and
//! `[[target][name]]` links, and a lightweight dialect with `#` headings and
//! `[name](target)` links. A file is read line by line; each line is
//! classified as a link, a heading or a metadata directive, and the classified
//! lines are folded into a document: file-level metadata plus a tree of
//! headings, each owning the links that appear under it.

pub mod classify;
pub mod config;
pub mod files;
pub mod grammar;
pub mod laws;
pub mod model;
pub mod parse;
