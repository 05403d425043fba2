//! A lightweight block-structured markup language.
//!
//! A document is a sequence of text lines and blocks.  A block is written
//! `@name args [params] {` ... `}` and may hold blocks in turn; lines that
//! start with `#key: value` at the top of the document or of a block are
//! attributes; lines that start with `!` are comments; a pair of `$` lines
//! fences a section in which no block is recognised.
//!
//! [`parse_document`] turns source text into a [`Document`] and a list of
//! [`Diagnostic`]s in a single forward pass.  It never fails: malformed input
//! raises diagnostics and the parse goes on.  [`render_markdown`] and
//! [`render_html`] turn a document into text.
//!
//! What each function yields is stated over character sequences:
//! - [`model`] says what a source text parses to;
//! - [`backend`] says what a document renders to;
//! - [`laws`], [`wellformed`] and [`indent`] state and prove what holds of
//!   every parse.

pub mod ast;
pub mod backend;
pub mod header;
pub mod indent;
pub mod laws;
pub mod lines;
pub mod model;
pub mod options;
pub mod outline;
pub mod parser;
pub mod scan;
pub mod text;
pub mod wellformed;

pub use crate::ast::{
    Attribute, Block, Diagnostic, Document, Node, Position, Severity, Span, Text, TextLine,
};
pub use crate::backend::{
    escape_html_into, push_indent, render_html, render_markdown, sanitize_html_ident,
    trim_trailing_newlines,
};
pub use crate::lines::indentation_fits;
pub use crate::options::ParseOptions;
pub use crate::outline::{collect_part_symbols, PartSymbol};
pub use crate::parser::{
    checked_parse_document, parse_document, parse_document_with_options, ParseResult,
};
