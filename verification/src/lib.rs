//! Turns a directory tree into one deterministic, text-safe Markdown
//! document.
//!
//! The crate holds the decisions of such a run, each with its contract; the
//! caller walks the tree, reads the files and writes the document.
//!
//! - [`discovery`] picks the candidates from the entries of a walk, by
//!   fixed rules and the configured exclusion lists, and [`order`] puts
//!   them in order.
//! - [`budget`] keeps the running total of included bytes and turns away
//!   what the total budget has no room for.
//! - [`processing`] classifies the bytes of one file: over the limit,
//!   binary, or text, decoded by [`decoding`] and, where asked for, stripped
//!   of comments by [`comments`].
//! - [`output`] takes the results in, keeps the statistics, and renders the
//!   document around the bodies of the included files.
//!
//! [`args`] and [`config`] hold the options and the configuration that the
//! rest reads; [`paths`], [`text`], [`ranking`], [`matcher`] and
//! [`timestamp`] serve the others.

pub mod args;
pub mod budget;
pub mod comments;
pub mod config;
pub mod decoding;
pub mod discovery;
pub mod matcher;
pub mod order;
pub mod output;
pub mod paths;
pub mod processing;
pub mod ranking;
pub mod text;
pub mod timestamp;

pub use paths::clean_path;
