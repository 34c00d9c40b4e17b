//! Core of a live log-tailing viewer: a bounded history of ingested lines,
//! an ANSI SGR escape-sequence parser, a styled-span builder with three
//! render policies, and the filter-and-dispatch engine that replays the
//! history whenever the regular-expression filter changes.

pub mod buffer;
pub mod engine;
pub mod error;
pub mod filter;
pub mod history;
pub mod parser;
pub mod source;
pub mod string;
