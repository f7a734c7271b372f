//! Verified core of a terminal emulator: a control-sequence parser, a grid of
//! styled cells with scrollback, a cursor with travel rules, terminal modes,
//! damage tracking, key encoding, and a renderer-side snapshot and glyph
//! cache.

pub mod cache;
pub mod cell;
pub mod config;
pub mod control;
pub mod cursor;
pub mod key;
pub mod mode;
pub mod parser;
pub mod style;
pub mod terminal;
pub mod touched;
pub mod text;
