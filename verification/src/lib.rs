//! The verified core of a live signal scope.
//!
//! The scope reads lines of text, finds in them the points of named signals,
//! and shows each signal in a view that can be panned, zoomed and shared.
//! This library holds what the scope decides: how a line is classified, what
//! range the points of a signal span, which signals share a view and what
//! that view frames, which point a pick hits, and what a command of the
//! prompt does. Numbers are carried as keys that keep their order, see
//! [`level`]; arithmetic on them, drawing, and reading the input are left to
//! the program around the library.

pub mod axes;
pub mod classify;
pub mod command_parse;
pub mod decimal;
pub mod drawstyles;
pub mod editor;
pub mod fuzzy;
pub mod ingest;
pub mod level;
pub mod pattern;
pub mod range;
pub mod signal;
pub mod text;
pub mod ui;
pub mod view;
