//! Input engine of a chorded keyboard.
//!
//! Key transitions pile up in an event log. Each cycle takes one chord from
//! the head of the log (`lex`), classifies it against an ordered table of
//! rules (`parse`) and expands the classification into a report of HID usage
//! codes (`report`). Where a rule leaves the code open, the layers of the
//! layout give it (`layer`). Log, chord and report are buffers of fixed
//! capacity (`buffers`).

pub mod buffers;
pub mod chars;
pub mod layer;
pub mod lex;
pub mod parse;
pub mod report;
pub mod simulate;
