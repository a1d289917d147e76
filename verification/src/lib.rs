//! A keybinding resolution engine for a modal text editor.
//!
//! The crate stores an ordered table of key bindings (chord sequences of one
//! or two chords, a mode set and an optional "when" guard), resolves incoming
//! key chords to at most one command through a small state machine, evaluates
//! "when" guard expressions against live editor flags, and records replacement
//! bindings in an editor session that commits back into the table.

pub mod chord;
pub mod matcher;
pub mod panel;
pub mod session;
pub mod table;
pub mod when;
