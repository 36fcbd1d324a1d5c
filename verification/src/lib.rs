//! A per-application permission record store.
//!
//! The store keeps one authoritative decision per application identity:
//! an application's requested permissions together with the user's current
//! decision, persisted with insert-or-replace semantics keyed on the
//! identity. Unrecognized persisted decision tags decode to `Block`
//! (fail closed), and a malformed permissions column decodes to an empty
//! list without failing the surrounding read.

pub mod cli;
pub mod db;
pub mod editor;
