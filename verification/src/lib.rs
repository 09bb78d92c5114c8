//! A personal planning library: the verified core of a daily-log tool.
//!
//! The heart of the crate is the ingestion parser in [`ingest`]: a single-pass
//! state machine that turns a hand-edited markdown day log into a sequence of
//! work-log records, together with the small duration calculation in
//! [`duration`] that derives elapsed minutes from two wall-clock strings.
//! Persistence, menus and table rendering are left to callers; the library
//! hands them plain records.

pub mod classify;
pub mod duration;
pub mod header;
pub mod ingest;
pub mod laws;
pub mod num;
pub mod record;
pub mod text;
