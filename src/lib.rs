//! Retention engine for a mail store: selects stale messages by age and
//! read state, moves them to a holding mailbox and later purges them.
pub mod text;
pub mod compact;
pub mod date;
pub mod engine;
