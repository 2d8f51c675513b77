//! Finds blocklisted words in a transcribed recording and plans the
//! intervals to mute: chunking, timestamp reconciliation, filtering and
//! interval merging, all on integer microsecond timestamps.
pub mod backends;
pub mod blocklist;
pub mod chunker;
pub mod cli;
pub mod error;
pub mod filter;
pub mod pipeline;
pub mod planner;
pub mod reconcile;
pub mod word;
pub mod workers;
