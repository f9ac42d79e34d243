//! Checks declared dependency versions against the latest published ones,
//! reports the differences and rewrites a manifest with the newer versions.

pub mod engine;
pub mod fetch;
pub mod json;
pub mod lookup;
pub mod manifest;
pub mod options;
pub mod queue;
pub mod registry;
pub mod report;
pub mod runs;
pub mod seqs;
pub mod version;
