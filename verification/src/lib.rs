//! Renders the outcome of a policy/rule evaluation run as a categorized,
//! column-aligned status report.
//!
//! The library classifies already-computed rule outcomes into PASS, FAIL and
//! SKIP groups, resolves the case where one rule name was recorded both as
//! skipped and as concretely evaluated, and produces the report as an ordered
//! sequence of text lines. Writing those lines to a sink is left to the
//! caller.

pub mod format;
pub mod groups;
pub mod laws;
pub mod report;
pub mod status;
pub mod style;
