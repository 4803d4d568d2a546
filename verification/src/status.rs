//! Core data model: rule outcome statuses, the category selector, and the
//! shapes the two reporting modes consume.

use vstd::prelude::*;

verus! {

/// Outcome of one rule check.
#[allow(non_camel_case_types)]
#[derive(Clone, Copy, Debug, PartialEq, Eq, Structural)]
pub enum Status {
    PASS,
    FAIL,
    SKIP,
}

/// The category selector: decides which of the PASS, FAIL and SKIP groups
/// appear in a report. Immutable once constructed.
#[derive(Clone, Copy, Debug, PartialEq, Eq, Structural)]
pub struct StatusFlagSet {
    pub pass: bool,
    pub fail: bool,
    pub skip: bool,
}

impl StatusFlagSet {
    /// Which flag of the set answers for the given category.
    pub open spec fn spec_includes(self, c: Status) -> bool {
        match c {
            Status::PASS => self.pass,
            Status::FAIL => self.fail,
            Status::SKIP => self.skip,
        }
    }

    pub fn new(pass: bool, fail: bool, skip: bool) -> (r: StatusFlagSet)
        ensures
            r == (StatusFlagSet { pass, fail, skip }),
    {
        StatusFlagSet { pass, fail, skip }
    }

    /// Pure membership test: is the category part of this selector?
    pub fn includes(&self, c: Status) -> (r: bool)
        ensures
            r == self.spec_includes(c),
    {
        match c {
            Status::PASS => self.pass,
            Status::FAIL => self.fail,
            Status::SKIP => self.skip,
        }
    }
}

/// One rule-check outcome in flat-report mode. A status of `None` means the
/// rule was never evaluated.
pub struct ResultEntry {
    pub name: String,
    pub status: Option<Status>,
}

/// A named rule-check result carried by an evaluation-tree node.
pub struct NamedStatus {
    pub name: String,
    pub status: Status,
}

/// A node of the evaluation trace tree. Only direct children of the root
/// that carry a rule-check result contribute to the summary.
pub struct EvalNode {
    pub check: Option<NamedStatus>,
    pub children: Vec<EvalNode>,
}

} // verus!
