//! Mission-level vocabulary shared by planning and orchestration:
//! priorities, risk levels, isolation modes, severities and output formats.

use vstd::prelude::*;

verus! {

/// Priority of a user story (p1 = MVP).
#[derive(Clone, Copy, Debug, PartialEq, Eq, Structural)]
pub enum Priority {
    P1,
    P2,
    P3,
    P4,
}

pub open spec fn priority_text(p: Priority) -> Seq<char> {
    match p {
        Priority::P1 => "P1"@,
        Priority::P2 => "P2"@,
        Priority::P3 => "P3"@,
        Priority::P4 => "P4"@,
    }
}

impl Priority {
    /// Display text of the priority.
    pub fn as_str(&self) -> (s: &'static str)
        ensures
            s@ == priority_text(*self),
    {
        match self {
            Priority::P1 => "P1",
            Priority::P2 => "P2",
            Priority::P3 => "P3",
            Priority::P4 => "P4",
        }
    }
}

/// Risk level of a plan or of one of its risk factors.
#[derive(Clone, Copy, Debug, PartialEq, Eq, Structural)]
pub enum RiskLevel {
    Low,
    Medium,
    High,
}

pub open spec fn risk_text(r: RiskLevel) -> Seq<char> {
    match r {
        RiskLevel::Low => "low"@,
        RiskLevel::Medium => "medium"@,
        RiskLevel::High => "high"@,
    }
}

impl RiskLevel {
    /// Display text of the risk level.
    pub fn as_str(&self) -> (s: &'static str)
        ensures
            s@ == risk_text(*self),
    {
        match self {
            RiskLevel::Low => "low",
            RiskLevel::Medium => "medium",
            RiskLevel::High => "high",
        }
    }
}

/// How a mission is isolated from the main working tree.
#[derive(Clone, Copy, Debug, PartialEq, Eq, Structural)]
pub enum IsolationMode {
    Auto,
    Branch,
    Worktree,
}

pub open spec fn escalated(m: IsolationMode) -> IsolationMode {
    match m {
        IsolationMode::Auto => IsolationMode::Branch,
        IsolationMode::Branch => IsolationMode::Worktree,
        IsolationMode::Worktree => IsolationMode::Worktree,
    }
}

impl IsolationMode {
    /// One step stronger isolation (worktree is the strongest).
    pub fn escalate(&self) -> (m: IsolationMode)
        ensures
            m == escalated(*self),
    {
        match self {
            IsolationMode::Auto => IsolationMode::Branch,
            IsolationMode::Branch => IsolationMode::Worktree,
            IsolationMode::Worktree => IsolationMode::Worktree,
        }
    }
}

/// Severity of a validation issue.
#[derive(Clone, Copy, Debug, PartialEq, Eq, Structural)]
pub enum IssueSeverity {
    Critical,
    Error,
    Warning,
    Info,
}

/// How results are written: human-readable text, one JSON object, or
/// newline-delimited JSON.
#[derive(Clone, Copy, Debug, PartialEq, Eq, Structural)]
pub enum OutputFormat {
    Text,
    Json,
    Stream,
}

} // verus!

verus! {

/// Strength of an isolation mode: automatic, then branch, then worktree.
pub open spec fn isolation_rank(m: IsolationMode) -> int {
    match m {
        IsolationMode::Auto => 0,
        IsolationMode::Branch => 1,
        IsolationMode::Worktree => 2,
    }
}

/// Escalating never weakens isolation, strengthens every mode but the
/// worktree, and leaves the worktree as it is.
pub proof fn lemma_escalate_monotone(m: IsolationMode)
    ensures
        isolation_rank(escalated(m)) >= isolation_rank(m),
        m != IsolationMode::Worktree ==> isolation_rank(escalated(m)) == isolation_rank(m) + 1,
        escalated(IsolationMode::Worktree) == IsolationMode::Worktree,
{
}

} // verus!
