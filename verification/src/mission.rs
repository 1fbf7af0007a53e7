//! The mission record the planner fills in and the outputs report on:
//! tasks with their status and results, phases, learnings, progress.

use vstd::prelude::*;
use crate::domain::IsolationMode;
use crate::names::clone_strings;

verus! {

broadcast use vstd::string::group_string_axioms;

/// Where a mission stands.
#[derive(Debug, Clone, Copy, PartialEq, Eq, Structural)]
pub enum MissionState {
    Pending,
    Planning,
    Running,
    Verifying,
    Paused,
    Escalated,
    Completed,
    Failed,
    Cancelled,
}

pub open spec fn mission_state_text(s: MissionState) -> Seq<char> {
    match s {
        MissionState::Pending => "pending"@,
        MissionState::Planning => "planning"@,
        MissionState::Running => "running"@,
        MissionState::Verifying => "verifying"@,
        MissionState::Paused => "paused"@,
        MissionState::Escalated => "escalated"@,
        MissionState::Completed => "completed"@,
        MissionState::Failed => "failed"@,
        MissionState::Cancelled => "cancelled"@,
    }
}

impl MissionState {
    /// Display text of the state.
    pub fn as_str(&self) -> (s: &'static str)
        ensures
            s@ == mission_state_text(*self),
    {
        match self {
            MissionState::Pending => "pending",
            MissionState::Planning => "planning",
            MissionState::Running => "running",
            MissionState::Verifying => "verifying",
            MissionState::Paused => "paused",
            MissionState::Escalated => "escalated",
            MissionState::Completed => "completed",
            MissionState::Failed => "failed",
            MissionState::Cancelled => "cancelled",
        }
    }
}

/// Where a task stands.
#[derive(Debug, Clone, Copy, PartialEq, Eq, Structural)]
pub enum TaskStatus {
    Pending,
    InProgress,
    Verifying,
    Completed,
    Failed,
}

pub open spec fn task_status_text(s: TaskStatus) -> Seq<char> {
    match s {
        TaskStatus::Pending => "pending"@,
        TaskStatus::InProgress => "in_progress"@,
        TaskStatus::Verifying => "verifying"@,
        TaskStatus::Completed => "completed"@,
        TaskStatus::Failed => "failed"@,
    }
}

impl TaskStatus {
    /// Display text of the status.
    pub fn as_str(&self) -> (s: &'static str)
        ensures
            s@ == task_status_text(*self),
    {
        match self {
            TaskStatus::Pending => "pending",
            TaskStatus::InProgress => "in_progress",
            TaskStatus::Verifying => "verifying",
            TaskStatus::Completed => "completed",
            TaskStatus::Failed => "failed",
        }
    }
}

pub open spec fn isolation_text(m: IsolationMode) -> Seq<char> {
    match m {
        IsolationMode::Auto => "auto"@,
        IsolationMode::Branch => "branch"@,
        IsolationMode::Worktree => "worktree"@,
    }
}

/// Display text of an isolation mode.
pub fn isolation_str(m: IsolationMode) -> (s: &'static str)
    ensures
        s@ == isolation_text(m),
{
    match m {
        IsolationMode::Auto => "auto",
        IsolationMode::Branch => "branch",
        IsolationMode::Worktree => "worktree",
    }
}

/// Kind of agent a task is handed to.
#[derive(Debug, Clone, Copy, PartialEq, Eq, Structural)]
pub enum AgentType {
    Planning,
    Coder,
}

/// What a finished task changed.
#[derive(Debug, Clone)]
pub struct TaskResult {
    pub files_created: Vec<String>,
    pub files_modified: Vec<String>,
}

/// One task of a mission.
#[derive(Debug)]
pub struct Task {
    pub id: String,
    pub description: String,
    pub phase: Option<String>,
    pub dependencies: Vec<String>,
    pub agent_type: AgentType,
    pub affected_files: Vec<String>,
    pub test_patterns: Vec<String>,
    pub status: TaskStatus,
    pub result: Option<TaskResult>,
}

impl Task {
    /// A pending coder task with no phase, dependencies, files or result.
    pub fn new(id: &str, description: &str) -> (t: Self)
        ensures
            t.id@ == id@,
            t.description@ == description@,
            t.phase is None,
            t.dependencies@.len() == 0,
            t.agent_type == AgentType::Coder,
            t.affected_files@.len() == 0,
            t.test_patterns@.len() == 0,
            t.status == TaskStatus::Pending,
            t.result is None,
    {
        Task {
            id: id.to_string(),
            description: description.to_string(),
            phase: None,
            dependencies: Vec::new(),
            agent_type: AgentType::Coder,
            affected_files: Vec::new(),
            test_patterns: Vec::new(),
            status: TaskStatus::Pending,
            result: None,
        }
    }

    /// The task, placed in phase `phase`.
    pub fn with_phase(self, phase: String) -> (t: Self)
        ensures
            t == (Task { phase: Some(phase), ..self }),
    {
        Task { phase: Some(phase), ..self }
    }

    /// The task, depending on `dependencies`.
    pub fn with_dependencies(self, dependencies: Vec<String>) -> (t: Self)
        ensures
            t == (Task { dependencies, ..self }),
    {
        Task { dependencies, ..self }
    }

    /// The task, handed to an agent of kind `agent_type`.
    pub fn with_agent_type(self, agent_type: AgentType) -> (t: Self)
        ensures
            t == (Task { agent_type, ..self }),
    {
        Task { agent_type, ..self }
    }

    /// The task, expected to touch `files`.
    pub fn with_affected_files(self, files: Vec<String>) -> (t: Self)
        ensures
            t == (Task { affected_files: files, ..self }),
    {
        Task { affected_files: files, ..self }
    }

    /// The task, checked by the tests matching `patterns`.
    pub fn with_test_patterns(self, patterns: Vec<String>) -> (t: Self)
        ensures
            t == (Task { test_patterns: patterns, ..self }),
    {
        Task { test_patterns: patterns, ..self }
    }
}

/// A named group of tasks.
#[derive(Debug)]
pub struct Phase {
    pub name: String,
    pub description: String,
    pub task_ids: Vec<String>,
}

/// Kind of lesson learned during a mission.
#[derive(Debug, Clone, Copy, PartialEq, Eq, Structural)]
pub enum LearningCategory {
    Pattern,
    Gotcha,
    Workaround,
}

pub open spec fn learning_category_text(c: LearningCategory) -> Seq<char> {
    match c {
        LearningCategory::Pattern => "pattern"@,
        LearningCategory::Gotcha => "gotcha"@,
        LearningCategory::Workaround => "workaround"@,
    }
}

impl LearningCategory {
    /// Display text of the category.
    pub fn as_str(&self) -> (s: &'static str)
        ensures
            s@ == learning_category_text(*self),
    {
        match self {
            LearningCategory::Pattern => "pattern",
            LearningCategory::Gotcha => "gotcha",
            LearningCategory::Workaround => "workaround",
        }
    }
}

/// A lesson learned during a mission.
#[derive(Debug)]
pub struct Learning {
    pub category: LearningCategory,
    pub content: String,
}

/// A mission: a described goal, broken into tasks.
#[derive(Debug)]
pub struct Mission {
    pub id: String,
    pub description: String,
    pub status: MissionState,
    pub isolation: IsolationMode,
    pub branch: Option<String>,
    pub tasks: Vec<Task>,
    pub phases: Vec<Phase>,
    pub learnings: Vec<Learning>,
}

/// How far a mission has got.
#[derive(Debug, Clone, Copy, PartialEq, Eq, Structural)]
pub struct Progress {
    pub completed: usize,
    pub total: usize,
    pub percentage: u8,
}

/// Number of completed tasks.
pub open spec fn completed_count(ts: Seq<Task>) -> nat
    decreases ts.len(),
{
    if ts.len() == 0 {
        0
    } else {
        completed_count(ts.drop_last()) + if ts.last().status == TaskStatus::Completed { 1nat } else { 0nat }
    }
}

proof fn lemma_completed_bound(ts: Seq<Task>)
    ensures
        completed_count(ts) <= ts.len(),
    decreases ts.len(),
{
    if ts.len() > 0 {
        lemma_completed_bound(ts.drop_last());
    }
}

/// Completed share of the tasks, in whole percent rounded down; zero for
/// a mission without tasks.
pub open spec fn percent_done(completed: nat, total: nat) -> nat {
    if total == 0 {
        0
    } else {
        (completed * 100) / total
    }
}

/// Progress is a percentage: at most one hundred, one hundred exactly when
/// every task is completed (and there is one).
pub proof fn lemma_percent_done(completed: nat, total: nat)
    requires
        completed <= total,
    ensures
        percent_done(completed, total) <= 100,
        total > 0 ==> (percent_done(completed, total) == 100 <==> completed == total),
{
    if total > 0 {
        assert(completed * 100 / total <= 100) by (nonlinear_arith)
            requires
                completed <= total,
                total > 0,
        ;
        if completed == total {
            assert(completed * 100 / total == 100) by (nonlinear_arith)
                requires
                    completed == total,
                    total > 0,
            ;
        } else {
            assert(completed * 100 / total < 100) by (nonlinear_arith)
                requires
                    completed < total,
                    total > 0,
            ;
        }
    }
}

impl Mission {
    /// Completed tasks, all tasks, and the completed percentage.
    pub fn progress(&self) -> (p: Progress)
        ensures
            p.completed == completed_count(self.tasks@),
            p.total == self.tasks@.len(),
            p.percentage == percent_done(p.completed as nat, p.total as nat),
    {
        let ghost ts = self.tasks@;
        let mut completed: usize = 0;
        let mut i: usize = 0;
        while i < self.tasks.len()
            invariant
                0 <= i <= self.tasks.len(),
                ts == self.tasks@,
                completed == completed_count(ts.subrange(0, i as int)),
                completed <= i,
            decreases self.tasks.len() - i,
        {
            proof {
                assert(ts.subrange(0, i + 1).drop_last() =~= ts.subrange(0, i as int));
            }
            if self.tasks[i].status == TaskStatus::Completed {
                completed = completed + 1;
            }
            i = i + 1;
        }
        proof {
            assert(ts.subrange(0, ts.len() as int) =~= ts);
        }
        let total = self.tasks.len();
        let percentage: u8 = if total == 0 {
            0
        } else {
            let c: u128 = completed as u128 * 100;
            let t: u128 = total as u128;
            let q: u128 = c / t;
            assert(q <= 100) by (nonlinear_arith)
                requires
                    c <= t * 100,
                    t > 0,
                    q == c / t,
            ;
            q as u8
        };
        Progress { completed, total, percentage }
    }
}

} // verus!
