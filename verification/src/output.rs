//! What the command line reports about missions, in text or as JSON
//! records: the text is rendered here; writing it, and serialising the
//! records, is left to the caller.

use vstd::prelude::*;
use crate::domain::OutputFormat;
use crate::mission::{
    completed_count, isolation_str, isolation_text, learning_category_text, mission_state_text, percent_done,
    task_status_text, Learning, Mission, Task, TaskStatus,
};
use crate::names::clone_strings;
use crate::text::{byte_prefix, decimal, push_char, push_decimal, push_str, truncate_at_boundary};

verus! {

broadcast use vstd::string::group_string_axioms;

/// What to write for one report: text to print as it is, or a record to
/// write as one line of JSON.
#[derive(Debug)]
pub enum Emission<T> {
    Text(String),
    Json(T),
}

/// What to write for a list of missions: the text table, one JSON array
/// of records, or one JSON record per line (one line per mission).
#[derive(Debug)]
pub enum ListEmission {
    Text(String),
    Array(Vec<MissionStateOutput>),
    Lines(Vec<MissionStateOutput>),
}

/// Writes reports in the configured format.
pub struct OutputWriter {
    format: OutputFormat,
}

/// Final report of a mission.
#[derive(Debug, Clone)]
pub struct MissionOutput {
    pub success: bool,
    pub mission_id: String,
    pub summary: String,
    pub files_changed: Vec<String>,
    pub learnings: Vec<LearningOutput>,
}

/// A learning, as reported.
#[derive(Debug, Clone)]
pub struct LearningOutput {
    pub category: String,
    pub content: String,
}

/// Status record of a mission.
#[derive(Debug, Clone)]
pub struct MissionStateOutput {
    pub id: String,
    pub description: String,
    pub status: String,
    pub isolation: String,
    pub branch: Option<String>,
    pub progress: ProgressInfo,
    pub tasks: Vec<TaskInfo>,
}

/// Progress, as reported.
#[derive(Debug, Clone, Copy)]
pub struct ProgressInfo {
    pub completed: usize,
    pub total: usize,
    pub percentage: u8,
}

/// A task, as reported.
#[derive(Debug, Clone)]
pub struct TaskInfo {
    pub id: String,
    pub description: String,
    pub status: String,
}

/// A plain message, as a record.
#[derive(Debug, Clone)]
pub struct MessageOutput {
    pub message: String,
}

pub open spec fn strs(v: Seq<String>) -> Seq<Seq<char>> {
    v.map_values(|s: String| s@)
}

/// Files a task's result created, then those it modified; none without a result.
pub open spec fn task_files(t: Task) -> Seq<Seq<char>> {
    match t.result {
        Some(r) => strs(r.files_created@) + strs(r.files_modified@),
        None => Seq::empty(),
    }
}

/// The files changed by the tasks, task by task.
pub open spec fn changed_files(ts: Seq<Task>) -> Seq<Seq<char>>
    decreases ts.len(),
{
    if ts.len() == 0 {
        Seq::empty()
    } else {
        changed_files(ts.drop_last()) + task_files(ts.last())
    }
}

pub open spec fn learning_views(ls: Seq<LearningOutput>) -> Seq<(Seq<char>, Seq<char>)> {
    ls.map_values(|l: LearningOutput| (l.category@, l.content@))
}

pub open spec fn learnings_reported(ls: Seq<Learning>) -> Seq<(Seq<char>, Seq<char>)> {
    ls.map_values(|l: Learning| (learning_category_text(l.category), l.content@))
}

pub open spec fn task_infos(ts: Seq<TaskInfo>) -> Seq<(Seq<char>, Seq<char>, Seq<char>)> {
    ts.map_values(|t: TaskInfo| (t.id@, t.description@, t.status@))
}

pub open spec fn tasks_reported(ts: Seq<Task>) -> Seq<(Seq<char>, Seq<char>, Seq<char>)> {
    ts.map_values(|t: Task| (t.id@, t.description@, task_status_text(t.status)))
}

/// The status record reports the mission exactly.
pub open spec fn reports_state(o: MissionStateOutput, m: Mission) -> bool {
    &&& o.id@ == m.id@
    &&& o.description@ == m.description@
    &&& o.status@ == mission_state_text(m.status)
    &&& o.isolation@ == isolation_text(m.isolation)
    &&& (match (o.branch, m.branch) {
        (Some(a), Some(b)) => a@ == b@,
        (None, None) => true,
        _ => false,
    })
    &&& o.progress.completed == completed_count(m.tasks@)
    &&& o.progress.total == m.tasks@.len()
    &&& o.progress.percentage == percent_done(completed_count(m.tasks@), m.tasks@.len())
    &&& task_infos(o.tasks@) == tasks_reported(m.tasks@)
}

fn files_of(t: &Task, out: &mut Vec<String>)
    ensures
        strs(final(out)@) == strs(old(out)@) + task_files(*t),
{
    match &t.result {
        Some(r) => {
            let ghost base = out@;
            let mut i: usize = 0;
            while i < r.files_created.len()
                invariant
                    0 <= i <= r.files_created.len(),
                    out@ == base + r.files_created@.subrange(0, i as int),
                decreases r.files_created.len() - i,
            {
                out.push(r.files_created[i].clone());
                proof {
                    assert(out@ =~= base + r.files_created@.subrange(0, i + 1));
                }
                i = i + 1;
            }
            let ghost mid = out@;
            let mut j: usize = 0;
            while j < r.files_modified.len()
                invariant
                    0 <= j <= r.files_modified.len(),
                    out@ == mid + r.files_modified@.subrange(0, j as int),
                decreases r.files_modified.len() - j,
            {
                out.push(r.files_modified[j].clone());
                proof {
                    assert(out@ =~= mid + r.files_modified@.subrange(0, j + 1));
                }
                j = j + 1;
            }
            proof {
                assert(r.files_created@.subrange(0, r.files_created.len() as int) =~= r.files_created@);
                assert(r.files_modified@.subrange(0, r.files_modified.len() as int) =~= r.files_modified@);
                assert(out@ =~= base + r.files_created@ + r.files_modified@);
                assert(strs(out@) =~= strs(base) + strs(r.files_created@) + strs(r.files_modified@));
            }
        },
        None => {
            proof {
                assert(strs(old(out)@) + task_files(*t) =~= strs(old(out)@));
            }
        },
    }
}

impl MissionOutput {
    /// The final report of a mission: its id, its description as summary,
    /// the files its tasks created or modified, and its learnings.
    pub fn from_mission(mission: &Mission, success: bool) -> (o: Self)
        ensures
            o.success == success,
            o.mission_id@ == mission.id@,
            o.summary@ == mission.description@,
            strs(o.files_changed@) == changed_files(mission.tasks@),
            learning_views(o.learnings@) == learnings_reported(mission.learnings@),
    {
        let ghost ts = mission.tasks@;
        let mut files: Vec<String> = Vec::new();
        let mut i: usize = 0;
        proof {
            assert(strs(files@) =~= changed_files(ts.subrange(0, 0)));
        }
        while i < mission.tasks.len()
            invariant
                0 <= i <= mission.tasks.len(),
                ts == mission.tasks@,
                strs(files@) == changed_files(ts.subrange(0, i as int)),
            decreases mission.tasks.len() - i,
        {
            proof {
                assert(ts.subrange(0, i + 1).drop_last() =~= ts.subrange(0, i as int));
            }
            files_of(&mission.tasks[i], &mut files);
            i = i + 1;
        }
        proof {
            assert(ts.subrange(0, ts.len() as int) =~= ts);
        }
        let ghost ls = mission.learnings@;
        let mut learnings: Vec<LearningOutput> = Vec::new();
        let mut k: usize = 0;
        while k < mission.learnings.len()
            invariant
                0 <= k <= mission.learnings.len(),
                ls == mission.learnings@,
                learning_views(learnings@) == learnings_reported(ls.subrange(0, k as int)),
            decreases mission.learnings.len() - k,
        {
            let l = &mission.learnings[k];
            let lo = LearningOutput { category: l.category.as_str().to_string(), content: l.content.clone() };
            let ghost before = learning_views(learnings@);
            assert(lo.category@ == learning_category_text(l.category));
            learnings.push(lo);
            proof {
                assert(learning_views(learnings@) =~= before.push((learning_category_text(ls[k as int].category), ls[k as int].content@)));
                assert(learnings_reported(ls.subrange(0, k + 1)) =~= learnings_reported(ls.subrange(0, k as int)).push(
                    (learning_category_text(ls[k as int].category), ls[k as int].content@),
                ));
            }
            k = k + 1;
        }
        proof {
            assert(ls.subrange(0, ls.len() as int) =~= ls);
        }
        MissionOutput {
            success,
            mission_id: mission.id.clone(),
            summary: mission.description.clone(),
            files_changed: files,
            learnings,
        }
    }
}

impl MissionStateOutput {
    /// The status record of a mission.
    pub fn from_mission(mission: &Mission) -> (o: Self)
        ensures
            reports_state(o, *mission),
    {
        let progress = mission.progress();
        let ghost ts = mission.tasks@;
        let mut tasks: Vec<TaskInfo> = Vec::new();
        let mut i: usize = 0;
        while i < mission.tasks.len()
            invariant
                0 <= i <= mission.tasks.len(),
                ts == mission.tasks@,
                task_infos(tasks@) == tasks_reported(ts.subrange(0, i as int)),
            decreases mission.tasks.len() - i,
        {
            let t = &mission.tasks[i];
            let info = TaskInfo { id: t.id.clone(), description: t.description.clone(), status: t.status.as_str().to_string() };
            let ghost before = task_infos(tasks@);
            assert(info.status@ == task_status_text(t.status));
            tasks.push(info);
            proof {
                assert(task_infos(tasks@) =~= before.push((ts[i as int].id@, ts[i as int].description@, task_status_text(ts[i as int].status))));
                assert(tasks_reported(ts.subrange(0, i + 1)) =~= tasks_reported(ts.subrange(0, i as int)).push(
                    (ts[i as int].id@, ts[i as int].description@, task_status_text(ts[i as int].status)),
                ));
            }
            i = i + 1;
        }
        proof {
            assert(ts.subrange(0, ts.len() as int) =~= ts);
        }
        let branch = match &mission.branch {
            Some(b) => Some(b.clone()),
            None => None,
        };
        MissionStateOutput {
            id: mission.id.clone(),
            description: mission.description.clone(),
            status: mission.status.as_str().to_string(),
            isolation: isolation_str(mission.isolation).to_string(),
            branch,
            progress: ProgressInfo {
                completed: progress.completed,
                total: progress.total,
                percentage: progress.percentage,
            },
            tasks,
        }
    }
}

/// `n` spaces.
pub open spec fn spaces(n: nat) -> Seq<char> {
    Seq::new(n, |i: int| ' ')
}

/// `c` repeated `n` times.
pub open spec fn repeated(c: char, n: nat) -> Seq<char> {
    Seq::new(n, |i: int| c)
}

/// `s` left-aligned in a field of `w` characters (`{:<w}`).
pub open spec fn pad_right(s: Seq<char>, w: nat) -> Seq<char> {
    if s.len() >= w {
        s
    } else {
        s + spaces((w - s.len()) as nat)
    }
}

/// `s` right-aligned in a field of `w` characters (`{:>w}`).
pub open spec fn pad_left(s: Seq<char>, w: nat) -> Seq<char> {
    if s.len() >= w {
        s
    } else {
        spaces((w - s.len()) as nat) + s
    }
}

fn push_repeated(out: &mut String, c: char, n: usize)
    ensures
        final(out)@ == old(out)@ + repeated(c, n as nat),
{
    let ghost base = out@;
    let mut i: usize = 0;
    while i < n
        invariant
            0 <= i <= n,
            out@ == base + repeated(c, i as nat),
        decreases n - i,
    {
        push_char(out, c);
        proof {
            assert(out@ =~= base + repeated(c, (i + 1) as nat));
        }
        i = i + 1;
    }
}

fn push_pad_right(out: &mut String, s: &str, w: usize)
    ensures
        final(out)@ == old(out)@ + pad_right(s@, w as nat),
{
    let n = s.unicode_len();
    push_str(out, s);
    if n < w {
        push_repeated(out, ' ', w - n);
        proof {
            assert(repeated(' ', (w - n) as nat) =~= spaces((w - n) as nat));
        }
    }
}

fn push_pad_left(out: &mut String, s: &str, w: usize)
    ensures
        final(out)@ == old(out)@ + pad_left(s@, w as nat),
{
    let n = s.unicode_len();
    if n < w {
        push_repeated(out, ' ', w - n);
        proof {
            assert(repeated(' ', (w - n) as nat) =~= spaces((w - n) as nat));
        }
    }
    push_str(out, s);
}

pub open spec fn lines_indented(fs: Seq<Seq<char>>) -> Seq<char>
    decreases fs.len(),
{
    if fs.len() == 0 {
        Seq::empty()
    } else {
        lines_indented(fs.drop_last()) + "  "@ + fs.last() + "\n"@
    }
}

pub open spec fn learning_lines(ls: Seq<(Seq<char>, Seq<char>)>) -> Seq<char>
    decreases ls.len(),
{
    if ls.len() == 0 {
        Seq::empty()
    } else {
        learning_lines(ls.drop_last()) + "  - "@ + ls.last().1 + "\n"@
    }
}

/// The text report of a mission's result.
pub open spec fn result_text(r: MissionOutput) -> Seq<char> {
    let head = "\n"@ + (if r.success {
        "Mission "@ + r.mission_id@ + " completed successfully!\n"@
    } else {
        "Mission "@ + r.mission_id@ + " failed.\n"@
    }) + "\n"@ + "Summary: "@ + r.summary@ + "\n"@;
    let files = if r.files_changed@.len() == 0 {
        Seq::empty()
    } else {
        "\n"@ + "Files changed ("@ + decimal(r.files_changed@.len()) + "):\n"@ + lines_indented(strs(r.files_changed@))
    };
    let learned = if r.learnings@.len() == 0 {
        Seq::empty()
    } else {
        "\n"@ + "Learnings ("@ + decimal(r.learnings@.len()) + "):\n"@ + learning_lines(learning_views(r.learnings@))
    };
    head + files + learned
}

pub open spec fn status_icon(s: TaskStatus) -> Seq<char> {
    match s {
        TaskStatus::Completed => "[x]"@,
        TaskStatus::InProgress => "[>]"@,
        TaskStatus::Failed => "[!]"@,
        _ => "[ ]"@,
    }
}

pub open spec fn task_lines(ts: Seq<Task>) -> Seq<char>
    decreases ts.len(),
{
    if ts.len() == 0 {
        Seq::empty()
    } else {
        task_lines(ts.drop_last()) + "  "@ + status_icon(ts.last().status) + " "@ + ts.last().id@ + " - "@
            + ts.last().description@ + "\n"@
    }
}

/// The text report of a mission's status.
pub open spec fn status_text(m: Mission) -> Seq<char> {
    let pct = percent_done(completed_count(m.tasks@), m.tasks@.len());
    "\n"@ + "Mission: "@ + m.id@ + "\n"@ + repeated('=', 60) + "\n"@ + "\n"@ + "Description: "@ + m.description@
        + "\n"@ + "Status: "@ + mission_state_text(m.status) + "\n"@ + "Isolation: "@ + isolation_text(m.isolation)
        + "\n"@ + (match m.branch {
        Some(b) => "Branch: "@ + b@ + "\n"@,
        None => Seq::empty(),
    }) + "\n"@ + "Progress: "@ + decimal(pct) + "% ("@ + decimal(completed_count(m.tasks@)) + "/"@ + decimal(
        m.tasks@.len(),
    ) + ")\n"@ + (if m.tasks@.len() == 0 {
        Seq::empty()
    } else {
        "\n"@ + "Tasks:\n"@ + task_lines(m.tasks@)
    })
}

pub open spec fn list_row(m: Mission) -> Seq<char> {
    pad_right(m.id@, 10) + " "@ + pad_right(byte_prefix(m.description@, 38), 40) + " "@ + pad_right(
        mission_state_text(m.status),
        12,
    ) + " "@ + pad_left(decimal(percent_done(completed_count(m.tasks@), m.tasks@.len())) + "%"@, 10) + "\n"@
}

pub open spec fn list_rows(ms: Seq<Mission>) -> Seq<char>
    decreases ms.len(),
{
    if ms.len() == 0 {
        Seq::empty()
    } else {
        list_rows(ms.drop_last()) + list_row(ms.last())
    }
}

/// The text table of missions.
pub open spec fn list_text(ms: Seq<Mission>) -> Seq<char> {
    if ms.len() == 0 {
        "No missions found.\n"@
    } else {
        "\n"@ + pad_right("ID"@, 10) + " "@ + pad_right("Description"@, 40) + " "@ + pad_right("Status"@, 12) + " "@
            + pad_left("Progress"@, 10) + "\n"@ + repeated('-', 75) + "\n"@ + list_rows(ms)
    }
}

impl OutputWriter {
    /// A writer for `format`.
    pub fn new(format: OutputFormat) -> (w: Self)
        ensures
            w.format() == format,
    {
        OutputWriter { format }
    }

    pub closed spec fn format_spec(&self) -> OutputFormat {
        self.format
    }

    /// The configured output format.
    #[verifier::when_used_as_spec(format_spec)]
    pub fn format(&self) -> (f: OutputFormat)
        ensures
            f == self.format_spec(),
    {
        self.format
    }

    /// The text report of a result.
    #[verifier::rlimit(40)]
    pub fn render_result(&self, result: &MissionOutput) -> (s: String)
        ensures
            s@ == result_text(*result),
    {
        let mut s = String::new();
        push_str(&mut s, "\n");
        push_str(&mut s, "Mission ");
        push_str(&mut s, result.mission_id.as_str());
        if result.success {
            push_str(&mut s, " completed successfully!\n");
        } else {
            push_str(&mut s, " failed.\n");
        }
        push_str(&mut s, "\n");
        push_str(&mut s, "Summary: ");
        push_str(&mut s, result.summary.as_str());
        push_str(&mut s, "\n");
        let ghost after_head = s@;
        if result.files_changed.len() > 0 {
            push_str(&mut s, "\n");
            push_str(&mut s, "Files changed (");
            push_decimal(&mut s, result.files_changed.len() as u64);
            push_str(&mut s, "):\n");
            let ghost fs = strs(result.files_changed@);
            let ghost start = s@;
            let mut i: usize = 0;
            while i < result.files_changed.len()
                invariant
                    0 <= i <= result.files_changed.len(),
                    fs == strs(result.files_changed@),
                    s@ == start + lines_indented(fs.subrange(0, i as int)),
                decreases result.files_changed.len() - i,
            {
                push_str(&mut s, "  ");
                push_str(&mut s, result.files_changed[i].as_str());
                push_str(&mut s, "\n");
                proof {
                    assert(fs.subrange(0, i + 1).drop_last() =~= fs.subrange(0, i as int));
                }
                i = i + 1;
            }
            proof {
                assert(fs.subrange(0, fs.len() as int) =~= fs);
            }
        }
        let ghost after_files = s@;
        if result.learnings.len() > 0 {
            push_str(&mut s, "\n");
            push_str(&mut s, "Learnings (");
            push_decimal(&mut s, result.learnings.len() as u64);
            push_str(&mut s, "):\n");
            let ghost lv = learning_views(result.learnings@);
            let ghost start = s@;
            let mut i: usize = 0;
            while i < result.learnings.len()
                invariant
                    0 <= i <= result.learnings.len(),
                    lv == learning_views(result.learnings@),
                    s@ == start + learning_lines(lv.subrange(0, i as int)),
                decreases result.learnings.len() - i,
            {
                push_str(&mut s, "  - ");
                push_str(&mut s, result.learnings[i].content.as_str());
                push_str(&mut s, "\n");
                proof {
                    assert(lv.subrange(0, i + 1).drop_last() =~= lv.subrange(0, i as int));
                }
                i = i + 1;
            }
            proof {
                assert(lv.subrange(0, lv.len() as int) =~= lv);
            }
        }
        proof {
            assert(s@ =~= result_text(*result));
        }
        s
    }

    /// The text report of a mission's status.
    pub fn render_status(&self, mission: &Mission) -> (s: String)
        ensures
            s@ == status_text(*mission),
    {
        let mut s = String::new();
        push_str(&mut s, "\n");
        push_str(&mut s, "Mission: ");
        push_str(&mut s, mission.id.as_str());
        push_str(&mut s, "\n");
        push_repeated(&mut s, '=', 60);
        push_str(&mut s, "\n");
        push_str(&mut s, "\n");
        push_str(&mut s, "Description: ");
        push_str(&mut s, mission.description.as_str());
        push_str(&mut s, "\n");
        push_str(&mut s, "Status: ");
        push_str(&mut s, mission.status.as_str());
        push_str(&mut s, "\n");
        push_str(&mut s, "Isolation: ");
        push_str(&mut s, isolation_str(mission.isolation));
        push_str(&mut s, "\n");
        match &mission.branch {
            Some(b) => {
                push_str(&mut s, "Branch: ");
                push_str(&mut s, b.as_str());
                push_str(&mut s, "\n");
            },
            None => {},
        }
        let progress = mission.progress();
        push_str(&mut s, "\n");
        push_str(&mut s, "Progress: ");
        push_decimal(&mut s, progress.percentage as u64);
        push_str(&mut s, "% (");
        push_decimal(&mut s, progress.completed as u64);
        push_str(&mut s, "/");
        push_decimal(&mut s, progress.total as u64);
        push_str(&mut s, ")\n");
        let ghost head = s@;
        if mission.tasks.len() > 0 {
            push_str(&mut s, "\n");
            push_str(&mut s, "Tasks:\n");
            let ghost ts = mission.tasks@;
            let ghost start = s@;
            let mut i: usize = 0;
            while i < mission.tasks.len()
                invariant
                    0 <= i <= mission.tasks.len(),
                    ts == mission.tasks@,
                    s@ == start + task_lines(ts.subrange(0, i as int)),
                decreases mission.tasks.len() - i,
            {
                let t = &mission.tasks[i];
                let icon = match t.status {
                    TaskStatus::Completed => "[x]",
                    TaskStatus::InProgress => "[>]",
                    TaskStatus::Failed => "[!]",
                    _ => "[ ]",
                };
                push_str(&mut s, "  ");
                push_str(&mut s, icon);
                push_str(&mut s, " ");
                push_str(&mut s, t.id.as_str());
                push_str(&mut s, " - ");
                push_str(&mut s, t.description.as_str());
                push_str(&mut s, "\n");
                proof {
                    assert(ts.subrange(0, i + 1).drop_last() =~= ts.subrange(0, i as int));
                }
                i = i + 1;
            }
            proof {
                assert(ts.subrange(0, ts.len() as int) =~= ts);
            }
        }
        proof {
            assert(s@ =~= status_text(*mission));
        }
        s
    }

    fn push_row(s: &mut String, m: &Mission)
        ensures
            final(s)@ == old(s)@ + list_row(*m),
    {
        let desc = truncate_at_boundary(m.description.as_str(), 38);
        let progress = m.progress();
        let mut pct = String::new();
        push_decimal(&mut pct, progress.percentage as u64);
        push_str(&mut pct, "%");
        push_pad_right(s, m.id.as_str(), 10);
        push_str(s, " ");
        push_pad_right(s, desc.as_str(), 40);
        push_str(s, " ");
        push_pad_right(s, m.status.as_str(), 12);
        push_str(s, " ");
        push_pad_left(s, pct.as_str(), 10);
        push_str(s, "\n");
    }

    /// The text table of missions.
    pub fn render_list(&self, missions: &[Mission]) -> (s: String)
        ensures
            s@ == list_text(missions@),
    {
        if missions.len() == 0 {
            return "No missions found.\n".to_string();
        }
        let mut s = String::new();
        push_str(&mut s, "\n");
        push_pad_right(&mut s, "ID", 10);
        push_str(&mut s, " ");
        push_pad_right(&mut s, "Description", 40);
        push_str(&mut s, " ");
        push_pad_right(&mut s, "Status", 12);
        push_str(&mut s, " ");
        push_pad_left(&mut s, "Progress", 10);
        push_str(&mut s, "\n");
        push_repeated(&mut s, '-', 75);
        push_str(&mut s, "\n");
        let ghost ms = missions@;
        let ghost start = s@;
        let mut i: usize = 0;
        while i < missions.len()
            invariant
                0 <= i <= missions.len(),
                ms == missions@,
                s@ == start + list_rows(ms.subrange(0, i as int)),
            decreases missions.len() - i,
        {
            Self::push_row(&mut s, &missions[i]);
            proof {
                assert(ms.subrange(0, i + 1).drop_last() =~= ms.subrange(0, i as int));
            }
            i = i + 1;
        }
        proof {
            assert(ms.subrange(0, ms.len() as int) =~= ms);
        }
        s
    }

    /// The final result: its text report, or the result itself as JSON.
    pub fn emit_result(&self, result: &MissionOutput) -> (e: Emission<()>)
        ensures
            self.format() == OutputFormat::Text ==> (e matches Emission::Text(s) && s@ == result_text(*result)),
            self.format() != OutputFormat::Text ==> e is Json,
    {
        match self.format {
            OutputFormat::Text => Emission::Text(self.render_result(result)),
            OutputFormat::Json | OutputFormat::Stream => Emission::Json(()),
        }
    }

    /// A mission's status: its text report, or its status record.
    pub fn emit_status(&self, mission: &Mission) -> (e: Emission<MissionStateOutput>)
        ensures
            self.format() == OutputFormat::Text ==> (e matches Emission::Text(s) && s@ == status_text(*mission)),
            self.format() != OutputFormat::Text ==> (e matches Emission::Json(o) && reports_state(o, *mission)),
    {
        match self.format {
            OutputFormat::Text => Emission::Text(self.render_status(mission)),
            OutputFormat::Json | OutputFormat::Stream => Emission::Json(MissionStateOutput::from_mission(mission)),
        }
    }

    /// A list of missions: the text table; in JSON one array of status
    /// records, one per mission; in streaming mode one status record per
    /// line, the `i`-th describing the `i`-th mission.
    pub fn emit_list(&self, missions: &[Mission]) -> (e: ListEmission)
        ensures
            self.format() == OutputFormat::Text ==> (e matches ListEmission::Text(s) && s@ == list_text(missions@)),
            self.format() == OutputFormat::Json ==> (e matches ListEmission::Array(v) && v@.len() == missions@.len()
                && forall|i: int| 0 <= i < v@.len() ==> reports_state(#[trigger] v@[i], missions@[i])),
            self.format() == OutputFormat::Stream ==> (e matches ListEmission::Lines(v) && v@.len() == missions@.len()
                && forall|i: int| 0 <= i < v@.len() ==> reports_state(#[trigger] v@[i], missions@[i])),
    {
        if self.format == OutputFormat::Text {
            return ListEmission::Text(self.render_list(missions));
        }
        let mut v: Vec<MissionStateOutput> = Vec::new();
        let mut i: usize = 0;
        while i < missions.len()
            invariant
                0 <= i <= missions.len(),
                v@.len() == i,
                forall|k: int| 0 <= k < i ==> reports_state(#[trigger] v@[k], missions@[k]),
            decreases missions.len() - i,
        {
            v.push(MissionStateOutput::from_mission(&missions[i]));
            i = i + 1;
        }
        if self.format == OutputFormat::Stream {
            ListEmission::Lines(v)
        } else {
            ListEmission::Array(v)
        }
    }

    /// A message: the line to print, or the message as a record.
    pub fn emit_message(&self, message: &str) -> (e: Emission<MessageOutput>)
        ensures
            self.format() == OutputFormat::Text ==> (e matches Emission::Text(s) && s@ == message@ + "\n"@),
            self.format() != OutputFormat::Text ==> (e matches Emission::Json(o) && o.message@ == message@),
    {
        match self.format {
            OutputFormat::Text => {
                let mut s = message.to_string();
                push_str(&mut s, "\n");
                Emission::Text(s)
            },
            OutputFormat::Json | OutputFormat::Stream => Emission::Json(MessageOutput { message: message.to_string() }),
        }
    }
}

} // verus!
