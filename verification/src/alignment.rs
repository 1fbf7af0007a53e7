//! Whether a plan and its tasks are grounded in the evidence gathered about
//! the codebase: how many planned paths fall in an area the evidence
//! covers, whether the planned new files can be created, and how many tasks
//! touch files the evidence (or the plan) vouches for.

use vstd::prelude::*;
use crate::artifacts::{all_tasks, lemma_all_tasks_step, PlanArtifact, PlannedTask, TaskPhase, TasksArtifact};
use crate::evidence::{coverage_pct, coverage_percent};
use crate::paths::{is_safe_relative_path, overlap, path_matches_any_area, safe_relative};
use crate::task_quality::{debug_list, ends_with_slash, TaskQualityIssue};
use crate::text::{decimal, push_decimal, push_str};
use crate::validation::{
    detail_views, evidence_backing, overlaps_any, path_has_evidence_backing, string_seq, tier_for, CheckDetail,
    DetailView, PlanValidator, QualityTier, ValidationCheckResult,
};

verus! {

broadcast use vstd::string::group_string_axioms;

/// What evidence gathering found that the alignment check reads: the
/// relevant files, the affected areas, and how many existing patterns were
/// found.
#[derive(Debug)]
pub struct AlignmentEvidence {
    pub relevant_files: Vec<String>,
    pub affected_areas: Vec<String>,
    pub existing_patterns: usize,
}

/// What the file system says about a path named by a plan or a task, under
/// the working directory: whether it exists, whether creating it would stay
/// inside the working directory, and whether it exists and resolves inside.
#[derive(Debug)]
pub struct PathFacts {
    pub path: String,
    pub exists: bool,
    pub new_path_safe: bool,
    pub inside_working_dir: bool,
}

/// The facts recorded for `p` (exists, safe to create, resolves inside):
/// those of its first entry, and none true when it has no entry.
pub open spec fn facts_for(fs: Seq<PathFacts>, p: Seq<char>) -> (bool, bool, bool)
    decreases fs.len(),
{
    if fs.len() == 0 {
        (false, false, false)
    } else if fs[0].path@ == p {
        (fs[0].exists, fs[0].new_path_safe, fs[0].inside_working_dir)
    } else {
        facts_for(fs.drop_first(), p)
    }
}

/// The elements of `s` without repeats, each where it first occurs.
pub open spec fn distinct(s: Seq<Seq<char>>) -> Seq<Seq<char>>
    decreases s.len(),
{
    if s.len() == 0 {
        Seq::empty()
    } else {
        let d = distinct(s.drop_last());
        if d.contains(s.last()) {
            d
        } else {
            d.push(s.last())
        }
    }
}

/// How many of `ps` fall in one of `areas`.
pub open spec fn covered_count(ps: Seq<Seq<char>>, areas: Seq<Seq<char>>) -> nat
    decreases ps.len(),
{
    if ps.len() == 0 {
        0
    } else {
        covered_count(ps.drop_last(), areas) + if overlaps_any(ps.last(), areas) {
            1nat
        } else {
            0nat
        }
    }
}

/// The error, if any, that a planned new path draws.
pub open spec fn new_path_detail(p: Seq<char>, fs: Seq<PathFacts>) -> Seq<DetailView> {
    if !safe_relative(p) {
        seq![DetailView::Error("new_paths contains unsafe path '"@ + p + "' (must be relative, no .. traversal)"@)]
    } else if p.len() > 0 && p.last() == '/' {
        seq![DetailView::Error("new_paths contains directory '"@ + p + "' (must be file paths only)"@)]
    } else if !facts_for(fs, p).1 {
        seq![DetailView::Error("new_paths '"@ + p + "' escapes working directory"@)]
    } else if facts_for(fs, p).0 {
        seq![DetailView::Error("new_paths contains existing path '"@ + p + "' (must be files to create)"@)]
    } else {
        Seq::empty()
    }
}

/// The errors the planned new paths draw, path by path.
pub open spec fn new_path_details(ps: Seq<Seq<char>>, fs: Seq<PathFacts>) -> Seq<DetailView>
    decreases ps.len(),
{
    if ps.len() == 0 {
        Seq::empty()
    } else {
        new_path_details(ps.drop_last(), fs) + new_path_detail(ps.last(), fs)
    }
}

/// The plan's paths, its new paths, the evidence files and areas, as values.
pub struct Grounds {
    pub files: Seq<Seq<char>>,
    pub plan_paths: Seq<Seq<char>>,
    pub new_paths: Seq<Seq<char>>,
    pub areas: Seq<Seq<char>>,
}

/// The paths an alignment check weighs, as values.
pub open spec fn grounds(ev: AlignmentEvidence, plan: PlanArtifact) -> Grounds {
    Grounds {
        files: string_seq(ev.relevant_files@),
        plan_paths: string_seq(plan.project_structure.affected_paths@),
        new_paths: string_seq(plan.project_structure.new_paths@),
        areas: string_seq(ev.affected_areas@),
    }
}

/// Whether a file is backed, and whether it is a planned new file.
pub open spec fn file_backing(f: Seq<char>, g: Grounds, fs: Seq<PathFacts>) -> (bool, bool) {
    evidence_backing(f, g.files, g.plan_paths, g.new_paths, g.areas, facts_for(fs, f).1, facts_for(fs, f).2)
}

/// Whether any of the files is backed, and whether any is a planned new file.
pub open spec fn files_backing(files: Seq<Seq<char>>, g: Grounds, fs: Seq<PathFacts>) -> (bool, bool)
    decreases files.len(),
{
    if files.len() == 0 {
        (false, false)
    } else {
        let r = files_backing(files.drop_last(), g, fs);
        let b = file_backing(files.last(), g, fs);
        (r.0 || b.0, r.1 || b.1)
    }
}

/// Over the tasks that name files: how many are backed, the ids of those
/// that are not, and how many touch a planned new file.
pub open spec fn tally(ts: Seq<PlannedTask>, g: Grounds, fs: Seq<PathFacts>) -> (nat, Seq<Seq<char>>, nat)
    decreases ts.len(),
{
    if ts.len() == 0 {
        (0, Seq::empty(), 0)
    } else {
        let r = tally(ts.drop_last(), g, fs);
        let t = ts.last();
        if t.affected_files@.len() == 0 {
            r
        } else {
            let b = files_backing(string_seq(t.affected_files@), g, fs);
            (
                r.0 + if b.0 {
                    1nat
                } else {
                    0nat
                },
                if b.0 {
                    r.1
                } else {
                    r.1.push(t.id@)
                },
                r.2 + if b.1 {
                    1nat
                } else {
                    0nat
                },
            )
        }
    }
}

/// `covered / total` falls below `threshold` percent.
pub open spec fn below(covered: nat, total: nat, threshold: nat) -> bool {
    100 * covered < threshold * total
}

/// The line about the relevant files found.
pub open spec fn relevant_detail(n: nat) -> DetailView {
    if n == 0 {
        DetailView::Error("No relevant files found in codebase analysis"@)
    } else {
        DetailView::Info(decimal(n) + " relevant files identified"@)
    }
}

/// The lines about the plan paths that fall in an evidence area.
pub open spec fn plan_coverage_details(covered: nat, total: nat, threshold: nat) -> Seq<DetailView> {
    if total == 0 {
        Seq::empty()
    } else {
        let pct = decimal(coverage_percent(covered, total));
        seq![DetailView::Info("Plan path coverage: "@ + pct + "% ("@ + decimal(covered) + "/"@ + decimal(total) + " paths)"@)]
            + if below(covered, total, threshold) {
            seq![DetailView::Error("Plan coverage "@ + pct + "% below threshold "@ + decimal(threshold) + "%"@)]
        } else {
            Seq::empty()
        }
    }
}

/// The line about tasks that touch planned new files, if any.
pub open spec fn new_files_details(n: nat) -> Seq<DetailView> {
    if n > 0 {
        seq![DetailView::Info(decimal(n) + " tasks involve planned new files"@)]
    } else {
        Seq::empty()
    }
}

/// At most the first `n` elements.
pub open spec fn first_n(s: Seq<Seq<char>>, n: nat) -> Seq<Seq<char>> {
    if n < s.len() {
        s.take(n as int)
    } else {
        s
    }
}

/// The lines about the tasks backed by evidence, and those that are not.
pub open spec fn task_coverage_details(with: nat, without: Seq<Seq<char>>, threshold: nat, max: nat) -> Seq<DetailView> {
    let total = with + without.len();
    if total == 0 {
        Seq::empty()
    } else {
        let pct = decimal(coverage_percent(with, total));
        seq![DetailView::Info("Task evidence coverage: "@ + pct + "% ("@ + decimal(with) + "/"@ + decimal(total) + ")"@)]
            + if below(with, total, threshold) {
            seq![DetailView::Error("Task coverage "@ + pct + "% below threshold "@ + decimal(threshold) + "%"@)]
                + if without.len() > 0 {
                seq![DetailView::Warning("Tasks without evidence: "@ + debug_list(first_n(without, max)))]
            } else {
                Seq::empty()
            }
        } else {
            Seq::empty()
        }
    }
}

/// The line about existing patterns, if any were found.
pub open spec fn pattern_details(n: nat) -> Seq<DetailView> {
    if n > 0 {
        seq![DetailView::Info(decimal(n) + " existing patterns found"@)]
    } else {
        Seq::empty()
    }
}

/// Every line the alignment check reports, in order.
pub open spec fn alignment_details(
    ev: AlignmentEvidence,
    plan: PlanArtifact,
    tasks: TasksArtifact,
    fs: Seq<PathFacts>,
    threshold: nat,
    max: nat,
) -> Seq<DetailView> {
    let g = grounds(ev, plan);
    let pp = distinct(g.plan_paths);
    let t = tally(all_tasks(tasks.phases@), g, fs);
    seq![relevant_detail(ev.relevant_files@.len())] + plan_coverage_details(covered_count(pp, g.areas), pp.len(), threshold)
        + new_path_details(distinct(g.new_paths), fs) + new_files_details(t.2) + task_coverage_details(
        t.0,
        t.1,
        threshold,
        max,
    ) + pattern_details(ev.existing_patterns as nat)
}

/// The alignment check passes: there is evidence, the plan's and the
/// tasks' coverage reach the threshold, and every planned new path can be
/// created.
pub open spec fn alignment_passed(
    ev: AlignmentEvidence,
    plan: PlanArtifact,
    tasks: TasksArtifact,
    fs: Seq<PathFacts>,
    threshold: nat,
) -> bool {
    let g = grounds(ev, plan);
    let pp = distinct(g.plan_paths);
    let t = tally(all_tasks(tasks.phases@), g, fs);
    &&& ev.relevant_files@.len() > 0
    &&& !(pp.len() > 0 && below(covered_count(pp, g.areas), pp.len(), threshold))
    &&& new_path_details(distinct(g.new_paths), fs).len() == 0
    &&& !(t.0 + t.1.len() > 0 && below(t.0, t.0 + t.1.len(), threshold))
}

} // verus!

verus! {

/// The facts recorded for `p`.
fn lookup_facts(fs: &Vec<PathFacts>, p: &str) -> (r: (bool, bool, bool))
    ensures
        r == facts_for(fs@, p@),
{
    let key = p.to_string();
    let mut i: usize = 0;
    proof {
        assert(fs@.subrange(0, fs@.len() as int) =~= fs@);
    }
    while i < fs.len()
        invariant
            0 <= i <= fs.len(),
            key@ == p@,
            facts_for(fs@, p@) == facts_for(fs@.subrange(i as int, fs@.len() as int), p@),
        decreases fs.len() - i,
    {
        let ghost rest = fs@.subrange(i as int, fs@.len() as int);
        proof {
            assert(rest[0] == fs@[i as int]);
            assert(rest.drop_first() =~= fs@.subrange(i + 1, fs@.len() as int));
        }
        if fs[i].path == key {
            return (fs[i].exists, fs[i].new_path_safe, fs[i].inside_working_dir);
        }
        i = i + 1;
    }
    (false, false, false)
}

/// `v` without repeats, each string where it first occurs.
fn distinct_strings(v: &Vec<String>) -> (r: Vec<String>)
    ensures
        string_seq(r@) == distinct(string_seq(v@)),
{
    let ghost sv = string_seq(v@);
    let mut r: Vec<String> = Vec::new();
    let mut i: usize = 0;
    proof {
        assert(sv.subrange(0, 0) =~= Seq::<Seq<char>>::empty());
        assert(string_seq(r@) =~= Seq::<Seq<char>>::empty());
    }
    while i < v.len()
        invariant
            0 <= i <= v.len(),
            sv == string_seq(v@),
            string_seq(r@) == distinct(sv.subrange(0, i as int)),
        decreases v.len() - i,
    {
        let ghost pre = sv.subrange(0, i + 1);
        proof {
            assert(pre.drop_last() =~= sv.subrange(0, i as int));
            assert(pre.last() == v@[i as int]@);
        }
        let mut found = false;
        let mut j: usize = 0;
        while j < r.len()
            invariant
                0 <= j <= r.len(),
                found == exists|k: int| 0 <= k < j && string_seq(r@)[k] == v@[i as int]@,
                i < v.len(),
            decreases r.len() - j,
        {
            if r[j] == v[i] {
                found = true;
                proof {
                    assert(string_seq(r@)[j as int] == v@[i as int]@);
                }
            }
            j = j + 1;
        }
        let ghost before = string_seq(r@);
        proof {
            if found {
                let k = choose|k: int| 0 <= k < r.len() && string_seq(r@)[k] == v@[i as int]@;
                assert(before.contains(v@[i as int]@));
            } else {
                assert forall|k: int| 0 <= k < before.len() implies before[k] != v@[i as int]@ by {}
                assert(!before.contains(v@[i as int]@));
            }
        }
        if !found {
            r.push(v[i].clone());
            proof {
                assert(string_seq(r@) =~= before.push(v@[i as int]@));
            }
        }
        i = i + 1;
    }
    proof {
        assert(sv.subrange(0, v.len() as int) =~= sv);
    }
    r
}

/// `file` overlaps one of `v`.
fn overlaps_listed(file: &str, v: &Vec<String>) -> (b: bool)
    ensures
        b == overlaps_any(file@, string_seq(v@)),
{
    let b = path_matches_any_area(file, v);
    proof {
        if b {
            let i = choose|i: int| 0 <= i < v.len() && overlap(file@, #[trigger] v@[i]@);
            assert(string_seq(v@)[i] == v@[i]@);
        }
        if overlaps_any(file@, string_seq(v@)) {
            let k = choose|k: int| 0 <= k < v.len() && overlap(file@, #[trigger] string_seq(v@)[k]);
            assert(string_seq(v@)[k] == v@[k]@);
        }
    }
    b
}

/// How many of `ps` fall in one of `areas`.
fn count_covered(ps: &Vec<String>, areas: &Vec<String>) -> (n: usize)
    ensures
        n == covered_count(string_seq(ps@), string_seq(areas@)),
        n <= ps.len(),
{
    let ghost sp = string_seq(ps@);
    let ghost sa = string_seq(areas@);
    let mut n: usize = 0;
    let mut i: usize = 0;
    proof {
        assert(sp.subrange(0, 0) =~= Seq::<Seq<char>>::empty());
    }
    while i < ps.len()
        invariant
            0 <= i <= ps.len(),
            sp == string_seq(ps@),
            sa == string_seq(areas@),
            n == covered_count(sp.subrange(0, i as int), sa),
            n <= i,
        decreases ps.len() - i,
    {
        let ghost pre = sp.subrange(0, i + 1);
        proof {
            assert(pre.drop_last() =~= sp.subrange(0, i as int));
            assert(pre.last() == ps@[i as int]@);
        }
        if overlaps_listed(ps[i].as_str(), areas) {
            n = n + 1;
        }
        i = i + 1;
    }
    proof {
        assert(sp.subrange(0, ps.len() as int) =~= sp);
    }
    n
}

/// Appends the error a planned new path draws, if any.
fn push_new_path_detail(p: &String, fs: &Vec<PathFacts>, details: &mut Vec<CheckDetail>)
    ensures
        detail_views(final(details)@) == detail_views(old(details)@) + new_path_detail(p@, fs@),
{
    let ghost before = detail_views(details@);
    let facts = lookup_facts(fs, p.as_str());
    if !is_safe_relative_path(p.as_str()) {
        let mut m = String::new();
        push_str(&mut m, "new_paths contains unsafe path '");
        push_str(&mut m, p.as_str());
        push_str(&mut m, "' (must be relative, no .. traversal)");
        details.push(CheckDetail::Error(m));
    } else if ends_with_slash(p.as_str()) {
        let mut m = String::new();
        push_str(&mut m, "new_paths contains directory '");
        push_str(&mut m, p.as_str());
        push_str(&mut m, "' (must be file paths only)");
        details.push(CheckDetail::Error(m));
    } else if !facts.1 {
        let mut m = String::new();
        push_str(&mut m, "new_paths '");
        push_str(&mut m, p.as_str());
        push_str(&mut m, "' escapes working directory");
        details.push(CheckDetail::Error(m));
    } else if facts.0 {
        let mut m = String::new();
        push_str(&mut m, "new_paths contains existing path '");
        push_str(&mut m, p.as_str());
        push_str(&mut m, "' (must be files to create)");
        details.push(CheckDetail::Error(m));
    }
    proof {
        assert(detail_views(details@) =~= before + new_path_detail(p@, fs@));
    }
}

/// Whether any of `files` is backed, and whether any is a planned new file.
fn task_backing(files: &Vec<String>, ev: &AlignmentEvidence, plan: &PlanArtifact, fs: &Vec<PathFacts>) -> (r: (
    bool,
    bool,
))
    ensures
        r == files_backing(string_seq(files@), grounds(*ev, *plan), fs@),
{
    let ghost g = grounds(*ev, *plan);
    let ghost sf = string_seq(files@);
    let mut backed = false;
    let mut new_file = false;
    let mut i: usize = 0;
    proof {
        assert(sf.subrange(0, 0) =~= Seq::<Seq<char>>::empty());
    }
    while i < files.len()
        invariant
            0 <= i <= files.len(),
            sf == string_seq(files@),
            g == grounds(*ev, *plan),
            (backed, new_file) == files_backing(sf.subrange(0, i as int), g, fs@),
        decreases files.len() - i,
    {
        let ghost pre = sf.subrange(0, i + 1);
        proof {
            assert(pre.drop_last() =~= sf.subrange(0, i as int));
            assert(pre.last() == files@[i as int]@);
        }
        let f = files[i].as_str();
        let facts = lookup_facts(fs, f);
        let b = path_has_evidence_backing(
            f,
            &ev.relevant_files,
            &plan.project_structure.affected_paths,
            &plan.project_structure.new_paths,
            &ev.affected_areas,
            facts.1,
            facts.2,
        );
        backed = backed || b.0;
        new_file = new_file || b.1;
        i = i + 1;
    }
    proof {
        assert(sf.subrange(0, files.len() as int) =~= sf);
    }
    (backed, new_file)
}

/// Over all tasks that name files: how many are backed, the ids of those
/// that are not, and how many touch a planned new file.
fn task_tally(tasks: &TasksArtifact, ev: &AlignmentEvidence, plan: &PlanArtifact, fs: &Vec<PathFacts>) -> (r: (
    usize,
    Vec<String>,
    usize,
))
    requires
        tasks.task_count() <= usize::MAX,
    ensures
        (r.0 as nat, string_seq(r.1@), r.2 as nat) == tally(all_tasks(tasks.phases@), grounds(*ev, *plan), fs@),
        r.0 + r.1@.len() <= tasks.task_count(),
{
    let ghost g = grounds(*ev, *plan);
    let ghost ps = tasks.phases@;
    let mut with: usize = 0;
    let mut without: Vec<String> = Vec::new();
    let mut new_files: usize = 0;
    let mut i: usize = 0;
    proof {
        assert(ps.subrange(0, 0) =~= Seq::<TaskPhase>::empty());
        assert(string_seq(without@) =~= Seq::<Seq<char>>::empty());
    }
    while i < tasks.phases.len()
        invariant
            0 <= i <= tasks.phases.len(),
            ps == tasks.phases@,
            g == grounds(*ev, *plan),
            all_tasks(ps).len() <= usize::MAX,
            (with as nat, string_seq(without@), new_files as nat) == tally(all_tasks(ps.subrange(0, i as int)), g, fs@),
            with + without@.len() <= all_tasks(ps.subrange(0, i as int)).len(),
            new_files <= all_tasks(ps.subrange(0, i as int)).len(),
        decreases tasks.phases.len() - i,
    {
        let ts = &tasks.phases[i].tasks;
        let ghost before = all_tasks(ps.subrange(0, i as int));
        proof {
            lemma_all_tasks_step(ps, i as int);
            crate::validation::lemma_all_tasks_grow(ps, i + 1);
            assert(before + ts@.subrange(0, 0) =~= before);
        }
        let mut j: usize = 0;
        while j < ts.len()
            invariant
                0 <= j <= ts.len(),
                0 <= i < ps.len(),
                ts@ == ps[i as int].tasks@,
                g == grounds(*ev, *plan),
                all_tasks(ps.subrange(0, i + 1)) == before + ts@,
                all_tasks(ps.subrange(0, i + 1)).len() <= usize::MAX,
                (with as nat, string_seq(without@), new_files as nat) == tally(before + ts@.subrange(0, j as int), g, fs@),
                with + without@.len() <= before.len() + j,
                new_files <= before.len() + j,
            decreases ts.len() - j,
        {
            let ghost q = before + ts@.subrange(0, j + 1);
            proof {
                assert(q.drop_last() =~= before + ts@.subrange(0, j as int));
                assert(q.last() == ts@[j as int]);
            }
            let task = &ts[j];
            if task.affected_files.len() > 0 {
                let b = task_backing(&task.affected_files, ev, plan, fs);
                let ghost w0 = string_seq(without@);
                if b.0 {
                    with = with + 1;
                } else {
                    without.push(task.id.clone());
                    proof {
                        assert(string_seq(without@) =~= w0.push(task.id@));
                    }
                }
                if b.1 {
                    new_files = new_files + 1;
                }
            }
            j = j + 1;
        }
        proof {
            assert(ts@.subrange(0, ts.len() as int) =~= ts@);
        }
        i = i + 1;
    }
    proof {
        assert(ps.subrange(0, ps.len() as int) =~= ps);
    }
    (with, without, new_files)
}

} // verus!

verus! {

/// The first `n` strings of `v` (all of them when there are fewer).
fn first_strings(v: &Vec<String>, n: usize) -> (r: Vec<String>)
    ensures
        string_seq(r@) == first_n(string_seq(v@), n as nat),
{
    let k = if n < v.len() { n } else { v.len() };
    let mut r: Vec<String> = Vec::new();
    let mut i: usize = 0;
    while i < k
        invariant
            0 <= i <= k,
            k <= v.len(),
            string_seq(r@) == string_seq(v@).take(i as int),
        decreases k - i,
    {
        let ghost before = string_seq(r@);
        r.push(v[i].clone());
        proof {
            assert(string_seq(r@) =~= before.push(v@[i as int]@));
            assert(string_seq(v@).take(i + 1) =~= string_seq(v@).take(i as int).push(v@[i as int]@));
        }
        i = i + 1;
    }
    proof {
        assert(string_seq(v@).take(v.len() as int) =~= string_seq(v@));
    }
    r
}

/// `covered / total` falls below `threshold` percent.
fn is_below(covered: usize, total: usize, threshold: u64) -> (b: bool)
    ensures
        b == below(covered as nat, total as nat, threshold as nat),
{
    let t: u128 = threshold as u128;
    let n: u128 = total as u128;
    assert(t * n <= u64::MAX as u128 * u64::MAX as u128) by (nonlinear_arith)
        requires
            t <= u64::MAX,
            n <= u64::MAX,
    ;
    (covered as u128) * 100 < t * n
}

impl PlanValidator {
    /// Checks that the plan and its tasks are grounded in the evidence:
    /// there are relevant files; the plan's distinct affected paths that
    /// fall in an evidence area reach `coverage_threshold_pct` percent;
    /// every distinct planned new path is safe, a file path, inside the
    /// working directory and not yet there; and the tasks that name files
    /// are backed by evidence (or the plan) at the same rate. `facts` says
    /// what the file system holds for the paths involved; at most
    /// `max_display_items` unbacked task ids are listed.
    pub fn check_evidence_alignment(
        &self,
        evidence: &AlignmentEvidence,
        plan: &PlanArtifact,
        tasks: &TasksArtifact,
        facts: &Vec<PathFacts>,
        coverage_threshold_pct: u64,
        max_display_items: usize,
    ) -> (r: ValidationCheckResult)
        requires
            tasks.task_count() <= usize::MAX,
        ensures
            detail_views(r.details@) == alignment_details(
                *evidence,
                *plan,
                *tasks,
                facts@,
                coverage_threshold_pct as nat,
                max_display_items as nat,
            ),
            r.passed == alignment_passed(*evidence, *plan, *tasks, facts@, coverage_threshold_pct as nat),
            r.tier == tier_for(r.passed),
    {
        let ghost g = grounds(*evidence, *plan);
        let ghost thr = coverage_threshold_pct as nat;
        let mut details: Vec<CheckDetail> = Vec::new();

        let n = evidence.relevant_files.len();
        let has_files = n > 0;
        if !has_files {
            details.push(CheckDetail::Error("No relevant files found in codebase analysis".to_string()));
        } else {
            let mut m = String::new();
            push_decimal(&mut m, n as u64);
            push_str(&mut m, " relevant files identified");
            details.push(CheckDetail::Info(m));
        }
        proof {
            assert(detail_views(details@) =~= seq![relevant_detail(n as nat)]);
        }

        let pp = distinct_strings(&plan.project_structure.affected_paths);
        let covered = count_covered(&pp, &evidence.affected_areas);
        let total = pp.len();
        let ghost d1 = detail_views(details@);
        let mut plan_ok = true;
        if total > 0 {
            let pct = coverage_pct(covered, total);
            let mut m = String::new();
            push_str(&mut m, "Plan path coverage: ");
            push_decimal(&mut m, pct);
            push_str(&mut m, "% (");
            push_decimal(&mut m, covered as u64);
            push_str(&mut m, "/");
            push_decimal(&mut m, total as u64);
            push_str(&mut m, " paths)");
            details.push(CheckDetail::Info(m));
            if is_below(covered, total, coverage_threshold_pct) {
                let mut e = String::new();
                push_str(&mut e, "Plan coverage ");
                push_decimal(&mut e, pct);
                push_str(&mut e, "% below threshold ");
                push_decimal(&mut e, coverage_threshold_pct);
                push_str(&mut e, "%");
                details.push(CheckDetail::Error(e));
                plan_ok = false;
            }
        }
        proof {
            assert(detail_views(details@) =~= d1 + plan_coverage_details(covered as nat, total as nat, thr));
        }

        let np = distinct_strings(&plan.project_structure.new_paths);
        let ghost snp = string_seq(np@);
        let ghost d2 = detail_views(details@);
        let mut new_ok = true;
        let mut i: usize = 0;
        proof {
            assert(snp.subrange(0, 0) =~= Seq::<Seq<char>>::empty());
            assert(d2 + new_path_details(snp.subrange(0, 0), facts@) =~= d2);
        }
        while i < np.len()
            invariant
                0 <= i <= np.len(),
                snp == string_seq(np@),
                detail_views(details@) == d2 + new_path_details(snp.subrange(0, i as int), facts@),
                new_ok == (new_path_details(snp.subrange(0, i as int), facts@).len() == 0),
            decreases np.len() - i,
        {
            let ghost pre = snp.subrange(0, i + 1);
            proof {
                assert(pre.drop_last() =~= snp.subrange(0, i as int));
                assert(pre.last() == np@[i as int]@);
            }
            let before = details.len();
            push_new_path_detail(&np[i], facts, &mut details);
            if details.len() > before {
                new_ok = false;
            }
            proof {
                assert(detail_views(details@) =~= d2 + new_path_details(pre, facts@));
                assert(details@.len() == detail_views(details@).len());
            }
            i = i + 1;
        }
        proof {
            assert(snp.subrange(0, np.len() as int) =~= snp);
        }

        let t = task_tally(tasks, evidence, plan, facts);
        let with = t.0;
        let new_files = t.2;
        let ghost d3 = detail_views(details@);
        if new_files > 0 {
            let mut m = String::new();
            push_decimal(&mut m, new_files as u64);
            push_str(&mut m, " tasks involve planned new files");
            details.push(CheckDetail::Info(m));
        }
        proof {
            assert(detail_views(details@) =~= d3 + new_files_details(new_files as nat));
        }

        let ghost d4 = detail_views(details@);
        let task_total = with + t.1.len();
        let mut tasks_ok = true;
        if task_total > 0 {
            let pct = coverage_pct(with, task_total);
            let mut m = String::new();
            push_str(&mut m, "Task evidence coverage: ");
            push_decimal(&mut m, pct);
            push_str(&mut m, "% (");
            push_decimal(&mut m, with as u64);
            push_str(&mut m, "/");
            push_decimal(&mut m, task_total as u64);
            push_str(&mut m, ")");
            details.push(CheckDetail::Info(m));
            if is_below(with, task_total, coverage_threshold_pct) {
                let mut e = String::new();
                push_str(&mut e, "Task coverage ");
                push_decimal(&mut e, pct);
                push_str(&mut e, "% below threshold ");
                push_decimal(&mut e, coverage_threshold_pct);
                push_str(&mut e, "%");
                details.push(CheckDetail::Error(e));
                if t.1.len() > 0 {
                    let shown = first_strings(&t.1, max_display_items);
                    let mut w = String::new();
                    push_str(&mut w, "Tasks without evidence: ");
                    TaskQualityIssue::push_debug_list(&mut w, &shown);
                    proof {
                        assert(crate::graph::names(shown@) =~= string_seq(shown@));
                    }
                    details.push(CheckDetail::Warning(w));
                }
                tasks_ok = false;
            }
        }
        proof {
            assert(detail_views(details@) =~= d4 + task_coverage_details(
                with as nat,
                string_seq(t.1@),
                thr,
                max_display_items as nat,
            ));
        }

        let ghost d5 = detail_views(details@);
        if evidence.existing_patterns > 0 {
            let mut m = String::new();
            push_decimal(&mut m, evidence.existing_patterns as u64);
            push_str(&mut m, " existing patterns found");
            details.push(CheckDetail::Info(m));
        }
        proof {
            assert(detail_views(details@) =~= d5 + pattern_details(evidence.existing_patterns as nat));
        }
        let passed = has_files && plan_ok && new_ok && tasks_ok;
        ValidationCheckResult { passed, tier: if passed { QualityTier::Green } else { QualityTier::Red }, details }
    }
}

} // verus!
