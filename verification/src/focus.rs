//! Scope tracking against drift: which files a task was expected to touch,
//! how often it hopped between modules, and what it actually changed.

use vstd::prelude::*;
use crate::graph::names;
use crate::names::{
    NameSet, clone_strings, find_key, lemma_find_key, lemma_find_key_at, lemma_find_key_none, put,
    vec_contains,
};
use crate::artifacts::{all_tasks, lemma_all_tasks_step, PlanArtifact, PlannedTask, TaskPhase, TasksArtifact};
use crate::paths::{extract_module, module_of};
use crate::alignment::distinct;

verus! {

#[derive(Clone, Copy, Debug, PartialEq, Eq, Structural)]
pub enum WarningSeverity {
    Low,
    Medium,
    High,
}

/// A way in which a task's execution left its expected scope.
#[derive(Debug)]
pub enum DriftWarning {
    UnexpectedFile { file: String, severity: WarningSeverity, reason: String },
    CrossModuleChange { source_module: String, target_module: String, files: Vec<String> },
    TooManyContextSwitches { count: u32, threshold: u32, modules: Vec<String> },
    ScopeCreep { expected_files: usize, actual_files: usize, unexpected: Vec<String> },
}

/// A drift warning, as a value.
pub enum DriftWarningView {
    UnexpectedFile { file: Seq<char>, severity: WarningSeverity, reason: Seq<char> },
    CrossModuleChange { source_module: Seq<char>, target_module: Seq<char>, files: Seq<Seq<char>> },
    TooManyContextSwitches { count: u32, threshold: u32, modules: Seq<Seq<char>> },
    ScopeCreep { expected_files: usize, actual_files: usize, unexpected: Seq<Seq<char>> },
}

impl View for DriftWarning {
    type V = DriftWarningView;

    open spec fn view(&self) -> DriftWarningView {
        match self {
            DriftWarning::UnexpectedFile { file, severity, reason } => DriftWarningView::UnexpectedFile {
                file: file@,
                severity: *severity,
                reason: reason@,
            },
            DriftWarning::CrossModuleChange { source_module, target_module, files } => DriftWarningView::CrossModuleChange {
                source_module: source_module@,
                target_module: target_module@,
                files: names(files@),
            },
            DriftWarning::TooManyContextSwitches { count, threshold, modules } => DriftWarningView::TooManyContextSwitches {
                count: *count,
                threshold: *threshold,
                modules: names(modules@),
            },
            DriftWarning::ScopeCreep { expected_files, actual_files, unexpected } => DriftWarningView::ScopeCreep {
                expected_files: *expected_files,
                actual_files: *actual_files,
                unexpected: names(unexpected@),
            },
        }
    }
}

/// How serious a warning is: explicit for unexpected files; more than twice
/// the threshold of context switches is high; scope creep is judged by how
/// many times the expected file count (at least one) was touched.
pub open spec fn severity_of(w: DriftWarningView) -> WarningSeverity {
    match w {
        DriftWarningView::UnexpectedFile { severity, .. } => severity,
        DriftWarningView::CrossModuleChange { .. } => WarningSeverity::Medium,
        DriftWarningView::TooManyContextSwitches { count, threshold, .. } => if count > threshold * 2 {
            WarningSeverity::High
        } else {
            WarningSeverity::Medium
        },
        DriftWarningView::ScopeCreep { expected_files, actual_files, .. } => {
            let base: int = if expected_files < 1 { 1 } else { expected_files as int };
            if actual_files > 3 * base {
                WarningSeverity::High
            } else if actual_files > 2 * base {
                WarningSeverity::Medium
            } else {
                WarningSeverity::Low
            }
        },
    }
}

impl DriftWarning {
    /// Severity of the warning.
    pub fn severity(&self) -> (s: WarningSeverity)
        ensures
            s == severity_of(self@),
    {
        match self {
            DriftWarning::UnexpectedFile { severity, .. } => *severity,
            DriftWarning::CrossModuleChange { .. } => WarningSeverity::Medium,
            DriftWarning::TooManyContextSwitches { count, threshold, .. } => {
                if (*count as u64) > (*threshold as u64) * 2 {
                    WarningSeverity::High
                } else {
                    WarningSeverity::Medium
                }
            },
            DriftWarning::ScopeCreep { expected_files, actual_files, .. } => {
                let base: u128 = if *expected_files < 1 { 1 } else { *expected_files as u128 };
                let actual: u128 = *actual_files as u128;
                if actual > 3 * base {
                    WarningSeverity::High
                } else if actual > 2 * base {
                    WarningSeverity::Medium
                } else {
                    WarningSeverity::Low
                }
            },
        }
    }
}

/// Files and modules a task is expected to touch.
#[derive(Debug)]
pub struct ExpectedScope {
    pub primary_files: NameSet,
    pub secondary_files: NameSet,
    pub expected_modules: NameSet,
    pub task_id: String,
}

#[derive(Clone, Copy, Debug, PartialEq, Eq, Structural)]
pub enum FileClassification {
    Primary,
    Secondary,
    SameModule,
    Unexpected,
}

/// An expected scope, as values.
pub struct ExpectedScopeView {
    pub primary: Seq<Seq<char>>,
    pub secondary: Seq<Seq<char>>,
    pub modules: Seq<Seq<char>>,
    pub task_id: Seq<char>,
}

impl View for ExpectedScope {
    type V = ExpectedScopeView;

    open spec fn view(&self) -> ExpectedScopeView {
        ExpectedScopeView {
            primary: self.primary_files.elems(),
            secondary: self.secondary_files.elems(),
            modules: self.expected_modules.elems(),
            task_id: self.task_id@,
        }
    }
}

/// How a scope classifies a path.
pub open spec fn classify(scope: ExpectedScopeView, p: Seq<char>) -> FileClassification {
    if scope.primary.contains(p) {
        FileClassification::Primary
    } else if scope.secondary.contains(p) {
        FileClassification::Secondary
    } else if scope.modules.contains(module_of(p)) {
        FileClassification::SameModule
    } else {
        FileClassification::Unexpected
    }
}

impl ExpectedScope {
    /// An empty scope for a task.
    pub fn new(task_id: &str) -> (s: Self)
        ensures
            s.task_id@ == task_id@,
            s.primary_files.elems() == Seq::<Seq<char>>::empty(),
            s.secondary_files.elems() == Seq::<Seq<char>>::empty(),
            s.expected_modules.elems() == Seq::<Seq<char>>::empty(),
            s.primary_files.wf() && s.secondary_files.wf() && s.expected_modules.wf(),
    {
        ExpectedScope {
            primary_files: NameSet::new(),
            secondary_files: NameSet::new(),
            expected_modules: NameSet::new(),
            task_id: String::from_str(task_id),
        }
    }

    /// The path is listed as a primary or secondary file.
    pub fn is_expected(&self, path: &str) -> (b: bool)
        ensures
            b == (self.primary_files.elems().contains(path@) || self.secondary_files.elems().contains(path@)),
    {
        self.primary_files.contains(path) || self.secondary_files.contains(path)
    }

    /// The path's module is one of the expected modules.
    pub fn is_in_expected_module(&self, path: &str) -> (b: bool)
        ensures
            b == self.expected_modules.elems().contains(module_of(path@)),
    {
        let module = extract_module(path);
        self.expected_modules.contains(module.as_str())
    }

    /// Primary, secondary, same module as expected, or unexpected.
    pub fn classify_file(&self, path: &str) -> (c: FileClassification)
        ensures
            c == classify(self@, path@),
    {
        if self.primary_files.contains(path) {
            FileClassification::Primary
        } else if self.secondary_files.contains(path) {
            FileClassification::Secondary
        } else if self.is_in_expected_module(path) {
            FileClassification::SameModule
        } else {
            FileClassification::Unexpected
        }
    }

    /// A copy of the scope.
    pub fn copy(&self) -> (r: Self)
        ensures
            r@ == self@,
    {
        ExpectedScope {
            primary_files: self.primary_files.copy(),
            secondary_files: self.secondary_files.copy(),
            expected_modules: self.expected_modules.copy(),
            task_id: self.task_id.clone(),
        }
    }
}

} // verus!

verus! {

/// Settings for drift tracking.
#[derive(Clone, Copy, Debug)]
pub struct FocusConfig {
    pub enabled: bool,
    pub derive_from_plan: bool,
    pub derive_from_evidence: bool,
    pub warn_on_unexpected_files: bool,
    pub strict_module_boundaries: bool,
    pub max_context_switches: u32,
}

impl Default for FocusConfig {
    fn default() -> (c: Self)
        ensures
            c.enabled && c.derive_from_plan && c.derive_from_evidence,
            !c.warn_on_unexpected_files && !c.strict_module_boundaries,
            c.max_context_switches == 5,
    {
        FocusConfig {
            enabled: true,
            derive_from_plan: true,
            derive_from_evidence: true,
            warn_on_unexpected_files: false,
            strict_module_boundaries: false,
            max_context_switches: 5,
        }
    }
}

/// Files created, modified and deleted by a task.
#[derive(Debug)]
pub struct FileChanges {
    pub created: Vec<String>,
    pub modified: Vec<String>,
    pub deleted: Vec<String>,
}

/// Every file a change touched: created, then modified, then deleted.
pub open spec fn affected(fc: &FileChanges) -> Seq<Seq<char>> {
    names(fc.created@) + names(fc.modified@) + names(fc.deleted@)
}

fn append_strings(out: &mut Vec<String>, v: &Vec<String>)
    ensures
        names(final(out)@) == names(old(out)@) + names(v@),
{
    let ghost o = names(out@);
    let mut i: usize = 0;
    while i < v.len()
        invariant
            0 <= i <= v.len(),
            names(out@) == o + names(v@).subrange(0, i as int),
        decreases v.len() - i,
    {
        let ghost ob = out@;
        let c = v[i].clone();
        out.push(c);
        proof {
            assert(names(out@) =~= names(ob).push(v@[i as int]@));
            assert(names(v@).subrange(0, i + 1) =~= names(v@).subrange(0, i as int).push(v@[i as int]@));
            assert(names(out@) =~= o + names(v@).subrange(0, i + 1));
        }
        i = i + 1;
    }
    proof {
        assert(names(v@).subrange(0, v.len() as int) =~= names(v@));
    }
}

impl FileChanges {
    /// No changes.
    pub fn empty() -> (fc: Self)
        ensures
            affected(&fc) == Seq::<Seq<char>>::empty(),
    {
        let fc = FileChanges { created: Vec::new(), modified: Vec::new(), deleted: Vec::new() };
        assert(affected(&fc) =~= Seq::<Seq<char>>::empty());
        fc
    }

    /// Every affected file, in the order created, modified, deleted.
    pub fn affected_files(&self) -> (v: Vec<String>)
        ensures
            names(v@) == affected(self),
    {
        let mut v: Vec<String> = Vec::new();
        assert(names(v@) =~= Seq::<Seq<char>>::empty());
        append_strings(&mut v, &self.created);
        append_strings(&mut v, &self.modified);
        append_strings(&mut v, &self.deleted);
        assert(names(v@) =~= affected(self));
        v
    }

    /// A copy of the changes.
    pub fn copy(&self) -> (r: Self)
        ensures
            r.created@ == self.created@,
            r.modified@ == self.modified@,
            r.deleted@ == self.deleted@,
    {
        FileChanges {
            created: clone_strings(&self.created),
            modified: clone_strings(&self.modified),
            deleted: clone_strings(&self.deleted),
        }
    }
}

/// The outcome of checking a finished task against its expected scope.
#[derive(Debug)]
pub struct CompletionValidation {
    pub task_id: String,
    pub expected_scope: ExpectedScope,
    pub actual_changes: FileChanges,
    pub warnings: Vec<DriftWarning>,
    pub context_switches: u32,
    pub modules_touched: Vec<String>,
    pub passed: bool,
}

pub struct TaskScope {
    expected: ExpectedScope,
    context_switches: u32,
    last_module: Option<String>,
    modules_visited: Vec<String>,
}

/// The state tracked for a running task.
pub struct TaskScopeView {
    pub expected: ExpectedScopeView,
    pub context_switches: u32,
    pub last_module: Option<Seq<char>>,
    pub modules_visited: Seq<Seq<char>>,
}

pub open spec fn opt_view(o: Option<String>) -> Option<Seq<char>> {
    match o {
        Some(s) => Some(s@),
        None => None,
    }
}

impl View for TaskScope {
    type V = TaskScopeView;

    closed spec fn view(&self) -> TaskScopeView {
        TaskScopeView {
            expected: self.expected@,
            context_switches: self.context_switches,
            last_module: opt_view(self.last_module),
            modules_visited: names(self.modules_visited@),
        }
    }
}

/// A fresh scope record for a task that has just started.
pub open spec fn started(expected: ExpectedScopeView) -> TaskScopeView {
    TaskScopeView {
        expected,
        context_switches: 0,
        last_module: None,
        modules_visited: Seq::empty(),
    }
}

/// Counting up, stopping at the largest `u32`.
pub open spec fn sat_inc(x: u32) -> u32 {
    if x == u32::MAX { x } else { (x + 1) as u32 }
}

/// The scope record after the task touched a file in module `m`: moving to
/// a different module counts one context switch, and a module is listed
/// the first time it is entered.
pub open spec fn access_step(s: TaskScopeView, m: Seq<char>) -> TaskScopeView {
    let switched = s.last_module matches Some(l) && l != m;
    let entered = switched || s.last_module is None;
    TaskScopeView {
        expected: s.expected,
        context_switches: if switched { sat_inc(s.context_switches) } else { s.context_switches },
        last_module: Some(m),
        modules_visited: if entered && !s.modules_visited.contains(m) {
            s.modules_visited.push(m)
        } else {
            s.modules_visited
        },
    }
}

/// The scope records after task `k` touched a file in module `m`: its
/// record takes the step, the others stay; nothing changes when `k` is not
/// tracked.
pub open spec fn record_step(es: Seq<(Seq<char>, TaskScopeView)>, k: Seq<char>, m: Seq<char>) -> Seq<(Seq<char>, TaskScopeView)> {
    match find_key(es, k) {
        Some(i) => es.update(i, (es[i].0, access_step(es[i].1, m))),
        None => es,
    }
}

/// Tracks the scope of every running task.
pub struct FocusTracker {
    config: FocusConfig,
    active_scopes: Vec<(String, TaskScope)>,
}

impl FocusTracker {
    /// The running tasks and their scope records, in start order.
    pub closed spec fn scopes(&self) -> Seq<(Seq<char>, TaskScopeView)> {
        self.active_scopes@.map_values(|e: (String, TaskScope)| (e.0@, e.1@))
    }

    /// The tracker's settings.
    pub closed spec fn settings(&self) -> FocusConfig {
        self.config
    }

    /// Each running task has exactly one scope record.
    #[verifier::type_invariant]
    spec fn one_record_per_task(self) -> bool {
        unique_keys(self.scopes())
    }

    /// A tracker with no running tasks.
    pub fn new(config: FocusConfig) -> (t: Self)
        ensures
            t.settings() == config,
            t.scopes() == Seq::<(Seq<char>, TaskScopeView)>::empty(),
    {
        let t = FocusTracker { config, active_scopes: Vec::new() };
        assert(t.scopes() =~= Seq::<(Seq<char>, TaskScopeView)>::empty());
        t
    }

    fn find_scope(&self, task_id: &str) -> (r: Option<usize>)
        ensures
            match r {
                Some(i) => find_key(self.scopes(), task_id@) == Some(i as int),
                None => find_key(self.scopes(), task_id@) is None,
            },
    {
        let ghost es = self.scopes();
        let key = String::from_str(task_id);
        let mut i: usize = 0;
        while i < self.active_scopes.len()
            invariant
                0 <= i <= self.active_scopes.len(),
                es == self.scopes(),
                es.len() == self.active_scopes.len(),
                key@ == task_id@,
                forall|j: int| 0 <= j < i ==> es[j].0 != task_id@,
            decreases self.active_scopes.len() - i,
        {
            assert(es[i as int].0 == self.active_scopes@[i as int].0@);
            if self.active_scopes[i].0 == key {
                proof {
                    lemma_find_key_at(es, task_id@, i as int);
                }
                return Some(i);
            }
            i = i + 1;
        }
        proof {
            lemma_find_key_none(es, task_id@);
        }
        None
    }

    /// Starts tracking a task (replacing any earlier record for it); does
    /// nothing when tracking is disabled.
    pub fn start_task(&mut self, task_id: &str, scope: ExpectedScope)
        ensures
            final(self).settings() == old(self).settings(),
            final(self).scopes() == if old(self).settings().enabled {
                put(old(self).scopes(), task_id@, started(scope@))
            } else {
                old(self).scopes()
            },
    {
        if !self.config.enabled {
            return;
        }
        proof {
            use_type_invariant(&*self);
            lemma_start_then_validate(self.scopes(), task_id@, started(scope@));
        }
        let ghost es = self.scopes();
        let ghost sv = scope@;
        let record = TaskScope {
            expected: scope,
            context_switches: 0,
            last_module: None,
            modules_visited: Vec::new(),
        };
        proof {
            assert(record@.modules_visited =~= Seq::<Seq<char>>::empty());
            assert(record@ == started(sv));
        }
        let found = self.find_scope(task_id);
        let mut records: Vec<(String, TaskScope)> = Vec::new();
        std::mem::swap(&mut records, &mut self.active_scopes);
        match found {
            Some(i) => {
                proof {
                    lemma_find_key(es, task_id@);
                }
                records.set(i, (String::from_str(task_id), record));
            },
            None => {
                records.push((String::from_str(task_id), record));
            },
        }
        proof {
            let rv = records@.map_values(|e: (String, TaskScope)| (e.0@, e.1@));
            assert(rv =~= put(es, task_id@, started(sv)));
        }
        self.active_scopes = records;
    }

    /// Records that a task touched a file; counts module switches. Does
    /// nothing when tracking is disabled or the task is not being tracked.
    pub fn record_file_access(&mut self, task_id: &str, path: &str)
        ensures
            final(self).settings() == old(self).settings(),
            final(self).scopes() == if !old(self).settings().enabled {
                old(self).scopes()
            } else {
                record_step(old(self).scopes(), task_id@, module_of(path@))
            },
    {
        if !self.config.enabled {
            return;
        }
        proof {
            use_type_invariant(&*self);
        }
        let ghost es = self.scopes();
        match self.find_scope(task_id) {
            Some(i) => {
                proof {
                    lemma_find_key(es, task_id@);
                }
                let module = extract_module(path);
                let ghost m = module@;
                let mut records: Vec<(String, TaskScope)> = Vec::new();
                std::mem::swap(&mut records, &mut self.active_scopes);
                let (key, mut scope) = records.remove(i);
                let ghost s0 = scope@;
                let switched = match &scope.last_module {
                    Some(last) => *last != module,
                    None => false,
                };
                let entered = switched || scope.last_module.is_none();
                if switched {
                    if scope.context_switches < u32::MAX {
                        scope.context_switches = scope.context_switches + 1;
                    }
                }
                if entered && !vec_contains(&scope.modules_visited, module.as_str()) {
                    scope.modules_visited.push(module.clone());
                    proof {
                        assert(names(scope.modules_visited@) =~= s0.modules_visited.push(m));
                    }
                }
                scope.last_module = Some(module);
                proof {
                    assert(scope@ == access_step(s0, m));
                }
                records.insert(i, (key, scope));
                proof {
                    let rv = records@.map_values(|e: (String, TaskScope)| (e.0@, e.1@));
                    assert(rv =~= es.update(i as int, (es[i as int].0, access_step(es[i as int].1, m))));
                    assert forall|x: int, y: int| 0 <= x < y < rv.len() implies rv[x].0 != rv[y].0 by {
                        assert(rv[x].0 == es[x].0);
                        assert(rv[y].0 == es[y].0);
                    }
                }
                self.active_scopes = records;
            },
            None => {},
        }
    }
}

} // verus!

verus! {

pub open spec fn same_module_reason() -> Seq<char> {
    "File in expected module but not explicitly listed"@
}

pub open spec fn outside_scope_reason() -> Seq<char> {
    "File outside expected scope"@
}

/// Warnings about individual files, in file order: listed files pass,
/// files of an expected module warn (low) only when configured to, and
/// files outside the scope always warn (high under strict boundaries).
pub open spec fn file_warnings(sv: ExpectedScopeView, files: Seq<Seq<char>>, cfg: FocusConfig) -> Seq<DriftWarningView>
    decreases files.len(),
{
    if files.len() == 0 {
        Seq::empty()
    } else {
        let prev = file_warnings(sv, files.drop_last(), cfg);
        let p = files.last();
        match classify(sv, p) {
            FileClassification::SameModule => if cfg.warn_on_unexpected_files {
                prev.push(DriftWarningView::UnexpectedFile {
                    file: p,
                    severity: WarningSeverity::Low,
                    reason: same_module_reason(),
                })
            } else {
                prev
            },
            FileClassification::Unexpected => prev.push(DriftWarningView::UnexpectedFile {
                file: p,
                severity: if cfg.strict_module_boundaries { WarningSeverity::High } else { WarningSeverity::Medium },
                reason: outside_scope_reason(),
            }),
            _ => prev,
        }
    }
}

/// The files outside the scope, in order.
pub open spec fn unexpected_files(sv: ExpectedScopeView, files: Seq<Seq<char>>) -> Seq<Seq<char>>
    decreases files.len(),
{
    if files.len() == 0 {
        Seq::empty()
    } else {
        let prev = unexpected_files(sv, files.drop_last());
        if classify(sv, files.last()) == FileClassification::Unexpected {
            prev.push(files.last())
        } else {
            prev
        }
    }
}

/// Files grouped by module, modules in order of first appearance.
pub open spec fn module_groups(files: Seq<Seq<char>>) -> Seq<(Seq<char>, Seq<Seq<char>>)>
    decreases files.len(),
{
    if files.len() == 0 {
        Seq::empty()
    } else {
        let g = module_groups(files.drop_last());
        let p = files.last();
        let m = module_of(p);
        match find_key(g, m) {
            Some(i) => g.update(i, (m, g[i].1.push(p))),
            None => g.push((m, seq![p])),
        }
    }
}

/// Under strict boundaries, one warning per touched module that is not
/// expected (when some module is expected), naming the first expected
/// module as the source.
pub open spec fn cross_module_warnings(
    sv: ExpectedScopeView,
    groups: Seq<(Seq<char>, Seq<Seq<char>>)>,
    cfg: FocusConfig,
) -> Seq<DriftWarningView>
    decreases groups.len(),
{
    if !cfg.strict_module_boundaries || groups.len() == 0 {
        Seq::empty()
    } else {
        let prev = cross_module_warnings(sv, groups.drop_last(), cfg);
        let (m, fs) = groups.last();
        if !sv.modules.contains(m) && sv.modules.len() > 0 {
            prev.push(DriftWarningView::CrossModuleChange {
                source_module: sv.modules[0],
                target_module: m,
                files: fs,
            })
        } else {
            prev
        }
    }
}

pub open spec fn sat_add(a: usize, b: usize) -> usize {
    if a + b > usize::MAX { usize::MAX } else { (a + b) as usize }
}

/// Number of files the scope lists.
pub open spec fn expected_count(sv: ExpectedScopeView) -> usize {
    sat_add(sv.primary.len() as usize, sv.secondary.len() as usize)
}

/// All warnings for a finished task: per-file warnings, then too many
/// context switches, then cross-module changes, then scope creep (some
/// file outside the scope and more than twice the expected file count,
/// at least one, touched).
pub open spec fn completion_warnings(s: TaskScopeView, files: Seq<Seq<char>>, cfg: FocusConfig) -> Seq<DriftWarningView> {
    let sv = s.expected;
    let per_file = file_warnings(sv, files, cfg);
    let switches = if s.context_switches > cfg.max_context_switches {
        seq![DriftWarningView::TooManyContextSwitches {
            count: s.context_switches,
            threshold: cfg.max_context_switches,
            modules: s.modules_visited,
        }]
    } else {
        Seq::empty()
    };
    let cross = cross_module_warnings(sv, module_groups(files), cfg);
    let unexpected = unexpected_files(sv, files);
    let ec = expected_count(sv);
    let base: int = if ec < 1 { 1 } else { ec as int };
    let creep = if unexpected.len() > 0 && files.len() > base * 2 {
        seq![DriftWarningView::ScopeCreep { expected_files: ec, actual_files: files.len() as usize, unexpected }]
    } else {
        Seq::empty()
    };
    per_file + switches + cross + creep
}

pub open spec fn views(ws: Seq<DriftWarning>) -> Seq<DriftWarningView> {
    ws.map_values(|w: DriftWarning| w@)
}

/// No warning is of high severity.
pub open spec fn no_high(ws: Seq<DriftWarningView>) -> bool {
    forall|i: int| 0 <= i < ws.len() ==> severity_of(#[trigger] ws[i]) != WarningSeverity::High
}

fn push_warning(ws: &mut Vec<DriftWarning>, w: DriftWarning)
    ensures
        views(final(ws)@) == views(old(ws)@).push(w@),
{
    let ghost wv = w@;
    let ghost o = views(ws@);
    ws.push(w);
    assert(views(ws@) =~= o.push(wv));
}

fn append_warnings(ws: &mut Vec<DriftWarning>, more: Vec<DriftWarning>)
    ensures
        views(final(ws)@) == views(old(ws)@) + views(more@),
{
    let ghost o = views(ws@);
    let ghost mv = views(more@);
    let mut more = more;
    ws.append(&mut more);
    assert(views(ws@) =~= o + mv);
}

} // verus!

verus! {

pub open spec fn group_views(gs: Seq<(String, Vec<String>)>) -> Seq<(Seq<char>, Seq<Seq<char>>)> {
    gs.map_values(|e: (String, Vec<String>)| (e.0@, names(e.1@)))
}

fn find_group(gs: &Vec<(String, Vec<String>)>, m: &String) -> (r: Option<usize>)
    ensures
        match r {
            Some(i) => find_key(group_views(gs@), m@) == Some(i as int),
            None => find_key(group_views(gs@), m@) is None,
        },
{
    let ghost es = group_views(gs@);
    let mut i: usize = 0;
    while i < gs.len()
        invariant
            0 <= i <= gs.len(),
            es == group_views(gs@),
            forall|j: int| 0 <= j < i ==> es[j].0 != m@,
        decreases gs.len() - i,
    {
        assert(es[i as int].0 == gs@[i as int].0@);
        if gs[i].0 == *m {
            proof {
                lemma_find_key_at(es, m@, i as int);
            }
            return Some(i);
        }
        i = i + 1;
    }
    proof {
        lemma_find_key_none(es, m@);
    }
    None
}

/// Groups files by module, modules in order of first appearance.
pub fn group_by_module(files: &Vec<String>) -> (gs: Vec<(String, Vec<String>)>)
    ensures
        group_views(gs@) == module_groups(names(files@)),
{
    let ghost fv = names(files@);
    let mut gs: Vec<(String, Vec<String>)> = Vec::new();
    let mut i: usize = 0;
    proof {
        assert(fv.subrange(0, 0) =~= Seq::<Seq<char>>::empty());
        assert(group_views(gs@) =~= Seq::<(Seq<char>, Seq<Seq<char>>)>::empty());
    }
    while i < files.len()
        invariant
            0 <= i <= files.len(),
            fv == names(files@),
            group_views(gs@) == module_groups(fv.subrange(0, i as int)),
        decreases files.len() - i,
    {
        let ghost g0 = group_views(gs@);
        let ghost pre = fv.subrange(0, i + 1);
        proof {
            assert(pre.drop_last() =~= fv.subrange(0, i as int));
            assert(pre.last() == files@[i as int]@);
        }
        let m = extract_module(files[i].as_str());
        match find_group(&gs, &m) {
            Some(k) => {
                proof {
                    lemma_find_key(g0, m@);
                }
                let (key, mut fs) = gs.remove(k);
                let ghost f0 = names(fs@);
                fs.push(files[i].clone());
                proof {
                    assert(names(fs@) =~= f0.push(files@[i as int]@));
                }
                gs.insert(k, (key, fs));
                proof {
                    assert(group_views(gs@) =~= g0.update(k as int, (m@, g0[k as int].1.push(files@[i as int]@))));
                }
            },
            None => {
                let mut fs: Vec<String> = Vec::new();
                fs.push(files[i].clone());
                proof {
                    assert(names(fs@) =~= seq![files@[i as int]@]);
                }
                gs.push((m, fs));
                proof {
                    assert(group_views(gs@) =~= g0.push((module_of(files@[i as int]@), seq![files@[i as int]@])));
                }
            },
        }
        i = i + 1;
    }
    proof {
        assert(fv.subrange(0, files.len() as int) =~= fv);
    }
    gs
}

} // verus!

verus! {

impl FocusTracker {
    /// Under strict module boundaries, warns about each touched module that
    /// the scope did not expect.
    pub fn detect_cross_module_changes(&self, scope: &TaskScope, affected: &Vec<String>) -> (ws: Vec<DriftWarning>)
        ensures
            views(ws@) == cross_module_warnings(scope@.expected, module_groups(names(affected@)), self.settings()),
    {
        let mut ws: Vec<DriftWarning> = Vec::new();
        let cfg = self.config;
        let groups = group_by_module(affected);
        let ghost gv = group_views(groups@);
        let ghost sv = scope@.expected;
        if !self.config.strict_module_boundaries {
            assert(views(ws@) =~= Seq::<DriftWarningView>::empty());
            return ws;
        }
        let expected_modules = scope.expected.expected_modules.as_vec();
        let mut i: usize = 0;
        proof {
            assert(gv.subrange(0, 0) =~= Seq::<(Seq<char>, Seq<Seq<char>>)>::empty());
            assert(views(ws@) =~= Seq::<DriftWarningView>::empty());
        }
        while i < groups.len()
            invariant
                0 <= i <= groups.len(),
                gv == group_views(groups@),
                cfg == self.settings(),
                cfg.strict_module_boundaries,
                sv == scope@.expected,
                names(expected_modules@) == sv.modules,
                views(ws@) == cross_module_warnings(sv, gv.subrange(0, i as int), cfg),
            decreases groups.len() - i,
        {
            proof {
                assert(gv.subrange(0, i + 1).drop_last() =~= gv.subrange(0, i as int));
                assert(gv.subrange(0, i + 1).last() == gv[i as int]);
            }
            let m = &groups[i].0;
            if !vec_contains(expected_modules, m.as_str()) && expected_modules.len() > 0 {
                let w = DriftWarning::CrossModuleChange {
                    source_module: expected_modules[0].clone(),
                    target_module: m.clone(),
                    files: clone_strings(&groups[i].1),
                };
                push_warning(&mut ws, w);
            }
            i = i + 1;
        }
        proof {
            assert(gv.subrange(0, groups.len() as int) =~= gv);
        }
        ws
    }

    /// Ends tracking of a task and checks what it changed against its
    /// scope; tasks that were not tracked pass with no warnings.
    pub fn validate_completion(&mut self, task_id: &str, changes: &FileChanges) -> (r: CompletionValidation)
        ensures
            final(self).settings() == old(self).settings(),
            r.task_id@ == task_id@,
            find_key(final(self).scopes(), task_id@) is None,
            r.actual_changes.created@ == changes.created@,
            r.actual_changes.modified@ == changes.modified@,
            r.actual_changes.deleted@ == changes.deleted@,
            match find_key(old(self).scopes(), task_id@) {
                None => {
                    &&& final(self).scopes() == old(self).scopes()
                    &&& r.expected_scope@.primary.len() == 0
                    &&& r.expected_scope@.secondary.len() == 0
                    &&& r.expected_scope@.modules.len() == 0
                    &&& r.expected_scope@.task_id == task_id@
                    &&& r.warnings@.len() == 0
                    &&& r.context_switches == 0
                    &&& r.modules_touched@.len() == 0
                    &&& r.passed
                },
                Some(i) => {
                    let s = old(self).scopes()[i].1;
                    &&& final(self).scopes() == old(self).scopes().remove(i)
                    &&& r.expected_scope@ == s.expected
                    &&& views(r.warnings@) == completion_warnings(s, affected(changes), old(self).settings())
                    &&& r.context_switches == s.context_switches
                    &&& names(r.modules_touched@) == s.modules_visited
                    &&& r.passed == no_high(views(r.warnings@))
                },
            },
    {
        proof {
            use_type_invariant(&*self);
        }
        let ghost es = self.scopes();
        let pos = match self.find_scope(task_id) {
            Some(i) => i,
            None => {
                let r = CompletionValidation {
                    task_id: String::from_str(task_id),
                    expected_scope: ExpectedScope::new(task_id),
                    actual_changes: changes.copy(),
                    warnings: Vec::new(),
                    context_switches: 0,
                    modules_touched: Vec::new(),
                    passed: true,
                };
                return r;
            },
        };
        proof {
            lemma_find_key(es, task_id@);
        }
        let mut records: Vec<(String, TaskScope)> = Vec::new();
        std::mem::swap(&mut records, &mut self.active_scopes);
        let (_key, scope) = records.remove(pos);
        proof {
            let rv = records@.map_values(|e: (String, TaskScope)| (e.0@, e.1@));
            assert(rv =~= es.remove(pos as int));
            assert forall|x: int, y: int| 0 <= x < y < rv.len() implies rv[x].0 != rv[y].0 by {
                if x < pos {
                    assert(rv[x] == es[x]);
                } else {
                    assert(rv[x] == es[x + 1]);
                }
                if y < pos {
                    assert(rv[y] == es[y]);
                } else {
                    assert(rv[y] == es[y + 1]);
                }
            }
            assert forall|j: int| 0 <= j < rv.len() implies rv[j].0 != task_id@ by {
                if j < pos {
                    assert(rv[j] == es[j]);
                } else {
                    assert(rv[j] == es[j + 1]);
                    assert(es[pos as int].0 != es[j + 1].0);
                }
            }
            lemma_find_key_none(rv, task_id@);
        }
        self.active_scopes = records;
        let ghost s = scope@;
        let ghost sv = s.expected;
        let cfg = self.config;
        let affected_paths = changes.affected_files();
        let ghost files = names(affected_paths@);
        let mut warnings: Vec<DriftWarning> = Vec::new();
        let mut unexpected: Vec<String> = Vec::new();
        let mut k: usize = 0;
        proof {
            assert(files.subrange(0, 0) =~= Seq::<Seq<char>>::empty());
            assert(views(warnings@) =~= Seq::<DriftWarningView>::empty());
            assert(names(unexpected@) =~= Seq::<Seq<char>>::empty());
        }
        while k < affected_paths.len()
            invariant
                0 <= k <= affected_paths.len(),
                files == names(affected_paths@),
                sv == scope@.expected,
                cfg == self.settings(),
                views(warnings@) == file_warnings(sv, files.subrange(0, k as int), cfg),
                names(unexpected@) == unexpected_files(sv, files.subrange(0, k as int)),
            decreases affected_paths.len() - k,
        {
            let ghost pre = files.subrange(0, k + 1);
            proof {
                assert(pre.drop_last() =~= files.subrange(0, k as int));
                assert(pre.last() == affected_paths@[k as int]@);
            }
            let path = &affected_paths[k];
            let classification = scope.expected.classify_file(path.as_str());
            match classification {
                FileClassification::Primary | FileClassification::Secondary => {},
                FileClassification::SameModule => {
                    if cfg.warn_on_unexpected_files {
                        let w = DriftWarning::UnexpectedFile {
                            file: path.clone(),
                            severity: WarningSeverity::Low,
                            reason: String::from_str("File in expected module but not explicitly listed"),
                        };
                        push_warning(&mut warnings, w);
                    }
                },
                FileClassification::Unexpected => {
                    let ghost u0 = names(unexpected@);
                    unexpected.push(path.clone());
                    proof {
                        assert(names(unexpected@) =~= u0.push(path@));
                    }
                    let severity = if cfg.strict_module_boundaries {
                        WarningSeverity::High
                    } else {
                        WarningSeverity::Medium
                    };
                    let w = DriftWarning::UnexpectedFile {
                        file: path.clone(),
                        severity,
                        reason: String::from_str("File outside expected scope"),
                    };
                    push_warning(&mut warnings, w);
                },
            }
            k = k + 1;
        }
        proof {
            assert(files.subrange(0, affected_paths.len() as int) =~= files);
        }
        let ghost per_file = views(warnings@);
        if scope.context_switches > cfg.max_context_switches {
            let w = DriftWarning::TooManyContextSwitches {
                count: scope.context_switches,
                threshold: cfg.max_context_switches,
                modules: clone_strings(&scope.modules_visited),
            };
            push_warning(&mut warnings, w);
        }
        let ghost with_switches = views(warnings@);
        let cross = self.detect_cross_module_changes(&scope, &affected_paths);
        append_warnings(&mut warnings, cross);
        let ghost with_cross = views(warnings@);
        let p = scope.expected.primary_files.len();
        let q = scope.expected.secondary_files.len();
        let listed: usize = if p > usize::MAX - q { usize::MAX } else { p + q };
        let actual_count = affected_paths.len();
        let base: u128 = if listed < 1 { 1 } else { listed as u128 };
        if unexpected.len() > 0 && (actual_count as u128) > base * 2 {
            let w = DriftWarning::ScopeCreep {
                expected_files: listed,
                actual_files: actual_count,
                unexpected,
            };
            push_warning(&mut warnings, w);
        }
        proof {
            assert(listed == expected_count(sv));
            assert(views(warnings@) =~= completion_warnings(s, files, cfg));
        }
        let mut has_high = false;
        let mut j: usize = 0;
        while j < warnings.len()
            invariant
                0 <= j <= warnings.len(),
                has_high == exists|t: int| 0 <= t < j && severity_of(#[trigger] views(warnings@)[t]) == WarningSeverity::High,
            decreases warnings.len() - j,
        {
            assert(views(warnings@)[j as int] == warnings@[j as int]@);
            if warnings[j].severity() == WarningSeverity::High {
                has_high = true;
            }
            proof {
                if !has_high {
                    assert forall|t: int| 0 <= t < j + 1 implies severity_of(#[trigger] views(warnings@)[t]) != WarningSeverity::High by {
                        if t < j {
                        }
                    }
                }
            }
            j = j + 1;
        }
        let r = CompletionValidation {
            task_id: String::from_str(task_id),
            expected_scope: scope.expected,
            actual_changes: changes.copy(),
            warnings,
            context_switches: scope.context_switches,
            modules_touched: scope.modules_visited,
            passed: !has_high,
        };
        r
    }
}

} // verus!

verus! {

/// Appending to a sequence adds the element to its set.
proof fn lemma_push_to_set(s: Seq<Seq<char>>, x: Seq<char>)
    ensures
        s.push(x).to_set() == s.to_set().insert(x),
{
    assert forall|y: Seq<char>| #[trigger] s.push(x).to_set().contains(y) == s.to_set().insert(x).contains(y) by {
        if s.push(x).contains(y) {
            let i = choose|i: int| 0 <= i < s.push(x).len() && s.push(x)[i] == y;
            if i < s.len() {
                assert(s[i] == y);
            }
        }
        if s.contains(y) {
            let i = choose|i: int| 0 <= i < s.len() && s[i] == y;
            assert(s.push(x)[i] == y);
        }
        if y == x {
            assert(s.push(x)[s.len() as int] == x);
        }
    }
    assert(s.push(x).to_set() =~= s.to_set().insert(x));
}

/// The affected files of the tasks with id `id`, task by task.
pub open spec fn files_of_task(ts: Seq<PlannedTask>, id: Seq<char>) -> Seq<Seq<char>>
    decreases ts.len(),
{
    if ts.len() == 0 {
        Seq::empty()
    } else if ts.last().id@ == id {
        files_of_task(ts.drop_last(), id) + names(ts.last().affected_files@)
    } else {
        files_of_task(ts.drop_last(), id)
    }
}

/// The files a task is expected to touch according to the plan (affected
/// and new paths) and to its own entry in the task breakdown.
pub open spec fn planned_paths(
    cfg: FocusConfig,
    task_id: Seq<char>,
    plan: Option<&PlanArtifact>,
    tasks: Option<&TasksArtifact>,
) -> Seq<Seq<char>> {
    if !cfg.derive_from_plan {
        Seq::empty()
    } else {
        (match plan {
            Some(p) => names(p.project_structure.affected_paths@) + names(p.project_structure.new_paths@),
            None => Seq::empty(),
        }) + (match tasks {
            Some(t) => files_of_task(all_tasks(t.phases@), task_id),
            None => Seq::empty(),
        })
    }
}

/// The evidence files a task may also touch.
pub open spec fn evidence_paths(cfg: FocusConfig, evidence_files: Option<&Vec<String>>) -> Seq<Seq<char>> {
    match evidence_files {
        Some(v) => if cfg.derive_from_evidence {
            names(v@)
        } else {
            Seq::empty()
        },
        None => Seq::empty(),
    }
}

/// Adds paths to a file set, and their modules to a module set.
fn add_paths(files: &mut NameSet, modules: &mut NameSet, paths: &Vec<String>)
    ensures
        final(files).view() == old(files).view() + names(paths@).to_set(),
        final(modules).view() == old(modules).view() + names(paths@).map_values(|p: Seq<char>| module_of(p)).to_set(),
        old(files).wf() ==> final(files).wf(),
        old(modules).wf() ==> final(modules).wf(),
{
    let ghost ps = names(paths@);
    let ghost f0 = files.view();
    let ghost m0 = modules.view();
    let mut i: usize = 0;
    proof {
        assert(f0 + ps.subrange(0, 0).to_set() =~= f0);
        assert(m0 + ps.subrange(0, 0).map_values(|p: Seq<char>| module_of(p)).to_set() =~= m0);
    }
    while i < paths.len()
        invariant
            0 <= i <= paths.len(),
            ps == names(paths@),
            files.view() == f0 + ps.subrange(0, i as int).to_set(),
            modules.view() == m0 + ps.subrange(0, i as int).map_values(|p: Seq<char>| module_of(p)).to_set(),
            old(files).wf() ==> files.wf(),
            old(modules).wf() ==> modules.wf(),
            f0 == old(files).view(),
            m0 == old(modules).view(),
        decreases paths.len() - i,
    {
        let path = &paths[i];
        let ghost fe = files.elems();
        let ghost me = modules.elems();
        let m = extract_module(path.as_str());
        files.insert(path.clone());
        modules.insert(m);
        proof {
            let q = ps.subrange(0, i + 1);
            assert(q =~= ps.subrange(0, i as int).push(path@));
            lemma_push_to_set(ps.subrange(0, i as int), path@);
            lemma_push_to_set(fe, path@);
            lemma_push_to_set(me, module_of(path@));
            assert(fe.contains(path@) ==> fe.to_set().insert(path@) =~= fe.to_set());
            assert(me.contains(module_of(path@)) ==> me.to_set().insert(module_of(path@)) =~= me.to_set());
            let mq = q.map_values(|p: Seq<char>| module_of(p));
            assert(mq =~= ps.subrange(0, i as int).map_values(|p: Seq<char>| module_of(p)).push(module_of(path@)));
            lemma_push_to_set(ps.subrange(0, i as int).map_values(|p: Seq<char>| module_of(p)), module_of(path@));
            assert(files.view() =~= f0 + q.to_set());
            assert(modules.view() =~= m0 + mq.to_set());
        }
        i = i + 1;
    }
    proof {
        assert(ps.subrange(0, paths.len() as int) =~= ps);
    }
}

} // verus!

verus! {

impl FocusTracker {
    /// The files of the tasks with id `task_id` in the breakdown.
    fn task_files(tasks: &TasksArtifact, task_id: &str) -> (v: Vec<String>)
        ensures
            names(v@) == files_of_task(all_tasks(tasks.phases@), task_id@),
    {
        let ghost ps = tasks.phases@;
        let key = task_id.to_string();
        let mut v: Vec<String> = Vec::new();
        let mut i: usize = 0;
        proof {
            assert(ps.subrange(0, 0) =~= Seq::<TaskPhase>::empty());
            assert(names(v@) =~= Seq::<Seq<char>>::empty());
        }
        while i < tasks.phases.len()
            invariant
                0 <= i <= tasks.phases.len(),
                ps == tasks.phases@,
                key@ == task_id@,
                names(v@) == files_of_task(all_tasks(ps.subrange(0, i as int)), task_id@),
            decreases tasks.phases.len() - i,
        {
            let ts = &tasks.phases[i].tasks;
            let ghost before = all_tasks(ps.subrange(0, i as int));
            proof {
                lemma_all_tasks_step(ps, i as int);
                assert(before + ts@.subrange(0, 0) =~= before);
            }
            let mut j: usize = 0;
            while j < ts.len()
                invariant
                    0 <= j <= ts.len(),
                    0 <= i < ps.len(),
                    ts@ == ps[i as int].tasks@,
                    key@ == task_id@,
                    all_tasks(ps.subrange(0, i + 1)) == before + ts@,
                    names(v@) == files_of_task(before + ts@.subrange(0, j as int), task_id@),
                decreases ts.len() - j,
            {
                let ghost q = before + ts@.subrange(0, j + 1);
                proof {
                    assert(q.drop_last() =~= before + ts@.subrange(0, j as int));
                    assert(q.last() == ts@[j as int]);
                }
                if ts[j].id == key {
                    let fs = &ts[j].affected_files;
                    let ghost start = v@;
                    let mut k: usize = 0;
                    while k < fs.len()
                        invariant
                            0 <= k <= fs.len(),
                            v@ == start + fs@.subrange(0, k as int),
                        decreases fs.len() - k,
                    {
                        v.push(fs[k].clone());
                        proof {
                            assert(v@ =~= start + fs@.subrange(0, k + 1));
                        }
                        k = k + 1;
                    }
                    proof {
                        assert(fs@.subrange(0, fs.len() as int) =~= fs@);
                        assert(names(v@) =~= names(start) + names(fs@));
                    }
                }
                j = j + 1;
            }
            proof {
                assert(ts@.subrange(0, ts.len() as int) =~= ts@);
            }
            i = i + 1;
        }
        proof {
            assert(ps.subrange(0, ps.len() as int) =~= ps);
        }
        v
    }

    /// The scope a task is expected to keep to: with plan derivation on, the
    /// plan's affected and new paths and the task's own files are primary;
    /// with evidence derivation on, the evidence files (those whose
    /// confidence cleared the threshold) are secondary; the modules of all
    /// of them are expected.
    pub fn derive_scope(
        &self,
        task_id: &str,
        plan: Option<&PlanArtifact>,
        tasks: Option<&TasksArtifact>,
        evidence_files: Option<&Vec<String>>,
    ) -> (s: ExpectedScope)
        ensures
            s@.task_id == task_id@,
            s.primary_files.view() == planned_paths(self.settings(), task_id@, plan, tasks).to_set(),
            s.secondary_files.view() == evidence_paths(self.settings(), evidence_files).to_set(),
            s.expected_modules.view() == (planned_paths(self.settings(), task_id@, plan, tasks) + evidence_paths(
                self.settings(),
                evidence_files,
            )).map_values(|p: Seq<char>| module_of(p)).to_set(),
            s.primary_files.wf() && s.secondary_files.wf() && s.expected_modules.wf(),
    {
        let mut scope = ExpectedScope::new(task_id);
        let ghost cfg = self.config;
        let ghost e: Seq<Seq<char>> = Seq::empty();
        proof {
            assert(scope.primary_files.view() =~= e.to_set());
            assert(scope.secondary_files.view() =~= e.to_set());
            assert(scope.expected_modules.view() =~= e.to_set());
        }
        let ghost pp: Seq<Seq<char>> = match plan {
            Some(p) => names(p.project_structure.affected_paths@) + names(p.project_structure.new_paths@),
            None => Seq::empty(),
        };
        let ghost tp: Seq<Seq<char>> = match tasks {
            Some(t) => files_of_task(all_tasks(t.phases@), task_id@),
            None => Seq::empty(),
        };
        let ghost planned = planned_paths(cfg, task_id@, plan, tasks);
        proof {
            lemma_union_of_parts(planned, plan, tasks, cfg, task_id@);
        }
        if self.config.derive_from_plan {
            match plan {
                Some(p) => {
                    add_paths(&mut scope.primary_files, &mut scope.expected_modules, &p.project_structure.affected_paths);
                    add_paths(&mut scope.primary_files, &mut scope.expected_modules, &p.project_structure.new_paths);
                    proof {
                        let a = names(p.project_structure.affected_paths@);
                        let b = names(p.project_structure.new_paths@);
                        lemma_concat_to_set(a, b);
                        assert((a + b).map_values(|x: Seq<char>| module_of(x)) =~= a.map_values(|x: Seq<char>| module_of(x))
                            + b.map_values(|x: Seq<char>| module_of(x)));
                        lemma_concat_to_set(a.map_values(|x: Seq<char>| module_of(x)), b.map_values(|x: Seq<char>| module_of(x)));
                        assert(scope.primary_files.view() =~= pp.to_set());
                        assert(scope.expected_modules.view() =~= pp.map_values(|x: Seq<char>| module_of(x)).to_set());
                    }
                },
                None => {
                    proof {
                        assert(scope.primary_files.view() =~= pp.to_set());
                        assert(scope.expected_modules.view() =~= pp.map_values(|x: Seq<char>| module_of(x)).to_set());
                    }
                },
            }
            match tasks {
                Some(t) => {
                    let files = Self::task_files(t, task_id);
                    add_paths(&mut scope.primary_files, &mut scope.expected_modules, &files);
                    proof {
                        assert(scope.primary_files.view() =~= pp.to_set() + tp.to_set());
                    }
                },
                None => {
                    proof {
                        assert(scope.primary_files.view() =~= pp.to_set() + tp.to_set());
                        assert(scope.expected_modules.view() =~= pp.map_values(|x: Seq<char>| module_of(x)).to_set()
                            + tp.map_values(|x: Seq<char>| module_of(x)).to_set());
                    }
                },
            }
        }
        proof {
            assert(scope.primary_files.view() =~= planned.to_set());
            assert(scope.expected_modules.view() =~= planned.map_values(|p: Seq<char>| module_of(p)).to_set());
        }
        if self.config.derive_from_evidence {
            match evidence_files {
                Some(v) => {
                    add_paths(&mut scope.secondary_files, &mut scope.expected_modules, v);
                },
                None => {},
            }
        }
        proof {
            let ev = evidence_paths(cfg, evidence_files);
            let all = planned + ev;
            assert(all.map_values(|p: Seq<char>| module_of(p)) =~= planned.map_values(|p: Seq<char>| module_of(p))
                + ev.map_values(|p: Seq<char>| module_of(p)));
            lemma_concat_to_set(planned.map_values(|p: Seq<char>| module_of(p)), ev.map_values(|p: Seq<char>| module_of(p)));
            assert(scope.secondary_files.view() =~= ev.to_set());
        }
        scope
    }
}

/// The set of a concatenation is the union of the sets.
proof fn lemma_concat_to_set(a: Seq<Seq<char>>, b: Seq<Seq<char>>)
    ensures
        (a + b).to_set() == a.to_set() + b.to_set(),
{
    assert forall|y: Seq<char>| #[trigger] (a + b).to_set().contains(y) == (a.to_set() + b.to_set()).contains(y) by {
        if (a + b).contains(y) {
            let i = choose|i: int| 0 <= i < (a + b).len() && (a + b)[i] == y;
            if i < a.len() {
                assert(a[i] == y);
            } else {
                assert(b[i - a.len()] == y);
            }
        }
        if a.contains(y) {
            let i = choose|i: int| 0 <= i < a.len() && a[i] == y;
            assert((a + b)[i] == y);
        }
        if b.contains(y) {
            let i = choose|i: int| 0 <= i < b.len() && b[i] == y;
            assert((a + b)[a.len() + i] == y);
        }
    }
    assert((a + b).to_set() =~= a.to_set() + b.to_set());
}

/// The planned paths split into their parts, as sets.
proof fn lemma_union_of_parts(
    planned: Seq<Seq<char>>,
    plan: Option<&PlanArtifact>,
    tasks: Option<&TasksArtifact>,
    cfg: FocusConfig,
    task_id: Seq<char>,
)
    requires
        planned == planned_paths(cfg, task_id, plan, tasks),
    ensures
        ({
            let pp = match plan {
                Some(p) => names(p.project_structure.affected_paths@) + names(p.project_structure.new_paths@),
                None => Seq::empty(),
            };
            let tp = match tasks {
                Some(t) => files_of_task(all_tasks(t.phases@), task_id),
                None => Seq::empty(),
            };
            cfg.derive_from_plan ==> planned.to_set() == pp.to_set() + tp.to_set()
                && planned.map_values(|p: Seq<char>| module_of(p)).to_set() == pp.map_values(|p: Seq<char>| module_of(p)).to_set()
                + tp.map_values(|p: Seq<char>| module_of(p)).to_set()
        }),
{
    let pp = match plan {
        Some(p) => names(p.project_structure.affected_paths@) + names(p.project_structure.new_paths@),
        None => Seq::empty(),
    };
    let tp = match tasks {
        Some(t) => files_of_task(all_tasks(t.phases@), task_id),
        None => Seq::empty(),
    };
    lemma_concat_to_set(pp, tp);
    assert((pp + tp).map_values(|p: Seq<char>| module_of(p)) =~= pp.map_values(|p: Seq<char>| module_of(p))
        + tp.map_values(|p: Seq<char>| module_of(p)));
    lemma_concat_to_set(pp.map_values(|p: Seq<char>| module_of(p)), tp.map_values(|p: Seq<char>| module_of(p)));
    match plan {
        Some(p) => {
            let a = names(p.project_structure.affected_paths@);
            let b = names(p.project_structure.new_paths@);
            lemma_concat_to_set(a, b);
            assert((a + b).map_values(|x: Seq<char>| module_of(x)) =~= a.map_values(|x: Seq<char>| module_of(x))
                + b.map_values(|x: Seq<char>| module_of(x)));
            lemma_concat_to_set(a.map_values(|x: Seq<char>| module_of(x)), b.map_values(|x: Seq<char>| module_of(x)));
        },
        None => {},
    }
}

} // verus!

verus! {

/// No two entries share a key.
pub open spec fn unique_keys<V>(es: Seq<(Seq<char>, V)>) -> bool {
    forall|i: int, j: int| 0 <= i < j < es.len() ==> es[i].0 != es[j].0
}

/// Starting a task records a fresh scope under its id, keeping ids unique;
/// validating it afterwards finds that scope, and once the record is
/// removed the task is no longer tracked.
pub proof fn lemma_start_then_validate(es: Seq<(Seq<char>, TaskScopeView)>, k: Seq<char>, v: TaskScopeView)
    requires
        unique_keys(es),
    ensures
        unique_keys(put(es, k, v)),
        find_key(put(es, k, v), k) matches Some(i) && put(es, k, v)[i].1 == v && find_key(put(es, k, v).remove(i), k) is None,
{
    lemma_find_key(es, k);
    let p = put(es, k, v);
    match find_key(es, k) {
        Some(i) => {
            assert(p == es.update(i, (k, v)));
            assert forall|a: int, b: int| 0 <= a < b < p.len() implies p[a].0 != p[b].0 by {
                assert(es[a].0 != es[b].0);
            }
            assert forall|j: int| 0 <= j < i implies p[j].0 != k by {
                assert(p[j] == es[j]);
            }
            lemma_find_key_at(p, k, i);
            let r = p.remove(i);
            assert forall|j: int| 0 <= j < r.len() implies r[j].0 != k by {
                if j < i {
                    assert(r[j] == es[j]);
                } else {
                    assert(r[j] == es[j + 1]);
                    assert(es[i].0 != es[j + 1].0);
                }
            }
            lemma_find_key_none(r, k);
        },
        None => {
            assert(p == es.push((k, v)));
            assert forall|a: int, b: int| 0 <= a < b < p.len() implies p[a].0 != p[b].0 by {
                if b < es.len() {
                    assert(es[a].0 != es[b].0);
                } else {
                    assert(p[a] == es[a]);
                }
            }
            let i = es.len() as int;
            assert forall|j: int| 0 <= j < i implies p[j].0 != k by {
                assert(p[j] == es[j]);
            }
            lemma_find_key_at(p, k, i);
            let r = p.remove(i);
            assert(r =~= es);
            lemma_find_key_none(r, k);
        },
    }
}

/// Context switches: the first file a task touches never counts, touching
/// the module it is already in never counts, and moving to another module
/// counts one (until the counter saturates). The modules visited stay
/// distinct.
pub proof fn lemma_context_switches(s: TaskScopeView, m: Seq<char>, n: Seq<char>)
    requires
        s.modules_visited.no_duplicates(),
    ensures
        s.last_module is None ==> access_step(s, m).context_switches == s.context_switches,
        access_step(access_step(s, m), m).context_switches == access_step(s, m).context_switches,
        access_step(access_step(s, m), m).modules_visited == access_step(s, m).modules_visited,
        m != n && access_step(s, m).context_switches < u32::MAX ==> access_step(access_step(s, m), n).context_switches
            == access_step(s, m).context_switches + 1,
        access_step(s, m).modules_visited.no_duplicates(),
        access_step(s, m).last_module == Some(m),
{
    let t = access_step(s, m);
    if t.modules_visited != s.modules_visited {
        assert(t.modules_visited == s.modules_visited.push(m));
        assert(!s.modules_visited.contains(m));
        assert forall|a: int, b: int| 0 <= a < b < t.modules_visited.len() implies t.modules_visited[a] != t.modules_visited[b] by {
            if b == s.modules_visited.len() {
                assert(t.modules_visited[a] == s.modules_visited[a]);
            } else {
                assert(t.modules_visited[a] == s.modules_visited[a]);
                assert(t.modules_visited[b] == s.modules_visited[b]);
            }
        }
    }
}

/// The scope record after the task touched files in the modules `ms`, in
/// that order.
pub open spec fn accesses(s: TaskScopeView, ms: Seq<Seq<char>>) -> TaskScopeView
    decreases ms.len(),
{
    if ms.len() == 0 {
        s
    } else {
        access_step(accesses(s, ms.drop_last()), ms.last())
    }
}

/// How many times two consecutive entries of `ms` differ.
pub open spec fn module_changes(ms: Seq<Seq<char>>) -> nat
    decreases ms.len(),
{
    if ms.len() < 2 {
        0
    } else {
        module_changes(ms.drop_last()) + if ms.last() != ms[ms.len() - 2] { 1nat } else { 0nat }
    }
}

/// A whole run of file accesses from the start of a task: the record
/// counts one context switch for every access whose module differs from
/// the one before it (stopping at the largest `u32`), lists each module
/// once in the order it was first entered, and remembers the last module.
pub proof fn lemma_access_run(e: ExpectedScopeView, ms: Seq<Seq<char>>)
    ensures
        accesses(started(e), ms).expected == e,
        accesses(started(e), ms).context_switches as nat == if module_changes(ms) > u32::MAX as nat {
            u32::MAX as nat
        } else {
            module_changes(ms)
        },
        accesses(started(e), ms).modules_visited == distinct(ms),
        accesses(started(e), ms).last_module == if ms.len() == 0 {
            None
        } else {
            Some(ms.last())
        },
    decreases ms.len(),
{
    if ms.len() == 0 {
        assert(distinct(ms) =~= Seq::<Seq<char>>::empty());
    } else {
        let p = ms.drop_last();
        let m = ms.last();
        lemma_access_run(e, p);
        let t = accesses(started(e), p);
        if p.len() == 0 {
            assert(distinct(p) =~= Seq::<Seq<char>>::empty());
            assert(!distinct(p).contains(m));
        } else {
            assert(p.last() == ms[ms.len() - 2]);
            let d = distinct(p.drop_last());
            assert(d.push(p.last())[d.len() as int] == p.last());
            assert(distinct(p).contains(p.last()));
        }
    }
}

/// The scope records after task `k` touched files in the modules `ms`, in
/// that order.
pub open spec fn recorded(es: Seq<(Seq<char>, TaskScopeView)>, k: Seq<char>, ms: Seq<Seq<char>>) -> Seq<(Seq<char>, TaskScopeView)>
    decreases ms.len(),
{
    if ms.len() == 0 {
        es
    } else {
        record_step(recorded(es, k, ms.drop_last()), k, ms.last())
    }
}

proof fn lemma_recorded(es: Seq<(Seq<char>, TaskScopeView)>, k: Seq<char>, ms: Seq<Seq<char>>, i: int)
    requires
        find_key(es, k) == Some(i),
    ensures
        find_key(recorded(es, k, ms), k) == Some(i),
        recorded(es, k, ms).len() == es.len(),
        recorded(es, k, ms)[i].1 == accesses(es[i].1, ms),
    decreases ms.len(),
{
    lemma_find_key(es, k);
    if ms.len() > 0 {
        lemma_recorded(es, k, ms.drop_last(), i);
        let r = recorded(es, k, ms.drop_last());
        lemma_find_key(r, k);
        let r2 = recorded(es, k, ms);
        assert(r2 == r.update(i, (r[i].0, access_step(r[i].1, ms.last()))));
        assert forall|j: int| 0 <= j < i implies r2[j].0 != k by {
            assert(r2[j] == r[j]);
        }
        lemma_find_key_at(r2, k, i);
    }
}

/// A task started and then seen touching files in the modules `ms`, in
/// order, with no other call for it in between: its record counts one
/// context switch for every access whose module differs from the one
/// before it (stopping at the largest `u32`) and lists each module once,
/// in the order first entered; so validating it reports exactly these.
pub proof fn lemma_tracked_run(es: Seq<(Seq<char>, TaskScopeView)>, k: Seq<char>, e: ExpectedScopeView, ms: Seq<Seq<char>>)
    requires
        unique_keys(es),
    ensures
        find_key(recorded(put(es, k, started(e)), k, ms), k) matches Some(i) && {
            let s = recorded(put(es, k, started(e)), k, ms)[i].1;
            &&& s.expected == e
            &&& s.context_switches as nat == if module_changes(ms) > u32::MAX as nat {
                u32::MAX as nat
            } else {
                module_changes(ms)
            }
            &&& s.modules_visited == distinct(ms)
        },
{
    lemma_start_then_validate(es, k, started(e));
    let p = put(es, k, started(e));
    let i = find_key(p, k)->Some_0;
    lemma_recorded(p, k, ms, i);
    lemma_access_run(e, ms);
}

} // verus!



verus! {

/// How many times `x` occurs in `s`.
pub open spec fn occurrences<A>(s: Seq<A>, x: A) -> nat
    decreases s.len(),
{
    if s.len() == 0 {
        0
    } else {
        occurrences(s.drop_last(), x) + if s.last() == x { 1nat } else { 0nat }
    }
}

proof fn lemma_occurrences_concat<A>(a: Seq<A>, b: Seq<A>, x: A)
    ensures
        occurrences(a + b, x) == occurrences(a, x) + occurrences(b, x),
    decreases b.len(),
{
    if b.len() == 0 {
        assert(a + b =~= a);
    } else {
        lemma_occurrences_concat(a, b.drop_last(), x);
        assert((a + b).drop_last() =~= a + b.drop_last());
    }
}

proof fn lemma_cross_has_no_file_warning(sv: ExpectedScopeView, groups: Seq<(Seq<char>, Seq<Seq<char>>)>, cfg: FocusConfig, w: DriftWarningView)
    requires
        w is UnexpectedFile,
    ensures
        occurrences(cross_module_warnings(sv, groups, cfg), w) == 0,
    decreases groups.len(),
{
    if cfg.strict_module_boundaries && groups.len() > 0 {
        lemma_cross_has_no_file_warning(sv, groups.drop_last(), cfg, w);
        let prev = cross_module_warnings(sv, groups.drop_last(), cfg);
        let (m, fs) = groups.last();
        if !sv.modules.contains(m) && sv.modules.len() > 0 {
            let c = DriftWarningView::CrossModuleChange { source_module: sv.modules[0], target_module: m, files: fs };
            assert(prev.push(c).drop_last() =~= prev);
            assert(prev.push(c).last() != w);
        }
    }
}

/// The warnings one file draws, counted per occurrence of the file.
proof fn lemma_file_warning_counts(sv: ExpectedScopeView, files: Seq<Seq<char>>, cfg: FocusConfig, f: Seq<char>)
    ensures
        occurrences(
            file_warnings(sv, files, cfg),
            DriftWarningView::UnexpectedFile {
                file: f,
                severity: WarningSeverity::Low,
                reason: "File in expected module but not explicitly listed"@,
            },
        ) == if cfg.warn_on_unexpected_files && classify(sv, f) == FileClassification::SameModule {
            occurrences(files, f)
        } else {
            0
        },
        occurrences(
            file_warnings(sv, files, cfg),
            DriftWarningView::UnexpectedFile { file: f, severity: WarningSeverity::High, reason: "File outside expected scope"@ },
        ) == if cfg.strict_module_boundaries && classify(sv, f) == FileClassification::Unexpected {
            occurrences(files, f)
        } else {
            0
        },
        occurrences(
            file_warnings(sv, files, cfg),
            DriftWarningView::UnexpectedFile { file: f, severity: WarningSeverity::Medium, reason: "File outside expected scope"@ },
        ) == if !cfg.strict_module_boundaries && classify(sv, f) == FileClassification::Unexpected {
            occurrences(files, f)
        } else {
            0
        },
    decreases files.len(),
{
    reveal_strlit("File in expected module but not explicitly listed");
    reveal_strlit("File outside expected scope");
    if files.len() > 0 {
        lemma_file_warning_counts(sv, files.drop_last(), cfg, f);
        let prev = file_warnings(sv, files.drop_last(), cfg);
        let p = files.last();
        match classify(sv, p) {
            FileClassification::SameModule => {
                if cfg.warn_on_unexpected_files {
                    let w = DriftWarningView::UnexpectedFile { file: p, severity: WarningSeverity::Low, reason: same_module_reason() };
                    assert(prev.push(w).drop_last() =~= prev);
                }
            },
            FileClassification::Unexpected => {
                let w = DriftWarningView::UnexpectedFile {
                    file: p,
                    severity: if cfg.strict_module_boundaries { WarningSeverity::High } else { WarningSeverity::Medium },
                    reason: outside_scope_reason(),
                };
                assert(prev.push(w).drop_last() =~= prev);
            },
            _ => {},
        }
    }
}

/// What a finished task's changed files draw, file by file: a file inside
/// an expected module but not listed draws one low-severity warning per
/// change when such files are to be warned about, and none otherwise; a
/// file outside the scope draws one warning per change, of high severity
/// under strict module boundaries and of medium severity otherwise; a
/// listed file draws none. So, under strict module boundaries, a task
/// that changed a file outside its scope never passes.
pub proof fn lemma_completion_file_warnings(s: TaskScopeView, files: Seq<Seq<char>>, cfg: FocusConfig, f: Seq<char>)
    ensures
        occurrences(
            completion_warnings(s, files, cfg),
            DriftWarningView::UnexpectedFile {
                file: f,
                severity: WarningSeverity::Low,
                reason: "File in expected module but not explicitly listed"@,
            },
        ) == if cfg.warn_on_unexpected_files && classify(s.expected, f) == FileClassification::SameModule {
            occurrences(files, f)
        } else {
            0
        },
        occurrences(
            completion_warnings(s, files, cfg),
            DriftWarningView::UnexpectedFile { file: f, severity: WarningSeverity::High, reason: "File outside expected scope"@ },
        ) == if cfg.strict_module_boundaries && classify(s.expected, f) == FileClassification::Unexpected {
            occurrences(files, f)
        } else {
            0
        },
        occurrences(
            completion_warnings(s, files, cfg),
            DriftWarningView::UnexpectedFile { file: f, severity: WarningSeverity::Medium, reason: "File outside expected scope"@ },
        ) == if !cfg.strict_module_boundaries && classify(s.expected, f) == FileClassification::Unexpected {
            occurrences(files, f)
        } else {
            0
        },
        cfg.strict_module_boundaries && files.contains(f) && classify(s.expected, f) == FileClassification::Unexpected
            ==> !no_high(completion_warnings(s, files, cfg)),
{
    let sv = s.expected;
    let per_file = file_warnings(sv, files, cfg);
    let switches = if s.context_switches > cfg.max_context_switches {
        seq![DriftWarningView::TooManyContextSwitches {
            count: s.context_switches,
            threshold: cfg.max_context_switches,
            modules: s.modules_visited,
        }]
    } else {
        Seq::empty()
    };
    let cross = cross_module_warnings(sv, module_groups(files), cfg);
    let unexpected = unexpected_files(sv, files);
    let ec = expected_count(sv);
    let base: int = if ec < 1 { 1 } else { ec as int };
    let creep = if unexpected.len() > 0 && files.len() > base * 2 {
        seq![DriftWarningView::ScopeCreep { expected_files: ec, actual_files: #[verifier::truncate] (files.len() as usize), unexpected }]
    } else {
        Seq::empty()
    };
    let cw = completion_warnings(s, files, cfg);
    assert(cw == per_file + switches + cross + creep);
    lemma_file_warning_counts(sv, files, cfg, f);
    let ws = seq![
        DriftWarningView::UnexpectedFile {
            file: f,
            severity: WarningSeverity::Low,
            reason: "File in expected module but not explicitly listed"@,
        },
        DriftWarningView::UnexpectedFile { file: f, severity: WarningSeverity::High, reason: "File outside expected scope"@ },
        DriftWarningView::UnexpectedFile { file: f, severity: WarningSeverity::Medium, reason: "File outside expected scope"@ },
    ];
    assert forall|k: int| 0 <= k < 3 implies occurrences(cw, #[trigger] ws[k]) == occurrences(per_file, ws[k]) by {
        let w = ws[k];
        lemma_occurrences_concat(per_file + switches + cross, creep, w);
        lemma_occurrences_concat(per_file + switches, cross, w);
        lemma_occurrences_concat(per_file, switches, w);
        lemma_cross_has_no_file_warning(sv, module_groups(files), cfg, w);
        if switches.len() > 0 {
            assert(switches.drop_last() =~= Seq::<DriftWarningView>::empty());
            assert(occurrences(switches.drop_last(), w) == 0);
            assert(switches.last() != w);
        }
        assert(occurrences(switches, w) == 0);
        if creep.len() > 0 {
            assert(creep.drop_last() =~= Seq::<DriftWarningView>::empty());
            assert(occurrences(creep.drop_last(), w) == 0);
            assert(creep.last() != w);
        }
        assert(occurrences(creep, w) == 0);
    }
    assert(occurrences(cw, ws[0]) == occurrences(per_file, ws[0]));
    assert(occurrences(cw, ws[1]) == occurrences(per_file, ws[1]));
    assert(occurrences(cw, ws[2]) == occurrences(per_file, ws[2]));
    if cfg.strict_module_boundaries && files.contains(f) && classify(sv, f) == FileClassification::Unexpected {
        let i = choose|i: int| 0 <= i < files.len() && files[i] == f;
        lemma_occurrences_positive(files, f, i);
        lemma_occurrence_index(cw, ws[1]);
    }
}

proof fn lemma_occurrences_positive<A>(s: Seq<A>, x: A, i: int)
    requires
        0 <= i < s.len(),
        s[i] == x,
    ensures
        occurrences(s, x) > 0,
    decreases s.len(),
{
    if i < s.len() - 1 {
        assert(s.drop_last()[i] == s[i]);
        lemma_occurrences_positive(s.drop_last(), x, i);
    }
}

proof fn lemma_occurrence_index(s: Seq<DriftWarningView>, x: DriftWarningView)
    requires
        occurrences(s, x) > 0,
        x matches DriftWarningView::UnexpectedFile { severity, .. } && severity == WarningSeverity::High,
    ensures
        !no_high(s),
    decreases s.len(),
{
    if s.last() == x {
        assert(severity_of(s[s.len() - 1]) == WarningSeverity::High);
    } else {
        lemma_occurrence_index(s.drop_last(), x);
        let t = choose|t: int| 0 <= t < s.drop_last().len() && severity_of(#[trigger] s.drop_last()[t]) == WarningSeverity::High;
        assert(s[t] == s.drop_last()[t]);
    }
}

} // verus!
