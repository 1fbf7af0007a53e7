//! Complexity calibration: recorded examples of past estimates, the few of
//! them shown to the model, and workspace detection results.

use vstd::prelude::*;
use crate::paths::{join_path, path_join};
use crate::text::{
    byte_prefix, chars_of, decimal, lowercase, push_decimal, push_str, string_from_chars, to_lowercase, truncate_at_boundary,
};
use crate::tier::ComplexityTier;

verus! {

broadcast use vstd::string::group_string_axioms;

/// Tier values as the model writes them in a structured answer.
#[derive(Debug, Clone, Copy, PartialEq, Eq, Structural)]
pub enum ComplexityTierValue {
    Trivial,
    Simple,
    Complex,
}

/// Structured answer of a complexity assessment.
#[derive(Debug)]
pub struct ComplexityResult {
    pub tier: ComplexityTierValue,
    pub reasoning: Option<String>,
}

/// Workspace or monorepo layouts that can be detected.
#[derive(Debug, Clone, Copy, PartialEq, Eq, Structural)]
pub enum WorkspaceType {
    CargoWorkspace,
    NpmWorkspace,
    YarnWorkspace,
    PnpmWorkspace,
    NxMonorepo,
    Turborepo,
    Lerna,
    GradleMultiProject,
    MavenMultiModule,
    BazelBuck,
    GoWorkspace,
    Unknown,
}

/// How a workspace layout was detected.
#[derive(Debug, Clone, Copy, PartialEq, Eq, Structural)]
pub enum WorkspaceDetectionConfidence {
    ManifestVerified,
    Heuristic,
}

/// The name of a workspace type, as `{:?}` prints it.
pub open spec fn workspace_name(w: WorkspaceType) -> Seq<char> {
    match w {
        WorkspaceType::CargoWorkspace => "CargoWorkspace"@,
        WorkspaceType::NpmWorkspace => "NpmWorkspace"@,
        WorkspaceType::YarnWorkspace => "YarnWorkspace"@,
        WorkspaceType::PnpmWorkspace => "PnpmWorkspace"@,
        WorkspaceType::NxMonorepo => "NxMonorepo"@,
        WorkspaceType::Turborepo => "Turborepo"@,
        WorkspaceType::Lerna => "Lerna"@,
        WorkspaceType::GradleMultiProject => "GradleMultiProject"@,
        WorkspaceType::MavenMultiModule => "MavenMultiModule"@,
        WorkspaceType::BazelBuck => "BazelBuck"@,
        WorkspaceType::GoWorkspace => "GoWorkspace"@,
        WorkspaceType::Unknown => "Unknown"@,
    }
}

pub open spec fn workspace_text(w: WorkspaceType) -> Seq<char> {
    if w == WorkspaceType::Unknown {
        "Unknown monorepo structure (detected via directory patterns - package count may be inaccurate)"@
    } else {
        workspace_name(w) + " workspace (verified via manifest file)"@
    }
}

impl WorkspaceType {
    /// Layouts found through a manifest file are verified; the rest is a guess.
    pub fn detection_confidence(&self) -> (c: WorkspaceDetectionConfidence)
        ensures
            c == (if *self == WorkspaceType::Unknown {
                WorkspaceDetectionConfidence::Heuristic
            } else {
                WorkspaceDetectionConfidence::ManifestVerified
            }),
    {
        match self {
            WorkspaceType::Unknown => WorkspaceDetectionConfidence::Heuristic,
            _ => WorkspaceDetectionConfidence::ManifestVerified,
        }
    }

    fn name(&self) -> (s: &'static str)
        ensures
            s@ == workspace_name(*self),
    {
        match self {
            WorkspaceType::CargoWorkspace => "CargoWorkspace",
            WorkspaceType::NpmWorkspace => "NpmWorkspace",
            WorkspaceType::YarnWorkspace => "YarnWorkspace",
            WorkspaceType::PnpmWorkspace => "PnpmWorkspace",
            WorkspaceType::NxMonorepo => "NxMonorepo",
            WorkspaceType::Turborepo => "Turborepo",
            WorkspaceType::Lerna => "Lerna",
            WorkspaceType::GradleMultiProject => "GradleMultiProject",
            WorkspaceType::MavenMultiModule => "MavenMultiModule",
            WorkspaceType::BazelBuck => "BazelBuck",
            WorkspaceType::GoWorkspace => "GoWorkspace",
            WorkspaceType::Unknown => "Unknown",
        }
    }

    /// Description of the layout for the model.
    pub fn format_for_llm(&self) -> (s: String)
        ensures
            s@ == workspace_text(*self),
    {
        match self {
            WorkspaceType::Unknown =>
                "Unknown monorepo structure (detected via directory patterns - package count may be inaccurate)".to_string(),
            _ => {
                let mut s = self.name().to_string();
                push_str(&mut s, " workspace (verified via manifest file)");
                s
            },
        }
    }
}

/// A recorded estimate and the tier the task turned out to need.
#[derive(Debug, Clone)]
pub struct ComplexityExample {
    pub description: String,
    pub estimated_tier: ComplexityTier,
    pub actual_tier: ComplexityTier,
    pub files_affected: usize,
    pub reasoning: String,
}

pub open spec fn tier_upper(t: ComplexityTier) -> Seq<char> {
    match t {
        ComplexityTier::Trivial => "TRIVIAL"@,
        ComplexityTier::Simple => "SIMPLE"@,
        ComplexityTier::Complex => "COMPLEX"@,
    }
}

/// One example line: the description cut to sixty bytes, the tier it
/// needed and the number of files it touched.
pub open spec fn example_line(e: ComplexityExample) -> Seq<char> {
    "- \""@ + byte_prefix(e.description@, 60) + "\" → "@ + tier_upper(e.actual_tier) + " ("@
        + decimal(e.files_affected as nat) + " files)"@
}

/// A string cut to at most `max_len` bytes, between two characters.
fn truncate(s: &str, max_len: usize) -> (t: String)
    ensures
        t@ == byte_prefix(s@, max_len as nat),
{
    truncate_at_boundary(s, max_len)
}

impl ComplexityExample {
    /// The estimate matched the tier the task needed.
    pub fn was_correct(&self) -> (b: bool)
        ensures
            b == (self.estimated_tier == self.actual_tier),
    {
        self.estimated_tier == self.actual_tier
    }

    /// The example as a line of the calibration section.
    pub fn format_for_llm(&self) -> (s: String)
        ensures
            s@ == example_line(*self),
    {
        let tier_str = match self.actual_tier {
            ComplexityTier::Trivial => "TRIVIAL",
            ComplexityTier::Simple => "SIMPLE",
            ComplexityTier::Complex => "COMPLEX",
        };
        let mut s = String::new();
        push_str(&mut s, "- \"");
        let d = truncate_at_boundary(self.description.as_str(), 60);
        push_str(&mut s, d.as_str());
        push_str(&mut s, "\" → ");
        push_str(&mut s, tier_str);
        push_str(&mut s, " (");
        push_decimal(&mut s, self.files_affected as u64);
        push_str(&mut s, " files)");
        s
    }

    /// The example as a line of a prompt; the same text as `format_for_llm`.
    pub fn format_for_prompt(&self) -> (s: String)
        ensures
            s@ == example_line(*self),
    {
        let tier_str = match self.actual_tier {
            ComplexityTier::Trivial => "TRIVIAL",
            ComplexityTier::Simple => "SIMPLE",
            ComplexityTier::Complex => "COMPLEX",
        };
        let mut s = String::new();
        push_str(&mut s, "- \"");
        let d = truncate(self.description.as_str(), 60);
        push_str(&mut s, d.as_str());
        push_str(&mut s, "\" → ");
        push_str(&mut s, tier_str);
        push_str(&mut s, " (");
        push_decimal(&mut s, self.files_affected as u64);
        push_str(&mut s, " files)");
        s
    }
}

/// Name of the file, under the pilot directory, that holds the examples,
/// one JSON object per line.
pub open spec fn examples_file_name() -> Seq<char> {
    "complexity_examples.jsonl"@
}

/// The correctly estimated examples that needed tier `t`, in order.
pub open spec fn correct_of_tier(es: Seq<ComplexityExample>, t: ComplexityTier) -> Seq<ComplexityExample>
    decreases es.len(),
{
    if es.len() == 0 {
        Seq::empty()
    } else {
        let e = es.last();
        let rest = correct_of_tier(es.drop_last(), t);
        if e.actual_tier == t && e.estimated_tier == e.actual_tier {
            rest.push(e)
        } else {
            rest
        }
    }
}

/// The first `n` items of `s`, or all of them when there are fewer.
pub open spec fn at_most<A>(s: Seq<A>, n: nat) -> Seq<A> {
    if n < s.len() {
        s.take(n as int)
    } else {
        s
    }
}

/// The examples shown for tier `t`: the first `max` correct ones.
pub open spec fn shown_of_tier(es: Seq<ComplexityExample>, t: ComplexityTier, max: nat) -> Seq<ComplexityExample> {
    at_most(correct_of_tier(es, t), max)
}

/// The examples selected for calibration: up to `max` correct ones of each
/// tier, trivial first, then simple, then complex.
pub open spec fn selected_examples(es: Seq<ComplexityExample>, max: nat) -> Seq<ComplexityExample> {
    shown_of_tier(es, ComplexityTier::Trivial, max) + shown_of_tier(es, ComplexityTier::Simple, max)
        + shown_of_tier(es, ComplexityTier::Complex, max)
}

proof fn lemma_correct_of_tier(es: Seq<ComplexityExample>, t: ComplexityTier)
    ensures
        forall|i: int| 0 <= i < correct_of_tier(es, t).len() ==> {
            let e = #[trigger] correct_of_tier(es, t)[i];
            e.actual_tier == t && e.estimated_tier == t
        },
    decreases es.len(),
{
    if es.len() > 0 {
        lemma_correct_of_tier(es.drop_last(), t);
        let rest = correct_of_tier(es.drop_last(), t);
        let e = es.last();
        if e.actual_tier == t && e.estimated_tier == e.actual_tier {
            assert forall|i: int| 0 <= i < rest.push(e).len() implies {
                let x = #[trigger] rest.push(e)[i];
                x.actual_tier == t && x.estimated_tier == t
            } by {
                if i < rest.len() {
                    assert(rest.push(e)[i] == rest[i]);
                }
            }
        }
    }
}

/// The examples shown for a tier needed that tier and were estimated
/// correctly, and there are at most `max` of them; the whole selection
/// holds only correct estimates, at most `max` per tier.
pub proof fn lemma_selection(es: Seq<ComplexityExample>, max: nat, t: ComplexityTier)
    ensures
        shown_of_tier(es, t, max).len() <= max,
        forall|i: int| 0 <= i < shown_of_tier(es, t, max).len() ==> {
            let e = #[trigger] shown_of_tier(es, t, max)[i];
            e.actual_tier == t && e.estimated_tier == t
        },
        selected_examples(es, max).len() <= 3 * max,
        forall|i: int| 0 <= i < selected_examples(es, max).len() ==> {
            let e = #[trigger] selected_examples(es, max)[i];
            e.estimated_tier == e.actual_tier
        },
{
    lemma_correct_of_tier(es, t);
    lemma_correct_of_tier(es, ComplexityTier::Trivial);
    lemma_correct_of_tier(es, ComplexityTier::Simple);
    lemma_correct_of_tier(es, ComplexityTier::Complex);
    let a = shown_of_tier(es, ComplexityTier::Trivial, max);
    let b = shown_of_tier(es, ComplexityTier::Simple, max);
    let c = shown_of_tier(es, ComplexityTier::Complex, max);
    assert forall|i: int| 0 <= i < shown_of_tier(es, t, max).len() implies {
        let e = #[trigger] shown_of_tier(es, t, max)[i];
        e.actual_tier == t && e.estimated_tier == t
    } by {
        assert(shown_of_tier(es, t, max)[i] == correct_of_tier(es, t)[i]);
    }
    assert forall|i: int| 0 <= i < selected_examples(es, max).len() implies {
        let e = #[trigger] selected_examples(es, max)[i];
        e.estimated_tier == e.actual_tier
    } by {
        let sel = selected_examples(es, max);
        if i < a.len() {
            assert(sel[i] == a[i]);
            assert(a[i] == correct_of_tier(es, ComplexityTier::Trivial)[i]);
        } else if i < a.len() + b.len() {
            assert(sel[i] == b[i - a.len()]);
            assert(b[i - a.len()] == correct_of_tier(es, ComplexityTier::Simple)[i - a.len()]);
        } else {
            assert(sel[i] == c[i - a.len() - b.len()]);
            assert(c[i - a.len() - b.len()] == correct_of_tier(es, ComplexityTier::Complex)[i - a.len() - b.len()]);
        }
    }
}

pub open spec fn example_lines(es: Seq<ComplexityExample>) -> Seq<char>
    decreases es.len(),
{
    if es.len() == 0 {
        Seq::empty()
    } else {
        example_lines(es.drop_last()) + example_line(es.last()) + "\n"@
    }
}

pub open spec fn tier_group(head: Seq<char>, es: Seq<ComplexityExample>) -> Seq<char> {
    if es.len() == 0 {
        Seq::empty()
    } else {
        head + example_lines(es)
    }
}

/// The calibration section: a heading, then one group of lines per tier
/// that has selected examples; empty when none is selected.
pub open spec fn examples_section(es: Seq<ComplexityExample>, max: nat) -> Seq<char> {
    if selected_examples(es, max).len() == 0 {
        Seq::empty()
    } else {
        "\n## Project-Specific Examples\n\n"@
            + tier_group("**TRIVIAL** (from this project):\n"@, shown_of_tier(es, ComplexityTier::Trivial, max))
            + tier_group("\n**SIMPLE** (from this project):\n"@, shown_of_tier(es, ComplexityTier::Simple, max))
            + tier_group("\n**COMPLEX** (from this project):\n"@, shown_of_tier(es, ComplexityTier::Complex, max))
    }
}

pub open spec fn example_refs(v: Seq<&ComplexityExample>) -> Seq<ComplexityExample> {
    v.map_values(|e: &ComplexityExample| *e)
}

/// Stores and selects complexity examples for calibrating the model.
pub struct ComplexityExampleStore {
    examples_file: String,
    max_examples_per_tier: usize,
}

impl ComplexityExampleStore {
    pub closed spec fn file(&self) -> Seq<char> {
        self.examples_file@
    }

    pub closed spec fn max_per_tier(&self) -> nat {
        self.max_examples_per_tier as nat
    }

    /// A store whose examples live in `pilot_dir`, showing three per tier.
    pub fn new(pilot_dir: &str) -> (s: Self)
        ensures
            s.file() == path_join(pilot_dir@, examples_file_name()),
            s.max_per_tier() == 3,
    {
        ComplexityExampleStore {
            examples_file: join_path(pilot_dir, "complexity_examples.jsonl"),
            max_examples_per_tier: 3,
        }
    }

    /// The same store, showing at most `max_per_tier` examples of each tier.
    pub fn with_max_examples(self, max_per_tier: usize) -> (s: Self)
        ensures
            s.file() == self.file(),
            s.max_per_tier() == max_per_tier,
    {
        ComplexityExampleStore { examples_file: self.examples_file, max_examples_per_tier: max_per_tier }
    }

    /// Path of the file that holds the recorded examples.
    pub fn examples_file(&self) -> (p: &str)
        ensures
            p@ == self.file(),
    {
        self.examples_file.as_str()
    }

    /// Appends to `out` the first `self.max_examples_per_tier` correct
    /// examples of tier `t`.
    fn collect_tier<'a>(&self, examples: &'a [ComplexityExample], t: ComplexityTier, out: &mut Vec<&'a ComplexityExample>)
        ensures
            example_refs(final(out)@) == example_refs(old(out)@) + shown_of_tier(examples@, t, self.max_per_tier()),
    {
        let ghost es = examples@;
        let ghost base = example_refs(out@);
        let max = self.max_examples_per_tier;
        let mut taken: usize = 0;
        let mut i: usize = 0;
        proof {
            assert(es.subrange(0, 0) =~= Seq::<ComplexityExample>::empty());
            assert(base + at_most(correct_of_tier(es.subrange(0, 0), t), max as nat) =~= base);
        }
        while i < examples.len()
            invariant
                0 <= i <= examples.len(),
                es == examples@,
                max == self.max_per_tier(),
                taken as nat == at_most(correct_of_tier(es.subrange(0, i as int), t), max as nat).len(),
                taken <= max,
                example_refs(out@) == base + at_most(correct_of_tier(es.subrange(0, i as int), t), max as nat),
            decreases examples.len() - i,
        {
            let ghost pre = es.subrange(0, i as int);
            let ghost cur = es.subrange(0, i + 1);
            let ghost before = example_refs(out@);
            proof {
                assert(cur.drop_last() =~= pre);
                assert(cur.last() == es[i as int]);
            }
            let e = &examples[i];
            if e.actual_tier == t && e.estimated_tier == e.actual_tier {
                if taken < max {
                    out.push(e);
                    taken = taken + 1;
                    proof {
                        let c = correct_of_tier(pre, t);
                        assert(correct_of_tier(cur, t) == c.push(es[i as int]));
                        assert(at_most(c, max as nat) == c);
                        assert(at_most(c.push(es[i as int]), max as nat) =~= c.push(es[i as int]));
                        assert(example_refs(out@) =~= before.push(*e));
                    }
                } else {
                    proof {
                        let c = correct_of_tier(pre, t);
                        assert(correct_of_tier(cur, t) == c.push(es[i as int]));
                        assert(c.len() >= max);
                        assert(at_most(c.push(es[i as int]), max as nat) =~= at_most(c, max as nat));
                    }
                }
            }
            i = i + 1;
        }
        proof {
            assert(es.subrange(0, examples.len() as int) =~= es);
        }
    }

    /// Up to the configured number of correctly estimated examples of each
    /// tier: trivial first, then simple, then complex, each in the order given.
    pub fn select_examples<'a>(&self, examples: &'a [ComplexityExample]) -> (v: Vec<&'a ComplexityExample>)
        ensures
            example_refs(v@) == selected_examples(examples@, self.max_per_tier()),
    {
        let mut v: Vec<&'a ComplexityExample> = Vec::new();
        proof {
            assert(example_refs(v@) =~= Seq::<ComplexityExample>::empty());
        }
        self.collect_tier(examples, ComplexityTier::Trivial, &mut v);
        self.collect_tier(examples, ComplexityTier::Simple, &mut v);
        self.collect_tier(examples, ComplexityTier::Complex, &mut v);
        v
    }

    fn push_group(out: &mut String, head: &str, group: &Vec<&ComplexityExample>)
        ensures
            final(out)@ == old(out)@ + tier_group(head@, example_refs(group@)),
    {
        let ghost gs = example_refs(group@);
        if group.len() == 0 {
            proof {
                assert(old(out)@ + tier_group(head@, gs) =~= old(out)@);
            }
            return;
        }
        push_str(out, head);
        let ghost start = out@;
        let mut i: usize = 0;
        proof {
            assert(gs.subrange(0, 0) =~= Seq::<ComplexityExample>::empty());
            assert(out@ =~= start + example_lines(gs.subrange(0, 0)));
        }
        while i < group.len()
            invariant
                0 <= i <= group.len(),
                gs == example_refs(group@),
                out@ == start + example_lines(gs.subrange(0, i as int)),
            decreases group.len() - i,
        {
            let line = group[i].format_for_llm();
            push_str(out, line.as_str());
            push_str(out, "\n");
            proof {
                let q = gs.subrange(0, i + 1);
                assert(q.drop_last() =~= gs.subrange(0, i as int));
                assert(q.last() == *group@[i as int]);
                assert(out@ =~= start + example_lines(q));
            }
            i = i + 1;
        }
        proof {
            assert(gs.subrange(0, group.len() as int) =~= gs);
        }
    }

    /// The calibration section for the prompt, or an empty string when no
    /// example qualifies.
    pub fn format_examples_section(&self, examples: &[ComplexityExample]) -> (s: String)
        ensures
            s@ == examples_section(examples@, self.max_per_tier()),
    {
        let mut trivial: Vec<&ComplexityExample> = Vec::new();
        let mut simple: Vec<&ComplexityExample> = Vec::new();
        let mut complex: Vec<&ComplexityExample> = Vec::new();
        proof {
            assert(example_refs(trivial@) =~= Seq::<ComplexityExample>::empty());
            assert(example_refs(simple@) =~= Seq::<ComplexityExample>::empty());
            assert(example_refs(complex@) =~= Seq::<ComplexityExample>::empty());
        }
        self.collect_tier(examples, ComplexityTier::Trivial, &mut trivial);
        self.collect_tier(examples, ComplexityTier::Simple, &mut simple);
        self.collect_tier(examples, ComplexityTier::Complex, &mut complex);
        if trivial.len() == 0 && simple.len() == 0 && complex.len() == 0 {
            return String::new();
        }
        let mut section = String::new();
        push_str(&mut section, "\n## Project-Specific Examples\n\n");
        Self::push_group(&mut section, "**TRIVIAL** (from this project):\n", &trivial);
        Self::push_group(&mut section, "\n**SIMPLE** (from this project):\n", &simple);
        Self::push_group(&mut section, "\n**COMPLEX** (from this project):\n", &complex);
        section
    }
}

} // verus!

verus! {

/// How many `/` separators a path has.
pub open spec fn slash_count(s: Seq<char>) -> nat
    decreases s.len(),
{
    if s.len() == 0 {
        0
    } else {
        slash_count(s.drop_last()) + if s.last() == '/' {
            1nat
        } else {
            0nat
        }
    }
}

/// The part of a path after its last `/` (all of it when it has none).
pub open spec fn last_segment(s: Seq<char>) -> Seq<char>
    decreases s.len(),
{
    if s.len() == 0 || s.last() == '/' {
        Seq::empty()
    } else {
        last_segment(s.drop_last()).push(s.last())
    }
}

/// The workspace layout a (lower-cased) root file name reveals, if any.
pub open spec fn workspace_named(n: Seq<char>) -> Option<WorkspaceType> {
    if n == "pnpm-workspace.yaml"@ {
        Some(WorkspaceType::PnpmWorkspace)
    } else if n == "nx.json"@ {
        Some(WorkspaceType::NxMonorepo)
    } else if n == "turbo.json"@ {
        Some(WorkspaceType::Turborepo)
    } else if n == "lerna.json"@ {
        Some(WorkspaceType::Lerna)
    } else if n == "go.work"@ {
        Some(WorkspaceType::GoWorkspace)
    } else if n == "workspace"@ || n == "workspace.bazel"@ {
        Some(WorkspaceType::BazelBuck)
    } else {
        None
    }
}

/// The layout revealed by the first file, at the root or one directory
/// down, whose lower-cased name marks a workspace.
pub open spec fn workspace_from_files(ps: Seq<Seq<char>>) -> Option<WorkspaceType>
    decreases ps.len(),
{
    if ps.len() == 0 {
        None
    } else if slash_count(ps[0]) <= 1 && workspace_named(lowercase(last_segment(ps[0]))) is Some {
        workspace_named(lowercase(last_segment(ps[0])))
    } else {
        workspace_from_files(ps.drop_first())
    }
}

/// The workspace layout a lower-cased root file name reveals, if any.
pub fn workspace_named_by(name: &str) -> (r: Option<WorkspaceType>)
    ensures
        r == workspace_named(name@),
{
    let n = name.to_string();
    if n == "pnpm-workspace.yaml".to_string() {
        Some(WorkspaceType::PnpmWorkspace)
    } else if n == "nx.json".to_string() {
        Some(WorkspaceType::NxMonorepo)
    } else if n == "turbo.json".to_string() {
        Some(WorkspaceType::Turborepo)
    } else if n == "lerna.json".to_string() {
        Some(WorkspaceType::Lerna)
    } else if n == "go.work".to_string() {
        Some(WorkspaceType::GoWorkspace)
    } else if n == "workspace".to_string() || n == "workspace.bazel".to_string() {
        Some(WorkspaceType::BazelBuck)
    } else {
        None
    }
}

/// The separators of a path and the part after the last one.
fn split_last(path: &str) -> (r: (usize, String))
    ensures
        r.0 == slash_count(path@),
        r.1@ == last_segment(path@),
{
    let cs = chars_of(path);
    let mut count: usize = 0;
    let mut seg: Vec<char> = Vec::new();
    let mut i: usize = 0;
    proof {
        assert(cs@.subrange(0, 0) =~= Seq::<char>::empty());
    }
    while i < cs.len()
        invariant
            0 <= i <= cs.len(),
            cs@ == path@,
            count == slash_count(cs@.subrange(0, i as int)),
            count <= i,
            seg@ == last_segment(cs@.subrange(0, i as int)),
        decreases cs.len() - i,
    {
        let ghost q = cs@.subrange(0, i + 1);
        proof {
            assert(q.drop_last() =~= cs@.subrange(0, i as int));
            assert(q.last() == cs@[i as int]);
        }
        if cs[i] == '/' {
            count = count + 1;
            seg = Vec::new();
            proof {
                assert(seg@ =~= Seq::<char>::empty());
            }
        } else {
            seg.push(cs[i]);
        }
        i = i + 1;
    }
    proof {
        assert(cs@.subrange(0, cs.len() as int) =~= cs@);
    }
    (count, string_from_chars(&seg))
}

/// The workspace layout the relevant files reveal: the first file at the
/// root or one directory down whose lower-cased name is a workspace
/// marker (`pnpm-workspace.yaml`, `nx.json`, `turbo.json`, `lerna.json`,
/// `go.work`, `WORKSPACE`, `WORKSPACE.bazel`).
pub fn detect_workspace_from_files(paths: &Vec<String>) -> (r: Option<WorkspaceType>)
    ensures
        r == workspace_from_files(paths@.map_values(|p: String| p@)),
{
    let ghost ps = paths@.map_values(|p: String| p@);
    let mut i: usize = 0;
    proof {
        assert(ps.subrange(0, ps.len() as int) =~= ps);
    }
    while i < paths.len()
        invariant
            0 <= i <= paths.len(),
            ps == paths@.map_values(|p: String| p@),
            workspace_from_files(ps) == workspace_from_files(ps.subrange(i as int, ps.len() as int)),
        decreases paths.len() - i,
    {
        let ghost rest = ps.subrange(i as int, ps.len() as int);
        proof {
            assert(rest[0] == paths@[i as int]@);
            assert(rest.drop_first() =~= ps.subrange(i + 1, ps.len() as int));
        }
        let (depth, name) = split_last(paths[i].as_str());
        if depth <= 1 {
            let lower = to_lowercase(name.as_str());
            let found = workspace_named_by(lower.as_str());
            if found.is_some() {
                return found;
            }
        }
        i = i + 1;
    }
    None
}

} // verus!

verus! {

/// The part of a path before its first `/` (all of it when it has none).
pub open spec fn first_segment(s: Seq<char>) -> Seq<char>
    decreases s.len(),
{
    if s.len() == 0 || s[0] == '/' {
        Seq::empty()
    } else {
        seq![s[0]] + first_segment(s.drop_first())
    }
}

/// The top-level directory of a path, with a trailing `/`.
pub open spec fn top_dir(p: Seq<char>) -> Seq<char> {
    first_segment(p) + "/"@
}

/// How many of `ps` lie under the top-level directory `d`.
pub open spec fn dir_count(ps: Seq<Seq<char>>, d: Seq<char>) -> nat
    decreases ps.len(),
{
    if ps.len() == 0 {
        0
    } else {
        dir_count(ps.drop_last(), d) + if top_dir(ps.last()) == d {
            1nat
        } else {
            0nat
        }
    }
}

/// `dist` is the directory distribution of `ps`: one entry per top-level
/// directory of the paths, none twice, each with the number of paths under
/// it, most populated first.
pub open spec fn is_distribution(dist: Seq<(Seq<char>, nat)>, ps: Seq<Seq<char>>) -> bool {
    &&& forall|i: int, j: int| 0 <= i < j < dist.len() ==> dist[i].0 != dist[j].0
    &&& forall|i: int, j: int| 0 <= i < j < dist.len() ==> dist[i].1 >= dist[j].1
    &&& forall|i: int| 0 <= i < dist.len() ==> (#[trigger] dist[i]).1 == dir_count(ps, dist[i].0)
    &&& forall|d: Seq<char>| #![trigger lists_dir(dist, d)] #![trigger holds_dir(ps, d)] lists_dir(dist, d) <==> holds_dir(ps, d)
}

/// Some entry of `dist` is for directory `d`.
pub open spec fn lists_dir(dist: Seq<(Seq<char>, nat)>, d: Seq<char>) -> bool {
    exists|i: int| 0 <= i < dist.len() && (#[trigger] dist[i]).0 == d
}

/// Some path of `ps` lies under the top-level directory `d`.
pub open spec fn holds_dir(ps: Seq<Seq<char>>, d: Seq<char>) -> bool {
    exists|k: int| 0 <= k < ps.len() && top_dir(#[trigger] ps[k]) == d
}

/// The top-level directory of a path, with a trailing `/`.
fn top_level_dir(path: &str) -> (d: String)
    ensures
        d@ == top_dir(path@),
{
    let cs = chars_of(path);
    let mut seg: Vec<char> = Vec::new();
    let mut i: usize = 0;
    while i < cs.len() && cs[i] != '/'
        invariant
            0 <= i <= cs.len(),
            cs@ == path@,
            forall|k: int| 0 <= k < i ==> cs@[k] != '/',
            seg@ == cs@.subrange(0, i as int),
        decreases cs.len() - i,
    {
        seg.push(cs[i]);
        proof {
            assert(seg@ =~= cs@.subrange(0, i + 1));
        }
        i = i + 1;
    }
    proof {
        lemma_first_segment(cs@, i as int);
    }
    let mut d = string_from_chars(&seg);
    push_str(&mut d, "/");
    d
}

/// The first segment is the run of characters before the first `/`.
proof fn lemma_first_segment(s: Seq<char>, i: int)
    requires
        0 <= i <= s.len(),
        forall|k: int| 0 <= k < i ==> s[k] != '/',
        i == s.len() || s[i] == '/',
    ensures
        first_segment(s) == s.subrange(0, i),
    decreases i,
{
    if i > 0 {
        let t = s.drop_first();
        assert forall|k: int| 0 <= k < i - 1 implies t[k] != '/' by {
            assert(t[k] == s[k + 1]);
        }
        if i < s.len() {
            assert(t[i - 1] == s[i]);
        }
        lemma_first_segment(t, i - 1);
        assert(seq![s[0]] + t.subrange(0, i - 1) =~= s.subrange(0, i));
    } else {
        assert(s.subrange(0, 0) =~= Seq::<char>::empty());
    }
}

} // verus!

verus! {

/// A directory distribution as values.
pub open spec fn dist_view(v: Seq<(String, usize)>) -> Seq<(Seq<char>, nat)> {
    v.map_values(|e: (String, usize)| (e.0@, e.1 as nat))
}

/// Some path among the first `k` lies under the top-level directory `d`.
pub open spec fn among_first(paths: Seq<String>, k: int, d: Seq<char>) -> bool {
    exists|j: int| 0 <= j < k && top_dir(#[trigger] paths[j]@) == d
}

/// Some key of `keys` is `d`.
pub open spec fn key_listed(keys: Seq<String>, d: Seq<char>) -> bool {
    exists|i: int| 0 <= i < keys.len() && (#[trigger] keys[i])@ == d
}

/// The distinct top-level directories of the paths, each where it first
/// occurs, with `tops[k]` the directory of path `k`.
fn distinct_dirs(paths: &Vec<String>) -> (r: (Vec<String>, Vec<String>))
    ensures
        r.1@.len() == paths@.len(),
        forall|k: int| 0 <= k < paths@.len() ==> (#[trigger] r.1@[k])@ == top_dir(paths@[k]@),
        forall|i: int, j: int| 0 <= i < j < r.0@.len() ==> r.0@[i]@ != r.0@[j]@,
        forall|i: int| 0 <= i < r.0@.len() ==> among_first(paths@, paths@.len() as int, (#[trigger] r.0@[i])@),
        forall|k: int| 0 <= k < paths@.len() ==> key_listed(r.0@, #[trigger] top_dir(paths@[k]@)),
{
    let mut keys: Vec<String> = Vec::new();
    let mut tops: Vec<String> = Vec::new();
    let mut k: usize = 0;
    while k < paths.len()
        invariant
            0 <= k <= paths.len(),
            tops@.len() == k,
            forall|j: int| 0 <= j < k ==> (#[trigger] tops@[j])@ == top_dir(paths@[j]@),
            forall|i: int, j: int| 0 <= i < j < keys@.len() ==> keys@[i]@ != keys@[j]@,
            forall|i: int| 0 <= i < keys@.len() ==> among_first(paths@, k as int, (#[trigger] keys@[i])@),
            forall|j: int| 0 <= j < k ==> key_listed(keys@, #[trigger] top_dir(paths@[j]@)),
        decreases paths.len() - k,
    {
        let t = top_level_dir(paths[k].as_str());
        let mut found = false;
        let mut i: usize = 0;
        while i < keys.len()
            invariant
                0 <= i <= keys.len(),
                found == exists|j: int| 0 <= j < i && (#[trigger] keys@[j])@ == t@,
            decreases keys.len() - i,
        {
            if keys[i] == t {
                found = true;
            }
            i = i + 1;
        }
        let ghost kb = keys@;
        if !found {
            keys.push(t.clone());
            proof {
                assert(keys@[kb.len() as int]@ == top_dir(paths@[k as int]@));
                assert forall|i: int| 0 <= i < keys@.len() implies among_first(paths@, k + 1, (#[trigger] keys@[i])@) by {
                    if i < kb.len() {
                        assert(keys@[i] == kb[i]);
                        assert(among_first(paths@, k as int, kb[i]@));
                        let j = choose|j: int| 0 <= j < k && top_dir(#[trigger] paths@[j]@) == kb[i]@;
                        assert(top_dir(paths@[j]@) == keys@[i]@);
                    } else {
                        assert(top_dir(paths@[k as int]@) == keys@[i]@);
                    }
                }
                assert forall|j: int| 0 <= j < k + 1 implies key_listed(keys@, #[trigger] top_dir(paths@[j]@)) by {
                    if j < k {
                        assert(key_listed(kb, top_dir(paths@[j]@)));
                        let i0 = choose|i: int| 0 <= i < kb.len() && (#[trigger] kb[i])@ == top_dir(paths@[j]@);
                        assert(keys@[i0] == kb[i0]);
                    } else {
                        assert(keys@[kb.len() as int]@ == top_dir(paths@[j]@));
                    }
                }
            }
        } else {
            proof {
                assert(key_listed(keys@, t@));
            }
        }
        tops.push(t);
        k = k + 1;
    }
    (keys, tops)
}

} // verus!

verus! {

/// How many of `tops` equal `d`, where `tops[k]` is the directory of path `k`.
fn count_dir(tops: &Vec<String>, d: &String, Ghost(ps): Ghost<Seq<Seq<char>>>) -> (n: usize)
    requires
        tops@.len() == ps.len(),
        forall|k: int| 0 <= k < ps.len() ==> (#[trigger] tops@[k])@ == top_dir(ps[k]),
    ensures
        n == dir_count(ps, d@),
        n <= ps.len(),
{
    let mut n: usize = 0;
    let mut k: usize = 0;
    while k < tops.len()
        invariant
            0 <= k <= tops.len(),
            tops@.len() == ps.len(),
            forall|j: int| 0 <= j < ps.len() ==> (#[trigger] tops@[j])@ == top_dir(ps[j]),
            n == dir_count(ps.subrange(0, k as int), d@),
            n <= k,
        decreases tops.len() - k,
    {
        proof {
            let q = ps.subrange(0, k + 1);
            assert(q.drop_last() =~= ps.subrange(0, k as int));
            assert(q.last() == ps[k as int]);
            assert(tops@[k as int]@ == top_dir(ps[k as int]));
        }
        if tops[k] == *d {
            n = n + 1;
        }
        k = k + 1;
    }
    proof {
        assert(ps.subrange(0, ps.len() as int) =~= ps);
    }
    n
}

} // verus!

verus! {

/// `x` is one of the first `n` entries of `es`.
pub open spec fn among_entries(es: Seq<(Seq<char>, nat)>, n: int, x: (Seq<char>, nat)) -> bool {
    exists|j: int| 0 <= j < n && #[trigger] es[j] == x
}

/// A path under `d` makes `d` count at least once.
proof fn lemma_dir_count_pos(ps: Seq<Seq<char>>, k: int)
    requires
        0 <= k < ps.len(),
    ensures
        dir_count(ps, top_dir(ps[k])) >= 1,
    decreases ps.len(),
{
    if k < ps.len() - 1 {
        assert(ps.drop_last()[k] == ps[k]);
        lemma_dir_count_pos(ps.drop_last(), k);
    }
}

/// The directory distribution of the paths: one entry per top-level
/// directory, with the number of paths under it, most populated first.
pub fn directory_distribution(paths: &Vec<String>) -> (dist: Vec<(String, usize)>)
    ensures
        is_distribution(dist_view(dist@), paths@.map_values(|p: String| p@)),
{
    let ghost ps = paths@.map_values(|p: String| p@);
    let (keys, tops) = distinct_dirs(paths);
    proof {
        assert forall|k: int| 0 <= k < ps.len() implies (#[trigger] tops@[k])@ == top_dir(ps[k]) by {
            assert(ps[k] == paths@[k]@);
        }
    }
    let mut es: Vec<(String, usize)> = Vec::new();
    let mut i: usize = 0;
    while i < keys.len()
        invariant
            0 <= i <= keys.len(),
            tops@.len() == ps.len(),
            ps == paths@.map_values(|p: String| p@),
            forall|k: int| 0 <= k < ps.len() ==> (#[trigger] tops@[k])@ == top_dir(ps[k]),
            es@.len() == i,
            forall|j: int| 0 <= j < i ==> (#[trigger] dist_view(es@)[j]).0 == keys@[j]@,
            forall|j: int| 0 <= j < i ==> (#[trigger] dist_view(es@)[j]).1 == dir_count(ps, keys@[j]@),
            forall|j: int| 0 <= j < i ==> (#[trigger] dist_view(es@)[j]).1 <= ps.len(),
        decreases keys.len() - i,
    {
        let c = count_dir(&tops, &keys[i], Ghost(ps));
        let ghost before = dist_view(es@);
        es.push((keys[i].clone(), c));
        proof {
            assert(dist_view(es@) =~= before.push((keys@[i as int]@, c as nat)));
        }
        i = i + 1;
    }
    let ghost ev = dist_view(es@);
    proof {
        assert forall|j: int| 0 <= j < ev.len() implies (#[trigger] ev[j]).1 >= 1 by {
            assert(among_first(paths@, paths@.len() as int, keys@[j]@));
            let k = choose|k: int| 0 <= k < paths@.len() && top_dir(#[trigger] paths@[k]@) == keys@[j]@;
            assert(ps[k] == paths@[k]@);
            lemma_dir_count_pos(ps, k);
        }
    }
    let n = paths.len();
    let mut r: Vec<(String, usize)> = Vec::new();
    let mut c: usize = n;
    while c > 0
        invariant
            0 <= c <= n,
            n == ps.len(),
            ev == dist_view(es@),
            ev.len() == keys@.len(),
            forall|j: int| 0 <= j < ev.len() ==> (#[trigger] ev[j]).0 == keys@[j]@,
            forall|a: int, b: int| 0 <= a < b < keys@.len() ==> keys@[a]@ != keys@[b]@,
            forall|j: int| 0 <= j < ev.len() ==> 1 <= (#[trigger] ev[j]).1 <= n,
            forall|a: int, b: int| 0 <= a < b < dist_view(r@).len() ==> dist_view(r@)[a].0 != dist_view(r@)[b].0,
            forall|a: int, b: int| 0 <= a < b < dist_view(r@).len() ==> dist_view(r@)[a].1 >= dist_view(r@)[b].1,
            forall|a: int| 0 <= a < dist_view(r@).len() ==> (#[trigger] dist_view(r@)[a]).1 > c,
            forall|a: int| 0 <= a < dist_view(r@).len() ==> among_entries(ev, ev.len() as int, #[trigger] dist_view(r@)[a]),
            forall|j: int| 0 <= j < ev.len() && (#[trigger] ev[j]).1 > c ==> among_entries(dist_view(r@), dist_view(r@).len() as int, ev[j]),
        decreases c,
    {
        let mut e: usize = 0;
        while e < es.len()
            invariant
                0 <= e <= es.len(),
                1 <= c <= n,
                ev == dist_view(es@),
                ev.len() == keys@.len(),
                forall|j: int| 0 <= j < ev.len() ==> (#[trigger] ev[j]).0 == keys@[j]@,
                forall|a: int, b: int| 0 <= a < b < keys@.len() ==> keys@[a]@ != keys@[b]@,
                forall|a: int, b: int| 0 <= a < b < dist_view(r@).len() ==> dist_view(r@)[a].0 != dist_view(r@)[b].0,
                forall|a: int, b: int| 0 <= a < b < dist_view(r@).len() ==> dist_view(r@)[a].1 >= dist_view(r@)[b].1,
                forall|a: int| 0 <= a < dist_view(r@).len() ==> (#[trigger] dist_view(r@)[a]).1 >= c,
                forall|a: int| 0 <= a < dist_view(r@).len() ==> among_entries(ev, ev.len() as int, #[trigger] dist_view(r@)[a]),
                forall|a: int| 0 <= a < dist_view(r@).len() && (#[trigger] dist_view(r@)[a]).1 == c ==> among_entries(ev, e as int, dist_view(r@)[a]),
                forall|j: int| 0 <= j < ev.len() && ((#[trigger] ev[j]).1 > c || (ev[j].1 == c && j < e)) ==> among_entries(dist_view(r@), dist_view(r@).len() as int, ev[j]),
            decreases es.len() - e,
        {
            if es[e].1 == c {
                let ghost rb = dist_view(r@);
                let ghost x = ev[e as int];
                r.push((es[e].0.clone(), es[e].1));
                proof {
                    let rv = dist_view(r@);
                    assert(rv =~= rb.push(x));
                    assert forall|a: int, b: int| 0 <= a < b < rv.len() implies rv[a].0 != rv[b].0 by {
                        if b == rb.len() {
                            assert(rv[a] == rb[a]);
                            assert(among_entries(ev, ev.len() as int, rb[a]));
                            let j = choose|j: int| 0 <= j < ev.len() && #[trigger] ev[j] == rb[a];
                            if rb[a].1 == c {
                                assert(among_entries(ev, e as int, rb[a]));
                                let j2 = choose|j2: int| 0 <= j2 < e && #[trigger] ev[j2] == rb[a];
                                assert(keys@[j2]@ != keys@[e as int]@);
                            } else {
                                assert(j != e);
                                if j < e {
                                    assert(keys@[j]@ != keys@[e as int]@);
                                } else {
                                    assert(keys@[e as int]@ != keys@[j]@);
                                }
                            }
                        } else {
                            assert(rv[a] == rb[a]);
                            assert(rv[b] == rb[b]);
                        }
                    }
                    assert forall|a: int| 0 <= a < rv.len() implies among_entries(ev, ev.len() as int, #[trigger] rv[a]) by {
                        if a < rb.len() {
                            assert(rv[a] == rb[a]);
                        } else {
                            assert(ev[e as int] == rv[a]);
                        }
                    }
                    assert forall|a: int| 0 <= a < rv.len() && (#[trigger] rv[a]).1 == c implies among_entries(ev, e + 1, rv[a]) by {
                        if a < rb.len() {
                            assert(rv[a] == rb[a]);
                            assert(among_entries(ev, e as int, rb[a]));
                            let j = choose|j: int| 0 <= j < e && #[trigger] ev[j] == rb[a];
                            assert(ev[j] == rv[a]);
                        } else {
                            assert(ev[e as int] == rv[a]);
                        }
                    }
                    assert forall|j: int| 0 <= j < ev.len() && ((#[trigger] ev[j]).1 > c || (ev[j].1 == c && j < e + 1)) implies among_entries(rv, rv.len() as int, ev[j]) by {
                        if j == e {
                            assert(rv[rb.len() as int] == ev[j]);
                        } else {
                            assert(among_entries(rb, rb.len() as int, ev[j]));
                            let a = choose|a: int| 0 <= a < rb.len() && #[trigger] rb[a] == ev[j];
                            assert(rv[a] == rb[a]);
                        }
                    }
                }
            } else {
                proof {
                    let rv = dist_view(r@);
                    assert forall|a: int| 0 <= a < rv.len() && (#[trigger] rv[a]).1 == c implies among_entries(ev, e + 1, rv[a]) by {
                        assert(among_entries(ev, e as int, rv[a]));
                        let j = choose|j: int| 0 <= j < e && #[trigger] ev[j] == rv[a];
                    }
                }
            }
            e = e + 1;
        }
        c = c - 1;
    }
    proof {
        let rv = dist_view(r@);
        assert forall|a: int| 0 <= a < rv.len() implies (#[trigger] rv[a]).1 == dir_count(ps, rv[a].0) by {
            assert(among_entries(ev, ev.len() as int, rv[a]));
            let j = choose|j: int| 0 <= j < ev.len() && #[trigger] ev[j] == rv[a];
            assert(dist_view(es@)[j].1 == dir_count(ps, keys@[j]@));
        }
        assert forall|d: Seq<char>| #[trigger] lists_dir(rv, d) <==> holds_dir(ps, d) by {
            if lists_dir(rv, d) {
                let a = choose|a: int| 0 <= a < rv.len() && (#[trigger] rv[a]).0 == d;
                assert(among_entries(ev, ev.len() as int, rv[a]));
                let j = choose|j: int| 0 <= j < ev.len() && #[trigger] ev[j] == rv[a];
                assert(among_first(paths@, paths@.len() as int, keys@[j]@));
                let k = choose|k: int| 0 <= k < paths@.len() && top_dir(#[trigger] paths@[k]@) == keys@[j]@;
                assert(ps[k] == paths@[k]@);
            }
            if holds_dir(ps, d) {
                let k = choose|k: int| 0 <= k < ps.len() && top_dir(#[trigger] ps[k]) == d;
                assert(ps[k] == paths@[k]@);
                assert(key_listed(keys@, top_dir(paths@[k]@)));
                let i0 = choose|i0: int| 0 <= i0 < keys@.len() && (#[trigger] keys@[i0])@ == top_dir(paths@[k]@);
                assert(ev[i0].1 > 0);
                assert(among_entries(rv, rv.len() as int, ev[i0]));
                let a = choose|a: int| 0 <= a < rv.len() && #[trigger] rv[a] == ev[i0];
                assert(rv[a].0 == d);
            }
        }
    }
    r
}

} // verus!

verus! {

/// `l` stands in `s` as a line of its own, starting at index `at`: a line
/// break comes just before it and just after it.
pub open spec fn line_at(s: Seq<char>, at: int, l: Seq<char>) -> bool {
    &&& 0 < at
    &&& at + l.len() < s.len()
    &&& s[at - 1] == '\n'
    &&& s.subrange(at, at + l.len()) == l
    &&& s[at + l.len()] == '\n'
}

proof fn lemma_lines_concat(a: Seq<ComplexityExample>, b: Seq<ComplexityExample>)
    ensures
        example_lines(a + b) == example_lines(a) + example_lines(b),
    decreases b.len(),
{
    if b.len() == 0 {
        assert(a + b =~= a);
        assert(example_lines(a) + example_lines(b) =~= example_lines(a));
    } else {
        lemma_lines_concat(a, b.drop_last());
        assert((a + b).drop_last() =~= a + b.drop_last());
        assert((a + b).last() == b.last());
        assert(example_lines(a + b) =~= example_lines(a) + example_lines(b));
    }
}

/// Where the line of `es[i]` starts within `tier_group(head, es)`.
pub open spec fn group_line_start(head: Seq<char>, es: Seq<ComplexityExample>, i: int) -> int {
    (head.len() + example_lines(es.take(i)).len()) as int
}

proof fn lemma_group_line(head: Seq<char>, es: Seq<ComplexityExample>, i: int)
    requires
        head.len() > 0,
        head.last() == '\n',
        0 <= i < es.len(),
    ensures
        line_at(tier_group(head, es), group_line_start(head, es, i), example_line(es[i])),
        forall|k: int| i < k < es.len() ==> group_line_start(head, es, i) < group_line_start(head, es, k),
{
    let l = example_line(es[i]);
    let pre = es.take(i);
    let post = es.skip(i + 1);
    assert(es =~= pre + seq![es[i]] + post);
    lemma_lines_concat(pre + seq![es[i]], post);
    lemma_lines_concat(pre, seq![es[i]]);
    assert(seq![es[i]].drop_last() =~= Seq::<ComplexityExample>::empty());
    assert(seq![es[i]].last() == es[i]);
    assert(example_lines(Seq::<ComplexityExample>::empty()) == Seq::<char>::empty());
    assert(example_lines(seq![es[i]]) =~= Seq::<char>::empty() + l + "\n"@);
    assert(example_lines(seq![es[i]]) =~= l + "\n"@);
    let lp = example_lines(pre);
    let g = tier_group(head, es);
    reveal_strlit("\n");
    assert(g =~= head + lp + l + "\n"@ + example_lines(post));
    let at = (head.len() + lp.len()) as int;
    assert(g.subrange(at, at + l.len()) =~= l);
    assert(g[at + l.len()] == '\n');
    if i == 0 {
        assert(lp =~= Seq::<char>::empty());
        assert(g[at - 1] == head[head.len() - 1]);
    } else {
        assert(pre =~= es.take(i - 1) + seq![es[i - 1]]);
        lemma_lines_concat(es.take(i - 1), seq![es[i - 1]]);
        assert(seq![es[i - 1]].drop_last() =~= Seq::<ComplexityExample>::empty());
        assert(seq![es[i - 1]].last() == es[i - 1]);
        assert(example_lines(seq![es[i - 1]]) =~= Seq::<char>::empty() + example_line(es[i - 1]) + "\n"@);
        let lq = example_lines(es.take(i - 1));
        assert(lp =~= lq + example_line(es[i - 1]) + "\n"@);
        assert(g[at - 1] == lp[lp.len() - 1]);
    }
    assert forall|k: int| i < k < es.len() implies group_line_start(head, es, i) < group_line_start(head, es, k) by {
        assert(es.take(k) =~= es.take(i + 1) + es.subrange(i + 1, k));
        lemma_lines_concat(es.take(i + 1), es.subrange(i + 1, k));
        assert(es.take(i + 1) =~= pre + seq![es[i]]);
    }
}

proof fn lemma_line_in_context(pre: Seq<char>, g: Seq<char>, post: Seq<char>, at: int, l: Seq<char>)
    requires
        line_at(g, at, l),
    ensures
        line_at(pre + g + post, pre.len() + at, l),
{
    let s = pre + g + post;
    let b = pre.len() + at;
    assert(s[b - 1] == g[at - 1]);
    assert(s[b + l.len()] == g[at + l.len()]);
    assert(s.subrange(b, b + l.len()) =~= g.subrange(at, at + l.len()));
}

pub open spec fn section_heading() -> Seq<char> {
    "\n## Project-Specific Examples\n\n"@
}

pub open spec fn trivial_heading() -> Seq<char> {
    "**TRIVIAL** (from this project):\n"@
}

pub open spec fn simple_heading() -> Seq<char> {
    "\n**SIMPLE** (from this project):\n"@
}

pub open spec fn complex_heading() -> Seq<char> {
    "\n**COMPLEX** (from this project):\n"@
}

/// Where the line of the `i`-th selected example starts in the section.
pub open spec fn example_line_start(es: Seq<ComplexityExample>, max: nat, i: int) -> int {
    let t = shown_of_tier(es, ComplexityTier::Trivial, max);
    let s = shown_of_tier(es, ComplexityTier::Simple, max);
    let c = shown_of_tier(es, ComplexityTier::Complex, max);
    let g1 = tier_group(trivial_heading(), t);
    let g2 = tier_group(simple_heading(), s);
    if i < t.len() {
        section_heading().len() + group_line_start(trivial_heading(), t, i)
    } else if i < t.len() + s.len() {
        section_heading().len() + g1.len() + group_line_start(simple_heading(), s, i - t.len())
    } else {
        section_heading().len() + g1.len() + g2.len() + group_line_start(complex_heading(), c, i - t.len() - s.len())
    }
}

/// The calibration section is empty exactly when no example is selected.
/// Otherwise it opens with its heading, and each selected example stands
/// on a line of its own, in the order of selection: trivial ones first,
/// then simple, then complex.
pub proof fn lemma_examples_section_shape(es: Seq<ComplexityExample>, max: nat)
    ensures
        (examples_section(es, max).len() == 0) == (selected_examples(es, max).len() == 0),
        selected_examples(es, max).len() > 0 ==> examples_section(es, max).subrange(0, section_heading().len() as int)
            == section_heading(),
        forall|i: int| 0 <= i < selected_examples(es, max).len() ==> line_at(
            examples_section(es, max),
            example_line_start(es, max, i),
            example_line(#[trigger] selected_examples(es, max)[i]),
        ),
        forall|i: int, k: int| 0 <= i < k < selected_examples(es, max).len() ==> example_line_start(es, max, i)
            < example_line_start(es, max, k),
{
    reveal_strlit("\n## Project-Specific Examples\n\n");
    reveal_strlit("**TRIVIAL** (from this project):\n");
    reveal_strlit("\n**SIMPLE** (from this project):\n");
    reveal_strlit("\n**COMPLEX** (from this project):\n");
    let h = section_heading();
    let ht = trivial_heading();
    let hs = simple_heading();
    let hc = complex_heading();
    let t = shown_of_tier(es, ComplexityTier::Trivial, max);
    let s = shown_of_tier(es, ComplexityTier::Simple, max);
    let c = shown_of_tier(es, ComplexityTier::Complex, max);
    let sel = selected_examples(es, max);
    let g1 = tier_group(ht, t);
    let g2 = tier_group(hs, s);
    let g3 = tier_group(hc, c);
    let sec = examples_section(es, max);
    assert(ht.last() == '\n');
    assert(hs.last() == '\n');
    assert(hc.last() == '\n');
    if sel.len() > 0 {
        assert(sec == h + g1 + g2 + g3);
        assert(sec.subrange(0, h.len() as int) =~= h);
        assert forall|i: int| 0 <= i < sel.len() implies line_at(
            sec,
            example_line_start(es, max, i),
            example_line(#[trigger] sel[i]),
        ) by {
            if i < t.len() {
                assert(sel[i] == t[i]);
                lemma_group_line(ht, t, i);
                lemma_line_in_context(h, g1, g2 + g3, group_line_start(ht, t, i), example_line(t[i]));
                assert(h + g1 + (g2 + g3) =~= sec);
            } else if i < t.len() + s.len() {
                let j = i - t.len();
                assert(sel[i] == s[j]);
                lemma_group_line(hs, s, j);
                lemma_line_in_context(h + g1, g2, g3, group_line_start(hs, s, j), example_line(s[j]));
            } else {
                let j = i - t.len() - s.len();
                assert(sel[i] == c[j]);
                lemma_group_line(hc, c, j);
                lemma_line_in_context(h + g1 + g2, g3, Seq::empty(), group_line_start(hc, c, j), example_line(c[j]));
                assert(h + g1 + g2 + g3 + Seq::<char>::empty() =~= sec);
            }
        }
        assert forall|i: int, k: int| 0 <= i < k < sel.len() implies example_line_start(es, max, i)
            < example_line_start(es, max, k) by {
            if i < t.len() {
                lemma_group_line(ht, t, i);
                if k >= t.len() {
                    assert(group_line_start(ht, t, i) + example_line(t[i]).len() < g1.len());
                }
            } else if i < t.len() + s.len() {
                lemma_group_line(hs, s, i - t.len());
                if k >= t.len() + s.len() {
                    assert(group_line_start(hs, s, i - t.len()) + example_line(s[i - t.len()]).len() < g2.len());
                }
            } else {
                lemma_group_line(hc, c, i - t.len() - s.len());
            }
        }
    } else {
        assert(sec.len() == 0);
    }
}

} // verus!
