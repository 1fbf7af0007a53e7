//! The evidence report handed to the planner, in full and cut to a token
//! budget.

use vstd::prelude::*;
use crate::evidence::{string_views, confidence_line, describable, category_label, category_of, Dependency, EvidenceSource, SuggestedDependency};
use crate::lifecycle::Timestamp;
use crate::text::{byte_prefix, chars_of, cut_on_boundary, decimal, utf8_width_of, lemma_byte_prefix, push_decimal, push_str, truncate_at_boundary, utf8_len};

verus! {

broadcast use vstd::string::group_string_axioms;

/// The quality figures of the evidence, as the report prints them.
#[derive(Debug, Clone)]
pub struct QualityFigures {
    /// Quality score in tenths of a percent (printed with one decimal).
    pub quality_tenths: u64,
    /// Quality score in whole percent.
    pub quality_pct: u64,
    pub total_items: usize,
    pub verifiable_items: usize,
    /// Share of verifiable items, in whole percent.
    pub verifiable_pct: u64,
    /// Average confidence, in whole percent.
    pub avg_confidence_pct: u64,
    /// Evidence sources with their item counts.
    pub source_breakdown: Vec<(String, usize)>,
    pub low_confidence_items: Vec<String>,
}

/// A file found relevant, with where it was found and how confident the
/// finding is (`confidence_key` orders items by confidence).
#[derive(Debug, Clone)]
pub struct FileEvidence {
    pub path: String,
    pub relevance: String,
    pub source: EvidenceSource,
    pub confidence_key: u64,
}

/// A skill or rule from prior knowledge; `confidence_pct` is its confidence
/// in whole percent and `confidence_key` orders items by confidence.
#[derive(Debug, Clone)]
pub struct KnowledgeItem {
    pub name: String,
    pub relevance: String,
    pub confidence_pct: u64,
    pub confidence_key: u64,
}

/// Everything the evidence report prints.
#[derive(Debug, Clone)]
pub struct EvidenceDigest {
    pub gathered_at: Timestamp,
    pub quality: QualityFigures,
    pub files: Vec<FileEvidence>,
    pub patterns: Vec<String>,
    pub conventions: Vec<String>,
    pub affected_areas: Vec<String>,
    pub dependencies: Vec<Dependency>,
    pub suggested: Vec<SuggestedDependency>,
    pub skills: Vec<KnowledgeItem>,
    pub rules: Vec<KnowledgeItem>,
    pub similar_patterns: Vec<String>,
}

/// How the budgeted summary shares out its tokens.
#[derive(Debug, Clone, Copy)]
pub struct EvidenceBudget {
    /// Below this many tokens left after the header, no section is written.
    pub min_budget_threshold: usize,
    pub file_budget_percent: usize,
    pub pattern_budget_percent: usize,
    pub dependency_budget_percent: usize,
    pub knowledge_budget_percent: usize,
    pub max_dependencies_display: usize,
    /// Skills and rules whose confidence key is below this one are left out.
    pub min_confidence_key: u64,
    /// Characters per token, for the final cut.
    pub token_char_ratio: usize,
    /// Bytes kept free before the truncation mark.
    pub markdown_truncation_buffer: usize,
}

/// A number given in tenths, with one decimal.
pub open spec fn tenths(t: nat) -> Seq<char> {
    decimal(t / 10) + "."@ + decimal(t % 10)
}

/// One line per text, each after `prefix`.
pub open spec fn prefixed_lines(prefix: Seq<char>, xs: Seq<String>) -> Seq<char>
    decreases xs.len(),
{
    if xs.len() == 0 {
        Seq::empty()
    } else {
        prefixed_lines(prefix, xs.drop_last()) + prefix + xs.last()@ + "\n"@
    }
}

pub open spec fn source_lines(xs: Seq<(String, usize)>) -> Seq<char>
    decreases xs.len(),
{
    if xs.len() == 0 {
        Seq::empty()
    } else {
        source_lines(xs.drop_last()) + "- "@ + xs.last().0@ + ": "@ + decimal(xs.last().1 as nat) + " items\n"@
    }
}

pub open spec fn file_lines(xs: Seq<FileEvidence>) -> Seq<char>
    decreases xs.len(),
{
    if xs.len() == 0 {
        Seq::empty()
    } else {
        file_lines(xs.drop_last()) + "- `"@ + xs.last().path@ + "` - "@ + xs.last().relevance@ + " ["@
            + confidence_line(xs.last().source) + "]\n"@
    }
}

pub open spec fn dependency_lines(xs: Seq<Dependency>) -> Seq<char>
    decreases xs.len(),
{
    if xs.len() == 0 {
        Seq::empty()
    } else {
        dependency_lines(xs.drop_last()) + "- "@ + xs.last().name@ + " ("@ + xs.last().version@ + ")\n"@
    }
}

pub open spec fn suggestion_lines(xs: Seq<SuggestedDependency>) -> Seq<char>
    decreases xs.len(),
{
    if xs.len() == 0 {
        Seq::empty()
    } else {
        suggestion_lines(xs.drop_last()) + "- "@ + xs.last().name@ + " - "@ + xs.last().reason@ + "\n"@
    }
}

pub open spec fn knowledge_lines(xs: Seq<KnowledgeItem>) -> Seq<char>
    decreases xs.len(),
{
    if xs.len() == 0 {
        Seq::empty()
    } else {
        knowledge_lines(xs.drop_last()) + "- "@ + xs.last().name@ + " - "@ + xs.last().relevance@ + " (confidence: "@
            + decimal(xs.last().confidence_pct as nat) + "%)\n"@
    }
}

/// `body` under `head` when `nonempty`, else nothing.
pub open spec fn block(nonempty: bool, head: Seq<char>, body: Seq<char>) -> Seq<char> {
    if nonempty {
        head + body
    } else {
        Seq::empty()
    }
}

/// Every source in the digest can be described.
pub open spec fn describable_files(xs: Seq<FileEvidence>) -> bool {
    forall|i: int| 0 <= i < xs.len() ==> describable(#[trigger] xs[i].source)
}

/// The quality figures of the full report.
pub open spec fn figures_text(q: QualityFigures) -> Seq<char> {
    "## Evidence Quality\n\n"@ + "- **Quality Score**: "@ + tenths(q.quality_tenths as nat) + "%\n"@
        + "- **Total Items**: "@ + decimal(q.total_items as nat) + "\n"@ + "- **Verifiable**: "@
        + decimal(q.verifiable_items as nat) + " ("@ + decimal(q.verifiable_pct as nat) + "%)\n"@
        + "- **Avg Confidence**: "@ + decimal(q.avg_confidence_pct as nat) + "%\n\n"@
}

/// The quality section of the full report.
pub open spec fn quality_text(q: QualityFigures) -> Seq<char> {
    figures_text(q)
        + block(q.source_breakdown@.len() > 0, "### Evidence Sources\n\n"@, source_lines(q.source_breakdown@) + "\n"@)
        + block(
        q.low_confidence_items@.len() > 0,
        "### Low Confidence Items\n\n"@,
        prefixed_lines("- ⚠️ "@, q.low_confidence_items@) + "\n"@,
    )
}

/// The codebase section of the full report.
pub open spec fn codebase_text(ev: EvidenceDigest) -> Seq<char> {
    "## Codebase Analysis\n\n"@ + "### Relevant Files\n\n"@ + file_lines(ev.files@)
        + "\n### Existing Patterns\n\n"@ + prefixed_lines("- "@, ev.patterns@) + "\n### Conventions\n\n"@
        + prefixed_lines("- "@, ev.conventions@) + "\n### Affected Areas\n\n"@ + prefixed_lines("- "@, ev.affected_areas@)
}

/// The dependency section of the full report.
pub open spec fn dependencies_text(ev: EvidenceDigest) -> Seq<char> {
    "\n## Dependency Analysis\n\n"@ + "### Current Dependencies\n\n"@ + dependency_lines(ev.dependencies@)
        + block(ev.suggested@.len() > 0, "\n### Suggested Additions\n\n"@, suggestion_lines(ev.suggested@))
}

/// The prior-knowledge section of the full report.
pub open spec fn knowledge_text(ev: EvidenceDigest) -> Seq<char> {
    "\n## Prior Knowledge\n\n"@
        + block(ev.skills@.len() > 0, "### Relevant Skills\n\n"@, knowledge_lines(ev.skills@))
        + block(ev.rules@.len() > 0, "\n### Relevant Rules\n\n"@, knowledge_lines(ev.rules@))
        + block(ev.similar_patterns@.len() > 0, "\n### Similar Patterns\n\n"@, prefixed_lines("- "@, ev.similar_patterns@))
}

/// The full evidence report, with `stamp` as the time it was gathered.
pub open spec fn report_text(ev: EvidenceDigest, stamp: Seq<char>) -> Seq<char> {
    "# Evidence Report\n\n"@ + "**Gathered At**: "@ + stamp + "\n\n"@ + quality_text(ev.quality) + codebase_text(ev)
        + dependencies_text(ev) + knowledge_text(ev)
}

/// The text `chrono` prints for the UTC instant `secs` seconds and `nanos`
/// nanoseconds after the epoch in the format `%Y-%m-%d %H:%M:%S UTC`, or
/// `None` when the instant lies beyond the dates chrono represents.
pub uninterp spec fn utc_stamp(secs: i64, nanos: u32) -> Option<Seq<char>>;

/// `chrono::DateTime::<Utc>::from_timestamp` followed by `format` with
/// `%Y-%m-%d %H:%M:%S UTC`: the text is named by `utc_stamp`, a function
/// of the instant alone (UTC, no locale).
#[verifier::external_body]
fn format_utc(t: Timestamp) -> (r: Option<String>)
    ensures
        utc_stamp(t.secs, t.nanos) == match r {
            Some(s) => Some(s@),
            None => None,
        },
{
    match chrono::DateTime::from_timestamp(t.secs, t.nanos) {
        Some(d) => Some(d.format("%Y-%m-%d %H:%M:%S UTC").to_string()),
        None => None,
    }
}

fn push_prefixed(out: &mut String, prefix: &str, xs: &Vec<String>)
    ensures
        final(out)@ == old(out)@ + prefixed_lines(prefix@, xs@),
{
    let ghost o = out@;
    let mut i: usize = 0;
    while i < xs.len()
        invariant
            0 <= i <= xs.len(),
            out@ == o + prefixed_lines(prefix@, xs@.take(i as int)),
        decreases xs.len() - i,
    {
        proof {
            assert(xs@.take(i + 1).drop_last() =~= xs@.take(i as int));
        }
        push_str(out, prefix);
        push_str(out, xs[i].as_str());
        push_str(out, "\n");
        i = i + 1;
    }
    proof {
        assert(xs@.take(xs.len() as int) =~= xs@);
    }
}

fn push_sources(out: &mut String, xs: &Vec<(String, usize)>)
    ensures
        final(out)@ == old(out)@ + source_lines(xs@),
{
    let ghost o = out@;
    let mut i: usize = 0;
    while i < xs.len()
        invariant
            0 <= i <= xs.len(),
            out@ == o + source_lines(xs@.take(i as int)),
        decreases xs.len() - i,
    {
        proof {
            assert(xs@.take(i + 1).drop_last() =~= xs@.take(i as int));
        }
        push_str(out, "- ");
        push_str(out, xs[i].0.as_str());
        push_str(out, ": ");
        push_decimal(out, xs[i].1 as u64);
        push_str(out, " items\n");
        i = i + 1;
    }
    proof {
        assert(xs@.take(xs.len() as int) =~= xs@);
    }
}

fn push_files(out: &mut String, xs: &Vec<FileEvidence>)
    requires
        describable_files(xs@),
    ensures
        final(out)@ == old(out)@ + file_lines(xs@),
{
    let ghost o = out@;
    let mut i: usize = 0;
    while i < xs.len()
        invariant
            0 <= i <= xs.len(),
            describable_files(xs@),
            out@ == o + file_lines(xs@.take(i as int)),
        decreases xs.len() - i,
    {
        proof {
            assert(xs@.take(i + 1).drop_last() =~= xs@.take(i as int));
            assert(describable(xs@[i as int].source));
        }
        push_str(out, "- `");
        push_str(out, xs[i].path.as_str());
        push_str(out, "` - ");
        push_str(out, xs[i].relevance.as_str());
        push_str(out, " [");
        let c = xs[i].source.format_confidence_for_llm();
        push_str(out, c.as_str());
        push_str(out, "]\n");
        i = i + 1;
    }
    proof {
        assert(xs@.take(xs.len() as int) =~= xs@);
    }
}

fn push_dependencies(out: &mut String, xs: &Vec<Dependency>)
    ensures
        final(out)@ == old(out)@ + dependency_lines(xs@),
{
    let ghost o = out@;
    let mut i: usize = 0;
    while i < xs.len()
        invariant
            0 <= i <= xs.len(),
            out@ == o + dependency_lines(xs@.take(i as int)),
        decreases xs.len() - i,
    {
        proof {
            assert(xs@.take(i + 1).drop_last() =~= xs@.take(i as int));
        }
        push_str(out, "- ");
        push_str(out, xs[i].name.as_str());
        push_str(out, " (");
        push_str(out, xs[i].version.as_str());
        push_str(out, ")\n");
        i = i + 1;
    }
    proof {
        assert(xs@.take(xs.len() as int) =~= xs@);
    }
}

fn push_suggestions(out: &mut String, xs: &Vec<SuggestedDependency>)
    ensures
        final(out)@ == old(out)@ + suggestion_lines(xs@),
{
    let ghost o = out@;
    let mut i: usize = 0;
    while i < xs.len()
        invariant
            0 <= i <= xs.len(),
            out@ == o + suggestion_lines(xs@.take(i as int)),
        decreases xs.len() - i,
    {
        proof {
            assert(xs@.take(i + 1).drop_last() =~= xs@.take(i as int));
        }
        push_str(out, "- ");
        push_str(out, xs[i].name.as_str());
        push_str(out, " - ");
        push_str(out, xs[i].reason.as_str());
        push_str(out, "\n");
        i = i + 1;
    }
    proof {
        assert(xs@.take(xs.len() as int) =~= xs@);
    }
}

fn push_knowledge(out: &mut String, xs: &Vec<KnowledgeItem>)
    ensures
        final(out)@ == old(out)@ + knowledge_lines(xs@),
{
    let ghost o = out@;
    let mut i: usize = 0;
    while i < xs.len()
        invariant
            0 <= i <= xs.len(),
            out@ == o + knowledge_lines(xs@.take(i as int)),
        decreases xs.len() - i,
    {
        proof {
            assert(xs@.take(i + 1).drop_last() =~= xs@.take(i as int));
        }
        push_str(out, "- ");
        push_str(out, xs[i].name.as_str());
        push_str(out, " - ");
        push_str(out, xs[i].relevance.as_str());
        push_str(out, " (confidence: ");
        push_decimal(out, xs[i].confidence_pct);
        push_str(out, "%)\n");
        i = i + 1;
    }
    proof {
        assert(xs@.take(xs.len() as int) =~= xs@);
    }
}

#[verifier::rlimit(40)]
fn push_figures(out: &mut String, q: &QualityFigures)
    ensures
        final(out)@ == old(out)@ + figures_text(*q),
{
    let ghost o = out@;
    push_str(out, "## Evidence Quality\n\n");
    push_str(out, "- **Quality Score**: ");
    push_decimal(out, q.quality_tenths / 10);
    push_str(out, ".");
    push_decimal(out, q.quality_tenths % 10);
    push_str(out, "%\n");
    let ghost a = out@;
    push_str(out, "- **Total Items**: ");
    push_decimal(out, q.total_items as u64);
    push_str(out, "\n");
    push_str(out, "- **Verifiable**: ");
    push_decimal(out, q.verifiable_items as u64);
    push_str(out, " (");
    push_decimal(out, q.verifiable_pct);
    push_str(out, "%)\n");
    push_str(out, "- **Avg Confidence**: ");
    push_decimal(out, q.avg_confidence_pct);
    push_str(out, "%\n\n");
    proof {
        assert(a =~= o + "## Evidence Quality\n\n"@ + "- **Quality Score**: "@ + tenths(q.quality_tenths as nat) + "%\n"@);
        assert(out@ =~= o + figures_text(*q));
    }
}

fn push_quality(out: &mut String, q: &QualityFigures)
    ensures
        final(out)@ == old(out)@ + quality_text(*q),
{
    let ghost o = out@;
    push_figures(out, q);
    let ghost a = out@;
    if q.source_breakdown.len() > 0 {
        push_str(out, "### Evidence Sources\n\n");
        push_sources(out, &q.source_breakdown);
        push_str(out, "\n");
    }
    proof {
        assert(out@ =~= a + block(q.source_breakdown@.len() > 0, "### Evidence Sources\n\n"@, source_lines(q.source_breakdown@) + "\n"@));
    }
    let ghost b = out@;
    if q.low_confidence_items.len() > 0 {
        push_str(out, "### Low Confidence Items\n\n");
        push_prefixed(out, "- ⚠️ ", &q.low_confidence_items);
        push_str(out, "\n");
    }
    proof {
        assert(out@ =~= b + block(
            q.low_confidence_items@.len() > 0,
            "### Low Confidence Items\n\n"@,
            prefixed_lines("- ⚠️ "@, q.low_confidence_items@) + "\n"@,
        ));
        assert(out@ =~= o + quality_text(*q));
    }
}

fn push_codebase(out: &mut String, ev: &EvidenceDigest)
    requires
        describable_files(ev.files@),
    ensures
        final(out)@ == old(out)@ + codebase_text(*ev),
{
    let ghost o = out@;
    push_str(out, "## Codebase Analysis\n\n");
    push_str(out, "### Relevant Files\n\n");
    push_files(out, &ev.files);
    push_str(out, "\n### Existing Patterns\n\n");
    push_prefixed(out, "- ", &ev.patterns);
    push_str(out, "\n### Conventions\n\n");
    push_prefixed(out, "- ", &ev.conventions);
    push_str(out, "\n### Affected Areas\n\n");
    push_prefixed(out, "- ", &ev.affected_areas);
    proof {
        assert(out@ =~= o + codebase_text(*ev));
    }
}

fn push_dependency_section(out: &mut String, ev: &EvidenceDigest)
    ensures
        final(out)@ == old(out)@ + dependencies_text(*ev),
{
    let ghost o = out@;
    push_str(out, "\n## Dependency Analysis\n\n");
    push_str(out, "### Current Dependencies\n\n");
    push_dependencies(out, &ev.dependencies);
    if ev.suggested.len() > 0 {
        push_str(out, "\n### Suggested Additions\n\n");
        push_suggestions(out, &ev.suggested);
    }
    proof {
        assert(out@ =~= o + dependencies_text(*ev));
    }
}

fn push_knowledge_section(out: &mut String, ev: &EvidenceDigest)
    ensures
        final(out)@ == old(out)@ + knowledge_text(*ev),
{
    let ghost o = out@;
    push_str(out, "\n## Prior Knowledge\n\n");
    if ev.skills.len() > 0 {
        push_str(out, "### Relevant Skills\n\n");
        push_knowledge(out, &ev.skills);
    }
    if ev.rules.len() > 0 {
        push_str(out, "\n### Relevant Rules\n\n");
        push_knowledge(out, &ev.rules);
    }
    if ev.similar_patterns.len() > 0 {
        push_str(out, "\n### Similar Patterns\n\n");
        push_prefixed(out, "- ", &ev.similar_patterns);
    }
    proof {
        assert(out@ =~= o + knowledge_text(*ev));
    }
}

impl EvidenceDigest {
    /// The full evidence report, with `stamp` printed as the time the
    /// evidence was gathered.
    pub fn to_markdown_at(&self, stamp: &str) -> (s: String)
        requires
            describable_files(self.files@),
        ensures
            s@ == report_text(*self, stamp@),
    {
        let mut out = String::new();
        push_str(&mut out, "# Evidence Report\n\n");
        push_str(&mut out, "**Gathered At**: ");
        push_str(&mut out, stamp);
        push_str(&mut out, "\n\n");
        push_quality(&mut out, &self.quality);
        push_codebase(&mut out, self);
        push_dependency_section(&mut out, self);
        push_knowledge_section(&mut out, self);
        proof {
            assert(out@ =~= report_text(*self, stamp@));
        }
        out
    }

    /// The full evidence report, stamped with the time the evidence was
    /// gathered; `None` only when that time lies beyond the dates chrono
    /// represents.
    pub fn to_markdown(&self) -> (r: Option<String>)
        requires
            describable_files(self.files@),
        ensures
            match utc_stamp(self.gathered_at.secs, self.gathered_at.nanos) {
                Some(g) => r matches Some(s) && s@ == report_text(*self, g),
                None => r is None,
            },
    {
        match format_utc(self.gathered_at) {
            Some(stamp) => Some(self.to_markdown_at(stamp.as_str())),
            None => None,
        }
    }
}

} // verus!

verus! {

/// `f` may answer `n` for the text `s`.
pub open spec fn estimates<F: Fn(&str) -> usize>(f: F, s: Seq<char>, n: usize) -> bool {
    exists|t: &str| t@ == s && #[trigger] call_ensures(f, (t,), n)
}

/// What `f` estimates for the text `s`.
pub open spec fn cost_of<F: Fn(&str) -> usize>(f: F, s: Seq<char>) -> nat {
    (choose|n: usize| #[trigger] estimates(f, s, n)) as nat
}

/// `f` can be called on any text and gives the same estimate for the same
/// text every time.
pub open spec fn sound_estimator<F: Fn(&str) -> usize>(f: F) -> bool {
    &&& forall|t: &str| call_requires(f, (t,))
    &&& forall|t1: &str, t2: &str, a: usize, b: usize|
        t1@ == t2@ && #[trigger] call_ensures(f, (t1,), a) && #[trigger] call_ensures(f, (t2,), b) ==> a == b
}

fn cost<F: Fn(&str) -> usize>(f: &F, s: &String) -> (n: usize)
    requires
        sound_estimator(*f),
    ensures
        n == cost_of(*f, s@),
{
    let n = f(s.as_str());
    proof {
        assert(estimates(*f, s@, n));
        let m = choose|m: usize| #[trigger] estimates(*f, s@, m);
        let t2 = choose|t2: &str| t2@ == s@ && #[trigger] call_ensures(*f, (t2,), m);
    }
    n
}

/// The estimates of all lines `ls` together.
pub open spec fn total_cost<F: Fn(&str) -> usize>(f: F, ls: Seq<Seq<char>>) -> nat
    decreases ls.len(),
{
    if ls.len() == 0 {
        0
    } else {
        total_cost(f, ls.drop_last()) + cost_of(f, ls.last())
    }
}

/// How many leading lines of `ls` fit in `budget`: the longest leading run
/// whose estimates add up to at most `budget`.
pub open spec fn fit<F: Fn(&str) -> usize>(f: F, ls: Seq<Seq<char>>, budget: nat) -> nat
    decreases ls.len(),
{
    if total_cost(f, ls) <= budget {
        ls.len()
    } else {
        fit(f, ls.drop_last(), budget)
    }
}

/// The lines one after the other.
pub open spec fn concat(ls: Seq<Seq<char>>) -> Seq<char>
    decreases ls.len(),
{
    if ls.len() == 0 {
        Seq::empty()
    } else {
        concat(ls.drop_last()) + ls.last()
    }
}

/// The leading lines of `ls` that fit in `budget`.
pub open spec fn fitted<F: Fn(&str) -> usize>(f: F, ls: Seq<Seq<char>>, budget: nat) -> Seq<char> {
    concat(ls.take(fit(f, ls, budget) as int))
}

/// What the leading lines of `ls` that fit in `budget` cost.
pub open spec fn fit_cost<F: Fn(&str) -> usize>(f: F, ls: Seq<Seq<char>>, budget: nat) -> nat {
    total_cost(f, ls.take(fit(f, ls, budget) as int))
}

proof fn lemma_total_monotone<F: Fn(&str) -> usize>(f: F, ls: Seq<Seq<char>>, j: int, k: int)
    requires
        0 <= j <= k <= ls.len(),
    ensures
        total_cost(f, ls.take(j)) <= total_cost(f, ls.take(k)),
    decreases k - j,
{
    if j < k {
        lemma_total_monotone(f, ls, j, k - 1);
        assert(ls.take(k).drop_last() =~= ls.take(k - 1));
    }
}

proof fn lemma_fit_at<F: Fn(&str) -> usize>(f: F, ls: Seq<Seq<char>>, budget: nat, i: int)
    requires
        0 <= i <= ls.len(),
        total_cost(f, ls.take(i)) <= budget,
        i < ls.len() ==> total_cost(f, ls.take(i + 1)) > budget,
    ensures
        fit(f, ls, budget) == i,
        fit(f, ls, budget) <= ls.len(),
    decreases ls.len(),
{
    if i == ls.len() {
        assert(ls.take(i) =~= ls);
    } else {
        lemma_total_monotone(f, ls, i + 1, ls.len() as int);
        assert(ls.take(ls.len() as int) =~= ls);
        let d = ls.drop_last();
        assert(d.take(i) =~= ls.take(i));
        if i + 1 < ls.len() {
            assert(d.take(i + 1) =~= ls.take(i + 1));
        }
        lemma_fit_at(f, d, budget, i);
    }
}

/// How many leading lines of `ls` fit in `budget`, and what they cost.
fn count_fitting<F: Fn(&str) -> usize>(ls: &Vec<String>, budget: usize, f: &F) -> (r: (usize, usize))
    requires
        sound_estimator(*f),
    ensures
        r.0 == fit(*f, string_views(ls@), budget as nat),
        r.0 <= ls.len(),
        r.1 == fit_cost(*f, string_views(ls@), budget as nat),
        r.1 <= budget,
{
    let ghost lv = string_views(ls@);
    let mut used: usize = 0;
    let mut i: usize = 0;
    proof {
        assert(lv.take(0) =~= Seq::<Seq<char>>::empty());
    }
    while i < ls.len()
        invariant
            0 <= i <= ls.len(),
            lv == string_views(ls@),
            sound_estimator(*f),
            used <= budget,
            used == total_cost(*f, lv.take(i as int)),
        decreases ls.len() - i,
    {
        let c = cost(f, &ls[i]);
        proof {
            assert(lv.take(i + 1).drop_last() =~= lv.take(i as int));
            assert(lv.take(i + 1).last() == ls@[i as int]@);
        }
        if c > budget - used {
            proof {
                lemma_fit_at(*f, lv, budget as nat, i as int);
            }
            return (i, used);
        }
        used = used + c;
        i = i + 1;
    }
    proof {
        lemma_fit_at(*f, lv, budget as nat, i as int);
    }
    (i, used)
}

/// The lines kept within a budget are the longest leading run that fits:
/// together they cost at most the budget, and taking one more line would
/// not.
pub proof fn lemma_fit_longest<F: Fn(&str) -> usize>(f: F, ls: Seq<Seq<char>>, budget: nat)
    ensures
        fit(f, ls, budget) <= ls.len(),
        total_cost(f, ls.take(fit(f, ls, budget) as int)) <= budget,
        fit(f, ls, budget) < ls.len() ==> total_cost(f, ls.take(fit(f, ls, budget) as int + 1)) > budget,
    decreases ls.len(),
{
    if total_cost(f, ls) <= budget {
        assert(ls.take(ls.len() as int) =~= ls);
    } else {
        let d = ls.drop_last();
        lemma_fit_longest(f, d, budget);
        let k = fit(f, d, budget);
        assert(d.take(k as int) =~= ls.take(k as int));
        if k < d.len() {
            assert(d.take(k as int + 1) =~= ls.take(k as int + 1));
        } else {
            assert(ls.take(k as int + 1) =~= ls);
        }
    }
}

/// Appends the first `k` lines of `ls`.
fn push_first(out: &mut String, ls: &Vec<String>, k: usize)
    requires
        k <= ls.len(),
    ensures
        final(out)@ == old(out)@ + concat(string_views(ls@).take(k as int)),
{
    let ghost lv = string_views(ls@);
    let ghost o = out@;
    let mut i: usize = 0;
    proof {
        assert(lv.take(0) =~= Seq::<Seq<char>>::empty());
    }
    while i < k
        invariant
            0 <= i <= k <= ls.len(),
            lv == string_views(ls@),
            out@ == o + concat(lv.take(i as int)),
        decreases k - i,
    {
        proof {
            assert(lv.take(i + 1).drop_last() =~= lv.take(i as int));
            assert(lv.take(i + 1).last() == ls@[i as int]@);
        }
        push_str(out, ls[i].as_str());
        i = i + 1;
    }
}

/// Appends the leading lines of `ls` that fit in `budget`; returns what
/// they cost and whether all of them fit.
fn push_fitting<F: Fn(&str) -> usize>(out: &mut String, ls: &Vec<String>, budget: usize, f: &F) -> (r: (usize, bool))
    requires
        sound_estimator(*f),
    ensures
        final(out)@ == old(out)@ + fitted(*f, string_views(ls@), budget as nat),
        r.0 == fit_cost(*f, string_views(ls@), budget as nat),
        r.1 == (fit(*f, string_views(ls@), budget as nat) == ls.len()),
        fit(*f, string_views(ls@), budget as nat) <= ls.len(),
        r.0 <= budget,
{
    let (k, used) = count_fitting(ls, budget, f);
    push_first(out, ls, k);
    (used, k == ls.len())
}

/// The indices `0..n` with `i` put after every index whose key is at least
/// its own: one step of a stable sort by descending key.
pub open spec fn insert_by_key(order: Seq<int>, i: int, keys: Seq<u64>) -> Seq<int>
    decreases order.len(),
{
    if order.len() == 0 {
        seq![i]
    } else if keys[order.last()] >= keys[i] {
        order.push(i)
    } else {
        insert_by_key(order.drop_last(), i, keys).push(order.last())
    }
}

/// The indices of the first `n` keys, highest key first, equal keys in
/// their original order.
pub open spec fn by_key_desc(keys: Seq<u64>, n: nat) -> Seq<int>
    decreases n,
{
    if n == 0 {
        Seq::empty()
    } else {
        insert_by_key(by_key_desc(keys, (n - 1) as nat), n - 1, keys)
    }
}

pub open spec fn indices(v: Seq<usize>) -> Seq<int> {
    v.map_values(|x: usize| x as int)
}

proof fn lemma_insert_at(order: Seq<int>, i: int, keys: Seq<u64>, j: int)
    requires
        0 <= j <= order.len(),
        forall|t: int| j <= t < order.len() ==> keys[#[trigger] order[t]] < keys[i],
        j > 0 ==> keys[order[j - 1]] >= keys[i],
    ensures
        insert_by_key(order, i, keys) == order.take(j) + seq![i] + order.skip(j),
    decreases order.len(),
{
    if order.len() == 0 {
        assert(order.take(j) + seq![i] + order.skip(j) =~= seq![i]);
    } else if keys[order.last()] >= keys[i] {
        if j < order.len() {
            assert(keys[order[order.len() - 1]] < keys[i]);
        }
        assert(order.take(j) + seq![i] + order.skip(j) =~= order.push(i));
    } else {
        assert(j < order.len());
        let d = order.drop_last();
        assert forall|t: int| j <= t < d.len() implies keys[#[trigger] d[t]] < keys[i] by {
            assert(d[t] == order[t]);
        }
        if j > 0 {
            assert(d[j - 1] == order[j - 1]);
        }
        lemma_insert_at(d, i, keys, j);
        assert((d.take(j) + seq![i] + d.skip(j)).push(order.last()) =~= order.take(j) + seq![i] + order.skip(j));
    }
}

/// Positions `0..keys.len()` sorted by descending key, stable.
fn sort_by_key_desc(keys: &Vec<u64>) -> (ord: Vec<usize>)
    ensures
        indices(ord@) == by_key_desc(keys@, keys.len() as nat),
        forall|t: int| 0 <= t < ord.len() ==> #[trigger] ord@[t] < keys.len(),
{
    let mut ord: Vec<usize> = Vec::new();
    let mut i: usize = 0;
    proof {
        assert(indices(ord@) =~= Seq::<int>::empty());
    }
    while i < keys.len()
        invariant
            0 <= i <= keys.len(),
            indices(ord@) == by_key_desc(keys@, i as nat),
            forall|t: int| 0 <= t < ord.len() ==> #[trigger] ord@[t] < i,
        decreases keys.len() - i,
    {
        let ghost o = indices(ord@);
        let mut j: usize = ord.len();
        while j > 0 && keys[ord[j - 1]] < keys[i]
            invariant
                0 <= j <= ord.len(),
                i < keys.len(),
                o == indices(ord@),
                forall|t: int| 0 <= t < ord.len() ==> #[trigger] ord@[t] < i,
                forall|t: int| j <= t < o.len() ==> keys@[#[trigger] o[t]] < keys@[i as int],
            decreases j,
        {
            j = j - 1;
        }
        proof {
            lemma_insert_at(o, i as int, keys@, j as int);
        }
        let ghost before = ord@;
        ord.insert(j, i);
        proof {
            assert(indices(ord@) =~= o.take(j as int) + seq![i as int] + o.skip(j as int));
            assert forall|t: int| 0 <= t < ord.len() implies #[trigger] ord@[t] < i + 1 by {
                if t < j {
                    assert(ord@[t] == before[t]);
                } else if t > j {
                    assert(ord@[t] == before[t - 1]);
                }
            }
        }
        i = i + 1;
    }
    ord
}

/// The header of the budgeted summary.
pub open spec fn summary_head(q: QualityFigures) -> Seq<char> {
    "# Evidence Summary\n\n"@ + "Quality: "@ + decimal(q.quality_pct as nat) + "% | Items: "@ + decimal(q.total_items as nat)
        + " | Confidence: "@ + decimal(q.avg_confidence_pct as nat) + "%\n\n"@
}

pub open spec fn file_keys(fs: Seq<FileEvidence>) -> Seq<u64> {
    fs.map_values(|x: FileEvidence| x.confidence_key)
}

pub open spec fn knowledge_keys(xs: Seq<KnowledgeItem>) -> Seq<u64> {
    xs.map_values(|x: KnowledgeItem| x.confidence_key)
}

pub open spec fn key_file_line(x: FileEvidence) -> Seq<char> {
    "- `"@ + x.path@ + "` ["@ + category_label(category_of(x.source)) + "]\n"@
}

/// The summary lines of the files `fs`, taken in the order `order`.
pub open spec fn key_file_lines(fs: Seq<FileEvidence>, order: Seq<int>) -> Seq<Seq<char>> {
    order.map_values(|i: int| key_file_line(fs[i]))
}

/// The files, most confident first (equal confidence in original order).
pub open spec fn files_by_confidence(fs: Seq<FileEvidence>) -> Seq<Seq<char>> {
    key_file_lines(fs, by_key_desc(file_keys(fs), fs.len()))
}

pub open spec fn bullet_seq(xs: Seq<String>) -> Seq<Seq<char>> {
    xs.map_values(|x: String| "- "@ + x@ + "\n"@)
}

/// The name lines of the first `max` dependencies.
pub open spec fn dependency_names(ds: Seq<Dependency>, max: nat) -> Seq<Seq<char>> {
    (if max < ds.len() {
        ds.take(max as int)
    } else {
        ds
    }).map_values(|d: Dependency| "- "@ + d.name@ + "\n"@)
}

/// The lines of the items of `xs` taken in the order `order`, leaving out
/// those whose confidence key is below `min_key`.
pub open spec fn shown_knowledge(xs: Seq<KnowledgeItem>, order: Seq<int>, min_key: u64, label: Seq<char>) -> Seq<Seq<char>>
    decreases order.len(),
{
    if order.len() == 0 {
        Seq::empty()
    } else {
        let rest = shown_knowledge(xs, order.drop_last(), min_key, label);
        let x = xs[order.last()];
        if x.confidence_key >= min_key {
            rest.push(label + x.name@ + " ("@ + decimal(x.confidence_pct as nat) + "%)\n"@)
        } else {
            rest
        }
    }
}

/// The items shown in the summary, most confident first.
pub open spec fn knowledge_by_confidence(xs: Seq<KnowledgeItem>, min_key: u64, label: Seq<char>) -> Seq<Seq<char>> {
    shown_knowledge(xs, by_key_desc(knowledge_keys(xs), xs.len()), min_key, label)
}

/// `pct` percent of `tokens`, rounded down.
pub open spec fn share(tokens: nat, pct: nat) -> nat {
    tokens * pct / 100
}

/// The key files that fit in `budget` tokens, most confident first, with a
/// note when some were left out.
pub open spec fn files_section<F: Fn(&str) -> usize>(f: F, ev: EvidenceDigest, budget: nat) -> Seq<char> {
    let ls = files_by_confidence(ev.files@);
    "## Key Files\n\n"@ + fitted(f, ls, budget) + if fit(f, ls, budget) < ls.len() {
        "- _(more files omitted)_\n"@
    } else {
        Seq::empty()
    }
}

/// Patterns within half of `budget`, then conventions within what is left.
pub open spec fn patterns_section<F: Fn(&str) -> usize>(f: F, ev: EvidenceDigest, budget: nat) -> Seq<char> {
    let pl = bullet_seq(ev.patterns@);
    let cl = bullet_seq(ev.conventions@);
    "\n## Patterns\n\n"@ + fitted(f, pl, budget / 2) + fitted(f, cl, (budget - fit_cost(f, pl, budget / 2)) as nat)
}

/// Dependency names within `budget`, at most `max` of them; nothing when
/// there are no dependencies.
pub open spec fn dependencies_section<F: Fn(&str) -> usize>(f: F, ev: EvidenceDigest, budget: nat, max: nat) -> Seq<char> {
    block(ev.dependencies@.len() > 0, "\n## Dependencies\n\n"@, fitted(f, dependency_names(ev.dependencies@, max), budget))
}

/// Skills within half of `budget`, then rules within what is left, most
/// confident first and none below `min_key`; nothing when there are
/// neither skills nor rules.
pub open spec fn knowledge_section<F: Fn(&str) -> usize>(f: F, ev: EvidenceDigest, budget: nat, min_key: u64) -> Seq<char> {
    let sl = knowledge_by_confidence(ev.skills@, min_key, "- Skill: "@);
    let rl = knowledge_by_confidence(ev.rules@, min_key, "- Rule: "@);
    block(
        ev.skills@.len() > 0 || ev.rules@.len() > 0,
        "\n## Prior Knowledge\n\n"@,
        fitted(f, sl, budget / 2) + fitted(f, rl, (budget - fit_cost(f, sl, budget / 2)) as nat),
    )
}

/// Tokens left after the header.
pub open spec fn remaining<F: Fn(&str) -> usize>(f: F, ev: EvidenceDigest, max_tokens: nat) -> nat {
    let h = cost_of(f, summary_head(ev.quality));
    if h <= max_tokens {
        (max_tokens - h) as nat
    } else {
        0
    }
}

/// The summary before the final cut.
pub open spec fn summary_body<F: Fn(&str) -> usize>(f: F, ev: EvidenceDigest, max_tokens: nat, b: EvidenceBudget) -> Seq<char> {
    let rem = remaining(f, ev, max_tokens);
    summary_head(ev.quality) + files_section(f, ev, share(rem, b.file_budget_percent as nat)) + patterns_section(
        f,
        ev,
        share(rem, b.pattern_budget_percent as nat),
    ) + dependencies_section(f, ev, share(rem, b.dependency_budget_percent as nat), b.max_dependencies_display as nat)
        + knowledge_section(f, ev, share(rem, b.knowledge_budget_percent as nat), b.min_confidence_key)
}

/// The summary cut to its byte budget when it is over its token budget.
pub open spec fn final_cut<F: Fn(&str) -> usize>(f: F, body: Seq<char>, max_tokens: nat, b: EvidenceBudget) -> Seq<char> {
    let target = max_tokens * b.token_char_ratio;
    if cost_of(f, body) > max_tokens && utf8_len(body) > target {
        let keep = if target >= b.markdown_truncation_buffer { target - b.markdown_truncation_buffer } else { 0 };
        byte_prefix(body, keep as nat) + "\n\n_(truncated)_"@
    } else {
        body
    }
}

/// The evidence summary within `max_tokens`: the header, then, unless
/// fewer than the threshold tokens are left after it, each section's
/// lines within its share of what is left, cut to size at the end when it
/// is still over budget.
pub open spec fn summary_text<F: Fn(&str) -> usize>(f: F, ev: EvidenceDigest, max_tokens: nat, b: EvidenceBudget) -> Seq<char> {
    if remaining(f, ev, max_tokens) < b.min_budget_threshold {
        summary_head(ev.quality) + "_(Evidence truncated due to token limit)_\n"@
    } else {
        final_cut(f, summary_body(f, ev, max_tokens, b), max_tokens, b)
    }
}

fn file_key_vec(fs: &Vec<FileEvidence>) -> (keys: Vec<u64>)
    ensures
        keys@ == file_keys(fs@),
{
    let mut keys: Vec<u64> = Vec::new();
    let mut i: usize = 0;
    while i < fs.len()
        invariant
            0 <= i <= fs.len(),
            keys@ == file_keys(fs@.take(i as int)),
        decreases fs.len() - i,
    {
        keys.push(fs[i].confidence_key);
        i = i + 1;
        proof {
            assert(keys@ =~= file_keys(fs@.take(i as int)));
        }
    }
    proof {
        assert(fs@.take(fs.len() as int) =~= fs@);
    }
    keys
}

fn knowledge_key_vec(xs: &Vec<KnowledgeItem>) -> (keys: Vec<u64>)
    ensures
        keys@ == knowledge_keys(xs@),
{
    let mut keys: Vec<u64> = Vec::new();
    let mut i: usize = 0;
    while i < xs.len()
        invariant
            0 <= i <= xs.len(),
            keys@ == knowledge_keys(xs@.take(i as int)),
        decreases xs.len() - i,
    {
        keys.push(xs[i].confidence_key);
        i = i + 1;
        proof {
            assert(keys@ =~= knowledge_keys(xs@.take(i as int)));
        }
    }
    proof {
        assert(xs@.take(xs.len() as int) =~= xs@);
    }
    keys
}

fn file_summary_lines(fs: &Vec<FileEvidence>) -> (ls: Vec<String>)
    ensures
        string_views(ls@) == files_by_confidence(fs@),
{
    let keys = file_key_vec(fs);
    let ord = sort_by_key_desc(&keys);
    let ghost o = indices(ord@);
    let mut ls: Vec<String> = Vec::new();
    let mut i: usize = 0;
    while i < ord.len()
        invariant
            0 <= i <= ord.len(),
            o == indices(ord@),
            keys.len() == fs.len(),
            forall|t: int| 0 <= t < ord.len() ==> #[trigger] ord@[t] < keys.len(),
            string_views(ls@) == key_file_lines(fs@, o.take(i as int)),
        decreases ord.len() - i,
    {
        let x = &fs[ord[i]];
        let c = x.source.confidence_category();
        let mut line = String::new();
        push_str(&mut line, "- `");
        push_str(&mut line, x.path.as_str());
        push_str(&mut line, "` [");
        push_str(&mut line, c.label());
        push_str(&mut line, "]\n");
        let ghost prev = string_views(ls@);
        let ghost lv = line@;
        proof {
            assert(lv == key_file_line(fs@[o[i as int]]));
            assert(key_file_lines(fs@, o.take(i + 1)) =~= key_file_lines(fs@, o.take(i as int)).push(lv));
        }
        ls.push(line);
        proof {
            assert(string_views(ls@) =~= prev.push(lv));
        }
        i = i + 1;
    }
    proof {
        assert(o.take(ord.len() as int) =~= o);
    }
    ls
}

fn bullet_lines(xs: &Vec<String>) -> (ls: Vec<String>)
    ensures
        string_views(ls@) == bullet_seq(xs@),
{
    let mut ls: Vec<String> = Vec::new();
    let mut i: usize = 0;
    while i < xs.len()
        invariant
            0 <= i <= xs.len(),
            string_views(ls@) == bullet_seq(xs@.take(i as int)),
        decreases xs.len() - i,
    {
        let mut line = String::new();
        push_str(&mut line, "- ");
        push_str(&mut line, xs[i].as_str());
        push_str(&mut line, "\n");
        let ghost prev = string_views(ls@);
        let ghost lv = line@;
        proof {
            assert(bullet_seq(xs@.take(i + 1)) =~= bullet_seq(xs@.take(i as int)).push(lv));
        }
        ls.push(line);
        proof {
            assert(string_views(ls@) =~= prev.push(lv));
        }
        i = i + 1;
    }
    proof {
        assert(xs@.take(xs.len() as int) =~= xs@);
    }
    ls
}

fn dependency_name_lines(ds: &Vec<Dependency>, max: usize) -> (ls: Vec<String>)
    ensures
        string_views(ls@) == dependency_names(ds@, max as nat),
{
    let n = if max < ds.len() { max } else { ds.len() };
    let ghost shown = if max < ds.len() { ds@.take(max as int) } else { ds@ };
    let mut ls: Vec<String> = Vec::new();
    let mut i: usize = 0;
    while i < n
        invariant
            0 <= i <= n <= ds.len(),
            shown.len() == n,
            forall|t: int| 0 <= t < n ==> shown[t] == ds@[t],
            string_views(ls@) == shown.take(i as int).map_values(|d: Dependency| "- "@ + d.name@ + "\n"@),
        decreases n - i,
    {
        let mut line = String::new();
        push_str(&mut line, "- ");
        push_str(&mut line, ds[i].name.as_str());
        push_str(&mut line, "\n");
        let ghost prev = string_views(ls@);
        let ghost lv = line@;
        proof {
            assert(shown.take(i + 1).map_values(|d: Dependency| "- "@ + d.name@ + "\n"@) =~= shown.take(i as int).map_values(
                |d: Dependency| "- "@ + d.name@ + "\n"@,
            ).push(lv));
        }
        ls.push(line);
        proof {
            assert(string_views(ls@) =~= prev.push(lv));
        }
        i = i + 1;
    }
    proof {
        assert(shown.take(n as int) =~= shown);
    }
    ls
}

fn knowledge_summary_lines(xs: &Vec<KnowledgeItem>, min_key: u64, label: &str) -> (ls: Vec<String>)
    ensures
        string_views(ls@) == knowledge_by_confidence(xs@, min_key, label@),
{
    let keys = knowledge_key_vec(xs);
    let ord = sort_by_key_desc(&keys);
    let ghost o = indices(ord@);
    let mut ls: Vec<String> = Vec::new();
    let mut i: usize = 0;
    while i < ord.len()
        invariant
            0 <= i <= ord.len(),
            o == indices(ord@),
            keys.len() == xs.len(),
            forall|t: int| 0 <= t < ord.len() ==> #[trigger] ord@[t] < keys.len(),
            string_views(ls@) == shown_knowledge(xs@, o.take(i as int), min_key, label@),
        decreases ord.len() - i,
    {
        proof {
            assert(o.take(i + 1).drop_last() =~= o.take(i as int));
            assert(o.take(i + 1).last() == ord@[i as int] as int);
        }
        let x = &xs[ord[i]];
        if x.confidence_key >= min_key {
            let mut line = String::new();
            push_str(&mut line, label);
            push_str(&mut line, x.name.as_str());
            push_str(&mut line, " (");
            push_decimal(&mut line, x.confidence_pct);
            push_str(&mut line, "%)\n");
            ls.push(line);
            proof {
                assert(string_views(ls@) =~= shown_knowledge(xs@, o.take(i as int), min_key, label@).push(line@));
            }
        }
        i = i + 1;
    }
    proof {
        assert(o.take(ord.len() as int) =~= o);
    }
    ls
}

fn push_files_section<F: Fn(&str) -> usize>(out: &mut String, ev: &EvidenceDigest, budget: usize, f: &F)
    requires
        sound_estimator(*f),
    ensures
        final(out)@ == old(out)@ + files_section(*f, *ev, budget as nat),
{
    let ghost o = out@;
    push_str(out, "## Key Files\n\n");
    let ls = file_summary_lines(&ev.files);
    let (_used, all) = push_fitting(out, &ls, budget, f);
    if !all {
        push_str(out, "- _(more files omitted)_\n");
    }
    proof {
        assert(out@ =~= o + files_section(*f, *ev, budget as nat));
    }
}

fn push_patterns_section<F: Fn(&str) -> usize>(out: &mut String, ev: &EvidenceDigest, budget: usize, f: &F)
    requires
        sound_estimator(*f),
    ensures
        final(out)@ == old(out)@ + patterns_section(*f, *ev, budget as nat),
{
    let ghost o = out@;
    push_str(out, "\n## Patterns\n\n");
    let pl = bullet_lines(&ev.patterns);
    let (used, _all) = push_fitting(out, &pl, budget / 2, f);
    let cl = bullet_lines(&ev.conventions);
    push_fitting(out, &cl, budget - used, f);
    proof {
        assert(out@ =~= o + patterns_section(*f, *ev, budget as nat));
    }
}

fn push_dependencies_section<F: Fn(&str) -> usize>(out: &mut String, ev: &EvidenceDigest, budget: usize, max: usize, f: &F)
    requires
        sound_estimator(*f),
    ensures
        final(out)@ == old(out)@ + dependencies_section(*f, *ev, budget as nat, max as nat),
{
    let ghost o = out@;
    if ev.dependencies.len() > 0 {
        push_str(out, "\n## Dependencies\n\n");
        let dl = dependency_name_lines(&ev.dependencies, max);
        push_fitting(out, &dl, budget, f);
    }
    proof {
        assert(out@ =~= o + dependencies_section(*f, *ev, budget as nat, max as nat));
    }
}

fn push_knowledge_summary<F: Fn(&str) -> usize>(out: &mut String, ev: &EvidenceDigest, budget: usize, min_key: u64, f: &F)
    requires
        sound_estimator(*f),
    ensures
        final(out)@ == old(out)@ + knowledge_section(*f, *ev, budget as nat, min_key),
{
    let ghost o = out@;
    if ev.skills.len() > 0 || ev.rules.len() > 0 {
        push_str(out, "\n## Prior Knowledge\n\n");
        let sl = knowledge_summary_lines(&ev.skills, min_key, "- Skill: ");
        let (used, _all) = push_fitting(out, &sl, budget / 2, f);
        let rl = knowledge_summary_lines(&ev.rules, min_key, "- Rule: ");
        push_fitting(out, &rl, budget - used, f);
    }
    proof {
        reveal_strlit("- Skill: ");
        reveal_strlit("- Rule: ");
        assert(out@ =~= o + knowledge_section(*f, *ev, budget as nat, min_key));
    }
}

fn percent_of(tokens: usize, pct: usize, max_tokens: usize) -> (r: usize)
    requires
        tokens <= max_tokens,
        max_tokens * pct <= usize::MAX,
    ensures
        r == share(tokens as nat, pct as nat),
{
    proof {
        assert(tokens * pct <= max_tokens * pct) by (nonlinear_arith)
            requires
                tokens <= max_tokens,
        ;
    }
    tokens * pct / 100
}

/// Cuts `body` to its byte budget, marking the cut, when it is over
/// `max_tokens`.
fn cut_to_size<F: Fn(&str) -> usize>(body: String, max_tokens: usize, b: &EvidenceBudget, f: &F) -> (s: String)
    requires
        sound_estimator(*f),
        max_tokens * b.token_char_ratio <= usize::MAX,
    ensures
        s@ == final_cut(*f, body@, max_tokens as nat, *b),
{
    let total = cost(f, &body);
    if total <= max_tokens {
        return body;
    }
    let target = max_tokens * b.token_char_ratio;
    let p = truncate_at_boundary(body.as_str(), target);
    let pc = chars_of(p.as_str());
    let bc = chars_of(body.as_str());
    proof {
        lemma_byte_prefix(body@, target as nat);
        if pc.len() == bc.len() {
            assert(p@ =~= body@.take(p@.len() as int));
            assert(p@ =~= body@);
        }
    }
    if pc.len() < bc.len() {
        let keep = if target >= b.markdown_truncation_buffer { target - b.markdown_truncation_buffer } else { 0 };
        let mut s = truncate_at_boundary(body.as_str(), keep);
        push_str(&mut s, "\n\n_(truncated)_");
        s
    } else {
        body
    }
}

/// Whether cutting `s` after `n` bytes falls between two characters.
fn cuts_on_boundary(s: &str, n: usize) -> (b: bool)
    ensures
        b == cut_on_boundary(s@, n as nat),
{
    let cs = chars_of(s);
    let mut budget: usize = n;
    let mut i: usize = 0;
    proof {
        assert(cs@.skip(0) =~= cs@);
    }
    while i < cs.len() && budget > 0
        invariant
            0 <= i <= cs.len(),
            cs@ == s@,
            cut_on_boundary(cs@.skip(i as int), budget as nat) == cut_on_boundary(s@, n as nat),
        decreases cs.len() - i,
    {
        let ghost rest = cs@.skip(i as int);
        let w = utf8_width_of(cs[i]);
        proof {
            assert(rest[0] == cs@[i as int]);
            assert(rest.drop_first() =~= cs@.skip(i + 1));
        }
        if w > budget {
            return false;
        }
        budget = budget - w;
        i = i + 1;
    }
    true
}

/// The bytes the final cut keeps.
pub open spec fn kept_bytes(max_tokens: nat, b: EvidenceBudget) -> nat {
    let target = max_tokens * b.token_char_ratio;
    if target >= b.markdown_truncation_buffer {
        (target - b.markdown_truncation_buffer) as nat
    } else {
        0
    }
}

/// The final cut of the summary, if it is made, falls between two
/// characters.
pub open spec fn clean_cut<F: Fn(&str) -> usize>(f: F, ev: EvidenceDigest, max_tokens: nat, b: EvidenceBudget) -> bool {
    let body = summary_body(f, ev, max_tokens, b);
    remaining(f, ev, max_tokens) >= b.min_budget_threshold && cost_of(f, body) > max_tokens && utf8_len(body)
        > max_tokens * b.token_char_ratio ==> cut_on_boundary(body, kept_bytes(max_tokens, b))
}

impl EvidenceDigest {
    /// The header of the summary and the tokens left after it.
    fn summary_header<F: Fn(&str) -> usize>(&self, max_tokens: usize, f: &F) -> (r: (String, usize))
        requires
            sound_estimator(*f),
        ensures
            r.0@ == summary_head(self.quality),
            r.1 == remaining(*f, *self, max_tokens as nat),
    {
        let q = &self.quality;
        let mut out = String::new();
        push_str(&mut out, "# Evidence Summary\n\n");
        push_str(&mut out, "Quality: ");
        push_decimal(&mut out, q.quality_pct);
        push_str(&mut out, "% | Items: ");
        push_decimal(&mut out, q.total_items as u64);
        push_str(&mut out, " | Confidence: ");
        push_decimal(&mut out, q.avg_confidence_pct);
        push_str(&mut out, "%\n\n");
        proof {
            assert(out@ =~= summary_head(self.quality));
        }
        let header = cost(f, &out);
        let remaining_budget = if header <= max_tokens { max_tokens - header } else { 0 };
        (out, remaining_budget)
    }

    /// The summary's sections after `out`, the header, before the final cut.
    fn summary_sections<F: Fn(&str) -> usize>(
        &self,
        out: &mut String,
        remaining_budget: usize,
        max_tokens: usize,
        budget: &EvidenceBudget,
        f: &F,
    )
        requires
            sound_estimator(*f),
            old(out)@ == summary_head(self.quality),
            remaining_budget == remaining(*f, *self, max_tokens as nat),
            remaining_budget <= max_tokens,
            max_tokens * budget.file_budget_percent <= usize::MAX,
            max_tokens * budget.pattern_budget_percent <= usize::MAX,
            max_tokens * budget.dependency_budget_percent <= usize::MAX,
            max_tokens * budget.knowledge_budget_percent <= usize::MAX,
        ensures
            final(out)@ == summary_body(*f, *self, max_tokens as nat, *budget),
    {
        let file_budget = percent_of(remaining_budget, budget.file_budget_percent, max_tokens);
        let pattern_budget = percent_of(remaining_budget, budget.pattern_budget_percent, max_tokens);
        let dep_budget = percent_of(remaining_budget, budget.dependency_budget_percent, max_tokens);
        let knowledge_budget = percent_of(remaining_budget, budget.knowledge_budget_percent, max_tokens);
        push_files_section(out, self, file_budget, f);
        push_patterns_section(out, self, pattern_budget, f);
        push_dependencies_section(out, self, dep_budget, budget.max_dependencies_display, f);
        push_knowledge_summary(out, self, knowledge_budget, budget.min_confidence_key, f);
        proof {
            assert(out@ =~= summary_body(*f, *self, max_tokens as nat, *budget));
        }
    }

    /// Whether the budgeted summary's final cut, if it is made, falls
    /// between two characters (`to_markdown_with_budget` may only be asked
    /// for a summary whose cut does).
    pub fn budget_cut_is_clean<F: Fn(&str) -> usize>(&self, max_tokens: usize, budget: &EvidenceBudget, estimate: F) -> (b: bool)
        requires
            sound_estimator(estimate),
            max_tokens * budget.file_budget_percent <= usize::MAX,
            max_tokens * budget.pattern_budget_percent <= usize::MAX,
            max_tokens * budget.dependency_budget_percent <= usize::MAX,
            max_tokens * budget.knowledge_budget_percent <= usize::MAX,
            max_tokens * budget.token_char_ratio <= usize::MAX,
        ensures
            b == clean_cut(estimate, *self, max_tokens as nat, *budget),
    {
        let f = &estimate;
        let (mut out, remaining_budget) = self.summary_header(max_tokens, f);
        if remaining_budget < budget.min_budget_threshold {
            return true;
        }
        self.summary_sections(&mut out, remaining_budget, max_tokens, budget, f);
        if cost(f, &out) <= max_tokens {
            return true;
        }
        let target = max_tokens * budget.token_char_ratio;
        let p = truncate_at_boundary(out.as_str(), target);
        let pc = chars_of(p.as_str());
        let bc = chars_of(out.as_str());
        proof {
            lemma_byte_prefix(out@, target as nat);
            if pc.len() == bc.len() {
                assert(p@ =~= out@.take(p@.len() as int));
                assert(p@ =~= out@);
            }
        }
        if pc.len() < bc.len() {
            let keep = if target >= budget.markdown_truncation_buffer { target - budget.markdown_truncation_buffer } else { 0 };
            cuts_on_boundary(out.as_str(), keep)
        } else {
            true
        }
    }

    /// A summary of the evidence within `max_tokens` tokens as `estimate`
    /// counts them: the header, then, unless fewer than the threshold
    /// tokens are left after it (when only a truncation note follows), the
    /// key files (most confident first), patterns and conventions,
    /// dependency names and the confident enough skills and rules, each
    /// section keeping the longest leading run of its lines that fits in
    /// its share of the tokens left after the header; when the whole is
    /// still over budget, it is cut to the byte size the budget allows.
    pub fn to_markdown_with_budget<F: Fn(&str) -> usize>(&self, max_tokens: usize, budget: &EvidenceBudget, estimate: F) -> (s: String)
        requires
            sound_estimator(estimate),
            max_tokens * budget.file_budget_percent <= usize::MAX,
            max_tokens * budget.pattern_budget_percent <= usize::MAX,
            max_tokens * budget.dependency_budget_percent <= usize::MAX,
            max_tokens * budget.knowledge_budget_percent <= usize::MAX,
            max_tokens * budget.token_char_ratio <= usize::MAX,
            clean_cut(estimate, *self, max_tokens as nat, *budget),
        ensures
            s@ == summary_text(estimate, *self, max_tokens as nat, *budget),
    {
        let f = &estimate;
        let (mut out, remaining_budget) = self.summary_header(max_tokens, f);
        if remaining_budget < budget.min_budget_threshold {
            push_str(&mut out, "_(Evidence truncated due to token limit)_\n");
            return out;
        }
        self.summary_sections(&mut out, remaining_budget, max_tokens, budget, f);
        cut_to_size(out, max_tokens, budget, f)
    }
}

} // verus!
