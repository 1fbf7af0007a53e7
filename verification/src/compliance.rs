//! Whether a plan keeps to the project's constitution: its fact-based claim
//! must be borne out by the evidence, and the principles it says it breaks
//! are reported.

use vstd::prelude::*;
use crate::artifacts::{ConstitutionCheck, PlanArtifact, PrincipleCheckResult};
use crate::text::{decimal, push_decimal, push_str};
use crate::validation::{detail_views, tier_for, CheckDetail, DetailView, PlanValidator, QualityTier, ValidationCheckResult};

verus! {

broadcast use vstd::string::group_string_axioms;

/// How the gathered evidence scored: whether its quality reaches the
/// configured minimum, and its quality in whole percent.
#[derive(Debug, Clone, Copy)]
pub struct EvidenceQualityScore {
    pub meets_minimum: bool,
    pub percent: u64,
}

/// A principle's note, or `Failed` when it has none.
pub open spec fn note_or_failed(r: PrincipleCheckResult) -> Seq<char> {
    match r.note {
        Some(n) => n@,
        None => "Failed"@,
    }
}

/// The error a failed principle draws, under `label`.
pub open spec fn principle_error(label: Seq<char>, r: PrincipleCheckResult) -> Seq<DetailView> {
    if r.passed {
        Seq::empty()
    } else {
        seq![DetailView::Error(label + note_or_failed(r))]
    }
}

/// What the fact-based principle draws: an error when the plan does not
/// claim it or the evidence does not bear it out, else a confirmation.
pub open spec fn fact_based_detail(r: PrincipleCheckResult, q: EvidenceQualityScore) -> DetailView {
    if !r.passed {
        DetailView::Error("Fact-Based: "@ + note_or_failed(r))
    } else if !q.meets_minimum {
        DetailView::Error("Fact-Based claim not verified: evidence quality "@ + decimal(q.percent as nat)
            + "% insufficient"@)
    } else {
        DetailView::Info("Fact-Based verified with "@ + decimal(q.percent as nat) + "% evidence quality"@)
    }
}

/// The plan keeps to the constitution.
pub open spec fn constitution_passed(c: ConstitutionCheck, q: EvidenceQualityScore) -> bool {
    &&& c.fact_based.passed && q.meets_minimum
    &&& c.dry_principle.passed
    &&& c.minimal_scope.passed
    &&& c.intellectual_honesty.passed
}

/// Every line the constitution check reports, in order.
pub open spec fn constitution_details(c: ConstitutionCheck, q: EvidenceQualityScore) -> Seq<DetailView> {
    seq![fact_based_detail(c.fact_based, q)] + principle_error("DRY: "@, c.dry_principle) + principle_error(
        "Minimal Scope: "@,
        c.minimal_scope,
    ) + principle_error("Intellectual Honesty: "@, c.intellectual_honesty) + if constitution_passed(c, q) {
        seq![DetailView::Info("All constitution principles satisfied"@)]
    } else {
        Seq::empty()
    }
}

/// Appends `label` and the principle's note (or `Failed`) as an error when
/// the principle failed; tells whether it passed.
fn push_principle_error(label: &str, r: &PrincipleCheckResult, details: &mut Vec<CheckDetail>) -> (ok: bool)
    ensures
        ok == r.passed,
        detail_views(final(details)@) == detail_views(old(details)@) + principle_error(label@, *r),
{
    let ghost before = detail_views(details@);
    if !r.passed {
        let mut m = String::new();
        push_str(&mut m, label);
        match &r.note {
            Some(n) => push_str(&mut m, n.as_str()),
            None => push_str(&mut m, "Failed"),
        }
        details.push(CheckDetail::Error(m));
    }
    proof {
        assert(detail_views(details@) =~= before + principle_error(label@, *r));
    }
    r.passed
}

impl PlanValidator {
    /// Checks the plan's constitution: the fact-based claim must hold and be
    /// borne out by evidence of sufficient quality (`quality`), and the DRY,
    /// minimal-scope and intellectual-honesty principles must hold.
    pub fn check_constitution_compliance(&self, plan: &PlanArtifact, quality: &EvidenceQualityScore) -> (r:
        ValidationCheckResult)
        ensures
            detail_views(r.details@) == constitution_details(plan.constitution_check, *quality),
            r.passed == constitution_passed(plan.constitution_check, *quality),
            r.tier == tier_for(r.passed),
    {
        let c = &plan.constitution_check;
        let mut details: Vec<CheckDetail> = Vec::new();
        let mut passed = true;
        if c.fact_based.passed {
            if !quality.meets_minimum {
                let mut m = String::new();
                push_str(&mut m, "Fact-Based claim not verified: evidence quality ");
                push_decimal(&mut m, quality.percent);
                push_str(&mut m, "% insufficient");
                details.push(CheckDetail::Error(m));
                passed = false;
            } else {
                let mut m = String::new();
                push_str(&mut m, "Fact-Based verified with ");
                push_decimal(&mut m, quality.percent);
                push_str(&mut m, "% evidence quality");
                details.push(CheckDetail::Info(m));
            }
        } else {
            let mut m = String::new();
            push_str(&mut m, "Fact-Based: ");
            match &c.fact_based.note {
                Some(n) => push_str(&mut m, n.as_str()),
                None => push_str(&mut m, "Failed"),
            }
            details.push(CheckDetail::Error(m));
            passed = false;
        }
        proof {
            assert(detail_views(details@) =~= seq![fact_based_detail(c.fact_based, *quality)]);
        }
        let dry = push_principle_error("DRY: ", &c.dry_principle, &mut details);
        let scope = push_principle_error("Minimal Scope: ", &c.minimal_scope, &mut details);
        let honest = push_principle_error("Intellectual Honesty: ", &c.intellectual_honesty, &mut details);
        passed = passed && dry && scope && honest;
        let ghost mid = detail_views(details@);
        if passed {
            details.push(CheckDetail::Info("All constitution principles satisfied".to_string()));
        }
        proof {
            assert(detail_views(details@) =~= constitution_details(plan.constitution_check, *quality));
        }
        ValidationCheckResult { passed, tier: if passed { QualityTier::Green } else { QualityTier::Red }, details }
    }
}

} // verus!
