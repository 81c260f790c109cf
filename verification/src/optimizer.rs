//! The rule engine: analyzer rules run exactly once in registration order;
//! optimizer rules run in registration order per pass, and passes repeat
//! until a pass reports no change or the configured pass limit is reached.
//! After every rewrite step that reports a change, every extension node's
//! `Always` invariant is checked; a failure aborts the pipeline.

use vstd::prelude::*;
use crate::error::{InvariantLevel, PlanError};
use crate::plan::{spec_plan_schema, spec_plan_wf, spec_tree_invariants_ok, LogicalPlan};
use crate::rules::{apply_rule, spec_analyzed, AnalyzerRule, OptimizerRule};

verus! {

/// Read-only configuration handed to the rule engine.
#[derive(Clone, Copy, Debug)]
pub struct OptimizerContext {
    pub max_passes: u64,
}

impl OptimizerContext {
    /// A context with the default pass limit.
    pub fn new() -> (r: Self)
        ensures
            r.max_passes == 3,
    {
        OptimizerContext { max_passes: 3 }
    }

    /// The same context with the given pass limit.
    pub fn with_max_passes(self, max_passes: u64) -> (r: Self)
        ensures
            r.max_passes == max_passes,
    {
        OptimizerContext { max_passes }
    }
}

/// Runs the analyzer rules once each, in registration order.  A successful
/// run returns exactly the rules' models folded over the input, which keeps
/// the input's schema and well-formedness; an empty pipeline always succeeds
/// with the input unchanged.
#[verifier::loop_isolation(false)]
pub fn analyze<A: AnalyzerRule>(rules: &Vec<A>, plan: LogicalPlan) -> (r: Result<
    LogicalPlan,
    PlanError,
>)
    ensures
        r matches Ok(p) ==> p.deep_view() == spec_analyzed(rules@, plan.deep_view()),
        rules@.len() == 0 ==> (r matches Ok(p) && p.deep_view() == plan.deep_view()),
        r matches Ok(p) ==> spec_plan_schema(p.deep_view()) == spec_plan_schema(plan.deep_view()),
        r matches Ok(p) ==> spec_plan_wf(plan.deep_view()) ==> spec_plan_wf(p.deep_view()),
{
    let ghost orig = plan.deep_view();
    let mut current = plan;
    let mut j: usize = 0;
    proof {
        assert(rules@.subrange(0, rules@.len() as int) =~= rules@);
    }
    while j < rules.len()
        invariant
            j <= rules.len(),
            spec_analyzed(rules@, orig) == spec_analyzed(
                rules@.subrange(j as int, rules@.len() as int),
                current.deep_view(),
            ),
            spec_plan_schema(current.deep_view()) == spec_plan_schema(orig),
            spec_plan_wf(orig) ==> spec_plan_wf(current.deep_view()),
        decreases rules.len() - j,
    {
        let rule = &rules[j];
        let ghost remaining = rules@.subrange(j as int, rules@.len() as int);
        current = rule.analyze(current)?;
        proof {
            assert(remaining[0] == rules@[j as int]);
            assert(remaining.subrange(1, remaining.len() as int) =~= rules@.subrange(
                j + 1,
                rules@.len() as int,
            ));
        }
        j = j + 1;
    }
    proof {
        assert(rules@.subrange(rules@.len() as int, rules@.len() as int).len() == 0);
    }
    Ok(current)
}

/// Runs the optimizer rules to a fixpoint or the configured pass limit,
/// whichever comes first, and returns the optimized tree together with the
/// number of passes that ran.
///
/// The `Always` invariants of every extension node are checked on entry and
/// again after every rewrite step that reports a change: a tree that fails
/// its `Always` invariants is rejected with an invariant violation before any
/// rule runs, and a tree this function returns always passes them.  An empty
/// pipeline over a passing tree succeeds with the tree unchanged.
/// Termination is bounded by the pass limit: the returned pass count never
/// exceeds it.
#[verifier::loop_isolation(false)]
pub fn optimize<R: OptimizerRule>(rules: &Vec<R>, config: &OptimizerContext, plan: LogicalPlan) -> (r:
    Result<(LogicalPlan, u64), PlanError>)
    ensures
        r matches Ok((p, passes)) ==> {
            &&& passes <= config.max_passes
            &&& spec_plan_schema(p.deep_view()) == spec_plan_schema(plan.deep_view())
            &&& (spec_plan_wf(plan.deep_view()) ==> spec_plan_wf(p.deep_view()))
            &&& spec_tree_invariants_ok(p.deep_view(), InvariantLevel::Always)
        },
        !spec_tree_invariants_ok(plan.deep_view(), InvariantLevel::Always) ==> (r matches Err(e)
            && e matches PlanError::InvariantViolation { level, message } && level
            == InvariantLevel::Always && message@
            == "node fails check, such as improper inputs"@),
        spec_tree_invariants_ok(plan.deep_view(), InvariantLevel::Always) && rules@.len() == 0
            ==> (r matches Ok((p, _)) && p.deep_view() == plan.deep_view()),
{
    let ghost orig = plan.deep_view();
    plan.check_invariants(InvariantLevel::Always)?;
    let mut current = plan;
    let mut passes: u64 = 0;
    while passes < config.max_passes
        invariant
            passes <= config.max_passes,
            spec_plan_schema(current.deep_view()) == spec_plan_schema(orig),
            spec_plan_wf(orig) ==> spec_plan_wf(current.deep_view()),
            spec_tree_invariants_ok(current.deep_view(), InvariantLevel::Always),
            rules@.len() == 0 ==> current.deep_view() == orig,
        decreases config.max_passes - passes,
    {
        let mut changed = false;
        let mut j: usize = 0;
        while j < rules.len()
            invariant
                j <= rules.len(),
                spec_plan_schema(current.deep_view()) == spec_plan_schema(orig),
                spec_plan_wf(orig) ==> spec_plan_wf(current.deep_view()),
                spec_tree_invariants_ok(current.deep_view(), InvariantLevel::Always),
                rules@.len() == 0 ==> current.deep_view() == orig,
            decreases rules.len() - j,
        {
            let rule = &rules[j];
            let t = apply_rule(rule, current)?;
            if t.transformed {
                t.data.check_invariants(InvariantLevel::Always)?;
                changed = true;
            }
            current = t.data;
            j = j + 1;
        }
        passes = passes + 1;
        if !changed {
            return Ok((current, passes));
        }
    }
    Ok((current, passes))
}

} // verus!
