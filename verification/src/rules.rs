//! The rule contract and the traversal engine: a rule rewrites one node and
//! declares a traversal discipline; the engine performs the recursion so that
//! individual rules need not.

use vstd::prelude::*;
use crate::error::PlanError;
use crate::expr::clone_exprs;
use crate::plan::{
    lemma_plans_height, lemma_plans_view, spec_plan_height, spec_plan_schema, spec_plan_view,
    spec_plan_wf, spec_plans_height, spec_plans_view, LogicalPlan,
};
use crate::transformed::Transformed;

verus! {

/// The traversal discipline a rule requires: rewrite a node before its
/// children, or rebuild from rewritten children first.
#[derive(Clone, Copy, Debug, PartialEq, Eq, Structural)]
pub enum ApplyOrder {
    TopDown,
    BottomUp,
}

/// What one rewrite step must guarantee, whatever the rule does: an
/// unchanged flag means an unchanged tree, the output schema equals the
/// input schema, well-formedness is preserved, and the tree does not grow
/// in height (which bounds every traversal).
pub open spec fn spec_rewrite_ok(before: crate::plan::SpecPlan, t: Transformed<LogicalPlan>) -> bool {
    &&& (!t.transformed ==> t.data.deep_view() == before)
    &&& spec_plan_schema(t.data.deep_view()) == spec_plan_schema(before)
    &&& (spec_plan_wf(before) ==> spec_plan_wf(t.data.deep_view()))
    &&& spec_plan_height(t.data.deep_view()) <= spec_plan_height(before)
}

/// An optimizer rule: one local rewrite, run to a fixpoint by the engine.
///
/// A rule inspects only the local shape it cares about and returns the node
/// unchanged (reporting no change) for everything else.  Its rewrite must not
/// change the tree's schema, must keep the tree well formed, and must not
/// grow the tree's height.
pub trait OptimizerRule {
    /// The rule's name, for reporting.
    fn name(&self) -> String;

    /// The traversal discipline this rule requires.
    fn apply_order(&self) -> ApplyOrder;

    /// Whether the rule rewrites via `Transformed` results.
    fn supports_rewrite(&self) -> bool;

    /// One rewrite step on one node.
    fn rewrite(&self, plan: LogicalPlan) -> (r: Result<Transformed<LogicalPlan>, PlanError>)
        ensures
            r matches Ok(t) ==> spec_rewrite_ok(plan.deep_view(), t),
    ;
}

/// An analyzer rule: a whole-tree rewrite run exactly once, in registration
/// order, for semantic normalization.  It must not change the tree's schema
/// and must keep the tree well formed.
pub trait AnalyzerRule {
    /// The tree the rule's one run produces from a given tree: the rule's
    /// rewrite is a function of the input tree alone.
    spec fn model(&self, plan: crate::plan::SpecPlan) -> crate::plan::SpecPlan;

    /// The rule's name, for reporting.
    fn name(&self) -> String;

    /// Rewrites the whole tree once, returning exactly the rule's model of
    /// the input.
    fn analyze(&self, plan: LogicalPlan) -> (r: Result<LogicalPlan, PlanError>)
        ensures
            r matches Ok(p) ==> p.deep_view() == self.model(plan.deep_view()),
            r matches Ok(p) ==> spec_plan_schema(p.deep_view()) == spec_plan_schema(
                plan.deep_view(),
            ),
            r matches Ok(p) ==> spec_plan_wf(plan.deep_view()) ==> spec_plan_wf(p.deep_view()),
    ;
}

/// The tree produced by running the analyzer rules once each, in order, when
/// every run succeeds.
pub open spec fn spec_analyzed<A: AnalyzerRule>(rules: Seq<A>, plan: crate::plan::SpecPlan) -> crate::plan::SpecPlan
    decreases rules.len(),
{
    if rules.len() == 0 {
        plan
    } else {
        spec_analyzed(rules.subrange(1, rules.len() as int), rules[0].model(plan))
    }
}

/// Applies the rule over the whole tree in its declared traversal order.
pub fn apply_rule<R: OptimizerRule>(rule: &R, plan: LogicalPlan) -> (r: Result<
    Transformed<LogicalPlan>,
    PlanError,
>)
    ensures
        r matches Ok(t) ==> spec_rewrite_ok(plan.deep_view(), t),
{
    let order = rule.apply_order();
    rewrite_plan(rule, plan, order)
}

/// One full traversal: top-down rewrites the node, then recurses into the
/// already-rewritten children; bottom-up recurses first, rebuilds the node
/// from rewritten children, then rewrites the rebuilt node.
fn rewrite_plan<R: OptimizerRule>(rule: &R, plan: LogicalPlan, order: ApplyOrder) -> (r: Result<
    Transformed<LogicalPlan>,
    PlanError,
>)
    ensures
        r matches Ok(t) ==> spec_rewrite_ok(plan.deep_view(), t),
    decreases spec_plan_height(plan.deep_view()), 1int,
{
    match order {
        ApplyOrder::TopDown => {
            let t1 = rule.rewrite(plan)?;
            let flag = t1.transformed;
            let t2 = rewrite_children(rule, t1.data, order)?;
            Ok(Transformed { data: t2.data, transformed: flag || t2.transformed })
        },
        ApplyOrder::BottomUp => {
            let t1 = rewrite_children(rule, plan, order)?;
            let flag = t1.transformed;
            let t2 = rule.rewrite(t1.data)?;
            Ok(Transformed { data: t2.data, transformed: flag || t2.transformed })
        },
    }
}

/// Rewrites each child of the node with the full traversal and rebuilds the
/// node from the rewritten children, preserving unchanged subtrees.
#[verifier::loop_isolation(false)]
fn rewrite_children<R: OptimizerRule>(rule: &R, plan: LogicalPlan, order: ApplyOrder) -> (r:
    Result<Transformed<LogicalPlan>, PlanError>)
    ensures
        r matches Ok(t) ==> spec_rewrite_ok(plan.deep_view(), t),
    decreases spec_plan_height(plan.deep_view()), 0int,
{
    match plan {
        LogicalPlan::TableScan { name, schema } => Ok(
            Transformed::no(LogicalPlan::TableScan { name, schema }),
        ),
        LogicalPlan::EmptyRelation { produce_one_row, schema } => Ok(
            Transformed::no(LogicalPlan::EmptyRelation { produce_one_row, schema }),
        ),
        LogicalPlan::Filter { predicate, input } => {
            let t = rewrite_plan(rule, *input, order)?;
            Ok(
                Transformed {
                    data: LogicalPlan::Filter { predicate, input: Box::new(t.data) },
                    transformed: t.transformed,
                },
            )
        },
        LogicalPlan::Projection { exprs, schema, input } => {
            let t = rewrite_plan(rule, *input, order)?;
            Ok(
                Transformed {
                    data: LogicalPlan::Projection { exprs, schema, input: Box::new(t.data) },
                    transformed: t.transformed,
                },
            )
        },
        LogicalPlan::Aggregate { group, aggr, schema, input } => {
            let t = rewrite_plan(rule, *input, order)?;
            Ok(
                Transformed {
                    data: LogicalPlan::Aggregate { group, aggr, schema, input: Box::new(t.data) },
                    transformed: t.transformed,
                },
            )
        },
        LogicalPlan::Sort { sort_exprs, input } => {
            let t = rewrite_plan(rule, *input, order)?;
            Ok(
                Transformed {
                    data: LogicalPlan::Sort { sort_exprs, input: Box::new(t.data) },
                    transformed: t.transformed,
                },
            )
        },
        LogicalPlan::Limit { fetch, input } => {
            let t = rewrite_plan(rule, *input, order)?;
            Ok(
                Transformed {
                    data: LogicalPlan::Limit { fetch, input: Box::new(t.data) },
                    transformed: t.transformed,
                },
            )
        },
        LogicalPlan::Union { left, right } => {
            let tl = rewrite_plan(rule, *left, order)?;
            let tr = rewrite_plan(rule, *right, order)?;
            Ok(
                Transformed {
                    data: LogicalPlan::Union { left: Box::new(tl.data), right: Box::new(tr.data) },
                    transformed: tl.transformed || tr.transformed,
                },
            )
        },
        LogicalPlan::Extension { node } => {
            let ghost before = spec_plans_view(node.inputs@);
            proof {
                lemma_plans_view(node.inputs@);
                lemma_plans_height(before);
            }
            let mut new_inputs: Vec<LogicalPlan> = Vec::new();
            let mut changed = false;
            let mut i: usize = 0;
            while i < node.inputs.len()
                invariant
                    i <= node.inputs.len(),
                    new_inputs@.len() == i,
                    forall|j: int| 0 <= j < i ==> spec_plan_schema(
                        #[trigger] spec_plan_view(new_inputs@[j]),
                    ) == spec_plan_schema(before[j]),
                    forall|j: int| 0 <= j < i ==> spec_plan_height(
                        #[trigger] spec_plan_view(new_inputs@[j]),
                    ) <= spec_plan_height(before[j]),
                    forall|j: int| 0 <= j < i ==> (spec_plan_wf(before[j]) ==> spec_plan_wf(
                        #[trigger] spec_plan_view(new_inputs@[j]),
                    )),
                    !changed ==> forall|j: int| 0 <= j < i ==> #[trigger] spec_plan_view(
                        new_inputs@[j],
                    ) == before[j],
                decreases node.inputs.len() - i,
            {
                let child = node.inputs[i].clone();
                proof {
                    assert(spec_plan_height(before[i as int]) <= spec_plans_height(before));
                }
                let t = rewrite_plan(rule, child, order)?;
                if t.transformed {
                    changed = true;
                }
                new_inputs.push(t.data);
                i = i + 1;
            }
            let new_exprs = clone_exprs(&node.exprs);
            proof {
                lemma_plans_view(new_inputs@);
            }
            let rebuilt = node.with_exprs_and_inputs(new_exprs, new_inputs);
            let data = LogicalPlan::Extension { node: rebuilt };
            proof {
                let after = spec_plans_view(data->Extension_node.inputs@);
                lemma_plans_view(data->Extension_node.inputs@);
                if !changed {
                    assert(after =~= before);
                    assert(data.deep_view() == plan.deep_view());
                }
                lemma_plans_height_mono(after, before);
                assert(spec_plan_schema(data.deep_view()) == spec_plan_schema(plan.deep_view()));
            }
            Ok(Transformed { data, transformed: changed })
        },
    }
}

/// A pointwise height bound between two plan sequences bounds their heights.
proof fn lemma_plans_height_mono(a: Seq<crate::plan::SpecPlan>, b: Seq<crate::plan::SpecPlan>)
    requires
        a.len() == b.len(),
        forall|i: int| 0 <= i < a.len() ==> spec_plan_height(#[trigger] a[i]) <= spec_plan_height(
            b[i],
        ),
    ensures
        spec_plans_height(a) <= spec_plans_height(b),
    decreases a.len(),
{
    if a.len() > 0 {
        let a1 = a.subrange(0, a.len() - 1);
        let b1 = b.subrange(0, b.len() - 1);
        assert(forall|i: int| 0 <= i < a1.len() ==> a1[i] == a[i] && b1[i] == b[i]);
        lemma_plans_height_mono(a1, b1);
    }
}

} // verus!
