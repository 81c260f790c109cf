//! The bounded top-k extension operator: the optimizer rule that collapses a
//! limit directly over a single-key sort into a top-k extension node, and a
//! rule that invalidates such a node, used to exercise the invariant checker.

use vstd::prelude::*;
use crate::error::{InvariantLevel, PlanError};
use crate::expr::SpecExpr;
use crate::format::{spec_u64_digits, u64_string};
use crate::plan::{
    lemma_plans_view, spec_plans_view, ExtensionNode, InvariantMock, LogicalPlan,
    SpecExtensionNode, SpecPlan,
};
use crate::rules::{ApplyOrder, OptimizerRule};
use crate::transformed::Transformed;

verus! {

/// The model of a top-k extension node: named `TopK`, displayed as
/// `TopK: k=<k>`, one child, one ranking expression, the bound `k` as its
/// only parameter, and no limit push-down.
pub open spec fn spec_topk_node(
    k: u64,
    input: SpecPlan,
    e: SpecExpr,
    mock: Option<InvariantMock>,
) -> SpecExtensionNode {
    SpecExtensionNode {
        name: "TopK"@,
        explain: "TopK: k="@ + spec_u64_digits(k as nat),
        inputs: seq![input],
        exprs: seq![e],
        params: seq![k],
        supports_limit_pushdown: false,
        invariant_mock: mock,
    }
}

/// Builds a top-k extension node over one input, ranked by one expression.
pub fn topk_plan_node(
    k: u64,
    input: LogicalPlan,
    expr: crate::expr::Expr,
    invariant_mock: Option<InvariantMock>,
) -> (r: ExtensionNode)
    ensures
        r.deep_view() == spec_topk_node(k, input.deep_view(), expr.deep_view(), invariant_mock),
{
    let mut explain = String::from_str("TopK: k=");
    explain.append(u64_string(k).as_str());
    let ghost input_view = input.deep_view();
    let ghost expr_view = expr.deep_view();
    let mut inputs: Vec<LogicalPlan> = Vec::new();
    inputs.push(input);
    let mut exprs: Vec<crate::expr::Expr> = Vec::new();
    exprs.push(expr);
    let mut params: Vec<u64> = Vec::new();
    params.push(k);
    let r = ExtensionNode {
        name: String::from_str("TopK"),
        explain,
        inputs,
        exprs,
        params,
        supports_limit_pushdown: false,
        invariant_mock,
    };
    proof {
        lemma_plans_view(r.inputs@);
        assert(spec_plans_view(r.inputs@) =~= seq![input_view]);
        assert(r.exprs.deep_view() =~= seq![expr_view]);
        assert(r.params@ =~= seq![k]);
    }
    r
}

/// Whether the node is a limit directly over a sort with exactly one sort
/// key, the one shape the top-k rule rewrites.
pub open spec fn spec_is_limit_over_single_sort(p: SpecPlan) -> bool {
    p matches SpecPlan::Limit { fetch, input } && *input matches SpecPlan::Sort {
        sort_exprs,
        input: _,
    } && sort_exprs.len() == 1
}

/// Optimization rule that replaces `Limit(k)` over a single-key `Sort` with
/// a bounded top-k extension node, so execution keeps a working set of k
/// entries instead of fully sorting its input.
#[derive(Debug, Default)]
pub struct TopKOptimizerRule {
    /// The invariant-check configuration given to every node the rule builds.
    pub invariant_mock: Option<InvariantMock>,
}

impl OptimizerRule for TopKOptimizerRule {
    fn name(&self) -> (r: String)
        ensures
            r@ == "topk"@,
    {
        String::from_str("topk")
    }

    fn apply_order(&self) -> (r: ApplyOrder)
        ensures
            r == ApplyOrder::TopDown,
    {
        ApplyOrder::TopDown
    }

    fn supports_rewrite(&self) -> (r: bool)
        ensures
            r,
    {
        true
    }

    /// The rewrite never fails.  A limit of `k` directly over a sort with one
    /// sort key becomes a top-k extension node over the sort's input, ranked
    /// by the sort key's expression; every other shape is returned unchanged
    /// with no change reported.
    fn rewrite(&self, plan: LogicalPlan) -> (r: Result<Transformed<LogicalPlan>, PlanError>)
        ensures
            r is Ok,
            r matches Ok(t) ==> {
                &&& (plan.deep_view() matches SpecPlan::Limit { fetch, input } ==> (
                *input matches SpecPlan::Sort { sort_exprs, input: sort_input } ==> (
                sort_exprs.len() == 1 ==> t.transformed && t.data.deep_view()
                    == (SpecPlan::Extension {
                    node: spec_topk_node(
                        fetch,
                        *sort_input,
                        sort_exprs[0].expr,
                        self.invariant_mock,
                    ),
                }))))
                &&& (!spec_is_limit_over_single_sort(plan.deep_view()) ==> !t.transformed
                    && t.data.deep_view() == plan.deep_view())
            },
    {
        proof {
            reveal_with_fuel(crate::plan::spec_plan_view, 3);
            reveal_with_fuel(crate::plan::spec_plan_wf, 3);
            reveal_with_fuel(crate::plan::spec_plan_schema, 3);
            reveal_with_fuel(crate::plan::spec_plan_height, 3);
        }
        match plan {
            LogicalPlan::Limit { fetch, input } => {
                match *input {
                    LogicalPlan::Sort { mut sort_exprs, input: sort_input } => {
                        if sort_exprs.len() == 1 {
                            let se = sort_exprs.remove(0);
                            let ghost si_view = sort_input.deep_view();
                            let node = topk_plan_node(
                                fetch,
                                *sort_input,
                                se.expr,
                                self.invariant_mock,
                            );
                            proof {
                                let s = seq![si_view];
                                assert(s.subrange(0, 0).len() == 0);
                                assert(crate::plan::spec_plans_height(s.subrange(0, 0)) == 0);
                                assert(crate::plan::spec_plans_height(s)
                                    == crate::plan::spec_plan_height(si_view));
                                assert(forall|i: int| 0 <= i < s.len() ==> #[trigger] s[i]
                                    == si_view);
                            }
                            Ok(Transformed::yes(LogicalPlan::Extension { node }))
                        } else {
                            Ok(
                                Transformed::no(
                                    LogicalPlan::Limit {
                                        fetch,
                                        input: Box::new(
                                            LogicalPlan::Sort { sort_exprs, input: sort_input },
                                        ),
                                    },
                                ),
                            )
                        }
                    },
                    other => Ok(
                        Transformed::no(LogicalPlan::Limit { fetch, input: Box::new(other) }),
                    ),
                }
            },
            other => Ok(Transformed::no(other)),
        }
    }
}

/// A rewrite pass that breaks every top-k extension node's `Always`
/// invariant, standing in for a rewriter that damages a node's validity.
#[derive(Debug, Default)]
pub struct OptimizerMakeExtensionNodeInvalid;

impl OptimizerRule for OptimizerMakeExtensionNodeInvalid {
    fn name(&self) -> (r: String)
        ensures
            r@ == "OptimizerMakeExtensionNodeInvalid"@,
    {
        String::from_str("OptimizerMakeExtensionNodeInvalid")
    }

    fn apply_order(&self) -> (r: ApplyOrder)
        ensures
            r == ApplyOrder::TopDown,
    {
        ApplyOrder::TopDown
    }

    fn supports_rewrite(&self) -> (r: bool)
        ensures
            r,
    {
        true
    }

    /// The rewrite never fails.  An extension node named `TopK` is replaced
    /// by the same node configured to fail its `Always` invariant check;
    /// every other shape is returned unchanged with no change reported.
    fn rewrite(&self, plan: LogicalPlan) -> (r: Result<Transformed<LogicalPlan>, PlanError>)
        ensures
            r is Ok,
            r matches Ok(t) ==> {
                &&& (plan.deep_view() matches SpecPlan::Extension { node } ==> (node.name
                    == "TopK"@ ==> t.transformed && t.data.deep_view() == (SpecPlan::Extension {
                    node: SpecExtensionNode {
                        invariant_mock: Some(
                            InvariantMock {
                                should_fail_invariant: true,
                                kind: InvariantLevel::Always,
                            },
                        ),
                        ..node
                    },
                })))
                &&& ((plan.deep_view() matches SpecPlan::Extension { node } ==> node.name
                    != "TopK"@) ==> !t.transformed && t.data.deep_view() == plan.deep_view())
            },
    {
        match plan {
            LogicalPlan::Extension { node } => {
                let target = String::from_str("TopK");
                if node.name == target {
                    let broken = ExtensionNode {
                        invariant_mock: Some(
                            InvariantMock {
                                should_fail_invariant: true,
                                kind: InvariantLevel::Always,
                            },
                        ),
                        ..node
                    };
                    Ok(Transformed::yes(LogicalPlan::Extension { node: broken }))
                } else {
                    Ok(Transformed::no(LogicalPlan::Extension { node }))
                }
            },
            other => Ok(Transformed::no(other)),
        }
    }
}

} // verus!
