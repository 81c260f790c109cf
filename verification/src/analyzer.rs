//! An analyzer rule for semantic normalization: it coerces signed integer
//! literals inside projection expressions to unsigned ones, everywhere in
//! the tree, exactly once.

use vstd::prelude::*;
use crate::error::PlanError;
use crate::expr::{Expr, ScalarValue, SpecExpr, SpecScalar};
use crate::plan::{
    lemma_plans_view, spec_plan_schema, spec_plan_view, spec_plan_wf, spec_plans_view,
    ExtensionNode, LogicalPlan, SpecExtensionNode, SpecPlan,
};
use crate::rules::AnalyzerRule;

verus! {

/// The coercion on one expression: a signed integer literal becomes the
/// unsigned literal with the same bits; other shapes recurse or stay.
pub open spec fn spec_coerce_expr(e: SpecExpr) -> SpecExpr
    decreases e,
{
    match e {
        SpecExpr::Literal(SpecScalar::Int64(v)) => SpecExpr::Literal(
            SpecScalar::UInt64(
                match v {
                    Some(i) => Some(i as u64),
                    None => None,
                },
            ),
        ),
        SpecExpr::AggregateCall { func, arg } => SpecExpr::AggregateCall {
            func,
            arg: Box::new(spec_coerce_expr(*arg)),
        },
        _ => e,
    }
}

/// The coercion mapped over a list of expressions.
pub open spec fn spec_coerce_exprs(es: Seq<SpecExpr>) -> Seq<SpecExpr> {
    Seq::new(es.len(), |i: int| spec_coerce_expr(es[i]))
}

/// The coercion on a whole tree: every projection's expressions are
/// coerced; every node keeps its kind, its schema and its other fields.
pub open spec fn spec_coerce_plan(p: SpecPlan) -> SpecPlan
    decreases p,
{
    match p {
        SpecPlan::Projection { exprs, schema, input } => SpecPlan::Projection {
            exprs: spec_coerce_exprs(exprs),
            schema,
            input: Box::new(spec_coerce_plan(*input)),
        },
        SpecPlan::Filter { predicate, input } => SpecPlan::Filter {
            predicate,
            input: Box::new(spec_coerce_plan(*input)),
        },
        SpecPlan::Aggregate { group, aggr, schema, input } => SpecPlan::Aggregate {
            group,
            aggr,
            schema,
            input: Box::new(spec_coerce_plan(*input)),
        },
        SpecPlan::Sort { sort_exprs, input } => SpecPlan::Sort {
            sort_exprs,
            input: Box::new(spec_coerce_plan(*input)),
        },
        SpecPlan::Limit { fetch, input } => SpecPlan::Limit {
            fetch,
            input: Box::new(spec_coerce_plan(*input)),
        },
        SpecPlan::Union { left, right } => SpecPlan::Union {
            left: Box::new(spec_coerce_plan(*left)),
            right: Box::new(spec_coerce_plan(*right)),
        },
        SpecPlan::Extension { node } => SpecPlan::Extension {
            node: SpecExtensionNode { inputs: spec_coerce_plans(node.inputs), ..node },
        },
        _ => p,
    }
}

/// The coercion mapped over a list of plans.
pub open spec fn spec_coerce_plans(cs: Seq<SpecPlan>) -> Seq<SpecPlan>
    decreases cs,
{
    if cs.len() == 0 {
        Seq::empty()
    } else {
        spec_coerce_plans(cs.subrange(0, cs.len() - 1)).push(spec_coerce_plan(cs[cs.len() - 1]))
    }
}

/// The coercion keeps a tree's schema and its well-formedness.
pub proof fn lemma_coerce_preserves(p: SpecPlan)
    ensures
        spec_plan_schema(spec_coerce_plan(p)) == spec_plan_schema(p),
        spec_plan_wf(p) ==> spec_plan_wf(spec_coerce_plan(p)),
    decreases p,
{
    match p {
        SpecPlan::Filter { input, .. } => lemma_coerce_preserves(*input),
        SpecPlan::Projection { input, .. } => lemma_coerce_preserves(*input),
        SpecPlan::Aggregate { input, .. } => lemma_coerce_preserves(*input),
        SpecPlan::Sort { input, .. } => lemma_coerce_preserves(*input),
        SpecPlan::Limit { input, .. } => lemma_coerce_preserves(*input),
        SpecPlan::Union { left, right } => {
            lemma_coerce_preserves(*left);
            lemma_coerce_preserves(*right);
        },
        SpecPlan::Extension { node } => {
            lemma_coerce_plans(node.inputs);
            if node.inputs.len() > 0 {
                lemma_coerce_preserves(node.inputs[0]);
            }
        },
        _ => {
        },
    }
}

/// The coercion preserves schema and well-formedness of every plan in a
/// list, and keeps the list's length.
pub proof fn lemma_coerce_plans(cs: Seq<SpecPlan>)
    ensures
        spec_coerce_plans(cs).len() == cs.len(),
        forall|i: int| 0 <= i < cs.len() ==> #[trigger] spec_coerce_plans(cs)[i]
            == spec_coerce_plan(cs[i]),
        forall|i: int| 0 <= i < cs.len() ==> spec_plan_schema(#[trigger] spec_coerce_plans(cs)[i])
            == spec_plan_schema(cs[i]),
        forall|i: int| 0 <= i < cs.len() ==> (spec_plan_wf(#[trigger] cs[i]) ==> spec_plan_wf(
            spec_coerce_plans(cs)[i],
        )),
    decreases cs,
{
    if cs.len() > 0 {
        lemma_coerce_plans(cs.subrange(0, cs.len() - 1));
        lemma_coerce_preserves(cs[cs.len() - 1]);
        assert forall|i: int| 0 <= i < cs.len() implies #[trigger] spec_coerce_plans(cs)[i]
            == spec_coerce_plan(cs[i]) by {
            if i < cs.len() - 1 {
                assert(cs.subrange(0, cs.len() - 1)[i] == cs[i]);
            }
        }
        assert forall|i: int| 0 <= i < cs.len() implies spec_plan_schema(
            #[trigger] spec_coerce_plans(cs)[i],
        ) == spec_plan_schema(cs[i]) && (spec_plan_wf(cs[i]) ==> spec_plan_wf(
            spec_coerce_plans(cs)[i],
        )) by {
            lemma_coerce_preserves(cs[i]);
        }
    }
}

/// Coerces one expression.
fn coerce_expr(e: Expr) -> (r: Expr)
    ensures
        r.deep_view() == spec_coerce_expr(e.deep_view()),
    decreases e,
{
    match e {
        Expr::Literal(ScalarValue::Int64(v)) => Expr::Literal(
            ScalarValue::UInt64(
                match v {
                    Some(i) => Some(#[verifier::truncate] (i as u64)),
                    None => None,
                },
            ),
        ),
        Expr::AggregateCall { func, arg } => Expr::AggregateCall {
            func,
            arg: Box::new(coerce_expr(*arg)),
        },
        other => other,
    }
}

/// Coerces a list of expressions.
fn coerce_exprs(es: Vec<Expr>) -> (r: Vec<Expr>)
    ensures
        r.deep_view() == spec_coerce_exprs(es.deep_view()),
{
    let ghost orig = es.deep_view();
    let mut es = es;
    let mut r: Vec<Expr> = Vec::new();
    while es.len() > 0
        invariant
            r@.len() + es@.len() == orig.len(),
            forall|j: int| 0 <= j < r@.len() ==> #[trigger] r@[j].deep_view() == spec_coerce_expr(
                orig[j],
            ),
            forall|j: int| 0 <= j < es@.len() ==> #[trigger] es@[j].deep_view() == orig[r@.len()
                + j],
        decreases es@.len(),
    {
        let ghost before = es@;
        let e = es.remove(0);
        proof {
            assert forall|j: int| 0 <= j < es@.len() implies #[trigger] es@[j].deep_view()
                == orig[r@.len() + 1 + j] by {
                assert(es@[j] == before[j + 1]);
            }
        }
        let c = coerce_expr(e);
        r.push(c);
    }
    proof {
        assert(r.deep_view() =~= spec_coerce_exprs(orig));
    }
    r
}

/// Coerces a whole tree.
#[verifier::loop_isolation(false)]
fn coerce_plan(plan: LogicalPlan) -> (r: LogicalPlan)
    ensures
        r.deep_view() == spec_coerce_plan(plan.deep_view()),
    decreases crate::plan::spec_plan_height(plan.deep_view()),
{
    match plan {
        LogicalPlan::Projection { exprs, schema, input } => LogicalPlan::Projection {
            exprs: coerce_exprs(exprs),
            schema,
            input: Box::new(coerce_plan(*input)),
        },
        LogicalPlan::Filter { predicate, input } => LogicalPlan::Filter {
            predicate,
            input: Box::new(coerce_plan(*input)),
        },
        LogicalPlan::Aggregate { group, aggr, schema, input } => LogicalPlan::Aggregate {
            group,
            aggr,
            schema,
            input: Box::new(coerce_plan(*input)),
        },
        LogicalPlan::Sort { sort_exprs, input } => LogicalPlan::Sort {
            sort_exprs,
            input: Box::new(coerce_plan(*input)),
        },
        LogicalPlan::Limit { fetch, input } => LogicalPlan::Limit {
            fetch,
            input: Box::new(coerce_plan(*input)),
        },
        LogicalPlan::Union { left, right } => LogicalPlan::Union {
            left: Box::new(coerce_plan(*left)),
            right: Box::new(coerce_plan(*right)),
        },
        LogicalPlan::Extension { node } => {
            let ghost before = spec_plans_view(node.inputs@);
            proof {
                lemma_plans_view(node.inputs@);
                crate::plan::lemma_plans_height(before);
            }
            let mut new_inputs: Vec<LogicalPlan> = Vec::new();
            let mut i: usize = 0;
            while i < node.inputs.len()
                invariant
                    i <= node.inputs.len(),
                    new_inputs@.len() == i,
                    forall|j: int| 0 <= j < i ==> #[trigger] spec_plan_view(new_inputs@[j])
                        == spec_coerce_plan(before[j]),
                decreases node.inputs.len() - i,
            {
                let child = node.inputs[i].clone();
                proof {
                    assert(crate::plan::spec_plan_height(before[i as int])
                        <= crate::plan::spec_plans_height(before));
                }
                let c = coerce_plan(child);
                new_inputs.push(c);
                i = i + 1;
            }
            let new_exprs = crate::expr::clone_exprs(&node.exprs);
            proof {
                lemma_plans_view(new_inputs@);
            }
            let rebuilt = node.with_exprs_and_inputs(new_exprs, new_inputs);
            let r = LogicalPlan::Extension { node: rebuilt };
            proof {
                lemma_coerce_plans(before);
                assert(rebuilt.deep_view().inputs =~= spec_coerce_plans(before));
                assert(r.deep_view() == spec_coerce_plan(plan.deep_view()));
            }
            r
        },
        other => other,
    }
}

/// Analyzer rule that rewrites signed integer literals in projections to
/// unsigned ones, a worked example of semantic normalization.
#[derive(Debug, Default)]
pub struct MyAnalyzerRule;

impl AnalyzerRule for MyAnalyzerRule {
    open spec fn model(&self, plan: SpecPlan) -> SpecPlan {
        spec_coerce_plan(plan)
    }

    fn name(&self) -> (r: String)
        ensures
            r@ == "my_analyzer_rule"@,
    {
        String::from_str("my_analyzer_rule")
    }

    /// The rewrite never fails and returns exactly the coerced tree.
    fn analyze(&self, plan: LogicalPlan) -> (r: Result<LogicalPlan, PlanError>)
        ensures
            r matches Ok(p) ==> p.deep_view() == spec_coerce_plan(plan.deep_view()),
            r is Ok,
    {
        proof {
            lemma_coerce_preserves(plan.deep_view());
        }
        Ok(coerce_plan(plan))
    }
}

} // verus!
