//! [`EliminateFilter`] replaces a filter whose predicate is the boolean
//! literal `false` or the boolean null with an empty relation, and removes a
//! filter whose predicate is the literal `true`.

use vstd::prelude::*;
use crate::error::PlanError;
use crate::expr::{Expr, ScalarValue, SpecExpr, SpecScalar};
use crate::plan::{spec_plan_schema, LogicalPlan, SpecPlan};
use crate::rules::{ApplyOrder, OptimizerRule};
use crate::transformed::Transformed;

verus! {

/// Whether the node is a filter over a boolean literal predicate, the one
/// shape this rule rewrites.
pub open spec fn spec_is_boolean_literal_filter(p: SpecPlan) -> bool {
    p matches SpecPlan::Filter { predicate: SpecExpr::Literal(SpecScalar::Boolean(_)), .. }
}

/// Optimization rule that eliminates a constant-boolean filter: `true` keeps
/// only the input, `false` and null become an empty relation with the input's
/// schema.
#[derive(Debug, Default)]
pub struct EliminateFilter;

impl EliminateFilter {
    /// A fresh instance of the rule.
    pub fn new() -> (r: Self) {
        Self {  }
    }
}

impl OptimizerRule for EliminateFilter {
    fn name(&self) -> (r: String)
        ensures
            r@ == "eliminate_filter"@,
    {
        String::from_str("eliminate_filter")
    }

    fn apply_order(&self) -> (r: ApplyOrder)
        ensures
            r == ApplyOrder::TopDown,
    {
        ApplyOrder::TopDown
    }

    fn supports_rewrite(&self) -> (r: bool)
        ensures
            r,
    {
        true
    }

    /// The rewrite never fails.  A filter over the literal `true` becomes its
    /// input; over the literal `false` or the boolean null it becomes an
    /// empty relation carrying the input's schema; every other shape is
    /// returned unchanged with no change reported.
    fn rewrite(&self, plan: LogicalPlan) -> (r: Result<Transformed<LogicalPlan>, PlanError>)
        ensures
            r is Ok,
            r matches Ok(t) ==> {
                &&& (plan.deep_view() matches SpecPlan::Filter {
                    predicate: SpecExpr::Literal(SpecScalar::Boolean(Some(true))),
                    input,
                } ==> t.transformed && t.data.deep_view() == *input)
                &&& (plan.deep_view() matches SpecPlan::Filter {
                    predicate: SpecExpr::Literal(SpecScalar::Boolean(v)),
                    input,
                } ==> (v != Some(true) ==> t.transformed && t.data.deep_view()
                    == (SpecPlan::EmptyRelation {
                    produce_one_row: false,
                    schema: spec_plan_schema(*input),
                })))
                &&& (!spec_is_boolean_literal_filter(plan.deep_view()) ==> !t.transformed
                    && t.data.deep_view() == plan.deep_view())
            },
    {
        match plan {
            LogicalPlan::Filter { predicate, input } => {
                match predicate {
                    Expr::Literal(ScalarValue::Boolean(v)) => {
                        match v {
                            Some(true) => Ok(Transformed::yes(*input)),
                            _ => {
                                let schema = input.schema();
                                Ok(
                                    Transformed::yes(
                                        LogicalPlan::EmptyRelation {
                                            produce_one_row: false,
                                            schema,
                                        },
                                    ),
                                )
                            },
                        }
                    },
                    other => Ok(
                        Transformed::no(LogicalPlan::Filter { predicate: other, input }),
                    ),
                }
            },
            other => Ok(Transformed::no(other)),
        }
    }
}

} // verus!
