//! A convenience builder for logical plan trees, deriving each node's output
//! schema as it is stacked.

use vstd::prelude::*;
use crate::expr::{spec_display_expr, Expr, SortExpr, SpecExpr};
use crate::plan::{LogicalPlan, SpecPlan};
use crate::schema::{DataType, Field, Schema, SpecField, SpecSchema};

verus! {

/// The type of the named column in the fields, or a signed integer for a
/// name that is not there (aggregates and literals count as integers).
pub open spec fn spec_lookup_type(fields: Seq<SpecField>, name: Seq<char>) -> DataType
    decreases fields.len(),
{
    if fields.len() == 0 {
        DataType::Int64
    } else if fields[0].name == name {
        fields[0].data_type
    } else {
        spec_lookup_type(fields.subrange(1, fields.len() as int), name)
    }
}

/// The output column an expression produces over an input schema: named by
/// the expression's rendering, typed by the column it references.
pub open spec fn spec_expr_field(e: SpecExpr, input: SpecSchema) -> SpecField {
    SpecField {
        name: spec_display_expr(e),
        data_type: match e {
            SpecExpr::Column(n) => spec_lookup_type(input.fields, n),
            _ => DataType::Int64,
        },
    }
}

/// The output columns a list of expressions produces over an input schema.
pub open spec fn spec_expr_fields(es: Seq<SpecExpr>, input: SpecSchema) -> Seq<SpecField> {
    Seq::new(es.len(), |i: int| spec_expr_field(es[i], input))
}

/// Computes the output column of one expression.
#[verifier::loop_isolation(false)]
fn field_of_expr(e: &Expr, input: &Schema) -> (r: Field)
    ensures
        r@ == spec_expr_field(e.deep_view(), input@),
{
    let name = e.display();
    let data_type = match e {
        Expr::Column(n) => {
            let ghost fs = input@.fields;
            let mut t = DataType::Int64;
            let mut i: usize = 0;
            let mut found = false;
            proof {
                assert(fs.subrange(0, fs.len() as int) =~= fs);
            }
            while i < input.fields.len()
                invariant
                    i <= fs.len(),
                    fs.len() == input.fields@.len(),
                    found <==> exists|j: int| 0 <= j < i && #[trigger] fs[j].name == n@,
                    found ==> t == spec_lookup_type(fs, n@),
                    !found ==> t == DataType::Int64 && spec_lookup_type(
                        fs.subrange(i as int, fs.len() as int),
                        n@,
                    ) == spec_lookup_type(fs, n@),
                decreases fs.len() - i,
            {
                let f = &input.fields[i];
                proof {
                    assert(fs[i as int] == input.fields@[i as int]@);
                }
                if !found && f.name == *n {
                    t = f.data_type;
                    found = true;
                    proof {
                        lemma_lookup_prefix(fs, n@, i as int);
                    }
                } else {
                    proof {
                        if !found {
                            let tail = fs.subrange(i as int, fs.len() as int);
                            assert(tail[0] == fs[i as int]);
                            assert(tail.subrange(1, tail.len() as int) =~= fs.subrange(
                                i + 1,
                                fs.len() as int,
                            ));
                        }
                    }
                }
                i = i + 1;
            }
            proof {
                if !found {
                    assert(fs.subrange(fs.len() as int, fs.len() as int).len() == 0);
                }
            }
            t
        },
        _ => DataType::Int64,
    };
    Field { name, data_type }
}

/// Once a matching name is found at an index, the lookup over the whole
/// field list answers that index's type.
proof fn lemma_lookup_prefix(fields: Seq<SpecField>, name: Seq<char>, i: int)
    requires
        0 <= i < fields.len(),
        fields[i].name == name,
        forall|j: int| 0 <= j < i ==> #[trigger] fields[j].name != name,
    ensures
        spec_lookup_type(fields, name) == fields[i].data_type,
    decreases i,
{
    if i == 0 {
    } else {
        let rest = fields.subrange(1, fields.len() as int);
        assert(rest[i - 1] == fields[i]);
        assert forall|j: int| 0 <= j < i - 1 implies #[trigger] rest[j].name != name by {
            assert(rest[j] == fields[j + 1]);
        }
        lemma_lookup_prefix(rest, name, i - 1);
    }
}

/// Computes the output columns of a list of expressions.
fn fields_of_exprs(es: &Vec<Expr>, input: &Schema) -> (r: Vec<Field>)
    ensures
        r.deep_view() == spec_expr_fields(es.deep_view(), input@),
{
    let mut r: Vec<Field> = Vec::new();
    let mut i: usize = 0;
    while i < es.len()
        invariant
            i <= es@.len(),
            r@.len() == i,
            forall|j: int| 0 <= j < i ==> #[trigger] r@[j]@ == spec_expr_field(
                es@[j].deep_view(),
                input@,
            ),
        decreases es@.len() - i,
    {
        let f = field_of_expr(&es[i], input);
        r.push(f);
        i = i + 1;
    }
    proof {
        assert(r.deep_view() =~= spec_expr_fields(es.deep_view(), input@));
    }
    r
}

/// Builds logical plans bottom-up, one operator at a time.
#[derive(Debug)]
pub struct LogicalPlanBuilder {
    pub plan: LogicalPlan,
}

impl LogicalPlanBuilder {
    /// Starts from an existing plan.
    pub fn from(plan: LogicalPlan) -> (r: Self)
        ensures
            r.plan == plan,
    {
        LogicalPlanBuilder { plan }
    }

    /// Starts from a table scan resolved to the given qualified columns.
    pub fn table_scan(name: &str, fields: Vec<Field>) -> (r: Self)
        ensures
            r.plan.deep_view() == (SpecPlan::TableScan {
                name: name@,
                schema: SpecSchema { fields: fields.deep_view() },
            }),
    {
        LogicalPlanBuilder {
            plan: LogicalPlan::TableScan {
                name: String::from_str(name),
                schema: Schema::new(fields),
            },
        }
    }

    /// Stacks a filter with the given predicate.
    pub fn filter(self, predicate: Expr) -> (r: Self)
        ensures
            r.plan.deep_view() == (SpecPlan::Filter {
                predicate: predicate.deep_view(),
                input: Box::new(self.plan.deep_view()),
            }),
    {
        LogicalPlanBuilder {
            plan: LogicalPlan::Filter { predicate, input: Box::new(self.plan) },
        }
    }

    /// Stacks a projection; its schema derives from the expressions.
    pub fn project(self, exprs: Vec<Expr>) -> (r: Self)
        ensures
            r.plan.deep_view() == (SpecPlan::Projection {
                exprs: exprs.deep_view(),
                schema: SpecSchema {
                    fields: spec_expr_fields(
                        exprs.deep_view(),
                        crate::plan::spec_plan_schema(self.plan.deep_view()),
                    ),
                },
                input: Box::new(self.plan.deep_view()),
            }),
    {
        let input_schema = self.plan.schema();
        let fields = fields_of_exprs(&exprs, &input_schema);
        LogicalPlanBuilder {
            plan: LogicalPlan::Projection {
                exprs,
                schema: Schema::new(fields),
                input: Box::new(self.plan),
            },
        }
    }

    /// Stacks an aggregation; its schema is the group-by columns followed by
    /// the aggregate columns.
    pub fn aggregate(self, group: Vec<Expr>, aggr: Vec<Expr>) -> (r: Self)
        ensures
            r.plan.deep_view() == (SpecPlan::Aggregate {
                group: group.deep_view(),
                aggr: aggr.deep_view(),
                schema: SpecSchema {
                    fields: spec_expr_fields(
                        group.deep_view(),
                        crate::plan::spec_plan_schema(self.plan.deep_view()),
                    ) + spec_expr_fields(
                        aggr.deep_view(),
                        crate::plan::spec_plan_schema(self.plan.deep_view()),
                    ),
                },
                input: Box::new(self.plan.deep_view()),
            }),
    {
        let input_schema = self.plan.schema();
        let mut fields = fields_of_exprs(&group, &input_schema);
        let mut aggr_fields = fields_of_exprs(&aggr, &input_schema);
        let ghost gf = fields.deep_view();
        let ghost af = aggr_fields.deep_view();
        fields.append(&mut aggr_fields);
        proof {
            assert(fields.deep_view() =~= gf + af);
        }
        LogicalPlanBuilder {
            plan: LogicalPlan::Aggregate {
                group,
                aggr,
                schema: Schema::new(fields),
                input: Box::new(self.plan),
            },
        }
    }

    /// Stacks a sort with the given sort keys.
    pub fn sort(self, sort_exprs: Vec<SortExpr>) -> (r: Self)
        ensures
            r.plan.deep_view() == (SpecPlan::Sort {
                sort_exprs: sort_exprs.deep_view(),
                input: Box::new(self.plan.deep_view()),
            }),
    {
        LogicalPlanBuilder {
            plan: LogicalPlan::Sort { sort_exprs, input: Box::new(self.plan) },
        }
    }

    /// Stacks a limit fetching the given number of rows.
    pub fn limit(self, fetch: u64) -> (r: Self)
        ensures
            r.plan.deep_view() == (SpecPlan::Limit {
                fetch,
                input: Box::new(self.plan.deep_view()),
            }),
    {
        LogicalPlanBuilder { plan: LogicalPlan::Limit { fetch, input: Box::new(self.plan) } }
    }

    /// Stacks a union of this plan with another.
    pub fn union(self, other: LogicalPlan) -> (r: Self)
        ensures
            r.plan.deep_view() == (SpecPlan::Union {
                left: Box::new(self.plan.deep_view()),
                right: Box::new(other.deep_view()),
            }),
    {
        LogicalPlanBuilder {
            plan: LogicalPlan::Union { left: Box::new(self.plan), right: Box::new(other) },
        }
    }

    /// The finished plan.
    pub fn build(self) -> (r: LogicalPlan)
        ensures
            r == self.plan,
    {
        self.plan
    }
}

} // verus!
