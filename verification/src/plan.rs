//! The logical plan tree: built-in operator kinds plus one extension slot
//! that lets foreign code define new operator kinds, matched generically.

use vstd::prelude::*;
use crate::error::{InvariantLevel, PlanError};
use crate::expr::{
    clone_exprs, join_exprs, join_sort_exprs, spec_exprs_joined, spec_sort_exprs_joined,
    spec_display_expr, Expr, SortExpr, SpecExpr, SpecSortExpr,
};
use crate::format::{spec_u64_digits, u64_string};
use crate::schema::{Schema, SpecSchema};

verus! {

/// Configuration of an extension node's self-consistency check: whether the
/// check fails, and at which checkpoint level.
#[derive(Clone, Copy, Debug, PartialEq, Eq, Structural)]
pub struct InvariantMock {
    pub should_fail_invariant: bool,
    pub kind: InvariantLevel,
}

/// The mathematical model of an extension node.
pub struct SpecExtensionNode {
    pub name: Seq<char>,
    pub explain: Seq<char>,
    pub inputs: Seq<SpecPlan>,
    pub exprs: Seq<SpecExpr>,
    pub params: Seq<u64>,
    pub supports_limit_pushdown: bool,
    pub invariant_mock: Option<InvariantMock>,
}

/// The mathematical model of a logical plan node.
pub enum SpecPlan {
    TableScan { name: Seq<char>, schema: SpecSchema },
    EmptyRelation { produce_one_row: bool, schema: SpecSchema },
    Filter { predicate: SpecExpr, input: Box<SpecPlan> },
    Projection { exprs: Seq<SpecExpr>, schema: SpecSchema, input: Box<SpecPlan> },
    Aggregate { group: Seq<SpecExpr>, aggr: Seq<SpecExpr>, schema: SpecSchema, input: Box<SpecPlan> },
    Sort { sort_exprs: Seq<SpecSortExpr>, input: Box<SpecPlan> },
    Limit { fetch: u64, input: Box<SpecPlan> },
    Union { left: Box<SpecPlan>, right: Box<SpecPlan> },
    Extension { node: SpecExtensionNode },
}

/// A foreign operator kind, projected onto the capability set every extension
/// must supply: a stable name (also the type tag the planner dispatch matches
/// on), the ordered child plans, the owned scalar expressions, kind-specific
/// integer parameters, a display rendering fixed at construction, a limit
/// push-down declaration, and the configuration of its invariant check.
#[derive(Debug)]
pub struct ExtensionNode {
    pub name: String,
    pub explain: String,
    pub inputs: Vec<LogicalPlan>,
    pub exprs: Vec<Expr>,
    pub params: Vec<u64>,
    pub supports_limit_pushdown: bool,
    pub invariant_mock: Option<InvariantMock>,
}

/// A logical plan node: a tagged union over built-in kinds plus one
/// `Extension` variant carrying a foreign operator.
#[derive(Debug)]
pub enum LogicalPlan {
    TableScan { name: String, schema: Schema },
    EmptyRelation { produce_one_row: bool, schema: Schema },
    Filter { predicate: Expr, input: Box<LogicalPlan> },
    Projection { exprs: Vec<Expr>, schema: Schema, input: Box<LogicalPlan> },
    Aggregate { group: Vec<Expr>, aggr: Vec<Expr>, schema: Schema, input: Box<LogicalPlan> },
    Sort { sort_exprs: Vec<SortExpr>, input: Box<LogicalPlan> },
    Limit { fetch: u64, input: Box<LogicalPlan> },
    Union { left: Box<LogicalPlan>, right: Box<LogicalPlan> },
    Extension { node: ExtensionNode },
}

/// The models of a sequence of plan nodes.
pub open spec fn spec_plans_view(v: Seq<LogicalPlan>) -> Seq<SpecPlan>
    decreases v,
{
    if v.len() == 0 {
        Seq::empty()
    } else {
        spec_plans_view(v.subrange(0, v.len() - 1)).push(spec_plan_view(v[v.len() - 1]))
    }
}

/// The models of a sequence of plans, element by element.
pub proof fn lemma_plans_view(v: Seq<LogicalPlan>)
    ensures
        spec_plans_view(v).len() == v.len(),
        forall|i: int| 0 <= i < v.len() ==> #[trigger] spec_plans_view(v)[i] == spec_plan_view(
            v[i],
        ),
    decreases v.len(),
{
    if v.len() > 0 {
        lemma_plans_view(v.subrange(0, v.len() - 1));
        assert forall|i: int| 0 <= i < v.len() implies #[trigger] spec_plans_view(v)[i]
            == spec_plan_view(v[i]) by {
            if i < v.len() - 1 {
                assert(v.subrange(0, v.len() - 1)[i] == v[i]);
            }
        }
    }
}

/// The model of a plan node.
pub open spec fn spec_plan_view(p: LogicalPlan) -> SpecPlan
    decreases p,
{
    match p {
        LogicalPlan::TableScan { name, schema } => SpecPlan::TableScan {
            name: name@,
            schema: schema@,
        },
        LogicalPlan::EmptyRelation { produce_one_row, schema } => SpecPlan::EmptyRelation {
            produce_one_row,
            schema: schema@,
        },
        LogicalPlan::Filter { predicate, input } => SpecPlan::Filter {
            predicate: predicate.deep_view(),
            input: Box::new(spec_plan_view(*input)),
        },
        LogicalPlan::Projection { exprs, schema, input } => SpecPlan::Projection {
            exprs: exprs.deep_view(),
            schema: schema@,
            input: Box::new(spec_plan_view(*input)),
        },
        LogicalPlan::Aggregate { group, aggr, schema, input } => SpecPlan::Aggregate {
            group: group.deep_view(),
            aggr: aggr.deep_view(),
            schema: schema@,
            input: Box::new(spec_plan_view(*input)),
        },
        LogicalPlan::Sort { sort_exprs, input } => SpecPlan::Sort {
            sort_exprs: sort_exprs.deep_view(),
            input: Box::new(spec_plan_view(*input)),
        },
        LogicalPlan::Limit { fetch, input } => SpecPlan::Limit {
            fetch,
            input: Box::new(spec_plan_view(*input)),
        },
        LogicalPlan::Union { left, right } => SpecPlan::Union {
            left: Box::new(spec_plan_view(*left)),
            right: Box::new(spec_plan_view(*right)),
        },
        LogicalPlan::Extension { node } => SpecPlan::Extension {
            node: SpecExtensionNode {
                name: node.name@,
                explain: node.explain@,
                inputs: spec_plans_view(node.inputs@),
                exprs: node.exprs.deep_view(),
                params: node.params@,
                supports_limit_pushdown: node.supports_limit_pushdown,
                invariant_mock: node.invariant_mock,
            },
        },
    }
}

impl DeepView for LogicalPlan {
    type V = SpecPlan;

    open spec fn deep_view(&self) -> SpecPlan {
        spec_plan_view(*self)
    }
}

impl View for LogicalPlan {
    type V = SpecPlan;

    open spec fn view(&self) -> SpecPlan {
        spec_plan_view(*self)
    }
}

impl DeepView for ExtensionNode {
    type V = SpecExtensionNode;

    open spec fn deep_view(&self) -> SpecExtensionNode {
        SpecExtensionNode {
            name: self.name@,
            explain: self.explain@,
            inputs: spec_plans_view(self.inputs@),
            exprs: self.exprs.deep_view(),
            params: self.params@,
            supports_limit_pushdown: self.supports_limit_pushdown,
            invariant_mock: self.invariant_mock,
        }
    }
}

/// The derived output schema of a plan node.  Pass-through nodes expose their
/// single input's schema; an extension node exposes its first input's schema.
pub open spec fn spec_plan_schema(p: SpecPlan) -> SpecSchema
    decreases p,
{
    match p {
        SpecPlan::TableScan { schema, .. } => schema,
        SpecPlan::EmptyRelation { schema, .. } => schema,
        SpecPlan::Filter { input, .. } => spec_plan_schema(*input),
        SpecPlan::Projection { schema, .. } => schema,
        SpecPlan::Aggregate { schema, .. } => schema,
        SpecPlan::Sort { input, .. } => spec_plan_schema(*input),
        SpecPlan::Limit { input, .. } => spec_plan_schema(*input),
        SpecPlan::Union { left, .. } => spec_plan_schema(*left),
        SpecPlan::Extension { node } => {
            if node.inputs.len() > 0 {
                spec_plan_schema(node.inputs[0])
            } else {
                SpecSchema { fields: Seq::empty() }
            }
        },
    }
}

/// Well-formedness of a plan: every extension node declares at least one
/// child input (its output schema is its first input's schema).
pub open spec fn spec_plan_wf(p: SpecPlan) -> bool
    decreases p,
{
    match p {
        SpecPlan::TableScan { .. } => true,
        SpecPlan::EmptyRelation { .. } => true,
        SpecPlan::Filter { input, .. } => spec_plan_wf(*input),
        SpecPlan::Projection { input, .. } => spec_plan_wf(*input),
        SpecPlan::Aggregate { input, .. } => spec_plan_wf(*input),
        SpecPlan::Sort { input, .. } => spec_plan_wf(*input),
        SpecPlan::Limit { input, .. } => spec_plan_wf(*input),
        SpecPlan::Union { left, right } => spec_plan_wf(*left) && spec_plan_wf(*right),
        SpecPlan::Extension { node } => node.inputs.len() >= 1 && (forall|i: int|
            0 <= i < node.inputs.len() ==> spec_plan_wf(#[trigger] node.inputs[i])),
    }
}

/// Whether an extension node's invariant check fails at the given level.
pub open spec fn spec_node_fails(node: SpecExtensionNode, level: InvariantLevel) -> bool {
    match node.invariant_mock {
        Some(m) => m.should_fail_invariant && m.kind == level,
        None => false,
    }
}

/// Whether every extension node in the tree passes its invariant check at the
/// given level.
pub open spec fn spec_tree_invariants_ok(p: SpecPlan, level: InvariantLevel) -> bool
    decreases p,
{
    match p {
        SpecPlan::TableScan { .. } => true,
        SpecPlan::EmptyRelation { .. } => true,
        SpecPlan::Filter { input, .. } => spec_tree_invariants_ok(*input, level),
        SpecPlan::Projection { input, .. } => spec_tree_invariants_ok(*input, level),
        SpecPlan::Aggregate { input, .. } => spec_tree_invariants_ok(*input, level),
        SpecPlan::Sort { input, .. } => spec_tree_invariants_ok(*input, level),
        SpecPlan::Limit { input, .. } => spec_tree_invariants_ok(*input, level),
        SpecPlan::Union { left, right } => spec_tree_invariants_ok(*left, level)
            && spec_tree_invariants_ok(*right, level),
        SpecPlan::Extension { node } => !spec_node_fails(node, level) && (forall|i: int|
            0 <= i < node.inputs.len() ==> spec_tree_invariants_ok(
                #[trigger] node.inputs[i],
                level,
            )),
    }
}

/// The one-line label of a plan node, without its children.
pub open spec fn spec_plan_label(p: SpecPlan) -> Seq<char> {
    match p {
        SpecPlan::TableScan { name, .. } => "TableScan: "@ + name,
        SpecPlan::EmptyRelation { .. } => "EmptyRelation"@,
        SpecPlan::Filter { predicate, .. } => "Filter: "@ + spec_display_expr(predicate),
        SpecPlan::Projection { exprs, .. } => "Projection: "@ + spec_exprs_joined(exprs),
        SpecPlan::Aggregate { group, aggr, .. } => "Aggregate: groupBy=[["@ + spec_exprs_joined(
            group,
        ) + "]], aggr=[["@ + spec_exprs_joined(aggr) + "]]"@,
        SpecPlan::Sort { sort_exprs, .. } => "Sort: "@ + spec_sort_exprs_joined(sort_exprs),
        SpecPlan::Limit { fetch, .. } => "Limit: fetch="@ + spec_u64_digits(fetch as nat),
        SpecPlan::Union { .. } => "Union"@,
        SpecPlan::Extension { node } => node.explain,
    }
}

/// The indented rendering of a plan: the node's label behind `prefix`, then
/// each child on its own line, indented two further spaces.
pub open spec fn spec_display_plan(p: SpecPlan, prefix: Seq<char>) -> Seq<char>
    decreases p,
{
    match p {
        SpecPlan::Filter { input, .. } => prefix + spec_plan_label(p) + "\n"@ + spec_display_plan(
            *input,
            prefix + "  "@,
        ),
        SpecPlan::Projection { input, .. } => prefix + spec_plan_label(p) + "\n"@
            + spec_display_plan(*input, prefix + "  "@),
        SpecPlan::Aggregate { input, .. } => prefix + spec_plan_label(p) + "\n"@
            + spec_display_plan(*input, prefix + "  "@),
        SpecPlan::Sort { input, .. } => prefix + spec_plan_label(p) + "\n"@ + spec_display_plan(
            *input,
            prefix + "  "@,
        ),
        SpecPlan::Limit { input, .. } => prefix + spec_plan_label(p) + "\n"@ + spec_display_plan(
            *input,
            prefix + "  "@,
        ),
        SpecPlan::Union { left, right } => prefix + spec_plan_label(p) + "\n"@ + spec_display_plan(
            *left,
            prefix + "  "@,
        ) + "\n"@ + spec_display_plan(*right, prefix + "  "@),
        SpecPlan::Extension { node } => prefix + node.explain + spec_display_children(
            node.inputs,
            prefix + "  "@,
            0,
        ),
        _ => prefix + spec_plan_label(p),
    }
}

/// The rendering of the children from index `i` on, each on its own line.
pub open spec fn spec_display_children(cs: Seq<SpecPlan>, prefix: Seq<char>, i: int) -> Seq<char>
    decreases cs, cs.len() - i,
{
    if i < 0 || i >= cs.len() {
        Seq::empty()
    } else {
        "\n"@ + spec_display_plan(cs[i], prefix) + spec_display_children(cs, prefix, i + 1)
    }
}

impl ExtensionNode {
    /// The node's stable name.
    pub fn name(&self) -> (r: &String)
        ensures
            r@ == self.deep_view().name,
    {
        &self.name
    }

    /// The node's ordered child plans.
    pub fn inputs(&self) -> (r: &Vec<LogicalPlan>)
        ensures
            r.deep_view() == self.deep_view().inputs,
    {
        proof {
            lemma_plans_view(self.inputs@);
            assert(self.inputs.deep_view() =~= self.deep_view().inputs);
        }
        &self.inputs
    }

    /// The scalar expressions the node owns.
    pub fn expressions(&self) -> (r: &Vec<Expr>)
        ensures
            r.deep_view() == self.deep_view().exprs,
    {
        &self.exprs
    }

    /// The display rendering supplied when the node was constructed.
    pub fn fmt_for_explain(&self) -> (r: String)
        ensures
            r@ == self.deep_view().explain,
    {
        self.explain.clone()
    }

    /// Whether limit operations may be pushed through the node.
    pub fn supports_limit_pushdown(&self) -> (r: bool)
        ensures
            r == self.deep_view().supports_limit_pushdown,
    {
        self.supports_limit_pushdown
    }

    /// The invariant check at a checkpoint level.  It fails exactly when the
    /// node is configured to fail at that level, with a message that names a
    /// failed check.
    pub fn check_invariants(&self, check: InvariantLevel) -> (r: Result<(), PlanError>)
        ensures
            r is Ok <==> !spec_node_fails(self.deep_view(), check),
            r matches Err(e) ==> e matches PlanError::InvariantViolation { level, message }
                && level == check && message@ == "node fails check, such as improper inputs"@,
    {
        match &self.invariant_mock {
            Some(m) => {
                if m.should_fail_invariant && m.kind == check {
                    Err(
                        PlanError::InvariantViolation {
                            level: check,
                            message: String::from_str(
                                "node fails check, such as improper inputs",
                            ),
                        },
                    )
                } else {
                    Ok(())
                }
            },
            None => Ok(()),
        }
    }

    /// The reconstruction operation: a new instance of the same logical kind,
    /// rebuilt from a replacement expression list and a replacement child
    /// list of the same arities.
    pub fn with_exprs_and_inputs(&self, exprs: Vec<Expr>, inputs: Vec<LogicalPlan>) -> (r:
        ExtensionNode)
        requires
            exprs.deep_view().len() == self.deep_view().exprs.len(),
            inputs.deep_view().len() == self.deep_view().inputs.len(),
        ensures
            r.deep_view() == (SpecExtensionNode {
                inputs: inputs.deep_view(),
                exprs: exprs.deep_view(),
                ..self.deep_view()
            }),
    {
        let r = ExtensionNode {
            name: self.name.clone(),
            explain: self.explain.clone(),
            inputs,
            exprs,
            params: self.params.clone(),
            supports_limit_pushdown: self.supports_limit_pushdown,
            invariant_mock: self.invariant_mock,
        };
        proof {
            assert(r.params@ =~= self.params@);
            lemma_plans_view(r.inputs@);
            assert(r.deep_view().inputs =~= r.inputs.deep_view());
            assert(r.deep_view() =~= (SpecExtensionNode {
                inputs: r.inputs.deep_view(),
                exprs: r.exprs.deep_view(),
                ..self.deep_view()
            }));
        }
        r
    }
}

/// Cloning a vector of plans keeps its value.
pub fn clone_plans(ps: &Vec<LogicalPlan>) -> (r: Vec<LogicalPlan>)
    ensures
        r.deep_view() == ps.deep_view(),
{
    let mut r: Vec<LogicalPlan> = Vec::new();
    let mut i: usize = 0;
    while i < ps.len()
        invariant
            i <= ps.len(),
            r@.len() == i,
            forall|j: int| 0 <= j < i ==> #[trigger] spec_plan_view(r[j]) == spec_plan_view(ps[j]),
        decreases ps.len() - i,
    {
        let p = ps[i].clone();
        r.push(p);
        i = i + 1;
    }
    proof {
        assert(r.deep_view() =~= ps.deep_view());
    }
    r
}

impl Clone for ExtensionNode {
    /// Cloning keeps the node's value.
    fn clone(&self) -> (r: Self)
        ensures
            r.deep_view() == self.deep_view(),
        decreases self,
    {
        let mut inputs: Vec<LogicalPlan> = Vec::new();
        let mut i: usize = 0;
        while i < self.inputs.len()
            invariant
                i <= self.inputs.len(),
                inputs@.len() == i,
                forall|j: int| 0 <= j < i ==> #[trigger] spec_plan_view(inputs[j])
                    == spec_plan_view(self.inputs[j]),
            decreases self.inputs.len() - i,
        {
            let p = self.inputs[i].clone();
            inputs.push(p);
            i = i + 1;
        }
        let r = ExtensionNode {
            name: self.name.clone(),
            explain: self.explain.clone(),
            inputs,
            exprs: clone_exprs(&self.exprs),
            params: self.params.clone(),
            supports_limit_pushdown: self.supports_limit_pushdown,
            invariant_mock: self.invariant_mock,
        };
        proof {
            assert(r.params@ =~= self.params@);
            lemma_plans_view(r.inputs@);
            lemma_plans_view(self.inputs@);
            assert(r.inputs@.len() == self.inputs@.len());
            assert(spec_plans_view(r.inputs@) =~= spec_plans_view(self.inputs@));
        }
        r
    }
}

impl Clone for LogicalPlan {
    /// Cloning keeps the plan's value.
    fn clone(&self) -> (r: Self)
        ensures
            r.deep_view() == self.deep_view(),
        decreases self,
    {
        match self {
            LogicalPlan::TableScan { name, schema } => LogicalPlan::TableScan {
                name: name.clone(),
                schema: schema.clone(),
            },
            LogicalPlan::EmptyRelation { produce_one_row, schema } => LogicalPlan::EmptyRelation {
                produce_one_row: *produce_one_row,
                schema: schema.clone(),
            },
            LogicalPlan::Filter { predicate, input } => LogicalPlan::Filter {
                predicate: predicate.clone(),
                input: Box::new((&**input).clone()),
            },
            LogicalPlan::Projection { exprs, schema, input } => LogicalPlan::Projection {
                exprs: clone_exprs(exprs),
                schema: schema.clone(),
                input: Box::new((&**input).clone()),
            },
            LogicalPlan::Aggregate { group, aggr, schema, input } => LogicalPlan::Aggregate {
                group: clone_exprs(group),
                aggr: clone_exprs(aggr),
                schema: schema.clone(),
                input: Box::new((&**input).clone()),
            },
            LogicalPlan::Sort { sort_exprs, input } => {
                let es = sort_exprs.clone();
                proof {
                    assert(es.deep_view() =~= sort_exprs.deep_view());
                }
                LogicalPlan::Sort { sort_exprs: es, input: Box::new((&**input).clone()) }
            },
            LogicalPlan::Limit { fetch, input } => LogicalPlan::Limit {
                fetch: *fetch,
                input: Box::new((&**input).clone()),
            },
            LogicalPlan::Union { left, right } => LogicalPlan::Union {
                left: Box::new((&**left).clone()),
                right: Box::new((&**right).clone()),
            },
            LogicalPlan::Extension { node } => LogicalPlan::Extension { node: node.clone() },
        }
    }
}

impl LogicalPlan {
    /// The node's derived output schema.
    pub fn schema(&self) -> (s: Schema)
        ensures
            s@ == spec_plan_schema(self.deep_view()),
        decreases self,
    {
        match self {
            LogicalPlan::TableScan { schema, .. } => schema.clone(),
            LogicalPlan::EmptyRelation { schema, .. } => schema.clone(),
            LogicalPlan::Filter { input, .. } => input.schema(),
            LogicalPlan::Projection { schema, .. } => schema.clone(),
            LogicalPlan::Aggregate { schema, .. } => schema.clone(),
            LogicalPlan::Sort { input, .. } => input.schema(),
            LogicalPlan::Limit { input, .. } => input.schema(),
            LogicalPlan::Union { left, .. } => left.schema(),
            LogicalPlan::Extension { node } => {
                proof {
                    lemma_plans_view(node.inputs@);
                }
                if node.inputs.len() > 0 {
                    proof {
                        assert(decreases_to!(*self => node.inputs));
                        assert(decreases_to!(node.inputs => node.inputs[0]));
                    }
                    let s0 = node.inputs[0].schema();
                    proof {
                        assert(node.deep_view().inputs[0] == spec_plan_view(node.inputs@[0]));
                        assert(spec_plan_schema(self.deep_view()) == spec_plan_schema(
                            node.deep_view().inputs[0],
                        ));
                    }
                    s0
                } else {
                    Schema::empty()
                }
            },
        }
    }

    /// Checks every extension node's invariants at the given level, walking
    /// the whole tree.  The first failing node aborts the walk.
    #[verifier::loop_isolation(false)]
    pub fn check_invariants(&self, level: InvariantLevel) -> (r: Result<(), PlanError>)
        ensures
            r is Ok <==> spec_tree_invariants_ok(self.deep_view(), level),
            r matches Err(e) ==> e matches PlanError::InvariantViolation { level: l, message }
                && l == level && message@ == "node fails check, such as improper inputs"@,
        decreases self,
    {
        match self {
            LogicalPlan::TableScan { .. } => Ok(()),
            LogicalPlan::EmptyRelation { .. } => Ok(()),
            LogicalPlan::Filter { input, .. } => input.check_invariants(level),
            LogicalPlan::Projection { input, .. } => input.check_invariants(level),
            LogicalPlan::Aggregate { input, .. } => input.check_invariants(level),
            LogicalPlan::Sort { input, .. } => input.check_invariants(level),
            LogicalPlan::Limit { input, .. } => input.check_invariants(level),
            LogicalPlan::Union { left, right } => {
                left.check_invariants(level)?;
                right.check_invariants(level)
            },
            LogicalPlan::Extension { node } => {
                node.check_invariants(level)?;
                let ghost cs = node.deep_view().inputs;
                proof {
                    lemma_plans_view(node.inputs@);
                }
                let mut i: usize = 0;
                while i < node.inputs.len()
                    invariant
                        i <= node.inputs.len(),
                        cs == node.deep_view().inputs,
                        cs.len() == node.inputs@.len(),
                        forall|j: int| 0 <= j < cs.len() ==> #[trigger] cs[j] == spec_plan_view(
                            node.inputs@[j],
                        ),
                        forall|j: int| 0 <= j < i ==> spec_tree_invariants_ok(
                            #[trigger] cs[j],
                            level,
                        ),
                        !spec_node_fails(node.deep_view(), level),
                    decreases node.inputs.len() - i,
                {
                    proof {
                        assert(decreases_to!(*self => node.inputs));
                        assert(decreases_to!(node.inputs => node.inputs[i as int]));
                    }
                    match node.inputs[i].check_invariants(level) {
                        Err(e) => {
                            proof {
                                assert(!spec_tree_invariants_ok(cs[i as int], level));
                                assert(spec_tree_invariants_ok(self.deep_view(), level)
                                    ==> spec_tree_invariants_ok(cs[i as int], level));
                            }
                            return Err(e);
                        },
                        Ok(()) => {},
                    }
                    i = i + 1;
                }
                Ok(())
            },
        }
    }

    /// Renders the plan tree, the root at `prefix` and each child two spaces
    /// further.
    #[verifier::loop_isolation(false)]
    pub fn display_at(&self, prefix: &String) -> (r: String)
        ensures
            r@ == spec_display_plan(self.deep_view(), prefix@),
        decreases self,
    {
        let mut s = prefix.clone();
        match self {
            LogicalPlan::TableScan { name, .. } => {
                s.append("TableScan: ");
                s.append(name.as_str());
                s
            },
            LogicalPlan::EmptyRelation { .. } => {
                s.append("EmptyRelation");
                s
            },
            LogicalPlan::Filter { predicate, input } => {
                s.append("Filter: ");
                s.append(predicate.display().as_str());
                s.append("\n");
                let mut child_prefix = prefix.clone();
                child_prefix.append("  ");
                s.append(input.display_at(&child_prefix).as_str());
                s
            },
            LogicalPlan::Projection { exprs, input, .. } => {
                s.append("Projection: ");
                s.append(join_exprs(exprs).as_str());
                s.append("\n");
                let mut child_prefix = prefix.clone();
                child_prefix.append("  ");
                s.append(input.display_at(&child_prefix).as_str());
                s
            },
            LogicalPlan::Aggregate { group, aggr, input, .. } => {
                s.append("Aggregate: groupBy=[[");
                s.append(join_exprs(group).as_str());
                s.append("]], aggr=[[");
                s.append(join_exprs(aggr).as_str());
                s.append("]]");
                s.append("\n");
                let mut child_prefix = prefix.clone();
                child_prefix.append("  ");
                s.append(input.display_at(&child_prefix).as_str());
                s
            },
            LogicalPlan::Sort { sort_exprs, input } => {
                s.append("Sort: ");
                s.append(join_sort_exprs(sort_exprs).as_str());
                s.append("\n");
                let mut child_prefix = prefix.clone();
                child_prefix.append("  ");
                s.append(input.display_at(&child_prefix).as_str());
                s
            },
            LogicalPlan::Limit { fetch, input } => {
                s.append("Limit: fetch=");
                s.append(u64_string(*fetch).as_str());
                s.append("\n");
                let mut child_prefix = prefix.clone();
                child_prefix.append("  ");
                s.append(input.display_at(&child_prefix).as_str());
                s
            },
            LogicalPlan::Union { left, right } => {
                s.append("Union");
                s.append("\n");
                let mut child_prefix = prefix.clone();
                child_prefix.append("  ");
                s.append(left.display_at(&child_prefix).as_str());
                s.append("\n");
                s.append(right.display_at(&child_prefix).as_str());
                s
            },
            LogicalPlan::Extension { node } => {
                s.append(node.explain.as_str());
                let mut child_prefix = prefix.clone();
                child_prefix.append("  ");
                let ghost cs = node.deep_view().inputs;
                let ghost whole = spec_display_plan(self.deep_view(), prefix@);
                proof {
                    lemma_plans_view(node.inputs@);
                    assert(whole =~= s@ + spec_display_children(cs, child_prefix@, 0));
                }
                let mut i: usize = 0;
                while i < node.inputs.len()
                    invariant
                        i <= node.inputs.len(),
                        cs == node.deep_view().inputs,
                        cs.len() == node.inputs@.len(),
                        forall|j: int| 0 <= j < cs.len() ==> #[trigger] cs[j] == spec_plan_view(
                            node.inputs@[j],
                        ),
                        child_prefix@ == prefix@ + "  "@,
                        whole == s@ + spec_display_children(cs, child_prefix@, i as int),
                    decreases node.inputs.len() - i,
                {
                    proof {
                        assert(decreases_to!(*self => node.inputs));
                        assert(decreases_to!(node.inputs => node.inputs[i as int]));
                    }
                    s.append("\n");
                    s.append(node.inputs[i].display_at(&child_prefix).as_str());
                    proof {
                        assert(whole =~= s@ + spec_display_children(cs, child_prefix@, i + 1));
                    }
                    i = i + 1;
                }
                proof {
                    assert(s@ + spec_display_children(cs, child_prefix@, node.inputs@.len() as int)
                        =~= s@);
                }
                s
            },
        }
    }

    /// Renders the plan tree with the root at the left margin.
    pub fn display_indent(&self) -> (r: String)
        ensures
            r@ == spec_display_plan(self.deep_view(), Seq::empty()),
    {
        let prefix = String::new();
        self.display_at(&prefix)
    }
}

/// The height of a plan tree; leaves have height one.
pub open spec fn spec_plan_height(p: SpecPlan) -> nat
    decreases p,
{
    match p {
        SpecPlan::TableScan { .. } => 1,
        SpecPlan::EmptyRelation { .. } => 1,
        SpecPlan::Filter { input, .. } => 1 + spec_plan_height(*input),
        SpecPlan::Projection { input, .. } => 1 + spec_plan_height(*input),
        SpecPlan::Aggregate { input, .. } => 1 + spec_plan_height(*input),
        SpecPlan::Sort { input, .. } => 1 + spec_plan_height(*input),
        SpecPlan::Limit { input, .. } => 1 + spec_plan_height(*input),
        SpecPlan::Union { left, right } => {
            let hl = spec_plan_height(*left);
            let hr = spec_plan_height(*right);
            1 + if hl >= hr {
                hl
            } else {
                hr
            }
        },
        SpecPlan::Extension { node } => 1 + spec_plans_height(node.inputs),
    }
}

/// The largest height among a sequence of plans; zero when empty.
pub open spec fn spec_plans_height(cs: Seq<SpecPlan>) -> nat
    decreases cs,
{
    if cs.len() == 0 {
        0
    } else {
        let rest = spec_plans_height(cs.subrange(0, cs.len() - 1));
        let last = spec_plan_height(cs[cs.len() - 1]);
        if last >= rest {
            last
        } else {
            rest
        }
    }
}

/// Every plan in a sequence is at most as high as the sequence's height.
pub proof fn lemma_plans_height(cs: Seq<SpecPlan>)
    ensures
        forall|i: int| 0 <= i < cs.len() ==> spec_plan_height(#[trigger] cs[i])
            <= spec_plans_height(cs),
    decreases cs.len(),
{
    if cs.len() > 0 {
        lemma_plans_height(cs.subrange(0, cs.len() - 1));
        assert forall|i: int| 0 <= i < cs.len() implies spec_plan_height(#[trigger] cs[i])
            <= spec_plans_height(cs) by {
            if i < cs.len() - 1 {
                assert(cs.subrange(0, cs.len() - 1)[i] == cs[i]);
            }
        }
    }
}

} // verus!
