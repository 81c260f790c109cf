//! The physical planner: lowers a finished logical tree into a physical
//! operator tree, delegating extension node kinds to an ordered chain of
//! registered extension planners, and executes the lowered operators that
//! this core provides streams for.

use vstd::prelude::*;
use crate::error::{ExecError, InvariantLevel, PlanError};
use crate::exec::{BatchStream, RecordBatch, SourceStream, TopKReader};
use crate::expr::{clone_exprs, Expr, SortExpr, SpecExpr, SpecSortExpr};
use crate::plan::{
    lemma_plans_view, spec_plan_schema, spec_plan_view, spec_plan_wf, spec_plans_view,
    spec_tree_invariants_ok, ExtensionNode, LogicalPlan, SpecExtensionNode,
};
use crate::properties::{
    Boundedness, EmissionType, EquivalenceProperties, Partitioning, PlanProperties,
};
use crate::schema::{Schema, SpecSchema};

verus! {

/// The mathematical model of a physical operator.
pub enum SpecPhysicalPlan {
    EmptyExec { produce_one_row: bool, schema: SpecSchema },
    SourceExec { name: Seq<char>, schema: SpecSchema, batches: Seq<crate::exec::SpecBatch> },
    FilterExec { predicate: SpecExpr, input: Box<SpecPhysicalPlan> },
    ProjectionExec { exprs: Seq<SpecExpr>, schema: SpecSchema, input: Box<SpecPhysicalPlan> },
    AggregateExec {
        group: Seq<SpecExpr>,
        aggr: Seq<SpecExpr>,
        schema: SpecSchema,
        input: Box<SpecPhysicalPlan>,
    },
    SortExec { sort_exprs: Seq<SpecSortExpr>, input: Box<SpecPhysicalPlan> },
    LimitExec { fetch: u64, input: Box<SpecPhysicalPlan> },
    UnionExec { left: Box<SpecPhysicalPlan>, right: Box<SpecPhysicalPlan> },
    TopKExec { k: u64, input: Box<SpecPhysicalPlan> },
    ExtensionExec { name: Seq<char>, inputs: Seq<SpecPhysicalPlan> },
}

/// A physical operator: constructed once per query, executed once per
/// requested partition index.
#[derive(Debug)]
pub enum PhysicalPlan {
    EmptyExec { produce_one_row: bool, schema: Schema },
    SourceExec { name: String, schema: Schema, batches: Vec<RecordBatch> },
    FilterExec { predicate: Expr, input: Box<PhysicalPlan> },
    ProjectionExec { exprs: Vec<Expr>, schema: Schema, input: Box<PhysicalPlan> },
    AggregateExec { group: Vec<Expr>, aggr: Vec<Expr>, schema: Schema, input: Box<PhysicalPlan> },
    SortExec { sort_exprs: Vec<SortExpr>, input: Box<PhysicalPlan> },
    LimitExec { fetch: u64, input: Box<PhysicalPlan> },
    UnionExec { left: Box<PhysicalPlan>, right: Box<PhysicalPlan> },
    TopKExec { k: u64, input: Box<PhysicalPlan> },
    ExtensionExec { name: String, inputs: Vec<PhysicalPlan> },
}

/// The models of a sequence of physical operators.
pub open spec fn spec_phys_plans_view(v: Seq<PhysicalPlan>) -> Seq<SpecPhysicalPlan>
    decreases v,
{
    if v.len() == 0 {
        Seq::empty()
    } else {
        spec_phys_plans_view(v.subrange(0, v.len() - 1)).push(spec_phys_view(v[v.len() - 1]))
    }
}

/// The models of a sequence of physical operators, element by element.
pub proof fn lemma_phys_plans_view(v: Seq<PhysicalPlan>)
    ensures
        spec_phys_plans_view(v).len() == v.len(),
        forall|i: int| 0 <= i < v.len() ==> #[trigger] spec_phys_plans_view(v)[i] == spec_phys_view(
            v[i],
        ),
    decreases v.len(),
{
    if v.len() > 0 {
        lemma_phys_plans_view(v.subrange(0, v.len() - 1));
        assert forall|i: int| 0 <= i < v.len() implies #[trigger] spec_phys_plans_view(v)[i]
            == spec_phys_view(v[i]) by {
            if i < v.len() - 1 {
                assert(v.subrange(0, v.len() - 1)[i] == v[i]);
            }
        }
    }
}

/// The model of a physical operator.
pub open spec fn spec_phys_view(p: PhysicalPlan) -> SpecPhysicalPlan
    decreases p,
{
    match p {
        PhysicalPlan::EmptyExec { produce_one_row, schema } => SpecPhysicalPlan::EmptyExec {
            produce_one_row,
            schema: schema@,
        },
        PhysicalPlan::SourceExec { name, schema, batches } => SpecPhysicalPlan::SourceExec {
            name: name@,
            schema: schema@,
            batches: batches.deep_view(),
        },
        PhysicalPlan::FilterExec { predicate, input } => SpecPhysicalPlan::FilterExec {
            predicate: predicate.deep_view(),
            input: Box::new(spec_phys_view(*input)),
        },
        PhysicalPlan::ProjectionExec { exprs, schema, input } => SpecPhysicalPlan::ProjectionExec {
            exprs: exprs.deep_view(),
            schema: schema@,
            input: Box::new(spec_phys_view(*input)),
        },
        PhysicalPlan::AggregateExec { group, aggr, schema, input } => SpecPhysicalPlan::AggregateExec {
            group: group.deep_view(),
            aggr: aggr.deep_view(),
            schema: schema@,
            input: Box::new(spec_phys_view(*input)),
        },
        PhysicalPlan::SortExec { sort_exprs, input } => SpecPhysicalPlan::SortExec {
            sort_exprs: sort_exprs.deep_view(),
            input: Box::new(spec_phys_view(*input)),
        },
        PhysicalPlan::LimitExec { fetch, input } => SpecPhysicalPlan::LimitExec {
            fetch,
            input: Box::new(spec_phys_view(*input)),
        },
        PhysicalPlan::UnionExec { left, right } => SpecPhysicalPlan::UnionExec {
            left: Box::new(spec_phys_view(*left)),
            right: Box::new(spec_phys_view(*right)),
        },
        PhysicalPlan::TopKExec { k, input } => SpecPhysicalPlan::TopKExec {
            k,
            input: Box::new(spec_phys_view(*input)),
        },
        PhysicalPlan::ExtensionExec { name, inputs } => SpecPhysicalPlan::ExtensionExec {
            name: name@,
            inputs: spec_phys_plans_view(inputs@),
        },
    }
}

impl DeepView for PhysicalPlan {
    type V = SpecPhysicalPlan;

    open spec fn deep_view(&self) -> SpecPhysicalPlan {
        spec_phys_view(*self)
    }
}

/// The derived output schema of a physical operator.  Pass-through operators
/// expose their single input's schema; an extension operator exposes its
/// first input's schema.
pub open spec fn spec_phys_schema(p: SpecPhysicalPlan) -> SpecSchema
    decreases p,
{
    match p {
        SpecPhysicalPlan::EmptyExec { schema, .. } => schema,
        SpecPhysicalPlan::SourceExec { schema, .. } => schema,
        SpecPhysicalPlan::FilterExec { input, .. } => spec_phys_schema(*input),
        SpecPhysicalPlan::ProjectionExec { schema, .. } => schema,
        SpecPhysicalPlan::AggregateExec { schema, .. } => schema,
        SpecPhysicalPlan::SortExec { input, .. } => spec_phys_schema(*input),
        SpecPhysicalPlan::LimitExec { input, .. } => spec_phys_schema(*input),
        SpecPhysicalPlan::UnionExec { left, .. } => spec_phys_schema(*left),
        SpecPhysicalPlan::TopKExec { input, .. } => spec_phys_schema(*input),
        SpecPhysicalPlan::ExtensionExec { inputs, .. } => {
            if inputs.len() > 0 {
                spec_phys_schema(inputs[0])
            } else {
                SpecSchema { fields: Seq::empty() }
            }
        },
    }
}

impl Clone for PhysicalPlan {
    /// Cloning keeps the operator's value.
    #[verifier::loop_isolation(false)]
    fn clone(&self) -> (r: Self)
        ensures
            r.deep_view() == self.deep_view(),
        decreases self,
    {
        match self {
            PhysicalPlan::EmptyExec { produce_one_row, schema } => PhysicalPlan::EmptyExec {
                produce_one_row: *produce_one_row,
                schema: schema.clone(),
            },
            PhysicalPlan::SourceExec { name, schema, batches } => {
                let mut bs: Vec<RecordBatch> = Vec::new();
                let mut i: usize = 0;
                while i < batches.len()
                    invariant
                        i <= batches.len(),
                        bs@.len() == i,
                        forall|j: int| 0 <= j < i ==> #[trigger] bs@[j].deep_view()
                            == batches@[j].deep_view(),
                    decreases batches.len() - i,
                {
                    let b = batches[i].clone();
                    bs.push(b);
                    i = i + 1;
                }
                proof {
                    assert(bs.deep_view() =~= batches.deep_view());
                }
                PhysicalPlan::SourceExec { name: name.clone(), schema: schema.clone(), batches: bs }
            },
            PhysicalPlan::FilterExec { predicate, input } => PhysicalPlan::FilterExec {
                predicate: predicate.clone(),
                input: Box::new((&**input).clone()),
            },
            PhysicalPlan::ProjectionExec { exprs, schema, input } => PhysicalPlan::ProjectionExec {
                exprs: clone_exprs(exprs),
                schema: schema.clone(),
                input: Box::new((&**input).clone()),
            },
            PhysicalPlan::AggregateExec { group, aggr, schema, input } => PhysicalPlan::AggregateExec {
                group: clone_exprs(group),
                aggr: clone_exprs(aggr),
                schema: schema.clone(),
                input: Box::new((&**input).clone()),
            },
            PhysicalPlan::SortExec { sort_exprs, input } => {
                let es = sort_exprs.clone();
                proof {
                    assert(es.deep_view() =~= sort_exprs.deep_view());
                }
                PhysicalPlan::SortExec { sort_exprs: es, input: Box::new((&**input).clone()) }
            },
            PhysicalPlan::LimitExec { fetch, input } => PhysicalPlan::LimitExec {
                fetch: *fetch,
                input: Box::new((&**input).clone()),
            },
            PhysicalPlan::UnionExec { left, right } => PhysicalPlan::UnionExec {
                left: Box::new((&**left).clone()),
                right: Box::new((&**right).clone()),
            },
            PhysicalPlan::TopKExec { k, input } => PhysicalPlan::TopKExec {
                k: *k,
                input: Box::new((&**input).clone()),
            },
            PhysicalPlan::ExtensionExec { name, inputs } => {
                let mut ins: Vec<PhysicalPlan> = Vec::new();
                let mut i: usize = 0;
                while i < inputs.len()
                    invariant
                        i <= inputs.len(),
                        ins@.len() == i,
                        forall|j: int| 0 <= j < i ==> #[trigger] spec_phys_view(ins@[j])
                            == spec_phys_view(inputs@[j]),
                    decreases inputs.len() - i,
                {
                    proof {
                        assert(decreases_to!(*self => inputs));
                        assert(decreases_to!(inputs => inputs[i as int]));
                    }
                    let p = inputs[i].clone();
                    ins.push(p);
                    i = i + 1;
                }
                proof {
                    lemma_phys_plans_view(ins@);
                    lemma_phys_plans_view(inputs@);
                    assert(spec_phys_plans_view(ins@) =~= spec_phys_plans_view(inputs@));
                }
                PhysicalPlan::ExtensionExec { name: name.clone(), inputs: ins }
            },
        }
    }
}

impl PhysicalPlan {
    /// The operator's property descriptor, recomputed from its structure:
    /// one partition under an unknown scheme, bounded, no declared ordering,
    /// emitting only at the end for the blocking operators (sort and
    /// aggregation) and incrementally otherwise.
    pub fn properties(&self) -> (r: PlanProperties)
        ensures
            r.deep_view().schema == spec_phys_schema(self.deep_view()),
            r.deep_view().orderings.len() == 0,
            r.deep_view().partitioning == crate::properties::SpecPartitioning::UnknownPartitioning(
                1,
            ),
            r.deep_view().boundedness == Boundedness::Bounded,
            r.deep_view().emission_type == (if self.deep_view() is SortExec || self.deep_view()
                is AggregateExec {
                EmissionType::Final
            } else {
                EmissionType::Incremental
            }),
        decreases self,
    {
        let schema = self.schema();
        let emission_type = match self {
            PhysicalPlan::SortExec { .. } => EmissionType::Final,
            PhysicalPlan::AggregateExec { .. } => EmissionType::Final,
            _ => EmissionType::Incremental,
        };
        PlanProperties::new(
            EquivalenceProperties::new(schema),
            Partitioning::UnknownPartitioning(1),
            emission_type,
            Boundedness::Bounded,
        )
    }

    /// The operator's derived output schema.
    pub fn schema(&self) -> (s: Schema)
        ensures
            s@ == spec_phys_schema(self.deep_view()),
        decreases self,
    {
        match self {
            PhysicalPlan::EmptyExec { schema, .. } => schema.clone(),
            PhysicalPlan::SourceExec { schema, .. } => schema.clone(),
            PhysicalPlan::FilterExec { input, .. } => input.schema(),
            PhysicalPlan::ProjectionExec { schema, .. } => schema.clone(),
            PhysicalPlan::AggregateExec { schema, .. } => schema.clone(),
            PhysicalPlan::SortExec { input, .. } => input.schema(),
            PhysicalPlan::LimitExec { input, .. } => input.schema(),
            PhysicalPlan::UnionExec { left, .. } => left.schema(),
            PhysicalPlan::TopKExec { input, .. } => input.schema(),
            PhysicalPlan::ExtensionExec { name: _, inputs } => {
                proof {
                    lemma_phys_plans_view(inputs@);
                }
                if inputs.len() > 0 {
                    proof {
                        assert(decreases_to!(*self => inputs));
                        assert(decreases_to!(inputs => inputs[0]));
                    }
                    inputs[0].schema()
                } else {
                    Schema::empty()
                }
            },
        }
    }
}

/// An extension planner: one link of the chain-of-responsibility dispatch
/// the physical planner consults for extension nodes.  Whether a planner
/// recognizes a node is a function of the node alone, so the chain's winner
/// is determined by registration order.
pub trait ExtensionPlanner {
    /// Which extension nodes this planner recognizes.
    spec fn recognizes(&self, node: SpecExtensionNode) -> bool;

    /// Plans one extension node, given the already-lowered physical
    /// children, or answers `None` when the node is not recognized.
    fn plan_extension(&self, node: &ExtensionNode, physical_inputs: &Vec<PhysicalPlan>) -> (r:
        Result<Option<PhysicalPlan>, PlanError>)
        requires
            physical_inputs@.len() == node.deep_view().inputs.len(),
        ensures
            r matches Ok(o) ==> ((o is Some) <==> self.recognizes(node.deep_view())),
            r matches Ok(o) ==> (o matches Some(p) ==> physical_inputs@.len() > 0
                && spec_phys_schema(p.deep_view()) == spec_phys_schema(
                physical_inputs@[0].deep_view(),
            )),
            r is Err ==> self.recognizes(node.deep_view()),
    ;
}

/// The planner for top-k extension nodes: it recognizes the node kind named
/// `TopK` and lowers it to the bounded top-k physical operator.
#[derive(Debug)]
pub struct TopKPlanner;

impl ExtensionPlanner for TopKPlanner {
    open spec fn recognizes(&self, node: SpecExtensionNode) -> bool {
        node.name == "TopK"@
    }

    /// Relies on the node declaring the bound `k` as its one parameter, one
    /// ranking expression, and one child: a recognized node violating any of
    /// those declared counts is malformed, exactly then.
    fn plan_extension(&self, node: &ExtensionNode, physical_inputs: &Vec<PhysicalPlan>) -> (r:
        Result<Option<PhysicalPlan>, PlanError>)
        ensures
            r matches Ok(o) ==> ((o is Some) <==> self.recognizes(node.deep_view())),
            r matches Ok(o) ==> (o matches Some(p) ==> physical_inputs@.len() > 0
                && spec_phys_schema(p.deep_view()) == spec_phys_schema(
                physical_inputs@[0].deep_view(),
            )),
            r matches Ok(Some(p)) ==> p matches PhysicalPlan::TopKExec { k, input } && node
                .deep_view().params.len() == 1 && node.deep_view().exprs.len() == 1 && k == node
                .deep_view().params[0] && input.deep_view() == physical_inputs@[0].deep_view(),
            r is Err <==> self.recognizes(node.deep_view()) && !(node.deep_view().params.len()
                == 1 && node.deep_view().exprs.len() == 1 && node.deep_view().inputs.len() == 1),
    {
        let target = String::from_str("TopK");
        if node.name == target {
            if node.params.len() != 1 {
                return Err(PlanError::ArityMismatch { expected: 1, actual: node.params.len() });
            }
            if node.exprs.len() != 1 {
                return Err(PlanError::ArityMismatch { expected: 1, actual: node.exprs.len() });
            }
            if physical_inputs.len() != 1 {
                return Err(
                    PlanError::ArityMismatch { expected: 1, actual: physical_inputs.len() },
                );
            }
            let input = physical_inputs[0].clone();
            Ok(Some(PhysicalPlan::TopKExec { k: node.params[0], input: Box::new(input) }))
        } else {
            Ok(None)
        }
    }
}

/// A planner that recognizes one extension node kind by its stable name and
/// lowers it to an opaque pass-through extension operator, so independent
/// extensions can coexist in one chain.
#[derive(Debug)]
pub struct NamedExtensionPlanner {
    pub name: String,
}

impl ExtensionPlanner for NamedExtensionPlanner {
    open spec fn recognizes(&self, node: SpecExtensionNode) -> bool {
        node.name == self.name@
    }

    fn plan_extension(&self, node: &ExtensionNode, physical_inputs: &Vec<PhysicalPlan>) -> (r:
        Result<Option<PhysicalPlan>, PlanError>)
        ensures
            r matches Ok(o) ==> ((o is Some) <==> self.recognizes(node.deep_view())),
            r matches Ok(o) ==> (o matches Some(p) ==> physical_inputs@.len() > 0
                && spec_phys_schema(p.deep_view()) == spec_phys_schema(
                physical_inputs@[0].deep_view(),
            )),
            r matches Ok(Some(p)) ==> p matches PhysicalPlan::ExtensionExec { name, inputs }
                && name@ == node.deep_view().name && spec_phys_plans_view(inputs@)
                == spec_phys_plans_view(physical_inputs@),
            r is Err <==> self.recognizes(node.deep_view()) && node.deep_view().inputs.len()
                == 0,
    {
        if node.name == self.name {
            if physical_inputs.len() == 0 {
                return Err(PlanError::ArityMismatch { expected: 1, actual: 0 });
            }
            let mut ins: Vec<PhysicalPlan> = Vec::new();
            let mut i: usize = 0;
            while i < physical_inputs.len()
                invariant
                    i <= physical_inputs@.len(),
                    ins@.len() == i,
                    forall|j: int| 0 <= j < i ==> #[trigger] spec_phys_view(ins@[j])
                        == spec_phys_view(physical_inputs@[j]),
                decreases physical_inputs@.len() - i,
            {
                let p = physical_inputs[i].clone();
                ins.push(p);
                i = i + 1;
            }
            proof {
                lemma_phys_plans_view(ins@);
                lemma_phys_plans_view(physical_inputs@);
                assert(spec_phys_plans_view(ins@) =~= spec_phys_plans_view(physical_inputs@));
                assert(spec_phys_view(ins@[0]) == spec_phys_view(physical_inputs@[0]));
            }
            Ok(Some(PhysicalPlan::ExtensionExec { name: node.name.clone(), inputs: ins }))
        } else {
            Ok(None)
        }
    }
}

/// Consults the registered planners in order: each is asked in turn, the
/// first that returns a definite operator wins and no further planner is
/// consulted; if none recognizes the node, lowering fails with an
/// unsupported-operator error.  The returned index is the winning planner's
/// position, and every planner before it did not recognize the node.
#[verifier::loop_isolation(false)]
pub fn plan_with_extension_planners<P: ExtensionPlanner>(
    node: &ExtensionNode,
    physical_inputs: &Vec<PhysicalPlan>,
    planners: &Vec<P>,
) -> (r: Result<(PhysicalPlan, usize), PlanError>)
    requires
        physical_inputs@.len() == node.deep_view().inputs.len(),
    ensures
        r matches Ok((p, j)) ==> {
            &&& j < planners@.len()
            &&& planners@[j as int].recognizes(node.deep_view())
            &&& forall|i: int| 0 <= i < j ==> !planners@[i].recognizes(node.deep_view())
            &&& physical_inputs@.len() > 0
            &&& spec_phys_schema(p.deep_view()) == spec_phys_schema(
                physical_inputs@[0].deep_view(),
            )
        },
        (forall|i: int| 0 <= i < planners@.len() ==> !planners@[i].recognizes(node.deep_view()))
            ==> (r matches Err(e) && e matches PlanError::UnsupportedExtension { name } && name@
            == node.deep_view().name),
{
    let mut j: usize = 0;
    while j < planners.len()
        invariant
            j <= planners@.len(),
            forall|i: int| 0 <= i < j ==> !planners@[i].recognizes(node.deep_view()),
        decreases planners@.len() - j,
    {
        let planner = &planners[j];
        match planner.plan_extension(node, physical_inputs)? {
            Some(p) => {
                return Ok((p, j));
            },
            None => {
            },
        }
        j = j + 1;
    }
    Err(PlanError::UnsupportedExtension { name: node.name.clone() })
}

/// Whether a tree holds no extension node, so its lowering rests on the
/// built-in logic alone and never consults a planner.
pub open spec fn spec_extension_free(p: crate::plan::SpecPlan) -> bool
    decreases p,
{
    match p {
        crate::plan::SpecPlan::TableScan { .. } => true,
        crate::plan::SpecPlan::EmptyRelation { .. } => true,
        crate::plan::SpecPlan::Filter { input, .. } => spec_extension_free(*input),
        crate::plan::SpecPlan::Projection { input, .. } => spec_extension_free(*input),
        crate::plan::SpecPlan::Aggregate { input, .. } => spec_extension_free(*input),
        crate::plan::SpecPlan::Sort { input, .. } => spec_extension_free(*input),
        crate::plan::SpecPlan::Limit { input, .. } => spec_extension_free(*input),
        crate::plan::SpecPlan::Union { left, right } => spec_extension_free(*left)
            && spec_extension_free(*right),
        crate::plan::SpecPlan::Extension { .. } => false,
    }
}

/// Lowers one logical node into a physical operator, bottom-up: built-in
/// kinds lower directly and never fail, extension kinds go through the
/// planner chain.  The structural precondition between the lowered children
/// and the node's declared inputs holds by construction and stands as the
/// chain's precondition, discharged statically.
#[verifier::loop_isolation(false)]
fn lower<P: ExtensionPlanner>(plan: &LogicalPlan, planners: &Vec<P>) -> (r: Result<
    PhysicalPlan,
    PlanError,
>)
    ensures
        r matches Ok(p) ==> spec_phys_schema(p.deep_view()) == spec_plan_schema(plan.deep_view()),
        spec_extension_free(plan.deep_view()) ==> r is Ok,
    decreases plan,
{
    match plan {
        LogicalPlan::TableScan { name, schema } => Ok(
            PhysicalPlan::SourceExec {
                name: name.clone(),
                schema: schema.clone(),
                batches: Vec::new(),
            },
        ),
        LogicalPlan::EmptyRelation { produce_one_row, schema } => Ok(
            PhysicalPlan::EmptyExec { produce_one_row: *produce_one_row, schema: schema.clone() },
        ),
        LogicalPlan::Filter { predicate, input } => {
            let child = lower(&**input, planners)?;
            Ok(PhysicalPlan::FilterExec { predicate: predicate.clone(), input: Box::new(child) })
        },
        LogicalPlan::Projection { exprs, schema, input } => {
            let child = lower(&**input, planners)?;
            Ok(
                PhysicalPlan::ProjectionExec {
                    exprs: clone_exprs(exprs),
                    schema: schema.clone(),
                    input: Box::new(child),
                },
            )
        },
        LogicalPlan::Aggregate { group, aggr, schema, input } => {
            let child = lower(&**input, planners)?;
            Ok(
                PhysicalPlan::AggregateExec {
                    group: clone_exprs(group),
                    aggr: clone_exprs(aggr),
                    schema: schema.clone(),
                    input: Box::new(child),
                },
            )
        },
        LogicalPlan::Sort { sort_exprs, input } => {
            let child = lower(&**input, planners)?;
            let es = sort_exprs.clone();
            proof {
                assert(es.deep_view() =~= sort_exprs.deep_view());
            }
            Ok(PhysicalPlan::SortExec { sort_exprs: es, input: Box::new(child) })
        },
        LogicalPlan::Limit { fetch, input } => {
            let child = lower(&**input, planners)?;
            Ok(PhysicalPlan::LimitExec { fetch: *fetch, input: Box::new(child) })
        },
        LogicalPlan::Union { left, right } => {
            let l = lower(&**left, planners)?;
            let rgt = lower(&**right, planners)?;
            Ok(PhysicalPlan::UnionExec { left: Box::new(l), right: Box::new(rgt) })
        },
        LogicalPlan::Extension { node } => {
            let ghost lv = node.deep_view().inputs;
            proof {
                lemma_plans_view(node.inputs@);
            }
            let mut children: Vec<PhysicalPlan> = Vec::new();
            let mut i: usize = 0;
            while i < node.inputs.len()
                invariant
                    i <= node.inputs.len(),
                    children@.len() == i,
                    forall|j: int| 0 <= j < i ==> spec_phys_schema(
                        #[trigger] children@[j].deep_view(),
                    ) == spec_plan_schema(lv[j]),
                decreases node.inputs.len() - i,
            {
                proof {
                    assert(decreases_to!(*plan => node.inputs));
                    assert(decreases_to!(node.inputs => node.inputs[i as int]));
                }
                let child = lower(&node.inputs[i], planners)?;
                children.push(child);
                i = i + 1;
            }
            let (p, _winner) = plan_with_extension_planners(node, &children, planners)?;
            Ok(p)
        },
    }
}

/// Lowers a finished logical tree into a physical operator tree.  Just
/// before lowering, every extension node's `Executable` invariant is
/// checked unconditionally: a tree that is not yet executable aborts with an
/// invariant violation instead of being lowered.  A tree whose invariants
/// pass and which holds no extension node always lowers successfully; an
/// extension-bearing tree's outcome is the planner chain's.
pub fn create_physical_plan<P: ExtensionPlanner>(plan: &LogicalPlan, planners: &Vec<P>) -> (r:
    Result<PhysicalPlan, PlanError>)
    ensures
        r matches Ok(p) ==> spec_phys_schema(p.deep_view()) == spec_plan_schema(plan.deep_view()),
        r is Ok ==> spec_tree_invariants_ok(plan.deep_view(), InvariantLevel::Executable),
        !spec_tree_invariants_ok(plan.deep_view(), InvariantLevel::Executable) ==> (r matches Err(
            e,
        ) && e matches PlanError::InvariantViolation { level, message } && level
            == InvariantLevel::Executable && message@
            == "node fails check, such as improper inputs"@),
        spec_tree_invariants_ok(plan.deep_view(), InvariantLevel::Executable)
            && spec_extension_free(plan.deep_view()) ==> r is Ok,
{
    plan.check_invariants(InvariantLevel::Executable)?;
    lower(plan, planners)
}

/// The operators this core provides execution streams for: in-memory
/// sources, empty relations, and the bounded top-k accumulator over a
/// source.
pub open spec fn spec_executable(p: SpecPhysicalPlan) -> bool {
    match p {
        SpecPhysicalPlan::EmptyExec { .. } => true,
        SpecPhysicalPlan::SourceExec { .. } => true,
        SpecPhysicalPlan::TopKExec { input, .. } => *input matches SpecPhysicalPlan::SourceExec {
            ..
        },
        _ => false,
    }
}

/// A per-partition execution state machine: either a plain batch stream or
/// the top-k accumulator.
#[derive(Debug)]
pub enum OperatorStream {
    Batches(BatchStream),
    TopK(TopKReader),
}

/// Executes one partition of a physical operator, creating the partition's
/// streaming state machine.  Every operator of this core produces a single
/// partition, so any partition index other than zero fails immediately with
/// an invalid-partition error rather than silently returning no data;
/// operator kinds this core provides no stream for fail with an explicit
/// unsupported-operator error.
pub fn execute(plan: &PhysicalPlan, partition: usize) -> (r: Result<OperatorStream, ExecError>)
    ensures
        partition != 0 ==> (r matches Err(e) && e matches ExecError::InvalidPartition {
            requested,
            valid,
        } && requested == partition && valid == 0),
        partition == 0 && spec_executable(plan.deep_view()) ==> r is Ok,
        partition == 0 && !spec_executable(plan.deep_view()) ==> (r matches Err(e) && e
            is Unsupported),
        r matches Ok(OperatorStream::Batches(bs)) ==> crate::exec::spec_stream_wf(bs) && (
        plan.deep_view() matches SpecPhysicalPlan::SourceExec { batches, .. }
            ==> crate::exec::spec_stream_remaining(bs) == batches) && (plan.deep_view()
            is EmptyExec ==> crate::exec::spec_stream_remaining(bs).len() == 0),
        r matches Ok(OperatorStream::TopK(reader)) ==> reader.wf() && reader.state
            is Accumulating && reader.top.entries.deep_view() == Seq::<(i64, Seq<char>)>::empty()
            && (plan.deep_view() matches SpecPhysicalPlan::TopKExec { k, input } ==> reader.k == k
            && reader.schema@ == spec_phys_schema(*input) && (
        *input matches SpecPhysicalPlan::SourceExec { batches, .. }
            ==> crate::exec::spec_stream_remaining(reader.input) == batches)),
{
    proof {
        reveal_with_fuel(spec_phys_view, 3);
    }
    if partition != 0 {
        return Err(ExecError::InvalidPartition { requested: partition, valid: 0 });
    }
    match plan {
        PhysicalPlan::SourceExec { batches, .. } => {
            let bs = crate::exec::clone_batches(batches);
            let src = BatchStream::Source(SourceStream::new(bs));
            proof {
                assert(crate::exec::spec_stream_remaining(src) =~= batches.deep_view());
            }
            Ok(OperatorStream::Batches(src))
        },
        PhysicalPlan::EmptyExec { .. } => {
            let empty_batches: Vec<RecordBatch> = Vec::new();
            proof {
                assert(empty_batches@.len() == 0);
                assert(empty_batches.deep_view().len() == 0);
            }
            let inner = SourceStream::new(empty_batches);
            proof {
                assert(inner.batches.deep_view().len() == 0);
                assert(inner.batches@.len() == 0);
            }
            let src = BatchStream::Source(inner);
            proof {
                assert(crate::exec::spec_stream_remaining(src) =~= Seq::<
                    crate::exec::SpecBatch,
                >::empty());
            }
            Ok(OperatorStream::Batches(src))
        },
        PhysicalPlan::TopKExec { k, input } => {
            match &**input {
                PhysicalPlan::SourceExec { schema, batches, .. } => {
                    let bs = crate::exec::clone_batches(batches);
                    let src = BatchStream::Source(SourceStream::new(bs));
                    proof {
                        assert(crate::exec::spec_stream_remaining(src) =~= batches.deep_view());
                    }
                    let reader = TopKReader::new(src, *k, schema.clone());
                    Ok(OperatorStream::TopK(reader))
                },
                _ => Err(
                    ExecError::Unsupported(
                        String::from_str("top-k execution over a non-source input"),
                    ),
                ),
            }
        },
        PhysicalPlan::FilterExec { .. } => Err(
            ExecError::Unsupported(String::from_str("FilterExec")),
        ),
        PhysicalPlan::ProjectionExec { .. } => Err(
            ExecError::Unsupported(String::from_str("ProjectionExec")),
        ),
        PhysicalPlan::AggregateExec { .. } => Err(
            ExecError::Unsupported(String::from_str("AggregateExec")),
        ),
        PhysicalPlan::SortExec { .. } => Err(
            ExecError::Unsupported(String::from_str("SortExec")),
        ),
        PhysicalPlan::LimitExec { .. } => Err(
            ExecError::Unsupported(String::from_str("LimitExec")),
        ),
        PhysicalPlan::UnionExec { .. } => Err(
            ExecError::Unsupported(String::from_str("UnionExec")),
        ),
        PhysicalPlan::ExtensionExec { .. } => Err(
            ExecError::Unsupported(String::from_str("ExtensionExec")),
        ),
    }
}

} // verus!
