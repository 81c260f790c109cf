use plan_core::builder::LogicalPlanBuilder;
use plan_core::error::InvariantLevel;
use plan_core::expr::{col, SortExpr};
use plan_core::optimizer::{optimize, OptimizerContext};
use plan_core::physical::{
    create_physical_plan, execute, plan_with_extension_planners, NamedExtensionPlanner,
    OperatorStream, PhysicalPlan, TopKPlanner,
};
use plan_core::plan::{ExtensionNode, InvariantMock, LogicalPlan};
use plan_core::schema::{DataType, Field, Schema};
use plan_core::topk::{topk_plan_node, TopKOptimizerRule};

fn sales_scan_plan() -> LogicalPlan {
    LogicalPlanBuilder::table_scan(
        "sales",
        vec![
            Field { name: "sales.customer_id".to_string(), data_type: DataType::Utf8 },
            Field { name: "sales.revenue".to_string(), data_type: DataType::Int64 },
        ],
    )
    .build()
}

fn topk_node(k: u64, mock: Option<InvariantMock>) -> ExtensionNode {
    topk_plan_node(k, sales_scan_plan(), col("sales.revenue"), mock)
}

fn lowered_scan() -> PhysicalPlan {
    PhysicalPlan::SourceExec {
        name: "sales".to_string(),
        schema: Schema::new(vec![
            Field { name: "sales.customer_id".to_string(), data_type: DataType::Utf8 },
            Field { name: "sales.revenue".to_string(), data_type: DataType::Int64 },
        ]),
        batches: Vec::new(),
    }
}

#[test]
fn second_planner_wins_when_first_does_not_recognize() {
    // Two registered planners; only the second recognizes the node kind: the
    // first is asked first and passes, and the second's operator is used.
    let planners = vec![
        NamedExtensionPlanner { name: "RangeMark".to_string() },
        NamedExtensionPlanner { name: "TopK".to_string() },
    ];
    let node = topk_node(3, None);
    let children = vec![lowered_scan()];
    let (operator, winner) = plan_with_extension_planners(&node, &children, &planners).unwrap();
    assert_eq!(winner, 1);
    match operator {
        PhysicalPlan::ExtensionExec { name, inputs } => {
            assert_eq!(name, "TopK");
            assert_eq!(inputs.len(), 1);
        },
        other => panic!("expected the second planner's operator, got {:?}", other),
    }
}

#[test]
fn first_recognizing_planner_wins() {
    // Registering two planners that both claim a node kind is legal; only
    // the first in order is ever invoked.
    let planners = vec![
        NamedExtensionPlanner { name: "TopK".to_string() },
        NamedExtensionPlanner { name: "TopK".to_string() },
    ];
    let node = topk_node(3, None);
    let children = vec![lowered_scan()];
    let (_, winner) = plan_with_extension_planners(&node, &children, &planners).unwrap();
    assert_eq!(winner, 0);
}

#[test]
fn unrecognized_extension_fails_lowering() {
    let planners = vec![NamedExtensionPlanner { name: "RangeMark".to_string() }];
    let node = topk_node(3, None);
    let children = vec![lowered_scan()];
    let e = plan_with_extension_planners(&node, &children, &planners).unwrap_err();
    assert!(e.message().contains("unsupported extension node: TopK"));
}

#[test]
fn topk_planner_produces_the_topk_operator() {
    let planners = vec![TopKPlanner];
    let node = topk_node(3, None);
    let children = vec![lowered_scan()];
    let (operator, winner) = plan_with_extension_planners(&node, &children, &planners).unwrap();
    assert_eq!(winner, 0);
    match operator {
        PhysicalPlan::TopKExec { k, .. } => assert_eq!(k, 3),
        other => panic!("expected the top-k operator, got {:?}", other),
    }
}

#[test]
fn end_to_end_lowering_of_an_optimized_plan() {
    // Optimize limit-over-sort into the extension node, lower it through the
    // chain, and execute partition zero of the result.
    let plan = LogicalPlanBuilder::from(sales_scan_plan())
        .sort(vec![SortExpr { expr: col("sales.revenue"), asc: false, nulls_first: true }])
        .limit(3)
        .build();
    let rules = vec![TopKOptimizerRule {
        invariant_mock: Some(InvariantMock {
            should_fail_invariant: false,
            kind: InvariantLevel::Always,
        }),
    }];
    let ctx = OptimizerContext::new();
    let (optimized, _) = optimize(&rules, &ctx, plan).unwrap();

    let planners = vec![TopKPlanner];
    let physical = create_physical_plan(&optimized, &planners).unwrap();
    match &physical {
        PhysicalPlan::TopKExec { k, input } => {
            assert_eq!(*k, 3);
            assert!(matches!(&**input, PhysicalPlan::SourceExec { .. }));
        },
        other => panic!("expected the top-k operator, got {:?}", other),
    }

    let props = physical.properties();
    assert!(props
        .render()
        .contains("partitioning: UnknownPartitioning(1), emission_type: Incremental"));

    assert!(matches!(execute(&physical, 0).unwrap(), OperatorStream::TopK(_)));
}

#[test]
fn execution_is_not_provided_beyond_the_worked_example() {
    let plan = PhysicalPlan::SortExec {
        sort_exprs: vec![SortExpr { expr: col("sales.revenue"), asc: true, nulls_first: true }],
        input: Box::new(lowered_scan()),
    };
    let e = execute(&plan, 0).unwrap_err();
    assert!(e.message().contains("execution is not provided for operator"));
}

#[test]
fn extension_free_tree_always_lowers() {
    // A passing tree without extension nodes lowers even with no registered
    // planner.
    let plan = LogicalPlanBuilder::from(sales_scan_plan())
        .sort(vec![SortExpr { expr: col("sales.revenue"), asc: false, nulls_first: true }])
        .limit(3)
        .build();
    let planners: Vec<TopKPlanner> = Vec::new();
    let physical = create_physical_plan(&plan, &planners).unwrap();
    assert!(matches!(physical, PhysicalPlan::LimitExec { .. }));
}

#[test]
fn topk_planner_rejects_wrong_declared_counts() {
    // A recognized node whose declared expression count is not one is a
    // structural arity mismatch, fatal and not retried.
    let mut node = topk_node(3, None);
    node.exprs.push(col("sales.revenue"));
    let planners = vec![TopKPlanner];
    let children = vec![lowered_scan()];
    let e = plan_with_extension_planners(&node, &children, &planners).unwrap_err();
    assert_eq!(e.message(), "extension node arity mismatch");
}
