use plan_core::analyzer::MyAnalyzerRule;
use plan_core::builder::LogicalPlanBuilder;
use plan_core::eliminate_filter::EliminateFilter;
use plan_core::error::InvariantLevel;
use plan_core::expr::{col, Expr, ScalarValue, SortExpr};
use plan_core::optimizer::{analyze, optimize, OptimizerContext};
use plan_core::physical::{create_physical_plan, TopKPlanner};
use plan_core::plan::{InvariantMock, LogicalPlan};
use plan_core::rules::OptimizerRule;
use plan_core::schema::{DataType, Field};
use plan_core::topk::{OptimizerMakeExtensionNodeInvalid, TopKOptimizerRule};

fn sales_scan() -> LogicalPlan {
    LogicalPlanBuilder::table_scan(
        "sales",
        vec![
            Field { name: "sales.customer_id".to_string(), data_type: DataType::Utf8 },
            Field { name: "sales.revenue".to_string(), data_type: DataType::Int64 },
        ],
    )
    .build()
}

fn limit_over_sort(fetch: u64) -> LogicalPlan {
    LogicalPlanBuilder::from(sales_scan())
        .sort(vec![SortExpr { expr: col("sales.revenue"), asc: false, nulls_first: true }])
        .limit(fetch)
        .build()
}

#[test]
fn fixpoint_stops_after_unchanged_pass() {
    // A pipeline whose one rule matches once: the second pass sees no change
    // and the engine stops well under the limit.
    let rules = vec![TopKOptimizerRule { invariant_mock: None }];
    let ctx = OptimizerContext::new().with_max_passes(10);
    let (optimized, passes) = optimize(&rules, &ctx, limit_over_sort(3)).unwrap();
    assert_eq!(passes, 2);
    assert_eq!(optimized.display_indent(), "TopK: k=3\n  TableScan: sales");
}

#[test]
fn fixpoint_respects_pass_limit() {
    let rules = vec![TopKOptimizerRule { invariant_mock: None }];
    let ctx = OptimizerContext::new().with_max_passes(1);
    let (_, passes) = optimize(&rules, &ctx, limit_over_sort(3)).unwrap();
    assert_eq!(passes, 1);
}

#[test]
fn rewrite_neutrality_on_unmatched_shape() {
    // A rule that does not match a node shape returns it unchanged, reports
    // no change, and the tree's schema is identical before and after.
    let plan = sales_scan();
    let before_display = plan.display_indent();
    let before_schema = format!("{:?}", plan.schema());
    let rule = EliminateFilter::new();
    let t = rule.rewrite(plan).unwrap();
    assert!(!t.transformed);
    assert_eq!(t.data.display_indent(), before_display);
    assert_eq!(format!("{:?}", t.data.schema()), before_schema);
}

#[test]
fn no_op_pass_keeps_schema() {
    let plan = limit_over_sort(3);
    let before_schema = format!("{:?}", plan.schema());
    let rules = vec![EliminateFilter::new()];
    let ctx = OptimizerContext::new();
    let (optimized, passes) = optimize(&rules, &ctx, plan).unwrap();
    assert_eq!(passes, 1);
    assert_eq!(format!("{:?}", optimized.schema()), before_schema);
}

#[test]
fn always_invariant_failure_aborts_planning() {
    let fail = InvariantMock { should_fail_invariant: true, kind: InvariantLevel::Always };
    let rules = vec![TopKOptimizerRule { invariant_mock: Some(fail) }];
    let ctx = OptimizerContext::new();
    let e = optimize(&rules, &ctx, limit_over_sort(3)).unwrap_err();
    assert!(e.message().contains("node fails check, such as improper inputs"));
    assert!(e.message().contains("Always"));
}

#[test]
fn always_invariant_passing_runs_through() {
    let pass = InvariantMock { should_fail_invariant: false, kind: InvariantLevel::Always };
    let rules = vec![TopKOptimizerRule { invariant_mock: Some(pass) }];
    let ctx = OptimizerContext::new();
    let (optimized, _) = optimize(&rules, &ctx, limit_over_sort(3)).unwrap();
    assert_eq!(optimized.display_indent(), "TopK: k=3\n  TableScan: sales");
}

#[test]
fn executable_invariant_failure_aborts_only_lowering() {
    // Failing only the `Executable` check passes the optimizer, which checks
    // `Always`, but aborts once physical lowering is attempted.
    let fail = InvariantMock { should_fail_invariant: true, kind: InvariantLevel::Executable };
    let rules = vec![TopKOptimizerRule { invariant_mock: Some(fail) }];
    let ctx = OptimizerContext::new();
    let (optimized, _) = optimize(&rules, &ctx, limit_over_sort(3)).unwrap();

    let planners = vec![TopKPlanner];
    let e = create_physical_plan(&optimized, &planners).unwrap_err();
    assert!(e.message().contains("node fails check, such as improper inputs"));
    assert!(e.message().contains("Executable"));
}

#[test]
fn invariants_checked_after_invalid_mutation() {
    // A valid top-k node passes; a later rewrite pass that breaks the node
    // must make the very next checkpoint fail.
    let pass = InvariantMock { should_fail_invariant: false, kind: InvariantLevel::Always };
    let rules = vec![TopKOptimizerRule { invariant_mock: Some(pass) }];
    let ctx = OptimizerContext::new();
    let (optimized, _) = optimize(&rules, &ctx, limit_over_sort(3)).unwrap();

    let breaking = vec![OptimizerMakeExtensionNodeInvalid];
    let e = optimize(&breaking, &ctx, optimized).unwrap_err();
    assert!(e.message().contains("node fails check, such as improper inputs"));
}

#[test]
fn analyzer_coerces_integer_literals() {
    let plan = LogicalPlanBuilder::from(sales_scan())
        .project(vec![Expr::Literal(ScalarValue::Int64(Some(42)))])
        .build();
    let rules = vec![MyAnalyzerRule];
    let analyzed = analyze(&rules, plan).unwrap();
    assert_eq!(analyzed.display_indent(), "Projection: UInt64(42)\n  TableScan: sales");
}

#[test]
fn analyzer_keeps_other_literals() {
    let plan = LogicalPlanBuilder::from(sales_scan())
        .project(vec![Expr::Literal(ScalarValue::Utf8(Some("x".to_string())))])
        .build();
    let rules = vec![MyAnalyzerRule];
    let analyzed = analyze(&rules, plan).unwrap();
    assert_eq!(analyzed.display_indent(), "Projection: Utf8(x)\n  TableScan: sales");
}

#[test]
fn bottom_up_rule_sees_rebuilt_children() {
    // The top-k rule declares top-down order; applied over a nested shape it
    // still only rewrites the matching node and keeps everything else.
    let plan = LogicalPlanBuilder::from(limit_over_sort(2)).limit(5).build();
    let rules = vec![TopKOptimizerRule { invariant_mock: None }];
    let ctx = OptimizerContext::new();
    let (optimized, _) = optimize(&rules, &ctx, plan).unwrap();
    assert_eq!(optimized.display_indent(), "Limit: fetch=5\n  TopK: k=2\n    TableScan: sales");
}

#[test]
fn empty_pipelines_leave_the_tree_unchanged() {
    let plan = limit_over_sort(3);
    let before = plan.display_indent();

    let no_analyzers: Vec<MyAnalyzerRule> = Vec::new();
    let analyzed = analyze(&no_analyzers, plan).unwrap();
    assert_eq!(analyzed.display_indent(), before);

    let no_rules: Vec<EliminateFilter> = Vec::new();
    let ctx = OptimizerContext::new();
    let (optimized, _) = optimize(&no_rules, &ctx, analyzed).unwrap();
    assert_eq!(optimized.display_indent(), before);
}

#[test]
fn optimizer_rejects_a_tree_already_failing_always() {
    // A tree holding an always-invalid extension node is rejected before any
    // rule runs, even by an empty pipeline.
    let node = plan_core::topk::topk_plan_node(
        3,
        sales_scan(),
        col("sales.revenue"),
        Some(InvariantMock { should_fail_invariant: true, kind: InvariantLevel::Always }),
    );
    let plan = LogicalPlan::Extension { node };
    let no_rules: Vec<EliminateFilter> = Vec::new();
    let ctx = OptimizerContext::new();
    let e = optimize(&no_rules, &ctx, plan).unwrap_err();
    assert!(e.message().contains("node fails check, such as improper inputs"));
    assert!(e.message().contains("Always"));
}
