use plan_core::builder::LogicalPlanBuilder;
use plan_core::eliminate_filter::EliminateFilter;
use plan_core::expr::{col, lit, sum, Expr, ScalarValue};
use plan_core::optimizer::{optimize, OptimizerContext};
use plan_core::plan::LogicalPlan;
use plan_core::schema::{DataType, Field};

fn test_table_scan() -> LogicalPlan {
    LogicalPlanBuilder::table_scan(
        "test",
        vec![
            Field { name: "test.a".to_string(), data_type: DataType::UInt64 },
            Field { name: "test.b".to_string(), data_type: DataType::UInt64 },
            Field { name: "test.c".to_string(), data_type: DataType::UInt64 },
        ],
    )
    .build()
}

fn assert_optimized_plan_equal(plan: LogicalPlan, expected: &str) {
    let optimizer_ctx = OptimizerContext::new().with_max_passes(1);
    let rules = vec![EliminateFilter::new()];
    let (optimized, _passes) = optimize(&rules, &optimizer_ctx, plan).unwrap();
    assert_eq!(optimized.display_indent(), expected);
}

#[test]
fn filter_false() {
    let filter_expr = lit(false);

    let table_scan = test_table_scan();
    let plan = LogicalPlanBuilder::from(table_scan)
        .aggregate(vec![col("test.a")], vec![sum(col("test.b"))])
        .filter(filter_expr)
        .build();

    // No aggregate / scan / limit
    assert_optimized_plan_equal(plan, "EmptyRelation");
}

#[test]
fn filter_null() {
    let filter_expr = Expr::Literal(ScalarValue::Boolean(None));

    let table_scan = test_table_scan();
    let plan = LogicalPlanBuilder::from(table_scan)
        .aggregate(vec![col("test.a")], vec![sum(col("test.b"))])
        .filter(filter_expr)
        .build();

    // No aggregate / scan / limit
    assert_optimized_plan_equal(plan, "EmptyRelation");
}

#[test]
fn filter_false_nested() {
    let filter_expr = lit(false);

    let table_scan = test_table_scan();
    let plan1 = LogicalPlanBuilder::from(test_table_scan())
        .aggregate(vec![col("test.a")], vec![sum(col("test.b"))])
        .build();
    let plan = LogicalPlanBuilder::from(table_scan)
        .aggregate(vec![col("test.a")], vec![sum(col("test.b"))])
        .filter(filter_expr)
        .union(plan1)
        .build();

    // Left side is removed
    assert_optimized_plan_equal(
        plan,
        "Union\n  EmptyRelation\n  Aggregate: groupBy=[[test.a]], aggr=[[sum(test.b)]]\n    TableScan: test",
    );
}

#[test]
fn filter_true() {
    let filter_expr = lit(true);

    let table_scan = test_table_scan();
    let plan = LogicalPlanBuilder::from(table_scan)
        .aggregate(vec![col("test.a")], vec![sum(col("test.b"))])
        .filter(filter_expr)
        .build();

    assert_optimized_plan_equal(
        plan,
        "Aggregate: groupBy=[[test.a]], aggr=[[sum(test.b)]]\n  TableScan: test",
    );
}

#[test]
fn filter_true_nested() {
    let filter_expr = lit(true);

    let table_scan = test_table_scan();
    let plan1 = LogicalPlanBuilder::from(test_table_scan())
        .aggregate(vec![col("test.a")], vec![sum(col("test.b"))])
        .build();
    let plan = LogicalPlanBuilder::from(table_scan)
        .aggregate(vec![col("test.a")], vec![sum(col("test.b"))])
        .filter(filter_expr)
        .union(plan1)
        .build();

    // Filter is removed
    assert_optimized_plan_equal(
        plan,
        "Union\n  Aggregate: groupBy=[[test.a]], aggr=[[sum(test.b)]]\n    TableScan: test\n  Aggregate: groupBy=[[test.a]], aggr=[[sum(test.b)]]\n    TableScan: test",
    );
}

#[test]
fn filter_from_subquery() {
    // SELECT a FROM (SELECT a FROM test WHERE FALSE) WHERE TRUE

    let false_filter = lit(false);
    let table_scan = test_table_scan();
    let plan1 = LogicalPlanBuilder::from(table_scan)
        .project(vec![col("test.a")])
        .filter(false_filter)
        .build();

    let true_filter = lit(true);
    let plan = LogicalPlanBuilder::from(plan1)
        .project(vec![col("test.a")])
        .filter(true_filter)
        .build();

    // Filter is removed
    assert_optimized_plan_equal(plan, "Projection: test.a\n  EmptyRelation");
}
