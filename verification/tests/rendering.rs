use plan_core::builder::LogicalPlanBuilder;
use plan_core::error::{InvariantLevel, PlanError};
use plan_core::expr::{col, sum, Expr, ScalarValue, SortExpr};
use plan_core::format::{i64_string, u64_string};
use plan_core::plan::{ExtensionNode, InvariantMock, LogicalPlan};
use plan_core::schema::{DataType, Field};
use plan_core::topk::topk_plan_node;

fn scan() -> LogicalPlan {
    LogicalPlanBuilder::table_scan(
        "t",
        vec![Field { name: "t.x".to_string(), data_type: DataType::Int64 }],
    )
    .build()
}

#[test]
fn decimal_rendering_is_exact() {
    assert_eq!(u64_string(0), "0");
    assert_eq!(u64_string(7), "7");
    assert_eq!(u64_string(40), "40");
    assert_eq!(u64_string(18446744073709551615), "18446744073709551615");
    assert_eq!(i64_string(-1), "-1");
    assert_eq!(i64_string(-9223372036854775808), "-9223372036854775808");
    assert_eq!(i64_string(300), "300");
}

#[test]
fn expression_rendering() {
    assert_eq!(col("t.x").display(), "t.x");
    assert_eq!(sum(col("t.x")).display(), "sum(t.x)");
    assert_eq!(Expr::Literal(ScalarValue::Boolean(Some(false))).display(), "false");
    assert_eq!(Expr::Literal(ScalarValue::Boolean(None)).display(), "Boolean(NULL)");
    assert_eq!(Expr::Literal(ScalarValue::Int64(Some(-5))).display(), "-5");
    assert_eq!(Expr::Literal(ScalarValue::UInt64(Some(42))).display(), "UInt64(42)");
}

#[test]
fn plan_rendering_indents_children_two_spaces() {
    let plan = LogicalPlanBuilder::from(scan())
        .filter(Expr::Literal(ScalarValue::Boolean(Some(true))))
        .sort(vec![SortExpr { expr: col("t.x"), asc: true, nulls_first: false }])
        .limit(2)
        .build();
    assert_eq!(
        plan.display_indent(),
        "Limit: fetch=2\n  Sort: t.x ASC NULLS LAST\n    Filter: true\n      TableScan: t"
    );
}

#[test]
fn extension_node_renders_its_supplied_explain_line() {
    let node = topk_plan_node(10, scan(), col("t.x"), None);
    assert_eq!(node.fmt_for_explain(), "TopK: k=10");
    assert!(!node.supports_limit_pushdown());
    assert_eq!(node.name().as_str(), "TopK");
    let plan = LogicalPlan::Extension { node };
    assert_eq!(plan.display_indent(), "TopK: k=10\n  TableScan: t");
}

#[test]
fn reconstruction_keeps_the_kind_and_replaces_the_parts() {
    let node = topk_plan_node(10, scan(), col("t.x"), None);
    let rebuilt = node.with_exprs_and_inputs(vec![col("t.x")], vec![scan()]);
    assert_eq!(rebuilt.name().as_str(), "TopK");
    assert_eq!(rebuilt.fmt_for_explain(), "TopK: k=10");
    assert_eq!(rebuilt.inputs().len(), 1);
    assert_eq!(rebuilt.expressions().len(), 1);
}

#[test]
fn invariant_check_reports_the_failing_level() {
    let node: ExtensionNode = topk_plan_node(
        1,
        scan(),
        col("t.x"),
        Some(InvariantMock { should_fail_invariant: true, kind: InvariantLevel::Executable }),
    );
    assert!(node.check_invariants(InvariantLevel::Always).is_ok());
    let e = node.check_invariants(InvariantLevel::Executable).unwrap_err();
    assert_eq!(
        e.message(),
        "node fails check, such as improper inputs (Executable invariant)"
    );
}

#[test]
fn plan_error_messages_name_the_failure() {
    let e = PlanError::UnsupportedExtension { name: "RangeMark".to_string() };
    assert_eq!(e.message(), "unsupported extension node: RangeMark");
    let e = PlanError::ArityMismatch { expected: 1, actual: 2 };
    assert_eq!(e.message(), "extension node arity mismatch");
    let e = PlanError::Malformed("no input".to_string());
    assert_eq!(e.message(), "malformed plan: no input");
}
