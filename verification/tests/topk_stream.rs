use plan_core::exec::{
    run_topk, BatchStream, RecordBatch, SourceStream, StreamPoll, TopKReader,
};
use plan_core::expr::ScalarValue;
use plan_core::physical::{execute, OperatorStream, PhysicalPlan};
use plan_core::schema::{DataType, Field, Schema};

fn sales_schema() -> Schema {
    Schema::new(vec![
        Field { name: "customer_id".to_string(), data_type: DataType::Utf8 },
        Field { name: "revenue".to_string(), data_type: DataType::Int64 },
    ])
}

fn row(name: &str, revenue: i64) -> Vec<ScalarValue> {
    vec![
        ScalarValue::Utf8(Some(name.to_string())),
        ScalarValue::Int64(Some(revenue)),
    ]
}

fn batch(rows: Vec<Vec<ScalarValue>>) -> RecordBatch {
    RecordBatch { schema: sales_schema(), rows }
}

fn topk_over(batches: Vec<RecordBatch>, k: u64) -> PhysicalPlan {
    PhysicalPlan::TopKExec {
        k,
        input: Box::new(PhysicalPlan::SourceExec {
            name: "sales".to_string(),
            schema: sales_schema(),
            batches,
        }),
    }
}

fn collect_output_rows(plan: &PhysicalPlan) -> Vec<(String, i64)> {
    let stream = execute(plan, 0).unwrap();
    let mut reader = match stream {
        OperatorStream::TopK(reader) => reader,
        _ => panic!("expected a top-k reader"),
    };
    let out = run_topk(&mut reader).unwrap();
    let last = out.last().unwrap();
    let mut rows = Vec::new();
    for r in &last.rows {
        let name = match &r[0] {
            ScalarValue::Utf8(Some(s)) => s.clone(),
            other => panic!("unexpected payload column {:?}", other),
        };
        let revenue = match &r[1] {
            ScalarValue::Int64(Some(i)) => *i,
            other => panic!("unexpected ranking column {:?}", other),
        };
        rows.push((name, revenue));
    }
    rows
}

fn expected_top3() -> Vec<(String, i64)> {
    vec![
        ("A".to_string(), 300),
        ("B".to_string(), 200),
        ("C".to_string(), 150),
    ]
}

#[test]
fn topk_one_batch() {
    let plan = topk_over(
        vec![batch(vec![row("A", 300), row("B", 200), row("C", 150), row("D", 100)])],
        3,
    );
    assert_eq!(collect_output_rows(&plan), expected_top3());
}

#[test]
fn topk_one_row_per_batch() {
    let plan = topk_over(
        vec![
            batch(vec![row("A", 300)]),
            batch(vec![row("B", 200)]),
            batch(vec![row("C", 150)]),
            batch(vec![row("D", 100)]),
        ],
        3,
    );
    assert_eq!(collect_output_rows(&plan), expected_top3());
}

#[test]
fn topk_uneven_batches() {
    let plan = topk_over(
        vec![
            batch(vec![row("D", 100), row("A", 300)]),
            batch(vec![]),
            batch(vec![row("C", 150), row("B", 200)]),
        ],
        3,
    );
    assert_eq!(collect_output_rows(&plan), expected_top3());
}

#[test]
fn topk_placeholders_are_empty_until_the_end() {
    let plan = topk_over(
        vec![batch(vec![row("A", 300)]), batch(vec![row("B", 200)])],
        1,
    );
    let stream = execute(&plan, 0).unwrap();
    let mut reader = match stream {
        OperatorStream::TopK(reader) => reader,
        _ => panic!("expected a top-k reader"),
    };
    let out = run_topk(&mut reader).unwrap();
    assert_eq!(out.len(), 3);
    assert_eq!(out[0].rows.len(), 0);
    assert_eq!(out[1].rows.len(), 0);
    assert_eq!(out[2].rows.len(), 1);
}

#[test]
fn topk_duplicate_ranking_key_keeps_last_payload() {
    // Two rows sharing a ranking value collide in the bounded structure: the
    // later payload replaces the earlier one, so only one row comes out.
    let plan = topk_over(vec![batch(vec![row("X", 100), row("Y", 100)])], 3);
    assert_eq!(collect_output_rows(&plan), vec![("Y".to_string(), 100)]);
}

#[test]
fn topk_bound_zero_keeps_nothing() {
    let plan = topk_over(vec![batch(vec![row("A", 300)])], 0);
    assert_eq!(collect_output_rows(&plan), Vec::<(String, i64)>::new());
}

#[test]
fn invalid_partition_fails_immediately() {
    let plan = topk_over(vec![batch(vec![row("A", 300)])], 3);
    let e = execute(&plan, 1).unwrap_err();
    assert!(e.message().contains("invalid partition"));
    let e = execute(&plan, 7).unwrap_err();
    assert!(e.message().contains("invalid partition"));
}

#[test]
fn malformed_row_is_an_upstream_data_error() {
    let bad = RecordBatch {
        schema: sales_schema(),
        rows: vec![vec![ScalarValue::Int64(Some(1)), ScalarValue::Int64(Some(2))]],
    };
    let plan = topk_over(vec![bad], 3);
    let stream = execute(&plan, 0).unwrap();
    let mut reader = match stream {
        OperatorStream::TopK(reader) => reader,
        _ => panic!("expected a top-k reader"),
    };
    let e = run_topk(&mut reader).unwrap_err();
    assert!(e.message().contains("upstream data error"));
}

#[test]
fn pending_is_relayed_and_polls_after_done_stay_end() {
    let inner = SourceStream::new(vec![batch(vec![row("A", 300)])]);
    let input = BatchStream::Throttled { pending_remaining: 2, inner };
    let mut reader = TopKReader::new(input, 3, sales_schema());

    // not-yet-ready propagates upward unchanged while the throttle lasts
    assert!(matches!(reader.poll_next().unwrap(), StreamPoll::Pending));
    assert!(matches!(reader.poll_next().unwrap(), StreamPoll::Pending));
    // the batch is folded, an empty placeholder comes out
    match reader.poll_next().unwrap() {
        StreamPoll::Ready(b) => assert_eq!(b.rows.len(), 0),
        other => panic!("expected a placeholder batch, got {:?}", other),
    }
    // exhaustion drains the entries into the final batch
    match reader.poll_next().unwrap() {
        StreamPoll::Ready(b) => assert_eq!(b.rows.len(), 1),
        other => panic!("expected the final batch, got {:?}", other),
    }
    // repeated polls after done are idempotent: always end-of-stream
    assert!(matches!(reader.poll_next().unwrap(), StreamPoll::End));
    assert!(matches!(reader.poll_next().unwrap(), StreamPoll::End));
    assert!(matches!(reader.poll_next().unwrap(), StreamPoll::End));
}

#[test]
fn source_batches_arrive_in_order() {
    let mut s = BatchStream::Source(SourceStream::new(vec![
        batch(vec![row("A", 1)]),
        batch(vec![row("B", 2)]),
    ]));
    match s.poll_next() {
        StreamPoll::Ready(b) => assert!(matches!(&b.rows[0][1], ScalarValue::Int64(Some(1)))),
        other => panic!("expected the first batch, got {:?}", other),
    }
    match s.poll_next() {
        StreamPoll::Ready(b) => assert!(matches!(&b.rows[0][1], ScalarValue::Int64(Some(2)))),
        other => panic!("expected the second batch, got {:?}", other),
    }
    assert!(matches!(s.poll_next(), StreamPoll::End));
}
