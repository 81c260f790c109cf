//! The execution operator network's worked example: a bounded top-k
//! accumulator driven through a cooperative, pull-based streaming contract.
//!
//! Batches hold rows of two columns, a text payload and a signed ranking
//! value.  While accumulating, each arriving row is folded into a bounded
//! ordered structure keyed by the ranking value: the row is inserted and the
//! smallest keys are evicted until at most `k` entries remain, so the
//! resident working set stays at `k` entries regardless of input size.  A row
//! whose ranking value collides with a stored entry replaces that entry's
//! payload; this mirrors the keying scheme of the worked example, which
//! discards one of two rows that share a ranking value.

use vstd::prelude::*;
use crate::expr::{ScalarValue, SpecScalar};
use crate::schema::Schema;

verus! {

/// A batch of rows flowing between operators.
#[derive(Debug)]
pub struct RecordBatch {
    pub schema: Schema,
    pub rows: Vec<Vec<ScalarValue>>,
}

/// The mathematical model of a batch.
pub struct SpecBatch {
    pub schema: crate::schema::SpecSchema,
    pub rows: Seq<Seq<SpecScalar>>,
}

impl DeepView for RecordBatch {
    type V = SpecBatch;

    open spec fn deep_view(&self) -> SpecBatch {
        SpecBatch { schema: self.schema@, rows: self.rows.deep_view() }
    }
}

impl Clone for RecordBatch {
    /// Cloning keeps the batch's value.
    fn clone(&self) -> (r: Self)
        ensures
            r.deep_view() == self.deep_view(),
    {
        let rows = self.rows.clone();
        proof {
            assert forall|i: int| 0 <= i < rows@.len() implies #[trigger] rows@[i].deep_view()
                == self.rows@[i].deep_view() by {
            }
            assert(rows.deep_view() =~= self.rows.deep_view());
        }
        RecordBatch { schema: self.schema.clone(), rows }
    }
}

impl RecordBatch {
    /// A batch with the given schema and no rows, the placeholder the
    /// accumulator emits while it is still consuming input.
    pub fn new_empty(schema: Schema) -> (r: Self)
        ensures
            r.deep_view().schema == schema@,
            r.deep_view().rows == Seq::<Seq<SpecScalar>>::empty(),
    {
        let r = RecordBatch { schema, rows: Vec::new() };
        proof {
            assert(r.deep_view().rows =~= Seq::<Seq<SpecScalar>>::empty());
        }
        r
    }
}

/// Whether a row carries the two columns the accumulator reads: a text
/// payload and a signed ranking value.
pub open spec fn spec_row_ok(row: Seq<SpecScalar>) -> bool {
    &&& row.len() >= 2
    &&& row[0] matches SpecScalar::Utf8(Some(_))
    &&& row[1] matches SpecScalar::Int64(Some(_))
}

/// The (ranking value, payload) pair a row carries.
pub open spec fn spec_row_pair(row: Seq<SpecScalar>) -> (i64, Seq<char>)
    recommends
        spec_row_ok(row),
{
    (
        match row[1] {
            SpecScalar::Int64(Some(i)) => i,
            _ => 0,
        },
        match row[0] {
            SpecScalar::Utf8(Some(s)) => s,
            _ => Seq::empty(),
        },
    )
}

/// Whether every row of a batch carries the expected columns.
pub open spec fn spec_rows_ok(rows: Seq<Seq<SpecScalar>>) -> bool {
    forall|i: int| 0 <= i < rows.len() ==> spec_row_ok(#[trigger] rows[i])
}

/// Strictly ascending keys: the structure holds at most one entry per
/// ranking value.
pub open spec fn spec_tv_sorted(es: Seq<(i64, Seq<char>)>) -> bool {
    forall|i: int, j: int| 0 <= i < j < es.len() ==> es[i].0 < es[j].0
}

/// Inserting a pair into the ordered structure: an entry with the same key
/// is replaced, otherwise the pair takes its place in key order.
pub open spec fn spec_tv_insert(es: Seq<(i64, Seq<char>)>, key: i64, value: Seq<char>) -> Seq<
    (i64, Seq<char>),
>
    decreases es.len(),
{
    if es.len() == 0 {
        seq![(key, value)]
    } else if es[0].0 < key {
        seq![es[0]] + spec_tv_insert(es.subrange(1, es.len() as int), key, value)
    } else if es[0].0 == key {
        seq![(key, value)] + es.subrange(1, es.len() as int)
    } else {
        seq![(key, value)] + es
    }
}

/// Evicting the smallest keys until at most `k` entries remain.
pub open spec fn spec_tv_trim(es: Seq<(i64, Seq<char>)>, k: u64) -> Seq<(i64, Seq<char>)> {
    if es.len() <= k {
        es
    } else {
        es.subrange(es.len() - k, es.len() as int)
    }
}

/// One accumulation step: insert the pair, then evict down to the bound.
pub open spec fn spec_tv_step(
    es: Seq<(i64, Seq<char>)>,
    key: i64,
    value: Seq<char>,
    k: u64,
) -> Seq<(i64, Seq<char>)> {
    spec_tv_trim(spec_tv_insert(es, key, value), k)
}

/// Folding a sequence of rows into the structure, in arrival order.
pub open spec fn spec_tv_fold_rows(
    es: Seq<(i64, Seq<char>)>,
    rows: Seq<Seq<SpecScalar>>,
    k: u64,
) -> Seq<(i64, Seq<char>)>
    decreases rows.len(),
{
    if rows.len() == 0 {
        es
    } else {
        let p = spec_row_pair(rows[0]);
        spec_tv_fold_rows(spec_tv_step(es, p.0, p.1, k), rows.subrange(1, rows.len() as int), k)
    }
}

/// Insertion keeps the keys strictly ascending and grows the structure by at
/// most one entry.
pub proof fn lemma_tv_insert_sorted(es: Seq<(i64, Seq<char>)>, key: i64, value: Seq<char>)
    requires
        spec_tv_sorted(es),
    ensures
        spec_tv_sorted(spec_tv_insert(es, key, value)),
        es.len() <= spec_tv_insert(es, key, value).len() <= es.len() + 1,
    decreases es.len(),
{
    if es.len() == 0 {
    } else if es[0].0 < key {
        let rest = es.subrange(1, es.len() as int);
        lemma_tv_insert_sorted(rest, key, value);
        let r = seq![es[0]] + spec_tv_insert(rest, key, value);
        assert forall|i: int, j: int| 0 <= i < j < r.len() implies r[i].0 < r[j].0 by {
            if i == 0 && j >= 1 {
                let ri = spec_tv_insert(rest, key, value);
                assert(r[j] == ri[j - 1]);
                lemma_tv_insert_member(rest, key, value, j - 1);
            }
        }
    } else {
    }
}

/// Every entry of the structure after an insertion is either the inserted
/// pair or an entry that was already there.
pub proof fn lemma_tv_insert_member(es: Seq<(i64, Seq<char>)>, key: i64, value: Seq<char>, j: int)
    requires
        0 <= j < spec_tv_insert(es, key, value).len(),
    ensures
        spec_tv_insert(es, key, value)[j] == (key, value) || exists|i: int|
            0 <= i < es.len() && es[i] == spec_tv_insert(es, key, value)[j],
    decreases es.len(),
{
    if es.len() == 0 {
    } else if es[0].0 < key {
        let rest = es.subrange(1, es.len() as int);
        if j == 0 {
            assert(es[0] == spec_tv_insert(es, key, value)[0]);
        } else {
            lemma_tv_insert_member(rest, key, value, j - 1);
            let r = spec_tv_insert(es, key, value);
            assert(r[j] == spec_tv_insert(rest, key, value)[j - 1]);
            if r[j] != (key, value) {
                let i0 = choose|i: int| 0 <= i < rest.len() && rest[i] == r[j];
                assert(es[i0 + 1] == r[j]);
            }
        }
    } else if es[0].0 == key {
        if j > 0 {
            assert(spec_tv_insert(es, key, value)[j] == es[j]);
        }
    } else {
        if j > 0 {
            assert(spec_tv_insert(es, key, value)[j] == es[j - 1]);
        }
    }
}

/// Eviction keeps the keys strictly ascending and caps the length at `k`.
pub proof fn lemma_tv_trim_sorted(es: Seq<(i64, Seq<char>)>, k: u64)
    requires
        spec_tv_sorted(es),
    ensures
        spec_tv_sorted(spec_tv_trim(es, k)),
        spec_tv_trim(es, k).len() <= k,
        spec_tv_trim(es, k).len() <= es.len(),
{
}

/// One accumulation step keeps the keys strictly ascending and the length at
/// most `k`.
pub proof fn lemma_tv_step_sorted(es: Seq<(i64, Seq<char>)>, key: i64, value: Seq<char>, k: u64)
    requires
        spec_tv_sorted(es),
    ensures
        spec_tv_sorted(spec_tv_step(es, key, value, k)),
        spec_tv_step(es, key, value, k).len() <= k,
    decreases es.len(),
{
    lemma_tv_insert_sorted(es, key, value);
    lemma_tv_trim_sorted(spec_tv_insert(es, key, value), k);
}

/// Folding rows keeps the keys strictly ascending and the length at most
/// `k`; an empty structure stays within the bound from the start.
pub proof fn lemma_tv_fold_rows_sorted(
    es: Seq<(i64, Seq<char>)>,
    rows: Seq<Seq<SpecScalar>>,
    k: u64,
)
    requires
        spec_tv_sorted(es),
        es.len() <= k,
    ensures
        spec_tv_sorted(spec_tv_fold_rows(es, rows, k)),
        spec_tv_fold_rows(es, rows, k).len() <= k,
    decreases rows.len(),
{
    if rows.len() > 0 {
        let p = spec_row_pair(rows[0]);
        lemma_tv_step_sorted(es, p.0, p.1, k);
        lemma_tv_fold_rows_sorted(
            spec_tv_step(es, p.0, p.1, k),
            rows.subrange(1, rows.len() as int),
            k,
        );
    }
}

/// Folding a concatenation of row sequences is folding one after the other:
/// how rows are split across batch boundaries cannot change the result.
pub proof fn lemma_tv_fold_rows_concat(
    es: Seq<(i64, Seq<char>)>,
    r1: Seq<Seq<SpecScalar>>,
    r2: Seq<Seq<SpecScalar>>,
    k: u64,
)
    ensures
        spec_tv_fold_rows(es, r1 + r2, k) == spec_tv_fold_rows(spec_tv_fold_rows(es, r1, k), r2, k),
    decreases r1.len(),
{
    if r1.len() == 0 {
        assert(r1 + r2 =~= r2);
    } else {
        let all = r1 + r2;
        let p = spec_row_pair(all[0]);
        assert(all[0] == r1[0]);
        assert(all.subrange(1, all.len() as int) =~= r1.subrange(1, r1.len() as int) + r2);
        lemma_tv_fold_rows_concat(
            spec_tv_step(es, p.0, p.1, k),
            r1.subrange(1, r1.len() as int),
            r2,
            k,
        );
    }
}

/// The bounded ordered structure the accumulator folds rows into: entries
/// sorted by strictly ascending ranking value.
#[derive(Debug)]
pub struct TopValues {
    pub entries: Vec<(i64, String)>,
}

impl TopValues {
    /// The structure's well-formedness: keys strictly ascending.
    pub open spec fn wf(&self) -> bool {
        spec_tv_sorted(self.entries.deep_view())
    }

    /// An empty structure.
    pub fn new() -> (r: Self)
        ensures
            r.wf(),
            r.entries.deep_view() == Seq::<(i64, Seq<char>)>::empty(),
    {
        let r = TopValues { entries: Vec::new() };
        proof {
            assert(r.entries.deep_view() =~= Seq::<(i64, Seq<char>)>::empty());
        }
        r
    }

    /// One accumulation step: inserts the pair (replacing an entry with the
    /// same ranking value), then evicts the smallest keys until at most `k`
    /// entries remain.
    #[verifier::loop_isolation(false)]
    pub fn step(&mut self, key: i64, value: String, k: u64)
        requires
            old(self).wf(),
        ensures
            final(self).wf(),
            final(self).entries.deep_view() == spec_tv_step(
                old(self).entries.deep_view(),
                key,
                value@,
                k,
            ),
            final(self).entries.deep_view().len() <= k,
    {
        let ghost orig = self.entries.deep_view();
        let mut i: usize = 0;
        while i < self.entries.len() && self.entries[i].0 < key
            invariant
                i <= self.entries.len(),
                forall|j: int| 0 <= j < i ==> orig[j].0 < key,
                self.entries.deep_view() == orig,
            decreases self.entries.len() - i,
        {
            i = i + 1;
        }
        proof {
            lemma_tv_insert_skip(orig, key, value@, i as int);
        }
        if i < self.entries.len() && self.entries[i].0 == key {
            self.entries.set(i, (key, value));
            proof {
                assert(self.entries.deep_view() =~= spec_tv_insert(orig, key, value@));
            }
        } else {
            self.entries.insert(i, (key, value));
            proof {
                assert(self.entries.deep_view() =~= spec_tv_insert(orig, key, value@));
            }
        }
        proof {
            lemma_tv_insert_sorted(orig, key, value@);
        }
        let ghost inserted = self.entries.deep_view();
        while self.entries.len() as u64 > k
            invariant
                spec_tv_trim(inserted, k) == spec_tv_trim(self.entries.deep_view(), k),
                spec_tv_sorted(self.entries.deep_view()),
            decreases self.entries.len(),
        {
            let ghost before = self.entries.deep_view();
            let _ = self.entries.remove(0);
            proof {
                assert(self.entries.deep_view() =~= before.subrange(1, before.len() as int));
                assert(spec_tv_trim(before, k) =~= spec_tv_trim(self.entries.deep_view(), k));
            }
        }
        proof {
            assert(self.entries.deep_view().len() <= k);
            assert(spec_tv_trim(self.entries.deep_view(), k) == self.entries.deep_view());
        }
    }
}

/// The inserted pair lands past every entry whose key is smaller: insertion
/// into the structure is insertion into its tail after those entries.
proof fn lemma_tv_insert_skip(es: Seq<(i64, Seq<char>)>, key: i64, value: Seq<char>, i: int)
    requires
        0 <= i <= es.len(),
        forall|j: int| 0 <= j < i ==> es[j].0 < key,
    ensures
        spec_tv_insert(es, key, value) == es.subrange(0, i) + spec_tv_insert(
            es.subrange(i, es.len() as int),
            key,
            value,
        ),
    decreases i,
{
    if i == 0 {
        assert(es.subrange(0, 0) =~= Seq::<(i64, Seq<char>)>::empty());
        assert(es.subrange(0, es.len() as int) =~= es);
        assert(spec_tv_insert(es, key, value) =~= es.subrange(0, 0) + spec_tv_insert(
            es.subrange(0, es.len() as int),
            key,
            value,
        ));
    } else {
        let rest = es.subrange(1, es.len() as int);
        lemma_tv_insert_skip(rest, key, value, i - 1);
        assert(rest.subrange(0, i - 1) =~= es.subrange(1, i));
        assert(rest.subrange(i - 1, rest.len() as int) =~= es.subrange(i, es.len() as int));
        assert(spec_tv_insert(es, key, value) =~= es.subrange(0, i) + spec_tv_insert(
            es.subrange(i, es.len() as int),
            key,
            value,
        ));
    }
}

/// Folding whole batches into the structure, in arrival order.
pub open spec fn spec_tv_fold_batches(
    es: Seq<(i64, Seq<char>)>,
    bs: Seq<SpecBatch>,
    k: u64,
) -> Seq<(i64, Seq<char>)>
    decreases bs.len(),
{
    if bs.len() == 0 {
        es
    } else {
        spec_tv_fold_batches(spec_tv_fold_rows(es, bs[0].rows, k), bs.subrange(1, bs.len() as int), k)
    }
}

/// All rows of a sequence of batches, in arrival order.
pub open spec fn spec_concat_rows(bs: Seq<SpecBatch>) -> Seq<Seq<SpecScalar>>
    decreases bs.len(),
{
    if bs.len() == 0 {
        Seq::empty()
    } else {
        bs[0].rows + spec_concat_rows(bs.subrange(1, bs.len() as int))
    }
}

/// Whether every row of every batch carries the expected columns.
pub open spec fn spec_batches_ok(bs: Seq<SpecBatch>) -> bool {
    forall|i: int| 0 <= i < bs.len() ==> spec_rows_ok(#[trigger] bs[i].rows)
}

/// Folding batch by batch is folding all the rows at once.
pub proof fn lemma_fold_batches_is_fold_rows(es: Seq<(i64, Seq<char>)>, bs: Seq<SpecBatch>, k: u64)
    ensures
        spec_tv_fold_batches(es, bs, k) == spec_tv_fold_rows(es, spec_concat_rows(bs), k),
    decreases bs.len(),
{
    if bs.len() == 0 {
    } else {
        let rest = bs.subrange(1, bs.len() as int);
        lemma_tv_fold_rows_concat(es, bs[0].rows, spec_concat_rows(rest), k);
        lemma_fold_batches_is_fold_rows(spec_tv_fold_rows(es, bs[0].rows, k), rest, k);
    }
}

/// How rows are split across batch boundaries cannot change what the
/// accumulator holds: two batch sequences carrying the same rows in the same
/// order fold to the same structure.
pub proof fn lemma_batch_boundaries_irrelevant(
    es: Seq<(i64, Seq<char>)>,
    a: Seq<SpecBatch>,
    b: Seq<SpecBatch>,
    k: u64,
)
    requires
        spec_concat_rows(a) == spec_concat_rows(b),
    ensures
        spec_tv_fold_batches(es, a, k) == spec_tv_fold_batches(es, b, k),
{
    lemma_fold_batches_is_fold_rows(es, a, k);
    lemma_fold_batches_is_fold_rows(es, b, k);
}

/// The structure drained in descending key order, one output row per entry:
/// the payload first, the ranking value second.
pub open spec fn spec_drain(es: Seq<(i64, Seq<char>)>) -> Seq<Seq<SpecScalar>> {
    Seq::new(
        es.len(),
        |i: int|
            seq![
                SpecScalar::Utf8(Some(es[es.len() - 1 - i].1)),
                SpecScalar::Int64(Some(es[es.len() - 1 - i].0)),
            ],
    )
}

/// One poll of the streaming pull contract: a batch, the end of the stream,
/// or not-yet-ready, which every composing operator must relay upward.
#[derive(Debug)]
pub enum StreamPoll {
    Ready(RecordBatch),
    End,
    Pending,
}

/// An in-memory batch source: the stream of a data-source operator.
#[derive(Debug)]
pub struct SourceStream {
    pub batches: Vec<RecordBatch>,
    pub pos: usize,
}

/// An upstream that is not ready a given number of times before each answer,
/// standing in for a source whose data arrives late.
#[derive(Debug)]
pub enum BatchStream {
    Source(SourceStream),
    Throttled { pending_remaining: u64, inner: SourceStream },
}

impl SourceStream {
    /// The source's well-formedness: the cursor is within bounds.
    pub open spec fn wf(&self) -> bool {
        self.pos <= self.batches@.len()
    }

    /// A source over the given batches.
    pub fn new(batches: Vec<RecordBatch>) -> (r: Self)
        ensures
            r.wf(),
            r.batches.deep_view() == batches.deep_view(),
            r.pos == 0,
    {
        SourceStream { batches, pos: 0 }
    }

    /// The batches the source has not yet produced.
    pub open spec fn remaining(&self) -> Seq<SpecBatch> {
        self.batches.deep_view().subrange(self.pos as int, self.batches@.len() as int)
    }
}

/// The batches a stream has not yet produced.
pub open spec fn spec_stream_remaining(s: BatchStream) -> Seq<SpecBatch> {
    match s {
        BatchStream::Source(src) => src.remaining(),
        BatchStream::Throttled { inner, .. } => inner.remaining(),
    }
}

/// An upper bound on the polls a stream can answer before the end: its
/// pending budget plus its remaining batches.
pub open spec fn spec_stream_fuel(s: BatchStream) -> int {
    match s {
        BatchStream::Source(src) => src.remaining().len() as int,
        BatchStream::Throttled { pending_remaining, inner } => pending_remaining
            + inner.remaining().len(),
    }
}

/// A stream's well-formedness.
pub open spec fn spec_stream_wf(s: BatchStream) -> bool {
    match s {
        BatchStream::Source(src) => src.wf(),
        BatchStream::Throttled { inner, .. } => inner.wf(),
    }
}

impl BatchStream {
    /// One pull: the next batch in arrival order, the end of the stream once
    /// no batch remains, or not-yet-ready while the throttle budget lasts.
    /// Batches arrive in the order the source holds them.
    pub fn poll_next(&mut self) -> (r: StreamPoll)
        requires
            spec_stream_wf(*old(self)),
        ensures
            spec_stream_wf(*final(self)),
            r is Pending ==> spec_stream_remaining(*final(self)) == spec_stream_remaining(*old(self))
                && spec_stream_fuel(*final(self)) < spec_stream_fuel(*old(self)),
            r matches StreamPoll::Ready(b) ==> spec_stream_remaining(*old(self)).len() > 0
                && b.deep_view() == spec_stream_remaining(*old(self))[0] && spec_stream_remaining(*final(self)) == spec_stream_remaining(*old(self)).subrange(
                1,
                spec_stream_remaining(*old(self)).len() as int,
            ) && spec_stream_fuel(*final(self)) < spec_stream_fuel(*old(self)),
            r is End ==> spec_stream_remaining(*old(self)).len() == 0 && spec_stream_remaining(*final(self)) == spec_stream_remaining(*old(self)) && spec_stream_fuel(*final(self))
                <= spec_stream_fuel(*old(self)),
    {
        match self {
            BatchStream::Source(src) => {
                if src.pos < src.batches.len() {
                    let b = src.batches[src.pos].clone();
                    src.pos = src.pos + 1;
                    proof {
                        assert(final(self)->Source_0.remaining() =~= old(self)->Source_0.remaining().subrange(
                            1,
                            old(self)->Source_0.remaining().len() as int,
                        ));
                    }
                    StreamPoll::Ready(b)
                } else {
                    StreamPoll::End
                }
            },
            BatchStream::Throttled { pending_remaining, inner } => {
                if *pending_remaining > 0 {
                    *pending_remaining = *pending_remaining - 1;
                    StreamPoll::Pending
                } else {
                    if inner.pos < inner.batches.len() {
                        let b = inner.batches[inner.pos].clone();
                        inner.pos = inner.pos + 1;
                        proof {
                            assert(spec_stream_remaining(*final(self))
                                =~= spec_stream_remaining(*old(self)).subrange(
                                1,
                                spec_stream_remaining(*old(self)).len() as int,
                            ));
                        }
                        StreamPoll::Ready(b)
                    } else {
                        StreamPoll::End
                    }
                }
            },
        }
    }
}

/// The accumulator's execution state: accumulating input, draining the
/// accumulated entries, or done.
#[derive(Clone, Copy, Debug, PartialEq, Eq, Structural)]
pub enum TopKState {
    Accumulating,
    Finalizing,
    Done,
}

/// The per-partition execution state of the bounded top-k operator: a
/// three-state machine advanced by repeated non-blocking polls from an
/// external driver loop.
#[derive(Debug)]
pub struct TopKReader {
    pub input: BatchStream,
    pub k: u64,
    pub schema: Schema,
    pub state: TopKState,
    pub top: TopValues,
}

impl TopKReader {
    /// The reader's well-formedness: the structure is sorted and within its
    /// bound, and the input stream is consistent.
    pub open spec fn wf(&self) -> bool {
        &&& self.top.wf()
        &&& self.top.entries.deep_view().len() <= self.k
        &&& spec_stream_wf(self.input)
    }

    /// A fresh reader over an input stream: accumulating, with an empty
    /// structure.
    pub fn new(input: BatchStream, k: u64, schema: Schema) -> (r: Self)
        requires
            spec_stream_wf(input),
        ensures
            r.wf(),
            r.state is Accumulating,
            r.top.entries.deep_view() == Seq::<(i64, Seq<char>)>::empty(),
            r.input == input,
            r.k == k,
            r.schema@ == schema@,
    {
        TopKReader { input, k, schema, state: TopKState::Accumulating, top: TopValues::new() }
    }

    /// Drains the accumulated entries in descending key order into one
    /// output batch and becomes done.
    fn finalize(&mut self) -> (r: RecordBatch)
        requires
            old(self).wf(),
            old(self).state is Finalizing,
        ensures
            final(self).wf(),
            final(self).state is Done,
            final(self).input == old(self).input,
            final(self).top == old(self).top,
            final(self).k == old(self).k,
            final(self).schema@ == old(self).schema@,
            r.deep_view().rows == spec_drain(old(self).top.entries.deep_view()),
            r.deep_view().schema == old(self).schema@,
    {
        let mut rows: Vec<Vec<ScalarValue>> = Vec::new();
        let n = self.top.entries.len();
        let ghost es = self.top.entries.deep_view();
        let mut i: usize = 0;
        while i < n
            invariant
                i <= n,
                n == es.len(),
                es == self.top.entries.deep_view(),
                rows.deep_view() =~= spec_drain(es).subrange(0, i as int),
            decreases n - i,
        {
            let entry = &self.top.entries[n - 1 - i];
            let mut row: Vec<ScalarValue> = Vec::new();
            row.push(ScalarValue::Utf8(Some(entry.1.clone())));
            row.push(ScalarValue::Int64(Some(entry.0)));
            proof {
                assert(row.deep_view() =~= spec_drain(es)[i as int]);
            }
            let ghost prev = rows.deep_view();
            let ghost prev_vec = rows@;
            rows.push(row);
            proof {
                assert(rows@ == prev_vec.push(row));
                assert(prev.len() == i as int);
                assert(prev_vec.len() == i as int);
                assert forall|t: int| 0 <= t < i implies rows.deep_view()[t] == prev[t] by {
                    assert(rows@[t] == prev_vec[t]);
                    assert(rows.deep_view()[t] == rows@[t].deep_view());
                    assert(prev[t] == prev_vec[t].deep_view());
                }
                assert(rows.deep_view()[i as int] == row.deep_view());
                assert(rows.deep_view() =~= spec_drain(es).subrange(0, i + 1 as int));
            }
            i = i + 1;
        }
        self.state = TopKState::Done;
        let r = RecordBatch { schema: self.schema.clone(), rows };
        proof {
            assert(spec_drain(es).subrange(0, es.len() as int) =~= spec_drain(es));
        }
        r
    }

    /// One advance of the state machine.  While accumulating, a batch from
    /// upstream is folded into the structure and an empty placeholder batch
    /// is emitted; upstream not-ready is relayed unchanged; upstream
    /// exhaustion drains the entries in descending key order into one final
    /// batch and the state becomes done.  Once done, every further poll
    /// answers the end of the stream, never an error.  A row without the
    /// expected columns is an upstream data error, which is fatal.
    #[verifier::loop_isolation(false)]
    pub fn poll_next(&mut self) -> (r: Result<StreamPoll, crate::error::ExecError>)
        requires
            old(self).wf(),
        ensures
            final(self).wf(),
            final(self).k == old(self).k,
            final(self).schema@ == old(self).schema@,
            old(self).state is Done ==> (r matches Ok(StreamPoll::End) && *final(self) == *old(
                self,
            )),
            r matches Ok(StreamPoll::End) ==> old(self).state is Done,
            r matches Ok(p) && p is Pending ==> old(self).state is Accumulating && final(self).state is Accumulating && final(self).top == old(self).top
                && spec_stream_remaining(final(self).input) == spec_stream_remaining(
                old(self).input,
            ) && spec_stream_fuel(final(self).input) < spec_stream_fuel(old(self).input),
            r matches Ok(StreamPoll::Ready(b)) ==> (final(self).state is Accumulating ==> {
                &&& old(self).state is Accumulating
                &&& spec_stream_remaining(old(self).input).len() > 0
                &&& spec_rows_ok(spec_stream_remaining(old(self).input)[0].rows)
                &&& final(self).top.entries.deep_view() == spec_tv_fold_rows(
                    old(self).top.entries.deep_view(),
                    spec_stream_remaining(old(self).input)[0].rows,
                    old(self).k,
                )
                &&& spec_stream_remaining(final(self).input) == spec_stream_remaining(
                    old(self).input,
                ).subrange(1, spec_stream_remaining(old(self).input).len() as int)
                &&& spec_stream_fuel(final(self).input) < spec_stream_fuel(old(self).input)
                &&& b.deep_view().rows == Seq::<Seq<SpecScalar>>::empty()
                &&& b.deep_view().schema == old(self).schema@
            }),
            r matches Ok(StreamPoll::Ready(b)) ==> (final(self).state is Done ==> {
                &&& !(old(self).state is Done)
                &&& (old(self).state is Accumulating ==> spec_stream_remaining(
                    old(self).input,
                ).len() == 0 && spec_stream_remaining(final(self).input)
                    == spec_stream_remaining(old(self).input))
                &&& (old(self).state is Finalizing ==> final(self).input == old(self).input)
                &&& spec_stream_fuel(final(self).input) <= spec_stream_fuel(old(self).input)
                &&& final(self).top == old(self).top
                &&& b.deep_view().rows == spec_drain(old(self).top.entries.deep_view())
                &&& b.deep_view().schema == old(self).schema@
            }),
            r matches Ok(StreamPoll::Ready(_)) ==> (final(self).state is Accumulating || final(self).state is Done),
            r is Err ==> old(self).state is Accumulating && spec_stream_remaining(
                old(self).input,
            ).len() > 0 && !spec_rows_ok(spec_stream_remaining(old(self).input)[0].rows) && (
            r matches Err(e) ==> e is DataError) && spec_stream_fuel(final(self).input)
                <= spec_stream_fuel(old(self).input),
    {
        match self.state {
            TopKState::Done => Ok(StreamPoll::End),
            TopKState::Finalizing => {
                let b = self.finalize();
                Ok(StreamPoll::Ready(b))
            },
            TopKState::Accumulating => {
                match self.input.poll_next() {
                    StreamPoll::Pending => Ok(StreamPoll::Pending),
                    StreamPoll::End => {
                        self.state = TopKState::Finalizing;
                        let b = self.finalize();
                        Ok(StreamPoll::Ready(b))
                    },
                    StreamPoll::Ready(batch) => {
                        let ghost batch_view = batch.deep_view();
                        let ghost otop = self.top.entries.deep_view();
                        let ghost input_after = self.input;
                        let k = self.k;
                        let mut j: usize = 0;
                        let n_rows = batch.rows.len();
                        while j < n_rows
                            invariant
                                j <= n_rows,
                                n_rows == batch_view.rows.len(),
                                batch.deep_view() == batch_view,
                                self.top.wf(),
                                self.top.entries.deep_view().len() <= k,
                                self.k == k,
                                self.input == input_after,
                                self.schema@ == old(self).schema@,
                                self.state is Accumulating,
                                spec_stream_wf(self.input),
                                forall|t: int| 0 <= t < j ==> spec_row_ok(
                                    #[trigger] batch_view.rows[t],
                                ),
                                self.top.entries.deep_view() == spec_tv_fold_rows(
                                    otop,
                                    batch_view.rows.subrange(0, j as int),
                                    k,
                                ),
                            decreases n_rows - j,
                        {
                            let row = &batch.rows[j];
                            proof {
                                assert(batch_view.rows[j as int] == batch.rows@[j as int].deep_view());
                            }
                            if row.len() < 2 {
                                proof {
                                    assert(!spec_row_ok(batch_view.rows[j as int]));
                                }
                                return Err(
                                    crate::error::ExecError::DataError(
                                        String::from_str("row with fewer than two columns"),
                                    ),
                                );
                            }
                            let key: i64;
                            let value: String;
                            match &row[1] {
                                ScalarValue::Int64(Some(v)) => {
                                    key = *v;
                                },
                                _ => {
                                    proof {
                                        assert(batch_view.rows[j as int][1] == row@[1].deep_view());
                                        assert(!spec_row_ok(batch_view.rows[j as int]));
                                    }
                                    return Err(
                                        crate::error::ExecError::DataError(
                                            String::from_str("ranking column is not an integer"),
                                        ),
                                    );
                                },
                            }
                            match &row[0] {
                                ScalarValue::Utf8(Some(s)) => {
                                    value = s.clone();
                                },
                                _ => {
                                    proof {
                                        assert(batch_view.rows[j as int][0] == row@[0].deep_view());
                                        assert(!spec_row_ok(batch_view.rows[j as int]));
                                    }
                                    return Err(
                                        crate::error::ExecError::DataError(
                                            String::from_str("payload column is not text"),
                                        ),
                                    );
                                },
                            }
                            proof {
                                assert(spec_row_ok(batch_view.rows[j as int]));
                                assert(spec_row_pair(batch_view.rows[j as int]) == (
                                    key,
                                    value@,
                                ));
                            }
                            self.top.step(key, value, k);
                            proof {
                                reveal_with_fuel(spec_tv_fold_rows, 3);
                                let pre = batch_view.rows.subrange(0, j + 1 as int);
                                let single = seq![batch_view.rows[j as int]];
                                lemma_tv_fold_rows_concat(
                                    otop,
                                    batch_view.rows.subrange(0, j as int),
                                    single,
                                    k,
                                );
                                assert(batch_view.rows.subrange(0, j as int) + single =~= pre);
                                assert(single.subrange(1, 1) =~= Seq::<Seq<SpecScalar>>::empty());
                                assert(single[0] == batch_view.rows[j as int]);
                            }
                            j = j + 1;
                        }
                        proof {
                            assert(batch_view.rows.subrange(0, batch_view.rows.len() as int)
                                =~= batch_view.rows);
                            lemma_tv_fold_rows_sorted(otop, batch_view.rows, k);
                        }
                        let placeholder = RecordBatch::new_empty(self.schema.clone());
                        Ok(StreamPoll::Ready(placeholder))
                    },
                }
            },
        }
    }
}

/// Drives a reader to the end of its stream, collecting every batch it
/// emits: the empty placeholders while accumulating, then the one final
/// batch holding the accumulated entries in descending key order.  The final
/// batch's rows are the fold of every input row, however the rows were split
/// across input batches; a malformed input row aborts with an error instead.
#[verifier::loop_isolation(false)]
pub fn run_topk(reader: &mut TopKReader) -> (r: Result<Vec<RecordBatch>, crate::error::ExecError>)
    requires
        old(reader).wf(),
        old(reader).state is Accumulating,
    ensures
        r matches Ok(out) ==> {
            &&& spec_batches_ok(spec_stream_remaining(old(reader).input))
            &&& out@.len() >= 1
            &&& out@[out@.len() - 1].deep_view().rows == spec_drain(
                spec_tv_fold_batches(
                    old(reader).top.entries.deep_view(),
                    spec_stream_remaining(old(reader).input),
                    old(reader).k,
                ),
            )
            &&& forall|i: int| 0 <= i < out@.len() - 1 ==> #[trigger] out@[i].deep_view().rows
                =~= Seq::<Seq<SpecScalar>>::empty()
        },
        r is Err ==> !spec_batches_ok(spec_stream_remaining(old(reader).input)),
{
    let ghost orem = spec_stream_remaining(old(reader).input);
    let ghost otop = old(reader).top.entries.deep_view();
    let ghost k_spec = old(reader).k;
    let ghost goal = spec_tv_fold_batches(otop, orem, k_spec);
    let mut out: Vec<RecordBatch> = Vec::new();
    loop
        invariant
            reader.wf(),
            reader.k == k_spec,
            reader.state is Accumulating || reader.state is Done,
            reader.state is Accumulating ==> spec_tv_fold_batches(
                reader.top.entries.deep_view(),
                spec_stream_remaining(reader.input),
                k_spec,
            ) == goal,
            reader.state is Accumulating ==> (spec_batches_ok(orem) <==> spec_batches_ok(
                spec_stream_remaining(reader.input),
            )),
            reader.state is Accumulating ==> forall|i: int|
                0 <= i < out@.len() ==> #[trigger] out@[i].deep_view().rows =~= Seq::<
                    Seq<SpecScalar>,
                >::empty(),
            reader.state is Done ==> {
                &&& spec_batches_ok(orem)
                &&& out@.len() >= 1
                &&& out@[out@.len() - 1].deep_view().rows == spec_drain(goal)
                &&& forall|i: int| 0 <= i < out@.len() - 1 ==> #[trigger] out@[i].deep_view().rows
                    =~= Seq::<Seq<SpecScalar>>::empty()
            },
        decreases spec_stream_fuel(reader.input) + (if reader.state is Done {
            0int
        } else {
            1int
        }),
    {
        let ghost pre_state = reader.state;
        let ghost pre_rem = spec_stream_remaining(reader.input);
        let ghost pre_top = reader.top.entries.deep_view();
        match reader.poll_next() {
            Ok(StreamPoll::End) => {
                return Ok(out);
            },
            Ok(StreamPoll::Pending) => {
            },
            Ok(StreamPoll::Ready(b)) => {
                proof {
                    if reader.state is Accumulating {
                        assert(pre_rem.len() > 0);
                        let rest = pre_rem.subrange(1, pre_rem.len() as int);
                        assert(spec_tv_fold_batches(pre_top, pre_rem, k_spec)
                            == spec_tv_fold_batches(
                            spec_tv_fold_rows(pre_top, pre_rem[0].rows, k_spec),
                            rest,
                            k_spec,
                        ));
                        assert(spec_batches_ok(pre_rem) <==> spec_batches_ok(rest)) by {
                            if spec_batches_ok(rest) {
                                assert forall|i: int| 0 <= i < pre_rem.len() implies spec_rows_ok(
                                    #[trigger] pre_rem[i].rows,
                                ) by {
                                    if i > 0 {
                                        assert(rest[i - 1] == pre_rem[i]);
                                    }
                                }
                            }
                        }
                    } else {
                        assert(pre_rem.len() == 0);
                        assert(spec_tv_fold_batches(pre_top, pre_rem, k_spec) == pre_top);
                    }
                }
                out.push(b);
            },
            Err(e) => {
                proof {
                    assert(!spec_rows_ok(pre_rem[0].rows));
                    assert(!spec_batches_ok(pre_rem));
                }
                return Err(e);
            },
        }
    }
}

/// Cloning a vector of batches keeps its value.
pub fn clone_batches(bs: &Vec<RecordBatch>) -> (r: Vec<RecordBatch>)
    ensures
        r.deep_view() == bs.deep_view(),
{
    let mut r: Vec<RecordBatch> = Vec::new();
    let mut i: usize = 0;
    while i < bs.len()
        invariant
            i <= bs.len(),
            r@.len() == i,
            forall|j: int| 0 <= j < i ==> #[trigger] r@[j].deep_view() == bs@[j].deep_view(),
        decreases bs.len() - i,
    {
        let b = bs[i].clone();
        r.push(b);
        i = i + 1;
    }
    proof {
        assert(r.deep_view() =~= bs.deep_view());
    }
    r
}

/// The drained output is in strictly descending ranking order: the rows of
/// the final batch carry strictly decreasing ranking values.
pub proof fn lemma_drain_descending(es: Seq<(i64, Seq<char>)>)
    requires
        spec_tv_sorted(es),
    ensures
        spec_drain(es).len() == es.len(),
        forall|i: int, j: int|
            0 <= i < j < es.len() ==> #[trigger] spec_drain(es)[i][1]->Int64_0->0 > #[trigger] spec_drain(
                es,
            )[j][1]->Int64_0->0,
{
    assert forall|i: int, j: int| 0 <= i < j < es.len() implies #[trigger] spec_drain(es)[i][1]->Int64_0->0
        > #[trigger] spec_drain(es)[j][1]->Int64_0->0 by {
        assert(es[es.len() - 1 - j].0 < es[es.len() - 1 - i].0);
    }
}

/// Whether the structure holds an entry with the given ranking value.
pub open spec fn spec_tv_has_key(es: Seq<(i64, Seq<char>)>, x: i64) -> bool {
    exists|i: int| 0 <= i < es.len() && es[i].0 == x
}

/// Insertion adds exactly the inserted ranking value to the keys, and grows
/// the structure exactly when that value was not there.
pub proof fn lemma_tv_insert_has_key(es: Seq<(i64, Seq<char>)>, y: i64, v: Seq<char>, x: i64)
    requires
        spec_tv_sorted(es),
    ensures
        spec_tv_has_key(spec_tv_insert(es, y, v), x) <==> (x == y || spec_tv_has_key(es, x)),
        spec_tv_insert(es, y, v).len() == (if spec_tv_has_key(es, y) {
            es.len()
        } else {
            es.len() + 1
        }),
    decreases es.len(),
{
    let r = spec_tv_insert(es, y, v);
    if es.len() == 0 {
        assert(r[0].0 == y);
    } else if es[0].0 < y {
        let rest = es.subrange(1, es.len() as int);
        assert(spec_tv_sorted(rest)) by {
            assert forall|i: int, j: int| 0 <= i < j < rest.len() implies rest[i].0 < rest[j].0 by {
                assert(rest[i] == es[i + 1] && rest[j] == es[j + 1]);
            }
        }
        lemma_tv_insert_has_key(rest, y, v, x);
        let ri = spec_tv_insert(rest, y, v);
        assert(spec_tv_has_key(es, y) <==> spec_tv_has_key(rest, y)) by {
            if spec_tv_has_key(es, y) {
                let i0 = choose|i: int| 0 <= i < es.len() && es[i].0 == y;
                assert(i0 > 0);
                assert(rest[i0 - 1].0 == y);
            }
            if spec_tv_has_key(rest, y) {
                let i0 = choose|i: int| 0 <= i < rest.len() && rest[i].0 == y;
                assert(es[i0 + 1].0 == y);
            }
        }
        assert(spec_tv_has_key(r, x) <==> (x == y || spec_tv_has_key(es, x))) by {
            if spec_tv_has_key(r, x) {
                let i0 = choose|i: int| 0 <= i < r.len() && r[i].0 == x;
                if i0 == 0 {
                    assert(es[0].0 == x);
                } else {
                    assert(ri[i0 - 1].0 == x);
                }
            }
            if x == y || spec_tv_has_key(es, x) {
                if x != y && spec_tv_has_key(es, x) {
                    let i0 = choose|i: int| 0 <= i < es.len() && es[i].0 == x;
                    if i0 == 0 {
                        assert(r[0].0 == x);
                    } else {
                        assert(rest[i0 - 1].0 == x);
                        assert(spec_tv_has_key(ri, x));
                        let i1 = choose|i: int| 0 <= i < ri.len() && ri[i].0 == x;
                        assert(r[i1 + 1].0 == x);
                    }
                } else {
                    assert(spec_tv_has_key(ri, x));
                    let i1 = choose|i: int| 0 <= i < ri.len() && ri[i].0 == x;
                    assert(r[i1 + 1].0 == x);
                }
            }
        }
    } else if es[0].0 == y {
        assert(r[0].0 == y);
        assert(spec_tv_has_key(es, y)) by {
            assert(es[0].0 == y);
        }
        assert(spec_tv_has_key(r, x) <==> (x == y || spec_tv_has_key(es, x))) by {
            if spec_tv_has_key(r, x) {
                let i0 = choose|i: int| 0 <= i < r.len() && r[i].0 == x;
                if i0 > 0 {
                    assert(es[i0].0 == x);
                }
            }
            if x != y && spec_tv_has_key(es, x) {
                let i0 = choose|i: int| 0 <= i < es.len() && es[i].0 == x;
                assert(i0 > 0);
                assert(r[i0].0 == x);
            }
        }
    } else {
        assert(r[0].0 == y);
        assert(!spec_tv_has_key(es, y)) by {
            if spec_tv_has_key(es, y) {
                let i0 = choose|i: int| 0 <= i < es.len() && es[i].0 == y;
                assert(es[i0].0 == y);
                assert(es[0].0 > y);
            }
        }
        assert(spec_tv_has_key(r, x) <==> (x == y || spec_tv_has_key(es, x))) by {
            if spec_tv_has_key(r, x) {
                let i0 = choose|i: int| 0 <= i < r.len() && r[i].0 == x;
                if i0 > 0 {
                    assert(es[i0 - 1].0 == x);
                }
            }
            if x != y && spec_tv_has_key(es, x) {
                let i0 = choose|i: int| 0 <= i < es.len() && es[i].0 == x;
                assert(r[i0 + 1].0 == x);
            }
        }
    }
}

/// The claim the accumulator maintains for every ranking value it has seen:
/// either the value is still held, or the structure is full and every held
/// entry outranks it.
pub open spec fn spec_tv_covers(es: Seq<(i64, Seq<char>)>, k: u64, x: i64) -> bool {
    spec_tv_has_key(es, x) || (es.len() == k && (k == 0 || es[0].0 > x))
}

/// One accumulation step keeps the coverage of every value seen before, and
/// establishes it for the value just inserted.
pub proof fn lemma_tv_step_covers(es: Seq<(i64, Seq<char>)>, y: i64, v: Seq<char>, k: u64, x: i64)
    requires
        spec_tv_sorted(es),
        es.len() <= k,
    ensures
        spec_tv_covers(es, k, x) ==> spec_tv_covers(spec_tv_step(es, y, v, k), k, x),
        spec_tv_covers(spec_tv_step(es, y, v, k), k, y),
{
    let ins = spec_tv_insert(es, y, v);
    let r = spec_tv_step(es, y, v, k);
    lemma_tv_insert_sorted(es, y, v);
    lemma_tv_insert_has_key(es, y, v, x);
    lemma_tv_insert_has_key(es, y, v, y);
    if ins.len() <= k {
        assert(r == ins);
        if spec_tv_covers(es, k, x) && !spec_tv_has_key(r, x) {
            assert(!spec_tv_has_key(es, x) && x != y);
            assert(es.len() == k && (k == 0 || es[0].0 > x));
            assert(ins.len() == es.len());
            assert(spec_tv_has_key(es, y));
            assert(k > 0);
            assert(ins[0].0 > x) by {
                lemma_tv_insert_member(es, y, v, 0);
                if ins[0] == (y, v) {
                    let iy = choose|i: int| 0 <= i < es.len() && es[i].0 == y;
                    assert(es[iy].0 >= es[0].0);
                } else {
                    let i0 = choose|i: int| 0 <= i < es.len() && es[i] == ins[0];
                    assert(es[i0].0 >= es[0].0);
                }
            }
        }
    } else {
        assert(ins.len() == k + 1);
        assert(r =~= ins.subrange(1, ins.len() as int));
        assert(r.len() == k);
        assert forall|j: int| 0 <= j < r.len() implies #[trigger] r[j].0 >= ins[1].0 by {
            assert(r[j] == ins[j + 1]);
        }
        if k > 0 {
            assert(r[0] == ins[1]);
        }
        if spec_tv_covers(es, k, x) {
            if spec_tv_has_key(ins, x) {
                let i0 = choose|i: int| 0 <= i < ins.len() && ins[i].0 == x;
                if i0 == 0 {
                    // the smallest entry was evicted; everything held outranks it
                    if k > 0 {
                        assert(r[0].0 == ins[1].0 > ins[0].0 == x);
                    }
                } else {
                    assert(r[i0 - 1].0 == x);
                }
            } else {
                assert(!spec_tv_has_key(es, x) && x != y);
                assert(es.len() == k && (k == 0 || es[0].0 > x));
                if k > 0 {
                    assert(r[0].0 > x) by {
                        lemma_tv_insert_member(es, y, v, 1);
                        if ins[1] == (y, v) {
                            assert(ins[1].0 == y);
                            assert(ins[0].0 < ins[1].0);
                            lemma_tv_insert_member(es, y, v, 0);
                            if ins[0] == (y, v) {
                            } else {
                                let i0 = choose|i: int|
                                    0 <= i < es.len() && es[i] == ins[0];
                                assert(es[i0].0 >= es[0].0 > x);
                            }
                        } else {
                            let i1 = choose|i: int| 0 <= i < es.len() && es[i] == ins[1];
                            assert(es[i1].0 >= es[0].0 > x);
                        }
                    }
                }
            }
        }
        // coverage of the inserted value itself
        let iy = choose|i: int| 0 <= i < ins.len() && ins[i].0 == y;
        if iy == 0 {
            if k > 0 {
                assert(r[0].0 == ins[1].0 > ins[0].0 == y);
            }
        } else {
            assert(r[iy - 1].0 == y);
        }
    }
}

/// Folding more rows keeps the coverage of a value.
pub proof fn lemma_tv_fold_rows_covers(
    es: Seq<(i64, Seq<char>)>,
    rows: Seq<Seq<SpecScalar>>,
    k: u64,
    x: i64,
)
    requires
        spec_tv_sorted(es),
        es.len() <= k,
        spec_tv_covers(es, k, x),
    ensures
        spec_tv_covers(spec_tv_fold_rows(es, rows, k), k, x),
    decreases rows.len(),
{
    if rows.len() > 0 {
        let p = spec_row_pair(rows[0]);
        lemma_tv_step_covers(es, p.0, p.1, k, x);
        lemma_tv_step_sorted(es, p.0, p.1, k);
        lemma_tv_fold_rows_covers(
            spec_tv_step(es, p.0, p.1, k),
            rows.subrange(1, rows.len() as int),
            k,
            x,
        );
    }
}

/// No large ranking value is lost: after folding all rows, every row's
/// ranking value is either still held, or the structure is full and every
/// held entry outranks it.  Together with the bound and sortedness facts, the
/// structure holds the largest ranking values of the input.
pub proof fn lemma_tv_fold_rows_keeps_largest(
    es: Seq<(i64, Seq<char>)>,
    rows: Seq<Seq<SpecScalar>>,
    k: u64,
)
    requires
        spec_tv_sorted(es),
        es.len() <= k,
    ensures
        forall|i: int|
            0 <= i < rows.len() ==> spec_tv_covers(
                spec_tv_fold_rows(es, rows, k),
                k,
                spec_row_pair(#[trigger] rows[i]).0,
            ),
    decreases rows.len(),
{
    if rows.len() > 0 {
        let p = spec_row_pair(rows[0]);
        let stepped = spec_tv_step(es, p.0, p.1, k);
        lemma_tv_step_sorted(es, p.0, p.1, k);
        let rest = rows.subrange(1, rows.len() as int);
        lemma_tv_fold_rows_keeps_largest(stepped, rest, k);
        lemma_tv_step_covers(es, p.0, p.1, k, p.0);
        lemma_tv_fold_rows_covers(stepped, rest, k, p.0);
        assert forall|i: int|
            0 <= i < rows.len() implies spec_tv_covers(
            spec_tv_fold_rows(es, rows, k),
            k,
            spec_row_pair(#[trigger] rows[i]).0,
        ) by {
            if i > 0 {
                assert(rest[i - 1] == rows[i]);
            }
        }
    }
}

} // verus!
