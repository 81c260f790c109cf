//! The plan property descriptor attached to every physical operator: output
//! partitioning, output ordering, emission discipline and boundedness, with
//! the length-prefixed byte payloads that carry partitioning and ordering
//! across a compiled boundary.

use vstd::prelude::*;
use crate::codec::{
    decode_u64_le, encode_u64_le, lemma_u64_le_round_trip, spec_le_u64, spec_u64_le,
};
use crate::error::BoundaryError;
use crate::schema::Schema;

verus! {

/// How an operator's output rows are distributed across partitions.
#[derive(Debug)]
pub enum Partitioning {
    /// Batches rotate over the given number of partitions.
    RoundRobinBatch(u64),
    /// Rows are hashed over the given column indexes into the given number
    /// of partitions.
    Hash(Vec<u64>, u64),
    /// An unknown scheme over the given number of partitions.
    UnknownPartitioning(u64),
}

/// The mathematical model of a partitioning scheme.
pub enum SpecPartitioning {
    RoundRobinBatch(u64),
    Hash(Seq<u64>, u64),
    UnknownPartitioning(u64),
}

impl DeepView for Partitioning {
    type V = SpecPartitioning;

    open spec fn deep_view(&self) -> SpecPartitioning {
        match self {
            Partitioning::RoundRobinBatch(n) => SpecPartitioning::RoundRobinBatch(*n),
            Partitioning::Hash(cols, n) => SpecPartitioning::Hash(cols@, *n),
            Partitioning::UnknownPartitioning(n) => SpecPartitioning::UnknownPartitioning(*n),
        }
    }
}

impl Clone for Partitioning {
    /// Cloning keeps the scheme's value.
    fn clone(&self) -> (r: Self)
        ensures
            r.deep_view() == self.deep_view(),
    {
        match self {
            Partitioning::RoundRobinBatch(n) => Partitioning::RoundRobinBatch(*n),
            Partitioning::Hash(cols, n) => {
                let cs = cols.clone();
                proof {
                    assert(cs@ =~= cols@);
                }
                Partitioning::Hash(cs, *n)
            },
            Partitioning::UnknownPartitioning(n) => Partitioning::UnknownPartitioning(*n),
        }
    }
}

/// A partitioning a boundary payload can carry: the column list's length is
/// representable in the count prefix.
pub open spec fn spec_partitioning_wf(p: SpecPartitioning) -> bool {
    match p {
        SpecPartitioning::Hash(cols, _) => cols.len() <= u64::MAX,
        _ => true,
    }
}

/// The little-endian bytes of a list of values, in order.
pub open spec fn spec_u64s_bytes(vs: Seq<u64>) -> Seq<u8>
    decreases vs.len(),
{
    if vs.len() == 0 {
        Seq::empty()
    } else {
        spec_u64s_bytes(vs.subrange(0, vs.len() - 1)) + spec_u64_le(vs[vs.len() - 1])
    }
}

/// A list's byte encoding is eight bytes per value.
pub proof fn lemma_u64s_bytes_len(vs: Seq<u64>)
    ensures
        spec_u64s_bytes(vs).len() == 8 * vs.len(),
    decreases vs.len(),
{
    if vs.len() > 0 {
        lemma_u64s_bytes_len(vs.subrange(0, vs.len() - 1));
    }
}

/// Lists with the same byte encoding and the same length are the same list.
pub proof fn lemma_u64s_bytes_injective(a: Seq<u64>, b: Seq<u64>)
    requires
        a.len() == b.len(),
        spec_u64s_bytes(a) == spec_u64s_bytes(b),
    ensures
        a == b,
    decreases a.len(),
{
    if a.len() > 0 {
        let a1 = a.subrange(0, a.len() - 1);
        let b1 = b.subrange(0, b.len() - 1);
        lemma_u64s_bytes_len(a1);
        lemma_u64s_bytes_len(b1);
        let ea = spec_u64s_bytes(a);
        let eb = spec_u64s_bytes(b);
        assert(spec_u64s_bytes(a1) =~= ea.subrange(0, ea.len() - 8));
        assert(spec_u64s_bytes(b1) =~= eb.subrange(0, eb.len() - 8));
        lemma_u64s_bytes_injective(a1, b1);
        assert(spec_u64_le(a[a.len() - 1]) =~= ea.subrange(ea.len() - 8, ea.len() as int));
        assert(spec_u64_le(b[b.len() - 1]) =~= eb.subrange(eb.len() - 8, eb.len() as int));
        crate::codec::lemma_u64_le_injective(a[a.len() - 1], b[b.len() - 1]);
        assert forall|i: int| 0 <= i < a.len() implies a[i] == b[i] by {
            if i < a.len() - 1 {
                assert(a1[i] == a[i]);
                assert(b1[i] == b[i]);
            }
        }
        assert(a =~= b);
    } else {
        assert(a =~= b);
    }
}

/// The payload bytes of a partitioning scheme: a tag byte, the partition
/// count, and for a hash scheme the length-prefixed column list.
pub open spec fn spec_encode_partitioning(p: SpecPartitioning) -> Seq<u8> {
    match p {
        SpecPartitioning::RoundRobinBatch(n) => seq![1u8] + spec_u64_le(n),
        SpecPartitioning::Hash(cols, n) => seq![2u8] + spec_u64_le(n) + spec_u64_le(
            cols.len() as u64,
        ) + spec_u64s_bytes(cols),
        SpecPartitioning::UnknownPartitioning(n) => seq![3u8] + spec_u64_le(n),
    }
}

/// Well-formed schemes with the same payload are the same scheme.
pub proof fn lemma_encode_partitioning_injective(a: SpecPartitioning, b: SpecPartitioning)
    requires
        spec_partitioning_wf(a),
        spec_partitioning_wf(b),
        spec_encode_partitioning(a) == spec_encode_partitioning(b),
    ensures
        a == b,
{
    let ea = spec_encode_partitioning(a);
    let eb = spec_encode_partitioning(b);
    assert(ea[0] == eb[0]);
    match a {
        SpecPartitioning::RoundRobinBatch(n) => {
            assert(ea[0] == 1u8);
            match b {
                SpecPartitioning::RoundRobinBatch(m) => {
                    assert(spec_u64_le(n) =~= ea.subrange(1, 9));
                    assert(spec_u64_le(m) =~= eb.subrange(1, 9));
                    crate::codec::lemma_u64_le_injective(n, m);
                },
                SpecPartitioning::Hash(_, _) => {
                    assert(eb[0] == 2u8);
                    assert(false);
                },
                SpecPartitioning::UnknownPartitioning(_) => {
                    assert(eb[0] == 3u8);
                    assert(false);
                },
            }
        },
        SpecPartitioning::Hash(cols, n) => {
            assert(ea[0] == 2u8);
            match b {
                SpecPartitioning::RoundRobinBatch(_) => {
                    assert(eb[0] == 1u8);
                    assert(false);
                },
                SpecPartitioning::Hash(cols2, m) => {
                    lemma_u64s_bytes_len(cols);
                    lemma_u64s_bytes_len(cols2);
                    assert(spec_u64_le(n) =~= ea.subrange(1, 9));
                    assert(spec_u64_le(m) =~= eb.subrange(1, 9));
                    crate::codec::lemma_u64_le_injective(n, m);
                    assert(spec_u64_le(cols.len() as u64) =~= ea.subrange(9, 17));
                    assert(spec_u64_le(cols2.len() as u64) =~= eb.subrange(9, 17));
                    crate::codec::lemma_u64_le_injective(cols.len() as u64, cols2.len() as u64);
                    assert(cols.len() == cols2.len());
                    assert(spec_u64s_bytes(cols) =~= ea.subrange(17, ea.len() as int));
                    assert(spec_u64s_bytes(cols2) =~= eb.subrange(17, eb.len() as int));
                    lemma_u64s_bytes_injective(cols, cols2);
                },
                SpecPartitioning::UnknownPartitioning(_) => {
                    assert(eb[0] == 3u8);
                    assert(false);
                },
            }
        },
        SpecPartitioning::UnknownPartitioning(n) => {
            assert(ea[0] == 3u8);
            match b {
                SpecPartitioning::UnknownPartitioning(m) => {
                    assert(spec_u64_le(n) =~= ea.subrange(1, 9));
                    assert(spec_u64_le(m) =~= eb.subrange(1, 9));
                    crate::codec::lemma_u64_le_injective(n, m);
                },
                SpecPartitioning::RoundRobinBatch(_) => {
                    assert(eb[0] == 1u8);
                    assert(false);
                },
                SpecPartitioning::Hash(_, _) => {
                    assert(eb[0] == 2u8);
                    assert(false);
                },
            }
        },
    }
}

impl Partitioning {
    /// Encodes the scheme into its boundary payload.
    pub fn encode(&self) -> (r: Vec<u8>)
        ensures
            r@ == spec_encode_partitioning(self.deep_view()),
    {
        let mut out: Vec<u8> = Vec::new();
        match self {
            Partitioning::RoundRobinBatch(n) => {
                out.push(1u8);
                encode_u64_le(*n, &mut out);
                proof {
                    assert(out@ =~= spec_encode_partitioning(self.deep_view()));
                }
            },
            Partitioning::Hash(cols, n) => {
                out.push(2u8);
                encode_u64_le(*n, &mut out);
                encode_u64_le(cols.len() as u64, &mut out);
                let ghost prefix = out@;
                let mut i: usize = 0;
                while i < cols.len()
                    invariant
                        i <= cols.len(),
                        out@ == prefix + spec_u64s_bytes(cols@.subrange(0, i as int)),
                    decreases cols.len() - i,
                {
                    encode_u64_le(cols[i], &mut out);
                    proof {
                        let pre = cols@.subrange(0, i + 1 as int);
                        assert(pre.subrange(0, pre.len() - 1) =~= cols@.subrange(0, i as int));
                        assert(out@ =~= prefix + spec_u64s_bytes(pre));
                    }
                    i = i + 1;
                }
                proof {
                    assert(cols@.subrange(0, cols@.len() as int) =~= cols@);
                    assert(out@ =~= spec_encode_partitioning(self.deep_view()));
                }
            },
            Partitioning::UnknownPartitioning(n) => {
                out.push(3u8);
                encode_u64_le(*n, &mut out);
                proof {
                    assert(out@ =~= spec_encode_partitioning(self.deep_view()));
                }
            },
        }
        out
    }

    /// Decodes a boundary payload back into the scheme it encodes.  It
    /// returns a scheme exactly when the payload is the encoding of one, and
    /// whatever it returns re-encodes to the payload.
    #[verifier::loop_isolation(false)]
    pub fn decode(bytes: &Vec<u8>) -> (r: Result<Partitioning, BoundaryError>)
        ensures
            r matches Ok(p) ==> bytes@ == spec_encode_partitioning(p.deep_view())
                && spec_partitioning_wf(p.deep_view()),
            forall|q: SpecPartitioning|
                spec_partitioning_wf(q) && bytes@ == spec_encode_partitioning(q) ==> r is Ok,
    {
        let n_bytes = bytes.len();
        if n_bytes < 9 {
            proof {
                lemma_decode_partitioning_shape(bytes@);
            }
            return Err(BoundaryError::Decode(String::from_str("partitioning payload too short")));
        }
        let tag = bytes[0];
        if tag == 1 || tag == 3 {
            if n_bytes != 9 {
                proof {
                    lemma_decode_partitioning_shape(bytes@);
                }
                return Err(
                    BoundaryError::Decode(String::from_str("partitioning payload length")),
                );
            }
            let n = decode_u64_le(bytes, 1);
            proof {
                lemma_le_u64_bytes_round_trip(bytes@.subrange(1, 9));
                assert(bytes@ =~= seq![bytes@[0]] + bytes@.subrange(1, 9));
            }
            if tag == 1 {
                Ok(Partitioning::RoundRobinBatch(n))
            } else {
                Ok(Partitioning::UnknownPartitioning(n))
            }
        } else if tag == 2 {
            if n_bytes < 17 {
                proof {
                    lemma_decode_partitioning_shape(bytes@);
                }
                return Err(
                    BoundaryError::Decode(String::from_str("hash partitioning payload length")),
                );
            }
            let n = decode_u64_le(bytes, 1);
            let count = decode_u64_le(bytes, 9);
            let rest = n_bytes - 17;
            if rest % 8 != 0 || count != (rest / 8) as u64 {
                proof {
                    lemma_decode_partitioning_shape(bytes@);
                    assert forall|q: SpecPartitioning|
                        spec_partitioning_wf(q) && bytes@ == spec_encode_partitioning(q)
                        implies false by {
                        match q {
                            SpecPartitioning::Hash(cols, _) => {
                                lemma_u64s_bytes_len(cols);
                                assert(spec_u64_le(cols.len() as u64) =~= bytes@.subrange(9, 17));
                                lemma_le_u64_bytes_round_trip(bytes@.subrange(9, 17));
                                lemma_u64_le_round_trip(cols.len() as u64);
                            },
                            _ => {
                            },
                        }
                    }
                }
                return Err(
                    BoundaryError::Decode(String::from_str("hash partitioning column count")),
                );
            }
            let col_count = rest / 8;
            let mut cols: Vec<u64> = Vec::new();
            let mut i: usize = 0;
            while i < col_count
                invariant
                    i <= col_count,
                    col_count == (bytes@.len() - 17) / 8,
                    bytes@.len() == 17 + 8 * col_count,
                    cols@.len() == i,
                    spec_u64s_bytes(cols@) =~= bytes@.subrange(17, 17 + 8 * i),
                decreases col_count - i,
            {
                let c = decode_u64_le(bytes, 17 + 8 * i);
                proof {
                    lemma_le_u64_bytes_round_trip(bytes@.subrange(17 + 8 * i, 17 + 8 * i + 8));
                }
                let ghost prev = cols@;
                cols.push(c);
                proof {
                    assert(cols@.subrange(0, cols@.len() - 1) =~= prev);
                    assert(bytes@.subrange(17, 17 + 8 * (i + 1)) =~= bytes@.subrange(17, 17 + 8 * i)
                        + bytes@.subrange(17 + 8 * i, 17 + 8 * i + 8));
                    assert(spec_u64s_bytes(cols@) =~= bytes@.subrange(17, 17 + 8 * (i + 1)));
                }
                i = i + 1;
            }
            let p = Partitioning::Hash(cols, n);
            proof {
                lemma_le_u64_bytes_round_trip(bytes@.subrange(1, 9));
                lemma_le_u64_bytes_round_trip(bytes@.subrange(9, 17));
                assert(bytes@ =~= seq![bytes@[0]] + bytes@.subrange(1, 9) + bytes@.subrange(9, 17)
                    + bytes@.subrange(17, bytes@.len() as int));
            }
            Ok(p)
        } else {
            proof {
                lemma_decode_partitioning_shape(bytes@);
            }
            Err(BoundaryError::Decode(String::from_str("partitioning payload tag")))
        }
    }
}

/// The shape every partitioning payload has: its tag byte and its length.
proof fn lemma_decode_partitioning_shape(bytes: Seq<u8>)
    ensures
        forall|q: SpecPartitioning|
            spec_partitioning_wf(q) && bytes == spec_encode_partitioning(q) ==> bytes.len() >= 9
                && (bytes[0] == 1 || bytes[0] == 2 || bytes[0] == 3) && ((bytes[0] == 1 || bytes[0]
                == 3) ==> bytes.len() == 9) && (bytes[0] == 2 ==> bytes.len() >= 17 && (bytes.len()
                - 17) % 8 == 0),
{
    assert forall|q: SpecPartitioning|
        spec_partitioning_wf(q) && bytes == spec_encode_partitioning(q) implies bytes.len() >= 9
        && (bytes[0] == 1 || bytes[0] == 2 || bytes[0] == 3) && ((bytes[0] == 1 || bytes[0] == 3)
        ==> bytes.len() == 9) && (bytes[0] == 2 ==> bytes.len() >= 17 && (bytes.len() - 17) % 8
        == 0) by {
        match q {
            SpecPartitioning::Hash(cols, _) => {
                lemma_u64s_bytes_len(cols);
            },
            _ => {
            },
        }
    }
}

/// Re-encoding the value read from eight bytes yields the same eight bytes.
pub proof fn lemma_le_u64_bytes_round_trip(bs: Seq<u8>)
    requires
        bs.len() == 8,
    ensures
        spec_u64_le(spec_le_u64(bs)) == bs,
{
    let b0 = bs[0];
    let b1 = bs[1];
    let b2 = bs[2];
    let b3 = bs[3];
    let b4 = bs[4];
    let b5 = bs[5];
    let b6 = bs[6];
    let b7 = bs[7];
    let n = spec_le_u64(bs);
    assert(n == (b0 as u64) | ((b1 as u64) << 8) | ((b2 as u64) << 16) | ((b3 as u64) << 24) | ((
    b4 as u64) << 32) | ((b5 as u64) << 40) | ((b6 as u64) << 48) | ((b7 as u64) << 56));
    assert({
        let m = (b0 as u64) | ((b1 as u64) << 8) | ((b2 as u64) << 16) | ((b3 as u64) << 24) | ((
        b4 as u64) << 32) | ((b5 as u64) << 40) | ((b6 as u64) << 48) | ((b7 as u64) << 56);
        (m & 0xff) as u8 == b0 && ((m >> 8) & 0xff) as u8 == b1 && ((m >> 16) & 0xff) as u8 == b2
            && ((m >> 24) & 0xff) as u8 == b3 && ((m >> 32) & 0xff) as u8 == b4 && ((m >> 40)
            & 0xff) as u8 == b5 && ((m >> 48) & 0xff) as u8 == b6 && ((m >> 56) & 0xff) as u8 == b7
    }) by (bit_vector);
    assert(spec_u64_le(n) =~= bs);
}

/// Whether an operator's output is produced incrementally, only at the end
/// of its input, or both.
#[derive(Clone, Copy, Debug, PartialEq, Eq, Structural)]
pub enum EmissionType {
    Incremental,
    Final,
    Both,
}

/// Whether an operator's output is of finite size, and whether an unbounded
/// output requires unbounded memory.
#[derive(Clone, Copy, Debug, PartialEq, Eq, Structural)]
pub enum Boundedness {
    Bounded,
    Unbounded { requires_infinite_memory: bool },
}

/// One physical sort key: a column index and its direction.
#[derive(Clone, Copy, Debug, PartialEq, Eq, Structural)]
pub struct PhysicalSortExpr {
    pub column: u64,
    pub descending: bool,
    pub nulls_first: bool,
}

/// The byte of a flag.
pub open spec fn spec_bool_byte(b: bool) -> u8 {
    if b {
        1u8
    } else {
        0u8
    }
}

/// The ten payload bytes of one sort key.
pub open spec fn spec_encode_sort_expr(e: PhysicalSortExpr) -> Seq<u8> {
    spec_u64_le(e.column) + seq![spec_bool_byte(e.descending), spec_bool_byte(e.nulls_first)]
}

/// The payload bytes of the sort keys, in order.
pub open spec fn spec_sort_exprs_bytes(os: Seq<PhysicalSortExpr>) -> Seq<u8>
    decreases os.len(),
{
    if os.len() == 0 {
        Seq::empty()
    } else {
        spec_sort_exprs_bytes(os.subrange(0, os.len() - 1)) + spec_encode_sort_expr(
            os[os.len() - 1],
        )
    }
}

/// The sort keys' byte encoding is ten bytes per key.
pub proof fn lemma_sort_exprs_bytes_len(os: Seq<PhysicalSortExpr>)
    ensures
        spec_sort_exprs_bytes(os).len() == 10 * os.len(),
    decreases os.len(),
{
    if os.len() > 0 {
        lemma_sort_exprs_bytes_len(os.subrange(0, os.len() - 1));
    }
}

/// Sort-key lists with the same bytes and the same length are the same list.
pub proof fn lemma_sort_exprs_bytes_injective(a: Seq<PhysicalSortExpr>, b: Seq<PhysicalSortExpr>)
    requires
        a.len() == b.len(),
        spec_sort_exprs_bytes(a) == spec_sort_exprs_bytes(b),
    ensures
        a == b,
    decreases a.len(),
{
    if a.len() > 0 {
        let a1 = a.subrange(0, a.len() - 1);
        let b1 = b.subrange(0, b.len() - 1);
        lemma_sort_exprs_bytes_len(a1);
        lemma_sort_exprs_bytes_len(b1);
        let ea = spec_sort_exprs_bytes(a);
        let eb = spec_sort_exprs_bytes(b);
        assert(spec_sort_exprs_bytes(a1) =~= ea.subrange(0, ea.len() - 10));
        assert(spec_sort_exprs_bytes(b1) =~= eb.subrange(0, eb.len() - 10));
        lemma_sort_exprs_bytes_injective(a1, b1);
        let la = a[a.len() - 1];
        let lb = b[b.len() - 1];
        assert(spec_encode_sort_expr(la) =~= ea.subrange(ea.len() - 10, ea.len() as int));
        assert(spec_encode_sort_expr(lb) =~= eb.subrange(eb.len() - 10, eb.len() as int));
        assert(spec_u64_le(la.column) =~= spec_encode_sort_expr(la).subrange(0, 8));
        assert(spec_u64_le(lb.column) =~= spec_encode_sort_expr(lb).subrange(0, 8));
        crate::codec::lemma_u64_le_injective(la.column, lb.column);
        assert(spec_encode_sort_expr(la)[8] == spec_bool_byte(la.descending));
        assert(spec_encode_sort_expr(lb)[8] == spec_bool_byte(lb.descending));
        assert(spec_encode_sort_expr(la)[9] == spec_bool_byte(la.nulls_first));
        assert(spec_encode_sort_expr(lb)[9] == spec_bool_byte(lb.nulls_first));
        assert(spec_bool_byte(la.descending) == spec_bool_byte(lb.descending));
        assert(spec_bool_byte(la.nulls_first) == spec_bool_byte(lb.nulls_first));
        assert(la == lb);
        assert forall|i: int| 0 <= i < a.len() implies a[i] == b[i] by {
            if i < a.len() - 1 {
                assert(a1[i] == a[i]);
                assert(b1[i] == b[i]);
            }
        }
        assert(a =~= b);
    } else {
        assert(a =~= b);
    }
}

/// The payload bytes of an output ordering: empty means no known ordering,
/// otherwise the count of sort keys followed by their bytes.
pub open spec fn spec_encode_orderings(os: Seq<PhysicalSortExpr>) -> Seq<u8> {
    if os.len() == 0 {
        Seq::empty()
    } else {
        spec_u64_le(os.len() as u64) + spec_sort_exprs_bytes(os)
    }
}

/// An ordering a boundary payload can carry.
pub open spec fn spec_orderings_wf(os: Seq<PhysicalSortExpr>) -> bool {
    os.len() <= u64::MAX
}

/// Orderings with the same payload are the same ordering.
pub proof fn lemma_encode_orderings_injective(a: Seq<PhysicalSortExpr>, b: Seq<PhysicalSortExpr>)
    requires
        spec_orderings_wf(a),
        spec_orderings_wf(b),
        spec_encode_orderings(a) == spec_encode_orderings(b),
    ensures
        a == b,
{
    lemma_sort_exprs_bytes_len(a);
    lemma_sort_exprs_bytes_len(b);
    if a.len() == 0 || b.len() == 0 {
        if a.len() == 0 && b.len() == 0 {
            assert(a =~= b);
        } else {
            assert(false);
        }
    } else {
        let ea = spec_encode_orderings(a);
        let eb = spec_encode_orderings(b);
        assert(spec_u64_le(a.len() as u64) =~= ea.subrange(0, 8));
        assert(spec_u64_le(b.len() as u64) =~= eb.subrange(0, 8));
        crate::codec::lemma_u64_le_injective(a.len() as u64, b.len() as u64);
        assert(spec_sort_exprs_bytes(a) =~= ea.subrange(8, ea.len() as int));
        assert(spec_sort_exprs_bytes(b) =~= eb.subrange(8, eb.len() as int));
        lemma_sort_exprs_bytes_injective(a, b);
    }
}

/// Encodes an output ordering into its boundary payload.
pub fn encode_orderings(os: &Vec<PhysicalSortExpr>) -> (r: Vec<u8>)
    ensures
        r@ == spec_encode_orderings(os@),
{
    let mut out: Vec<u8> = Vec::new();
    if os.len() == 0 {
        proof {
            assert(out@ =~= spec_encode_orderings(os@));
        }
        return out;
    }
    encode_u64_le(os.len() as u64, &mut out);
    let ghost prefix = out@;
    let mut i: usize = 0;
    while i < os.len()
        invariant
            i <= os.len(),
            os@.len() > 0,
            out@ == prefix + spec_sort_exprs_bytes(os@.subrange(0, i as int)),
            prefix == spec_u64_le(os@.len() as u64),
        decreases os.len() - i,
    {
        let e = os[i];
        encode_u64_le(e.column, &mut out);
        out.push(if e.descending {
            1u8
        } else {
            0u8
        });
        out.push(if e.nulls_first {
            1u8
        } else {
            0u8
        });
        proof {
            let pre = os@.subrange(0, i + 1 as int);
            assert(pre.subrange(0, pre.len() - 1) =~= os@.subrange(0, i as int));
            assert(out@ =~= prefix + spec_sort_exprs_bytes(pre));
        }
        i = i + 1;
    }
    proof {
        assert(os@.subrange(0, os@.len() as int) =~= os@);
        assert(out@ =~= spec_encode_orderings(os@));
    }
    out
}

/// The shape every ordering payload has.
proof fn lemma_decode_orderings_shape(bytes: Seq<u8>)
    ensures
        forall|q: Seq<PhysicalSortExpr>|
            spec_orderings_wf(q) && bytes == spec_encode_orderings(q) ==> (bytes.len() == 0 || (
            bytes.len() >= 18 && (bytes.len() - 8) % 10 == 0)),
{
    assert forall|q: Seq<PhysicalSortExpr>|
        spec_orderings_wf(q) && bytes == spec_encode_orderings(q) implies (bytes.len() == 0 || (
    bytes.len() >= 18 && (bytes.len() - 8) % 10 == 0)) by {
        lemma_sort_exprs_bytes_len(q);
    }
}

/// Decodes an ordering payload.  An empty payload is the empty ordering; it
/// returns an ordering exactly when the payload is the encoding of one, and
/// whatever it returns re-encodes to the payload.
#[verifier::loop_isolation(false)]
#[verifier::rlimit(100)]
pub fn decode_orderings(bytes: &Vec<u8>) -> (r: Result<Vec<PhysicalSortExpr>, BoundaryError>)
    ensures
        r matches Ok(os) ==> bytes@ == spec_encode_orderings(os@),
        forall|q: Seq<PhysicalSortExpr>|
            spec_orderings_wf(q) && bytes@ == spec_encode_orderings(q) ==> r is Ok,
{
    let n_bytes = bytes.len();
    if n_bytes == 0 {
        let os: Vec<PhysicalSortExpr> = Vec::new();
        proof {
            assert(bytes@ =~= spec_encode_orderings(os@));
        }
        return Ok(os);
    }
    if n_bytes < 18 || (n_bytes - 8) % 10 != 0 {
        proof {
            lemma_decode_orderings_shape(bytes@);
        }
        return Err(BoundaryError::Decode(String::from_str("ordering payload length")));
    }
    let count_claimed = decode_u64_le(bytes, 0);
    let count = (n_bytes - 8) / 10;
    if count_claimed != count as u64 {
        proof {
            lemma_orderings_count_claim(bytes@);
        }
        return Err(BoundaryError::Decode(String::from_str("ordering payload count")));
    }
    let mut os: Vec<PhysicalSortExpr> = Vec::new();
    let mut i: usize = 0;
    while i < count
        invariant
            i <= count,
            count == (bytes@.len() - 8) / 10,
            bytes@.len() == 8 + 10 * count,
            os@.len() == i,
            spec_sort_exprs_bytes(os@) =~= bytes@.subrange(8, 8 + 10 * i),
        decreases count - i,
    {
        let column = decode_u64_le(bytes, 8 + 10 * i);
        let db = bytes[8 + 10 * i + 8];
        let nb = bytes[8 + 10 * i + 9];
        if db > 1 || nb > 1 {
            proof {
                lemma_orderings_count_claim(bytes@);
                lemma_orderings_flag_bytes(bytes@, i as int);
            }
            return Err(BoundaryError::Decode(String::from_str("ordering payload flag")));
        }
        let e = PhysicalSortExpr { column, descending: db == 1, nulls_first: nb == 1 };
        proof {
            lemma_le_u64_bytes_round_trip(bytes@.subrange(8 + 10 * i, 8 + 10 * i + 8));
            assert(spec_encode_sort_expr(e) =~= bytes@.subrange(8 + 10 * i, 8 + 10 * (i + 1)));
        }
        let ghost prev = os@;
        os.push(e);
        proof {
            assert(os@.subrange(0, os@.len() - 1) =~= prev);
            assert(bytes@.subrange(8, 8 + 10 * (i + 1)) =~= bytes@.subrange(8, 8 + 10 * i)
                + bytes@.subrange(8 + 10 * i, 8 + 10 * (i + 1)));
            assert(spec_sort_exprs_bytes(os@) =~= bytes@.subrange(8, 8 + 10 * (i + 1)));
        }
        i = i + 1;
    }
    proof {
        lemma_le_u64_bytes_round_trip(bytes@.subrange(0, 8));
        assert(bytes@ =~= bytes@.subrange(0, 8) + bytes@.subrange(8, bytes@.len() as int));
        assert(bytes@ =~= spec_encode_orderings(os@));
    }
    Ok(os)
}

/// Each sort key's bytes stand at their fixed offset in the keys' encoding.
proof fn lemma_sort_exprs_bytes_entry(q: Seq<PhysicalSortExpr>, i: int)
    requires
        0 <= i < q.len(),
    ensures
        spec_sort_exprs_bytes(q).subrange(10 * i, 10 * (i + 1)) == spec_encode_sort_expr(q[i]),
    decreases q.len(),
{
    lemma_sort_exprs_bytes_len(q);
    if q.len() > 0 {
        let q1 = q.subrange(0, q.len() - 1);
        lemma_sort_exprs_bytes_len(q1);
        if i == q.len() - 1 {
            assert(spec_sort_exprs_bytes(q).subrange(10 * i, 10 * (i + 1)) =~= spec_encode_sort_expr(
                q[i],
            ));
        } else {
            lemma_sort_exprs_bytes_entry(q1, i);
            assert(spec_sort_exprs_bytes(q).subrange(10 * i, 10 * (i + 1))
                =~= spec_sort_exprs_bytes(q1).subrange(10 * i, 10 * (i + 1)));
            assert(q1[i] == q[i]);
        }
    }
}

/// The mathematical model of a plan property descriptor.
pub struct SpecPlanProperties {
    pub schema: crate::schema::SpecSchema,
    pub orderings: Seq<PhysicalSortExpr>,
    pub partitioning: SpecPartitioning,
    pub emission_type: EmissionType,
    pub boundedness: Boundedness,
}

/// Equivalence and ordering facts scoped to a schema.
#[derive(Debug)]
pub struct EquivalenceProperties {
    pub schema: Schema,
    pub orderings: Vec<PhysicalSortExpr>,
}

impl EquivalenceProperties {
    /// Facts over a schema with no known ordering.
    pub fn new(schema: Schema) -> (r: Self)
        ensures
            r.schema@ == schema@,
            r.orderings@ == Seq::<PhysicalSortExpr>::empty(),
    {
        let r = EquivalenceProperties { schema, orderings: Vec::new() };
        proof {
            assert(r.orderings@ =~= Seq::<PhysicalSortExpr>::empty());
        }
        r
    }

    /// Facts over a schema with a known output ordering.
    pub fn new_with_orderings(schema: Schema, orderings: Vec<PhysicalSortExpr>) -> (r: Self)
        ensures
            r.schema@ == schema@,
            r.orderings@ == orderings@,
    {
        EquivalenceProperties { schema, orderings }
    }
}

impl Clone for EquivalenceProperties {
    /// Cloning keeps the facts' value.
    fn clone(&self) -> (r: Self)
        ensures
            r.schema@ == self.schema@,
            r.orderings@ == self.orderings@,
    {
        let os = self.orderings.clone();
        proof {
            assert(os@ =~= self.orderings@);
        }
        EquivalenceProperties { schema: self.schema.clone(), orderings: os }
    }
}

/// The immutable metadata attached to every physical operator: its output
/// schema and ordering facts, partitioning scheme, emission discipline and
/// boundedness.  Attached once at construction and recomputed, never
/// mutated, when an operator's children change.
#[derive(Debug)]
pub struct PlanProperties {
    pub eq_properties: EquivalenceProperties,
    pub partitioning: Partitioning,
    pub emission_type: EmissionType,
    pub boundedness: Boundedness,
}

impl DeepView for PlanProperties {
    type V = SpecPlanProperties;

    open spec fn deep_view(&self) -> SpecPlanProperties {
        SpecPlanProperties {
            schema: self.eq_properties.schema@,
            orderings: self.eq_properties.orderings@,
            partitioning: self.partitioning.deep_view(),
            emission_type: self.emission_type,
            boundedness: self.boundedness,
        }
    }
}

impl Clone for PlanProperties {
    /// Cloning keeps the descriptor's value.
    fn clone(&self) -> (r: Self)
        ensures
            r.deep_view() == self.deep_view(),
    {
        PlanProperties {
            eq_properties: self.eq_properties.clone(),
            partitioning: self.partitioning.clone(),
            emission_type: self.emission_type,
            boundedness: self.boundedness,
        }
    }
}

impl PlanProperties {
    /// Builds a descriptor.
    pub fn new(
        eq_properties: EquivalenceProperties,
        partitioning: Partitioning,
        emission_type: EmissionType,
        boundedness: Boundedness,
    ) -> (r: Self)
        ensures
            r.deep_view() == (SpecPlanProperties {
                schema: eq_properties.schema@,
                orderings: eq_properties.orderings@,
                partitioning: partitioning.deep_view(),
                emission_type,
                boundedness,
            }),
    {
        PlanProperties { eq_properties, partitioning, emission_type, boundedness }
    }

    /// The output partitioning scheme.
    pub fn output_partitioning(&self) -> (r: &Partitioning)
        ensures
            r.deep_view() == self.deep_view().partitioning,
    {
        &self.partitioning
    }

    /// The known output ordering, or `None` when there is none.
    pub fn output_ordering(&self) -> (r: Option<&Vec<PhysicalSortExpr>>)
        ensures
            self.deep_view().orderings.len() == 0 <==> r is None,
            r matches Some(os) ==> os@ == self.deep_view().orderings,
    {
        if self.eq_properties.orderings.len() == 0 {
            None
        } else {
            Some(&self.eq_properties.orderings)
        }
    }

    /// The schema the facts are scoped to.
    pub fn schema(&self) -> (r: &Schema)
        ensures
            r@ == self.deep_view().schema,
    {
        &self.eq_properties.schema
    }
}

/// The rendering of a list of values, comma-separated.
pub open spec fn spec_u64s_joined(vs: Seq<u64>) -> Seq<char>
    decreases vs.len(),
{
    if vs.len() == 0 {
        Seq::empty()
    } else if vs.len() == 1 {
        crate::format::spec_u64_digits(vs[0] as nat)
    } else {
        spec_u64s_joined(vs.subrange(0, vs.len() - 1)) + ", "@ + crate::format::spec_u64_digits(
            vs[vs.len() - 1] as nat,
        )
    }
}

/// The rendering of a partitioning scheme.
pub open spec fn spec_render_partitioning(p: SpecPartitioning) -> Seq<char> {
    match p {
        SpecPartitioning::RoundRobinBatch(n) => "RoundRobinBatch("@
            + crate::format::spec_u64_digits(n as nat) + ")"@,
        SpecPartitioning::Hash(cols, n) => "Hash(["@ + spec_u64s_joined(cols) + "], "@
            + crate::format::spec_u64_digits(n as nat) + ")"@,
        SpecPartitioning::UnknownPartitioning(n) => "UnknownPartitioning("@
            + crate::format::spec_u64_digits(n as nat) + ")"@,
    }
}

/// The rendering of an emission discipline.
pub open spec fn spec_render_emission(e: EmissionType) -> Seq<char> {
    match e {
        EmissionType::Incremental => "Incremental"@,
        EmissionType::Final => "Final"@,
        EmissionType::Both => "Both"@,
    }
}

/// The rendering of a boundedness.
pub open spec fn spec_render_boundedness(b: Boundedness) -> Seq<char> {
    match b {
        Boundedness::Bounded => "Bounded"@,
        Boundedness::Unbounded { requires_infinite_memory } => {
            if requires_infinite_memory {
                "Unbounded { requires_infinite_memory: true }"@
            } else {
                "Unbounded { requires_infinite_memory: false }"@
            }
        },
    }
}

/// The rendering of one sort key.
pub open spec fn spec_render_sort_expr(e: PhysicalSortExpr) -> Seq<char> {
    "col@"@ + crate::format::spec_u64_digits(e.column as nat) + (if e.descending {
        " DESC"@
    } else {
        " ASC"@
    }) + (if e.nulls_first {
        " NULLS FIRST"@
    } else {
        " NULLS LAST"@
    })
}

/// The rendering of a list of sort keys, comma-separated.
pub open spec fn spec_render_orderings(os: Seq<PhysicalSortExpr>) -> Seq<char>
    decreases os.len(),
{
    if os.len() == 0 {
        Seq::empty()
    } else if os.len() == 1 {
        spec_render_sort_expr(os[0])
    } else {
        spec_render_orderings(os.subrange(0, os.len() - 1)) + ", "@ + spec_render_sort_expr(
            os[os.len() - 1],
        )
    }
}

/// The rendering of a column type.
pub open spec fn spec_render_data_type(d: crate::schema::DataType) -> Seq<char> {
    match d {
        crate::schema::DataType::Boolean => "Boolean"@,
        crate::schema::DataType::Int64 => "Int64"@,
        crate::schema::DataType::UInt64 => "UInt64"@,
        crate::schema::DataType::Utf8 => "Utf8"@,
        crate::schema::DataType::Float32 => "Float32"@,
    }
}

/// The rendering of a schema's fields, comma-separated `name: type` pairs.
pub open spec fn spec_render_fields(fs: Seq<crate::schema::SpecField>) -> Seq<char>
    decreases fs.len(),
{
    if fs.len() == 0 {
        Seq::empty()
    } else if fs.len() == 1 {
        fs[0].name + ": "@ + spec_render_data_type(fs[0].data_type)
    } else {
        spec_render_fields(fs.subrange(0, fs.len() - 1)) + ", "@ + fs[fs.len() - 1].name + ": "@
            + spec_render_data_type(fs[fs.len() - 1].data_type)
    }
}

/// The debug rendering of a descriptor.
pub open spec fn spec_render_plan_properties(p: SpecPlanProperties) -> Seq<char> {
    "PlanProperties { partitioning: "@ + spec_render_partitioning(p.partitioning)
        + ", emission_type: "@ + spec_render_emission(p.emission_type) + ", boundedness: "@
        + spec_render_boundedness(p.boundedness) + ", orderings: ["@ + spec_render_orderings(
        p.orderings,
    ) + "], schema: ["@ + spec_render_fields(p.schema.fields) + "] }"@
}

impl Partitioning {
    /// Renders the scheme.
    pub fn render(&self) -> (r: String)
        ensures
            r@ == spec_render_partitioning(self.deep_view()),
    {
        match self {
            Partitioning::RoundRobinBatch(n) => {
                let mut s = String::from_str("RoundRobinBatch(");
                s.append(crate::format::u64_string(*n).as_str());
                s.append(")");
                proof {
                    assert(s@ =~= spec_render_partitioning(self.deep_view()));
                }
                s
            },
            Partitioning::Hash(cols, n) => {
                let mut s = String::from_str("Hash([");
                let mut i: usize = 0;
                let ghost prefix = s@;
                while i < cols.len()
                    invariant
                        i <= cols.len(),
                        s@ == prefix + spec_u64s_joined(cols@.subrange(0, i as int)),
                    decreases cols.len() - i,
                {
                    if i > 0 {
                        s.append(", ");
                    }
                    s.append(crate::format::u64_string(cols[i]).as_str());
                    proof {
                        let pre = cols@.subrange(0, i + 1 as int);
                        assert(pre.subrange(0, pre.len() - 1) =~= cols@.subrange(0, i as int));
                        assert(pre[pre.len() - 1] == cols@[i as int]);
                        assert(s@ =~= prefix + spec_u64s_joined(pre));
                    }
                    i = i + 1;
                }
                s.append("], ");
                s.append(crate::format::u64_string(*n).as_str());
                s.append(")");
                proof {
                    assert(cols@.subrange(0, cols@.len() as int) =~= cols@);
                    assert(s@ =~= spec_render_partitioning(self.deep_view()));
                }
                s
            },
            Partitioning::UnknownPartitioning(n) => {
                let mut s = String::from_str("UnknownPartitioning(");
                s.append(crate::format::u64_string(*n).as_str());
                s.append(")");
                proof {
                    assert(s@ =~= spec_render_partitioning(self.deep_view()));
                }
                s
            },
        }
    }
}

impl EmissionType {
    /// Renders the discipline.
    pub fn render(&self) -> (r: String)
        ensures
            r@ == spec_render_emission(*self),
    {
        match self {
            EmissionType::Incremental => String::from_str("Incremental"),
            EmissionType::Final => String::from_str("Final"),
            EmissionType::Both => String::from_str("Both"),
        }
    }
}

impl Boundedness {
    /// Renders the boundedness.
    pub fn render(&self) -> (r: String)
        ensures
            r@ == spec_render_boundedness(*self),
    {
        match self {
            Boundedness::Bounded => String::from_str("Bounded"),
            Boundedness::Unbounded { requires_infinite_memory } => {
                if *requires_infinite_memory {
                    String::from_str("Unbounded { requires_infinite_memory: true }")
                } else {
                    String::from_str("Unbounded { requires_infinite_memory: false }")
                }
            },
        }
    }
}

impl PhysicalSortExpr {
    /// Renders the sort key.
    pub fn render(&self) -> (r: String)
        ensures
            r@ == spec_render_sort_expr(*self),
    {
        let mut s = String::from_str("col@");
        s.append(crate::format::u64_string(self.column).as_str());
        if self.descending {
            s.append(" DESC");
        } else {
            s.append(" ASC");
        }
        if self.nulls_first {
            s.append(" NULLS FIRST");
        } else {
            s.append(" NULLS LAST");
        }
        proof {
            assert(s@ =~= spec_render_sort_expr(*self));
        }
        s
    }
}

impl PlanProperties {
    /// Renders the descriptor for debugging; decoding an encoded descriptor
    /// yields a value with an identical rendering.
    pub fn render(&self) -> (r: String)
        ensures
            r@ == spec_render_plan_properties(self.deep_view()),
    {
        let mut s = String::from_str("PlanProperties { partitioning: ");
        s.append(self.partitioning.render().as_str());
        s.append(", emission_type: ");
        s.append(self.emission_type.render().as_str());
        s.append(", boundedness: ");
        s.append(self.boundedness.render().as_str());
        s.append(", orderings: [");
        let os = &self.eq_properties.orderings;
        let ghost prefix = s@;
        let mut i: usize = 0;
        while i < os.len()
            invariant
                i <= os.len(),
                s@ == prefix + spec_render_orderings(os@.subrange(0, i as int)),
            decreases os.len() - i,
        {
            if i > 0 {
                s.append(", ");
            }
            s.append(os[i].render().as_str());
            proof {
                let pre = os@.subrange(0, i + 1 as int);
                assert(pre.subrange(0, pre.len() - 1) =~= os@.subrange(0, i as int));
                assert(pre[pre.len() - 1] == os@[i as int]);
                assert(s@ =~= prefix + spec_render_orderings(pre));
            }
            i = i + 1;
        }
        s.append("], schema: [");
        let fs = &self.eq_properties.schema.fields;
        let ghost prefix2 = s@;
        let mut j: usize = 0;
        while j < fs.len()
            invariant
                j <= fs.len(),
                s@ == prefix2 + spec_render_fields(fs.deep_view().subrange(0, j as int)),
            decreases fs.len() - j,
        {
            if j > 0 {
                s.append(", ");
            }
            s.append(fs[j].name.as_str());
            s.append(": ");
            let dt = fs[j].data_type;
            match dt {
                crate::schema::DataType::Boolean => s.append("Boolean"),
                crate::schema::DataType::Int64 => s.append("Int64"),
                crate::schema::DataType::UInt64 => s.append("UInt64"),
                crate::schema::DataType::Utf8 => s.append("Utf8"),
                crate::schema::DataType::Float32 => s.append("Float32"),
            }
            proof {
                let pre = fs.deep_view().subrange(0, j + 1 as int);
                assert(pre.subrange(0, pre.len() - 1) =~= fs.deep_view().subrange(0, j as int));
                assert(pre[pre.len() - 1] == fs.deep_view()[j as int]);
                assert(s@ =~= prefix2 + spec_render_fields(pre));
            }
            j = j + 1;
        }
        s.append("] }");
        proof {
            assert(os@.subrange(0, os@.len() as int) =~= os@);
            assert(fs.deep_view().subrange(0, fs.deep_view().len() as int) =~= fs.deep_view());
            assert(s@ =~= spec_render_plan_properties(self.deep_view()));
        }
        s
    }
}

/// Whether every sort key references a column of the schema.
pub open spec fn spec_orderings_in_schema(
    os: Seq<PhysicalSortExpr>,
    s: crate::schema::SpecSchema,
) -> bool {
    forall|i: int| 0 <= i < os.len() ==> (#[trigger] os[i]).column < s.fields.len()
}

/// Whether every column a partitioning scheme hashes over is a column of the
/// schema.
pub open spec fn spec_partitioning_in_schema(
    p: SpecPartitioning,
    s: crate::schema::SpecSchema,
) -> bool {
    match p {
        SpecPartitioning::Hash(cols, _) => forall|i: int|
            0 <= i < cols.len() ==> #[trigger] cols[i] < s.fields.len(),
        _ => true,
    }
}

/// Every non-empty ordering payload carries its key count in its prefix.
proof fn lemma_orderings_count_claim(bytes: Seq<u8>)
    ensures
        forall|q: Seq<PhysicalSortExpr>|
            spec_orderings_wf(q) && bytes == spec_encode_orderings(q) && q.len() > 0
                ==> #[trigger] q.len() == (bytes.len() - 8) / 10 && spec_le_u64(
                bytes.subrange(0, 8),
            ) == q.len() as u64,
        forall|q: Seq<PhysicalSortExpr>|
            spec_orderings_wf(q) && bytes == spec_encode_orderings(q) && bytes.len() > 0
                ==> #[trigger] q.len() > 0,
{
    assert forall|q: Seq<PhysicalSortExpr>|
        spec_orderings_wf(q) && bytes == spec_encode_orderings(q) && q.len() > 0 implies #[trigger] q.len()
        == (bytes.len() - 8) / 10 && spec_le_u64(bytes.subrange(0, 8)) == q.len() as u64 by {
        lemma_sort_exprs_bytes_len(q);
        assert(spec_u64_le(q.len() as u64) =~= bytes.subrange(0, 8));
        lemma_u64_le_round_trip(q.len() as u64);
    }
}

/// Every flag byte of a sort key's payload is zero or one.
proof fn lemma_orderings_flag_bytes(bytes: Seq<u8>, i: int)
    requires
        i >= 0,
    ensures
        forall|q: Seq<PhysicalSortExpr>|
            spec_orderings_wf(q) && bytes == spec_encode_orderings(q) && i < q.len()
                ==> #[trigger] q.len() > 0 && bytes[8 + 10 * i + 8] <= 1 && bytes[8 + 10 * i + 9]
                <= 1,
{
    assert forall|q: Seq<PhysicalSortExpr>|
        spec_orderings_wf(q) && bytes == spec_encode_orderings(q) && i < q.len() implies #[trigger] q.len()
        > 0 && bytes[8 + 10 * i + 8] <= 1 && bytes[8 + 10 * i + 9] <= 1 by {
        lemma_sort_exprs_bytes_len(q);
        lemma_sort_exprs_bytes_entry(q, i);
        assert(spec_sort_exprs_bytes(q) =~= bytes.subrange(8, bytes.len() as int));
        assert(bytes.subrange(8 + 10 * i, 8 + 10 * (i + 1)) =~= spec_sort_exprs_bytes(q).subrange(
            10 * i,
            10 * (i + 1),
        ));
        let e = q[i];
        assert(spec_encode_sort_expr(e)[8] == spec_bool_byte(e.descending));
        assert(spec_encode_sort_expr(e)[9] == spec_bool_byte(e.nulls_first));
        assert(bytes[8 + 10 * i + 8] == spec_bool_byte(e.descending));
        assert(bytes[8 + 10 * i + 9] == spec_bool_byte(e.nulls_first));
    }
}

} // verus!
