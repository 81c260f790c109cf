//! Scalar expressions owned by logical plan nodes, and their rendering.

use vstd::prelude::*;
use crate::format::{i64_string, spec_i64_digits, spec_u64_digits, u64_string};

verus! {

/// The mathematical model of a scalar constant.
pub enum SpecScalar {
    Boolean(Option<bool>),
    Int64(Option<i64>),
    UInt64(Option<u64>),
    Utf8(Option<Seq<char>>),
}

/// A scalar constant; `None` is the typed null of the variant's type.
#[derive(Debug)]
pub enum ScalarValue {
    Boolean(Option<bool>),
    Int64(Option<i64>),
    UInt64(Option<u64>),
    Utf8(Option<String>),
}

/// The mathematical model of a scalar expression.
pub enum SpecExpr {
    Column(Seq<char>),
    Literal(SpecScalar),
    AggregateCall { func: Seq<char>, arg: Box<SpecExpr> },
}

/// A scalar expression: a qualified column reference, a constant, or an
/// aggregate call over one argument.
#[derive(Debug)]
pub enum Expr {
    Column(String),
    Literal(ScalarValue),
    AggregateCall { func: String, arg: Box<Expr> },
}

/// The mathematical model of a sort key.
pub struct SpecSortExpr {
    pub expr: SpecExpr,
    pub asc: bool,
    pub nulls_first: bool,
}

/// One sort key of a sort node: the ranking expression and its direction.
#[derive(Debug)]
pub struct SortExpr {
    pub expr: Expr,
    pub asc: bool,
    pub nulls_first: bool,
}

impl DeepView for ScalarValue {
    type V = SpecScalar;

    open spec fn deep_view(&self) -> SpecScalar {
        match self {
            ScalarValue::Boolean(b) => SpecScalar::Boolean(*b),
            ScalarValue::Int64(i) => SpecScalar::Int64(*i),
            ScalarValue::UInt64(u) => SpecScalar::UInt64(*u),
            ScalarValue::Utf8(s) => SpecScalar::Utf8(
                match s {
                    Some(s) => Some(s@),
                    None => None,
                },
            ),
        }
    }
}

/// The model of an expression.
pub open spec fn spec_expr_view(e: &Expr) -> SpecExpr
    decreases e,
{
    match e {
        Expr::Column(name) => SpecExpr::Column(name@),
        Expr::Literal(v) => SpecExpr::Literal(v.deep_view()),
        Expr::AggregateCall { func, arg } => SpecExpr::AggregateCall {
            func: func@,
            arg: Box::new(spec_expr_view(&**arg)),
        },
    }
}

impl DeepView for Expr {
    type V = SpecExpr;

    open spec fn deep_view(&self) -> SpecExpr {
        spec_expr_view(self)
    }
}

impl DeepView for SortExpr {
    type V = SpecSortExpr;

    open spec fn deep_view(&self) -> SpecSortExpr {
        SpecSortExpr { expr: self.expr.deep_view(), asc: self.asc, nulls_first: self.nulls_first }
    }
}

impl Clone for ScalarValue {
    /// Cloning keeps the value.
    fn clone(&self) -> (r: Self)
        ensures
            r.deep_view() == self.deep_view(),
    {
        match self {
            ScalarValue::Boolean(b) => ScalarValue::Boolean(*b),
            ScalarValue::Int64(i) => ScalarValue::Int64(*i),
            ScalarValue::UInt64(u) => ScalarValue::UInt64(*u),
            ScalarValue::Utf8(s) => ScalarValue::Utf8(
                match s {
                    Some(s) => Some(s.clone()),
                    None => None,
                },
            ),
        }
    }
}

impl Clone for Expr {
    /// Cloning keeps the expression's value.
    fn clone(&self) -> (r: Self)
        ensures
            r.deep_view() == self.deep_view(),
        decreases self,
    {
        match self {
            Expr::Column(name) => Expr::Column(name.clone()),
            Expr::Literal(v) => Expr::Literal(v.clone()),
            Expr::AggregateCall { func, arg } => Expr::AggregateCall {
                func: func.clone(),
                arg: Box::new((&**arg).clone()),
            },
        }
    }
}

impl Clone for SortExpr {
    /// Cloning keeps the sort key's value.
    fn clone(&self) -> (r: Self)
        ensures
            r.deep_view() == self.deep_view(),
    {
        SortExpr { expr: self.expr.clone(), asc: self.asc, nulls_first: self.nulls_first }
    }
}

/// The rendering of a scalar constant.
pub open spec fn spec_display_scalar(v: SpecScalar) -> Seq<char> {
    match v {
        SpecScalar::Boolean(Some(true)) => "true"@,
        SpecScalar::Boolean(Some(false)) => "false"@,
        SpecScalar::Boolean(None) => "Boolean(NULL)"@,
        SpecScalar::Int64(Some(i)) => spec_i64_digits(i as int),
        SpecScalar::Int64(None) => "Int64(NULL)"@,
        SpecScalar::UInt64(Some(u)) => "UInt64("@ + spec_u64_digits(u as nat) + ")"@,
        SpecScalar::UInt64(None) => "UInt64(NULL)"@,
        SpecScalar::Utf8(Some(s)) => "Utf8("@ + s + ")"@,
        SpecScalar::Utf8(None) => "Utf8(NULL)"@,
    }
}

/// The rendering of a scalar expression: a column prints its qualified name,
/// an aggregate call prints `func(argument)`.
pub open spec fn spec_display_expr(e: SpecExpr) -> Seq<char>
    decreases e,
{
    match e {
        SpecExpr::Column(name) => name,
        SpecExpr::Literal(v) => spec_display_scalar(v),
        SpecExpr::AggregateCall { func, arg } => func + "("@ + spec_display_expr(*arg) + ")"@,
    }
}

impl ScalarValue {
    /// Renders the constant.
    pub fn display(&self) -> (r: String)
        ensures
            r@ == spec_display_scalar(self.deep_view()),
    {
        match self {
            ScalarValue::Boolean(Some(b)) => {
                if *b {
                    String::from_str("true")
                } else {
                    String::from_str("false")
                }
            },
            ScalarValue::Boolean(None) => String::from_str("Boolean(NULL)"),
            ScalarValue::Int64(Some(i)) => i64_string(*i),
            ScalarValue::Int64(None) => String::from_str("Int64(NULL)"),
            ScalarValue::UInt64(Some(u)) => {
                let mut s = String::from_str("UInt64(");
                s.append(u64_string(*u).as_str());
                s.append(")");
                proof {
                    assert(s@ =~= spec_display_scalar(self.deep_view()));
                }
                s
            },
            ScalarValue::UInt64(None) => String::from_str("UInt64(NULL)"),
            ScalarValue::Utf8(Some(text)) => {
                let mut s = String::from_str("Utf8(");
                s.append(text.as_str());
                s.append(")");
                proof {
                    assert(s@ =~= spec_display_scalar(self.deep_view()));
                }
                s
            },
            ScalarValue::Utf8(None) => String::from_str("Utf8(NULL)"),
        }
    }
}

/// The rendering of a list of expressions, comma-separated.
pub open spec fn spec_exprs_joined(es: Seq<SpecExpr>) -> Seq<char>
    decreases es.len(),
{
    if es.len() == 0 {
        Seq::empty()
    } else if es.len() == 1 {
        spec_display_expr(es[0])
    } else {
        spec_exprs_joined(es.subrange(0, es.len() - 1)) + ", "@ + spec_display_expr(es.last())
    }
}

/// The rendering of a sort key: the expression, its direction, and its null
/// ordering.
pub open spec fn spec_display_sort_expr(s: SpecSortExpr) -> Seq<char> {
    spec_display_expr(s.expr) + (if s.asc {
        " ASC"@
    } else {
        " DESC"@
    }) + (if s.nulls_first {
        " NULLS FIRST"@
    } else {
        " NULLS LAST"@
    })
}

/// The rendering of a list of sort keys, comma-separated.
pub open spec fn spec_sort_exprs_joined(es: Seq<SpecSortExpr>) -> Seq<char>
    decreases es.len(),
{
    if es.len() == 0 {
        Seq::empty()
    } else if es.len() == 1 {
        spec_display_sort_expr(es[0])
    } else {
        spec_sort_exprs_joined(es.subrange(0, es.len() - 1)) + ", "@ + spec_display_sort_expr(
            es.last(),
        )
    }
}

/// Renders a list of expressions, comma-separated.
pub fn join_exprs(es: &Vec<Expr>) -> (r: String)
    ensures
        r@ == spec_exprs_joined(es.deep_view()),
{
    let mut s = String::new();
    let mut i: usize = 0;
    while i < es.len()
        invariant
            i <= es.len(),
            s@ == spec_exprs_joined(es.deep_view().subrange(0, i as int)),
        decreases es.len() - i,
    {
        if i > 0 {
            s.append(", ");
        }
        s.append(es[i].display().as_str());
        proof {
            reveal_strlit(", ");
            let prefix = es.deep_view().subrange(0, i + 1 as int);
            assert(prefix.subrange(0, prefix.len() - 1) =~= es.deep_view().subrange(0, i as int));
            assert(prefix.last() == es.deep_view()[i as int]);
        }
        i = i + 1;
    }
    proof {
        assert(es.deep_view().subrange(0, es.deep_view().len() as int) =~= es.deep_view());
    }
    s
}

impl SortExpr {
    /// Renders the sort key.
    pub fn display(&self) -> (r: String)
        ensures
            r@ == spec_display_sort_expr(self.deep_view()),
    {
        let mut s = self.expr.display();
        if self.asc {
            s.append(" ASC");
        } else {
            s.append(" DESC");
        }
        if self.nulls_first {
            s.append(" NULLS FIRST");
        } else {
            s.append(" NULLS LAST");
        }
        s
    }
}

/// Renders a list of sort keys, comma-separated.
pub fn join_sort_exprs(es: &Vec<SortExpr>) -> (r: String)
    ensures
        r@ == spec_sort_exprs_joined(es.deep_view()),
{
    let mut s = String::new();
    let mut i: usize = 0;
    while i < es.len()
        invariant
            i <= es.len(),
            s@ == spec_sort_exprs_joined(es.deep_view().subrange(0, i as int)),
        decreases es.len() - i,
    {
        if i > 0 {
            s.append(", ");
        }
        s.append(es[i].display().as_str());
        proof {
            reveal_strlit(", ");
            let prefix = es.deep_view().subrange(0, i + 1 as int);
            assert(prefix.subrange(0, prefix.len() - 1) =~= es.deep_view().subrange(0, i as int));
            assert(prefix.last() == es.deep_view()[i as int]);
        }
        i = i + 1;
    }
    proof {
        assert(es.deep_view().subrange(0, es.deep_view().len() as int) =~= es.deep_view());
    }
    s
}

/// Cloning a vector of expressions keeps its value.
pub fn clone_exprs(es: &Vec<Expr>) -> (r: Vec<Expr>)
    ensures
        r.deep_view() == es.deep_view(),
{
    let r = es.clone();
    proof {
        assert(r.deep_view() =~= es.deep_view());
    }
    r
}

impl Expr {
    /// Renders the expression.
    pub fn display(&self) -> (r: String)
        ensures
            r@ == spec_display_expr(self.deep_view()),
        decreases self,
    {
        match self {
            Expr::Column(name) => name.clone(),
            Expr::Literal(v) => v.display(),
            Expr::AggregateCall { func, arg } => {
                let mut s = func.clone();
                s.append("(");
                s.append((&**arg).display().as_str());
                s.append(")");
                proof {
                    assert(s@ =~= spec_display_expr(self.deep_view()));
                }
                s
            },
        }
    }
}

/// A reference to the qualified column of that name.
pub fn col(name: &str) -> (r: Expr)
    ensures
        r.deep_view() == SpecExpr::Column(name@),
{
    Expr::Column(String::from_str(name))
}

/// A boolean literal.
pub fn lit(b: bool) -> (r: Expr)
    ensures
        r.deep_view() == SpecExpr::Literal(SpecScalar::Boolean(Some(b))),
{
    Expr::Literal(ScalarValue::Boolean(Some(b)))
}

/// A sum aggregate over one argument.
pub fn sum(arg: Expr) -> (r: Expr)
    ensures
        r.deep_view() == (SpecExpr::AggregateCall {
            func: "sum"@,
            arg: Box::new(arg.deep_view()),
        }),
{
    Expr::AggregateCall { func: String::from_str("sum"), arg: Box::new(arg) }
}

} // verus!
