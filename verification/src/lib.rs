//! An extensible query-planning and execution core.
//!
//! The crate models a query as a tree of logical operators, rewrites that
//! tree through ordered pipelines of analyzer and optimizer rules (the latter
//! run to a fixpoint or a configured pass limit), validates extension nodes
//! against their declared invariants, lowers the tree into physical operators
//! through a chain of extension planners, and executes the physical tree as a
//! network of pull-based streaming operators.  A bounded top-k accumulator is
//! carried through all the layers as the worked example of an extension
//! operator.

pub mod analyzer;
pub mod boundary;
pub mod builder;
pub mod codec;
pub mod eliminate_filter;
pub mod error;
pub mod exec;
pub mod expr;
pub mod format;
pub mod optimizer;
pub mod physical;
pub mod plan;
pub mod properties;
pub mod rules;
pub mod schema;
pub mod topk;
pub mod transformed;
