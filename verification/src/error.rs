//! Error taxonomy: planning errors are fatal to the current planning attempt,
//! execution errors are fatal to one partition's execution, and boundary
//! errors report decode failures of a cross-boundary payload.

use vstd::prelude::*;

verus! {

/// Checkpoint granularity at which an extension node's self-consistency is
/// verified: `Always` must hold after every structural mutation of the tree,
/// `Executable` need hold only immediately before physical lowering.
#[derive(Clone, Copy, Debug, PartialEq, Eq, Structural)]
pub enum InvariantLevel {
    Always,
    Executable,
}

/// An error raised while planning a query.  Planning errors are never retried
/// and are surfaced verbatim to the caller.
#[derive(Debug)]
pub enum PlanError {
    /// A rewrite was handed structurally malformed input; rules report this
    /// when a tree violates an assumption they cannot repair.
    Malformed(String),
    /// An extension node failed its self-consistency check at the given level.
    InvariantViolation { level: InvariantLevel, message: String },
    /// No registered extension planner recognized the named extension node.
    UnsupportedExtension { name: String },
    /// The number of lowered children, resolved expressions or declared
    /// parameters differs from what the extension node's kind requires: a
    /// programming error in the extension, fatal and never retried.
    ArityMismatch { expected: usize, actual: usize },
}

/// An error raised while executing one partition of a physical plan.
#[derive(Debug)]
pub enum ExecError {
    /// A partition index other than the sole valid one (`valid`) was
    /// requested.
    InvalidPartition { requested: usize, valid: usize },
    /// Upstream data did not match the schema the operator expected.
    DataError(String),
    /// Execution of the named operator kind is not provided by this core.
    Unsupported(String),
}

/// An error raised while decoding a cross-boundary plan-property payload.
#[derive(Debug)]
pub enum BoundaryError {
    /// The payload is not a valid encoding.
    Decode(String),
    /// A decoded sort key or hash column references a column the schema does
    /// not have.
    SchemaMismatch { column: u64 },
}

impl InvariantLevel {
    /// The level's name, used when reporting an invariant violation.
    pub fn name(&self) -> (r: String)
        ensures
            *self is Always ==> r@ == "Always"@,
            *self is Executable ==> r@ == "Executable"@,
    {
        match self {
            InvariantLevel::Always => String::from_str("Always"),
            InvariantLevel::Executable => String::from_str("Executable"),
        }
    }
}

/// The description of an invariant violation at the given level: it names the
/// failing check's level so a caller can tell an always-invalid construction
/// from a not-yet-executable transient state.
pub open spec fn spec_invariant_message(level: InvariantLevel, message: Seq<char>) -> Seq<char> {
    message + " ("@ + (if level is Always {
        "Always"@
    } else {
        "Executable"@
    }) + " invariant)"@
}

impl PlanError {
    /// A human-readable description of the error.
    pub fn message(&self) -> (r: String)
        ensures
            self matches PlanError::InvariantViolation { level, message } ==> r@
                == spec_invariant_message(*level, message@),
    {
        match self {
            PlanError::Malformed(m) => {
                let mut s = String::from_str("malformed plan: ");
                s.append(m.as_str());
                s
            },
            PlanError::InvariantViolation { level, message } => {
                let mut s = message.clone();
                s.append(" (");
                s.append(level.name().as_str());
                s.append(" invariant)");
                proof {
                    assert(s@ =~= spec_invariant_message(*level, message@));
                }
                s
            },
            PlanError::UnsupportedExtension { name } => {
                let mut s = String::from_str("unsupported extension node: ");
                s.append(name.as_str());
                s
            },
            PlanError::ArityMismatch { expected: _, actual: _ } => {
                String::from_str("extension node arity mismatch")
            },
        }
    }
}

impl ExecError {
    /// A human-readable description of the error.
    pub fn message(&self) -> (r: String) {
        match self {
            ExecError::InvalidPartition { requested: _, valid: _ } => {
                String::from_str("invalid partition")
            },
            ExecError::DataError(m) => {
                let mut s = String::from_str("upstream data error: ");
                s.append(m.as_str());
                s
            },
            ExecError::Unsupported(name) => {
                let mut s = String::from_str("execution is not provided for operator: ");
                s.append(name.as_str());
                s
            },
        }
    }
}

impl BoundaryError {
    /// A human-readable description of the error.
    pub fn message(&self) -> (r: String) {
        match self {
            BoundaryError::Decode(m) => {
                let mut s = String::from_str("payload decode failure: ");
                s.append(m.as_str());
                s
            },
            BoundaryError::SchemaMismatch { column } => {
                let mut s = String::from_str("schema mismatch across the boundary: column ");
                s.append(crate::format::u64_string(*column).as_str());
                s.append(" is outside the schema");
                s
            },
        }
    }
}

} // verus!
