//! The cross-boundary plan-property record: a fixed-layout projection of a
//! descriptor into plain enums, length-prefixed byte payloads and a schema,
//! with an explicit teardown operation that must be invoked exactly once.

use vstd::prelude::*;
use vstd::std_specs::convert::FromSpec;
use crate::error::BoundaryError;
use crate::properties::{
    lemma_encode_orderings_injective, lemma_encode_partitioning_injective, spec_encode_orderings,
    spec_encode_partitioning, spec_orderings_in_schema, spec_orderings_wf,
    spec_partitioning_in_schema, spec_partitioning_wf, spec_render_plan_properties, Boundedness,
    EmissionType, EquivalenceProperties, Partitioning, PhysicalSortExpr, PlanProperties,
    SpecPartitioning, SpecPlanProperties, decode_orderings, encode_orderings,
};
use crate::schema::{Schema, SpecSchema};

verus! {

/// The boundary-stable form of [`Boundedness`].
#[allow(non_camel_case_types)]
#[derive(Clone, Copy, Debug, PartialEq, Eq, Structural)]
pub enum FFI_Boundedness {
    Bounded,
    Unbounded { requires_infinite_memory: bool },
}

/// The boundary-stable form of [`EmissionType`].
#[allow(non_camel_case_types)]
#[derive(Clone, Copy, Debug, PartialEq, Eq, Structural)]
pub enum FFI_EmissionType {
    Incremental,
    Final,
    Both,
}

impl From<Boundedness> for FFI_Boundedness {
    /// The boundary form of a boundedness.
    fn from(value: Boundedness) -> (r: Self) {
        match value {
            Boundedness::Bounded => FFI_Boundedness::Bounded,
            Boundedness::Unbounded { requires_infinite_memory } => FFI_Boundedness::Unbounded {
                requires_infinite_memory,
            },
        }
    }
}

impl vstd::std_specs::convert::FromSpecImpl<Boundedness> for FFI_Boundedness {
    open spec fn obeys_from_spec() -> bool {
        true
    }

    open spec fn from_spec(v: Boundedness) -> Self {
        match v {
            Boundedness::Bounded => FFI_Boundedness::Bounded,
            Boundedness::Unbounded { requires_infinite_memory } => FFI_Boundedness::Unbounded {
                requires_infinite_memory,
            },
        }
    }
}

impl From<FFI_Boundedness> for Boundedness {
    /// The descriptor form of a boundary boundedness.
    fn from(value: FFI_Boundedness) -> (r: Self) {
        match value {
            FFI_Boundedness::Bounded => Boundedness::Bounded,
            FFI_Boundedness::Unbounded { requires_infinite_memory } => Boundedness::Unbounded {
                requires_infinite_memory,
            },
        }
    }
}

impl vstd::std_specs::convert::FromSpecImpl<FFI_Boundedness> for Boundedness {
    open spec fn obeys_from_spec() -> bool {
        true
    }

    open spec fn from_spec(v: FFI_Boundedness) -> Self {
        match v {
            FFI_Boundedness::Bounded => Boundedness::Bounded,
            FFI_Boundedness::Unbounded { requires_infinite_memory } => Boundedness::Unbounded {
                requires_infinite_memory,
            },
        }
    }
}

impl From<EmissionType> for FFI_EmissionType {
    /// The boundary form of an emission discipline.
    fn from(value: EmissionType) -> (r: Self) {
        match value {
            EmissionType::Incremental => FFI_EmissionType::Incremental,
            EmissionType::Final => FFI_EmissionType::Final,
            EmissionType::Both => FFI_EmissionType::Both,
        }
    }
}

impl vstd::std_specs::convert::FromSpecImpl<EmissionType> for FFI_EmissionType {
    open spec fn obeys_from_spec() -> bool {
        true
    }

    open spec fn from_spec(v: EmissionType) -> Self {
        match v {
            EmissionType::Incremental => FFI_EmissionType::Incremental,
            EmissionType::Final => FFI_EmissionType::Final,
            EmissionType::Both => FFI_EmissionType::Both,
        }
    }
}

impl From<FFI_EmissionType> for EmissionType {
    /// The descriptor form of a boundary emission discipline.
    fn from(value: FFI_EmissionType) -> (r: Self) {
        match value {
            FFI_EmissionType::Incremental => EmissionType::Incremental,
            FFI_EmissionType::Final => EmissionType::Final,
            FFI_EmissionType::Both => EmissionType::Both,
        }
    }
}

impl vstd::std_specs::convert::FromSpecImpl<FFI_EmissionType> for EmissionType {
    open spec fn obeys_from_spec() -> bool {
        true
    }

    open spec fn from_spec(v: FFI_EmissionType) -> Self {
        match v {
            FFI_EmissionType::Incremental => EmissionType::Incremental,
            FFI_EmissionType::Final => EmissionType::Final,
            FFI_EmissionType::Both => EmissionType::Both,
        }
    }
}

/// The mathematical model of a boundary record.
pub struct SpecFfiPlanProperties {
    pub partitioning_payload: Seq<u8>,
    pub emission_type: FFI_EmissionType,
    pub boundedness: FFI_Boundedness,
    pub ordering_payload: Seq<u8>,
    pub schema: SpecSchema,
    pub released: bool,
}

/// A fixed-layout record for sharing a descriptor across a compiled
/// boundary: the partitioning and ordering as length-prefixed byte payloads,
/// the emission discipline and boundedness as plain enums, the schema, and a
/// teardown flag.  The side holding the record must call [`release`] exactly
/// once; every accessor demands a record that has not been released.
///
/// [`release`]: FFI_PlanProperties::release
#[allow(non_camel_case_types)]
#[derive(Debug)]
pub struct FFI_PlanProperties {
    partitioning_payload: Vec<u8>,
    emission_type: FFI_EmissionType,
    boundedness: FFI_Boundedness,
    ordering_payload: Vec<u8>,
    schema: Schema,
    released: bool,
}

impl DeepView for FFI_PlanProperties {
    type V = SpecFfiPlanProperties;

    closed spec fn deep_view(&self) -> SpecFfiPlanProperties {
        SpecFfiPlanProperties {
            partitioning_payload: self.partitioning_payload@,
            emission_type: self.emission_type,
            boundedness: self.boundedness,
            ordering_payload: self.ordering_payload@,
            schema: self.schema@,
            released: self.released,
        }
    }
}

impl FFI_PlanProperties {
    /// Projects a descriptor onto a boundary record, encoding the
    /// partitioning and ordering into their payloads.
    pub fn from(props: &PlanProperties) -> (r: Self)
        ensures
            r.deep_view() == (SpecFfiPlanProperties {
                partitioning_payload: spec_encode_partitioning(props.deep_view().partitioning),
                emission_type: FFI_EmissionType::from_spec(props.deep_view().emission_type),
                boundedness: FFI_Boundedness::from_spec(props.deep_view().boundedness),
                ordering_payload: spec_encode_orderings(props.deep_view().orderings),
                schema: props.deep_view().schema,
                released: false,
            }),
    {
        FFI_PlanProperties {
            partitioning_payload: props.output_partitioning().encode(),
            emission_type: FFI_EmissionType::from(props.emission_type),
            boundedness: FFI_Boundedness::from(props.boundedness),
            ordering_payload: encode_orderings(&props.eq_properties.orderings),
            schema: props.eq_properties.schema.clone(),
            released: false,
        }
    }

    /// The serialized output partitioning.
    pub fn output_partitioning(&self) -> (r: Vec<u8>)
        requires
            !self.deep_view().released,
        ensures
            r@ == self.deep_view().partitioning_payload,
    {
        let r = self.partitioning_payload.clone();
        proof {
            assert(r@ =~= self.partitioning_payload@);
        }
        r
    }

    /// The emission discipline.
    pub fn emission_type(&self) -> (r: FFI_EmissionType)
        requires
            !self.deep_view().released,
        ensures
            r == self.deep_view().emission_type,
    {
        self.emission_type
    }

    /// The boundedness.
    pub fn boundedness(&self) -> (r: FFI_Boundedness)
        requires
            !self.deep_view().released,
        ensures
            r == self.deep_view().boundedness,
    {
        self.boundedness
    }

    /// The serialized output ordering; empty means no known ordering.
    pub fn output_ordering(&self) -> (r: Vec<u8>)
        requires
            !self.deep_view().released,
        ensures
            r@ == self.deep_view().ordering_payload,
    {
        let r = self.ordering_payload.clone();
        proof {
            assert(r@ =~= self.ordering_payload@);
        }
        r
    }

    /// The output schema.
    pub fn schema(&self) -> (r: Schema)
        requires
            !self.deep_view().released,
        ensures
            r@ == self.deep_view().schema,
    {
        self.schema.clone()
    }

    /// The explicit teardown operation: it must be invoked exactly once, and
    /// no accessor may be used afterwards.
    pub fn release(&mut self)
        requires
            !old(self).deep_view().released,
        ensures
            final(self).deep_view().released,
    {
        self.partitioning_payload = Vec::new();
        self.ordering_payload = Vec::new();
        self.released = true;
    }
}

impl PlanProperties {
    /// Rebuilds a descriptor from a boundary record, decoding both payloads.
    /// It succeeds exactly when both payloads are valid encodings whose sort
    /// keys and hash columns all reference columns of the record's schema;
    /// the decoded descriptor's payloads re-encode to the record's, and a
    /// column outside the schema is reported as a schema mismatch naming it.
    #[verifier::loop_isolation(false)]
    pub fn try_from(ffi_props: FFI_PlanProperties) -> (r: Result<PlanProperties, BoundaryError>)
        requires
            !ffi_props.deep_view().released,
        ensures
            r matches Ok(p) ==> {
                &&& spec_encode_partitioning(p.deep_view().partitioning)
                    == ffi_props.deep_view().partitioning_payload
                &&& spec_partitioning_wf(p.deep_view().partitioning)
                &&& spec_encode_orderings(p.deep_view().orderings)
                    == ffi_props.deep_view().ordering_payload
                &&& p.deep_view().schema == ffi_props.deep_view().schema
                &&& spec_orderings_in_schema(p.deep_view().orderings, p.deep_view().schema)
                &&& spec_partitioning_in_schema(p.deep_view().partitioning, p.deep_view().schema)
                &&& p.deep_view().emission_type == EmissionType::from_spec(
                    ffi_props.deep_view().emission_type,
                )
                &&& p.deep_view().boundedness == Boundedness::from_spec(
                    ffi_props.deep_view().boundedness,
                )
            },
            (exists|q: SpecPartitioning|
                spec_partitioning_wf(q) && spec_partitioning_in_schema(
                    q,
                    ffi_props.deep_view().schema,
                ) && ffi_props.deep_view().partitioning_payload == spec_encode_partitioning(q)) && (
            exists|os: Seq<PhysicalSortExpr>|
                spec_orderings_wf(os) && spec_orderings_in_schema(
                    os,
                    ffi_props.deep_view().schema,
                ) && ffi_props.deep_view().ordering_payload == spec_encode_orderings(os)) ==> r
                is Ok,
    {
        let schema = ffi_props.schema();
        let n_fields = schema.fields.len();
        let ordering_payload = ffi_props.output_ordering();
        let orderings = decode_orderings(&ordering_payload)?;
        let mut i: usize = 0;
        while i < orderings.len()
            invariant
                i <= orderings@.len(),
                forall|j: int| 0 <= j < i ==> (#[trigger] orderings@[j]).column < n_fields,
            decreases orderings@.len() - i,
        {
            if orderings[i].column >= n_fields as u64 {
                proof {
                    lemma_orderings_schema_mismatch(
                        orderings@,
                        ordering_payload@,
                        schema@,
                        i as int,
                    );
                }
                return Err(BoundaryError::SchemaMismatch { column: orderings[i].column });
            }
            i = i + 1;
        }
        let partitioning_payload = ffi_props.output_partitioning();
        let partitioning = Partitioning::decode(&partitioning_payload)?;
        match &partitioning {
            Partitioning::Hash(cols, _) => {
                let mut j: usize = 0;
                while j < cols.len()
                    invariant
                        j <= cols@.len(),
                        forall|t: int| 0 <= t < j ==> #[trigger] cols@[t] < n_fields,
                    decreases cols@.len() - j,
                {
                    if cols[j] >= n_fields as u64 {
                        proof {
                            lemma_partitioning_schema_mismatch(
                                partitioning.deep_view(),
                                partitioning_payload@,
                                schema@,
                                j as int,
                            );
                        }
                        return Err(BoundaryError::SchemaMismatch { column: cols[j] });
                    }
                    j = j + 1;
                }
            },
            _ => {
            },
        }
        let emission_type = EmissionType::from(ffi_props.emission_type());
        let boundedness = Boundedness::from(ffi_props.boundedness());
        let mut ffi_props = ffi_props;
        ffi_props.release();
        let eq_properties = if orderings.len() == 0 {
            EquivalenceProperties::new(schema)
        } else {
            EquivalenceProperties::new_with_orderings(schema, orderings)
        };
        Ok(PlanProperties::new(eq_properties, partitioning, emission_type, boundedness))
    }
}

/// A decoded ordering with a sort key outside the schema refutes every
/// in-schema ordering with the same payload.
proof fn lemma_orderings_schema_mismatch(
    decoded: Seq<PhysicalSortExpr>,
    payload: Seq<u8>,
    schema: SpecSchema,
    i: int,
)
    requires
        spec_orderings_wf(decoded),
        payload == spec_encode_orderings(decoded),
        0 <= i < decoded.len(),
        decoded[i].column >= schema.fields.len(),
    ensures
        forall|os: Seq<PhysicalSortExpr>|
            spec_orderings_wf(os) && spec_orderings_in_schema(os, schema) ==> payload
                != spec_encode_orderings(os),
{
    assert forall|os: Seq<PhysicalSortExpr>|
        spec_orderings_wf(os) && spec_orderings_in_schema(os, schema) implies payload
        != spec_encode_orderings(os) by {
        if payload == spec_encode_orderings(os) {
            lemma_encode_orderings_injective(decoded, os);
        }
    }
}

/// A decoded partitioning hashing over a column outside the schema refutes
/// every in-schema partitioning with the same payload.
proof fn lemma_partitioning_schema_mismatch(
    decoded: SpecPartitioning,
    payload: Seq<u8>,
    schema: SpecSchema,
    j: int,
)
    requires
        spec_partitioning_wf(decoded),
        payload == spec_encode_partitioning(decoded),
        decoded matches SpecPartitioning::Hash(cols, _) && 0 <= j < cols.len() && cols[j]
            >= schema.fields.len(),
    ensures
        forall|q: SpecPartitioning|
            spec_partitioning_wf(q) && spec_partitioning_in_schema(q, schema) ==> payload
                != spec_encode_partitioning(q),
{
    assert forall|q: SpecPartitioning|
        spec_partitioning_wf(q) && spec_partitioning_in_schema(q, schema) implies payload
        != spec_encode_partitioning(q) by {
        if payload == spec_encode_partitioning(q) {
            lemma_encode_partitioning_injective(decoded, q);
        }
    }
}

/// The cross-boundary round trip: two descriptors whose partitioning and
/// ordering payloads agree, and whose remaining fields agree, are the same
/// descriptor and render identically.  Together with the contracts of
/// [`FFI_PlanProperties::from`] and [`PlanProperties::try_from`], decoding an
/// encoded descriptor yields one whose debug rendering equals the original's.
pub proof fn lemma_plan_properties_round_trip(p: SpecPlanProperties, q: SpecPlanProperties)
    requires
        spec_partitioning_wf(p.partitioning),
        spec_partitioning_wf(q.partitioning),
        spec_orderings_wf(p.orderings),
        spec_orderings_wf(q.orderings),
        spec_encode_partitioning(p.partitioning) == spec_encode_partitioning(q.partitioning),
        spec_encode_orderings(p.orderings) == spec_encode_orderings(q.orderings),
        p.schema == q.schema,
        p.emission_type == q.emission_type,
        p.boundedness == q.boundedness,
    ensures
        p == q,
        spec_render_plan_properties(p) == spec_render_plan_properties(q),
{
    lemma_encode_partitioning_injective(p.partitioning, q.partitioning);
    lemma_encode_orderings_injective(p.orderings, q.orderings);
}

} // verus!
