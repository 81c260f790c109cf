use plan_core::boundary::{FFI_Boundedness, FFI_EmissionType, FFI_PlanProperties};
use plan_core::properties::{
    decode_orderings, encode_orderings, Boundedness, EmissionType, EquivalenceProperties,
    Partitioning, PhysicalSortExpr, PlanProperties,
};
use plan_core::schema::{DataType, Field, Schema};

#[test]
fn test_round_trip_ffi_plan_properties() {
    let schema = Schema::new(vec![Field { name: "a".to_string(), data_type: DataType::Float32 }]);

    let original_props = PlanProperties::new(
        EquivalenceProperties::new_with_orderings(
            schema,
            vec![PhysicalSortExpr { column: 0, descending: false, nulls_first: false }],
        ),
        Partitioning::RoundRobinBatch(3),
        EmissionType::Incremental,
        Boundedness::Bounded,
    );

    let local_props_ptr = FFI_PlanProperties::from(&original_props);

    let foreign_props = PlanProperties::try_from(local_props_ptr).unwrap();

    assert_eq!(foreign_props.render(), original_props.render());
}

#[test]
fn round_trip_hash_partitioning_unordered() {
    let schema = Schema::new(vec![
        Field { name: "k".to_string(), data_type: DataType::Utf8 },
        Field { name: "v".to_string(), data_type: DataType::Int64 },
    ]);
    let original = PlanProperties::new(
        EquivalenceProperties::new(schema),
        Partitioning::Hash(vec![0, 1], 4),
        EmissionType::Both,
        Boundedness::Unbounded { requires_infinite_memory: true },
    );
    let record = FFI_PlanProperties::from(&original);
    let decoded = PlanProperties::try_from(record).unwrap();
    assert_eq!(decoded.render(), original.render());
}

#[test]
fn partitioning_payload_exact_bytes() {
    let p = Partitioning::RoundRobinBatch(3);
    let bytes = p.encode();
    assert_eq!(bytes, vec![1u8, 3, 0, 0, 0, 0, 0, 0, 0]);
    let q = Partitioning::decode(&bytes).unwrap();
    assert_eq!(q.render(), "RoundRobinBatch(3)");
}

#[test]
fn partitioning_decode_rejects_bad_tag() {
    let bytes = vec![9u8, 3, 0, 0, 0, 0, 0, 0, 0];
    let e = Partitioning::decode(&bytes).unwrap_err();
    assert!(e.message().contains("partitioning payload tag"));
}

#[test]
fn partitioning_decode_rejects_short_payload() {
    let bytes = vec![1u8, 3];
    assert!(Partitioning::decode(&bytes).is_err());
}

#[test]
fn ordering_payload_empty_means_no_ordering() {
    let empty: Vec<PhysicalSortExpr> = Vec::new();
    let bytes = encode_orderings(&empty);
    assert_eq!(bytes.len(), 0);
    let decoded = decode_orderings(&bytes).unwrap();
    assert_eq!(decoded.len(), 0);

    let props = PlanProperties::new(
        EquivalenceProperties::new(Schema::empty()),
        Partitioning::UnknownPartitioning(1),
        EmissionType::Final,
        Boundedness::Bounded,
    );
    assert!(props.output_ordering().is_none());
}

#[test]
fn ordering_decode_rejects_bad_flag_byte() {
    let mut bytes = encode_orderings(&vec![PhysicalSortExpr {
        column: 2,
        descending: true,
        nulls_first: false,
    }]);
    let last = bytes.len() - 1;
    bytes[last] = 7;
    assert!(decode_orderings(&bytes).is_err());
}

#[test]
fn boundary_enums_convert_both_ways() {
    let b = Boundedness::Unbounded { requires_infinite_memory: false };
    let fb = FFI_Boundedness::from(b);
    assert_eq!(fb, FFI_Boundedness::Unbounded { requires_infinite_memory: false });
    assert_eq!(Boundedness::from(fb), b);

    let e = EmissionType::Final;
    let fe = FFI_EmissionType::from(e);
    assert_eq!(fe, FFI_EmissionType::Final);
    assert_eq!(EmissionType::from(fe), e);
}

#[test]
fn render_names_every_component() {
    let props = PlanProperties::new(
        EquivalenceProperties::new(Schema::new(vec![Field {
            name: "a".to_string(),
            data_type: DataType::Int64,
        }])),
        Partitioning::UnknownPartitioning(1),
        EmissionType::Incremental,
        Boundedness::Bounded,
    );
    assert_eq!(
        props.render(),
        "PlanProperties { partitioning: UnknownPartitioning(1), emission_type: Incremental, \
         boundedness: Bounded, orderings: [], schema: [a: Int64] }"
    );
}

#[test]
fn ordering_column_outside_schema_fails_the_round_trip() {
    // One field in the schema, but the ordering ranks column 5: decoding
    // must fail with a schema mismatch naming the column, never succeed.
    let schema = Schema::new(vec![Field { name: "a".to_string(), data_type: DataType::Float32 }]);
    let props = PlanProperties::new(
        EquivalenceProperties::new_with_orderings(
            schema,
            vec![PhysicalSortExpr { column: 5, descending: false, nulls_first: false }],
        ),
        Partitioning::RoundRobinBatch(3),
        EmissionType::Incremental,
        Boundedness::Bounded,
    );
    let record = FFI_PlanProperties::from(&props);
    let e = PlanProperties::try_from(record).unwrap_err();
    assert_eq!(e.message(), "schema mismatch across the boundary: column 5 is outside the schema");
}

#[test]
fn hash_column_outside_schema_fails_the_round_trip() {
    let schema = Schema::new(vec![Field { name: "a".to_string(), data_type: DataType::Int64 }]);
    let props = PlanProperties::new(
        EquivalenceProperties::new(schema),
        Partitioning::Hash(vec![0, 3], 2),
        EmissionType::Both,
        Boundedness::Bounded,
    );
    let record = FFI_PlanProperties::from(&props);
    let e = PlanProperties::try_from(record).unwrap_err();
    assert_eq!(e.message(), "schema mismatch across the boundary: column 3 is outside the schema");
}
