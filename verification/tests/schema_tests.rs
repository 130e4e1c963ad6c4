use parquet_schema::descriptor::{BaseType, SchemaDescriptor};
use parquet_schema::error::ParquetError;
use parquet_schema::thrift::SchemaElement;
use parquet_schema::types::{
    ConvertedType, FieldInfo, LogicalType, ParquetType, PhysicalType, Repetition, TimeUnit,
};

fn primitive(name: &str, repetition: Repetition, physical_type: PhysicalType) -> ParquetType {
    ParquetType::PrimitiveType(parquet_schema::types::PrimitiveType {
        field_info: FieldInfo {
            name: name.to_owned(),
            repetition,
            id: None,
        },
        logical_type: None,
        converted_type: None,
        physical_type,
    })
}

fn group(name: &str, repetition: Repetition, fields: Vec<ParquetType>) -> ParquetType {
    ParquetType::GroupType {
        field_info: FieldInfo {
            name: name.to_owned(),
            repetition,
            id: None,
        },
        logical_type: None,
        converted_type: None,
        fields,
    }
}

fn path_of(strings: &[&str]) -> Vec<String> {
    strings.iter().map(|s| (*s).to_owned()).collect()
}

#[test]
fn optional_group_with_required_int32_leaf() {
    // One Optional group holding one Required Int32 primitive: one leaf,
    // path a.b, definition level 1, repetition level 0.
    let fields = vec![group(
        "a",
        Repetition::Optional,
        vec![primitive("b", Repetition::Required, PhysicalType::Int32)],
    )];
    let d = SchemaDescriptor::new("m".to_owned(), fields);
    assert_eq!(d.columns().len(), 1);
    let leaf = &d.columns()[0];
    assert_eq!(leaf.path_in_schema, path_of(&["a", "b"]));
    assert_eq!(leaf.descriptor.max_def_level, 1);
    assert_eq!(leaf.descriptor.max_rep_level, 0);
    assert_eq!(leaf.descriptor.primitive_type.physical_type, PhysicalType::Int32);
    assert_eq!(leaf.descriptor.primitive_type.field_info.repetition, Repetition::Required);
}

#[test]
fn repeated_optional_required_int64_leaf() {
    // Group a (Repeated) > group b (Optional) > primitive c (Required,
    // Int64): one leaf, path a.b.c, repetition level 1, definition level 2.
    let fields = vec![group(
        "a",
        Repetition::Repeated,
        vec![group(
            "b",
            Repetition::Optional,
            vec![primitive("c", Repetition::Required, PhysicalType::Int64)],
        )],
    )];
    let d = SchemaDescriptor::new("m".to_owned(), fields);
    assert_eq!(d.leaves().len(), 1);
    let leaf = &d.leaves()[0];
    assert_eq!(leaf.path_in_schema, path_of(&["a", "b", "c"]));
    assert_eq!(leaf.descriptor.max_rep_level, 1);
    assert_eq!(leaf.descriptor.max_def_level, 2);
    assert_eq!(leaf.descriptor.primitive_type.physical_type, PhysicalType::Int64);
}

#[test]
fn empty_schema_has_no_leaves() {
    let d = SchemaDescriptor::new("empty".to_owned(), vec![]);
    assert_eq!(d.name(), "empty");
    assert!(d.fields().is_empty());
    assert!(d.columns().is_empty());
    assert!(d.leaves().is_empty());
}

#[test]
fn top_level_primitive_levels_follow_its_own_repetition() {
    let d = SchemaDescriptor::new(
        "m".to_owned(),
        vec![
            primitive("req", Repetition::Required, PhysicalType::Boolean),
            primitive("opt", Repetition::Optional, PhysicalType::Double),
            primitive("rep", Repetition::Repeated, PhysicalType::ByteArray),
        ],
    );
    assert_eq!(d.columns().len(), 3);
    assert_eq!(d.columns()[0].descriptor.max_def_level, 0);
    assert_eq!(d.columns()[0].descriptor.max_rep_level, 0);
    assert_eq!(d.columns()[0].path_in_schema, path_of(&["req"]));
    assert_eq!(d.columns()[1].descriptor.max_def_level, 1);
    assert_eq!(d.columns()[1].descriptor.max_rep_level, 0);
    assert_eq!(d.columns()[2].descriptor.max_def_level, 1);
    assert_eq!(d.columns()[2].descriptor.max_rep_level, 1);
}

#[test]
fn leaves_come_in_depth_first_pre_order() {
    let fields = vec![
        group(
            "s",
            Repetition::Optional,
            vec![
                primitive("x", Repetition::Required, PhysicalType::Int32),
                primitive("y", Repetition::Optional, PhysicalType::Int64),
            ],
        ),
        primitive("z", Repetition::Required, PhysicalType::Boolean),
    ];
    let d = SchemaDescriptor::new("m".to_owned(), fields);
    assert_eq!(d.columns().len(), 3);
    assert_eq!(d.columns()[0].path_in_schema, path_of(&["s", "x"]));
    assert_eq!(d.columns()[1].path_in_schema, path_of(&["s", "y"]));
    assert_eq!(d.columns()[2].path_in_schema, path_of(&["z"]));
    assert_eq!(d.columns()[1].descriptor.max_def_level, 2);
    assert_eq!(d.columns()[1].descriptor.max_rep_level, 0);
}

#[test]
fn sibling_leaves_share_their_group_context() {
    let fields = vec![group(
        "s",
        Repetition::Required,
        vec![
            primitive("x", Repetition::Required, PhysicalType::Int32),
            primitive("y", Repetition::Required, PhysicalType::Int32),
        ],
    )];
    let d = SchemaDescriptor::new("m".to_owned(), fields);
    // Leaves below a group hold a shared handle to the top-level field; a
    // top-level primitive keeps an owned copy.
    assert!(matches!(d.columns()[0].base_type, BaseType::Shared(_)));
    assert!(matches!(d.columns()[1].base_type, BaseType::Shared(_)));
    assert_eq!(d.columns()[0].base_type, d.columns()[1].base_type);
    let d2 = SchemaDescriptor::new(
        "m".to_owned(),
        vec![primitive("z", Repetition::Required, PhysicalType::Int32)],
    );
    assert!(matches!(d2.columns()[0].base_type, BaseType::Owned(_)));
}

#[test]
fn fields_are_preserved_unchanged() {
    let fields = vec![group(
        "a",
        Repetition::Optional,
        vec![primitive("b", Repetition::Required, PhysicalType::Int32)],
    )];
    let expected = fields.clone();
    let d = SchemaDescriptor::new("m".to_owned(), fields);
    assert_eq!(d.name(), "m");
    assert_eq!(d.fields(), expected.as_slice());
}

#[test]
fn into_thrift_wraps_fields_in_an_optional_group() {
    let fields = vec![group(
        "a",
        Repetition::Optional,
        vec![primitive("b", Repetition::Required, PhysicalType::Int32)],
    )];
    let d = SchemaDescriptor::new("m".to_owned(), fields);
    let elements = d.into_thrift();
    assert_eq!(
        elements,
        vec![
            SchemaElement {
                type_: None,
                repetition_type: Some(Repetition::Optional),
                name: "m".to_owned(),
                num_children: Some(1),
                converted_type: None,
                field_id: None,
                logical_type: None,
            },
            SchemaElement {
                type_: None,
                repetition_type: Some(Repetition::Optional),
                name: "a".to_owned(),
                num_children: Some(1),
                converted_type: None,
                field_id: None,
                logical_type: None,
            },
            SchemaElement {
                type_: Some(PhysicalType::Int32),
                repetition_type: Some(Repetition::Required),
                name: "b".to_owned(),
                num_children: None,
                converted_type: None,
                field_id: None,
                logical_type: None,
            },
        ]
    );
}

#[test]
fn thrift_round_trip_reproduces_the_descriptor() {
    let fields = vec![
        group(
            "a",
            Repetition::Repeated,
            vec![
                group(
                    "b",
                    Repetition::Optional,
                    vec![primitive("c", Repetition::Required, PhysicalType::Int64)],
                ),
                primitive("d", Repetition::Optional, PhysicalType::ByteArray),
            ],
        ),
        primitive("e", Repetition::Required, PhysicalType::Int96),
    ];
    let original = SchemaDescriptor::new("m".to_owned(), fields);
    let expected_fields: Vec<ParquetType> = original.fields().to_vec();
    let expected_leaves = original.leaves().to_vec();
    let elements = original.into_thrift();
    let reparsed = SchemaDescriptor::try_from_thrift(&elements).unwrap();
    assert_eq!(reparsed.name(), "m");
    assert_eq!(reparsed.fields(), expected_fields.as_slice());
    assert_eq!(reparsed.leaves(), expected_leaves.as_slice());
}

#[test]
fn annotations_and_ids_survive_the_round_trip() {
    let fields = vec![ParquetType::GroupType {
        field_info: FieldInfo {
            name: "list".to_owned(),
            repetition: Repetition::Optional,
            id: Some(7),
        },
        logical_type: Some(LogicalType::List),
        converted_type: Some(ConvertedType::List),
        fields: vec![
            ParquetType::PrimitiveType(parquet_schema::types::PrimitiveType {
                field_info: FieldInfo {
                    name: "s".to_owned(),
                    repetition: Repetition::Repeated,
                    id: Some(8),
                },
                logical_type: Some(LogicalType::Utf8),
                converted_type: Some(ConvertedType::Utf8),
                physical_type: PhysicalType::ByteArray,
            }),
            ParquetType::PrimitiveType(parquet_schema::types::PrimitiveType {
                field_info: FieldInfo {
                    name: "price".to_owned(),
                    repetition: Repetition::Repeated,
                    id: Some(9),
                },
                logical_type: Some(LogicalType::Decimal { precision: 9, scale: 2 }),
                converted_type: Some(ConvertedType::Decimal { precision: 9, scale: 2 }),
                physical_type: PhysicalType::Int32,
            }),
            ParquetType::PrimitiveType(parquet_schema::types::PrimitiveType {
                field_info: FieldInfo {
                    name: "at".to_owned(),
                    repetition: Repetition::Repeated,
                    id: None,
                },
                logical_type: Some(LogicalType::Timestamp {
                    unit: TimeUnit::Micros,
                    is_adjusted_to_utc: true,
                }),
                converted_type: Some(ConvertedType::TimestampMicros),
                physical_type: PhysicalType::Int64,
            }),
        ],
    }];
    let original = SchemaDescriptor::new("m".to_owned(), fields);
    let expected_fields: Vec<ParquetType> = original.fields().to_vec();
    let elements = original.into_thrift();
    assert_eq!(elements[1].field_id, Some(7));
    assert_eq!(elements[1].converted_type, Some(ConvertedType::List));
    assert_eq!(elements[1].logical_type, Some(LogicalType::List));
    assert_eq!(elements[2].converted_type, Some(ConvertedType::Utf8));
    assert_eq!(
        elements[3].converted_type,
        Some(ConvertedType::Decimal { precision: 9, scale: 2 })
    );
    assert_eq!(
        elements[4].logical_type,
        Some(LogicalType::Timestamp { unit: TimeUnit::Micros, is_adjusted_to_utc: true })
    );
    let reparsed = SchemaDescriptor::try_from_thrift(&elements).unwrap();
    assert_eq!(reparsed.fields(), expected_fields.as_slice());
}

#[test]
fn try_from_type_rejects_a_primitive_and_accepts_a_group() {
    let err = SchemaDescriptor::try_from_type(primitive(
        "x",
        Repetition::Required,
        PhysicalType::Int32,
    ))
    .unwrap_err();
    assert_eq!(err.message(), "The parquet schema MUST be a group type");
    let d = SchemaDescriptor::try_from_type(group(
        "m",
        Repetition::Optional,
        vec![primitive("x", Repetition::Required, PhysicalType::Int32)],
    ))
    .unwrap();
    assert_eq!(d.name(), "m");
    assert_eq!(d.columns().len(), 1);
}

#[test]
fn descriptor_clone_is_deep_and_equal() {
    let d = SchemaDescriptor::new(
        "m".to_owned(),
        vec![group(
            "a",
            Repetition::Optional,
            vec![primitive("b", Repetition::Required, PhysicalType::Int32)],
        )],
    );
    let c = d.clone();
    assert_eq!(c.name(), d.name());
    assert_eq!(c.fields(), d.fields());
    assert_eq!(c.leaves(), d.leaves());
}

#[test]
fn non_group_root_is_rejected_with_the_group_required_error() {
    // A flat sequence whose single element is a primitive parses to a
    // primitive root, which the descriptor must reject.
    let elements = vec![SchemaElement {
        type_: Some(PhysicalType::Int32),
        repetition_type: Some(Repetition::Required),
        name: "x".to_owned(),
        num_children: None,
        converted_type: None,
        field_id: None,
        logical_type: None,
    }];
    let err = SchemaDescriptor::try_from_thrift(&elements).unwrap_err();
    assert_eq!(err, ParquetError::oos("The parquet schema MUST be a group type"));
    assert_eq!(err.message(), "The parquet schema MUST be a group type");
}

#[test]
fn empty_element_sequence_is_rejected() {
    let elements: Vec<SchemaElement> = vec![];
    assert!(SchemaDescriptor::try_from_thrift(&elements).is_err());
}

#[test]
fn element_without_repetition_is_rejected() {
    let elements = vec![SchemaElement {
        type_: None,
        repetition_type: None,
        name: "m".to_owned(),
        num_children: Some(0),
        converted_type: None,
        field_id: None,
        logical_type: None,
    }];
    assert!(SchemaDescriptor::try_from_thrift(&elements).is_err());
}

#[test]
fn truncated_group_is_rejected() {
    // The root claims two children but only one follows.
    let elements = vec![
        SchemaElement {
            type_: None,
            repetition_type: Some(Repetition::Optional),
            name: "m".to_owned(),
            num_children: Some(2),
            converted_type: None,
            field_id: None,
            logical_type: None,
        },
        SchemaElement {
            type_: Some(PhysicalType::Int32),
            repetition_type: Some(Repetition::Required),
            name: "x".to_owned(),
            num_children: None,
            converted_type: None,
            field_id: None,
            logical_type: None,
        },
    ];
    assert!(SchemaDescriptor::try_from_thrift(&elements).is_err());
}

#[test]
fn trailing_elements_are_rejected() {
    let d = SchemaDescriptor::new(
        "m".to_owned(),
        vec![primitive("x", Repetition::Required, PhysicalType::Int32)],
    );
    let mut elements = d.into_thrift();
    elements.push(SchemaElement {
        type_: Some(PhysicalType::Int32),
        repetition_type: Some(Repetition::Required),
        name: "extra".to_owned(),
        num_children: None,
        converted_type: None,
        field_id: None,
        logical_type: None,
    });
    assert!(SchemaDescriptor::try_from_thrift(&elements).is_err());
}

#[test]
fn empty_schema_round_trips() {
    let d = SchemaDescriptor::new("only_a_name".to_owned(), vec![]);
    let elements = d.into_thrift();
    assert_eq!(elements.len(), 1);
    assert_eq!(elements[0].num_children, Some(0));
    let reparsed = SchemaDescriptor::try_from_thrift(&elements).unwrap();
    assert_eq!(reparsed.name(), "only_a_name");
    assert!(reparsed.fields().is_empty());
    assert!(reparsed.leaves().is_empty());
}

#[test]
fn empty_group_inside_a_schema_round_trips() {
    let fields = vec![group("g", Repetition::Optional, vec![])];
    let d = SchemaDescriptor::new("m".to_owned(), fields);
    assert!(d.columns().is_empty());
    let expected_fields: Vec<ParquetType> = d.fields().to_vec();
    let elements = d.into_thrift();
    let reparsed = SchemaDescriptor::try_from_thrift(&elements).unwrap();
    assert_eq!(reparsed.fields(), expected_fields.as_slice());
    assert!(reparsed.leaves().is_empty());
}

#[test]
fn tree_clone_is_deep_and_equal() {
    let t = group(
        "a",
        Repetition::Repeated,
        vec![primitive("b", Repetition::Optional, PhysicalType::FixedLenByteArray(16))],
    );
    let c = t.clone();
    assert_eq!(c, t);
    assert_eq!(c.name(), "a");
    assert_eq!(c.get_field_info().repetition, Repetition::Repeated);
}

#[test]
fn base_type_promotion_shares_the_context() {
    let t = primitive("x", Repetition::Required, PhysicalType::Int32);
    let owned = BaseType::Owned(t);
    let shared = owned.into_arc();
    assert!(matches!(shared, BaseType::Shared(_)));
    let again = shared.clone().into_arc();
    assert_eq!(again, shared);
}

#[test]
fn build_tree_appends_leaves_and_leaves_the_name_on_the_path() {
    let tree = group(
        "g",
        Repetition::Repeated,
        vec![primitive("v", Repetition::Optional, PhysicalType::Int32)],
    );
    let base = BaseType::Owned(tree.clone());
    let mut leaves = Vec::new();
    let mut path: Vec<String> = Vec::new();
    parquet_schema::descriptor::build_tree(&tree, base, 0, 0, &mut leaves, &mut path);
    assert_eq!(path, path_of(&["g"]));
    assert_eq!(leaves.len(), 1);
    assert_eq!(leaves[0].path_in_schema, path_of(&["g", "v"]));
    assert_eq!(leaves[0].descriptor.max_rep_level, 1);
    assert_eq!(leaves[0].descriptor.max_def_level, 2);
}

#[test]
fn build_tree_carries_inherited_levels_into_its_leaves() {
    let tree = primitive("v", Repetition::Optional, PhysicalType::Int64);
    let base = BaseType::Owned(tree.clone());
    let mut leaves = Vec::new();
    let mut path: Vec<String> = path_of(&["outer"]);
    parquet_schema::descriptor::build_tree(&tree, base, 1, 2, &mut leaves, &mut path);
    assert_eq!(path, path_of(&["outer", "v"]));
    assert_eq!(leaves.len(), 1);
    assert_eq!(leaves[0].path_in_schema, path_of(&["outer", "v"]));
    assert_eq!(leaves[0].descriptor.max_rep_level, 1);
    assert_eq!(leaves[0].descriptor.max_def_level, 3);
}
