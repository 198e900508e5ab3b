use mnir_core::{
    AllocationCounterState, AllocationNamespaceId, BlockId, DecodeError, ExpressionId,
    ExpressionKind, FunctionId, IntrinsicType, MnirProgram, ParameterId, PersistenceBlock,
    PersistenceBody, PersistenceDomainType, PersistenceEntityId, PersistenceExpression,
    PersistenceExpressionKind, PersistenceFunction, PersistenceModule, PersistenceParameter,
    PersistencePresentation, PersistenceProgram, PersistenceTerminator, PersistenceValueType,
    RevisionCounterState, Terminator, TypeId, ValueType, decode_expression_kind, decode_intrinsic,
    decode_persistence_value_type, decode_revision_counter, decode_string_option,
    decode_terminator, encode, encode_entity_id, encode_expression_kind, encode_terminator,
    encode_value_type, fixed_array, intrinsic_tag_of,
};

fn namespace() -> [u8; 16] {
    [
        0x10, 0x11, 0x12, 0x13, 0x14, 0x15, 0x16, 0x17, 0x18, 0x19, 0x1a, 0x1b, 0x1c, 0x1d, 0x1e,
        0x1f,
    ]
}

fn namespace_id() -> AllocationNamespaceId {
    AllocationNamespaceId(u128::from_be_bytes(namespace()))
}

fn expected_id(suffix: &[u8]) -> Vec<u8> {
    let mut expected = vec![
        0x82, 0x50, 0x10, 0x11, 0x12, 0x13, 0x14, 0x15, 0x16, 0x17, 0x18, 0x19, 0x1a, 0x1b,
        0x1c, 0x1d, 0x1e, 0x1f,
    ];
    expected.extend_from_slice(suffix);
    expected
}

fn contains(haystack: &[u8], needle: &[u8]) -> bool {
    haystack.windows(needle.len()).any(|window| window == needle)
}

// AR-SER-005, AR-SER-037; MNIR-SER-101.
#[test]
fn typed_id_fragment_matches_normative_bytes() {
    let mut out = Vec::new();
    encode_entity_id(&mut out, namespace_id(), 24).unwrap();
    assert_eq!(
        out,
        [
            0x82, 0x50, 0x10, 0x11, 0x12, 0x13, 0x14, 0x15, 0x16, 0x17, 0x18, 0x19, 0x1a, 0x1b,
            0x1c, 0x1d, 0x1e, 0x1f, 0x18, 0x18,
        ]
    );
}

// AR-SER-005: every typed category is written as the category-neutral
// persistent pair, with no category discriminant.
#[test]
fn all_six_typed_id_categories_have_fixed_bytes() {
    let candidate = PersistenceProgram::new(
        [0x20; 16],
        1,
        RevisionCounterState::Available(2),
        namespace(),
        AllocationCounterState::Available(257),
        vec![PersistenceModule::new(
            PersistenceEntityId::new(namespace(), 0),
            PersistencePresentation::new(None, None),
            vec![PersistenceDomainType::new(
                PersistenceEntityId::new(namespace(), 1),
                IntrinsicType::Int32,
                PersistencePresentation::new(None, None),
            )],
            vec![PersistenceFunction::new(
                PersistenceEntityId::new(namespace(), 23),
                PersistenceValueType::Intrinsic(IntrinsicType::Unit),
                vec![PersistenceParameter::new(
                    PersistenceEntityId::new(namespace(), 24),
                    PersistenceValueType::Intrinsic(IntrinsicType::Unit),
                    PersistencePresentation::new(None, None),
                )],
                Some(PersistenceBody::new(
                    PersistenceEntityId::new(namespace(), 255),
                    vec![PersistenceBlock::new(
                        PersistenceEntityId::new(namespace(), 255),
                        vec![PersistenceExpression::new(
                            PersistenceEntityId::new(namespace(), 256),
                            PersistenceExpressionKind::UnitLiteral,
                        )],
                        Vec::new(),
                        PersistenceTerminator::Return {
                            expression: PersistenceEntityId::new(namespace(), 256),
                        },
                    )],
                )),
                PersistencePresentation::new(None, None),
            )],
        )],
    );
    let validated = MnirProgram::validate_persistence(candidate).unwrap();
    let bytes = encode(&validated.persistence_snapshot()).unwrap();
    for suffix in [
        &[0x00][..],
        &[0x01][..],
        &[0x17][..],
        &[0x18, 0x18][..],
        &[0x18, 0xff][..],
        &[0x19, 0x01, 0x00][..],
    ] {
        assert!(contains(&bytes, &expected_id(suffix)));
    }
    let typed = [
        (0_u64, vec![0x00]),
        (1, vec![0x01]),
        (23, vec![0x17]),
        (24, vec![0x18, 0x18]),
        (255, vec![0x18, 0xff]),
        (256, vec![0x19, 0x01, 0x00]),
    ];
    for (counter, suffix) in typed {
        let mut out = Vec::new();
        encode_entity_id(&mut out, namespace_id(), counter).unwrap();
        assert_eq!(out, expected_id(&suffix));
    }
}

// Reference-bearing value types, Expression kinds and terminators have
// fixed golden fragments.
#[test]
fn reference_bearing_schema_families_have_fixed_golden_fragments() {
    let id = |counter| PersistenceEntityId::new(namespace(), counter);
    let candidate = PersistenceProgram::new(
        [0x40; 16],
        1,
        RevisionCounterState::Available(2),
        namespace(),
        AllocationCounterState::Available(22),
        vec![PersistenceModule::new(
            id(0),
            PersistencePresentation::new(None, None),
            vec![PersistenceDomainType::new(id(1), IntrinsicType::Int32, PersistencePresentation::new(None, None))],
            vec![
                PersistenceFunction::new(
                    id(2),
                    PersistenceValueType::Intrinsic(IntrinsicType::Unit),
                    Vec::new(),
                    None,
                    PersistencePresentation::new(None, None),
                ),
                PersistenceFunction::new(
                    id(3),
                    PersistenceValueType::Domain(id(1)),
                    vec![PersistenceParameter::new(
                        id(4),
                        PersistenceValueType::Intrinsic(IntrinsicType::Int32),
                        PersistencePresentation::new(None, None),
                    )],
                    Some(PersistenceBody::new(
                        id(5),
                        vec![
                            PersistenceBlock::new(
                                id(5),
                                vec![
                                    PersistenceExpression::new(id(6), PersistenceExpressionKind::Int32Literal(1)),
                                    PersistenceExpression::new(id(7), PersistenceExpressionKind::ParameterReference(id(4))),
                                    PersistenceExpression::new(id(8), PersistenceExpressionKind::Add { left: id(6), right: id(7) }),
                                    PersistenceExpression::new(
                                        id(9),
                                        PersistenceExpressionKind::Call { target: id(2), arguments: vec![id(8)] },
                                    ),
                                    PersistenceExpression::new(
                                        id(10),
                                        PersistenceExpressionKind::DomainConstruct { type_id: id(1), value: id(8) },
                                    ),
                                    PersistenceExpression::new(id(11), PersistenceExpressionKind::DomainProject { value: id(10) }),
                                    PersistenceExpression::new(id(12), PersistenceExpressionKind::BoolLiteral(true)),
                                ],
                                vec![id(9)],
                                PersistenceTerminator::Branch { condition: id(12), true_block: id(20), false_block: id(20) },
                            ),
                            PersistenceBlock::new(
                                id(20),
                                vec![PersistenceExpression::new(id(21), PersistenceExpressionKind::UnitLiteral)],
                                Vec::new(),
                                PersistenceTerminator::Return { expression: id(21) },
                            ),
                        ],
                    )),
                    PersistencePresentation::new(None, None),
                ),
            ],
        )],
    );
    assert!(MnirProgram::validate_persistence(candidate).is_ok());

    let ns = namespace_id();
    let expression = |counter| ExpressionId { namespace_id: ns, counter };
    let block = |counter| BlockId { namespace_id: ns, counter };
    let encode_kind = |kind: &ExpressionKind| {
        let mut out = Vec::new();
        encode_expression_kind(&mut out, kind).unwrap();
        out
    };
    let concat = |head: &[u8], id_suffixes: &[&[u8]]| {
        let mut bytes = head.to_vec();
        for suffix in id_suffixes {
            bytes.extend(expected_id(suffix));
        }
        bytes
    };

    let mut value_type = Vec::new();
    encode_value_type(&mut value_type, ValueType::Domain(TypeId { namespace_id: ns, counter: 1 })).unwrap();
    assert_eq!(value_type, concat(&[0x82, 0x01], &[&[0x01]]));
    assert_eq!(
        encode_kind(&ExpressionKind::ParameterReference(ParameterId { namespace_id: ns, counter: 4 })),
        concat(&[0x82, 0x06], &[&[0x04]])
    );
    assert_eq!(
        encode_kind(&ExpressionKind::Add { left: expression(6), right: expression(7) }),
        concat(&[0x83, 0x07], &[&[0x06], &[0x07]])
    );
    let mut call = concat(&[0x83, 0x12], &[&[0x02]]);
    call.push(0x81);
    call.extend(expected_id(&[0x08]));
    assert_eq!(
        encode_kind(&ExpressionKind::Call {
            target: FunctionId { namespace_id: ns, counter: 2 },
            arguments: vec![expression(8)],
        }),
        call
    );
    assert_eq!(
        encode_kind(&ExpressionKind::DomainConstruct {
            type_id: TypeId { namespace_id: ns, counter: 1 },
            value: expression(8),
        }),
        concat(&[0x83, 0x13], &[&[0x01], &[0x08]])
    );
    assert_eq!(
        encode_kind(&ExpressionKind::DomainProject { value: expression(10) }),
        concat(&[0x82, 0x14], &[&[0x0a]])
    );

    let mut branch = Vec::new();
    encode_terminator(
        &mut branch,
        Terminator::Branch { condition: expression(12), true_block: block(20), false_block: block(20) },
    )
    .unwrap();
    assert_eq!(branch, concat(&[0x84, 0x01], &[&[0x0c], &[0x14], &[0x14]]));
    let mut returned = Vec::new();
    encode_terminator(&mut returned, Terminator::Return { expression: expression(21) }).unwrap();
    assert_eq!(returned, concat(&[0x82, 0x00], &[&[0x15]]));

    for (intrinsic, expected) in [
        (IntrinsicType::Int32, [0x82, 0x00, 0x00]),
        (IntrinsicType::Int64, [0x82, 0x00, 0x01]),
        (IntrinsicType::Bool, [0x82, 0x00, 0x02]),
        (IntrinsicType::Unit, [0x82, 0x00, 0x03]),
        (IntrinsicType::Text, [0x82, 0x00, 0x04]),
        (IntrinsicType::Bytes, [0x82, 0x00, 0x05]),
    ] {
        let mut out = Vec::new();
        encode_value_type(&mut out, ValueType::Intrinsic(intrinsic)).unwrap();
        assert_eq!(out, expected);
    }
}

#[test]
fn unknown_schema_tags_and_wrong_shapes_are_rejected() {
    assert_eq!(decode_intrinsic(&[0x06], 0), Err(DecodeError::InvalidWireSchema));
    assert_eq!(
        decode_persistence_value_type(&[0x82, 0x02, 0x00], 0),
        Err(DecodeError::InvalidWireSchema)
    );
    assert_eq!(decode_expression_kind(&[0x81, 0x15], 0), Err(DecodeError::InvalidWireSchema));
    assert_eq!(decode_terminator(&[0x81, 0x02], 0), Err(DecodeError::InvalidWireSchema));
    assert_eq!(decode_revision_counter(&[0x81, 0x02], 0), Err(DecodeError::InvalidWireSchema));
    assert_eq!(decode_string_option(&[0x81, 0x02], 0), Err(DecodeError::InvalidWireSchema));
    assert_eq!(fixed_array(&[0x81, 0x00], 0, 2), Err(DecodeError::InvalidWireSchema));
    assert_eq!(fixed_array(&[0x00], 0, 2), Err(DecodeError::InvalidWireSchema));
}

#[test]
fn every_type_expression_and_terminator_tag_is_exact() {
    for (intrinsic, tag) in [
        (IntrinsicType::Int32, 0),
        (IntrinsicType::Int64, 1),
        (IntrinsicType::Bool, 2),
        (IntrinsicType::Unit, 3),
        (IntrinsicType::Text, 4),
        (IntrinsicType::Bytes, 5),
    ] {
        assert_eq!(intrinsic_tag_of(intrinsic), tag);
    }

    let mut program = MnirProgram::new().unwrap();
    let mut transaction = program.begin_transaction();
    let module = transaction.add_module().unwrap();
    let domain = transaction.add_domain_type(module, IntrinsicType::Int32).unwrap();
    let function = transaction.add_function(module, IntrinsicType::Unit).unwrap();
    let parameter = transaction.add_parameter(function, IntrinsicType::Unit).unwrap();
    let block = transaction.create_function_body(function).unwrap();
    let second_block = transaction.add_block(function).unwrap();
    let expression = transaction.add_unit_literal(block).unwrap();
    let kinds = [
        ExpressionKind::Int32Literal(0),
        ExpressionKind::Int64Literal(0),
        ExpressionKind::BoolLiteral(false),
        ExpressionKind::UnitLiteral,
        ExpressionKind::TextLiteral(String::new()),
        ExpressionKind::BytesLiteral(Vec::new()),
        ExpressionKind::ParameterReference(parameter),
        ExpressionKind::Add { left: expression, right: expression },
        ExpressionKind::Subtract { left: expression, right: expression },
        ExpressionKind::Multiply { left: expression, right: expression },
        ExpressionKind::Divide { left: expression, right: expression },
        ExpressionKind::Remainder { left: expression, right: expression },
        ExpressionKind::Equal { left: expression, right: expression },
        ExpressionKind::NotEqual { left: expression, right: expression },
        ExpressionKind::LessThan { left: expression, right: expression },
        ExpressionKind::LessThanOrEqual { left: expression, right: expression },
        ExpressionKind::GreaterThan { left: expression, right: expression },
        ExpressionKind::GreaterThanOrEqual { left: expression, right: expression },
        ExpressionKind::Call { target: function, arguments: vec![expression] },
        ExpressionKind::DomainConstruct { type_id: domain, value: expression },
        ExpressionKind::DomainProject { value: expression },
    ];
    for (expected_tag, kind) in kinds.into_iter().enumerate() {
        let mut bytes = Vec::new();
        encode_expression_kind(&mut bytes, &kind).unwrap();
        let mut decoder = minicbor::Decoder::new(&bytes);
        decoder.array().unwrap().unwrap();
        assert_eq!(decoder.u64().unwrap(), expected_tag as u64);
    }

    for (terminator, expected_tag) in [
        (Terminator::Return { expression }, 0),
        (
            Terminator::Branch { condition: expression, true_block: block, false_block: second_block },
            1,
        ),
    ] {
        let mut bytes = Vec::new();
        encode_terminator(&mut bytes, terminator).unwrap();
        let mut decoder = minicbor::Decoder::new(&bytes);
        decoder.array().unwrap().unwrap();
        assert_eq!(decoder.u64().unwrap(), expected_tag);
    }
}
