use mnir_core::{
    DecodeError, EncodeError, decode, encode, validate_canonical_cbor, validate_collection_count,
    validate_file_size, validate_item_length, IntrinsicType, MnirProgram, PersistenceProgram,
    RevisionCounterState, AllocationCounterState,
};

const MAX_FILE_SIZE: u64 = 1 << 30;
const MAX_ITEM_SIZE: u64 = 1 << 28;
const MAX_COLLECTION_COUNT: u64 = 1 << 24;
const ENVELOPE_LEN: u64 = 12;

enum SegmentContents {
    Literal(Vec<u8>),
    RepeatedByte(u8),
    RepeatedPattern(Vec<u8>),
}

struct Segment {
    len: u64,
    contents: SegmentContents,
}

/// A payload described by segments, materialized only where a check reads
/// its bytes.
#[derive(Default)]
struct FixtureBuilder {
    segments: Vec<Segment>,
    len: u64,
}

impl FixtureBuilder {
    fn literal(&mut self, bytes: Vec<u8>) {
        if bytes.is_empty() {
            return;
        }
        let len = bytes.len() as u64;
        self.segments.push(Segment { len, contents: SegmentContents::Literal(bytes) });
        self.len += len;
    }

    fn repeated_byte(&mut self, byte: u8, len: u64) {
        if len == 0 {
            return;
        }
        self.segments.push(Segment { len, contents: SegmentContents::RepeatedByte(byte) });
        self.len += len;
    }

    fn repeated_pattern(&mut self, pattern: Vec<u8>, repetitions: u64) {
        if repetitions == 0 {
            return;
        }
        let len = (pattern.len() as u64).checked_mul(repetitions).expect("bounded fixture");
        self.segments.push(Segment { len, contents: SegmentContents::RepeatedPattern(pattern) });
        self.len += len;
    }

    fn logical_len(&self) -> u64 {
        self.len
    }

    fn materialize(&self) -> Vec<u8> {
        let mut bytes = Vec::with_capacity(usize::try_from(self.len).expect("fixture fits memory"));
        for segment in &self.segments {
            match &segment.contents {
                SegmentContents::Literal(literal) => bytes.extend_from_slice(literal),
                SegmentContents::RepeatedByte(byte) => {
                    bytes.resize(bytes.len() + segment.len as usize, *byte)
                },
                SegmentContents::RepeatedPattern(pattern) => {
                    let repetitions = segment.len / pattern.len() as u64;
                    for _ in 0..repetitions {
                        bytes.extend_from_slice(pattern);
                    }
                },
            }
        }
        bytes
    }
}

fn cbor_head(major: u8, value: u64) -> Vec<u8> {
    let mut bytes = Vec::new();
    match value {
        0..=23 => bytes.push((major << 5) | value as u8),
        24..=255 => bytes.extend([(major << 5) | 24, value as u8]),
        256..=65_535 => {
            bytes.push((major << 5) | 25);
            bytes.extend((value as u16).to_be_bytes());
        },
        65_536..=4_294_967_295 => {
            bytes.push((major << 5) | 26);
            bytes.extend((value as u32).to_be_bytes());
        },
        _ => {
            bytes.push((major << 5) | 27);
            bytes.extend(value.to_be_bytes());
        },
    }
    bytes
}

fn fixture_array(builder: &mut FixtureBuilder, count: u64) {
    builder.literal(cbor_head(4, count));
}

fn fixture_u64(builder: &mut FixtureBuilder, value: u64) {
    builder.literal(cbor_head(0, value));
}

fn fixture_bytes(builder: &mut FixtureBuilder, byte: u8, len: u64) {
    builder.literal(cbor_head(2, len));
    builder.repeated_byte(byte, len);
}

fn fixture_text(builder: &mut FixtureBuilder, byte: u8, len: u64) {
    builder.literal(cbor_head(3, len));
    builder.repeated_byte(byte, len);
}

fn fixture_id(builder: &mut FixtureBuilder, counter: u64) {
    fixture_array(builder, 2);
    fixture_bytes(builder, 0x52, 16);
    fixture_u64(builder, counter);
}

fn fixture_absent_presentation(builder: &mut FixtureBuilder) {
    fixture_array(builder, 2);
    fixture_array(builder, 1);
    fixture_u64(builder, 0);
    fixture_array(builder, 1);
    fixture_u64(builder, 0);
}

fn fixture_program_prefix(builder: &mut FixtureBuilder, allocation_next: u64) {
    fixture_array(builder, 5);
    fixture_bytes(builder, 0x51, 16);
    fixture_u64(builder, 1);
    fixture_array(builder, 2);
    fixture_u64(builder, 0);
    fixture_u64(builder, 2);
    fixture_array(builder, 2);
    fixture_bytes(builder, 0x52, 16);
    fixture_array(builder, 2);
    fixture_u64(builder, 0);
    fixture_u64(builder, allocation_next);
}

fn literal_program(kind_tag: u64, content_lengths: &[u64]) -> FixtureBuilder {
    assert!(!content_lengths.is_empty());
    let mut builder = FixtureBuilder::default();
    fixture_program_prefix(&mut builder, 3 + content_lengths.len() as u64);
    fixture_array(&mut builder, 1);
    fixture_array(&mut builder, 4);
    fixture_id(&mut builder, 0);
    fixture_absent_presentation(&mut builder);
    fixture_array(&mut builder, 0);
    fixture_array(&mut builder, 1);
    fixture_array(&mut builder, 5);
    fixture_id(&mut builder, 1);
    fixture_array(&mut builder, 2);
    fixture_u64(&mut builder, 0);
    fixture_u64(&mut builder, kind_tag);
    fixture_array(&mut builder, 0);
    fixture_array(&mut builder, 2);
    fixture_u64(&mut builder, 1);
    fixture_array(&mut builder, 2);
    fixture_id(&mut builder, 2);
    fixture_array(&mut builder, 1);
    fixture_array(&mut builder, 4);
    fixture_id(&mut builder, 2);
    fixture_array(&mut builder, content_lengths.len() as u64);
    for (index, &content_len) in content_lengths.iter().enumerate() {
        fixture_array(&mut builder, 2);
        fixture_id(&mut builder, 3 + index as u64);
        fixture_array(&mut builder, 2);
        fixture_u64(&mut builder, kind_tag);
        if kind_tag == 4 {
            fixture_text(&mut builder, b'a', content_len);
        } else {
            fixture_bytes(&mut builder, 0xa5, content_len);
        }
    }
    fixture_array(&mut builder, 0);
    fixture_array(&mut builder, 2);
    fixture_u64(&mut builder, 0);
    fixture_id(&mut builder, 2 + content_lengths.len() as u64);
    fixture_absent_presentation(&mut builder);
    builder
}

fn encoded_fixture_id(counter: u64) -> Vec<u8> {
    let mut builder = FixtureBuilder::default();
    fixture_id(&mut builder, counter);
    builder.materialize()
}

fn call_arguments_program(argument_count: u64) -> FixtureBuilder {
    let mut builder = FixtureBuilder::default();
    fixture_program_prefix(&mut builder, 6);
    fixture_array(&mut builder, 1);
    fixture_array(&mut builder, 4);
    fixture_id(&mut builder, 0);
    fixture_absent_presentation(&mut builder);
    fixture_array(&mut builder, 0);
    fixture_array(&mut builder, 2);

    fixture_array(&mut builder, 5);
    fixture_id(&mut builder, 1);
    fixture_array(&mut builder, 2);
    fixture_u64(&mut builder, 0);
    fixture_u64(&mut builder, 3);
    fixture_array(&mut builder, 0);
    fixture_array(&mut builder, 1);
    fixture_u64(&mut builder, 0);
    fixture_absent_presentation(&mut builder);

    fixture_array(&mut builder, 5);
    fixture_id(&mut builder, 2);
    fixture_array(&mut builder, 2);
    fixture_u64(&mut builder, 0);
    fixture_u64(&mut builder, 3);
    fixture_array(&mut builder, 0);
    fixture_array(&mut builder, 2);
    fixture_u64(&mut builder, 1);
    fixture_array(&mut builder, 2);
    fixture_id(&mut builder, 3);
    fixture_array(&mut builder, 1);
    fixture_array(&mut builder, 4);
    fixture_id(&mut builder, 3);
    fixture_array(&mut builder, 2);

    fixture_array(&mut builder, 2);
    fixture_id(&mut builder, 4);
    fixture_array(&mut builder, 1);
    fixture_u64(&mut builder, 3);

    fixture_array(&mut builder, 2);
    fixture_id(&mut builder, 5);
    fixture_array(&mut builder, 3);
    fixture_u64(&mut builder, 18);
    fixture_id(&mut builder, 1);
    fixture_array(&mut builder, argument_count);
    builder.repeated_pattern(encoded_fixture_id(4), argument_count);

    fixture_array(&mut builder, 1);
    fixture_id(&mut builder, 5);
    fixture_array(&mut builder, 2);
    fixture_u64(&mut builder, 0);
    fixture_id(&mut builder, 5);
    fixture_absent_presentation(&mut builder);
    builder
}

fn fixture_file(payload: &FixtureBuilder) -> Vec<u8> {
    let mut bytes = vec![0x89, b'M', b'N', b'I', b'R', 0x0d, 0x0a, 0x1a, 0, 1, 0, 0];
    bytes.extend(payload.materialize());
    bytes
}

#[test]
fn public_decode_uses_production_guard_and_virtual_fixture_schema_shapes() {
    let fixtures = [
        literal_program(4, &[4]),
        literal_program(5, &[4]),
        literal_program(5, &[1, 2, 3, 4]),
        call_arguments_program(2),
    ];
    for payload in fixtures {
        let bytes = fixture_file(&payload);
        assert_eq!(validate_file_size(bytes.len() as u64), Ok(()));
        let decoded = decode(&bytes).unwrap();
        assert_eq!(decoded.module_count(), 1);
    }
}

#[test]
fn maximum_file_size_is_accepted_without_materializing_one_gibibyte() {
    let all_maximum = literal_program(5, &[MAX_ITEM_SIZE; 4]);
    let oversized_len = ENVELOPE_LEN + all_maximum.logical_len();
    let excess = oversized_len - MAX_FILE_SIZE;
    assert!(excess < MAX_ITEM_SIZE);
    let final_length = MAX_ITEM_SIZE - excess;

    let exact = literal_program(5, &[MAX_ITEM_SIZE, MAX_ITEM_SIZE, MAX_ITEM_SIZE, final_length]);
    let exact_file_len = ENVELOPE_LEN + exact.logical_len();
    assert_eq!(exact_file_len, MAX_FILE_SIZE);
    assert_eq!(validate_file_size(exact_file_len), Ok(()));
    assert_eq!(validate_canonical_cbor(&exact.materialize()), Ok(()));

    let too_large = literal_program(
        5,
        &[MAX_ITEM_SIZE, MAX_ITEM_SIZE, MAX_ITEM_SIZE, final_length + 1],
    );
    let too_large_len = ENVELOPE_LEN + too_large.logical_len();
    assert_eq!(too_large_len, MAX_FILE_SIZE + 1);
    assert_eq!(validate_file_size(too_large_len), Err(DecodeError::ResourceLimitExceeded));
}

#[test]
fn maximum_text_and_bytes_items_are_accepted_virtually() {
    for kind_tag in [4, 5] {
        let exact = literal_program(kind_tag, &[MAX_ITEM_SIZE]);
        assert_eq!(validate_canonical_cbor(&exact.materialize()), Ok(()));

        let too_large = literal_program(kind_tag, &[MAX_ITEM_SIZE + 1]);
        assert_eq!(
            validate_canonical_cbor(&too_large.materialize()),
            Err(DecodeError::ResourceLimitExceeded)
        );
    }
}

#[test]
fn maximum_variable_collection_is_accepted_virtually() {
    let exact = call_arguments_program(MAX_COLLECTION_COUNT);
    assert_eq!(validate_canonical_cbor(&exact.materialize()), Ok(()));

    let too_large = call_arguments_program(MAX_COLLECTION_COUNT + 1);
    assert_eq!(
        validate_canonical_cbor(&too_large.materialize()),
        Err(DecodeError::ResourceLimitExceeded)
    );
}

#[test]
fn exact_nesting_depth_boundary_uses_concrete_bytes() {
    let mut depth_16 = vec![0x81; 15];
    depth_16.push(0x00);
    assert_eq!(validate_canonical_cbor(&depth_16), Ok(()));

    let mut depth_17 = vec![0x81; 16];
    depth_17.push(0x00);
    assert_eq!(validate_canonical_cbor(&depth_17), Err(DecodeError::ResourceLimitExceeded));
}

#[test]
fn decode_resource_guards_accept_max_and_reject_max_plus_one() {
    assert_eq!(validate_file_size(MAX_FILE_SIZE), Ok(()));
    assert_eq!(validate_file_size(MAX_FILE_SIZE + 1), Err(DecodeError::ResourceLimitExceeded));
    assert_eq!(validate_item_length(MAX_ITEM_SIZE), Ok(()));
    assert_eq!(validate_item_length(MAX_ITEM_SIZE + 1), Err(DecodeError::ResourceLimitExceeded));
    assert_eq!(validate_collection_count(MAX_COLLECTION_COUNT), Ok(()));
    assert_eq!(
        validate_collection_count(MAX_COLLECTION_COUNT + 1),
        Err(DecodeError::ResourceLimitExceeded)
    );
}

fn namespace() -> [u8; 16] {
    [
        0x10, 0x11, 0x12, 0x13, 0x14, 0x15, 0x16, 0x17, 0x18, 0x19, 0x1a, 0x1b, 0x1c, 0x1d, 0x1e,
        0x1f,
    ]
}

fn expected_id(suffix: &[u8]) -> Vec<u8> {
    let mut expected = vec![0x82, 0x50];
    expected.extend_from_slice(&namespace());
    expected.extend_from_slice(suffix);
    expected
}

fn envelope() -> Vec<u8> {
    vec![0x89, b'M', b'N', b'I', b'R', 0x0d, 0x0a, 0x1a, 0, 1, 0, 0]
}

fn empty_checkpoint_bytes(next: AllocationCounterState) -> Vec<u8> {
    let candidate = PersistenceProgram::new(
        [0x20; 16],
        1,
        RevisionCounterState::Available(2),
        namespace(),
        next,
        Vec::new(),
    );
    let validated = MnirProgram::validate_persistence(candidate).unwrap();
    encode(&validated.persistence_snapshot()).unwrap()
}

#[test]
fn allocator_fragments_are_written_in_the_exact_payload() {
    for (state, tail) in [
        (AllocationCounterState::Available(24), vec![0x82, 0x00, 0x18, 0x18]),
        (AllocationCounterState::Available(0), vec![0x82, 0x00, 0x00]),
        (AllocationCounterState::Exhausted, vec![0x81, 0x01]),
    ] {
        let mut expected = envelope();
        expected.extend([0x85, 0x50]);
        expected.extend([0x20; 16]);
        expected.extend([0x01, 0x82, 0x00, 0x02, 0x82, 0x50]);
        expected.extend(namespace());
        expected.extend(tail);
        expected.push(0x80);
        assert_eq!(empty_checkpoint_bytes(state), expected);
    }
}

#[test]
fn module_identity_counters_use_the_shortest_width() {
    for (counter, suffix) in [
        (0u64, vec![0x00]),
        (23, vec![0x17]),
        (24, vec![0x18, 0x18]),
        (255, vec![0x18, 0xff]),
        (256, vec![0x19, 0x01, 0x00]),
        (u64::from(u32::MAX) + 1, vec![0x1b, 0x00, 0x00, 0x00, 0x01, 0x00, 0x00, 0x00, 0x00]),
    ] {
        let candidate = PersistenceProgram::new(
            [0x20; 16],
            1,
            RevisionCounterState::Available(2),
            namespace(),
            AllocationCounterState::Available(counter + 1),
            vec![mnir_core::PersistenceModule::new(
                mnir_core::PersistenceEntityId::new(namespace(), counter),
                mnir_core::PersistencePresentation::new(None, None),
                Vec::new(),
                Vec::new(),
            )],
        );
        let validated = MnirProgram::validate_persistence(candidate).unwrap();
        let bytes = encode(&validated.persistence_snapshot()).unwrap();
        let mut module = vec![0x81, 0x84];
        module.extend(expected_id(&suffix));
        module.extend([0x82, 0x81, 0x00, 0x81, 0x00, 0x80, 0x80]);
        assert!(bytes.ends_with(&module));
    }
}

#[test]
fn text_literal_is_written_as_utf8_and_signed_values_as_major_one() {
    let mut program = MnirProgram::new().unwrap();
    {
        let mut tx = program.begin_transaction();
        let module = tx.add_module().unwrap();
        let function = tx.add_function(module, IntrinsicType::Int32).unwrap();
        let block = tx.create_function_body(function).unwrap();
        tx.add_text_literal(block, "Aé").unwrap();
        tx.add_int32_literal(block, i32::MIN).unwrap();
        let value = tx.add_int32_literal(block, -1).unwrap();
        tx.set_return(block, value).unwrap();
        tx.commit().unwrap();
    }
    let bytes = encode(&program.persistence_snapshot()).unwrap();
    let contains = |needle: &[u8]| bytes.windows(needle.len()).any(|window| window == needle);
    assert!(contains(&[0x82, 0x04, 0x63, 0x41, 0xc3, 0xa9]));
    assert!(contains(&[0x82, 0x00, 0x3a, 0x7f, 0xff, 0xff, 0xff]));
    assert!(contains(&[0x82, 0x00, 0x20]));
    assert!(decode(&bytes).is_ok());
}

#[test]
fn invalid_checkpoint_and_encode_errors_are_distinct() {
    assert_ne!(EncodeError::InvalidCheckpoint, EncodeError::ResourceLimitExceeded);
    assert_eq!(EncodeError::InvalidCheckpoint.message(), "invalid persistence checkpoint");
    assert_eq!(DecodeError::NonCanonicalEncoding.message(), "non-canonical MNIR encoding");
}
