use aptos_protos::decode::{proto_deserialize, MAX_NESTING_DEPTH};
use aptos_protos::encode::proto_serialize;
use aptos_protos::layout::{AccountAddress, TypeLayout, TypedValue, U256};
use aptos_protos::options::{make_url, NamePart, UninterpretedOption};
use aptos_protos::wire::{
    as_length_delimited, encode_tag, read_length_delimited, read_tag, read_varint, scan_fields,
    serialize_length_delim, serialize_varint, serialize_varint_field, sort_fields, WireData,
    WireType,
};

fn vector(l: TypeLayout) -> TypeLayout {
    TypeLayout::Vector(Box::new(l))
}

fn address(last: u8) -> AccountAddress {
    let mut bytes = [0u8; 32];
    bytes[31] = last;
    AccountAddress { bytes }
}

fn varint(x: u64) -> Vec<u8> {
    let mut out = vec![];
    serialize_varint(x, &mut out);
    out
}

#[test]
fn varint_encoding() {
    assert_eq!(varint(0), vec![0]);
    assert_eq!(varint(127), vec![0x7f]);
    assert_eq!(varint(300), vec![0xac, 0x02]);
    assert_eq!(varint(u64::MAX), vec![0xff, 0xff, 0xff, 0xff, 0xff, 0xff, 0xff, 0xff, 0xff, 0x01]);
}

#[test]
fn varint_reading() {
    let buf = [0xac, 0x02, 0x07];
    let mut cur: &[u8] = &buf;
    assert_eq!(read_varint(&mut cur), Some(300));
    assert_eq!(cur, &[0x07]);
    let long = [0xff, 0xff, 0xff, 0xff, 0xff, 0xff, 0xff, 0xff, 0xff, 0x01];
    let mut cur: &[u8] = &long;
    assert_eq!(read_varint(&mut cur), Some(u64::MAX));
    assert!(cur.is_empty());
    let too_long = [0x80; 11];
    let mut cur: &[u8] = &too_long;
    assert_eq!(read_varint(&mut cur), None);
    assert_eq!(cur.len(), 11);
    let truncated = [0x80, 0x80];
    let mut cur: &[u8] = &truncated;
    assert_eq!(read_varint(&mut cur), None);
    assert_eq!(cur.len(), 2);
}

#[test]
fn tags_and_fields() {
    let mut out = vec![];
    encode_tag(1, 2, &mut out);
    assert_eq!(out, vec![0x0a]);
    let mut out = vec![];
    serialize_varint_field(3, 150, &mut out);
    assert_eq!(out, vec![0x18, 0x96, 0x01]);
    let mut out = vec![];
    serialize_length_delim(2, &[9, 8, 7], &mut out);
    assert_eq!(out, vec![0x12, 3, 9, 8, 7]);

    let buf = [0x12, 3, 9, 8, 7];
    let mut cur: &[u8] = &buf;
    assert_eq!(read_tag(&mut cur), Some((1, WireType::LengthDelimited)));
    assert_eq!(read_length_delimited(&mut cur), Some(&[9u8, 8, 7][..]));
    assert!(cur.is_empty());
    let bad_type = [0x0b];
    let mut cur: &[u8] = &bad_type;
    assert_eq!(read_tag(&mut cur), None);
    let short = [3, 1, 2];
    let mut cur: &[u8] = &short;
    assert_eq!(read_length_delimited(&mut cur), None);
    assert_eq!(cur.len(), 3);
}

#[test]
fn scan_and_stable_sort() {
    let buf = [0x10, 5, 0x08, 7, 0x0a, 1, 0xaa, 0x08, 3];
    let fields = scan_fields(&buf).unwrap();
    assert_eq!(fields.len(), 4);
    let sorted = sort_fields(&fields);
    let idx: Vec<u32> = sorted.iter().map(|f| f.0).collect();
    assert_eq!(idx, vec![0, 0, 0, 1]);
    assert!(matches!(sorted[0].1, WireData::Varint(7)));
    assert_eq!(as_length_delimited(&sorted[1].1), Some(&[0xaau8][..]));
    assert!(matches!(sorted[2].1, WireData::Varint(3)));
    assert!(matches!(sorted[3].1, WireData::Varint(5)));
    assert_eq!(as_length_delimited(&sorted[0].1), None);
    assert!(scan_fields(&[0x08]).is_none());
}

#[test]
fn top_level_empty_vector() {
    let value = vec![TypedValue::Vector(vec![])];
    let bytes = proto_serialize(&value);
    assert!(bytes.is_empty());
    let layout = vec![vector(TypeLayout::U64)];
    assert_eq!(proto_deserialize(&bytes, &layout), Some(value));
}

#[test]
fn nested_empty_vector_preserves_position() {
    let layout = vec![vector(vector(TypeLayout::U8))];
    let value = vec![TypedValue::Vector(vec![
        TypedValue::Vector(vec![]),
        TypedValue::Vector(vec![TypedValue::U8(1), TypedValue::U8(2)]),
        TypedValue::Vector(vec![]),
    ])];
    let bytes = proto_serialize(&value);
    assert_eq!(bytes, vec![0x0a, 0, 0x0a, 2, 1, 2, 0x0a, 0]);
    let decoded = proto_deserialize(&bytes, &layout).unwrap();
    assert_eq!(decoded, value);
}

#[test]
fn stable_ordering_of_repeated_fields() {
    let layout = vec![vector(TypeLayout::U64)];
    let buf = [0x08, 7, 0x08, 3];
    assert_eq!(
        proto_deserialize(&buf, &layout),
        Some(vec![TypedValue::Vector(vec![TypedValue::U64(7), TypedValue::U64(3)])])
    );
}

#[test]
fn unknown_field_tolerance() {
    let layout = vec![TypeLayout::U64, TypeLayout::Bool];
    let buf = [0x08, 42, 0x30, 1];
    assert_eq!(
        proto_deserialize(&buf, &layout),
        Some(vec![TypedValue::U64(42), TypedValue::Bool(false)])
    );
}

#[test]
fn malformed_input_fails() {
    let layout = vec![TypeLayout::U64, vector(TypeLayout::U8)];
    // truncated varint
    assert_eq!(proto_deserialize(&[0x08, 0x80], &layout), None);
    // truncated length-delimited payload
    assert_eq!(proto_deserialize(&[0x12, 5, 1, 2], &layout), None);
    // wire type 1
    assert_eq!(proto_deserialize(&[0x09, 1, 2, 3, 4, 5, 6, 7, 8], &layout), None);
    // field number 0
    assert_eq!(proto_deserialize(&[0x00, 1], &layout), None);
    assert_eq!(proto_deserialize(&[0x02, 0], &layout), None);
    // field number 2^29
    assert_eq!(proto_deserialize(&[0x80, 0x80, 0x80, 0x80, 0x10, 1], &layout), None);
}

#[test]
fn truncation_semantics() {
    let layout = vec![TypeLayout::U32];
    let buf = [0x08, 0x85, 0x80, 0x80, 0x80, 0x10];
    assert_eq!(proto_deserialize(&buf, &layout), Some(vec![TypedValue::U32(5)]));
    let layout = vec![TypeLayout::U8, TypeLayout::U16];
    let buf = [0x08, 0xac, 0x02, 0x10, 0x81, 0x80, 0x04];
    assert_eq!(
        proto_deserialize(&buf, &layout),
        Some(vec![TypedValue::U8(44), TypedValue::U16(1)])
    );
}

#[test]
fn end_to_end_scenario() {
    let layout = vec![TypeLayout::U64, vector(TypeLayout::U8), TypeLayout::Address];
    let value = vec![
        TypedValue::U64(42),
        TypedValue::Vector(vec![
            TypedValue::U8(0xde),
            TypedValue::U8(0xad),
            TypedValue::U8(0xbe),
            TypedValue::U8(0xef),
        ]),
        TypedValue::Address(address(1)),
    ];
    let bytes = proto_serialize(&value);
    let mut expected = vec![0x08, 42, 0x12, 4, 0xde, 0xad, 0xbe, 0xef, 0x1a, 32];
    expected.extend_from_slice(&[0u8; 31]);
    expected.push(1);
    assert_eq!(bytes, expected);
    assert_eq!(proto_deserialize(&bytes, &layout), Some(value));
}

#[test]
fn zero_scalars_are_emitted() {
    let value = vec![TypedValue::Bool(false), TypedValue::U64(0)];
    assert_eq!(proto_serialize(&value), vec![0x08, 0, 0x10, 0]);
}

#[test]
fn round_trip_every_kind() {
    let inner_struct = TypeLayout::Struct(vec![TypeLayout::U16, vector(TypeLayout::Signer)]);
    let middle = TypeLayout::Struct(vec![inner_struct, vector(TypeLayout::U128)]);
    let layout = vec![
        TypeLayout::Bool,
        TypeLayout::U8,
        TypeLayout::U16,
        TypeLayout::U32,
        TypeLayout::U64,
        TypeLayout::U128,
        TypeLayout::U256,
        TypeLayout::Address,
        TypeLayout::Signer,
        vector(TypeLayout::Bool),
        vector(TypeLayout::U32),
        vector(TypeLayout::U256),
        vector(TypeLayout::Address),
        vector(vector(TypeLayout::U64)),
        vector(vector(vector(TypeLayout::U8))),
        vector(TypeLayout::Struct(vec![TypeLayout::U8])),
        TypeLayout::Struct(vec![middle]),
    ];
    let big = U256 { low: u128::MAX - 5, high: 0x0102_0304_0506_0708_090a_0b0c_0d0e_0f10 };
    let value = vec![
        TypedValue::Bool(true),
        TypedValue::U8(255),
        TypedValue::U16(65535),
        TypedValue::U32(0),
        TypedValue::U64(u64::MAX),
        TypedValue::U128(u128::MAX / 3),
        TypedValue::U256(big),
        TypedValue::Address(address(9)),
        TypedValue::Signer(address(10)),
        TypedValue::Vector(vec![TypedValue::Bool(true), TypedValue::Bool(false)]),
        TypedValue::Vector(vec![TypedValue::U32(1), TypedValue::U32(0), TypedValue::U32(7)]),
        TypedValue::Vector(vec![TypedValue::U256(big), TypedValue::U256(U256 { low: 1, high: 0 })]),
        TypedValue::Vector(vec![TypedValue::Address(address(1))]),
        TypedValue::Vector(vec![
            TypedValue::Vector(vec![TypedValue::U64(1), TypedValue::U64(2)]),
            TypedValue::Vector(vec![]),
            TypedValue::Vector(vec![TypedValue::U64(3)]),
        ]),
        TypedValue::Vector(vec![
            TypedValue::Vector(vec![
                TypedValue::Vector(vec![TypedValue::U8(4)]),
                TypedValue::Vector(vec![]),
            ]),
            TypedValue::Vector(vec![]),
        ]),
        TypedValue::Vector(vec![
            TypedValue::Struct(vec![TypedValue::U8(1)]),
            TypedValue::Struct(vec![TypedValue::U8(0)]),
        ]),
        TypedValue::Struct(vec![TypedValue::Struct(vec![
            TypedValue::Struct(vec![
                TypedValue::U16(12),
                TypedValue::Vector(vec![TypedValue::Signer(address(3))]),
            ]),
            TypedValue::Vector(vec![TypedValue::U128(5)]),
        ])]),
    ];
    let bytes = proto_serialize(&value);
    assert_eq!(proto_deserialize(&bytes, &layout), Some(value));
}

#[test]
fn u128_payload_is_little_endian() {
    let value = vec![TypedValue::U128(0x0102)];
    let bytes = proto_serialize(&value);
    let mut expected = vec![0x0a, 16, 0x02, 0x01];
    expected.extend_from_slice(&[0u8; 14]);
    assert_eq!(bytes, expected);
    let value = vec![TypedValue::U256(U256 { low: 0, high: 1 })];
    let bytes = proto_serialize(&value);
    assert_eq!(bytes.len(), 34);
    assert_eq!(bytes[18], 1);
}

#[test]
fn mandatory_fields_and_widths() {
    assert_eq!(proto_deserialize(&[], &[TypeLayout::U128]), None);
    assert_eq!(proto_deserialize(&[], &[TypeLayout::U256]), None);
    assert_eq!(proto_deserialize(&[], &[TypeLayout::Address]), None);
    assert_eq!(proto_deserialize(&[], &[TypeLayout::Signer]), None);
    assert_eq!(proto_deserialize(&[], &[TypeLayout::Struct(vec![])]), None);
    assert_eq!(
        proto_deserialize(&[], &[TypeLayout::Bool, vector(TypeLayout::U64)]),
        Some(vec![TypedValue::Bool(false), TypedValue::Vector(vec![])])
    );
    assert_eq!(proto_deserialize(&[0x0a, 2, 1, 2], &[TypeLayout::U128]), None);
    assert_eq!(proto_deserialize(&[0x0a, 2, 1, 2], &[TypeLayout::Address]), None);
    assert_eq!(proto_deserialize(&[0x08, 1], &[TypeLayout::Address]), None);
    assert_eq!(proto_deserialize(&[0x0a, 0], &[TypeLayout::U64]), None);
}

#[test]
fn nesting_depth_limit() {
    let mut layout = TypeLayout::U8;
    let mut value = TypedValue::U8(3);
    for _ in 0..MAX_NESTING_DEPTH {
        layout = TypeLayout::Struct(vec![layout]);
        value = TypedValue::Struct(vec![value]);
    }
    let ok_layout = vec![layout];
    let ok_value = vec![value];
    let bytes = proto_serialize(&ok_value);
    assert_eq!(proto_deserialize(&bytes, &ok_layout), Some(ok_value));
    let deep_layout = vec![TypeLayout::Struct(ok_layout)];
    let mut deep_bytes = vec![];
    serialize_length_delim(1, &bytes, &mut deep_bytes);
    assert_eq!(proto_deserialize(&deep_bytes, &deep_layout), None);
}

#[test]
fn option_name_is_joined() {
    let option = UninterpretedOption {
        name: vec![
            NamePart { name_part: "BcsOptions".to_string(), is_extension: false },
            NamePart { name_part: ".Kind".to_string(), is_extension: false },
        ],
    };
    assert_eq!(make_url(&option), "BcsOptions.Kind");
    assert_eq!(make_url(&UninterpretedOption { name: vec![] }), "");
}
