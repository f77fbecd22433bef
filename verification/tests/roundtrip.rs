use block_codec::{Block, Def, Field, FieldName, Len, ToBytesError, ToValuesError, U64, Val,
    ValInfo, ValueMap};

#[derive(Debug, PartialEq, Eq, Hash, Clone)]
enum Name {
    FixedVarInt,
    VarInt,
    BytesFixedLen,
    BytesVarLen,
    FixedBytes,
}

impl FieldName for Name {
    fn eq_name(&self, other: &Self) -> bool {
        self == other
    }

    fn clone_name(&self) -> Self {
        self.clone()
    }
}

fn get_block() -> Block<Name> {
    let mut block = Block::new();
    block.add_field(Name::FixedVarInt, Def::VarInt(U64::Fixed(0xdeadbeef)));
    block.add_field(Name::VarInt, Def::VarInt(U64::Var));
    block.add_field(Name::BytesFixedLen, Def::Bytes(Len::Fixed(1)));
    block.add_field(Name::BytesVarLen, Def::Bytes(Len::Var));
    block.add_field(
        Name::FixedBytes,
        Def::FixedBytes(vec![0xba, 0xad, 0xf0, 0x0d]),
    );
    block
}

fn get_values() -> ValueMap<Name, Val> {
    let mut values = ValueMap::new();
    values.insert(Name::VarInt, Val::VarInt(0x1234));
    values.insert(Name::BytesFixedLen, Val::Bytes(vec![1]));
    values.insert(Name::BytesVarLen, Val::Bytes(vec![1, 2, 3]));
    values
}

/// Encodes `v` as a lone free varint field and returns the wire bytes.
fn encode_varint(v: u64) -> (Vec<u8>, usize) {
    let field = Field::new(Name::VarInt, Def::VarInt(U64::Var));
    let mut buf = vec![0u8; 16];
    let value = Val::VarInt(v);
    let end = field.to_bytes(Some(&value), &mut buf, 0).unwrap();
    (buf, end)
}

#[test]
fn test_varint_minimal_class() {
    // Each value encodes to the smallest class whose capacity exceeds it,
    // and decodes back to itself.
    let cases: &[(u64, usize)] = &[
        (0, 1),
        (0x3f, 1),
        (0x40, 2),
        (0x3fff, 2),
        (0x4000, 4),
        (0x3fff_ffff, 4),
        (0x4000_0000, 8),
        (0x3fff_ffff_ffff_ffff, 8),
    ];
    let field = Field::new(Name::VarInt, Def::VarInt(U64::Var));
    for &(v, len) in cases {
        let (buf, end) = encode_varint(v);
        assert_eq!(end, len);
        let (info, read) = field.to_value(&buf, 0).unwrap();
        assert_eq!(read, len);
        assert_eq!(info.pos, 0);
        assert_eq!(info.value.varint().unwrap(), v);
    }
}

#[test]
fn test_varint_exact_bytes() {
    assert_eq!(&encode_varint(0x25).0[..1], &[0x25][..]);
    assert_eq!(&encode_varint(0x1234).0[..2], &[0x52, 0x34][..]);
    assert_eq!(
        &encode_varint(0x3456789a).0[..4],
        &[0xb4, 0x56, 0x78, 0x9a][..]
    );
    assert_eq!(
        &encode_varint(0x0102030405).0[..8],
        &[0xc0, 0, 0, 1, 2, 3, 4, 5][..]
    );
}

#[test]
fn test_varint_too_large() {
    let field = Field::new(Name::VarInt, Def::VarInt(U64::Var));
    let mut buf = vec![0u8; 16];
    let value = Val::VarInt(0x4000_0000_0000_0000);
    let e = field.to_bytes(Some(&value), &mut buf, 0).unwrap_err();
    assert_eq!(e, ToBytesError::InvalidValue(Name::VarInt));
}

#[test]
fn test_space_exhaustion_boundary() {
    // One byte short of the needed two fails; the exact length succeeds.
    let field = Field::new(Name::VarInt, Def::VarInt(U64::Var));
    let value = Val::VarInt(0x1234);
    let mut short = vec![0u8; 1];
    let e = field.to_bytes(Some(&value), &mut short, 0).unwrap_err();
    assert_eq!(e, ToBytesError::NotEnoughSpace(Name::VarInt));
    let mut exact = vec![0u8; 2];
    let end = field.to_bytes(Some(&value), &mut exact, 0).unwrap();
    assert_eq!(end, 2);
    assert_eq!(&exact[..], &[0x52, 0x34][..]);
}

#[test]
fn test_data_exhaustion_boundary() {
    let field = Field::new(Name::VarInt, Def::VarInt(U64::Var));
    // An eight-byte encoding cut one byte short fails.
    let e = field.to_value(&[0xc0, 0, 0, 1, 2, 3, 4], 0).unwrap_err();
    assert_eq!(e, ToValuesError::NotEnoughData(Name::VarInt));
    let (info, read) = field.to_value(&[0xc0, 0, 0, 1, 2, 3, 4, 5], 0).unwrap();
    assert_eq!(read, 8);
    assert_eq!(info.value.varint().unwrap(), 0x0102030405);

    // A length-prefixed byte field cut one byte short fails.
    let field = Field::new(Name::BytesVarLen, Def::Bytes(Len::Var));
    let e = field.to_value(&[3, 1, 2], 0).unwrap_err();
    assert_eq!(e, ToValuesError::NotEnoughData(Name::BytesVarLen));
    let (info, read) = field.to_value(&[3, 1, 2, 3], 0).unwrap();
    assert_eq!(read, 4);
    assert_eq!(info.value.bytes().unwrap(), &vec![1, 2, 3]);
}

#[test]
fn test_bytes_wrong_variant() {
    // A supplied value of the wrong variant conflicts with the field's
    // kind; it is not a missing value.
    let value = Val::VarInt(7);
    let mut buf = vec![0u8; 8];
    let field = Field::new(Name::BytesFixedLen, Def::Bytes(Len::Fixed(3)));
    let e = field.to_bytes(Some(&value), &mut buf, 0).unwrap_err();
    assert_eq!(e, ToBytesError::InvalidValue(Name::BytesFixedLen));
    let field = Field::new(Name::BytesVarLen, Def::Bytes(Len::Var));
    let e = field.to_bytes(Some(&value), &mut buf, 0).unwrap_err();
    assert_eq!(e, ToBytesError::InvalidValue(Name::BytesVarLen));
}

#[test]
fn test_encode_deterministic() {
    let block = get_block();
    let values = get_values();
    let mut first = vec![0u8; 64];
    let mut second = vec![0u8; 64];
    let end1 = block.to_bytes(&values, &mut first).unwrap();
    let end2 = block.to_bytes(&values, &mut second).unwrap();
    assert_eq!(end1, end2);
    assert_eq!(first, second);
}

#[test]
fn test_round_trip() {
    let block = get_block();
    let values = get_values();
    let mut buf = vec![0u8; 64];
    let end = block.to_bytes(&values, &mut buf).unwrap();

    let mut decoded = ValueMap::new();
    let read = block.to_values(&buf[..end], &mut decoded).unwrap();
    assert_eq!(read, end);

    // Every free field comes back with the value it was encoded from.
    let info = decoded.get(&Name::VarInt).unwrap();
    assert_eq!(info.value.varint().unwrap(), 0x1234);
    let info = decoded.get(&Name::BytesFixedLen).unwrap();
    assert_eq!(info.value.bytes().unwrap(), &vec![1]);
    let info = decoded.get(&Name::BytesVarLen).unwrap();
    assert_eq!(info.value.bytes().unwrap(), &vec![1, 2, 3]);

    // Constant fields are stored too, at their starting offsets.
    let ValInfo { value, pos } = decoded.get(&Name::FixedVarInt).unwrap();
    assert_eq!(value.varint().unwrap(), 0xdeadbeef);
    assert_eq!(*pos, 0);
    let ValInfo { value, pos } = decoded.get(&Name::FixedBytes).unwrap();
    assert_eq!(value.bytes().unwrap(), &vec![0xba, 0xad, 0xf0, 0x0d]);
    assert_eq!(*pos, 15);
}

#[test]
fn test_block_error_names_failing_field() {
    // The fixed varint decodes, the free varint runs out of data.
    let block = get_block();
    let mut decoded = ValueMap::new();
    let e = block
        .to_values(&[0xc0, 0, 0, 0, 0xde, 0xad, 0xbe, 0xef, 0x52], &mut decoded)
        .unwrap_err();
    assert_eq!(e, ToValuesError::NotEnoughData(Name::VarInt));
    // The value decoded before the failure is retained.
    assert_eq!(
        decoded
            .get(&Name::FixedVarInt)
            .unwrap()
            .value
            .varint()
            .unwrap(),
        0xdeadbeef
    );
    // A corrupted constant is named with `InvalidValue`.
    let mut decoded = ValueMap::new();
    let e = block
        .to_values(&[0xc0, 0, 0, 0, 0xde, 0xad, 0xbe, 0xee, 0x52, 0x34], &mut decoded)
        .unwrap_err();
    assert_eq!(e, ToValuesError::InvalidValue(Name::FixedVarInt));
}

#[test]
fn test_u64_field_names() {
    let mut block: Block<u64> = Block::new();
    block.add_field(7, Def::VarInt(U64::Var));
    block.add_field(8, Def::Bytes(Len::Var));
    let mut values = ValueMap::new();
    values.insert(7u64, Val::VarInt(300));
    values.insert(8u64, Val::Bytes(vec![9, 9]));
    let mut buf = vec![0u8; 16];
    let end = block.to_bytes(&values, &mut buf).unwrap();
    assert_eq!(&buf[..end], &[0x41, 0x2c, 2, 9, 9][..]);
    let mut decoded = ValueMap::new();
    let read = block.to_values(&buf[..end], &mut decoded).unwrap();
    assert_eq!(read, end);
    assert_eq!(decoded.get(&7).unwrap().value.varint().unwrap(), 300);
    assert_eq!(decoded.get(&8).unwrap().value.bytes().unwrap(), &vec![9, 9]);
}

#[test]
fn test_value_map_replaces() {
    let mut values: ValueMap<u64, Val> = ValueMap::new();
    values.insert(1, Val::VarInt(10));
    values.insert(1, Val::VarInt(20));
    assert_eq!(values.get(&1).unwrap().varint().unwrap(), 20);
    assert!(values.get(&2).is_none());
}
