use block_codec::{Error, Val};

#[test]
fn test() {
    let val = Val::VarInt(0x1234);
    assert_eq!(val.varint().unwrap(), 0x1234);

    let vec = vec![1, 2, 3];
    let val = Val::Bytes(vec);
    assert_eq!(val.varint().unwrap_err(), Error::InvalidType);

    let val = Val::VarInt(0x1234);
    assert_eq!(val.bytes().unwrap_err(), Error::InvalidType);
}
