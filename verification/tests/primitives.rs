use codecrafters_kafka::cursor::Cursor;
use codecrafters_kafka::decode::{Decode, DecodeError, Fault};
use codecrafters_kafka::encode::Encode;
use uuid::Uuid;

#[test]
fn unsigned_integers_are_big_endian() {
    assert_eq!(0x12u8.encode(), vec![0x12]);
    assert_eq!(0x1234u16.encode(), vec![0x12, 0x34]);
    assert_eq!(0x1234_5678u32.encode(), vec![0x12, 0x34, 0x56, 0x78]);
    assert_eq!(
        0x0102_0304_0506_0708u64.encode(),
        vec![0x01, 0x02, 0x03, 0x04, 0x05, 0x06, 0x07, 0x08]
    );
    assert_eq!(
        0x0102_0304_0506_0708_090a_0b0c_0d0e_0f10u128.encode(),
        vec![
            0x01, 0x02, 0x03, 0x04, 0x05, 0x06, 0x07, 0x08, 0x09, 0x0a, 0x0b, 0x0c, 0x0d, 0x0e,
            0x0f, 0x10
        ]
    );
}

#[test]
fn signed_integers_are_twos_complement() {
    assert_eq!((-1i8).encode(), vec![0xff]);
    assert_eq!((-2i16).encode(), vec![0xff, 0xfe]);
    assert_eq!((-1i32).encode(), vec![0xff, 0xff, 0xff, 0xff]);
    assert_eq!(i32::MIN.encode(), vec![0x80, 0x00, 0x00, 0x00]);
    assert_eq!(i64::MAX.encode(), vec![0x7f, 0xff, 0xff, 0xff, 0xff, 0xff, 0xff, 0xff]);
    assert_eq!(i64::MIN.encode(), i64::MIN.to_be_bytes().to_vec());
    assert_eq!(i128::MIN.encode(), i128::MIN.to_be_bytes().to_vec());
    assert_eq!((-5i128).encode(), (-5i128).to_be_bytes().to_vec());
    assert_eq!(35i16.encode(), vec![0x00, 0x23]);
}

#[test]
fn integers_agree_with_std() {
    for n in [0u64, 1, 255, 256, 65535, 65536, u64::MAX] {
        assert_eq!(n.encode(), n.to_be_bytes().to_vec());
        assert_eq!((n as u32).encode(), (n as u32).to_be_bytes().to_vec());
        assert_eq!((n as i16).encode(), (n as i16).to_be_bytes().to_vec());
        assert_eq!((n as i64).encode(), (n as i64).to_be_bytes().to_vec());
        assert_eq!((n as i8).encode(), (n as i8).to_be_bytes().to_vec());
    }
}

#[test]
fn integers_decode_and_advance() {
    let bytes = [0x00u8, 0x12, 0x00, 0x04, 0x11, 0x22, 0x33, 0x44, 0xff];
    let mut cursor = Cursor::new(&bytes);
    assert_eq!(i16::decode(&mut cursor), Ok(18));
    assert_eq!(cursor.position(), 2);
    assert_eq!(i16::decode(&mut cursor), Ok(4));
    assert_eq!(i32::decode(&mut cursor), Ok(0x1122_3344));
    assert_eq!(cursor.position(), 8);
    assert_eq!(cursor.remaining(), 1);
    assert_eq!(i8::decode(&mut cursor), Ok(-1));
    assert!(!cursor.has_remaining());
}

#[test]
fn integer_round_trips() {
    for n in [i64::MIN, -1, 0, 1, i64::MAX] {
        let bytes = n.encode();
        let mut cursor = Cursor::new(&bytes);
        assert_eq!(i64::decode(&mut cursor), Ok(n));
    }
    for n in [i128::MIN, -1, 0, 1, i128::MAX] {
        let bytes = n.encode();
        let mut cursor = Cursor::new(&bytes);
        assert_eq!(i128::decode(&mut cursor), Ok(n));
    }
    for n in [0u16, 1, 0x8000, u16::MAX] {
        let bytes = n.encode();
        let mut cursor = Cursor::new(&bytes);
        assert_eq!(u16::decode(&mut cursor), Ok(n));
    }
    for n in [i8::MIN, -1, 0, i8::MAX] {
        let bytes = n.encode();
        let mut cursor = Cursor::new(&bytes);
        assert_eq!(i8::decode(&mut cursor), Ok(n));
    }
    for n in [i32::MIN, -2, 0, i32::MAX] {
        let bytes = n.encode();
        let mut cursor = Cursor::new(&bytes);
        assert_eq!(i32::decode(&mut cursor), Ok(n));
    }
    let bytes = u128::MAX.encode();
    let mut cursor = Cursor::new(&bytes);
    assert_eq!(u128::decode(&mut cursor), Ok(u128::MAX));
    let bytes = 0xdead_beefu32.encode();
    let mut cursor = Cursor::new(&bytes);
    assert_eq!(u32::decode(&mut cursor), Ok(0xdead_beef));
    let bytes = 0xdead_beef_0000_0001u64.encode();
    let mut cursor = Cursor::new(&bytes);
    assert_eq!(u64::decode(&mut cursor), Ok(0xdead_beef_0000_0001));
}

#[test]
fn short_integer_is_incomplete_and_leaves_the_cursor() {
    let bytes = [0x01u8, 0x02, 0x03];
    let mut cursor = Cursor::new(&bytes);
    assert_eq!(i32::decode(&mut cursor), Err(DecodeError::Incomplete));
    assert_eq!(cursor.position(), 0);
    assert_eq!(u16::decode(&mut cursor), Ok(0x0102));
    assert_eq!(u16::decode(&mut cursor), Err(DecodeError::Incomplete));
    assert_eq!(cursor.position(), 2);
}

#[test]
fn bool_bytes() {
    assert_eq!(true.encode(), vec![0x01]);
    assert_eq!(false.encode(), vec![0x00]);
    let bytes = [0x00u8, 0x01, 0x02];
    let mut cursor = Cursor::new(&bytes);
    assert_eq!(bool::decode(&mut cursor), Ok(false));
    assert_eq!(bool::decode(&mut cursor), Ok(true));
    assert_eq!(
        bool::decode(&mut cursor),
        Err(DecodeError::Other(Fault::InvalidBool(2)))
    );
    assert_eq!(bool::decode(&mut cursor), Err(DecodeError::Incomplete));
}

#[test]
fn uuid_is_sixteen_raw_bytes() {
    let raw: [u8; 16] = [
        0xa1, 0xa2, 0xa3, 0xa4, 0xb1, 0xb2, 0xc1, 0xc2, 0xd1, 0xd2, 0xd3, 0xd4, 0xd5, 0xd6, 0xd7,
        0xd8,
    ];
    let id = Uuid::from_bytes(raw);
    assert_eq!(id.encode(), raw.to_vec());
    let mut cursor = Cursor::new(&raw);
    assert_eq!(Uuid::decode(&mut cursor), Ok(id));
    assert_eq!(cursor.position(), 16);
    assert_eq!(Uuid::nil().encode(), vec![0u8; 16]);
}

#[test]
fn short_uuid_is_incomplete() {
    let raw = [0u8; 15];
    let mut cursor = Cursor::new(&raw);
    assert_eq!(Uuid::decode(&mut cursor), Err(DecodeError::Incomplete));
}

#[test]
fn cursor_positions() {
    let bytes = [1u8, 2, 3, 4, 5];
    let mut cursor = Cursor::new(&bytes);
    assert_eq!(cursor.position(), 0);
    assert_eq!(cursor.remaining(), 5);
    assert_eq!(cursor.read_exact(2), Ok(vec![1, 2]));
    assert_eq!(cursor.position(), 2);
    assert_eq!(cursor.read_exact(4), Err(DecodeError::Incomplete));
    assert_eq!(cursor.position(), 2);
    cursor.set_position(4);
    assert_eq!(cursor.get_be(1), Ok(5));
    assert!(!cursor.has_remaining());
    cursor.set_position(1);
    assert_eq!(cursor.get_be(3), Ok(0x020304));
    assert_eq!(cursor.read_exact(0), Ok(vec![]));
}
