use codecrafters_kafka::cursor::Cursor;
use codecrafters_kafka::decode::{Decode, DecodeError};
use codecrafters_kafka::encode::Encode;
use codecrafters_kafka::varint::{
    zigzag_decode_128bit, zigzag_decode_64bit, zigzag_encode_128bit, zigzag_encode_64bit, VarInt,
    VarLong,
};

#[test]
fn varint_from_u64_150() {
    assert_eq!(VarInt::from_u64(150), VarInt::new(vec![0x96, 0x01]));
}

#[test]
fn varint_from_i64_minus_one() {
    assert_eq!(VarInt::from_i64(-1).into_bytes(), vec![0x01]);
    assert_eq!(VarInt::from_i64(-1).as_u64(), 1);
    assert_eq!(VarInt::from_i64(-1).as_i64(), -1);
}

#[test]
fn varint_decode_130() {
    assert_eq!(VarInt::new(vec![0x82, 0x01]).as_u64(), 130);
    assert_eq!(VarInt::new(vec![0x82, 0x01]).as_i64(), 65);
}

#[test]
fn varint_small_values_take_one_byte() {
    assert_eq!(VarInt::from_u64(0).into_bytes(), vec![0x00]);
    assert_eq!(VarInt::from_u64(1).into_bytes(), vec![0x01]);
    assert_eq!(VarInt::from_u64(127).into_bytes(), vec![0x7f]);
    assert_eq!(VarInt::from_u64(128).into_bytes(), vec![0x80, 0x01]);
    assert_eq!(VarInt::from_u64(300).into_bytes(), vec![0xac, 0x02]);
}

#[test]
fn varint_largest_u64_takes_ten_bytes() {
    let v = VarInt::from_u64(u64::MAX);
    assert_eq!(
        v.as_bytes(),
        &vec![0xff, 0xff, 0xff, 0xff, 0xff, 0xff, 0xff, 0xff, 0xff, 0x01]
    );
    assert_eq!(v.as_u64(), u64::MAX);
}

#[test]
fn varint_unsigned_round_trip() {
    for n in [0u64, 1, 2, 127, 128, 129, 16383, 16384, 1 << 32, u64::MAX - 1, u64::MAX] {
        assert_eq!(VarInt::from_u64(n).as_u64(), n);
    }
}

#[test]
fn varint_signed_round_trip() {
    for n in [0i64, 1, -1, 2, -2, 63, -64, 64, -65, 8191, -8192, i64::MAX, i64::MIN] {
        assert_eq!(VarInt::from_i64(n).as_i64(), n);
    }
}

#[test]
fn zigzag_64_values() {
    assert_eq!(zigzag_encode_64bit(0), 0);
    assert_eq!(zigzag_encode_64bit(-1), 1);
    assert_eq!(zigzag_encode_64bit(1), 2);
    assert_eq!(zigzag_encode_64bit(-2), 3);
    assert_eq!(zigzag_encode_64bit(i64::MAX), u64::MAX - 1);
    assert_eq!(zigzag_encode_64bit(i64::MIN), u64::MAX);
    assert_eq!(zigzag_decode_64bit(0), 0);
    assert_eq!(zigzag_decode_64bit(1), -1);
    assert_eq!(zigzag_decode_64bit(2), 1);
    assert_eq!(zigzag_decode_64bit(3), -2);
    assert_eq!(zigzag_decode_64bit(u64::MAX), i64::MIN);
    assert_eq!(zigzag_decode_64bit(u64::MAX - 1), i64::MAX);
}

#[test]
fn zigzag_64_agrees_with_the_shift_formula() {
    for n in [0i64, 1, -1, 5, -5, 1000, -1000, i64::MAX, i64::MIN] {
        assert_eq!(zigzag_encode_64bit(n), ((n << 1) ^ (n >> 63)) as u64);
        let u = zigzag_encode_64bit(n);
        assert_eq!(zigzag_decode_64bit(u), ((u >> 1) as i64) ^ (-((u & 0x01) as i64)));
    }
}

#[test]
fn zigzag_128_values() {
    assert_eq!(zigzag_encode_128bit(0), 0);
    assert_eq!(zigzag_encode_128bit(-1), 1);
    assert_eq!(zigzag_encode_128bit(1), 2);
    assert_eq!(zigzag_encode_128bit(i128::MIN), u128::MAX);
    assert_eq!(zigzag_decode_128bit(u128::MAX), i128::MIN);
    assert_eq!(zigzag_decode_128bit(3), -2);
    for n in [0i128, 7, -7, i128::MAX, i128::MIN] {
        assert_eq!(zigzag_decode_128bit(zigzag_encode_128bit(n)), n);
    }
}

#[test]
fn signed_varint_length_by_binary_digits() {
    // one byte for every seven binary digits of the zig-zag image
    assert_eq!(VarInt::from_i64(0).into_bytes().len(), 1);
    assert_eq!(VarInt::from_i64(63).into_bytes().len(), 1);
    assert_eq!(VarInt::from_i64(64).into_bytes().len(), 2);
    assert_eq!(VarInt::from_i64(-64).into_bytes().len(), 1);
    assert_eq!(VarInt::from_i64(-65).into_bytes().len(), 2);
    assert_eq!(VarInt::from_i64(8191).into_bytes().len(), 2);
    assert_eq!(VarInt::from_i64(-8192).into_bytes().len(), 2);
    assert_eq!(VarInt::from_i64(8192).into_bytes().len(), 3);
    assert_eq!(VarInt::from_i64(i64::MIN).into_bytes().len(), 10);
    assert_eq!(VarInt::from_i64(i64::MAX).into_bytes().len(), 10);
}

#[test]
fn varlong_values() {
    assert_eq!(VarLong::from_u128(150), VarLong::new(vec![0x96, 0x01]));
    assert_eq!(VarLong::from_i128(-1).into_bytes(), vec![0x01]);
    assert_eq!(VarLong::new(vec![0x82, 0x01]).as_u128(), 130);
    assert_eq!(VarLong::new(vec![0x82, 0x01]).as_i128(), 65);
    assert_eq!(VarLong::from_u128(u128::MAX).as_u128(), u128::MAX);
    assert_eq!(VarLong::from_u128(u128::MAX).into_bytes().len(), 19);
    assert_eq!(VarLong::from_i128(i128::MIN).as_i128(), i128::MIN);
    assert_eq!(VarLong::from_u128(5).as_bytes(), &vec![0x05]);
}

#[test]
fn varint_keeps_only_the_low_64_bits() {
    // eleven groups: the eleventh lies beyond 64 bits and is dropped
    let bytes = vec![0x81, 0x80, 0x80, 0x80, 0x80, 0x80, 0x80, 0x80, 0x80, 0x80, 0x01];
    assert_eq!(VarInt::new(bytes).as_u64(), 1);
}

#[test]
fn varint_decode_stops_at_the_first_clear_top_bit() {
    let bytes = [0x96u8, 0x01, 0x7f, 0x00];
    let mut cursor = Cursor::new(&bytes);
    let v = VarInt::decode(&mut cursor).unwrap();
    assert_eq!(v, VarInt::new(vec![0x96, 0x01]));
    assert_eq!(cursor.position(), 2);
    let w = VarInt::decode(&mut cursor).unwrap();
    assert_eq!(w.as_u64(), 127);
    assert_eq!(cursor.position(), 3);
}

#[test]
fn varint_decode_incomplete() {
    let bytes = [0x96u8, 0x81];
    let mut cursor = Cursor::new(&bytes);
    assert_eq!(VarInt::decode(&mut cursor), Err(DecodeError::Incomplete));
    let empty: [u8; 0] = [];
    let mut cursor = Cursor::new(&empty);
    assert_eq!(VarLong::decode(&mut cursor), Err(DecodeError::Incomplete));
}

#[test]
fn varint_encode_is_its_bytes() {
    assert_eq!(VarInt::from_u64(150).encode(), vec![0x96, 0x01]);
    assert_eq!(VarLong::from_u128(150).encode(), vec![0x96, 0x01]);
    // kept as they are, well formed or not
    assert_eq!(VarInt::new(vec![0x01, 0x02]).encode(), vec![0x01, 0x02]);
}
