use codecrafters_kafka::common_struct::{
    Array, CompactArray, CompactBytes, CompactNullableBytes, CompactNullableString, CompactString,
    KafkaBytes, KafkaString, NullableBytes, NullableString, TagBuffer, TagSection,
};
use codecrafters_kafka::cursor::Cursor;
use codecrafters_kafka::decode::{Decode, DecodeError, Fault};
use codecrafters_kafka::encode::Encode;

#[test]
fn kafka_string_bytes() {
    let s = KafkaString::new("myclient".to_string());
    assert_eq!(
        s.encode(),
        vec![0x00, 0x08, 0x6d, 0x79, 0x63, 0x6c, 0x69, 0x65, 0x6e, 0x74]
    );
    assert_eq!(KafkaString::new(String::new()).encode(), vec![0x00, 0x00]);
    assert_eq!(s.as_str(), "myclient");
    assert_eq!(s.get_inner(), &"myclient".to_string());
}

#[test]
fn kafka_string_round_trip() {
    for text in ["", "a", "myclient", "h\u{e9}llo \u{4e16}\u{754c} \u{1f600}"] {
        let s = KafkaString::new(text.to_string());
        let bytes = s.encode();
        let mut cursor = Cursor::new(&bytes);
        assert_eq!(KafkaString::decode(&mut cursor), Ok(s));
        assert_eq!(cursor.position(), bytes.len());
    }
}

#[test]
fn kafka_string_negative_length_is_fatal() {
    let bytes = [0xffu8, 0xff];
    let mut cursor = Cursor::new(&bytes);
    assert_eq!(
        KafkaString::decode(&mut cursor),
        Err(DecodeError::Other(Fault::NegativeLength))
    );
}

#[test]
fn string_invalid_utf8_is_fatal() {
    let bytes = [0x00u8, 0x02, 0xc3, 0x28];
    let mut cursor = Cursor::new(&bytes);
    assert_eq!(
        KafkaString::decode(&mut cursor),
        Err(DecodeError::Other(Fault::InvalidUtf8))
    );
    let bytes = [0x03u8, 0xff, 0xfe];
    let mut cursor = Cursor::new(&bytes);
    assert_eq!(
        CompactString::decode(&mut cursor),
        Err(DecodeError::Other(Fault::InvalidUtf8))
    );
    let mut cursor = Cursor::new(&bytes);
    assert_eq!(
        CompactNullableString::decode(&mut cursor),
        Err(DecodeError::Other(Fault::InvalidUtf8))
    );
    let bytes = [0x00u8, 0x01, 0x80];
    let mut cursor = Cursor::new(&bytes);
    assert_eq!(
        NullableString::decode(&mut cursor),
        Err(DecodeError::Other(Fault::InvalidUtf8))
    );
}

#[test]
fn string_short_payload_is_incomplete() {
    let bytes = [0x00u8, 0x08, 0x6d, 0x79];
    let mut cursor = Cursor::new(&bytes);
    assert_eq!(KafkaString::decode(&mut cursor), Err(DecodeError::Incomplete));
    let bytes = [0x09u8, 0x6d, 0x79];
    let mut cursor = Cursor::new(&bytes);
    assert_eq!(CompactString::decode(&mut cursor), Err(DecodeError::Incomplete));
    let bytes = [0x00u8];
    let mut cursor = Cursor::new(&bytes);
    assert_eq!(NullableString::decode(&mut cursor), Err(DecodeError::Incomplete));
}

#[test]
fn compact_string_bytes() {
    let s = CompactString::new("foo".to_string());
    assert_eq!(s.encode(), vec![0x04, 0x66, 0x6f, 0x6f]);
    let mut cursor = Cursor::new(&[0x04u8, 0x66, 0x6f, 0x6f, 0x99]);
    assert_eq!(CompactString::decode(&mut cursor), Ok(s));
    assert_eq!(cursor.position(), 4);
}

#[test]
fn compact_string_length_one_is_the_empty_string() {
    let bytes = [0x01u8];
    let mut cursor = Cursor::new(&bytes);
    assert_eq!(
        CompactString::decode(&mut cursor),
        Ok(CompactString::new(String::new()))
    );
    assert_eq!(CompactString::new(String::new()).encode(), vec![0x01]);
}

#[test]
fn compact_string_length_zero_is_fatal() {
    let bytes = [0x00u8, 0x00];
    let mut cursor = Cursor::new(&bytes);
    assert_eq!(
        CompactString::decode(&mut cursor),
        Err(DecodeError::Other(Fault::ZeroLength))
    );
    let mut cursor = Cursor::new(&bytes);
    assert_eq!(
        CompactBytes::decode(&mut cursor),
        Err(DecodeError::Other(Fault::ZeroLength))
    );
}

#[test]
fn compact_string_long_prefix() {
    let text = "x".repeat(200);
    let s = CompactString::new(text.clone());
    let bytes = s.encode();
    assert_eq!(&bytes[..2], &[0xc9, 0x01]);
    assert_eq!(bytes.len(), 202);
    let mut cursor = Cursor::new(&bytes);
    assert_eq!(CompactString::decode(&mut cursor), Ok(s));
}

#[test]
fn string_equality_by_text() {
    let a = CompactString::new("bar".to_string());
    let b = CompactString::new("bar".to_string());
    let c = CompactString::new("baz".to_string());
    assert!(a.same_text(&b));
    assert!(!a.same_text(&c));
    assert!(KafkaString::new("x".to_string()).same_text(&KafkaString::new("x".to_string())));
}

#[test]
fn nullable_string_bytes() {
    assert_eq!(NullableString::new(None).encode(), vec![0xff, 0xff]);
    assert_eq!(
        NullableString::new(Some("ab".to_string())).encode(),
        vec![0x00, 0x02, 0x61, 0x62]
    );
    assert_eq!(NullableString::new(Some(String::new())).encode(), vec![0x00, 0x00]);
    for v in [None, Some(String::new()), Some("ab".to_string())] {
        let s = NullableString::new(v);
        let bytes = s.encode();
        let mut cursor = Cursor::new(&bytes);
        assert_eq!(NullableString::decode(&mut cursor), Ok(s));
    }
    // any negative length is null
    let mut cursor = Cursor::new(&[0x80u8, 0x00]);
    assert_eq!(NullableString::decode(&mut cursor), Ok(NullableString::new(None)));
    assert_eq!(NullableString::new(None).get_inner(), &None);
}

#[test]
fn compact_nullable_string_bytes() {
    assert_eq!(CompactNullableString::new(None).encode(), vec![0x00]);
    assert_eq!(
        CompactNullableString::new(Some("ab".to_string())).encode(),
        vec![0x03, 0x61, 0x62]
    );
    for v in [None, Some(String::new()), Some("ab".to_string())] {
        let s = CompactNullableString::new(v);
        let bytes = s.encode();
        let mut cursor = Cursor::new(&bytes);
        assert_eq!(CompactNullableString::decode(&mut cursor), Ok(s));
    }
}

#[test]
fn kafka_bytes() {
    let b = KafkaBytes::new(vec![1, 2, 3]);
    assert_eq!(b.encode(), vec![0x00, 0x00, 0x00, 0x03, 1, 2, 3]);
    let bytes = b.encode();
    let mut cursor = Cursor::new(&bytes);
    assert_eq!(KafkaBytes::decode(&mut cursor), Ok(b));
    let mut cursor = Cursor::new(&[0xffu8, 0xff, 0xff, 0xff]);
    assert_eq!(
        KafkaBytes::decode(&mut cursor),
        Err(DecodeError::Other(Fault::NegativeLength))
    );
    let mut cursor = Cursor::new(&[0x00u8, 0x00, 0x00, 0x05, 1, 2]);
    assert_eq!(KafkaBytes::decode(&mut cursor), Err(DecodeError::Incomplete));
    assert_eq!(KafkaBytes::new(vec![9]).get_inner(), &vec![9u8]);
}

#[test]
fn compact_bytes() {
    let b = CompactBytes::new(vec![1, 2, 3]);
    assert_eq!(b.encode(), vec![0x04, 1, 2, 3]);
    let bytes = b.encode();
    let mut cursor = Cursor::new(&bytes);
    assert_eq!(CompactBytes::decode(&mut cursor), Ok(b));
    assert_eq!(CompactBytes::new(vec![]).encode(), vec![0x01]);
}

#[test]
fn nullable_bytes() {
    assert_eq!(NullableBytes::new(None).encode(), vec![0xff, 0xff, 0xff, 0xff]);
    assert_eq!(NullableBytes::new(Some(vec![])).encode(), vec![0, 0, 0, 0]);
    for v in [None, Some(vec![]), Some(vec![7u8, 8])] {
        let b = NullableBytes::new(v);
        let bytes = b.encode();
        let mut cursor = Cursor::new(&bytes);
        assert_eq!(NullableBytes::decode(&mut cursor), Ok(b));
    }
}

#[test]
fn compact_nullable_bytes() {
    assert_eq!(CompactNullableBytes::new(None).encode(), vec![0x00]);
    assert_eq!(CompactNullableBytes::new(Some(vec![])).encode(), vec![0x01]);
    assert_eq!(CompactNullableBytes::new(Some(vec![5, 6])).encode(), vec![0x03, 5, 6]);
    for v in [None, Some(vec![]), Some(vec![7u8, 8])] {
        let b = CompactNullableBytes::new(v);
        let bytes = b.encode();
        let mut cursor = Cursor::new(&bytes);
        assert_eq!(CompactNullableBytes::decode(&mut cursor), Ok(b));
    }
}

#[test]
fn null_array_and_empty_array_differ() {
    let null: Array<i32> = Array::new(None);
    let empty: Array<i32> = Array::empty();
    assert_eq!(null.encode(), vec![0xff, 0xff, 0xff, 0xff]);
    assert_eq!(empty.encode(), vec![0x00, 0x00, 0x00, 0x00]);
    let bytes = null.encode();
    let mut cursor = Cursor::new(&bytes);
    assert_eq!(Array::<i32>::decode(&mut cursor), Ok(Array::new(None)));
    let bytes = empty.encode();
    let mut cursor = Cursor::new(&bytes);
    assert_eq!(Array::<i32>::decode(&mut cursor), Ok(Array::new(Some(vec![]))));
    assert_ne!(null, empty);
    assert_eq!(Array::<i32>::default(), null);
}

#[test]
fn null_compact_array_and_empty_compact_array_differ() {
    let null: CompactArray<i32> = CompactArray::new(None);
    let empty: CompactArray<i32> = CompactArray::empty();
    assert_eq!(null.encode(), vec![0x00]);
    assert_eq!(empty.encode(), vec![0x01]);
    let mut cursor = Cursor::new(&[0x00u8]);
    assert_eq!(CompactArray::<i32>::decode(&mut cursor), Ok(CompactArray::new(None)));
    let mut cursor = Cursor::new(&[0x01u8]);
    assert_eq!(
        CompactArray::<i32>::decode(&mut cursor),
        Ok(CompactArray::new(Some(vec![])))
    );
    assert_eq!(CompactArray::<i32>::default(), null);
    assert_eq!(empty.get_inner(), &Some(vec![]));
}

#[test]
fn array_of_integers() {
    let a: Array<i16> = Array::new(Some(vec![1, -1, 300]));
    assert_eq!(
        a.encode(),
        vec![0x00, 0x00, 0x00, 0x03, 0x00, 0x01, 0xff, 0xff, 0x01, 0x2c]
    );
    let bytes = a.encode();
    let mut cursor = Cursor::new(&bytes);
    assert_eq!(Array::<i16>::decode(&mut cursor), Ok(a));
    assert_eq!(cursor.position(), 10);
}

#[test]
fn compact_array_of_strings() {
    let a: CompactArray<CompactString> = CompactArray::new(Some(vec![
        CompactString::new("a".to_string()),
        CompactString::new("bc".to_string()),
    ]));
    assert_eq!(a.encode(), vec![0x03, 0x02, 0x61, 0x03, 0x62, 0x63]);
    let bytes = a.encode();
    let mut cursor = Cursor::new(&bytes);
    assert_eq!(CompactArray::<CompactString>::decode(&mut cursor), Ok(a.clone()));
    assert_eq!(a.into_inner().unwrap().len(), 2);
}

#[test]
fn array_short_of_items_is_incomplete() {
    let mut cursor = Cursor::new(&[0x00u8, 0x00, 0x00, 0x02, 0x00, 0x01]);
    assert_eq!(Array::<i16>::decode(&mut cursor), Err(DecodeError::Incomplete));
    let mut cursor = Cursor::new(&[0x03u8, 0x00, 0x01, 0x00]);
    assert_eq!(CompactArray::<i16>::decode(&mut cursor), Err(DecodeError::Incomplete));
    // a huge count over a short buffer fails on the first missing item
    let mut cursor = Cursor::new(&[0x7fu8, 0xff, 0xff, 0xff]);
    assert_eq!(Array::<i64>::decode(&mut cursor), Err(DecodeError::Incomplete));
}

#[test]
fn array_item_fault_is_fatal() {
    let mut cursor = Cursor::new(&[0x03u8, 0x01, 0x07]);
    assert_eq!(
        CompactArray::<bool>::decode(&mut cursor),
        Err(DecodeError::Other(Fault::InvalidBool(7)))
    );
}

#[test]
fn tag_buffer_bytes() {
    assert_eq!(TagBuffer::default().encode(), vec![0x00]);
    let buffer = TagBuffer::new(CompactArray::new(Some(vec![
        TagSection::new(1, Some(vec![0xaa, 0xbb])),
        TagSection::new(2, None),
    ])));
    assert_eq!(buffer.encode(), vec![0x03, 0x01, 0x03, 0xaa, 0xbb, 0x02, 0x00]);
    let bytes = buffer.encode();
    let mut cursor = Cursor::new(&bytes);
    assert_eq!(TagBuffer::decode(&mut cursor), Ok(buffer));
    let mut cursor = Cursor::new(&[0x00u8]);
    assert_eq!(TagBuffer::decode(&mut cursor), Ok(TagBuffer::default()));
    let empty = TagBuffer::new(CompactArray::empty());
    assert_eq!(empty.encode(), vec![0x01]);
}
