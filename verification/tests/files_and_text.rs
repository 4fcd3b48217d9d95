use codecrafters_kafka::api_versions::{ApiKey, ApiVersionsResponseBodyV4};
use codecrafters_kafka::common_struct::{
    Array, CompactArray, CompactString, KafkaBytes, KafkaString, NullableBytes, TagBuffer,
};
use codecrafters_kafka::decode::{DecodeError, Fault};
use codecrafters_kafka::encode::Encode;
use codecrafters_kafka::fetch::PartitionLog;
use codecrafters_kafka::log_files::{log_path, metadata_log_path, partition_log_path, push_decimal};
use codecrafters_kafka::request_message::request_api_versions;
use codecrafters_kafka::response_message::{ResponseBody, ResponseHeader, ResponseMessage};
use codecrafters_kafka::cursor::Cursor;
use codecrafters_kafka::utils::{
    display_bytes, peek_i16, peek_i32, peek_i64, peek_i8, peek_u16, peek_u32, peek_u64, peek_u8,
    push_hex, U32_SIZE,
};

#[test]
fn log_paths() {
    assert_eq!(
        partition_log_path("bar", 0),
        "/tmp/kraft-combined-logs/bar-0/00000000000000000000.log"
    );
    assert_eq!(
        partition_log_path("my.topic", 12),
        "/tmp/kraft-combined-logs/my.topic-12/00000000000000000000.log"
    );
    assert_eq!(
        partition_log_path("t", -1),
        "/tmp/kraft-combined-logs/t--1/00000000000000000000.log"
    );
    assert_eq!(
        metadata_log_path(),
        "/tmp/kraft-combined-logs/__cluster_metadata-0/00000000000000000000.log"
    );
    let log = PartitionLog {
        topic_name: CompactString::new("foo".to_string()),
        partition_index: 3,
    };
    assert_eq!(log_path(&log), "/tmp/kraft-combined-logs/foo-3/00000000000000000000.log");
}

#[test]
fn decimal_numbers() {
    for n in [0i32, 1, 9, 10, 11, 99, 100, 12345, -1, -10, i32::MAX, i32::MIN] {
        let mut text = String::from("n=");
        push_decimal(&mut text, n);
        assert_eq!(text, format!("n={}", n));
    }
}

#[test]
fn hexadecimal_numbers() {
    for n in [0usize, 1, 9, 10, 15, 16, 17, 255, 256, 0xdf8, 0xdead_beef] {
        let mut text = String::new();
        push_hex(&mut text, n);
        assert_eq!(text, format!("{:02x}", n));
    }
}

#[test]
fn dump_of_bytes() {
    assert_eq!(display_bytes(&[]), "   \n");
    assert_eq!(display_bytes(&[0x10, 0x01, 0x11]), "   00 01 02 \n00 10 01 11 \n");
    let sixteen: Vec<u8> = (0u8..16).collect();
    assert_eq!(
        display_bytes(&sixteen),
        "   00 01 02 03 04 05 06 07 08 09 0a 0b 0c 0d 0e 0f \n\
         00 00 01 02 03 04 05 06 07 08 09 0a 0b 0c 0d 0e 0f \n"
    );
    let seventeen: Vec<u8> = (0xf0u8..=0xff).chain(0u8..1).collect();
    assert_eq!(
        display_bytes(&seventeen),
        "   00 01 02 03 04 05 06 07 08 09 0a 0b 0c 0d 0e 0f \n\
         00 f0 f1 f2 f3 f4 f5 f6 f7 f8 f9 fa fb fc fd fe ff \n\
         10 00 \n"
    );
}

#[test]
fn dump_labels_rows_by_the_index_of_their_first_byte() {
    let bytes = vec![0xabu8; 16 * 17 + 1];
    let text = display_bytes(&bytes);
    let lines: Vec<&str> = text.lines().collect();
    assert_eq!(lines.len(), 19);
    assert!(lines[1].starts_with("00 ab "));
    assert!(lines[2].starts_with("10 ab "));
    assert!(lines[16].starts_with("f0 ab "));
    assert!(lines[17].starts_with("100 ab "));
    assert_eq!(lines[18], "110 ab ");
}

#[test]
fn errors_in_words() {
    assert_eq!(DecodeError::Incomplete.message(), "stream ended early");
    assert_eq!(
        DecodeError::Other(Fault::InvalidBool(7)).message(),
        "Found 7 when decoding bool"
    );
    assert_eq!(DecodeError::Other(Fault::InvalidUtf8).message(), "invalid utf-8 sequence");
    assert_eq!(
        DecodeError::Other(Fault::UnknownBits(0x8000)).message(),
        "flags contain unknown bits: 0x8000"
    );
    assert_eq!(
        DecodeError::Other(Fault::NegativeLength).message(),
        "length cannot be smaller than 0"
    );
    assert_eq!(
        DecodeError::Other(Fault::ZeroLength).message(),
        "length must be bigger than 0"
    );
    assert_eq!(
        DecodeError::Other(Fault::UnknownApiKey(-3)).message(),
        "Unknown request api key: -3"
    );
}

#[test]
fn values_that_have_a_wire_form() {
    assert!(KafkaString::new("x".repeat(0x7fff)).is_encodable());
    assert!(!KafkaString::new("x".repeat(0x8000)).is_encodable());
    assert!(CompactString::new("x".repeat(0x8000)).is_encodable());
    assert!(KafkaBytes::new(vec![1, 2, 3]).is_encodable());
    assert!(NullableBytes::new(None).is_encodable());
    assert!(5i32.is_encodable());
    let strings: Array<KafkaString> = Array::new(Some(vec![
        KafkaString::new("a".to_string()),
        KafkaString::new("x".repeat(0x8000)),
    ]));
    assert!(!strings.is_encodable());
    let strings: CompactArray<KafkaString> =
        CompactArray::new(Some(vec![KafkaString::new("a".to_string())]));
    assert!(strings.is_encodable());
    assert!(TagBuffer::default().is_encodable());
}

#[test]
fn framing_only_what_can_be_framed() {
    let mut request = request_api_versions(4);
    let bytes = request.try_as_bytes().unwrap();
    assert_eq!(bytes.len(), 37);
    assert_eq!(request.message_size, 33);
    let mut response = ResponseMessage::new(
        ResponseHeader::new_v0(1),
        ResponseBody::ApiVersionsV4(ApiVersionsResponseBodyV4::new(
            0,
            CompactArray::new(Some(vec![ApiKey::new(1, 0, 16, TagBuffer::default())])),
            0,
            TagBuffer::default(),
        )),
    );
    let framed = response.try_as_bytes().unwrap();
    assert_eq!(framed[..4], [0, 0, 0, 19]);
    assert_eq!(response.try_as_bytes(), Some(framed));
}

#[test]
fn looking_ahead_leaves_the_cursor() {
    let bytes = [0xffu8, 0x02, 0x03, 0x04, 0x05, 0x06, 0x07, 0x08];
    let mut cursor = Cursor::new(&bytes);
    assert_eq!(peek_u8(&mut cursor), 0xff);
    assert_eq!(peek_i8(&mut cursor), -1);
    assert_eq!(peek_u16(&mut cursor), 0xff02);
    assert_eq!(peek_i16(&mut cursor), -254);
    assert_eq!(peek_u32(&mut cursor), 0xff02_0304);
    assert_eq!(peek_i32(&mut cursor), 0xff02_0304u32 as i32);
    assert_eq!(peek_u64(&mut cursor), 0xff02_0304_0506_0708);
    assert_eq!(peek_i64(&mut cursor), 0xff02_0304_0506_0708u64 as i64);
    assert_eq!(cursor.position(), 0);
    cursor.set_position(6);
    assert_eq!(peek_u16(&mut cursor), 0x0708);
    assert_eq!(cursor.position(), 6);
    assert_eq!(U32_SIZE, 4);
}
