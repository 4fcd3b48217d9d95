use codecrafters_kafka::common_struct::{Array, CompactArray, CompactString, TagBuffer};
use codecrafters_kafka::cursor::Cursor;
use codecrafters_kafka::decode::{Decode, DecodeError, Fault};
use codecrafters_kafka::describe_topic_partitions::RepicaNode;
use codecrafters_kafka::encode::Encode;
use codecrafters_kafka::record::{
    read_record_batches, CompactRecords, Directory, FeatureLevelRecord, MetadataAttributes,
    ParitionRecord, Record, RecordBatch, RecordHeader, RecordKey, RecordType, RecordValue,
    TopicRecord,
};
use codecrafters_kafka::varint::{VarInt, VarLong};
use uuid::Uuid;

fn topic_id() -> Uuid {
    Uuid::from_bytes([
        0x00, 0x00, 0x00, 0x00, 0x00, 0x00, 0x40, 0x00, 0x80, 0x00, 0x00, 0x00, 0x00, 0x00, 0x00,
        0x91,
    ])
}

fn topic_record(name: &str) -> TopicRecord {
    TopicRecord {
        frame_version: 1,
        record_type: 2,
        version: 0,
        name: CompactString::new(name.to_string()),
        id: topic_id(),
        tag_buffers: TagBuffer::default(),
    }
}

fn nodes(ids: &[i32]) -> CompactArray<RepicaNode> {
    CompactArray::new(Some(ids.iter().map(|id| RepicaNode::new(*id)).collect()))
}

fn partition_record(partition: i32) -> ParitionRecord {
    ParitionRecord {
        frame_version: 1,
        record_type: 3,
        version: 1,
        parition_id: partition,
        topic_id: topic_id(),
        replica_nodes: nodes(&[1]),
        isr_nodes: nodes(&[1]),
        removing_replicas_nodes: nodes(&[]),
        adding_replicas_nodes: nodes(&[]),
        leader_id: 1,
        leader_epoch: 0,
        partition_epoch: 0,
        directories: CompactArray::new(Some(vec![Directory { id: topic_id() }])),
        tag_buffers: TagBuffer::default(),
    }
}

fn record(value: RecordValue) -> Record {
    Record {
        length: VarInt::from_i64(30),
        attributes: 0,
        timestamp_delta: VarLong::from_i128(0),
        offset_delta: VarInt::from_i64(0),
        key: RecordKey::new(None),
        value,
        headers_array_count: CompactArray::new(None),
    }
}

fn batch(base_offset: i64, records: Vec<Record>) -> RecordBatch {
    RecordBatch {
        base_offset,
        batch_length: 79,
        partition_leader_epoch: 1,
        magic_byte: 2,
        crc: -1335278212,
        attributes: MetadataAttributes::from_bits(0).unwrap(),
        last_offset_data: 0,
        base_timestamp: 1726045943832,
        max_timestamp: 1726045943832,
        producer_id: -1,
        producer_epoch: -1,
        base_sequence: -1,
        records: Array::new(Some(records)),
    }
}

#[test]
fn record_type_bytes() {
    assert_eq!(RecordType::TOPIC_RECORD, 0x02);
    assert_eq!(RecordType::PARITION_RECORD, 0x03);
    assert_eq!(RecordType::FEATURE_LEVEL_RECORD, 0x0c);
}

#[test]
fn metadata_attributes_bits() {
    assert_eq!(MetadataAttributes::from_bits(0x7f).unwrap().bits(), 0x7f);
    assert_eq!(MetadataAttributes::from_bits(0x80), None);
    assert_eq!(MetadataAttributes::from_bits_retain(0x80).bits(), 0x80);
    assert_eq!(MetadataAttributes::KNOWN_BITS, 0x7f);
    assert_eq!(
        MetadataAttributes::KNOWN_BITS,
        MetadataAttributes::GZIP
            | MetadataAttributes::SNAPPY
            | MetadataAttributes::LZ4
            | MetadataAttributes::ZSTD
            | MetadataAttributes::TIMESTAMP_TYPE
            | MetadataAttributes::IS_TRANSACTIONAL
            | MetadataAttributes::IS_CONTROL_BATCH
            | MetadataAttributes::HAS_DELETE_HORIZON_MS
    );
    assert_eq!(MetadataAttributes::IS_CONTROL_BATCH, 0x20);
    let flags = MetadataAttributes::from_bits(0x24).unwrap();
    assert_eq!(flags.encode(), vec![0x00, 0x24]);
    let mut cursor = Cursor::new(&[0x00u8, 0x24]);
    assert_eq!(MetadataAttributes::decode(&mut cursor), Ok(flags));
}

#[test]
fn metadata_attributes_unknown_bits_are_fatal() {
    let mut cursor = Cursor::new(&[0x01u8, 0x00]);
    assert_eq!(
        MetadataAttributes::decode(&mut cursor),
        Err(DecodeError::Other(Fault::UnknownBits(0x100)))
    );
    let mut cursor = Cursor::new(&[0x00u8]);
    assert_eq!(MetadataAttributes::decode(&mut cursor), Err(DecodeError::Incomplete));
}

#[test]
fn record_key_bytes() {
    assert_eq!(RecordKey::new(None).encode(), vec![0x01]);
    assert_eq!(RecordKey::new(Some(vec![])).encode(), vec![0x00]);
    assert_eq!(RecordKey::new(Some(vec![9, 8, 7])).encode(), vec![0x06, 9, 8, 7]);
    for v in [None, Some(vec![]), Some(vec![9u8, 8, 7])] {
        let key = RecordKey::new(v.clone());
        let bytes = key.encode();
        let mut cursor = Cursor::new(&bytes);
        assert_eq!(RecordKey::decode(&mut cursor), Ok(key.clone()));
        assert_eq!(key.get_inner(), &v);
    }
    let mut cursor = Cursor::new(&[0x06u8, 9]);
    assert_eq!(RecordKey::decode(&mut cursor), Err(DecodeError::Incomplete));
}

#[test]
fn topic_record_bytes() {
    let r = topic_record("bar");
    let mut expected = vec![0x01, 0x02, 0x00, 0x04, 0x62, 0x61, 0x72];
    expected.extend_from_slice(topic_id().as_bytes());
    expected.push(0x00);
    assert_eq!(r.encode(), expected);
    let mut cursor = Cursor::new(&expected);
    assert_eq!(TopicRecord::decode(&mut cursor), Ok(r));
}

#[test]
fn record_value_topic_round_trip() {
    let v = RecordValue::Topic(topic_record("bar"));
    let bytes = v.encode();
    // 24 bytes of record behind the zig-zag length 48
    assert_eq!(bytes[0], 0x30);
    assert_eq!(bytes.len(), 25);
    let mut cursor = Cursor::new(&bytes);
    assert_eq!(RecordValue::decode(&mut cursor), Ok(v.clone()));
    assert_eq!(cursor.position(), 25);
    assert!(!v.is_unknown());
}

#[test]
fn record_value_partition_and_feature_round_trip() {
    let p = RecordValue::Partition(partition_record(1));
    let bytes = p.encode();
    let mut cursor = Cursor::new(&bytes);
    assert_eq!(RecordValue::decode(&mut cursor), Ok(p));
    assert_eq!(cursor.position(), bytes.len());
    let f = RecordValue::FeatureLevel(FeatureLevelRecord {
        frame_version: 1,
        record_type: 12,
        version: 0,
        name: CompactString::new("metadata.version".to_string()),
        feature_level: 20,
        tag_buffers: TagBuffer::default(),
    });
    let bytes = f.encode();
    assert_eq!(
        bytes,
        vec![
            0x2e, 0x01, 0x0c, 0x00, 0x11, 0x6d, 0x65, 0x74, 0x61, 0x64, 0x61, 0x74, 0x61, 0x2e,
            0x76, 0x65, 0x72, 0x73, 0x69, 0x6f, 0x6e, 0x00, 0x14, 0x00
        ]
    );
    let mut cursor = Cursor::new(&bytes);
    assert_eq!(RecordValue::decode(&mut cursor), Ok(f));
}

#[test]
fn record_value_of_unknown_type_is_kept_raw() {
    let raw = vec![0x01u8, 0x15, 0xde, 0xad, 0xbe, 0xef];
    let mut bytes = vec![0x0c];
    bytes.extend_from_slice(&raw);
    bytes.push(0x77);
    let mut cursor = Cursor::new(&bytes);
    let v = RecordValue::decode(&mut cursor).unwrap();
    assert_eq!(v, RecordValue::Unknown(raw.clone()));
    assert!(v.is_unknown());
    assert_eq!(cursor.position(), 7);
    assert_eq!(v.encode(), bytes[..7].to_vec());
}

#[test]
fn record_value_unknown_with_negative_length_is_fatal() {
    let mut cursor = Cursor::new(&[0x01u8, 0x01, 0x15]);
    assert_eq!(
        RecordValue::decode(&mut cursor),
        Err(DecodeError::Other(Fault::NegativeLength))
    );
}

#[test]
fn record_value_short_is_incomplete() {
    let mut cursor = Cursor::new(&[0x0cu8, 0x01]);
    assert_eq!(RecordValue::decode(&mut cursor), Err(DecodeError::Incomplete));
    let mut cursor = Cursor::new(&[0x0cu8, 0x01, 0x15, 0xde]);
    assert_eq!(RecordValue::decode(&mut cursor), Err(DecodeError::Incomplete));
    let full = RecordValue::Topic(topic_record("bar")).encode();
    let mut cursor = Cursor::new(&full[..10]);
    assert_eq!(RecordValue::decode(&mut cursor), Err(DecodeError::Incomplete));
}

#[test]
fn record_round_trip() {
    let mut r = record(RecordValue::Topic(topic_record("bar")));
    r.key = RecordKey::new(Some(vec![1, 2]));
    r.headers_array_count = CompactArray::new(Some(vec![RecordHeader {
        key: CompactString::new("k".to_string()),
        value: CompactArray::new(Some(vec![5, 6])),
    }]));
    let bytes = r.encode();
    let mut cursor = Cursor::new(&bytes);
    assert_eq!(Record::decode(&mut cursor), Ok(r.clone()));
    assert_eq!(cursor.position(), bytes.len());
    assert_eq!(r.get_value(), &RecordValue::Topic(topic_record("bar")));
}

#[test]
fn record_batch_header_bytes() {
    let b = batch(1, vec![]);
    let bytes = b.encode();
    let mut expected = Vec::new();
    expected.extend_from_slice(&1i64.to_be_bytes());
    expected.extend_from_slice(&79i32.to_be_bytes());
    expected.extend_from_slice(&1i32.to_be_bytes());
    expected.push(2);
    expected.extend_from_slice(&(-1335278212i32).to_be_bytes());
    expected.extend_from_slice(&0u16.to_be_bytes());
    expected.extend_from_slice(&0i32.to_be_bytes());
    expected.extend_from_slice(&1726045943832i64.to_be_bytes());
    expected.extend_from_slice(&1726045943832i64.to_be_bytes());
    expected.extend_from_slice(&(-1i64).to_be_bytes());
    expected.extend_from_slice(&(-1i16).to_be_bytes());
    expected.extend_from_slice(&(-1i32).to_be_bytes());
    expected.extend_from_slice(&0i32.to_be_bytes());
    assert_eq!(bytes, expected);
    assert_eq!(bytes.len(), 61);
}

#[test]
fn record_batch_round_trip() {
    let b = batch(
        7,
        vec![
            record(RecordValue::Topic(topic_record("bar"))),
            record(RecordValue::Partition(partition_record(0))),
            record(RecordValue::Unknown(vec![0x01, 0x15, 0x00])),
        ],
    );
    let bytes = b.encode();
    let mut cursor = Cursor::new(&bytes);
    let back = RecordBatch::decode(&mut cursor).unwrap();
    assert_eq!(back, b);
    assert_eq!(back.encode(), bytes);
    assert_eq!(back.get_records(), &b.records);
}

#[test]
fn record_batches_fill_a_log() {
    let first = batch(0, vec![record(RecordValue::Topic(topic_record("bar")))]);
    let second = batch(1, vec![]);
    let mut content = first.encode();
    content.extend_from_slice(&second.encode());
    assert_eq!(read_record_batches(&content), Ok(vec![first.clone(), second]));
    assert_eq!(read_record_batches(&[]), Ok(vec![]));
    // a log that stops in the middle of a batch gives nothing
    assert_eq!(
        read_record_batches(&content[..content.len() - 1]),
        Err(DecodeError::Incomplete)
    );
    let mut broken = first.encode();
    broken[21] = 0xff;
    assert_eq!(
        read_record_batches(&broken),
        Err(DecodeError::Other(Fault::UnknownBits(0xff00)))
    );
}

#[test]
fn compact_records_are_prefixed_by_their_bytes() {
    assert_eq!(CompactRecords::new(None).encode(), vec![0x00]);
    assert_eq!(CompactRecords::empty().encode(), vec![0x01]);
    assert_eq!(CompactRecords::default(), CompactRecords::new(None));
    let a = batch(0, vec![]);
    let b = batch(1, vec![record(RecordValue::Topic(topic_record("bar")))]);
    let records = CompactRecords::new(Some(vec![a.clone(), b.clone()]));
    let bytes = records.encode();
    let body = [a.encode(), b.encode()].concat();
    let mut expected = VarInt::from_u64(body.len() as u64 + 1).into_bytes();
    expected.extend_from_slice(&body);
    assert_eq!(bytes, expected);
    let mut cursor = Cursor::new(&bytes);
    assert_eq!(CompactRecords::decode(&mut cursor), Ok(records.clone()));
    assert_eq!(cursor.position(), bytes.len());
    assert_eq!(records.get_inner(), &Some(vec![a, b]));
}

#[test]
fn compact_records_null_and_empty_differ() {
    let mut cursor = Cursor::new(&[0x00u8]);
    assert_eq!(CompactRecords::decode(&mut cursor), Ok(CompactRecords::new(None)));
    let mut cursor = Cursor::new(&[0x01u8]);
    assert_eq!(CompactRecords::decode(&mut cursor), Ok(CompactRecords::empty()));
    let mut cursor = Cursor::new(&[0x05u8, 0x00]);
    assert_eq!(CompactRecords::decode(&mut cursor), Err(DecodeError::Incomplete));
}
