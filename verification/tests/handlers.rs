use codecrafters_kafka::api_versions::{
    api_versions_api_info, describe_topic_partitions_api_info, execute_api_verions,
    fetch_api_info, supported_apis, unsupported_version_response, ApiKey,
    ApiVersionsReqeustBodyV4, ApiVersionsResponseBodyV4, UNSUPPORTED_VERSION_ERROR,
};
use codecrafters_kafka::common_struct::{Array, CompactArray, CompactString, KafkaString, TagBuffer};
use codecrafters_kafka::decode::{DecodeError, Fault};
use codecrafters_kafka::describe_topic_partitions::{
    execute_describe_topic_partitions, DescribeTopicPartitionsRequestBodyV0,
    DescribeTopicPartitionsResponseBodyV0, OptionTopicCursor, RepicaNode,
    TopicAuthorizedOperations, TopicPartition, TopicRequest, TopicResponse,
    UNKNOWN_TOPIC_OR_PARTITION,
};
use codecrafters_kafka::encode::Encode;
use codecrafters_kafka::fetch::{
    decode_logs, execute_fetch, fetch_log_requests, FetchPartitionRequest,
    FetchPartitionResponse, FetchRequestBodyV16, FetchResponseBodyV16, FetchTopicRequest,
    FetchTopicResponse, PartitionLog, INVALID_FETCH_SIZE_ERROR, UNKNOWN_TOPIC_ID_ERROR,
};
use codecrafters_kafka::metadata_log::{
    init_internel_states, init_read_metadata_log, MetadataLog, TopicIndex,
};
use codecrafters_kafka::record::{
    Directory, MetadataAttributes, ParitionRecord, Record, RecordBatch, RecordKey, RecordValue,
    TopicRecord,
};
use codecrafters_kafka::request_message::{
    RequestBody, RequestHeader, RequestHeaderV2, RequestMessage,
};
use codecrafters_kafka::response_message::{
    execute_request, request_log_requests, RequestError, ResponseBody, ResponseHeader,
    ResponseHeaderV0, ResponseHeaderV1, ResponseMessage,
};
use codecrafters_kafka::varint::{VarInt, VarLong};
use uuid::Uuid;

fn header(key: i16, version: i16, correlation_id: i32) -> RequestHeaderV2 {
    RequestHeaderV2::new(
        key,
        version,
        correlation_id,
        KafkaString::new("myclient".to_string()),
        TagBuffer::default(),
    )
}

fn api_versions_body() -> ApiVersionsReqeustBodyV4 {
    ApiVersionsReqeustBodyV4 {
        client_id: CompactString::new("myclient".to_string()),
        client_software_version: CompactString::new("0.1".to_string()),
        tag_buffer: TagBuffer::default(),
    }
}

fn bar_id() -> Uuid {
    Uuid::from_u128(0x0000_0000_0000_4000_8000_0000_0000_0091)
}

fn nodes(ids: &[i32]) -> CompactArray<RepicaNode> {
    CompactArray::new(Some(ids.iter().map(|id| RepicaNode::new(*id)).collect()))
}

fn record(value: RecordValue) -> Record {
    Record {
        length: VarInt::from_i64(30),
        attributes: 0,
        timestamp_delta: VarLong::from_i128(0),
        offset_delta: VarInt::from_i64(0),
        key: RecordKey::new(None),
        value,
        headers_array_count: CompactArray::new(None),
    }
}

fn topic(name: &str, id: Uuid) -> Record {
    record(RecordValue::Topic(TopicRecord {
        frame_version: 1,
        record_type: 2,
        version: 0,
        name: CompactString::new(name.to_string()),
        id,
        tag_buffers: TagBuffer::default(),
    }))
}

fn partition(id: Uuid, index: i32, leader_epoch: i32) -> Record {
    record(RecordValue::Partition(ParitionRecord {
        frame_version: 1,
        record_type: 3,
        version: 1,
        parition_id: index,
        topic_id: id,
        replica_nodes: nodes(&[1]),
        isr_nodes: nodes(&[1]),
        removing_replicas_nodes: nodes(&[]),
        adding_replicas_nodes: nodes(&[]),
        leader_id: 1,
        leader_epoch,
        partition_epoch: 0,
        directories: CompactArray::new(Some(vec![Directory { id }])),
        tag_buffers: TagBuffer::default(),
    }))
}

fn batch(base_offset: i64, records: Vec<Record>) -> RecordBatch {
    RecordBatch {
        base_offset,
        batch_length: 0,
        partition_leader_epoch: 1,
        magic_byte: 2,
        crc: 0,
        attributes: MetadataAttributes::from_bits(0).unwrap(),
        last_offset_data: 0,
        base_timestamp: 0,
        max_timestamp: 0,
        producer_id: -1,
        producer_epoch: -1,
        base_sequence: -1,
        records: Array::new(Some(records)),
    }
}

fn bar_log() -> Vec<RecordBatch> {
    vec![
        batch(10, vec![record(RecordValue::Unknown(vec![0x01, 0x15, 0x00]))]),
        batch(
            11,
            vec![
                topic("bar", bar_id()),
                partition(bar_id(), 0, 3),
                partition(bar_id(), 1, 4),
            ],
        ),
    ]
}

fn bar_index() -> TopicIndex {
    init_internel_states(&MetadataLog::new(bar_log()))
}

fn bar_partition(index: i32, leader_epoch: i32) -> TopicPartition {
    TopicPartition {
        error_code: 0,
        index,
        leader_id: 1,
        leader_epoch,
        repica_nodes: nodes(&[1]),
        isr_nodes: nodes(&[1]),
        eligible_leader_replicas: CompactArray::empty(),
        last_known_elr: CompactArray::empty(),
        offline_replicas: CompactArray::empty(),
        tag_buffer: TagBuffer::default(),
    }
}

fn describe_body(names: &[&str]) -> DescribeTopicPartitionsRequestBodyV0 {
    DescribeTopicPartitionsRequestBodyV0 {
        topics: CompactArray::new(Some(
            names
                .iter()
                .map(|name| TopicRequest {
                    name: CompactString::new(name.to_string()),
                    tag_buffer: TagBuffer::default(),
                })
                .collect(),
        )),
        response_partition_limit: 100,
        cursor: OptionTopicCursor::new(None),
        tag_buffer: TagBuffer::default(),
    }
}

fn fetch_body(topics: Vec<(Uuid, Vec<i32>)>) -> FetchRequestBodyV16 {
    FetchRequestBodyV16 {
        max_wait_ms: 500,
        min_bytes: 1,
        max_bytes: 1 << 20,
        isolation_level: 0,
        session_id: 0,
        session_epoch: 0,
        topics: CompactArray::new(Some(
            topics
                .into_iter()
                .map(|(topic_id, partitions)| FetchTopicRequest {
                    topic_id,
                    partitions: CompactArray::new(Some(
                        partitions
                            .into_iter()
                            .map(|partition_index| FetchPartitionRequest {
                                partition_index,
                                current_leader_epoch: -1,
                                fetch_offset: 0,
                                last_fetched_epoch: -1,
                                log_start_offset: -1,
                                partition_max_bytes: 1 << 20,
                                tag_buffer: TagBuffer::default(),
                            })
                            .collect(),
                    )),
                    tag_buffer: TagBuffer::default(),
                })
                .collect(),
        )),
        forgotten_topics_data: CompactArray::new(Some(vec![])),
        rack_id: CompactString::new(String::new()),
        tag_buffer: TagBuffer::default(),
    }
}

fn unsupported(correlation_id: i32) -> ResponseMessage {
    ResponseMessage::new(
        ResponseHeader::new_v0(correlation_id),
        ResponseBody::ApiVersionsV4(ApiVersionsResponseBodyV4::new(
            35,
            CompactArray::new(Some(vec![])),
            0,
            TagBuffer::default(),
        )),
    )
}

#[test]
fn api_infos() {
    assert_eq!(api_versions_api_info(), ApiKey::new(18, 0, 4, TagBuffer::default()));
    assert_eq!(
        describe_topic_partitions_api_info(),
        ApiKey::new(75, 0, 0, TagBuffer::default())
    );
    assert_eq!(fetch_api_info(), ApiKey::new(1, 0, 16, TagBuffer::default()));
    let keys: Vec<i16> = supported_apis().iter().map(|api| api.api_key).collect();
    assert_eq!(keys, vec![1, 18, 75]);
    assert_eq!(UNSUPPORTED_VERSION_ERROR, 35);
    assert_eq!(UNKNOWN_TOPIC_OR_PARTITION, 3);
    assert_eq!(INVALID_FETCH_SIZE_ERROR, 4);
    assert_eq!(UNKNOWN_TOPIC_ID_ERROR, 100);
}

#[test]
fn api_versions_happy_path() {
    let response = execute_api_verions(&header(18, 4, 0x1122_3344), &api_versions_body());
    let expected = ResponseMessage::new(
        ResponseHeader::ResponseHeaderV0(ResponseHeaderV0::new(0x1122_3344)),
        ResponseBody::ApiVersionsV4(ApiVersionsResponseBodyV4::new(
            0,
            CompactArray::new(Some(vec![
                ApiKey::new(1, 0, 16, TagBuffer::default()),
                ApiKey::new(18, 0, 4, TagBuffer::default()),
                ApiKey::new(75, 0, 0, TagBuffer::default()),
            ])),
            0,
            TagBuffer::default(),
        )),
    );
    assert_eq!(response, expected);
}

#[test]
fn api_versions_happy_path_bytes() {
    let mut response = execute_api_verions(&header(18, 4, 0x1122_3344), &api_versions_body());
    let bytes = response.as_bytes();
    assert_eq!(
        bytes,
        vec![
            0x00, 0x00, 0x00, 0x21, // message size
            0x11, 0x22, 0x33, 0x44, // correlation id, no tagged fields
            0x00, 0x00, // error code
            0x04, // three keys
            0x00, 0x01, 0x00, 0x00, 0x00, 0x10, 0x00, // fetch 0..16
            0x00, 0x12, 0x00, 0x00, 0x00, 0x04, 0x00, // api versions 0..4
            0x00, 0x4b, 0x00, 0x00, 0x00, 0x00, 0x00, // describe topic partitions 0..0
            0x00, 0x00, 0x00, 0x00, // throttle time
            0x00, // tagged fields
        ]
    );
    assert_eq!(response.message_size, 0x21);
}

#[test]
fn api_versions_every_supported_version() {
    for version in 0..=4 {
        let response = execute_api_verions(&header(18, version, 7), &api_versions_body());
        match response.body {
            ResponseBody::ApiVersionsV4(body) => {
                assert_eq!(body.error_code, 0);
                assert_eq!(body.api_keys.get_inner().as_ref().unwrap().len(), 3);
            }
            _ => panic!("an ApiVersions body was expected"),
        }
    }
}

#[test]
fn api_versions_unsupported_version() {
    let response = execute_api_verions(&header(18, 99, 0x1122_3344), &api_versions_body());
    assert_eq!(response, unsupported(0x1122_3344));
    assert_eq!(unsupported_version_response(0x1122_3344), unsupported(0x1122_3344));
    for version in [-1i16, 5, i16::MAX, i16::MIN] {
        let response = execute_api_verions(&header(18, version, 1), &api_versions_body());
        assert_eq!(response, unsupported(1));
    }
}

#[test]
fn api_versions_unsupported_version_bytes() {
    let mut response = execute_api_verions(&header(18, 99, 0x1122_3344), &api_versions_body());
    assert_eq!(
        response.as_bytes(),
        vec![
            0x00, 0x00, 0x00, 0x0c, 0x11, 0x22, 0x33, 0x44, 0x00, 0x23, 0x01, 0x00, 0x00, 0x00,
            0x00, 0x00
        ]
    );
}

#[test]
fn describe_unknown_topic() {
    let index = TopicIndex::new();
    let response =
        execute_describe_topic_partitions(&header(75, 0, 9), &describe_body(&["foo"]), &index);
    let expected = ResponseMessage::new(
        ResponseHeader::ResponseHeaderV1(ResponseHeaderV1::new(9, TagBuffer::default())),
        ResponseBody::DescribeTopicPartitionsV0(DescribeTopicPartitionsResponseBodyV0 {
            throttle_time: 0,
            topic_array: CompactArray::new(Some(vec![TopicResponse {
                error_code: 3,
                name: CompactString::new("foo".to_string()),
                id: Uuid::nil(),
                is_internal: false,
                partitions_array: CompactArray::new(Some(vec![])),
                topic_authorized_operations: TopicAuthorizedOperations::from_bits(0x0df8)
                    .unwrap(),
                tag_buffer: TagBuffer::default(),
            }])),
            next_curor: OptionTopicCursor::new(None),
            tag_buffer: TagBuffer::default(),
        }),
    );
    assert_eq!(response, expected);
}

#[test]
fn describe_unknown_topic_bytes() {
    let index = TopicIndex::new();
    let mut response =
        execute_describe_topic_partitions(&header(75, 0, 9), &describe_body(&["foo"]), &index);
    let mut expected = vec![
        0x00, 0x00, 0x00, 0x29, // message size
        0x00, 0x00, 0x00, 0x09, 0x00, // correlation id, tagged fields
        0x00, 0x00, 0x00, 0x00, // throttle time
        0x02, // one topic
        0x00, 0x03, // unknown topic or partition
        0x04, 0x66, 0x6f, 0x6f, // "foo"
    ];
    expected.extend_from_slice(&[0u8; 16]);
    expected.extend_from_slice(&[
        0x00, // not internal
        0x01, // no partitions
        0x00, 0x00, 0x0d, 0xf8, // authorized operations
        0x00, // tagged fields
        0xff, // no cursor
        0x00, // tagged fields
    ]);
    assert_eq!(response.as_bytes(), expected);
}

#[test]
fn describe_known_topic() {
    let index = bar_index();
    let response = execute_describe_topic_partitions(
        &header(75, 0, 5),
        &describe_body(&["bar", "foo"]),
        &index,
    );
    let topics = match &response.body {
        ResponseBody::DescribeTopicPartitionsV0(body) => {
            assert_eq!(body.throttle_time, 0);
            assert_eq!(body.next_curor, OptionTopicCursor::default());
            body.topic_array.get_inner().clone().unwrap()
        }
        _ => panic!("a DescribeTopicPartitions body was expected"),
    };
    assert_eq!(topics.len(), 2);
    assert_eq!(
        topics[0],
        TopicResponse {
            error_code: 0,
            name: CompactString::new("bar".to_string()),
            id: bar_id(),
            is_internal: false,
            partitions_array: CompactArray::new(Some(vec![
                bar_partition(0, 3),
                bar_partition(1, 4)
            ])),
            topic_authorized_operations: TopicAuthorizedOperations::default(),
            tag_buffer: TagBuffer::default(),
        }
    );
    assert_eq!(topics[1].error_code, 3);
    assert_eq!(topics[1].name, CompactString::new("foo".to_string()));
    assert_eq!(
        response.header,
        ResponseHeader::ResponseHeaderV1(ResponseHeaderV1::new(5, TagBuffer::default()))
    );
}

#[test]
fn describe_null_topic_array_gives_an_empty_answer() {
    let mut body = describe_body(&[]);
    body.topics = CompactArray::new(None);
    let response = execute_describe_topic_partitions(&header(75, 0, 5), &body, &bar_index());
    match response.body {
        ResponseBody::DescribeTopicPartitionsV0(body) => {
            assert_eq!(body.topic_array, CompactArray::new(Some(vec![])));
        }
        _ => panic!("a DescribeTopicPartitions body was expected"),
    }
}

#[test]
fn describe_unsupported_version_has_the_api_versions_shape() {
    for version in [1i16, -1, 99] {
        let response = execute_describe_topic_partitions(
            &header(75, version, 77),
            &describe_body(&["bar"]),
            &bar_index(),
        );
        assert_eq!(response, unsupported(77));
    }
}

#[test]
fn topic_authorized_operations_bits() {
    assert_eq!(TopicAuthorizedOperations::default().bits(), 0x0000_0df8);
    assert_eq!(TopicAuthorizedOperations::KNOWN_BITS, 0x7fff);
    assert_eq!(TopicAuthorizedOperations::from_bits(0x8000), None);
    assert_eq!(
        TopicAuthorizedOperations::READ
            | TopicAuthorizedOperations::WRITE
            | TopicAuthorizedOperations::CREATE
            | TopicAuthorizedOperations::DELETE
            | TopicAuthorizedOperations::ALTER
            | TopicAuthorizedOperations::DESCRIBE
            | TopicAuthorizedOperations::DESCRIBE_CONFIGS
            | TopicAuthorizedOperations::ALTER_CONFIGS,
        0x0df8
    );
    assert_eq!(TopicAuthorizedOperations::default().encode(), vec![0x00, 0x00, 0x0d, 0xf8]);
}

#[test]
fn index_of_a_log() {
    let index = bar_index();
    let name = CompactString::new("bar".to_string());
    let info = index.topic_info(&name).unwrap();
    assert_eq!(info.name, name);
    assert_eq!(info.id, bar_id());
    assert!(!info.is_internal);
    assert_eq!(info.partitions_array.get_inner().as_ref().unwrap().len(), 2);
    assert_eq!(index.topic_name(&bar_id()), Some(&name));
    assert_eq!(index.topic_name(&Uuid::nil()), None);
    assert_eq!(index.topic_info(&CompactString::new("foo".to_string())), None);
    // the batch is kept with its place among the batches of its topic
    let kept = index.record_batches(&name);
    assert_eq!(kept.len(), 1);
    assert_eq!(kept[0].base_offset, 0);
    assert_eq!(kept[0].records, bar_log()[1].records);
    assert_eq!(index.record_batches(&CompactString::new("foo".to_string())), vec![]);
}

#[test]
fn index_counts_the_batches_of_a_topic_and_the_last_one_wins() {
    let other = Uuid::from_u128(0x55);
    let log = vec![
        batch(40, vec![topic("bar", bar_id()), partition(bar_id(), 0, 1)]),
        batch(41, vec![topic("baz", other)]),
        batch(42, vec![]),
        batch(43, vec![topic("bar", bar_id()), partition(bar_id(), 5, 2)]),
    ];
    let index = init_internel_states(&MetadataLog::new(log));
    let bar = CompactString::new("bar".to_string());
    let kept = index.record_batches(&bar);
    assert_eq!(kept.len(), 2);
    assert_eq!(kept[0].base_offset, 0);
    assert_eq!(kept[1].base_offset, 1);
    let info = index.topic_info(&bar).unwrap();
    let partitions = info.partitions_array.get_inner().as_ref().unwrap();
    assert_eq!(partitions.len(), 1);
    assert_eq!(partitions[0].index, 5);
    assert_eq!(partitions[0].leader_epoch, 2);
    let baz = index.record_batches(&CompactString::new("baz".to_string()));
    assert_eq!(baz.len(), 1);
    assert_eq!(baz[0].base_offset, 0);
    assert_eq!(index.topic_name(&other), Some(&CompactString::new("baz".to_string())));
}

#[test]
fn index_of_partitions_without_a_topic_record_has_no_name() {
    let log = vec![batch(0, vec![partition(bar_id(), 2, 1)])];
    let index = init_internel_states(&MetadataLog::new(log.clone()));
    let info = index.topic_info(&CompactString::new(String::new())).unwrap();
    assert_eq!(info.id, Uuid::nil());
    assert_eq!(info.partitions_array.get_inner().as_ref().unwrap().len(), 1);
    assert_eq!(MetadataLog::new(log.clone()).get_record_batches(), &log);
}

#[test]
fn index_from_the_bytes_of_a_log() {
    let content: Vec<u8> = bar_log().iter().flat_map(|b| b.encode()).collect();
    let index = init_read_metadata_log(&content).unwrap();
    assert_eq!(index, bar_index());
    assert_eq!(
        init_read_metadata_log(&content[..content.len() - 3]),
        Err(DecodeError::Incomplete)
    );
    assert_eq!(init_read_metadata_log(&[]), Ok(TopicIndex::new()));
    let mut broken = content.clone();
    broken[21] = 0x80;
    assert_eq!(
        init_read_metadata_log(&broken),
        Err(DecodeError::Other(Fault::UnknownBits(0x8000)))
    );
}

#[test]
fn fetch_unknown_topic_id() {
    let index = bar_index();
    let body = fetch_body(vec![(Uuid::nil(), vec![0])]);
    let h = header(1, 16, 21);
    assert_eq!(fetch_log_requests(&h, &body, &index), vec![]);
    let response = execute_fetch(&h, &body, &index, &vec![]);
    let expected = ResponseMessage::new(
        ResponseHeader::new_v1(21),
        ResponseBody::FetchV16(FetchResponseBodyV16 {
            throttle_time_ms: 0,
            error_code: 0,
            session_id: 0,
            responses: CompactArray::new(Some(vec![FetchTopicResponse {
                topic_id: Uuid::nil(),
                partitions: CompactArray::new(Some(vec![FetchPartitionResponse {
                    partition_index: 0,
                    error_code: 100,
                    high_watermark: 0,
                    last_stable_offset: 0,
                    log_start_offset: 0,
                    aborted_transactions: CompactArray::new(Some(vec![])),
                    preferred_read_replica: 0,
                    record_batches: CompactArray::new(Some(vec![])),
                    tag_buffer: TagBuffer::default(),
                }])),
                tag_buffer: TagBuffer::default(),
            }])),
            tag_buffer: TagBuffer::default(),
        }),
    );
    assert_eq!(response, expected);
    assert_eq!(FetchPartitionResponse::new_empty(100).error_code, 100);
}

#[test]
fn fetch_unknown_topic_id_bytes() {
    let mut response = execute_fetch(
        &header(1, 16, 21),
        &fetch_body(vec![(Uuid::nil(), vec![0])]),
        &TopicIndex::new(),
        &vec![],
    );
    let mut expected = vec![
        0x00, 0x00, 0x00, 0x48, // message size
        0x00, 0x00, 0x00, 0x15, 0x00, // correlation id, tagged fields
        0x00, 0x00, 0x00, 0x00, // throttle time
        0x00, 0x00, // error code
        0x00, 0x00, 0x00, 0x00, // session id
        0x02, // one topic
    ];
    expected.extend_from_slice(&[0u8; 16]);
    expected.push(0x02); // one partition
    expected.extend_from_slice(&[0x00, 0x00, 0x00, 0x00]); // partition index
    expected.extend_from_slice(&[0x00, 0x64]); // unknown topic id
    expected.extend_from_slice(&[0u8; 24]); // watermarks and log start
    expected.push(0x01); // no aborted transactions
    expected.extend_from_slice(&[0x00, 0x00, 0x00, 0x00]); // preferred read replica
    expected.push(0x01); // no record batches
    expected.extend_from_slice(&[0x00, 0x00, 0x00]); // tagged fields of partition, topic, body
    assert_eq!(response.as_bytes(), expected);
}

#[test]
fn fetch_known_topic_reads_one_log_for_each_partition() {
    let index = bar_index();
    let body = fetch_body(vec![(Uuid::nil(), vec![3]), (bar_id(), vec![0, 1])]);
    let h = header(1, 16, 21);
    let wanted = fetch_log_requests(&h, &body, &index);
    assert_eq!(
        wanted,
        vec![
            PartitionLog {
                topic_name: CompactString::new("bar".to_string()),
                partition_index: 0
            },
            PartitionLog {
                topic_name: CompactString::new("bar".to_string()),
                partition_index: 1
            },
        ]
    );
    let first = vec![batch(0, vec![record(RecordValue::Unknown(vec![0, 0x55, 1, 2]))])];
    let second: Vec<RecordBatch> = vec![];
    let contents = vec![
        first.iter().flat_map(|b| b.encode()).collect::<Vec<u8>>(),
        vec![],
    ];
    let logs = decode_logs(&contents).unwrap();
    assert_eq!(logs, vec![first.clone(), second.clone()]);
    let response = execute_fetch(&h, &body, &index, &logs);
    let topics = match &response.body {
        ResponseBody::FetchV16(body) => {
            assert_eq!(body.error_code, 0);
            assert_eq!(body.session_id, 0);
            assert_eq!(body.throttle_time_ms, 0);
            body.responses.get_inner().clone().unwrap()
        }
        _ => panic!("a Fetch body was expected"),
    };
    assert_eq!(topics.len(), 3);
    assert_eq!(topics[0].topic_id, Uuid::nil());
    let known = |partition_index: i32, batches: Vec<RecordBatch>| FetchTopicResponse {
        topic_id: bar_id(),
        partitions: CompactArray::new(Some(vec![FetchPartitionResponse {
            partition_index,
            error_code: 0,
            high_watermark: 0,
            last_stable_offset: 0,
            log_start_offset: 0,
            aborted_transactions: CompactArray::new(None),
            preferred_read_replica: 0,
            record_batches: CompactArray::new(Some(batches)),
            tag_buffer: TagBuffer::default(),
        }])),
        tag_buffer: TagBuffer::default(),
    };
    assert_eq!(topics[1], known(0, first));
    assert_eq!(topics[2], known(1, second));
}

#[test]
fn fetch_logs_that_do_not_decode() {
    let good: Vec<u8> = batch(0, vec![]).encode();
    let contents = vec![good.clone(), good[..10].to_vec(), vec![0xff]];
    assert_eq!(decode_logs(&contents), Err(DecodeError::Incomplete));
    assert_eq!(decode_logs(&vec![]), Ok(vec![]));
}

#[test]
fn fetch_unsupported_version_reads_no_log() {
    let index = bar_index();
    let body = fetch_body(vec![(bar_id(), vec![0])]);
    for version in [17i16, -1] {
        let h = header(1, version, 3);
        assert_eq!(fetch_log_requests(&h, &body, &index), vec![]);
        assert_eq!(execute_fetch(&h, &body, &index, &vec![]), unsupported(3));
    }
    assert_eq!(fetch_log_requests(&header(1, 0, 3), &body, &index).len(), 1);
}

#[test]
fn requests_go_to_the_handler_of_their_key() {
    let index = bar_index();
    let none: Vec<Vec<RecordBatch>> = vec![];
    let request = RequestMessage::new(
        RequestHeader::RequestHeaderV2(header(18, 4, 1)),
        RequestBody::ApiVersionsV4(api_versions_body()),
    );
    assert_eq!(request_log_requests(&request, &index), vec![]);
    assert_eq!(
        execute_request(&request, &index, &none),
        Ok(execute_api_verions(&header(18, 4, 1), &api_versions_body()))
    );
    let request = RequestMessage::new(
        RequestHeader::RequestHeaderV2(header(75, 0, 2)),
        RequestBody::DescribeTopicPartitionsV0(describe_body(&["bar"])),
    );
    assert_eq!(
        execute_request(&request, &index, &none),
        Ok(execute_describe_topic_partitions(
            &header(75, 0, 2),
            &describe_body(&["bar"]),
            &index
        ))
    );
    let body = fetch_body(vec![(bar_id(), vec![0])]);
    let request = RequestMessage::new(
        RequestHeader::RequestHeaderV2(header(1, 16, 3)),
        RequestBody::FetchV16(body.clone()),
    );
    assert_eq!(request_log_requests(&request, &index).len(), 1);
    let logs = vec![vec![batch(0, vec![])]];
    assert_eq!(
        execute_request(&request, &index, &logs),
        Ok(execute_fetch(&header(1, 16, 3), &body, &index, &logs))
    );
}

#[test]
fn requests_without_a_handler() {
    let index = TopicIndex::new();
    let none: Vec<Vec<RecordBatch>> = vec![];
    let request = RequestMessage::new(
        RequestHeader::RequestHeaderV2(header(3, 0, 1)),
        RequestBody::ApiVersionsV4(api_versions_body()),
    );
    assert_eq!(
        execute_request(&request, &index, &none),
        Err(RequestError::NotImplemented(3))
    );
    let request = RequestMessage::new(
        RequestHeader::RequestHeaderV2(header(18, 4, 1)),
        RequestBody::DescribeTopicPartitionsV0(describe_body(&["bar"])),
    );
    assert_eq!(
        execute_request(&request, &index, &none),
        Err(RequestError::UnsupportedHeaderOrBody)
    );
    let request = RequestMessage::new(
        RequestHeader::RequestHeaderV2(header(75, 0, 1)),
        RequestBody::FetchV16(fetch_body(vec![(bar_id(), vec![0])])),
    );
    assert_eq!(request_log_requests(&request, &index), vec![]);
    assert_eq!(
        execute_request(&request, &index, &none),
        Err(RequestError::UnsupportedHeaderOrBody)
    );
}
