use codecrafters_kafka::api_versions::{
    execute_api_verions, ApiKey, ApiVersionsReqeustBodyV4, ApiVersionsResponseBodyV4,
};
use codecrafters_kafka::common_struct::{CompactArray, CompactString, KafkaString, TagBuffer};
use codecrafters_kafka::connection::{
    after_read, parse_request, parse_response_frame, ReadOutcome, RequestBuffer,
};
use codecrafters_kafka::cursor::Cursor;
use codecrafters_kafka::decode::{Decode, DecodeError, Fault};
use codecrafters_kafka::describe_topic_partitions::{
    DescribeTopicPartitionsRequestBodyV0, DescribeTopicPartitionsResponseBodyV0,
    OptionTopicCursor, TopicCursor, TopicRequest,
};
use codecrafters_kafka::encode::Encode;
use codecrafters_kafka::fetch::{
    FetchPartitionRequest, FetchRequestBodyV16, FetchResponseBodyV16, FetchTopicRequest,
    ForgottenTopicRequest, Transaction,
};
use codecrafters_kafka::request_message::{
    request_api_versions, RequestBody, RequestHeader, RequestHeaderV2, RequestMessage,
};
use codecrafters_kafka::response_message::{
    ResponseBody, ResponseHeader, ResponseHeaderV0, ResponseHeaderV1, ResponseMessage,
};
use uuid::Uuid;

fn client_header_bytes() -> Vec<u8> {
    vec![
        0x00, 0x12, 0x00, 0x04, 0x11, 0x22, 0x33, 0x44, 0x00, 0x08, 0x6d, 0x79, 0x63, 0x6c, 0x69,
        0x65, 0x6e, 0x74, 0x00,
    ]
}

fn describe_request() -> RequestMessage {
    RequestMessage::new(
        RequestHeader::new_v2(
            75,
            0,
            7,
            KafkaString::new("cli".to_string()),
            TagBuffer::default(),
        ),
        RequestBody::DescribeTopicPartitionsV0(DescribeTopicPartitionsRequestBodyV0 {
            topics: CompactArray::new(Some(vec![TopicRequest {
                name: CompactString::new("foo".to_string()),
                tag_buffer: TagBuffer::default(),
            }])),
            response_partition_limit: 100,
            cursor: OptionTopicCursor::new(None),
            tag_buffer: TagBuffer::default(),
        }),
    )
}

fn fetch_request() -> RequestMessage {
    RequestMessage::new(
        RequestHeader::new_v2(1, 16, 8, KafkaString::new("cli".to_string()), TagBuffer::default()),
        RequestBody::FetchV16(FetchRequestBodyV16 {
            max_wait_ms: 500,
            min_bytes: 1,
            max_bytes: 1024,
            isolation_level: 0,
            session_id: 0,
            session_epoch: -1,
            topics: CompactArray::new(Some(vec![FetchTopicRequest {
                topic_id: Uuid::from_u128(0x0102_0304),
                partitions: CompactArray::new(Some(vec![FetchPartitionRequest {
                    partition_index: 2,
                    current_leader_epoch: -1,
                    fetch_offset: 0,
                    last_fetched_epoch: -1,
                    log_start_offset: -1,
                    partition_max_bytes: 1024,
                    tag_buffer: TagBuffer::default(),
                }])),
                tag_buffer: TagBuffer::default(),
            }])),
            forgotten_topics_data: CompactArray::new(Some(vec![ForgottenTopicRequest {
                topic_id: Uuid::nil(),
                partitions: 4,
                tag_buffer: TagBuffer::default(),
            }])),
            rack_id: CompactString::new(String::new()),
            tag_buffer: TagBuffer::default(),
        }),
    )
}

#[test]
fn request_header_v2_bytes() {
    let header = RequestHeaderV2::new(
        18,
        4,
        0x1122_3344,
        KafkaString::new("myclient".to_string()),
        TagBuffer::default(),
    );
    assert_eq!(header.encode(), client_header_bytes());
    let bytes = client_header_bytes();
    let mut cursor = Cursor::new(&bytes);
    assert_eq!(RequestHeaderV2::decode(&mut cursor), Ok(header));
    assert_eq!(cursor.position(), 19);
}

#[test]
fn request_header_accessors() {
    let header = RequestHeader::new_v2(
        18,
        4,
        0x1122_3344,
        KafkaString::new("myclient".to_string()),
        TagBuffer::default(),
    );
    assert_eq!(header.request_api_key(), 18);
    assert_eq!(header.request_api_version(), 4);
    assert_eq!(header.correlation_id(), 0x1122_3344);
    assert_eq!(header.client_id(), "myclient");
    assert_eq!(header.encode(), client_header_bytes());
}

#[test]
fn request_with_a_body_of_two_zero_bytes_is_no_api_versions_request() {
    // the body of an ApiVersions request starts with a compact string,
    // whose length prefix is never zero
    let mut bytes = vec![0x00, 0x00, 0x00, 0x23];
    bytes.extend_from_slice(&client_header_bytes());
    bytes.extend_from_slice(&[0x00, 0x00]);
    let mut cursor = Cursor::new(&bytes);
    assert_eq!(
        RequestMessage::decode(&mut cursor),
        Err(DecodeError::Other(Fault::ZeroLength))
    );
    assert_eq!(parse_request(&bytes), Err(DecodeError::Other(Fault::ZeroLength)));
}

#[test]
fn api_versions_request_decodes() {
    let mut bytes = vec![0x00, 0x00, 0x00, 0x21];
    bytes.extend_from_slice(&client_header_bytes());
    bytes.extend_from_slice(&[0x09, 0x6d, 0x79, 0x63, 0x6c, 0x69, 0x65, 0x6e, 0x74]);
    bytes.extend_from_slice(&[0x04, 0x30, 0x2e, 0x31]);
    bytes.push(0x00);
    let (request, taken) = parse_request(&bytes).unwrap().unwrap();
    assert_eq!(taken, bytes.len());
    assert_eq!(request.message_size, 0x21);
    assert_eq!(request.header.request_api_key(), 18);
    assert_eq!(request.header.request_api_version(), 4);
    assert_eq!(request.header.correlation_id(), 0x1122_3344);
    assert_eq!(request.header.client_id(), "myclient");
    assert_eq!(
        request.body,
        RequestBody::ApiVersionsV4(ApiVersionsReqeustBodyV4 {
            client_id: CompactString::new("myclient".to_string()),
            client_software_version: CompactString::new("0.1".to_string()),
            tag_buffer: TagBuffer::default(),
        })
    );
}

#[test]
fn request_api_versions_as_a_client_sends_it() {
    let mut request = request_api_versions(3);
    assert_eq!(request.message_size, 0);
    assert_eq!(request.header.request_api_key(), 18);
    assert_eq!(request.header.request_api_version(), 3);
    assert_eq!(request.header.correlation_id(), 0);
    assert_eq!(request.header.client_id(), "myclient");
    let bytes = request.as_bytes();
    assert_eq!(bytes.len(), 4 + 19 + 14);
    assert_eq!(&bytes[..4], &[0x00, 0x00, 0x00, 0x21]);
    assert_eq!(request.message_size, 33);
    let (back, taken) = parse_request(&bytes).unwrap().unwrap();
    assert_eq!(back, request);
    assert_eq!(taken, bytes.len());
    // framed once, the size stays
    assert_eq!(request.as_bytes(), bytes);
}

#[test]
fn request_round_trips() {
    for mut request in [describe_request(), fetch_request(), request_api_versions(4)] {
        let bytes = request.as_bytes();
        let size = u32::from_be_bytes([bytes[0], bytes[1], bytes[2], bytes[3]]);
        assert_eq!(size as usize, bytes.len() - 4);
        let mut cursor = Cursor::new(&bytes);
        assert_eq!(RequestMessage::decode(&mut cursor), Ok(request.clone()));
        assert_eq!(cursor.position(), bytes.len());
        assert_eq!(request.encode(), bytes);
    }
}

#[test]
fn request_of_an_unknown_key_is_fatal() {
    let mut bytes = vec![0x00, 0x00, 0x00, 0x13];
    let mut header = client_header_bytes();
    header[1] = 0x03;
    bytes.extend_from_slice(&header);
    assert_eq!(parse_request(&bytes), Err(DecodeError::Other(Fault::UnknownApiKey(3))));
}

#[test]
fn request_in_pieces() {
    let mut request = describe_request();
    let bytes = request.as_bytes();
    for k in 0..bytes.len() {
        assert_eq!(parse_request(&bytes[..k]), Ok(None));
    }
    assert_eq!(parse_request(&bytes), Ok(Some((request.clone(), bytes.len()))));
    let mut longer = bytes.clone();
    longer.extend_from_slice(&[0xde, 0xad]);
    assert_eq!(parse_request(&longer), Ok(Some((request, bytes.len()))));
}

#[test]
fn request_buffer_gives_the_same_request_however_the_bytes_are_split() {
    for mut request in [describe_request(), fetch_request(), request_api_versions(0)] {
        let bytes = request.as_bytes();
        for k in 0..=bytes.len() {
            let mut buffer = RequestBuffer::new();
            buffer.feed(&bytes[..k]);
            if k < bytes.len() {
                assert_eq!(buffer.next_request(), Ok(None));
                assert_eq!(buffer.len(), k);
            }
            buffer.feed(&bytes[k..]);
            assert_eq!(buffer.next_request(), Ok(Some(request.clone())));
            assert_eq!(buffer.len(), 0);
            assert_eq!(buffer.next_request(), Ok(None));
        }
    }
}

#[test]
fn request_buffer_serves_requests_in_the_order_of_arrival() {
    let mut first = describe_request();
    let mut second = request_api_versions(2);
    let mut bytes = first.as_bytes();
    bytes.extend_from_slice(&second.as_bytes());
    bytes.extend_from_slice(&[0x00, 0x00]);
    let mut buffer = RequestBuffer::new();
    buffer.feed(&bytes);
    assert_eq!(buffer.next_request(), Ok(Some(first)));
    assert_eq!(buffer.next_request(), Ok(Some(second)));
    assert_eq!(buffer.next_request(), Ok(None));
    assert_eq!(buffer.len(), 2);
}

#[test]
fn request_buffer_keeps_broken_bytes() {
    let mut buffer = RequestBuffer::new();
    let mut bytes = vec![0x00, 0x00, 0x00, 0x13];
    let mut header = client_header_bytes();
    header[1] = 0x63;
    bytes.extend_from_slice(&header);
    buffer.feed(&bytes);
    assert_eq!(
        buffer.next_request(),
        Err(DecodeError::Other(Fault::UnknownApiKey(0x63)))
    );
    assert_eq!(buffer.len(), bytes.len());
}

#[test]
fn reads_that_end_a_connection() {
    assert_eq!(after_read(0, 0), ReadOutcome::Closed);
    assert_eq!(after_read(0, 5), ReadOutcome::ResetByPeer);
    assert_eq!(after_read(3, 3), ReadOutcome::Progress);
    assert_eq!(after_read(3, 8), ReadOutcome::Progress);
}

#[test]
fn response_headers() {
    assert_eq!(ResponseHeaderV0::new(7).encode(), vec![0, 0, 0, 7]);
    assert_eq!(
        ResponseHeaderV1::new(7, TagBuffer::default()).encode(),
        vec![0, 0, 0, 7, 0]
    );
    assert_eq!(ResponseHeader::new_v0(-1).encode(), vec![0xff, 0xff, 0xff, 0xff]);
    assert_eq!(ResponseHeader::new_v1(1).encode(), vec![0, 0, 0, 1, 0]);
    assert_eq!(
        ResponseHeader::new_v0(7),
        ResponseHeader::ResponseHeaderV0(ResponseHeaderV0 { correlation_id: 7 })
    );
    assert_eq!(
        ResponseHeader::new_v1(7),
        ResponseHeader::ResponseHeaderV1(ResponseHeaderV1 {
            correlation_id: 7,
            tag_buffer: TagBuffer::default()
        })
    );
}

#[test]
fn response_size_counts_header_and_body() {
    let mut response = ResponseMessage::new(
        ResponseHeader::new_v1(5),
        ResponseBody::DescribeTopicPartitionsV0(DescribeTopicPartitionsResponseBodyV0 {
            throttle_time: 0,
            topic_array: CompactArray::new(Some(vec![])),
            next_curor: OptionTopicCursor::default(),
            tag_buffer: TagBuffer::default(),
        }),
    );
    assert_eq!(response.message_size, 0);
    let header = response.header.encode();
    let body = response.body.encode();
    let bytes = response.as_bytes();
    assert_eq!(response.message_size as usize, header.len() + body.len());
    assert_eq!(bytes[..4], (bytes.len() as u32 - 4).to_be_bytes());
    assert_eq!(bytes[4..], [header, body].concat());
    assert_eq!(bytes, vec![0, 0, 0, 12, 0, 0, 0, 5, 0, 0, 0, 0, 0, 1, 0xff, 0]);
    // a size that is there is written as it is
    response.message_size = 99;
    assert_eq!(response.as_bytes()[..4], [0, 0, 0, 99]);
}

#[test]
fn response_round_trips_under_the_header_of_its_request() {
    let mut response = ResponseMessage::new(
        ResponseHeader::new_v0(5),
        ResponseBody::ApiVersionsV4(ApiVersionsResponseBodyV4::new(
            0,
            CompactArray::new(Some(vec![ApiKey::new(18, 0, 4, TagBuffer::default())])),
            0,
            TagBuffer::default(),
        )),
    );
    let bytes = response.as_bytes();
    assert_eq!(
        bytes,
        vec![0, 0, 0, 19, 0, 0, 0, 5, 0, 0, 2, 0, 18, 0, 0, 0, 4, 0, 0, 0, 0, 0, 0]
    );
    let mut cursor = Cursor::new(&bytes);
    assert_eq!(ResponseMessage::decode(&mut cursor, 18), Ok(response.clone()));
    assert_eq!(cursor.position(), bytes.len());
    assert_eq!(
        parse_response_frame(&bytes, 18),
        Ok(Some((response.clone(), bytes.len())))
    );
    assert_eq!(parse_response_frame(&bytes[..bytes.len() - 1], 18), Ok(None));
    assert_eq!(
        parse_response_frame(&bytes, 2),
        Err(DecodeError::Other(Fault::UnknownApiKey(2)))
    );
    let mut describe = ResponseMessage::new(
        ResponseHeader::new_v1(5),
        ResponseBody::DescribeTopicPartitionsV0(DescribeTopicPartitionsResponseBodyV0 {
            throttle_time: 0,
            topic_array: CompactArray::new(Some(vec![])),
            next_curor: OptionTopicCursor::new(Some(TopicCursor {
                topic_name: CompactString::new("foo".to_string()),
                partition_index: 2,
                tag_buffer: TagBuffer::default(),
            })),
            tag_buffer: TagBuffer::default(),
        }),
    );
    let bytes = describe.as_bytes();
    assert_eq!(parse_response_frame(&bytes, 75), Ok(Some((describe, bytes.len()))));
    let mut fetch = ResponseMessage::new(
        ResponseHeader::new_v1(6),
        ResponseBody::FetchV16(FetchResponseBodyV16 {
            throttle_time_ms: 0,
            error_code: 0,
            session_id: 0,
            responses: CompactArray::new(Some(vec![])),
            tag_buffer: TagBuffer::default(),
        }),
    );
    let bytes = fetch.as_bytes();
    assert_eq!(parse_response_frame(&bytes, 1), Ok(Some((fetch, bytes.len()))));
}

#[test]
fn api_versions_answers_read_back_under_the_header_without_tagged_fields() {
    for version in [0i16, 4, 99] {
        let header = RequestHeaderV2::new(
            18,
            version,
            0x1122_3344,
            KafkaString::new("myclient".to_string()),
            TagBuffer::default(),
        );
        let body = ApiVersionsReqeustBodyV4 {
            client_id: CompactString::new("myclient".to_string()),
            client_software_version: CompactString::new("0.1".to_string()),
            tag_buffer: TagBuffer::default(),
        };
        let mut response = execute_api_verions(&header, &body);
        let bytes = response.as_bytes();
        assert_eq!(
            parse_response_frame(&bytes, 18),
            Ok(Some((response, bytes.len())))
        );
    }
}

#[test]
fn topic_cursor_option() {
    assert_eq!(OptionTopicCursor::new(None).encode(), vec![0xff]);
    let mut cursor = Cursor::new(&[0xffu8, 0x55]);
    assert_eq!(OptionTopicCursor::decode(&mut cursor), Ok(OptionTopicCursor::new(None)));
    assert_eq!(cursor.position(), 1);
    let c = TopicCursor {
        topic_name: CompactString::new("foo".to_string()),
        partition_index: 1,
        tag_buffer: TagBuffer::default(),
    };
    // a cursor stands behind one presence byte
    let present = OptionTopicCursor::new(Some(c.clone()));
    let bytes = present.encode();
    assert_eq!(
        bytes,
        vec![0x01, 0x04, 0x66, 0x6f, 0x6f, 0x00, 0x00, 0x00, 0x01, 0x00]
    );
    let mut cursor = Cursor::new(&bytes);
    assert_eq!(OptionTopicCursor::decode(&mut cursor), Ok(present));
    assert_eq!(cursor.position(), bytes.len());
    // any presence byte but 0xff is passed over
    let mut cursor = Cursor::new(&[0x00u8, 0x04, 0x66, 0x6f, 0x6f, 0x00, 0x00, 0x00, 0x01, 0x00]);
    assert_eq!(
        OptionTopicCursor::decode(&mut cursor),
        Ok(OptionTopicCursor::new(Some(c)))
    );
    let empty: [u8; 0] = [];
    let mut cursor = Cursor::new(&empty);
    assert_eq!(OptionTopicCursor::decode(&mut cursor), Err(DecodeError::Incomplete));
    let mut cursor = Cursor::new(&[0x01u8, 0x04, 0x66]);
    assert_eq!(OptionTopicCursor::decode(&mut cursor), Err(DecodeError::Incomplete));
}

#[test]
fn topic_cursor_reads_back_what_it_writes() {
    let c = TopicCursor {
        topic_name: CompactString::new("a".to_string()),
        partition_index: 0,
        tag_buffer: TagBuffer::default(),
    };
    let present = OptionTopicCursor::new(Some(c));
    let bytes = present.encode();
    assert_eq!(bytes, vec![0x01, 0x02, 0x61, 0x00, 0x00, 0x00, 0x00, 0x00]);
    let mut cursor = Cursor::new(&bytes);
    assert_eq!(OptionTopicCursor::decode(&mut cursor), Ok(present));
    assert_eq!(cursor.position(), bytes.len());
    let bytes = OptionTopicCursor::new(None).encode();
    let mut cursor = Cursor::new(&bytes);
    assert_eq!(OptionTopicCursor::decode(&mut cursor), Ok(OptionTopicCursor::default()));
    assert_eq!(cursor.position(), 1);
}

#[test]
fn describe_request_with_a_cursor_round_trips() {
    let mut request = RequestMessage::new(
        RequestHeader::new_v2(75, 0, 7, KafkaString::new("cli".to_string()), TagBuffer::default()),
        RequestBody::DescribeTopicPartitionsV0(DescribeTopicPartitionsRequestBodyV0 {
            topics: CompactArray::new(Some(vec![TopicRequest {
                name: CompactString::new("foo".to_string()),
                tag_buffer: TagBuffer::default(),
            }])),
            response_partition_limit: 100,
            cursor: OptionTopicCursor::new(Some(TopicCursor {
                topic_name: CompactString::new("foo".to_string()),
                partition_index: 3,
                tag_buffer: TagBuffer::default(),
            })),
            tag_buffer: TagBuffer::default(),
        }),
    );
    let bytes = request.as_bytes();
    assert_eq!(parse_request(&bytes), Ok(Some((request, bytes.len()))));
    for k in 0..bytes.len() {
        assert_eq!(parse_request(&bytes[..k]), Ok(None));
    }
}

#[test]
fn transaction_bytes() {
    let t = Transaction { producer_id: 1, first_offset: 2, tag_buffer: TagBuffer::default() };
    assert_eq!(
        t.encode(),
        vec![0, 0, 0, 0, 0, 0, 0, 1, 0, 0, 0, 0, 0, 0, 0, 2, 0]
    );
    let bytes = t.encode();
    let mut cursor = Cursor::new(&bytes);
    assert_eq!(Transaction::decode(&mut cursor), Ok(t));
}
