//! Fetch: the request, the response and the handler that answers from the
//! partition logs.
use uuid::Uuid;
use vstd::prelude::*;

use crate::api_versions::{unsupported_version_body, unsupported_version_response, v0_response};
use crate::codec::Codec;
use crate::common_struct::{CompactArray, CompactString, TagBuffer, TagBufferModel};
use crate::cursor::Cursor;
use crate::decode::{
    end_of, error_of, lemma_holds_at_last, value_of, Decode, DecodeError, DecodeResult, Parsed,
};
use crate::encode::Encode;
use crate::metadata_log::{lookup_id, TopicIndex, TopicIndexModel};
use crate::model::{models, Model};
use crate::record::{parse_batches, read_record_batches, RecordBatch, RecordBatchModel};
use crate::request_message::{RequestHeaderV2, RequestHeaderV2Model};
use crate::response_message::{
    ResponseBody, ResponseBodyModel, ResponseHeader, ResponseHeaderModel, ResponseHeaderV1Model,
    ResponseMessage, ResponseMessageModel,
};

verus! {

pub const INVALID_FETCH_SIZE_ERROR: i16 = 4;

pub const UNKNOWN_TOPIC_ID_ERROR: i16 = 100;

/// One partition that a fetch asks for.
#[derive(Debug, Clone, PartialEq, Eq)]
pub struct FetchPartitionRequest {
    pub partition_index: i32,
    pub current_leader_epoch: i32,
    pub fetch_offset: i64,
    pub last_fetched_epoch: i32,
    pub log_start_offset: i64,
    pub partition_max_bytes: i32,
    pub tag_buffer: TagBuffer,
}

/// The value that a [`FetchPartitionRequest`] stands for.
pub struct FetchPartitionRequestModel {
    pub partition_index: i32,
    pub current_leader_epoch: i32,
    pub fetch_offset: i64,
    pub last_fetched_epoch: i32,
    pub log_start_offset: i64,
    pub partition_max_bytes: i32,
    pub tag_buffer: TagBufferModel,
}

impl Model for FetchPartitionRequest {
    type M = FetchPartitionRequestModel;

    open spec fn model(&self) -> FetchPartitionRequestModel {
        FetchPartitionRequestModel {
            partition_index: self.partition_index.model(),
            current_leader_epoch: self.current_leader_epoch.model(),
            fetch_offset: self.fetch_offset.model(),
            last_fetched_epoch: self.last_fetched_epoch.model(),
            log_start_offset: self.log_start_offset.model(),
            partition_max_bytes: self.partition_max_bytes.model(),
            tag_buffer: self.tag_buffer.model(),
        }
    }

    fn duplicate(&self) -> (r: Self) {
        FetchPartitionRequest {
            partition_index: self.partition_index.duplicate(),
            current_leader_epoch: self.current_leader_epoch.duplicate(),
            fetch_offset: self.fetch_offset.duplicate(),
            last_fetched_epoch: self.last_fetched_epoch.duplicate(),
            log_start_offset: self.log_start_offset.duplicate(),
            partition_max_bytes: self.partition_max_bytes.duplicate(),
            tag_buffer: self.tag_buffer.duplicate(),
        }
    }
}

impl Encode for FetchPartitionRequest {
    open spec fn wire(v: FetchPartitionRequestModel) -> Seq<u8> {
        i32::wire(v.partition_index)
            + i32::wire(v.current_leader_epoch)
            + i64::wire(v.fetch_offset)
            + i32::wire(v.last_fetched_epoch)
            + i64::wire(v.log_start_offset)
            + i32::wire(v.partition_max_bytes)
            + TagBuffer::wire(v.tag_buffer)
    }

    open spec fn encodable(v: FetchPartitionRequestModel) -> bool {
        &&& i32::encodable(v.partition_index)
        &&& i32::encodable(v.current_leader_epoch)
        &&& i64::encodable(v.fetch_offset)
        &&& i32::encodable(v.last_fetched_epoch)
        &&& i64::encodable(v.log_start_offset)
        &&& i32::encodable(v.partition_max_bytes)
        &&& TagBuffer::encodable(v.tag_buffer)
    }

    fn is_encodable(&self) -> (b: bool) {
        self.partition_index.is_encodable()
            && self.current_leader_epoch.is_encodable()
            && self.fetch_offset.is_encodable()
            && self.last_fetched_epoch.is_encodable()
            && self.log_start_offset.is_encodable()
            && self.partition_max_bytes.is_encodable()
            && self.tag_buffer.is_encodable()
    }

    fn encode(&self) -> (out: Vec<u8>) {
        let mut out = self.partition_index.encode();
        let mut piece = self.current_leader_epoch.encode();
        out.append(&mut piece);
        let mut piece = self.fetch_offset.encode();
        out.append(&mut piece);
        let mut piece = self.last_fetched_epoch.encode();
        out.append(&mut piece);
        let mut piece = self.log_start_offset.encode();
        out.append(&mut piece);
        let mut piece = self.partition_max_bytes.encode();
        out.append(&mut piece);
        let mut piece = self.tag_buffer.encode();
        out.append(&mut piece);
        out
    }
}

impl Decode for FetchPartitionRequest {
    open spec fn parse(s: Seq<u8>, at: int) -> Parsed<FetchPartitionRequestModel> {
        let partition_index = i32::parse(s, at);
        let current_leader_epoch = i32::parse(s, end_of(partition_index));
        let fetch_offset = i64::parse(s, end_of(current_leader_epoch));
        let last_fetched_epoch = i32::parse(s, end_of(fetch_offset));
        let log_start_offset = i64::parse(s, end_of(last_fetched_epoch));
        let partition_max_bytes = i32::parse(s, end_of(log_start_offset));
        let tag_buffer = TagBuffer::parse(s, end_of(partition_max_bytes));
        if partition_index is Err {
            Err(error_of(partition_index))
        } else if current_leader_epoch is Err {
            Err(error_of(current_leader_epoch))
        } else if fetch_offset is Err {
            Err(error_of(fetch_offset))
        } else if last_fetched_epoch is Err {
            Err(error_of(last_fetched_epoch))
        } else if log_start_offset is Err {
            Err(error_of(log_start_offset))
        } else if partition_max_bytes is Err {
            Err(error_of(partition_max_bytes))
        } else if tag_buffer is Err {
            Err(error_of(tag_buffer))
        } else {
            Ok((
                FetchPartitionRequestModel {
                    partition_index: value_of(partition_index),
                    current_leader_epoch: value_of(current_leader_epoch),
                    fetch_offset: value_of(fetch_offset),
                    last_fetched_epoch: value_of(last_fetched_epoch),
                    log_start_offset: value_of(log_start_offset),
                    partition_max_bytes: value_of(partition_max_bytes),
                    tag_buffer: value_of(tag_buffer),
                },
                end_of(tag_buffer),
            ))
        }
    }

    proof fn lemma_parse_in_bounds(s: Seq<u8>, at: int) {
        i32::lemma_parse_in_bounds(s, at);
        let partition_index = i32::parse(s, at);
        i32::lemma_parse_in_bounds(s, end_of(partition_index));
        let current_leader_epoch = i32::parse(s, end_of(partition_index));
        i64::lemma_parse_in_bounds(s, end_of(current_leader_epoch));
        let fetch_offset = i64::parse(s, end_of(current_leader_epoch));
        i32::lemma_parse_in_bounds(s, end_of(fetch_offset));
        let last_fetched_epoch = i32::parse(s, end_of(fetch_offset));
        i64::lemma_parse_in_bounds(s, end_of(last_fetched_epoch));
        let log_start_offset = i64::parse(s, end_of(last_fetched_epoch));
        i32::lemma_parse_in_bounds(s, end_of(log_start_offset));
        let partition_max_bytes = i32::parse(s, end_of(log_start_offset));
        TagBuffer::lemma_parse_in_bounds(s, end_of(partition_max_bytes));
    }

    proof fn lemma_parse_extends(s: Seq<u8>, t: Seq<u8>, at: int) {
        i32::lemma_parse_extends(s, t, at);
        let partition_index = i32::parse(s, at);
        i32::lemma_parse_extends(s, t, end_of(partition_index));
        let current_leader_epoch = i32::parse(s, end_of(partition_index));
        i64::lemma_parse_extends(s, t, end_of(current_leader_epoch));
        let fetch_offset = i64::parse(s, end_of(current_leader_epoch));
        i32::lemma_parse_extends(s, t, end_of(fetch_offset));
        let last_fetched_epoch = i32::parse(s, end_of(fetch_offset));
        i64::lemma_parse_extends(s, t, end_of(last_fetched_epoch));
        let log_start_offset = i64::parse(s, end_of(last_fetched_epoch));
        i32::lemma_parse_extends(s, t, end_of(log_start_offset));
        let partition_max_bytes = i32::parse(s, end_of(log_start_offset));
        TagBuffer::lemma_parse_extends(s, t, end_of(partition_max_bytes));
    }

    fn decode(buffer: &mut Cursor) -> (r: DecodeResult<Self>) {
        let partition_index = i32::decode(buffer)?;
        let current_leader_epoch = i32::decode(buffer)?;
        let fetch_offset = i64::decode(buffer)?;
        let last_fetched_epoch = i32::decode(buffer)?;
        let log_start_offset = i64::decode(buffer)?;
        let partition_max_bytes = i32::decode(buffer)?;
        let tag_buffer = TagBuffer::decode(buffer)?;
        Ok(FetchPartitionRequest { partition_index, current_leader_epoch, fetch_offset, last_fetched_epoch, log_start_offset, partition_max_bytes, tag_buffer })
    }
}

impl Codec for FetchPartitionRequest {
    open spec fn canonical(v: FetchPartitionRequestModel) -> bool {
        &&& i32::canonical(v.partition_index)
        &&& i32::canonical(v.current_leader_epoch)
        &&& i64::canonical(v.fetch_offset)
        &&& i32::canonical(v.last_fetched_epoch)
        &&& i64::canonical(v.log_start_offset)
        &&& i32::canonical(v.partition_max_bytes)
        &&& TagBuffer::canonical(v.tag_buffer)
    }

    proof fn lemma_round_trip(v: FetchPartitionRequestModel, s: Seq<u8>, at: int) {
        let w0 = i32::wire(v.partition_index);
        let w1 = i32::wire(v.current_leader_epoch);
        let w2 = i64::wire(v.fetch_offset);
        let w3 = i32::wire(v.last_fetched_epoch);
        let w4 = i64::wire(v.log_start_offset);
        let w5 = i32::wire(v.partition_max_bytes);
        let w6 = TagBuffer::wire(v.tag_buffer);
        let front1 = w0;
        let front2 = front1 + w1;
        let front3 = front2 + w2;
        let front4 = front3 + w3;
        let front5 = front4 + w4;
        let front6 = front5 + w5;
        lemma_holds_at_last(s, at, front6, w6);
        lemma_holds_at_last(s, at, front5, w5);
        lemma_holds_at_last(s, at, front4, w4);
        lemma_holds_at_last(s, at, front3, w3);
        lemma_holds_at_last(s, at, front2, w2);
        lemma_holds_at_last(s, at, front1, w1);
        i32::lemma_round_trip(v.partition_index, s, at);
        i32::lemma_round_trip(v.current_leader_epoch, s, at + front1.len());
        i64::lemma_round_trip(v.fetch_offset, s, at + front2.len());
        i32::lemma_round_trip(v.last_fetched_epoch, s, at + front3.len());
        i64::lemma_round_trip(v.log_start_offset, s, at + front4.len());
        i32::lemma_round_trip(v.partition_max_bytes, s, at + front5.len());
        TagBuffer::lemma_round_trip(v.tag_buffer, s, at + front6.len());
    }
}

/// One topic that a fetch asks for, by its identifier.
#[derive(Debug, Clone, PartialEq, Eq)]
pub struct FetchTopicRequest {
    pub topic_id: Uuid,
    pub partitions: CompactArray<FetchPartitionRequest>,
    pub tag_buffer: TagBuffer,
}

/// The value that a [`FetchTopicRequest`] stands for.
pub struct FetchTopicRequestModel {
    pub topic_id: u128,
    pub partitions: Option<Seq<FetchPartitionRequestModel>>,
    pub tag_buffer: TagBufferModel,
}

impl Model for FetchTopicRequest {
    type M = FetchTopicRequestModel;

    open spec fn model(&self) -> FetchTopicRequestModel {
        FetchTopicRequestModel {
            topic_id: self.topic_id.model(),
            partitions: self.partitions.model(),
            tag_buffer: self.tag_buffer.model(),
        }
    }

    fn duplicate(&self) -> (r: Self) {
        FetchTopicRequest {
            topic_id: self.topic_id.duplicate(),
            partitions: self.partitions.duplicate(),
            tag_buffer: self.tag_buffer.duplicate(),
        }
    }
}

impl Encode for FetchTopicRequest {
    open spec fn wire(v: FetchTopicRequestModel) -> Seq<u8> {
        Uuid::wire(v.topic_id)
            + CompactArray::<FetchPartitionRequest>::wire(v.partitions)
            + TagBuffer::wire(v.tag_buffer)
    }

    open spec fn encodable(v: FetchTopicRequestModel) -> bool {
        &&& Uuid::encodable(v.topic_id)
        &&& CompactArray::<FetchPartitionRequest>::encodable(v.partitions)
        &&& TagBuffer::encodable(v.tag_buffer)
    }

    fn is_encodable(&self) -> (b: bool) {
        self.topic_id.is_encodable()
            && self.partitions.is_encodable()
            && self.tag_buffer.is_encodable()
    }

    fn encode(&self) -> (out: Vec<u8>) {
        let mut out = self.topic_id.encode();
        let mut piece = self.partitions.encode();
        out.append(&mut piece);
        let mut piece = self.tag_buffer.encode();
        out.append(&mut piece);
        out
    }
}

impl Decode for FetchTopicRequest {
    open spec fn parse(s: Seq<u8>, at: int) -> Parsed<FetchTopicRequestModel> {
        let topic_id = Uuid::parse(s, at);
        let partitions = CompactArray::<FetchPartitionRequest>::parse(s, end_of(topic_id));
        let tag_buffer = TagBuffer::parse(s, end_of(partitions));
        if topic_id is Err {
            Err(error_of(topic_id))
        } else if partitions is Err {
            Err(error_of(partitions))
        } else if tag_buffer is Err {
            Err(error_of(tag_buffer))
        } else {
            Ok((
                FetchTopicRequestModel {
                    topic_id: value_of(topic_id),
                    partitions: value_of(partitions),
                    tag_buffer: value_of(tag_buffer),
                },
                end_of(tag_buffer),
            ))
        }
    }

    proof fn lemma_parse_in_bounds(s: Seq<u8>, at: int) {
        Uuid::lemma_parse_in_bounds(s, at);
        let topic_id = Uuid::parse(s, at);
        CompactArray::<FetchPartitionRequest>::lemma_parse_in_bounds(s, end_of(topic_id));
        let partitions = CompactArray::<FetchPartitionRequest>::parse(s, end_of(topic_id));
        TagBuffer::lemma_parse_in_bounds(s, end_of(partitions));
    }

    proof fn lemma_parse_extends(s: Seq<u8>, t: Seq<u8>, at: int) {
        Uuid::lemma_parse_extends(s, t, at);
        let topic_id = Uuid::parse(s, at);
        CompactArray::<FetchPartitionRequest>::lemma_parse_extends(s, t, end_of(topic_id));
        let partitions = CompactArray::<FetchPartitionRequest>::parse(s, end_of(topic_id));
        TagBuffer::lemma_parse_extends(s, t, end_of(partitions));
    }

    fn decode(buffer: &mut Cursor) -> (r: DecodeResult<Self>) {
        let topic_id = Uuid::decode(buffer)?;
        let partitions = CompactArray::<FetchPartitionRequest>::decode(buffer)?;
        let tag_buffer = TagBuffer::decode(buffer)?;
        Ok(FetchTopicRequest { topic_id, partitions, tag_buffer })
    }
}

impl Codec for FetchTopicRequest {
    open spec fn canonical(v: FetchTopicRequestModel) -> bool {
        &&& Uuid::canonical(v.topic_id)
        &&& CompactArray::<FetchPartitionRequest>::canonical(v.partitions)
        &&& TagBuffer::canonical(v.tag_buffer)
    }

    proof fn lemma_round_trip(v: FetchTopicRequestModel, s: Seq<u8>, at: int) {
        let w0 = Uuid::wire(v.topic_id);
        let w1 = CompactArray::<FetchPartitionRequest>::wire(v.partitions);
        let w2 = TagBuffer::wire(v.tag_buffer);
        let front1 = w0;
        let front2 = front1 + w1;
        lemma_holds_at_last(s, at, front2, w2);
        lemma_holds_at_last(s, at, front1, w1);
        Uuid::lemma_round_trip(v.topic_id, s, at);
        CompactArray::<FetchPartitionRequest>::lemma_round_trip(v.partitions, s, at + front1.len());
        TagBuffer::lemma_round_trip(v.tag_buffer, s, at + front2.len());
    }
}

/// A topic that a fetch session drops.
#[derive(Debug, Clone, PartialEq, Eq)]
pub struct ForgottenTopicRequest {
    pub topic_id: Uuid,
    pub partitions: i32,
    pub tag_buffer: TagBuffer,
}

/// The value that a [`ForgottenTopicRequest`] stands for.
pub struct ForgottenTopicRequestModel {
    pub topic_id: u128,
    pub partitions: i32,
    pub tag_buffer: TagBufferModel,
}

impl Model for ForgottenTopicRequest {
    type M = ForgottenTopicRequestModel;

    open spec fn model(&self) -> ForgottenTopicRequestModel {
        ForgottenTopicRequestModel {
            topic_id: self.topic_id.model(),
            partitions: self.partitions.model(),
            tag_buffer: self.tag_buffer.model(),
        }
    }

    fn duplicate(&self) -> (r: Self) {
        ForgottenTopicRequest {
            topic_id: self.topic_id.duplicate(),
            partitions: self.partitions.duplicate(),
            tag_buffer: self.tag_buffer.duplicate(),
        }
    }
}

impl Encode for ForgottenTopicRequest {
    open spec fn wire(v: ForgottenTopicRequestModel) -> Seq<u8> {
        Uuid::wire(v.topic_id)
            + i32::wire(v.partitions)
            + TagBuffer::wire(v.tag_buffer)
    }

    open spec fn encodable(v: ForgottenTopicRequestModel) -> bool {
        &&& Uuid::encodable(v.topic_id)
        &&& i32::encodable(v.partitions)
        &&& TagBuffer::encodable(v.tag_buffer)
    }

    fn is_encodable(&self) -> (b: bool) {
        self.topic_id.is_encodable()
            && self.partitions.is_encodable()
            && self.tag_buffer.is_encodable()
    }

    fn encode(&self) -> (out: Vec<u8>) {
        let mut out = self.topic_id.encode();
        let mut piece = self.partitions.encode();
        out.append(&mut piece);
        let mut piece = self.tag_buffer.encode();
        out.append(&mut piece);
        out
    }
}

impl Decode for ForgottenTopicRequest {
    open spec fn parse(s: Seq<u8>, at: int) -> Parsed<ForgottenTopicRequestModel> {
        let topic_id = Uuid::parse(s, at);
        let partitions = i32::parse(s, end_of(topic_id));
        let tag_buffer = TagBuffer::parse(s, end_of(partitions));
        if topic_id is Err {
            Err(error_of(topic_id))
        } else if partitions is Err {
            Err(error_of(partitions))
        } else if tag_buffer is Err {
            Err(error_of(tag_buffer))
        } else {
            Ok((
                ForgottenTopicRequestModel {
                    topic_id: value_of(topic_id),
                    partitions: value_of(partitions),
                    tag_buffer: value_of(tag_buffer),
                },
                end_of(tag_buffer),
            ))
        }
    }

    proof fn lemma_parse_in_bounds(s: Seq<u8>, at: int) {
        Uuid::lemma_parse_in_bounds(s, at);
        let topic_id = Uuid::parse(s, at);
        i32::lemma_parse_in_bounds(s, end_of(topic_id));
        let partitions = i32::parse(s, end_of(topic_id));
        TagBuffer::lemma_parse_in_bounds(s, end_of(partitions));
    }

    proof fn lemma_parse_extends(s: Seq<u8>, t: Seq<u8>, at: int) {
        Uuid::lemma_parse_extends(s, t, at);
        let topic_id = Uuid::parse(s, at);
        i32::lemma_parse_extends(s, t, end_of(topic_id));
        let partitions = i32::parse(s, end_of(topic_id));
        TagBuffer::lemma_parse_extends(s, t, end_of(partitions));
    }

    fn decode(buffer: &mut Cursor) -> (r: DecodeResult<Self>) {
        let topic_id = Uuid::decode(buffer)?;
        let partitions = i32::decode(buffer)?;
        let tag_buffer = TagBuffer::decode(buffer)?;
        Ok(ForgottenTopicRequest { topic_id, partitions, tag_buffer })
    }
}

impl Codec for ForgottenTopicRequest {
    open spec fn canonical(v: ForgottenTopicRequestModel) -> bool {
        &&& Uuid::canonical(v.topic_id)
        &&& i32::canonical(v.partitions)
        &&& TagBuffer::canonical(v.tag_buffer)
    }

    proof fn lemma_round_trip(v: ForgottenTopicRequestModel, s: Seq<u8>, at: int) {
        let w0 = Uuid::wire(v.topic_id);
        let w1 = i32::wire(v.partitions);
        let w2 = TagBuffer::wire(v.tag_buffer);
        let front1 = w0;
        let front2 = front1 + w1;
        lemma_holds_at_last(s, at, front2, w2);
        lemma_holds_at_last(s, at, front1, w1);
        Uuid::lemma_round_trip(v.topic_id, s, at);
        i32::lemma_round_trip(v.partitions, s, at + front1.len());
        TagBuffer::lemma_round_trip(v.tag_buffer, s, at + front2.len());
    }
}

/// The body of a Fetch request of version 16.
#[derive(Debug, Clone, PartialEq, Eq)]
pub struct FetchRequestBodyV16 {
    pub max_wait_ms: i32,
    pub min_bytes: i32,
    pub max_bytes: i32,
    pub isolation_level: i8,
    pub session_id: i32,
    pub session_epoch: i32,
    pub topics: CompactArray<FetchTopicRequest>,
    pub forgotten_topics_data: CompactArray<ForgottenTopicRequest>,
    pub rack_id: CompactString,
    pub tag_buffer: TagBuffer,
}

/// The value that a [`FetchRequestBodyV16`] stands for.
pub struct FetchRequestBodyV16Model {
    pub max_wait_ms: i32,
    pub min_bytes: i32,
    pub max_bytes: i32,
    pub isolation_level: i8,
    pub session_id: i32,
    pub session_epoch: i32,
    pub topics: Option<Seq<FetchTopicRequestModel>>,
    pub forgotten_topics_data: Option<Seq<ForgottenTopicRequestModel>>,
    pub rack_id: Seq<char>,
    pub tag_buffer: TagBufferModel,
}

impl Model for FetchRequestBodyV16 {
    type M = FetchRequestBodyV16Model;

    open spec fn model(&self) -> FetchRequestBodyV16Model {
        FetchRequestBodyV16Model {
            max_wait_ms: self.max_wait_ms.model(),
            min_bytes: self.min_bytes.model(),
            max_bytes: self.max_bytes.model(),
            isolation_level: self.isolation_level.model(),
            session_id: self.session_id.model(),
            session_epoch: self.session_epoch.model(),
            topics: self.topics.model(),
            forgotten_topics_data: self.forgotten_topics_data.model(),
            rack_id: self.rack_id.model(),
            tag_buffer: self.tag_buffer.model(),
        }
    }

    fn duplicate(&self) -> (r: Self) {
        FetchRequestBodyV16 {
            max_wait_ms: self.max_wait_ms.duplicate(),
            min_bytes: self.min_bytes.duplicate(),
            max_bytes: self.max_bytes.duplicate(),
            isolation_level: self.isolation_level.duplicate(),
            session_id: self.session_id.duplicate(),
            session_epoch: self.session_epoch.duplicate(),
            topics: self.topics.duplicate(),
            forgotten_topics_data: self.forgotten_topics_data.duplicate(),
            rack_id: self.rack_id.duplicate(),
            tag_buffer: self.tag_buffer.duplicate(),
        }
    }
}

impl Encode for FetchRequestBodyV16 {
    open spec fn wire(v: FetchRequestBodyV16Model) -> Seq<u8> {
        i32::wire(v.max_wait_ms)
            + i32::wire(v.min_bytes)
            + i32::wire(v.max_bytes)
            + i8::wire(v.isolation_level)
            + i32::wire(v.session_id)
            + i32::wire(v.session_epoch)
            + CompactArray::<FetchTopicRequest>::wire(v.topics)
            + CompactArray::<ForgottenTopicRequest>::wire(v.forgotten_topics_data)
            + CompactString::wire(v.rack_id)
            + TagBuffer::wire(v.tag_buffer)
    }

    open spec fn encodable(v: FetchRequestBodyV16Model) -> bool {
        &&& i32::encodable(v.max_wait_ms)
        &&& i32::encodable(v.min_bytes)
        &&& i32::encodable(v.max_bytes)
        &&& i8::encodable(v.isolation_level)
        &&& i32::encodable(v.session_id)
        &&& i32::encodable(v.session_epoch)
        &&& CompactArray::<FetchTopicRequest>::encodable(v.topics)
        &&& CompactArray::<ForgottenTopicRequest>::encodable(v.forgotten_topics_data)
        &&& CompactString::encodable(v.rack_id)
        &&& TagBuffer::encodable(v.tag_buffer)
    }

    fn is_encodable(&self) -> (b: bool) {
        self.max_wait_ms.is_encodable()
            && self.min_bytes.is_encodable()
            && self.max_bytes.is_encodable()
            && self.isolation_level.is_encodable()
            && self.session_id.is_encodable()
            && self.session_epoch.is_encodable()
            && self.topics.is_encodable()
            && self.forgotten_topics_data.is_encodable()
            && self.rack_id.is_encodable()
            && self.tag_buffer.is_encodable()
    }

    fn encode(&self) -> (out: Vec<u8>) {
        let mut out = self.max_wait_ms.encode();
        let mut piece = self.min_bytes.encode();
        out.append(&mut piece);
        let mut piece = self.max_bytes.encode();
        out.append(&mut piece);
        let mut piece = self.isolation_level.encode();
        out.append(&mut piece);
        let mut piece = self.session_id.encode();
        out.append(&mut piece);
        let mut piece = self.session_epoch.encode();
        out.append(&mut piece);
        let mut piece = self.topics.encode();
        out.append(&mut piece);
        let mut piece = self.forgotten_topics_data.encode();
        out.append(&mut piece);
        let mut piece = self.rack_id.encode();
        out.append(&mut piece);
        let mut piece = self.tag_buffer.encode();
        out.append(&mut piece);
        out
    }
}

impl Decode for FetchRequestBodyV16 {
    open spec fn parse(s: Seq<u8>, at: int) -> Parsed<FetchRequestBodyV16Model> {
        let max_wait_ms = i32::parse(s, at);
        let min_bytes = i32::parse(s, end_of(max_wait_ms));
        let max_bytes = i32::parse(s, end_of(min_bytes));
        let isolation_level = i8::parse(s, end_of(max_bytes));
        let session_id = i32::parse(s, end_of(isolation_level));
        let session_epoch = i32::parse(s, end_of(session_id));
        let topics = CompactArray::<FetchTopicRequest>::parse(s, end_of(session_epoch));
        let forgotten_topics_data = CompactArray::<ForgottenTopicRequest>::parse(s, end_of(topics));
        let rack_id = CompactString::parse(s, end_of(forgotten_topics_data));
        let tag_buffer = TagBuffer::parse(s, end_of(rack_id));
        if max_wait_ms is Err {
            Err(error_of(max_wait_ms))
        } else if min_bytes is Err {
            Err(error_of(min_bytes))
        } else if max_bytes is Err {
            Err(error_of(max_bytes))
        } else if isolation_level is Err {
            Err(error_of(isolation_level))
        } else if session_id is Err {
            Err(error_of(session_id))
        } else if session_epoch is Err {
            Err(error_of(session_epoch))
        } else if topics is Err {
            Err(error_of(topics))
        } else if forgotten_topics_data is Err {
            Err(error_of(forgotten_topics_data))
        } else if rack_id is Err {
            Err(error_of(rack_id))
        } else if tag_buffer is Err {
            Err(error_of(tag_buffer))
        } else {
            Ok((
                FetchRequestBodyV16Model {
                    max_wait_ms: value_of(max_wait_ms),
                    min_bytes: value_of(min_bytes),
                    max_bytes: value_of(max_bytes),
                    isolation_level: value_of(isolation_level),
                    session_id: value_of(session_id),
                    session_epoch: value_of(session_epoch),
                    topics: value_of(topics),
                    forgotten_topics_data: value_of(forgotten_topics_data),
                    rack_id: value_of(rack_id),
                    tag_buffer: value_of(tag_buffer),
                },
                end_of(tag_buffer),
            ))
        }
    }

    proof fn lemma_parse_in_bounds(s: Seq<u8>, at: int) {
        i32::lemma_parse_in_bounds(s, at);
        let max_wait_ms = i32::parse(s, at);
        i32::lemma_parse_in_bounds(s, end_of(max_wait_ms));
        let min_bytes = i32::parse(s, end_of(max_wait_ms));
        i32::lemma_parse_in_bounds(s, end_of(min_bytes));
        let max_bytes = i32::parse(s, end_of(min_bytes));
        i8::lemma_parse_in_bounds(s, end_of(max_bytes));
        let isolation_level = i8::parse(s, end_of(max_bytes));
        i32::lemma_parse_in_bounds(s, end_of(isolation_level));
        let session_id = i32::parse(s, end_of(isolation_level));
        i32::lemma_parse_in_bounds(s, end_of(session_id));
        let session_epoch = i32::parse(s, end_of(session_id));
        CompactArray::<FetchTopicRequest>::lemma_parse_in_bounds(s, end_of(session_epoch));
        let topics = CompactArray::<FetchTopicRequest>::parse(s, end_of(session_epoch));
        CompactArray::<ForgottenTopicRequest>::lemma_parse_in_bounds(s, end_of(topics));
        let forgotten_topics_data = CompactArray::<ForgottenTopicRequest>::parse(s, end_of(topics));
        CompactString::lemma_parse_in_bounds(s, end_of(forgotten_topics_data));
        let rack_id = CompactString::parse(s, end_of(forgotten_topics_data));
        TagBuffer::lemma_parse_in_bounds(s, end_of(rack_id));
    }

    proof fn lemma_parse_extends(s: Seq<u8>, t: Seq<u8>, at: int) {
        i32::lemma_parse_extends(s, t, at);
        let max_wait_ms = i32::parse(s, at);
        i32::lemma_parse_extends(s, t, end_of(max_wait_ms));
        let min_bytes = i32::parse(s, end_of(max_wait_ms));
        i32::lemma_parse_extends(s, t, end_of(min_bytes));
        let max_bytes = i32::parse(s, end_of(min_bytes));
        i8::lemma_parse_extends(s, t, end_of(max_bytes));
        let isolation_level = i8::parse(s, end_of(max_bytes));
        i32::lemma_parse_extends(s, t, end_of(isolation_level));
        let session_id = i32::parse(s, end_of(isolation_level));
        i32::lemma_parse_extends(s, t, end_of(session_id));
        let session_epoch = i32::parse(s, end_of(session_id));
        CompactArray::<FetchTopicRequest>::lemma_parse_extends(s, t, end_of(session_epoch));
        let topics = CompactArray::<FetchTopicRequest>::parse(s, end_of(session_epoch));
        CompactArray::<ForgottenTopicRequest>::lemma_parse_extends(s, t, end_of(topics));
        let forgotten_topics_data = CompactArray::<ForgottenTopicRequest>::parse(s, end_of(topics));
        CompactString::lemma_parse_extends(s, t, end_of(forgotten_topics_data));
        let rack_id = CompactString::parse(s, end_of(forgotten_topics_data));
        TagBuffer::lemma_parse_extends(s, t, end_of(rack_id));
    }

    fn decode(buffer: &mut Cursor) -> (r: DecodeResult<Self>) {
        let max_wait_ms = i32::decode(buffer)?;
        let min_bytes = i32::decode(buffer)?;
        let max_bytes = i32::decode(buffer)?;
        let isolation_level = i8::decode(buffer)?;
        let session_id = i32::decode(buffer)?;
        let session_epoch = i32::decode(buffer)?;
        let topics = CompactArray::<FetchTopicRequest>::decode(buffer)?;
        let forgotten_topics_data = CompactArray::<ForgottenTopicRequest>::decode(buffer)?;
        let rack_id = CompactString::decode(buffer)?;
        let tag_buffer = TagBuffer::decode(buffer)?;
        Ok(FetchRequestBodyV16 { max_wait_ms, min_bytes, max_bytes, isolation_level, session_id, session_epoch, topics, forgotten_topics_data, rack_id, tag_buffer })
    }
}

impl Codec for FetchRequestBodyV16 {
    open spec fn canonical(v: FetchRequestBodyV16Model) -> bool {
        &&& i32::canonical(v.max_wait_ms)
        &&& i32::canonical(v.min_bytes)
        &&& i32::canonical(v.max_bytes)
        &&& i8::canonical(v.isolation_level)
        &&& i32::canonical(v.session_id)
        &&& i32::canonical(v.session_epoch)
        &&& CompactArray::<FetchTopicRequest>::canonical(v.topics)
        &&& CompactArray::<ForgottenTopicRequest>::canonical(v.forgotten_topics_data)
        &&& CompactString::canonical(v.rack_id)
        &&& TagBuffer::canonical(v.tag_buffer)
    }

    proof fn lemma_round_trip(v: FetchRequestBodyV16Model, s: Seq<u8>, at: int) {
        let w0 = i32::wire(v.max_wait_ms);
        let w1 = i32::wire(v.min_bytes);
        let w2 = i32::wire(v.max_bytes);
        let w3 = i8::wire(v.isolation_level);
        let w4 = i32::wire(v.session_id);
        let w5 = i32::wire(v.session_epoch);
        let w6 = CompactArray::<FetchTopicRequest>::wire(v.topics);
        let w7 = CompactArray::<ForgottenTopicRequest>::wire(v.forgotten_topics_data);
        let w8 = CompactString::wire(v.rack_id);
        let w9 = TagBuffer::wire(v.tag_buffer);
        let front1 = w0;
        let front2 = front1 + w1;
        let front3 = front2 + w2;
        let front4 = front3 + w3;
        let front5 = front4 + w4;
        let front6 = front5 + w5;
        let front7 = front6 + w6;
        let front8 = front7 + w7;
        let front9 = front8 + w8;
        lemma_holds_at_last(s, at, front9, w9);
        lemma_holds_at_last(s, at, front8, w8);
        lemma_holds_at_last(s, at, front7, w7);
        lemma_holds_at_last(s, at, front6, w6);
        lemma_holds_at_last(s, at, front5, w5);
        lemma_holds_at_last(s, at, front4, w4);
        lemma_holds_at_last(s, at, front3, w3);
        lemma_holds_at_last(s, at, front2, w2);
        lemma_holds_at_last(s, at, front1, w1);
        i32::lemma_round_trip(v.max_wait_ms, s, at);
        i32::lemma_round_trip(v.min_bytes, s, at + front1.len());
        i32::lemma_round_trip(v.max_bytes, s, at + front2.len());
        i8::lemma_round_trip(v.isolation_level, s, at + front3.len());
        i32::lemma_round_trip(v.session_id, s, at + front4.len());
        i32::lemma_round_trip(v.session_epoch, s, at + front5.len());
        CompactArray::<FetchTopicRequest>::lemma_round_trip(v.topics, s, at + front6.len());
        CompactArray::<ForgottenTopicRequest>::lemma_round_trip(v.forgotten_topics_data, s, at + front7.len());
        CompactString::lemma_round_trip(v.rack_id, s, at + front8.len());
        TagBuffer::lemma_round_trip(v.tag_buffer, s, at + front9.len());
    }
}

/// An aborted transaction of a fetched partition.
#[derive(Debug, Clone, PartialEq, Eq)]
pub struct Transaction {
    pub producer_id: i64,
    pub first_offset: i64,
    pub tag_buffer: TagBuffer,
}

/// The value that a [`Transaction`] stands for.
pub struct TransactionModel {
    pub producer_id: i64,
    pub first_offset: i64,
    pub tag_buffer: TagBufferModel,
}

impl Model for Transaction {
    type M = TransactionModel;

    open spec fn model(&self) -> TransactionModel {
        TransactionModel {
            producer_id: self.producer_id.model(),
            first_offset: self.first_offset.model(),
            tag_buffer: self.tag_buffer.model(),
        }
    }

    fn duplicate(&self) -> (r: Self) {
        Transaction {
            producer_id: self.producer_id.duplicate(),
            first_offset: self.first_offset.duplicate(),
            tag_buffer: self.tag_buffer.duplicate(),
        }
    }
}

impl Encode for Transaction {
    open spec fn wire(v: TransactionModel) -> Seq<u8> {
        i64::wire(v.producer_id)
            + i64::wire(v.first_offset)
            + TagBuffer::wire(v.tag_buffer)
    }

    open spec fn encodable(v: TransactionModel) -> bool {
        &&& i64::encodable(v.producer_id)
        &&& i64::encodable(v.first_offset)
        &&& TagBuffer::encodable(v.tag_buffer)
    }

    fn is_encodable(&self) -> (b: bool) {
        self.producer_id.is_encodable()
            && self.first_offset.is_encodable()
            && self.tag_buffer.is_encodable()
    }

    fn encode(&self) -> (out: Vec<u8>) {
        let mut out = self.producer_id.encode();
        let mut piece = self.first_offset.encode();
        out.append(&mut piece);
        let mut piece = self.tag_buffer.encode();
        out.append(&mut piece);
        out
    }
}

impl Decode for Transaction {
    open spec fn parse(s: Seq<u8>, at: int) -> Parsed<TransactionModel> {
        let producer_id = i64::parse(s, at);
        let first_offset = i64::parse(s, end_of(producer_id));
        let tag_buffer = TagBuffer::parse(s, end_of(first_offset));
        if producer_id is Err {
            Err(error_of(producer_id))
        } else if first_offset is Err {
            Err(error_of(first_offset))
        } else if tag_buffer is Err {
            Err(error_of(tag_buffer))
        } else {
            Ok((
                TransactionModel {
                    producer_id: value_of(producer_id),
                    first_offset: value_of(first_offset),
                    tag_buffer: value_of(tag_buffer),
                },
                end_of(tag_buffer),
            ))
        }
    }

    proof fn lemma_parse_in_bounds(s: Seq<u8>, at: int) {
        i64::lemma_parse_in_bounds(s, at);
        let producer_id = i64::parse(s, at);
        i64::lemma_parse_in_bounds(s, end_of(producer_id));
        let first_offset = i64::parse(s, end_of(producer_id));
        TagBuffer::lemma_parse_in_bounds(s, end_of(first_offset));
    }

    proof fn lemma_parse_extends(s: Seq<u8>, t: Seq<u8>, at: int) {
        i64::lemma_parse_extends(s, t, at);
        let producer_id = i64::parse(s, at);
        i64::lemma_parse_extends(s, t, end_of(producer_id));
        let first_offset = i64::parse(s, end_of(producer_id));
        TagBuffer::lemma_parse_extends(s, t, end_of(first_offset));
    }

    fn decode(buffer: &mut Cursor) -> (r: DecodeResult<Self>) {
        let producer_id = i64::decode(buffer)?;
        let first_offset = i64::decode(buffer)?;
        let tag_buffer = TagBuffer::decode(buffer)?;
        Ok(Transaction { producer_id, first_offset, tag_buffer })
    }
}

impl Codec for Transaction {
    open spec fn canonical(v: TransactionModel) -> bool {
        &&& i64::canonical(v.producer_id)
        &&& i64::canonical(v.first_offset)
        &&& TagBuffer::canonical(v.tag_buffer)
    }

    proof fn lemma_round_trip(v: TransactionModel, s: Seq<u8>, at: int) {
        let w0 = i64::wire(v.producer_id);
        let w1 = i64::wire(v.first_offset);
        let w2 = TagBuffer::wire(v.tag_buffer);
        let front1 = w0;
        let front2 = front1 + w1;
        lemma_holds_at_last(s, at, front2, w2);
        lemma_holds_at_last(s, at, front1, w1);
        i64::lemma_round_trip(v.producer_id, s, at);
        i64::lemma_round_trip(v.first_offset, s, at + front1.len());
        TagBuffer::lemma_round_trip(v.tag_buffer, s, at + front2.len());
    }
}

/// What a fetch answers for one partition.
#[derive(Debug, Clone, PartialEq, Eq)]
pub struct FetchPartitionResponse {
    pub partition_index: i32,
    pub error_code: i16,
    pub high_watermark: i64,
    pub last_stable_offset: i64,
    pub log_start_offset: i64,
    pub aborted_transactions: CompactArray<Transaction>,
    pub preferred_read_replica: i32,
    pub record_batches: CompactArray<RecordBatch>,
    pub tag_buffer: TagBuffer,
}

/// The value that a [`FetchPartitionResponse`] stands for.
pub struct FetchPartitionResponseModel {
    pub partition_index: i32,
    pub error_code: i16,
    pub high_watermark: i64,
    pub last_stable_offset: i64,
    pub log_start_offset: i64,
    pub aborted_transactions: Option<Seq<TransactionModel>>,
    pub preferred_read_replica: i32,
    pub record_batches: Option<Seq<RecordBatchModel>>,
    pub tag_buffer: TagBufferModel,
}

impl Model for FetchPartitionResponse {
    type M = FetchPartitionResponseModel;

    open spec fn model(&self) -> FetchPartitionResponseModel {
        FetchPartitionResponseModel {
            partition_index: self.partition_index.model(),
            error_code: self.error_code.model(),
            high_watermark: self.high_watermark.model(),
            last_stable_offset: self.last_stable_offset.model(),
            log_start_offset: self.log_start_offset.model(),
            aborted_transactions: self.aborted_transactions.model(),
            preferred_read_replica: self.preferred_read_replica.model(),
            record_batches: self.record_batches.model(),
            tag_buffer: self.tag_buffer.model(),
        }
    }

    fn duplicate(&self) -> (r: Self) {
        FetchPartitionResponse {
            partition_index: self.partition_index.duplicate(),
            error_code: self.error_code.duplicate(),
            high_watermark: self.high_watermark.duplicate(),
            last_stable_offset: self.last_stable_offset.duplicate(),
            log_start_offset: self.log_start_offset.duplicate(),
            aborted_transactions: self.aborted_transactions.duplicate(),
            preferred_read_replica: self.preferred_read_replica.duplicate(),
            record_batches: self.record_batches.duplicate(),
            tag_buffer: self.tag_buffer.duplicate(),
        }
    }
}

impl Encode for FetchPartitionResponse {
    open spec fn wire(v: FetchPartitionResponseModel) -> Seq<u8> {
        i32::wire(v.partition_index)
            + i16::wire(v.error_code)
            + i64::wire(v.high_watermark)
            + i64::wire(v.last_stable_offset)
            + i64::wire(v.log_start_offset)
            + CompactArray::<Transaction>::wire(v.aborted_transactions)
            + i32::wire(v.preferred_read_replica)
            + CompactArray::<RecordBatch>::wire(v.record_batches)
            + TagBuffer::wire(v.tag_buffer)
    }

    open spec fn encodable(v: FetchPartitionResponseModel) -> bool {
        &&& i32::encodable(v.partition_index)
        &&& i16::encodable(v.error_code)
        &&& i64::encodable(v.high_watermark)
        &&& i64::encodable(v.last_stable_offset)
        &&& i64::encodable(v.log_start_offset)
        &&& CompactArray::<Transaction>::encodable(v.aborted_transactions)
        &&& i32::encodable(v.preferred_read_replica)
        &&& CompactArray::<RecordBatch>::encodable(v.record_batches)
        &&& TagBuffer::encodable(v.tag_buffer)
    }

    fn is_encodable(&self) -> (b: bool) {
        self.partition_index.is_encodable()
            && self.error_code.is_encodable()
            && self.high_watermark.is_encodable()
            && self.last_stable_offset.is_encodable()
            && self.log_start_offset.is_encodable()
            && self.aborted_transactions.is_encodable()
            && self.preferred_read_replica.is_encodable()
            && self.record_batches.is_encodable()
            && self.tag_buffer.is_encodable()
    }

    fn encode(&self) -> (out: Vec<u8>) {
        let mut out = self.partition_index.encode();
        let mut piece = self.error_code.encode();
        out.append(&mut piece);
        let mut piece = self.high_watermark.encode();
        out.append(&mut piece);
        let mut piece = self.last_stable_offset.encode();
        out.append(&mut piece);
        let mut piece = self.log_start_offset.encode();
        out.append(&mut piece);
        let mut piece = self.aborted_transactions.encode();
        out.append(&mut piece);
        let mut piece = self.preferred_read_replica.encode();
        out.append(&mut piece);
        let mut piece = self.record_batches.encode();
        out.append(&mut piece);
        let mut piece = self.tag_buffer.encode();
        out.append(&mut piece);
        out
    }
}

impl Decode for FetchPartitionResponse {
    open spec fn parse(s: Seq<u8>, at: int) -> Parsed<FetchPartitionResponseModel> {
        let partition_index = i32::parse(s, at);
        let error_code = i16::parse(s, end_of(partition_index));
        let high_watermark = i64::parse(s, end_of(error_code));
        let last_stable_offset = i64::parse(s, end_of(high_watermark));
        let log_start_offset = i64::parse(s, end_of(last_stable_offset));
        let aborted_transactions = CompactArray::<Transaction>::parse(s, end_of(log_start_offset));
        let preferred_read_replica = i32::parse(s, end_of(aborted_transactions));
        let record_batches = CompactArray::<RecordBatch>::parse(s, end_of(preferred_read_replica));
        let tag_buffer = TagBuffer::parse(s, end_of(record_batches));
        if partition_index is Err {
            Err(error_of(partition_index))
        } else if error_code is Err {
            Err(error_of(error_code))
        } else if high_watermark is Err {
            Err(error_of(high_watermark))
        } else if last_stable_offset is Err {
            Err(error_of(last_stable_offset))
        } else if log_start_offset is Err {
            Err(error_of(log_start_offset))
        } else if aborted_transactions is Err {
            Err(error_of(aborted_transactions))
        } else if preferred_read_replica is Err {
            Err(error_of(preferred_read_replica))
        } else if record_batches is Err {
            Err(error_of(record_batches))
        } else if tag_buffer is Err {
            Err(error_of(tag_buffer))
        } else {
            Ok((
                FetchPartitionResponseModel {
                    partition_index: value_of(partition_index),
                    error_code: value_of(error_code),
                    high_watermark: value_of(high_watermark),
                    last_stable_offset: value_of(last_stable_offset),
                    log_start_offset: value_of(log_start_offset),
                    aborted_transactions: value_of(aborted_transactions),
                    preferred_read_replica: value_of(preferred_read_replica),
                    record_batches: value_of(record_batches),
                    tag_buffer: value_of(tag_buffer),
                },
                end_of(tag_buffer),
            ))
        }
    }

    proof fn lemma_parse_in_bounds(s: Seq<u8>, at: int) {
        i32::lemma_parse_in_bounds(s, at);
        let partition_index = i32::parse(s, at);
        i16::lemma_parse_in_bounds(s, end_of(partition_index));
        let error_code = i16::parse(s, end_of(partition_index));
        i64::lemma_parse_in_bounds(s, end_of(error_code));
        let high_watermark = i64::parse(s, end_of(error_code));
        i64::lemma_parse_in_bounds(s, end_of(high_watermark));
        let last_stable_offset = i64::parse(s, end_of(high_watermark));
        i64::lemma_parse_in_bounds(s, end_of(last_stable_offset));
        let log_start_offset = i64::parse(s, end_of(last_stable_offset));
        CompactArray::<Transaction>::lemma_parse_in_bounds(s, end_of(log_start_offset));
        let aborted_transactions = CompactArray::<Transaction>::parse(s, end_of(log_start_offset));
        i32::lemma_parse_in_bounds(s, end_of(aborted_transactions));
        let preferred_read_replica = i32::parse(s, end_of(aborted_transactions));
        CompactArray::<RecordBatch>::lemma_parse_in_bounds(s, end_of(preferred_read_replica));
        let record_batches = CompactArray::<RecordBatch>::parse(s, end_of(preferred_read_replica));
        TagBuffer::lemma_parse_in_bounds(s, end_of(record_batches));
    }

    proof fn lemma_parse_extends(s: Seq<u8>, t: Seq<u8>, at: int) {
        i32::lemma_parse_extends(s, t, at);
        let partition_index = i32::parse(s, at);
        i16::lemma_parse_extends(s, t, end_of(partition_index));
        let error_code = i16::parse(s, end_of(partition_index));
        i64::lemma_parse_extends(s, t, end_of(error_code));
        let high_watermark = i64::parse(s, end_of(error_code));
        i64::lemma_parse_extends(s, t, end_of(high_watermark));
        let last_stable_offset = i64::parse(s, end_of(high_watermark));
        i64::lemma_parse_extends(s, t, end_of(last_stable_offset));
        let log_start_offset = i64::parse(s, end_of(last_stable_offset));
        CompactArray::<Transaction>::lemma_parse_extends(s, t, end_of(log_start_offset));
        let aborted_transactions = CompactArray::<Transaction>::parse(s, end_of(log_start_offset));
        i32::lemma_parse_extends(s, t, end_of(aborted_transactions));
        let preferred_read_replica = i32::parse(s, end_of(aborted_transactions));
        CompactArray::<RecordBatch>::lemma_parse_extends(s, t, end_of(preferred_read_replica));
        let record_batches = CompactArray::<RecordBatch>::parse(s, end_of(preferred_read_replica));
        TagBuffer::lemma_parse_extends(s, t, end_of(record_batches));
    }

    fn decode(buffer: &mut Cursor) -> (r: DecodeResult<Self>) {
        let partition_index = i32::decode(buffer)?;
        let error_code = i16::decode(buffer)?;
        let high_watermark = i64::decode(buffer)?;
        let last_stable_offset = i64::decode(buffer)?;
        let log_start_offset = i64::decode(buffer)?;
        let aborted_transactions = CompactArray::<Transaction>::decode(buffer)?;
        let preferred_read_replica = i32::decode(buffer)?;
        let record_batches = CompactArray::<RecordBatch>::decode(buffer)?;
        let tag_buffer = TagBuffer::decode(buffer)?;
        Ok(FetchPartitionResponse { partition_index, error_code, high_watermark, last_stable_offset, log_start_offset, aborted_transactions, preferred_read_replica, record_batches, tag_buffer })
    }
}

impl Codec for FetchPartitionResponse {
    open spec fn canonical(v: FetchPartitionResponseModel) -> bool {
        &&& i32::canonical(v.partition_index)
        &&& i16::canonical(v.error_code)
        &&& i64::canonical(v.high_watermark)
        &&& i64::canonical(v.last_stable_offset)
        &&& i64::canonical(v.log_start_offset)
        &&& CompactArray::<Transaction>::canonical(v.aborted_transactions)
        &&& i32::canonical(v.preferred_read_replica)
        &&& CompactArray::<RecordBatch>::canonical(v.record_batches)
        &&& TagBuffer::canonical(v.tag_buffer)
    }

    proof fn lemma_round_trip(v: FetchPartitionResponseModel, s: Seq<u8>, at: int) {
        let w0 = i32::wire(v.partition_index);
        let w1 = i16::wire(v.error_code);
        let w2 = i64::wire(v.high_watermark);
        let w3 = i64::wire(v.last_stable_offset);
        let w4 = i64::wire(v.log_start_offset);
        let w5 = CompactArray::<Transaction>::wire(v.aborted_transactions);
        let w6 = i32::wire(v.preferred_read_replica);
        let w7 = CompactArray::<RecordBatch>::wire(v.record_batches);
        let w8 = TagBuffer::wire(v.tag_buffer);
        let front1 = w0;
        let front2 = front1 + w1;
        let front3 = front2 + w2;
        let front4 = front3 + w3;
        let front5 = front4 + w4;
        let front6 = front5 + w5;
        let front7 = front6 + w6;
        let front8 = front7 + w7;
        lemma_holds_at_last(s, at, front8, w8);
        lemma_holds_at_last(s, at, front7, w7);
        lemma_holds_at_last(s, at, front6, w6);
        lemma_holds_at_last(s, at, front5, w5);
        lemma_holds_at_last(s, at, front4, w4);
        lemma_holds_at_last(s, at, front3, w3);
        lemma_holds_at_last(s, at, front2, w2);
        lemma_holds_at_last(s, at, front1, w1);
        i32::lemma_round_trip(v.partition_index, s, at);
        i16::lemma_round_trip(v.error_code, s, at + front1.len());
        i64::lemma_round_trip(v.high_watermark, s, at + front2.len());
        i64::lemma_round_trip(v.last_stable_offset, s, at + front3.len());
        i64::lemma_round_trip(v.log_start_offset, s, at + front4.len());
        CompactArray::<Transaction>::lemma_round_trip(v.aborted_transactions, s, at + front5.len());
        i32::lemma_round_trip(v.preferred_read_replica, s, at + front6.len());
        CompactArray::<RecordBatch>::lemma_round_trip(v.record_batches, s, at + front7.len());
        TagBuffer::lemma_round_trip(v.tag_buffer, s, at + front8.len());
    }
}

/// What a fetch answers for one topic.
#[derive(Debug, Clone, PartialEq, Eq)]
pub struct FetchTopicResponse {
    pub topic_id: Uuid,
    pub partitions: CompactArray<FetchPartitionResponse>,
    pub tag_buffer: TagBuffer,
}

/// The value that a [`FetchTopicResponse`] stands for.
pub struct FetchTopicResponseModel {
    pub topic_id: u128,
    pub partitions: Option<Seq<FetchPartitionResponseModel>>,
    pub tag_buffer: TagBufferModel,
}

impl Model for FetchTopicResponse {
    type M = FetchTopicResponseModel;

    open spec fn model(&self) -> FetchTopicResponseModel {
        FetchTopicResponseModel {
            topic_id: self.topic_id.model(),
            partitions: self.partitions.model(),
            tag_buffer: self.tag_buffer.model(),
        }
    }

    fn duplicate(&self) -> (r: Self) {
        FetchTopicResponse {
            topic_id: self.topic_id.duplicate(),
            partitions: self.partitions.duplicate(),
            tag_buffer: self.tag_buffer.duplicate(),
        }
    }
}

impl Encode for FetchTopicResponse {
    open spec fn wire(v: FetchTopicResponseModel) -> Seq<u8> {
        Uuid::wire(v.topic_id)
            + CompactArray::<FetchPartitionResponse>::wire(v.partitions)
            + TagBuffer::wire(v.tag_buffer)
    }

    open spec fn encodable(v: FetchTopicResponseModel) -> bool {
        &&& Uuid::encodable(v.topic_id)
        &&& CompactArray::<FetchPartitionResponse>::encodable(v.partitions)
        &&& TagBuffer::encodable(v.tag_buffer)
    }

    fn is_encodable(&self) -> (b: bool) {
        self.topic_id.is_encodable()
            && self.partitions.is_encodable()
            && self.tag_buffer.is_encodable()
    }

    fn encode(&self) -> (out: Vec<u8>) {
        let mut out = self.topic_id.encode();
        let mut piece = self.partitions.encode();
        out.append(&mut piece);
        let mut piece = self.tag_buffer.encode();
        out.append(&mut piece);
        out
    }
}

impl Decode for FetchTopicResponse {
    open spec fn parse(s: Seq<u8>, at: int) -> Parsed<FetchTopicResponseModel> {
        let topic_id = Uuid::parse(s, at);
        let partitions = CompactArray::<FetchPartitionResponse>::parse(s, end_of(topic_id));
        let tag_buffer = TagBuffer::parse(s, end_of(partitions));
        if topic_id is Err {
            Err(error_of(topic_id))
        } else if partitions is Err {
            Err(error_of(partitions))
        } else if tag_buffer is Err {
            Err(error_of(tag_buffer))
        } else {
            Ok((
                FetchTopicResponseModel {
                    topic_id: value_of(topic_id),
                    partitions: value_of(partitions),
                    tag_buffer: value_of(tag_buffer),
                },
                end_of(tag_buffer),
            ))
        }
    }

    proof fn lemma_parse_in_bounds(s: Seq<u8>, at: int) {
        Uuid::lemma_parse_in_bounds(s, at);
        let topic_id = Uuid::parse(s, at);
        CompactArray::<FetchPartitionResponse>::lemma_parse_in_bounds(s, end_of(topic_id));
        let partitions = CompactArray::<FetchPartitionResponse>::parse(s, end_of(topic_id));
        TagBuffer::lemma_parse_in_bounds(s, end_of(partitions));
    }

    proof fn lemma_parse_extends(s: Seq<u8>, t: Seq<u8>, at: int) {
        Uuid::lemma_parse_extends(s, t, at);
        let topic_id = Uuid::parse(s, at);
        CompactArray::<FetchPartitionResponse>::lemma_parse_extends(s, t, end_of(topic_id));
        let partitions = CompactArray::<FetchPartitionResponse>::parse(s, end_of(topic_id));
        TagBuffer::lemma_parse_extends(s, t, end_of(partitions));
    }

    fn decode(buffer: &mut Cursor) -> (r: DecodeResult<Self>) {
        let topic_id = Uuid::decode(buffer)?;
        let partitions = CompactArray::<FetchPartitionResponse>::decode(buffer)?;
        let tag_buffer = TagBuffer::decode(buffer)?;
        Ok(FetchTopicResponse { topic_id, partitions, tag_buffer })
    }
}

impl Codec for FetchTopicResponse {
    open spec fn canonical(v: FetchTopicResponseModel) -> bool {
        &&& Uuid::canonical(v.topic_id)
        &&& CompactArray::<FetchPartitionResponse>::canonical(v.partitions)
        &&& TagBuffer::canonical(v.tag_buffer)
    }

    proof fn lemma_round_trip(v: FetchTopicResponseModel, s: Seq<u8>, at: int) {
        let w0 = Uuid::wire(v.topic_id);
        let w1 = CompactArray::<FetchPartitionResponse>::wire(v.partitions);
        let w2 = TagBuffer::wire(v.tag_buffer);
        let front1 = w0;
        let front2 = front1 + w1;
        lemma_holds_at_last(s, at, front2, w2);
        lemma_holds_at_last(s, at, front1, w1);
        Uuid::lemma_round_trip(v.topic_id, s, at);
        CompactArray::<FetchPartitionResponse>::lemma_round_trip(v.partitions, s, at + front1.len());
        TagBuffer::lemma_round_trip(v.tag_buffer, s, at + front2.len());
    }
}

/// The body of a Fetch response of version 16.
#[derive(Debug, Clone, PartialEq, Eq)]
pub struct FetchResponseBodyV16 {
    pub throttle_time_ms: i32,
    pub error_code: i16,
    pub session_id: i32,
    pub responses: CompactArray<FetchTopicResponse>,
    pub tag_buffer: TagBuffer,
}

/// The value that a [`FetchResponseBodyV16`] stands for.
pub struct FetchResponseBodyV16Model {
    pub throttle_time_ms: i32,
    pub error_code: i16,
    pub session_id: i32,
    pub responses: Option<Seq<FetchTopicResponseModel>>,
    pub tag_buffer: TagBufferModel,
}

impl Model for FetchResponseBodyV16 {
    type M = FetchResponseBodyV16Model;

    open spec fn model(&self) -> FetchResponseBodyV16Model {
        FetchResponseBodyV16Model {
            throttle_time_ms: self.throttle_time_ms.model(),
            error_code: self.error_code.model(),
            session_id: self.session_id.model(),
            responses: self.responses.model(),
            tag_buffer: self.tag_buffer.model(),
        }
    }

    fn duplicate(&self) -> (r: Self) {
        FetchResponseBodyV16 {
            throttle_time_ms: self.throttle_time_ms.duplicate(),
            error_code: self.error_code.duplicate(),
            session_id: self.session_id.duplicate(),
            responses: self.responses.duplicate(),
            tag_buffer: self.tag_buffer.duplicate(),
        }
    }
}

impl Encode for FetchResponseBodyV16 {
    open spec fn wire(v: FetchResponseBodyV16Model) -> Seq<u8> {
        i32::wire(v.throttle_time_ms)
            + i16::wire(v.error_code)
            + i32::wire(v.session_id)
            + CompactArray::<FetchTopicResponse>::wire(v.responses)
            + TagBuffer::wire(v.tag_buffer)
    }

    open spec fn encodable(v: FetchResponseBodyV16Model) -> bool {
        &&& i32::encodable(v.throttle_time_ms)
        &&& i16::encodable(v.error_code)
        &&& i32::encodable(v.session_id)
        &&& CompactArray::<FetchTopicResponse>::encodable(v.responses)
        &&& TagBuffer::encodable(v.tag_buffer)
    }

    fn is_encodable(&self) -> (b: bool) {
        self.throttle_time_ms.is_encodable()
            && self.error_code.is_encodable()
            && self.session_id.is_encodable()
            && self.responses.is_encodable()
            && self.tag_buffer.is_encodable()
    }

    fn encode(&self) -> (out: Vec<u8>) {
        let mut out = self.throttle_time_ms.encode();
        let mut piece = self.error_code.encode();
        out.append(&mut piece);
        let mut piece = self.session_id.encode();
        out.append(&mut piece);
        let mut piece = self.responses.encode();
        out.append(&mut piece);
        let mut piece = self.tag_buffer.encode();
        out.append(&mut piece);
        out
    }
}

impl Decode for FetchResponseBodyV16 {
    open spec fn parse(s: Seq<u8>, at: int) -> Parsed<FetchResponseBodyV16Model> {
        let throttle_time_ms = i32::parse(s, at);
        let error_code = i16::parse(s, end_of(throttle_time_ms));
        let session_id = i32::parse(s, end_of(error_code));
        let responses = CompactArray::<FetchTopicResponse>::parse(s, end_of(session_id));
        let tag_buffer = TagBuffer::parse(s, end_of(responses));
        if throttle_time_ms is Err {
            Err(error_of(throttle_time_ms))
        } else if error_code is Err {
            Err(error_of(error_code))
        } else if session_id is Err {
            Err(error_of(session_id))
        } else if responses is Err {
            Err(error_of(responses))
        } else if tag_buffer is Err {
            Err(error_of(tag_buffer))
        } else {
            Ok((
                FetchResponseBodyV16Model {
                    throttle_time_ms: value_of(throttle_time_ms),
                    error_code: value_of(error_code),
                    session_id: value_of(session_id),
                    responses: value_of(responses),
                    tag_buffer: value_of(tag_buffer),
                },
                end_of(tag_buffer),
            ))
        }
    }

    proof fn lemma_parse_in_bounds(s: Seq<u8>, at: int) {
        i32::lemma_parse_in_bounds(s, at);
        let throttle_time_ms = i32::parse(s, at);
        i16::lemma_parse_in_bounds(s, end_of(throttle_time_ms));
        let error_code = i16::parse(s, end_of(throttle_time_ms));
        i32::lemma_parse_in_bounds(s, end_of(error_code));
        let session_id = i32::parse(s, end_of(error_code));
        CompactArray::<FetchTopicResponse>::lemma_parse_in_bounds(s, end_of(session_id));
        let responses = CompactArray::<FetchTopicResponse>::parse(s, end_of(session_id));
        TagBuffer::lemma_parse_in_bounds(s, end_of(responses));
    }

    proof fn lemma_parse_extends(s: Seq<u8>, t: Seq<u8>, at: int) {
        i32::lemma_parse_extends(s, t, at);
        let throttle_time_ms = i32::parse(s, at);
        i16::lemma_parse_extends(s, t, end_of(throttle_time_ms));
        let error_code = i16::parse(s, end_of(throttle_time_ms));
        i32::lemma_parse_extends(s, t, end_of(error_code));
        let session_id = i32::parse(s, end_of(error_code));
        CompactArray::<FetchTopicResponse>::lemma_parse_extends(s, t, end_of(session_id));
        let responses = CompactArray::<FetchTopicResponse>::parse(s, end_of(session_id));
        TagBuffer::lemma_parse_extends(s, t, end_of(responses));
    }

    fn decode(buffer: &mut Cursor) -> (r: DecodeResult<Self>) {
        let throttle_time_ms = i32::decode(buffer)?;
        let error_code = i16::decode(buffer)?;
        let session_id = i32::decode(buffer)?;
        let responses = CompactArray::<FetchTopicResponse>::decode(buffer)?;
        let tag_buffer = TagBuffer::decode(buffer)?;
        Ok(FetchResponseBodyV16 { throttle_time_ms, error_code, session_id, responses, tag_buffer })
    }
}

impl Codec for FetchResponseBodyV16 {
    open spec fn canonical(v: FetchResponseBodyV16Model) -> bool {
        &&& i32::canonical(v.throttle_time_ms)
        &&& i16::canonical(v.error_code)
        &&& i32::canonical(v.session_id)
        &&& CompactArray::<FetchTopicResponse>::canonical(v.responses)
        &&& TagBuffer::canonical(v.tag_buffer)
    }

    proof fn lemma_round_trip(v: FetchResponseBodyV16Model, s: Seq<u8>, at: int) {
        let w0 = i32::wire(v.throttle_time_ms);
        let w1 = i16::wire(v.error_code);
        let w2 = i32::wire(v.session_id);
        let w3 = CompactArray::<FetchTopicResponse>::wire(v.responses);
        let w4 = TagBuffer::wire(v.tag_buffer);
        let front1 = w0;
        let front2 = front1 + w1;
        let front3 = front2 + w2;
        let front4 = front3 + w3;
        lemma_holds_at_last(s, at, front4, w4);
        lemma_holds_at_last(s, at, front3, w3);
        lemma_holds_at_last(s, at, front2, w2);
        lemma_holds_at_last(s, at, front1, w1);
        i32::lemma_round_trip(v.throttle_time_ms, s, at);
        i16::lemma_round_trip(v.error_code, s, at + front1.len());
        i32::lemma_round_trip(v.session_id, s, at + front2.len());
        CompactArray::<FetchTopicResponse>::lemma_round_trip(v.responses, s, at + front3.len());
        TagBuffer::lemma_round_trip(v.tag_buffer, s, at + front4.len());
    }
}

impl FetchPartitionResponse {
    /// The answer for a partition of which nothing is known but the error.
    pub fn new_empty(error_code: i16) -> (r: Self)
        ensures
            r.model() == empty_partition(error_code),
    {
        FetchPartitionResponse {
            partition_index: 0,
            error_code,
            high_watermark: 0,
            last_stable_offset: 0,
            log_start_offset: 0,
            aborted_transactions: CompactArray::empty(),
            preferred_read_replica: 0,
            record_batches: CompactArray::empty(),
            tag_buffer: TagBuffer::default(),
        }
    }
}

/// The log of one partition: the name of its topic and its index.
#[derive(Debug, Clone, PartialEq, Eq)]
pub struct PartitionLog {
    pub topic_name: CompactString,
    pub partition_index: i32,
}

impl PartitionLog {
    pub open spec fn model(&self) -> (Seq<char>, i32) {
        (self.topic_name.model(), self.partition_index)
    }
}

/// The logs that a row of log names stands for.
pub open spec fn log_names(logs: Seq<PartitionLog>) -> Seq<(Seq<char>, i32)> {
    Seq::new(logs.len(), |i: int| logs[i].model())
}

/// What a row of decoded logs holds.
pub open spec fn log_models(logs: Seq<Vec<RecordBatch>>) -> Seq<Seq<RecordBatchModel>> {
    Seq::new(logs.len(), |i: int| models(logs[i]@))
}

/// The answer for a partition without records: the error, and everything else zero or empty.
pub open spec fn empty_partition(error_code: i16) -> FetchPartitionResponseModel {
    FetchPartitionResponseModel {
        partition_index: 0,
        error_code,
        high_watermark: 0,
        last_stable_offset: 0,
        log_start_offset: 0,
        aborted_transactions: Some(Seq::empty()),
        preferred_read_replica: 0,
        record_batches: Some(Seq::empty()),
        tag_buffer: TagBufferModel { fields: None },
    }
}

/// The answer for a topic whose identifier the index does not hold: one
/// partition entry with error 100 and no records.
pub open spec fn unknown_topic_answer(topic_id: u128) -> FetchTopicResponseModel {
    FetchTopicResponseModel {
        topic_id,
        partitions: Some(seq![empty_partition(100)]),
        tag_buffer: TagBufferModel { fields: None },
    }
}

/// The answer for one partition of a known topic: the batches of its log,
/// no error, zero watermarks and no list of aborted transactions.
pub open spec fn partition_answer(
    topic_id: u128,
    partition_index: i32,
    batches: Seq<RecordBatchModel>,
) -> FetchTopicResponseModel {
    FetchTopicResponseModel {
        topic_id,
        partitions: Some(
            seq![
                FetchPartitionResponseModel {
                    partition_index,
                    error_code: 0,
                    high_watermark: 0,
                    last_stable_offset: 0,
                    log_start_offset: 0,
                    aborted_transactions: None,
                    preferred_read_replica: 0,
                    record_batches: Some(batches),
                    tag_buffer: TagBufferModel { fields: None },
                },
            ],
        ),
        tag_buffer: TagBufferModel { fields: None },
    }
}

/// The partitions that a request names under a topic, none where the array is null.
pub open spec fn requested_partitions(topic: FetchTopicRequestModel) -> Seq<
    FetchPartitionRequestModel,
> {
    match topic.partitions {
        Some(partitions) => partitions,
        None => Seq::empty(),
    }
}

/// The topics that a request names, none where the array is null.
pub open spec fn fetch_topics(body: FetchRequestBodyV16Model) -> Seq<FetchTopicRequestModel> {
    match body.topics {
        Some(topics) => topics,
        None => Seq::empty(),
    }
}

/// The logs that the answer for one topic is read from: one for each
/// requested partition of a known topic, none for an unknown topic.
pub open spec fn topic_wants(index: TopicIndexModel, topic: FetchTopicRequestModel) -> Seq<
    (Seq<char>, i32),
> {
    match lookup_id(index.topics, topic.topic_id) {
        None => Seq::empty(),
        Some(name) => Seq::new(
            requested_partitions(topic).len(),
            |i: int| (name, requested_partitions(topic)[i].partition_index),
        ),
    }
}

/// The logs that the answer for a row of topics is read from, in the order of the request.
pub open spec fn wants(index: TopicIndexModel, topics: Seq<FetchTopicRequestModel>) -> Seq<
    (Seq<char>, i32),
>
    decreases topics.len(),
{
    if topics.len() == 0 {
        Seq::empty()
    } else {
        wants(index, topics.drop_last()) + topic_wants(index, topics.last())
    }
}

/// The entries that answer one topic, given the logs of its partitions:
/// one entry for each requested partition of a known topic, and a single
/// entry with error 100 for an unknown topic.
pub open spec fn topic_answers(
    index: TopicIndexModel,
    topic: FetchTopicRequestModel,
    logs: Seq<Seq<RecordBatchModel>>,
) -> Seq<FetchTopicResponseModel> {
    match lookup_id(index.topics, topic.topic_id) {
        None => seq![unknown_topic_answer(topic.topic_id)],
        Some(name) => Seq::new(
            requested_partitions(topic).len(),
            |i: int|
                partition_answer(
                    topic.topic_id,
                    requested_partitions(topic)[i].partition_index,
                    logs[i],
                ),
        ),
    }
}

/// The entries that answer a row of topics, given the logs in the order of [`wants`].
pub open spec fn answers(
    index: TopicIndexModel,
    topics: Seq<FetchTopicRequestModel>,
    logs: Seq<Seq<RecordBatchModel>>,
) -> Seq<FetchTopicResponseModel>
    decreases topics.len(),
{
    if topics.len() == 0 {
        Seq::empty()
    } else {
        let used = wants(index, topics.drop_last()).len() as int;
        answers(index, topics.drop_last(), logs.take(used)) + topic_answers(
            index,
            topics.last(),
            logs.skip(used),
        )
    }
}

/// A Fetch request is answered in versions 0 to 16.
pub open spec fn fetch_version_supported(request_api_version: i16) -> bool {
    0 <= request_api_version <= 16
}

/// The logs that the answer to a Fetch request is read from. A request that
/// is refused for its version reads none.
pub open spec fn fetch_wants(
    header: RequestHeaderV2Model,
    body: FetchRequestBodyV16Model,
    index: TopicIndexModel,
) -> Seq<(Seq<char>, i32)> {
    if fetch_version_supported(header.request_api_version) {
        wants(index, fetch_topics(body))
    } else {
        Seq::empty()
    }
}

/// The answer to a Fetch request, given the logs in the order of
/// [`fetch_wants`]. A request of a version that is not supported is refused
/// in the shape of an ApiVersions response.
pub open spec fn fetch_response(
    header: RequestHeaderV2Model,
    body: FetchRequestBodyV16Model,
    index: TopicIndexModel,
    logs: Seq<Seq<RecordBatchModel>>,
) -> ResponseMessageModel {
    if !fetch_version_supported(header.request_api_version) {
        v0_response(header.correlation_id, unsupported_version_body())
    } else {
        ResponseMessageModel {
            message_size: 0,
            header: ResponseHeaderModel::ResponseHeaderV1(
                ResponseHeaderV1Model {
                    correlation_id: header.correlation_id,
                    tag_buffer: TagBufferModel { fields: None },
                },
            ),
            body: ResponseBodyModel::FetchV16(
                FetchResponseBodyV16Model {
                    throttle_time_ms: 0,
                    error_code: 0,
                    session_id: 0,
                    responses: Some(answers(index, fetch_topics(body), logs)),
                    tag_buffer: TagBufferModel { fields: None },
                },
            ),
        }
    }
}

/// Names the logs that the answer to a Fetch request is read from, in the
/// order in which [`execute_fetch`] takes them.
pub fn fetch_log_requests(
    header: &RequestHeaderV2,
    body: &FetchRequestBodyV16,
    index: &TopicIndex,
) -> (r: Vec<PartitionLog>)
    ensures
        log_names(r@) == fetch_wants(header.model(), body.model(), index.model()),
{
    let mut out: Vec<PartitionLog> = Vec::new();
    let request_api_version: i16 = header.request_api_version;
    if request_api_version < 0 || request_api_version > 16 {
        proof {
            assert(log_names(out@) =~= Seq::<(Seq<char>, i32)>::empty());
        }
        return out;
    }
    let ghost all = fetch_topics(body.model());
    let ghost m = index.model();
    proof {
        assert(log_names(out@) =~= Seq::<(Seq<char>, i32)>::empty());
        assert(all.take(0) =~= Seq::<FetchTopicRequestModel>::empty());
    }
    match body.topics.get_inner() {
        Some(topics) => {
            let mut i: usize = 0;
            while i < topics.len()
                invariant
                    i <= topics@.len(),
                    all == models(topics@),
                    m == index.model(),
                    log_names(out@) == wants(m, all.take(i as int)),
                decreases topics@.len() - i,
            {
                let request_topic = &topics[i];
                let ghost topic = request_topic.model();
                let ghost before = log_names(out@);
                proof {
                    assert(all.take(i + 1).last() == topic);
                    assert(all.take(i + 1).drop_last() =~= all.take(i as int));
                }
                match index.topic_name(&request_topic.topic_id) {
                    Some(topic_name) => {
                        let ghost name = topic_name.model();
                        match request_topic.partitions.get_inner() {
                            Some(partitions) => {
                                let mut j: usize = 0;
                                while j < partitions.len()
                                    invariant
                                        j <= partitions@.len(),
                                        name == topic_name.model(),
                                        requested_partitions(topic) == models(partitions@),
                                        log_names(out@) == before + Seq::new(
                                            j as nat,
                                            |k: int|
                                                (
                                                    name,
                                                    requested_partitions(topic)[k].partition_index,
                                                ),
                                        ),
                                    decreases partitions@.len() - j,
                                {
                                    let log = PartitionLog {
                                        topic_name: topic_name.duplicate(),
                                        partition_index: partitions[j].partition_index,
                                    };
                                    proof {
                                        assert(models(partitions@)[j as int]
                                            == partitions@[j as int].model());
                                        assert(log_names(out@.push(log)) =~= log_names(out@).push(
                                            log.model(),
                                        ));
                                        assert(log_names(out@).push(log.model()) =~= before + Seq::new(
                                            (j + 1) as nat,
                                            |k: int|
                                                (
                                                    name,
                                                    requested_partitions(topic)[k].partition_index,
                                                ),
                                        ));
                                    }
                                    out.push(log);
                                    j = j + 1;
                                }
                            },
                            None => {
                                proof {
                                    assert(log_names(out@) =~= before + topic_wants(m, topic));
                                }
                            },
                        }
                    },
                    None => {
                        proof {
                            assert(log_names(out@) =~= before + topic_wants(m, topic));
                        }
                    },
                }
                i = i + 1;
            }
            proof {
                assert(all.take(topics@.len() as int) =~= all);
            }
        },
        None => {},
    }
    out
}

/// Decodes the contents of partition logs, each a row of record batches.
/// The first log that does not decode to its end gives its error.
pub fn decode_logs(contents: &Vec<Vec<u8>>) -> (r: DecodeResult<Vec<Vec<RecordBatch>>>)
    ensures
        match r {
            Ok(logs) => {
                &&& logs@.len() == contents@.len()
                &&& forall|i: int|
                    0 <= i < contents@.len() ==> parse_batches(#[trigger] contents@[i]@, 0)
                        == Ok::<(Seq<RecordBatchModel>, int), DecodeError>(
                        (models(logs@[i]@), contents@[i]@.len() as int),
                    )
            },
            Err(e) => exists|i: int|
                0 <= i < contents@.len() && parse_batches(#[trigger] contents@[i]@, 0) == Err::<
                    (Seq<RecordBatchModel>, int),
                    DecodeError,
                >(e) && forall|j: int| 0 <= j < i ==> parse_batches(#[trigger] contents@[j]@, 0) is Ok,
        },
{
    let mut logs: Vec<Vec<RecordBatch>> = Vec::new();
    let mut i: usize = 0;
    while i < contents.len()
        invariant
            i <= contents@.len(),
            logs@.len() == i,
            forall|j: int|
                0 <= j < i ==> parse_batches(#[trigger] contents@[j]@, 0) == Ok::<
                    (Seq<RecordBatchModel>, int),
                    DecodeError,
                >((models(logs@[j]@), contents@[j]@.len() as int)),
        decreases contents@.len() - i,
    {
        match read_record_batches(contents[i].as_slice()) {
            Ok(batches) => {
                logs.push(batches);
            },
            Err(e) => {
                return Err(e);
            },
        }
        i = i + 1;
    }
    Ok(logs)
}

/// Answers a Fetch request from the index and the logs that
/// [`fetch_log_requests`] names, decoded and in the same order.
pub fn execute_fetch(
    header: &RequestHeaderV2,
    body: &FetchRequestBodyV16,
    index: &TopicIndex,
    logs: &Vec<Vec<RecordBatch>>,
) -> (r: ResponseMessage)
    requires
        logs@.len() == fetch_wants(header.model(), body.model(), index.model()).len(),
    ensures
        r.model() == fetch_response(
            header.model(),
            body.model(),
            index.model(),
            log_models(logs@),
        ),
{
    let request_api_version: i16 = header.request_api_version;
    let correlation_id: i32 = header.correlation_id;
    if request_api_version < 0 || request_api_version > 16 {
        return unsupported_version_response(correlation_id);
    }
    let ghost all = fetch_topics(body.model());
    let ghost m = index.model();
    let ghost given = log_models(logs@);
    let mut fetch_topics_out: Vec<FetchTopicResponse> = Vec::new();
    let total: usize = logs.len();
    let mut used: usize = 0;
    proof {
        assert(models(fetch_topics_out@) =~= Seq::<FetchTopicResponseModel>::empty());
        assert(all.take(0) =~= Seq::<FetchTopicRequestModel>::empty());
    }
    match body.topics.get_inner() {
        Some(topics) => {
            let mut i: usize = 0;
            while i < topics.len()
                invariant
                    i <= topics@.len(),
                    all == models(topics@),
                    m == index.model(),
                    given == log_models(logs@),
                    logs@.len() == wants(m, all).len(),
                    used == wants(m, all.take(i as int)).len(),
                    used <= logs@.len() == total,
                    models(fetch_topics_out@) == answers(m, all.take(i as int), given.take(
                        used as int,
                    )),
                decreases topics@.len() - i,
            {
                let request_topic = &topics[i];
                let ghost topic = request_topic.model();
                let ghost before = models(fetch_topics_out@);
                let ghost start = used;
                proof {
                    assert(all.take(i + 1).last() == topic);
                    assert(all.take(i + 1).drop_last() =~= all.take(i as int));
                    lemma_wants_prefix(m, all, i + 1);
                }
                match index.topic_name(&request_topic.topic_id) {
                    Some(_topic_name) => {
                        match request_topic.partitions.get_inner() {
                            Some(partitions) => {
                                let mut j: usize = 0;
                                while j < partitions.len()
                                    invariant
                                        j <= partitions@.len(),
                                        given == log_models(logs@),
                                        requested_partitions(topic) == models(partitions@),
                                        topic == request_topic.model(),
                                        start + partitions@.len() <= logs@.len() == total,
                                        used == start + j,
                                        models(fetch_topics_out@) == before + Seq::new(
                                            j as nat,
                                            |k: int|
                                                partition_answer(
                                                    topic.topic_id,
                                                    requested_partitions(topic)[k].partition_index,
                                                    given[start + k],
                                                ),
                                        ),
                                    decreases partitions@.len() - j,
                                {
                                    let record_batches = Some(duplicate_batches(&logs[used]));
                                    let mut entries: Vec<FetchPartitionResponse> = Vec::new();
                                    entries.push(
                                        FetchPartitionResponse {
                                            partition_index: partitions[j].partition_index,
                                            error_code: 0,
                                            high_watermark: 0,
                                            last_stable_offset: 0,
                                            log_start_offset: 0,
                                            aborted_transactions: CompactArray::default(),
                                            preferred_read_replica: 0,
                                            record_batches: CompactArray::new(record_batches),
                                            tag_buffer: TagBuffer::default(),
                                        },
                                    );
                                    let resp_topic = FetchTopicResponse {
                                        topic_id: request_topic.topic_id,
                                        partitions: CompactArray::new(Some(entries)),
                                        tag_buffer: TagBuffer::default(),
                                    };
                                    proof {
                                        assert(models(partitions@)[j as int]
                                            == partitions@[j as int].model());
                                        assert(given[start + j] == models(logs@[used as int]@));
                                        assert(models(entries@) =~= seq![entries@[0].model()]);
                                        assert(resp_topic.model().partitions =~= partition_answer(
                                            topic.topic_id,
                                            requested_partitions(topic)[j as int].partition_index,
                                            given[start + j],
                                        ).partitions);
                                        assert(models(fetch_topics_out@.push(resp_topic))
                                            =~= models(fetch_topics_out@).push(resp_topic.model()));
                                        assert(models(fetch_topics_out@).push(resp_topic.model())
                                            =~= before + Seq::new(
                                            (j + 1) as nat,
                                            |k: int|
                                                partition_answer(
                                                    topic.topic_id,
                                                    requested_partitions(topic)[k].partition_index,
                                                    given[start + k],
                                                ),
                                        ));
                                    }
                                    fetch_topics_out.push(resp_topic);
                                    used = used + 1;
                                    j = j + 1;
                                }
                            },
                            None => {},
                        }
                    },
                    None => {
                        let mut entries: Vec<FetchPartitionResponse> = Vec::new();
                        entries.push(FetchPartitionResponse::new_empty(UNKNOWN_TOPIC_ID_ERROR));
                        let resp_topic = FetchTopicResponse {
                            topic_id: request_topic.topic_id,
                            partitions: CompactArray::new(Some(entries)),
                            tag_buffer: TagBuffer::default(),
                        };
                        proof {
                            assert(models(entries@) =~= seq![entries@[0].model()]);
                            assert(resp_topic.model().partitions =~= unknown_topic_answer(
                                topic.topic_id,
                            ).partitions);
                            assert(models(fetch_topics_out@.push(resp_topic)) =~= before.push(
                                resp_topic.model(),
                            ));
                        }
                        fetch_topics_out.push(resp_topic);
                    },
                }
                proof {
                    let count = topic_wants(m, topic).len() as int;
                    assert(used == start + count);
                    assert(given.take(used as int).take(start as int) =~= given.take(
                        start as int,
                    ));
                    let tail = given.take(used as int).skip(start as int);
                    assert forall|k: int| 0 <= k < count implies tail[k] == given[start + k] by {}
                    assert(models(fetch_topics_out@) =~= before + topic_answers(m, topic, tail));
                }
                i = i + 1;
            }
            proof {
                assert(all.take(topics@.len() as int) =~= all);
                assert(given.take(used as int) =~= given);
            }
        },
        None => {
            proof {
                assert(given =~= Seq::<Seq<RecordBatchModel>>::empty());
            }
        },
    }
    ResponseMessage::new(
        ResponseHeader::new_v1(correlation_id),
        ResponseBody::FetchV16(
            FetchResponseBodyV16 {
                throttle_time_ms: 0,
                error_code: 0,
                session_id: 0,
                responses: CompactArray::new(Some(fetch_topics_out)),
                tag_buffer: TagBuffer::default(),
            },
        ),
    )
}

/// The logs of the first topics of a request are the first logs of the request.
proof fn lemma_wants_prefix(index: TopicIndexModel, topics: Seq<FetchTopicRequestModel>, n: int)
    requires
        0 <= n <= topics.len(),
    ensures
        wants(index, topics.take(n)).len() <= wants(index, topics).len(),
    decreases topics.len(),
{
    if n < topics.len() {
        assert(topics.drop_last().take(n) =~= topics.take(n));
        lemma_wants_prefix(index, topics.drop_last(), n);
    } else {
        assert(topics.take(n) =~= topics);
    }
}

/// Copies a row of batches.
fn duplicate_batches(batches: &Vec<RecordBatch>) -> (r: Vec<RecordBatch>)
    ensures
        models(r@) == models(batches@),
{
    let mut out: Vec<RecordBatch> = Vec::new();
    let mut i: usize = 0;
    while i < batches.len()
        invariant
            i <= batches@.len(),
            out@.len() == i,
            forall|j: int| 0 <= j < i ==> out@[j].model() == batches@[j].model(),
        decreases batches@.len() - i,
    {
        out.push(batches[i].duplicate());
        i = i + 1;
    }
    proof {
        assert(models(out@) =~= models(batches@));
    }
    out
}

} // verus!
