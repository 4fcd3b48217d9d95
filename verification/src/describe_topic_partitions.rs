//! DescribeTopicPartitions: the request, the response and the handler that
//! answers from the topic index.
use uuid::Uuid;
use vstd::prelude::*;

use crate::api_versions::{unsupported_version_body, unsupported_version_response, v0_response};
use crate::codec::Codec;
use crate::common_struct::{CompactArray, CompactString, TagBuffer, TagBufferModel};
use crate::cursor::Cursor;
use crate::decode::{
    end_of, error_of, holds_at, lemma_holds_at_last, lemma_parse_u8, value_of, Decode,
    DecodeError, DecodeResult, Fault, Parsed,
};
use crate::encode::Encode;
use crate::metadata_log::{lookup_name, TopicIndex, TopicIndexModel};
use crate::model::{models, Model};
use crate::request_message::{RequestHeaderV2, RequestHeaderV2Model};
use crate::response_message::{
    ResponseBody, ResponseBodyModel, ResponseHeader, ResponseHeaderModel, ResponseHeaderV1Model,
    ResponseMessage, ResponseMessageModel,
};

verus! {

pub const UNKNOWN_TOPIC_OR_PARTITION: i16 = 3;

/// The operations that a client may perform on a topic, one bit each.
#[derive(Debug, Clone, Copy, PartialEq, Eq)]
pub struct TopicAuthorizedOperations {
    bits: u32,
}

impl TopicAuthorizedOperations {
    pub const UNKNOWN: u32 = 1 << 0;
    pub const ANY: u32 = 1 << 1;
    pub const ALL: u32 = 1 << 2;
    pub const READ: u32 = 1 << 3;
    pub const WRITE: u32 = 1 << 4;
    pub const CREATE: u32 = 1 << 5;
    pub const DELETE: u32 = 1 << 6;
    pub const ALTER: u32 = 1 << 7;
    pub const DESCRIBE: u32 = 1 << 8;
    pub const CLUSTER_ACTION: u32 = 1 << 9;
    pub const DESCRIBE_CONFIGS: u32 = 1 << 10;
    pub const ALTER_CONFIGS: u32 = 1 << 11;
    pub const IDEMPOTENT_WRITE: u32 = 1 << 12;
    pub const CREATE_TOKENS: u32 = 1 << 13;
    pub const DESCRIBE_TOKENS: u32 = 1 << 14;

    /// Every bit that has a meaning. They are the low bits without a gap,
    /// so the bits of a value are all known where the value is at most this.
    pub const KNOWN_BITS: u32 = 0x7fff;

    /// No bit without a meaning is set.
    pub open spec fn known(bits: u32) -> bool {
        bits <= 0x7fff
    }

    /// The flags of `bits`, where all of them are known.
    pub fn from_bits(bits: u32) -> (r: Option<Self>)
        ensures
            r is Some <==> Self::known(bits),
            r matches Some(flags) ==> flags.model() == bits,
    {
        if bits <= 0x7fff {
            Some(Self { bits })
        } else {
            None
        }
    }

    /// The flags of `bits`, unknown bits kept as they are.
    pub fn from_bits_retain(bits: u32) -> (r: Self)
        ensures
            r.model() == bits,
    {
        Self { bits }
    }

    pub fn bits(&self) -> (r: u32)
        ensures
            r == self.model(),
    {
        self.bits
    }
}

impl Model for TopicAuthorizedOperations {
    type M = u32;

    closed spec fn model(&self) -> u32 {
        self.bits
    }

    fn duplicate(&self) -> (r: Self) {
        *self
    }
}

impl Encode for TopicAuthorizedOperations {
    open spec fn wire(v: u32) -> Seq<u8> {
        u32::wire(v)
    }

    open spec fn encodable(v: u32) -> bool {
        true
    }

    fn is_encodable(&self) -> (b: bool) {
        true
    }

    fn encode(&self) -> (out: Vec<u8>) {
        self.bits.encode()
    }
}

impl Decode for TopicAuthorizedOperations {
    open spec fn parse(s: Seq<u8>, at: int) -> Parsed<u32> {
        match u32::parse(s, at) {
            Ok((bits, next)) => if Self::known(bits) {
                Ok((bits, next))
            } else {
                Err(DecodeError::Other(Fault::UnknownBits(bits as u32)))
            },
            Err(e) => Err(e),
        }
    }

    proof fn lemma_parse_in_bounds(s: Seq<u8>, at: int) {
        u32::lemma_parse_in_bounds(s, at);
    }

    proof fn lemma_parse_extends(s: Seq<u8>, t: Seq<u8>, at: int) {
        u32::lemma_parse_extends(s, t, at);
    }

    fn decode(buffer: &mut Cursor) -> (r: DecodeResult<Self>) {
        let bits: u32 = u32::decode(buffer)?;
        match Self::from_bits(bits) {
            Some(flags) => Ok(flags),
            None => Err(DecodeError::Other(Fault::UnknownBits(bits as u32))),
        }
    }
}

impl Codec for TopicAuthorizedOperations {
    open spec fn canonical(v: u32) -> bool {
        Self::known(v)
    }

    proof fn lemma_round_trip(v: u32, s: Seq<u8>, at: int) {
        u32::lemma_round_trip(v, s, at);
    }
}

/// A broker that holds a replica, by its node id.
#[derive(Debug, Clone, PartialEq, Eq)]
pub struct RepicaNode {
    pub id: i32,
}

/// The value that a [`RepicaNode`] stands for.
pub struct RepicaNodeModel {
    pub id: i32,
}

impl Model for RepicaNode {
    type M = RepicaNodeModel;

    open spec fn model(&self) -> RepicaNodeModel {
        RepicaNodeModel {
            id: self.id.model(),
        }
    }

    fn duplicate(&self) -> (r: Self) {
        RepicaNode {
            id: self.id.duplicate(),
        }
    }
}

impl RepicaNode {
    pub fn new(id: i32) -> (r: Self)
        ensures
            r == (RepicaNode { id }),
    {
        Self { id }
    }
}

impl Encode for RepicaNode {
    open spec fn wire(v: RepicaNodeModel) -> Seq<u8> {
        i32::wire(v.id)
    }

    open spec fn encodable(v: RepicaNodeModel) -> bool {
        &&& i32::encodable(v.id)
    }

    fn is_encodable(&self) -> (b: bool) {
        self.id.is_encodable()
    }

    fn encode(&self) -> (out: Vec<u8>) {
        let mut out = self.id.encode();
        out
    }
}

impl Decode for RepicaNode {
    open spec fn parse(s: Seq<u8>, at: int) -> Parsed<RepicaNodeModel> {
        let id = i32::parse(s, at);
        if id is Err {
            Err(error_of(id))
        } else {
            Ok((
                RepicaNodeModel {
                    id: value_of(id),
                },
                end_of(id),
            ))
        }
    }

    proof fn lemma_parse_in_bounds(s: Seq<u8>, at: int) {
        i32::lemma_parse_in_bounds(s, at);
    }

    proof fn lemma_parse_extends(s: Seq<u8>, t: Seq<u8>, at: int) {
        i32::lemma_parse_extends(s, t, at);
    }

    fn decode(buffer: &mut Cursor) -> (r: DecodeResult<Self>) {
        let id = i32::decode(buffer)?;
        Ok(RepicaNode { id })
    }
}

impl Codec for RepicaNode {
    open spec fn canonical(v: RepicaNodeModel) -> bool {
        &&& i32::canonical(v.id)
    }

    proof fn lemma_round_trip(v: RepicaNodeModel, s: Seq<u8>, at: int) {
        i32::lemma_round_trip(v.id, s, at);
    }
}

/// One topic that a request asks about, by its name.
#[derive(Debug, Clone, PartialEq, Eq)]
pub struct TopicRequest {
    pub name: CompactString,
    pub tag_buffer: TagBuffer,
}

/// The value that a [`TopicRequest`] stands for.
pub struct TopicRequestModel {
    pub name: Seq<char>,
    pub tag_buffer: TagBufferModel,
}

impl Model for TopicRequest {
    type M = TopicRequestModel;

    open spec fn model(&self) -> TopicRequestModel {
        TopicRequestModel {
            name: self.name.model(),
            tag_buffer: self.tag_buffer.model(),
        }
    }

    fn duplicate(&self) -> (r: Self) {
        TopicRequest {
            name: self.name.duplicate(),
            tag_buffer: self.tag_buffer.duplicate(),
        }
    }
}

impl Encode for TopicRequest {
    open spec fn wire(v: TopicRequestModel) -> Seq<u8> {
        CompactString::wire(v.name)
            + TagBuffer::wire(v.tag_buffer)
    }

    open spec fn encodable(v: TopicRequestModel) -> bool {
        &&& CompactString::encodable(v.name)
        &&& TagBuffer::encodable(v.tag_buffer)
    }

    fn is_encodable(&self) -> (b: bool) {
        self.name.is_encodable()
            && self.tag_buffer.is_encodable()
    }

    fn encode(&self) -> (out: Vec<u8>) {
        let mut out = self.name.encode();
        let mut piece = self.tag_buffer.encode();
        out.append(&mut piece);
        out
    }
}

impl Decode for TopicRequest {
    open spec fn parse(s: Seq<u8>, at: int) -> Parsed<TopicRequestModel> {
        let name = CompactString::parse(s, at);
        let tag_buffer = TagBuffer::parse(s, end_of(name));
        if name is Err {
            Err(error_of(name))
        } else if tag_buffer is Err {
            Err(error_of(tag_buffer))
        } else {
            Ok((
                TopicRequestModel {
                    name: value_of(name),
                    tag_buffer: value_of(tag_buffer),
                },
                end_of(tag_buffer),
            ))
        }
    }

    proof fn lemma_parse_in_bounds(s: Seq<u8>, at: int) {
        CompactString::lemma_parse_in_bounds(s, at);
        let name = CompactString::parse(s, at);
        TagBuffer::lemma_parse_in_bounds(s, end_of(name));
    }

    proof fn lemma_parse_extends(s: Seq<u8>, t: Seq<u8>, at: int) {
        CompactString::lemma_parse_extends(s, t, at);
        let name = CompactString::parse(s, at);
        TagBuffer::lemma_parse_extends(s, t, end_of(name));
    }

    fn decode(buffer: &mut Cursor) -> (r: DecodeResult<Self>) {
        let name = CompactString::decode(buffer)?;
        let tag_buffer = TagBuffer::decode(buffer)?;
        Ok(TopicRequest { name, tag_buffer })
    }
}

impl Codec for TopicRequest {
    open spec fn canonical(v: TopicRequestModel) -> bool {
        &&& CompactString::canonical(v.name)
        &&& TagBuffer::canonical(v.tag_buffer)
    }

    proof fn lemma_round_trip(v: TopicRequestModel, s: Seq<u8>, at: int) {
        let w0 = CompactString::wire(v.name);
        let w1 = TagBuffer::wire(v.tag_buffer);
        let front1 = w0;
        lemma_holds_at_last(s, at, front1, w1);
        CompactString::lemma_round_trip(v.name, s, at);
        TagBuffer::lemma_round_trip(v.tag_buffer, s, at + front1.len());
    }
}

/// Where a paged answer goes on.
#[derive(Debug, Clone, PartialEq, Eq)]
pub struct TopicCursor {
    pub topic_name: CompactString,
    pub partition_index: i32,
    pub tag_buffer: TagBuffer,
}

/// The value that a [`TopicCursor`] stands for.
pub struct TopicCursorModel {
    pub topic_name: Seq<char>,
    pub partition_index: i32,
    pub tag_buffer: TagBufferModel,
}

impl Model for TopicCursor {
    type M = TopicCursorModel;

    open spec fn model(&self) -> TopicCursorModel {
        TopicCursorModel {
            topic_name: self.topic_name.model(),
            partition_index: self.partition_index.model(),
            tag_buffer: self.tag_buffer.model(),
        }
    }

    fn duplicate(&self) -> (r: Self) {
        TopicCursor {
            topic_name: self.topic_name.duplicate(),
            partition_index: self.partition_index.duplicate(),
            tag_buffer: self.tag_buffer.duplicate(),
        }
    }
}

impl Encode for TopicCursor {
    open spec fn wire(v: TopicCursorModel) -> Seq<u8> {
        CompactString::wire(v.topic_name)
            + i32::wire(v.partition_index)
            + TagBuffer::wire(v.tag_buffer)
    }

    open spec fn encodable(v: TopicCursorModel) -> bool {
        &&& CompactString::encodable(v.topic_name)
        &&& i32::encodable(v.partition_index)
        &&& TagBuffer::encodable(v.tag_buffer)
    }

    fn is_encodable(&self) -> (b: bool) {
        self.topic_name.is_encodable()
            && self.partition_index.is_encodable()
            && self.tag_buffer.is_encodable()
    }

    fn encode(&self) -> (out: Vec<u8>) {
        let mut out = self.topic_name.encode();
        let mut piece = self.partition_index.encode();
        out.append(&mut piece);
        let mut piece = self.tag_buffer.encode();
        out.append(&mut piece);
        out
    }
}

impl Decode for TopicCursor {
    open spec fn parse(s: Seq<u8>, at: int) -> Parsed<TopicCursorModel> {
        let topic_name = CompactString::parse(s, at);
        let partition_index = i32::parse(s, end_of(topic_name));
        let tag_buffer = TagBuffer::parse(s, end_of(partition_index));
        if topic_name is Err {
            Err(error_of(topic_name))
        } else if partition_index is Err {
            Err(error_of(partition_index))
        } else if tag_buffer is Err {
            Err(error_of(tag_buffer))
        } else {
            Ok((
                TopicCursorModel {
                    topic_name: value_of(topic_name),
                    partition_index: value_of(partition_index),
                    tag_buffer: value_of(tag_buffer),
                },
                end_of(tag_buffer),
            ))
        }
    }

    proof fn lemma_parse_in_bounds(s: Seq<u8>, at: int) {
        CompactString::lemma_parse_in_bounds(s, at);
        let topic_name = CompactString::parse(s, at);
        i32::lemma_parse_in_bounds(s, end_of(topic_name));
        let partition_index = i32::parse(s, end_of(topic_name));
        TagBuffer::lemma_parse_in_bounds(s, end_of(partition_index));
    }

    proof fn lemma_parse_extends(s: Seq<u8>, t: Seq<u8>, at: int) {
        CompactString::lemma_parse_extends(s, t, at);
        let topic_name = CompactString::parse(s, at);
        i32::lemma_parse_extends(s, t, end_of(topic_name));
        let partition_index = i32::parse(s, end_of(topic_name));
        TagBuffer::lemma_parse_extends(s, t, end_of(partition_index));
    }

    fn decode(buffer: &mut Cursor) -> (r: DecodeResult<Self>) {
        let topic_name = CompactString::decode(buffer)?;
        let partition_index = i32::decode(buffer)?;
        let tag_buffer = TagBuffer::decode(buffer)?;
        Ok(TopicCursor { topic_name, partition_index, tag_buffer })
    }
}

impl Codec for TopicCursor {
    open spec fn canonical(v: TopicCursorModel) -> bool {
        &&& CompactString::canonical(v.topic_name)
        &&& i32::canonical(v.partition_index)
        &&& TagBuffer::canonical(v.tag_buffer)
    }

    proof fn lemma_round_trip(v: TopicCursorModel, s: Seq<u8>, at: int) {
        let w0 = CompactString::wire(v.topic_name);
        let w1 = i32::wire(v.partition_index);
        let w2 = TagBuffer::wire(v.tag_buffer);
        let front1 = w0;
        let front2 = front1 + w1;
        lemma_holds_at_last(s, at, front2, w2);
        lemma_holds_at_last(s, at, front1, w1);
        CompactString::lemma_round_trip(v.topic_name, s, at);
        i32::lemma_round_trip(v.partition_index, s, at + front1.len());
        TagBuffer::lemma_round_trip(v.tag_buffer, s, at + front2.len());
    }
}

/// The cursor of a paged answer, or none. None is the single byte `0xff`.
/// A cursor stands behind one presence byte, which is written as `0x01`;
/// the reader passes over any first byte other than `0xff`.
#[derive(Debug, Clone, PartialEq, Eq)]
pub struct OptionTopicCursor {
    inner: Option<TopicCursor>,
}

impl Model for OptionTopicCursor {
    type M = Option<TopicCursorModel>;

    closed spec fn model(&self) -> Option<TopicCursorModel> {
        match self.inner {
            None => None,
            Some(cursor) => Some(cursor.model()),
        }
    }

    fn duplicate(&self) -> (r: Self) {
        match &self.inner {
            None => OptionTopicCursor { inner: None },
            Some(cursor) => OptionTopicCursor { inner: Some(cursor.duplicate()) },
        }
    }
}

impl OptionTopicCursor {
    pub fn new(inner: Option<TopicCursor>) -> (r: Self)
        ensures
            r.model() == match inner {
                None => None::<TopicCursorModel>,
                Some(cursor) => Some(cursor.model()),
            },
    {
        Self { inner }
    }
}

impl Default for OptionTopicCursor {
    /// No cursor.
    fn default() -> (r: Self)
        ensures
            r.model() == None::<TopicCursorModel>,
    {
        OptionTopicCursor { inner: None }
    }
}

impl Encode for OptionTopicCursor {
    open spec fn wire(v: Option<TopicCursorModel>) -> Seq<u8> {
        match v {
            None => seq![0xffu8],
            Some(cursor) => seq![0x01u8] + TopicCursor::wire(cursor),
        }
    }

    open spec fn encodable(v: Option<TopicCursorModel>) -> bool {
        match v {
            None => true,
            Some(cursor) => TopicCursor::encodable(cursor),
        }
    }

    fn is_encodable(&self) -> (b: bool) {
        match &self.inner {
            Some(cursor) => cursor.is_encodable(),
            None => true,
        }
    }

    fn encode(&self) -> (out: Vec<u8>) {
        match &self.inner {
            Some(cursor) => {
                let mut out: Vec<u8> = Vec::new();
                out.push(0x01u8);
                assert(out@ =~= seq![0x01u8]);
                let mut piece = cursor.encode();
                out.append(&mut piece);
                out
            },
            None => {
                let mut out: Vec<u8> = Vec::new();
                out.push(0xffu8);
                assert(out@ =~= seq![0xffu8]);
                out
            },
        }
    }
}

impl Decode for OptionTopicCursor {
    open spec fn parse(s: Seq<u8>, at: int) -> Parsed<Option<TopicCursorModel>> {
        match u8::parse(s, at) {
            Err(e) => Err(e),
            Ok((mark, next)) => if mark == 0xff {
                Ok((None, next))
            } else {
                match TopicCursor::parse(s, next) {
                    Ok((cursor, end)) => Ok((Some(cursor), end)),
                    Err(e) => Err(e),
                }
            },
        }
    }

    proof fn lemma_parse_in_bounds(s: Seq<u8>, at: int) {
        u8::lemma_parse_in_bounds(s, at);
        TopicCursor::lemma_parse_in_bounds(s, end_of(u8::parse(s, at)));
    }

    proof fn lemma_parse_extends(s: Seq<u8>, t: Seq<u8>, at: int) {
        u8::lemma_parse_extends(s, t, at);
        TopicCursor::lemma_parse_extends(s, t, end_of(u8::parse(s, at)));
    }

    fn decode(buffer: &mut Cursor) -> (r: DecodeResult<Self>) {
        let mark: u8 = u8::decode(buffer)?;
        if mark == 0xff {
            Ok(OptionTopicCursor { inner: None })
        } else {
            let cursor = TopicCursor::decode(buffer)?;
            Ok(OptionTopicCursor { inner: Some(cursor) })
        }
    }
}

impl Codec for OptionTopicCursor {
    open spec fn canonical(v: Option<TopicCursorModel>) -> bool {
        match v {
            None => true,
            Some(cursor) => TopicCursor::canonical(cursor),
        }
    }

    proof fn lemma_round_trip(v: Option<TopicCursorModel>, s: Seq<u8>, at: int) {
        lemma_parse_u8(s, at);
        match v {
            None => {
                let mark = seq![0xffu8];
                assert(0 <= at < s.len() && s[at] == 0xffu8) by {
                    reveal(holds_at);
                    assert(s.subrange(at, at + mark.len())[0] == s[at]);
                }
                assert(at + mark.len() == at + 1);
            },
            Some(cursor) => {
                let mark = seq![0x01u8];
                lemma_holds_at_last(s, at, mark, TopicCursor::wire(cursor));
                assert(0 <= at < s.len() && s[at] == 0x01u8) by {
                    reveal(holds_at);
                    assert(s.subrange(at, at + mark.len())[0] == s[at]);
                }
                TopicCursor::lemma_round_trip(cursor, s, at + 1);
            },
        }
    }
}

/// The body of a DescribeTopicPartitions request.
#[derive(Debug, Clone, PartialEq, Eq)]
pub struct DescribeTopicPartitionsRequestBodyV0 {
    pub topics: CompactArray<TopicRequest>,
    pub response_partition_limit: i32,
    pub cursor: OptionTopicCursor,
    pub tag_buffer: TagBuffer,
}

/// The value that a [`DescribeTopicPartitionsRequestBodyV0`] stands for.
pub struct DescribeTopicPartitionsRequestBodyV0Model {
    pub topics: Option<Seq<TopicRequestModel>>,
    pub response_partition_limit: i32,
    pub cursor: Option<TopicCursorModel>,
    pub tag_buffer: TagBufferModel,
}

impl Model for DescribeTopicPartitionsRequestBodyV0 {
    type M = DescribeTopicPartitionsRequestBodyV0Model;

    open spec fn model(&self) -> DescribeTopicPartitionsRequestBodyV0Model {
        DescribeTopicPartitionsRequestBodyV0Model {
            topics: self.topics.model(),
            response_partition_limit: self.response_partition_limit.model(),
            cursor: self.cursor.model(),
            tag_buffer: self.tag_buffer.model(),
        }
    }

    fn duplicate(&self) -> (r: Self) {
        DescribeTopicPartitionsRequestBodyV0 {
            topics: self.topics.duplicate(),
            response_partition_limit: self.response_partition_limit.duplicate(),
            cursor: self.cursor.duplicate(),
            tag_buffer: self.tag_buffer.duplicate(),
        }
    }
}

impl Encode for DescribeTopicPartitionsRequestBodyV0 {
    open spec fn wire(v: DescribeTopicPartitionsRequestBodyV0Model) -> Seq<u8> {
        CompactArray::<TopicRequest>::wire(v.topics)
            + i32::wire(v.response_partition_limit)
            + OptionTopicCursor::wire(v.cursor)
            + TagBuffer::wire(v.tag_buffer)
    }

    open spec fn encodable(v: DescribeTopicPartitionsRequestBodyV0Model) -> bool {
        &&& CompactArray::<TopicRequest>::encodable(v.topics)
        &&& i32::encodable(v.response_partition_limit)
        &&& OptionTopicCursor::encodable(v.cursor)
        &&& TagBuffer::encodable(v.tag_buffer)
    }

    fn is_encodable(&self) -> (b: bool) {
        self.topics.is_encodable()
            && self.response_partition_limit.is_encodable()
            && self.cursor.is_encodable()
            && self.tag_buffer.is_encodable()
    }

    fn encode(&self) -> (out: Vec<u8>) {
        let mut out = self.topics.encode();
        let mut piece = self.response_partition_limit.encode();
        out.append(&mut piece);
        let mut piece = self.cursor.encode();
        out.append(&mut piece);
        let mut piece = self.tag_buffer.encode();
        out.append(&mut piece);
        out
    }
}

impl Decode for DescribeTopicPartitionsRequestBodyV0 {
    open spec fn parse(s: Seq<u8>, at: int) -> Parsed<DescribeTopicPartitionsRequestBodyV0Model> {
        let topics = CompactArray::<TopicRequest>::parse(s, at);
        let response_partition_limit = i32::parse(s, end_of(topics));
        let cursor = OptionTopicCursor::parse(s, end_of(response_partition_limit));
        let tag_buffer = TagBuffer::parse(s, end_of(cursor));
        if topics is Err {
            Err(error_of(topics))
        } else if response_partition_limit is Err {
            Err(error_of(response_partition_limit))
        } else if cursor is Err {
            Err(error_of(cursor))
        } else if tag_buffer is Err {
            Err(error_of(tag_buffer))
        } else {
            Ok((
                DescribeTopicPartitionsRequestBodyV0Model {
                    topics: value_of(topics),
                    response_partition_limit: value_of(response_partition_limit),
                    cursor: value_of(cursor),
                    tag_buffer: value_of(tag_buffer),
                },
                end_of(tag_buffer),
            ))
        }
    }

    proof fn lemma_parse_in_bounds(s: Seq<u8>, at: int) {
        CompactArray::<TopicRequest>::lemma_parse_in_bounds(s, at);
        let topics = CompactArray::<TopicRequest>::parse(s, at);
        i32::lemma_parse_in_bounds(s, end_of(topics));
        let response_partition_limit = i32::parse(s, end_of(topics));
        OptionTopicCursor::lemma_parse_in_bounds(s, end_of(response_partition_limit));
        let cursor = OptionTopicCursor::parse(s, end_of(response_partition_limit));
        TagBuffer::lemma_parse_in_bounds(s, end_of(cursor));
    }

    proof fn lemma_parse_extends(s: Seq<u8>, t: Seq<u8>, at: int) {
        CompactArray::<TopicRequest>::lemma_parse_extends(s, t, at);
        let topics = CompactArray::<TopicRequest>::parse(s, at);
        i32::lemma_parse_extends(s, t, end_of(topics));
        let response_partition_limit = i32::parse(s, end_of(topics));
        OptionTopicCursor::lemma_parse_extends(s, t, end_of(response_partition_limit));
        let cursor = OptionTopicCursor::parse(s, end_of(response_partition_limit));
        TagBuffer::lemma_parse_extends(s, t, end_of(cursor));
    }

    fn decode(buffer: &mut Cursor) -> (r: DecodeResult<Self>) {
        let topics = CompactArray::<TopicRequest>::decode(buffer)?;
        let response_partition_limit = i32::decode(buffer)?;
        let cursor = OptionTopicCursor::decode(buffer)?;
        let tag_buffer = TagBuffer::decode(buffer)?;
        Ok(DescribeTopicPartitionsRequestBodyV0 { topics, response_partition_limit, cursor, tag_buffer })
    }
}

impl Codec for DescribeTopicPartitionsRequestBodyV0 {
    open spec fn canonical(v: DescribeTopicPartitionsRequestBodyV0Model) -> bool {
        &&& CompactArray::<TopicRequest>::canonical(v.topics)
        &&& i32::canonical(v.response_partition_limit)
        &&& OptionTopicCursor::canonical(v.cursor)
        &&& TagBuffer::canonical(v.tag_buffer)
    }

    proof fn lemma_round_trip(v: DescribeTopicPartitionsRequestBodyV0Model, s: Seq<u8>, at: int) {
        let w0 = CompactArray::<TopicRequest>::wire(v.topics);
        let w1 = i32::wire(v.response_partition_limit);
        let w2 = OptionTopicCursor::wire(v.cursor);
        let w3 = TagBuffer::wire(v.tag_buffer);
        let front1 = w0;
        let front2 = front1 + w1;
        let front3 = front2 + w2;
        lemma_holds_at_last(s, at, front3, w3);
        lemma_holds_at_last(s, at, front2, w2);
        lemma_holds_at_last(s, at, front1, w1);
        CompactArray::<TopicRequest>::lemma_round_trip(v.topics, s, at);
        i32::lemma_round_trip(v.response_partition_limit, s, at + front1.len());
        OptionTopicCursor::lemma_round_trip(v.cursor, s, at + front2.len());
        TagBuffer::lemma_round_trip(v.tag_buffer, s, at + front3.len());
    }
}

/// One partition of a topic as a response describes it.
#[derive(Debug, Clone, PartialEq, Eq)]
pub struct TopicPartition {
    pub error_code: i16,
    pub index: i32,
    pub leader_id: i32,
    pub leader_epoch: i32,
    pub repica_nodes: CompactArray<RepicaNode>,
    pub isr_nodes: CompactArray<RepicaNode>,
    pub eligible_leader_replicas: CompactArray<RepicaNode>,
    pub last_known_elr: CompactArray<RepicaNode>,
    pub offline_replicas: CompactArray<RepicaNode>,
    pub tag_buffer: TagBuffer,
}

/// The value that a [`TopicPartition`] stands for.
pub struct TopicPartitionModel {
    pub error_code: i16,
    pub index: i32,
    pub leader_id: i32,
    pub leader_epoch: i32,
    pub repica_nodes: Option<Seq<RepicaNodeModel>>,
    pub isr_nodes: Option<Seq<RepicaNodeModel>>,
    pub eligible_leader_replicas: Option<Seq<RepicaNodeModel>>,
    pub last_known_elr: Option<Seq<RepicaNodeModel>>,
    pub offline_replicas: Option<Seq<RepicaNodeModel>>,
    pub tag_buffer: TagBufferModel,
}

impl Model for TopicPartition {
    type M = TopicPartitionModel;

    open spec fn model(&self) -> TopicPartitionModel {
        TopicPartitionModel {
            error_code: self.error_code.model(),
            index: self.index.model(),
            leader_id: self.leader_id.model(),
            leader_epoch: self.leader_epoch.model(),
            repica_nodes: self.repica_nodes.model(),
            isr_nodes: self.isr_nodes.model(),
            eligible_leader_replicas: self.eligible_leader_replicas.model(),
            last_known_elr: self.last_known_elr.model(),
            offline_replicas: self.offline_replicas.model(),
            tag_buffer: self.tag_buffer.model(),
        }
    }

    fn duplicate(&self) -> (r: Self) {
        TopicPartition {
            error_code: self.error_code.duplicate(),
            index: self.index.duplicate(),
            leader_id: self.leader_id.duplicate(),
            leader_epoch: self.leader_epoch.duplicate(),
            repica_nodes: self.repica_nodes.duplicate(),
            isr_nodes: self.isr_nodes.duplicate(),
            eligible_leader_replicas: self.eligible_leader_replicas.duplicate(),
            last_known_elr: self.last_known_elr.duplicate(),
            offline_replicas: self.offline_replicas.duplicate(),
            tag_buffer: self.tag_buffer.duplicate(),
        }
    }
}

impl Encode for TopicPartition {
    open spec fn wire(v: TopicPartitionModel) -> Seq<u8> {
        i16::wire(v.error_code)
            + i32::wire(v.index)
            + i32::wire(v.leader_id)
            + i32::wire(v.leader_epoch)
            + CompactArray::<RepicaNode>::wire(v.repica_nodes)
            + CompactArray::<RepicaNode>::wire(v.isr_nodes)
            + CompactArray::<RepicaNode>::wire(v.eligible_leader_replicas)
            + CompactArray::<RepicaNode>::wire(v.last_known_elr)
            + CompactArray::<RepicaNode>::wire(v.offline_replicas)
            + TagBuffer::wire(v.tag_buffer)
    }

    open spec fn encodable(v: TopicPartitionModel) -> bool {
        &&& i16::encodable(v.error_code)
        &&& i32::encodable(v.index)
        &&& i32::encodable(v.leader_id)
        &&& i32::encodable(v.leader_epoch)
        &&& CompactArray::<RepicaNode>::encodable(v.repica_nodes)
        &&& CompactArray::<RepicaNode>::encodable(v.isr_nodes)
        &&& CompactArray::<RepicaNode>::encodable(v.eligible_leader_replicas)
        &&& CompactArray::<RepicaNode>::encodable(v.last_known_elr)
        &&& CompactArray::<RepicaNode>::encodable(v.offline_replicas)
        &&& TagBuffer::encodable(v.tag_buffer)
    }

    fn is_encodable(&self) -> (b: bool) {
        self.error_code.is_encodable()
            && self.index.is_encodable()
            && self.leader_id.is_encodable()
            && self.leader_epoch.is_encodable()
            && self.repica_nodes.is_encodable()
            && self.isr_nodes.is_encodable()
            && self.eligible_leader_replicas.is_encodable()
            && self.last_known_elr.is_encodable()
            && self.offline_replicas.is_encodable()
            && self.tag_buffer.is_encodable()
    }

    fn encode(&self) -> (out: Vec<u8>) {
        let mut out = self.error_code.encode();
        let mut piece = self.index.encode();
        out.append(&mut piece);
        let mut piece = self.leader_id.encode();
        out.append(&mut piece);
        let mut piece = self.leader_epoch.encode();
        out.append(&mut piece);
        let mut piece = self.repica_nodes.encode();
        out.append(&mut piece);
        let mut piece = self.isr_nodes.encode();
        out.append(&mut piece);
        let mut piece = self.eligible_leader_replicas.encode();
        out.append(&mut piece);
        let mut piece = self.last_known_elr.encode();
        out.append(&mut piece);
        let mut piece = self.offline_replicas.encode();
        out.append(&mut piece);
        let mut piece = self.tag_buffer.encode();
        out.append(&mut piece);
        out
    }
}

impl Decode for TopicPartition {
    open spec fn parse(s: Seq<u8>, at: int) -> Parsed<TopicPartitionModel> {
        let error_code = i16::parse(s, at);
        let index = i32::parse(s, end_of(error_code));
        let leader_id = i32::parse(s, end_of(index));
        let leader_epoch = i32::parse(s, end_of(leader_id));
        let repica_nodes = CompactArray::<RepicaNode>::parse(s, end_of(leader_epoch));
        let isr_nodes = CompactArray::<RepicaNode>::parse(s, end_of(repica_nodes));
        let eligible_leader_replicas = CompactArray::<RepicaNode>::parse(s, end_of(isr_nodes));
        let last_known_elr = CompactArray::<RepicaNode>::parse(s, end_of(eligible_leader_replicas));
        let offline_replicas = CompactArray::<RepicaNode>::parse(s, end_of(last_known_elr));
        let tag_buffer = TagBuffer::parse(s, end_of(offline_replicas));
        if error_code is Err {
            Err(error_of(error_code))
        } else if index is Err {
            Err(error_of(index))
        } else if leader_id is Err {
            Err(error_of(leader_id))
        } else if leader_epoch is Err {
            Err(error_of(leader_epoch))
        } else if repica_nodes is Err {
            Err(error_of(repica_nodes))
        } else if isr_nodes is Err {
            Err(error_of(isr_nodes))
        } else if eligible_leader_replicas is Err {
            Err(error_of(eligible_leader_replicas))
        } else if last_known_elr is Err {
            Err(error_of(last_known_elr))
        } else if offline_replicas is Err {
            Err(error_of(offline_replicas))
        } else if tag_buffer is Err {
            Err(error_of(tag_buffer))
        } else {
            Ok((
                TopicPartitionModel {
                    error_code: value_of(error_code),
                    index: value_of(index),
                    leader_id: value_of(leader_id),
                    leader_epoch: value_of(leader_epoch),
                    repica_nodes: value_of(repica_nodes),
                    isr_nodes: value_of(isr_nodes),
                    eligible_leader_replicas: value_of(eligible_leader_replicas),
                    last_known_elr: value_of(last_known_elr),
                    offline_replicas: value_of(offline_replicas),
                    tag_buffer: value_of(tag_buffer),
                },
                end_of(tag_buffer),
            ))
        }
    }

    proof fn lemma_parse_in_bounds(s: Seq<u8>, at: int) {
        i16::lemma_parse_in_bounds(s, at);
        let error_code = i16::parse(s, at);
        i32::lemma_parse_in_bounds(s, end_of(error_code));
        let index = i32::parse(s, end_of(error_code));
        i32::lemma_parse_in_bounds(s, end_of(index));
        let leader_id = i32::parse(s, end_of(index));
        i32::lemma_parse_in_bounds(s, end_of(leader_id));
        let leader_epoch = i32::parse(s, end_of(leader_id));
        CompactArray::<RepicaNode>::lemma_parse_in_bounds(s, end_of(leader_epoch));
        let repica_nodes = CompactArray::<RepicaNode>::parse(s, end_of(leader_epoch));
        CompactArray::<RepicaNode>::lemma_parse_in_bounds(s, end_of(repica_nodes));
        let isr_nodes = CompactArray::<RepicaNode>::parse(s, end_of(repica_nodes));
        CompactArray::<RepicaNode>::lemma_parse_in_bounds(s, end_of(isr_nodes));
        let eligible_leader_replicas = CompactArray::<RepicaNode>::parse(s, end_of(isr_nodes));
        CompactArray::<RepicaNode>::lemma_parse_in_bounds(s, end_of(eligible_leader_replicas));
        let last_known_elr = CompactArray::<RepicaNode>::parse(s, end_of(eligible_leader_replicas));
        CompactArray::<RepicaNode>::lemma_parse_in_bounds(s, end_of(last_known_elr));
        let offline_replicas = CompactArray::<RepicaNode>::parse(s, end_of(last_known_elr));
        TagBuffer::lemma_parse_in_bounds(s, end_of(offline_replicas));
    }

    proof fn lemma_parse_extends(s: Seq<u8>, t: Seq<u8>, at: int) {
        i16::lemma_parse_extends(s, t, at);
        let error_code = i16::parse(s, at);
        i32::lemma_parse_extends(s, t, end_of(error_code));
        let index = i32::parse(s, end_of(error_code));
        i32::lemma_parse_extends(s, t, end_of(index));
        let leader_id = i32::parse(s, end_of(index));
        i32::lemma_parse_extends(s, t, end_of(leader_id));
        let leader_epoch = i32::parse(s, end_of(leader_id));
        CompactArray::<RepicaNode>::lemma_parse_extends(s, t, end_of(leader_epoch));
        let repica_nodes = CompactArray::<RepicaNode>::parse(s, end_of(leader_epoch));
        CompactArray::<RepicaNode>::lemma_parse_extends(s, t, end_of(repica_nodes));
        let isr_nodes = CompactArray::<RepicaNode>::parse(s, end_of(repica_nodes));
        CompactArray::<RepicaNode>::lemma_parse_extends(s, t, end_of(isr_nodes));
        let eligible_leader_replicas = CompactArray::<RepicaNode>::parse(s, end_of(isr_nodes));
        CompactArray::<RepicaNode>::lemma_parse_extends(s, t, end_of(eligible_leader_replicas));
        let last_known_elr = CompactArray::<RepicaNode>::parse(s, end_of(eligible_leader_replicas));
        CompactArray::<RepicaNode>::lemma_parse_extends(s, t, end_of(last_known_elr));
        let offline_replicas = CompactArray::<RepicaNode>::parse(s, end_of(last_known_elr));
        TagBuffer::lemma_parse_extends(s, t, end_of(offline_replicas));
    }

    fn decode(buffer: &mut Cursor) -> (r: DecodeResult<Self>) {
        let error_code = i16::decode(buffer)?;
        let index = i32::decode(buffer)?;
        let leader_id = i32::decode(buffer)?;
        let leader_epoch = i32::decode(buffer)?;
        let repica_nodes = CompactArray::<RepicaNode>::decode(buffer)?;
        let isr_nodes = CompactArray::<RepicaNode>::decode(buffer)?;
        let eligible_leader_replicas = CompactArray::<RepicaNode>::decode(buffer)?;
        let last_known_elr = CompactArray::<RepicaNode>::decode(buffer)?;
        let offline_replicas = CompactArray::<RepicaNode>::decode(buffer)?;
        let tag_buffer = TagBuffer::decode(buffer)?;
        Ok(TopicPartition { error_code, index, leader_id, leader_epoch, repica_nodes, isr_nodes, eligible_leader_replicas, last_known_elr, offline_replicas, tag_buffer })
    }
}

impl Codec for TopicPartition {
    open spec fn canonical(v: TopicPartitionModel) -> bool {
        &&& i16::canonical(v.error_code)
        &&& i32::canonical(v.index)
        &&& i32::canonical(v.leader_id)
        &&& i32::canonical(v.leader_epoch)
        &&& CompactArray::<RepicaNode>::canonical(v.repica_nodes)
        &&& CompactArray::<RepicaNode>::canonical(v.isr_nodes)
        &&& CompactArray::<RepicaNode>::canonical(v.eligible_leader_replicas)
        &&& CompactArray::<RepicaNode>::canonical(v.last_known_elr)
        &&& CompactArray::<RepicaNode>::canonical(v.offline_replicas)
        &&& TagBuffer::canonical(v.tag_buffer)
    }

    proof fn lemma_round_trip(v: TopicPartitionModel, s: Seq<u8>, at: int) {
        let w0 = i16::wire(v.error_code);
        let w1 = i32::wire(v.index);
        let w2 = i32::wire(v.leader_id);
        let w3 = i32::wire(v.leader_epoch);
        let w4 = CompactArray::<RepicaNode>::wire(v.repica_nodes);
        let w5 = CompactArray::<RepicaNode>::wire(v.isr_nodes);
        let w6 = CompactArray::<RepicaNode>::wire(v.eligible_leader_replicas);
        let w7 = CompactArray::<RepicaNode>::wire(v.last_known_elr);
        let w8 = CompactArray::<RepicaNode>::wire(v.offline_replicas);
        let w9 = TagBuffer::wire(v.tag_buffer);
        let front1 = w0;
        let front2 = front1 + w1;
        let front3 = front2 + w2;
        let front4 = front3 + w3;
        let front5 = front4 + w4;
        let front6 = front5 + w5;
        let front7 = front6 + w6;
        let front8 = front7 + w7;
        let front9 = front8 + w8;
        lemma_holds_at_last(s, at, front9, w9);
        lemma_holds_at_last(s, at, front8, w8);
        lemma_holds_at_last(s, at, front7, w7);
        lemma_holds_at_last(s, at, front6, w6);
        lemma_holds_at_last(s, at, front5, w5);
        lemma_holds_at_last(s, at, front4, w4);
        lemma_holds_at_last(s, at, front3, w3);
        lemma_holds_at_last(s, at, front2, w2);
        lemma_holds_at_last(s, at, front1, w1);
        i16::lemma_round_trip(v.error_code, s, at);
        i32::lemma_round_trip(v.index, s, at + front1.len());
        i32::lemma_round_trip(v.leader_id, s, at + front2.len());
        i32::lemma_round_trip(v.leader_epoch, s, at + front3.len());
        CompactArray::<RepicaNode>::lemma_round_trip(v.repica_nodes, s, at + front4.len());
        CompactArray::<RepicaNode>::lemma_round_trip(v.isr_nodes, s, at + front5.len());
        CompactArray::<RepicaNode>::lemma_round_trip(v.eligible_leader_replicas, s, at + front6.len());
        CompactArray::<RepicaNode>::lemma_round_trip(v.last_known_elr, s, at + front7.len());
        CompactArray::<RepicaNode>::lemma_round_trip(v.offline_replicas, s, at + front8.len());
        TagBuffer::lemma_round_trip(v.tag_buffer, s, at + front9.len());
    }
}

/// What a response says of one topic.
#[derive(Debug, Clone, PartialEq, Eq)]
pub struct TopicResponse {
    pub error_code: i16,
    pub name: CompactString,
    pub id: Uuid,
    pub is_internal: bool,
    pub partitions_array: CompactArray<TopicPartition>,
    pub topic_authorized_operations: TopicAuthorizedOperations,
    pub tag_buffer: TagBuffer,
}

/// The value that a [`TopicResponse`] stands for.
pub struct TopicResponseModel {
    pub error_code: i16,
    pub name: Seq<char>,
    pub id: u128,
    pub is_internal: bool,
    pub partitions_array: Option<Seq<TopicPartitionModel>>,
    pub topic_authorized_operations: u32,
    pub tag_buffer: TagBufferModel,
}

impl Model for TopicResponse {
    type M = TopicResponseModel;

    open spec fn model(&self) -> TopicResponseModel {
        TopicResponseModel {
            error_code: self.error_code.model(),
            name: self.name.model(),
            id: self.id.model(),
            is_internal: self.is_internal.model(),
            partitions_array: self.partitions_array.model(),
            topic_authorized_operations: self.topic_authorized_operations.model(),
            tag_buffer: self.tag_buffer.model(),
        }
    }

    fn duplicate(&self) -> (r: Self) {
        TopicResponse {
            error_code: self.error_code.duplicate(),
            name: self.name.duplicate(),
            id: self.id.duplicate(),
            is_internal: self.is_internal.duplicate(),
            partitions_array: self.partitions_array.duplicate(),
            topic_authorized_operations: self.topic_authorized_operations.duplicate(),
            tag_buffer: self.tag_buffer.duplicate(),
        }
    }
}

impl Encode for TopicResponse {
    open spec fn wire(v: TopicResponseModel) -> Seq<u8> {
        i16::wire(v.error_code)
            + CompactString::wire(v.name)
            + Uuid::wire(v.id)
            + bool::wire(v.is_internal)
            + CompactArray::<TopicPartition>::wire(v.partitions_array)
            + TopicAuthorizedOperations::wire(v.topic_authorized_operations)
            + TagBuffer::wire(v.tag_buffer)
    }

    open spec fn encodable(v: TopicResponseModel) -> bool {
        &&& i16::encodable(v.error_code)
        &&& CompactString::encodable(v.name)
        &&& Uuid::encodable(v.id)
        &&& bool::encodable(v.is_internal)
        &&& CompactArray::<TopicPartition>::encodable(v.partitions_array)
        &&& TopicAuthorizedOperations::encodable(v.topic_authorized_operations)
        &&& TagBuffer::encodable(v.tag_buffer)
    }

    fn is_encodable(&self) -> (b: bool) {
        self.error_code.is_encodable()
            && self.name.is_encodable()
            && self.id.is_encodable()
            && self.is_internal.is_encodable()
            && self.partitions_array.is_encodable()
            && self.topic_authorized_operations.is_encodable()
            && self.tag_buffer.is_encodable()
    }

    fn encode(&self) -> (out: Vec<u8>) {
        let mut out = self.error_code.encode();
        let mut piece = self.name.encode();
        out.append(&mut piece);
        let mut piece = self.id.encode();
        out.append(&mut piece);
        let mut piece = self.is_internal.encode();
        out.append(&mut piece);
        let mut piece = self.partitions_array.encode();
        out.append(&mut piece);
        let mut piece = self.topic_authorized_operations.encode();
        out.append(&mut piece);
        let mut piece = self.tag_buffer.encode();
        out.append(&mut piece);
        out
    }
}

impl Decode for TopicResponse {
    open spec fn parse(s: Seq<u8>, at: int) -> Parsed<TopicResponseModel> {
        let error_code = i16::parse(s, at);
        let name = CompactString::parse(s, end_of(error_code));
        let id = Uuid::parse(s, end_of(name));
        let is_internal = bool::parse(s, end_of(id));
        let partitions_array = CompactArray::<TopicPartition>::parse(s, end_of(is_internal));
        let topic_authorized_operations = TopicAuthorizedOperations::parse(s, end_of(partitions_array));
        let tag_buffer = TagBuffer::parse(s, end_of(topic_authorized_operations));
        if error_code is Err {
            Err(error_of(error_code))
        } else if name is Err {
            Err(error_of(name))
        } else if id is Err {
            Err(error_of(id))
        } else if is_internal is Err {
            Err(error_of(is_internal))
        } else if partitions_array is Err {
            Err(error_of(partitions_array))
        } else if topic_authorized_operations is Err {
            Err(error_of(topic_authorized_operations))
        } else if tag_buffer is Err {
            Err(error_of(tag_buffer))
        } else {
            Ok((
                TopicResponseModel {
                    error_code: value_of(error_code),
                    name: value_of(name),
                    id: value_of(id),
                    is_internal: value_of(is_internal),
                    partitions_array: value_of(partitions_array),
                    topic_authorized_operations: value_of(topic_authorized_operations),
                    tag_buffer: value_of(tag_buffer),
                },
                end_of(tag_buffer),
            ))
        }
    }

    proof fn lemma_parse_in_bounds(s: Seq<u8>, at: int) {
        i16::lemma_parse_in_bounds(s, at);
        let error_code = i16::parse(s, at);
        CompactString::lemma_parse_in_bounds(s, end_of(error_code));
        let name = CompactString::parse(s, end_of(error_code));
        Uuid::lemma_parse_in_bounds(s, end_of(name));
        let id = Uuid::parse(s, end_of(name));
        bool::lemma_parse_in_bounds(s, end_of(id));
        let is_internal = bool::parse(s, end_of(id));
        CompactArray::<TopicPartition>::lemma_parse_in_bounds(s, end_of(is_internal));
        let partitions_array = CompactArray::<TopicPartition>::parse(s, end_of(is_internal));
        TopicAuthorizedOperations::lemma_parse_in_bounds(s, end_of(partitions_array));
        let topic_authorized_operations = TopicAuthorizedOperations::parse(s, end_of(partitions_array));
        TagBuffer::lemma_parse_in_bounds(s, end_of(topic_authorized_operations));
    }

    proof fn lemma_parse_extends(s: Seq<u8>, t: Seq<u8>, at: int) {
        i16::lemma_parse_extends(s, t, at);
        let error_code = i16::parse(s, at);
        CompactString::lemma_parse_extends(s, t, end_of(error_code));
        let name = CompactString::parse(s, end_of(error_code));
        Uuid::lemma_parse_extends(s, t, end_of(name));
        let id = Uuid::parse(s, end_of(name));
        bool::lemma_parse_extends(s, t, end_of(id));
        let is_internal = bool::parse(s, end_of(id));
        CompactArray::<TopicPartition>::lemma_parse_extends(s, t, end_of(is_internal));
        let partitions_array = CompactArray::<TopicPartition>::parse(s, end_of(is_internal));
        TopicAuthorizedOperations::lemma_parse_extends(s, t, end_of(partitions_array));
        let topic_authorized_operations = TopicAuthorizedOperations::parse(s, end_of(partitions_array));
        TagBuffer::lemma_parse_extends(s, t, end_of(topic_authorized_operations));
    }

    fn decode(buffer: &mut Cursor) -> (r: DecodeResult<Self>) {
        let error_code = i16::decode(buffer)?;
        let name = CompactString::decode(buffer)?;
        let id = Uuid::decode(buffer)?;
        let is_internal = bool::decode(buffer)?;
        let partitions_array = CompactArray::<TopicPartition>::decode(buffer)?;
        let topic_authorized_operations = TopicAuthorizedOperations::decode(buffer)?;
        let tag_buffer = TagBuffer::decode(buffer)?;
        Ok(TopicResponse { error_code, name, id, is_internal, partitions_array, topic_authorized_operations, tag_buffer })
    }
}

impl Codec for TopicResponse {
    open spec fn canonical(v: TopicResponseModel) -> bool {
        &&& i16::canonical(v.error_code)
        &&& CompactString::canonical(v.name)
        &&& Uuid::canonical(v.id)
        &&& bool::canonical(v.is_internal)
        &&& CompactArray::<TopicPartition>::canonical(v.partitions_array)
        &&& TopicAuthorizedOperations::canonical(v.topic_authorized_operations)
        &&& TagBuffer::canonical(v.tag_buffer)
    }

    proof fn lemma_round_trip(v: TopicResponseModel, s: Seq<u8>, at: int) {
        let w0 = i16::wire(v.error_code);
        let w1 = CompactString::wire(v.name);
        let w2 = Uuid::wire(v.id);
        let w3 = bool::wire(v.is_internal);
        let w4 = CompactArray::<TopicPartition>::wire(v.partitions_array);
        let w5 = TopicAuthorizedOperations::wire(v.topic_authorized_operations);
        let w6 = TagBuffer::wire(v.tag_buffer);
        let front1 = w0;
        let front2 = front1 + w1;
        let front3 = front2 + w2;
        let front4 = front3 + w3;
        let front5 = front4 + w4;
        let front6 = front5 + w5;
        lemma_holds_at_last(s, at, front6, w6);
        lemma_holds_at_last(s, at, front5, w5);
        lemma_holds_at_last(s, at, front4, w4);
        lemma_holds_at_last(s, at, front3, w3);
        lemma_holds_at_last(s, at, front2, w2);
        lemma_holds_at_last(s, at, front1, w1);
        i16::lemma_round_trip(v.error_code, s, at);
        CompactString::lemma_round_trip(v.name, s, at + front1.len());
        Uuid::lemma_round_trip(v.id, s, at + front2.len());
        bool::lemma_round_trip(v.is_internal, s, at + front3.len());
        CompactArray::<TopicPartition>::lemma_round_trip(v.partitions_array, s, at + front4.len());
        TopicAuthorizedOperations::lemma_round_trip(v.topic_authorized_operations, s, at + front5.len());
        TagBuffer::lemma_round_trip(v.tag_buffer, s, at + front6.len());
    }
}

/// The body of a DescribeTopicPartitions response.
#[derive(Debug, Clone, PartialEq, Eq)]
pub struct DescribeTopicPartitionsResponseBodyV0 {
    pub throttle_time: i32,
    pub topic_array: CompactArray<TopicResponse>,
    pub next_curor: OptionTopicCursor,
    pub tag_buffer: TagBuffer,
}

/// The value that a [`DescribeTopicPartitionsResponseBodyV0`] stands for.
pub struct DescribeTopicPartitionsResponseBodyV0Model {
    pub throttle_time: i32,
    pub topic_array: Option<Seq<TopicResponseModel>>,
    pub next_curor: Option<TopicCursorModel>,
    pub tag_buffer: TagBufferModel,
}

impl Model for DescribeTopicPartitionsResponseBodyV0 {
    type M = DescribeTopicPartitionsResponseBodyV0Model;

    open spec fn model(&self) -> DescribeTopicPartitionsResponseBodyV0Model {
        DescribeTopicPartitionsResponseBodyV0Model {
            throttle_time: self.throttle_time.model(),
            topic_array: self.topic_array.model(),
            next_curor: self.next_curor.model(),
            tag_buffer: self.tag_buffer.model(),
        }
    }

    fn duplicate(&self) -> (r: Self) {
        DescribeTopicPartitionsResponseBodyV0 {
            throttle_time: self.throttle_time.duplicate(),
            topic_array: self.topic_array.duplicate(),
            next_curor: self.next_curor.duplicate(),
            tag_buffer: self.tag_buffer.duplicate(),
        }
    }
}

impl Encode for DescribeTopicPartitionsResponseBodyV0 {
    open spec fn wire(v: DescribeTopicPartitionsResponseBodyV0Model) -> Seq<u8> {
        i32::wire(v.throttle_time)
            + CompactArray::<TopicResponse>::wire(v.topic_array)
            + OptionTopicCursor::wire(v.next_curor)
            + TagBuffer::wire(v.tag_buffer)
    }

    open spec fn encodable(v: DescribeTopicPartitionsResponseBodyV0Model) -> bool {
        &&& i32::encodable(v.throttle_time)
        &&& CompactArray::<TopicResponse>::encodable(v.topic_array)
        &&& OptionTopicCursor::encodable(v.next_curor)
        &&& TagBuffer::encodable(v.tag_buffer)
    }

    fn is_encodable(&self) -> (b: bool) {
        self.throttle_time.is_encodable()
            && self.topic_array.is_encodable()
            && self.next_curor.is_encodable()
            && self.tag_buffer.is_encodable()
    }

    fn encode(&self) -> (out: Vec<u8>) {
        let mut out = self.throttle_time.encode();
        let mut piece = self.topic_array.encode();
        out.append(&mut piece);
        let mut piece = self.next_curor.encode();
        out.append(&mut piece);
        let mut piece = self.tag_buffer.encode();
        out.append(&mut piece);
        out
    }
}

impl Decode for DescribeTopicPartitionsResponseBodyV0 {
    open spec fn parse(s: Seq<u8>, at: int) -> Parsed<DescribeTopicPartitionsResponseBodyV0Model> {
        let throttle_time = i32::parse(s, at);
        let topic_array = CompactArray::<TopicResponse>::parse(s, end_of(throttle_time));
        let next_curor = OptionTopicCursor::parse(s, end_of(topic_array));
        let tag_buffer = TagBuffer::parse(s, end_of(next_curor));
        if throttle_time is Err {
            Err(error_of(throttle_time))
        } else if topic_array is Err {
            Err(error_of(topic_array))
        } else if next_curor is Err {
            Err(error_of(next_curor))
        } else if tag_buffer is Err {
            Err(error_of(tag_buffer))
        } else {
            Ok((
                DescribeTopicPartitionsResponseBodyV0Model {
                    throttle_time: value_of(throttle_time),
                    topic_array: value_of(topic_array),
                    next_curor: value_of(next_curor),
                    tag_buffer: value_of(tag_buffer),
                },
                end_of(tag_buffer),
            ))
        }
    }

    proof fn lemma_parse_in_bounds(s: Seq<u8>, at: int) {
        i32::lemma_parse_in_bounds(s, at);
        let throttle_time = i32::parse(s, at);
        CompactArray::<TopicResponse>::lemma_parse_in_bounds(s, end_of(throttle_time));
        let topic_array = CompactArray::<TopicResponse>::parse(s, end_of(throttle_time));
        OptionTopicCursor::lemma_parse_in_bounds(s, end_of(topic_array));
        let next_curor = OptionTopicCursor::parse(s, end_of(topic_array));
        TagBuffer::lemma_parse_in_bounds(s, end_of(next_curor));
    }

    proof fn lemma_parse_extends(s: Seq<u8>, t: Seq<u8>, at: int) {
        i32::lemma_parse_extends(s, t, at);
        let throttle_time = i32::parse(s, at);
        CompactArray::<TopicResponse>::lemma_parse_extends(s, t, end_of(throttle_time));
        let topic_array = CompactArray::<TopicResponse>::parse(s, end_of(throttle_time));
        OptionTopicCursor::lemma_parse_extends(s, t, end_of(topic_array));
        let next_curor = OptionTopicCursor::parse(s, end_of(topic_array));
        TagBuffer::lemma_parse_extends(s, t, end_of(next_curor));
    }

    fn decode(buffer: &mut Cursor) -> (r: DecodeResult<Self>) {
        let throttle_time = i32::decode(buffer)?;
        let topic_array = CompactArray::<TopicResponse>::decode(buffer)?;
        let next_curor = OptionTopicCursor::decode(buffer)?;
        let tag_buffer = TagBuffer::decode(buffer)?;
        Ok(DescribeTopicPartitionsResponseBodyV0 { throttle_time, topic_array, next_curor, tag_buffer })
    }
}

impl Codec for DescribeTopicPartitionsResponseBodyV0 {
    open spec fn canonical(v: DescribeTopicPartitionsResponseBodyV0Model) -> bool {
        &&& i32::canonical(v.throttle_time)
        &&& CompactArray::<TopicResponse>::canonical(v.topic_array)
        &&& OptionTopicCursor::canonical(v.next_curor)
        &&& TagBuffer::canonical(v.tag_buffer)
    }

    proof fn lemma_round_trip(v: DescribeTopicPartitionsResponseBodyV0Model, s: Seq<u8>, at: int) {
        let w0 = i32::wire(v.throttle_time);
        let w1 = CompactArray::<TopicResponse>::wire(v.topic_array);
        let w2 = OptionTopicCursor::wire(v.next_curor);
        let w3 = TagBuffer::wire(v.tag_buffer);
        let front1 = w0;
        let front2 = front1 + w1;
        let front3 = front2 + w2;
        lemma_holds_at_last(s, at, front3, w3);
        lemma_holds_at_last(s, at, front2, w2);
        lemma_holds_at_last(s, at, front1, w1);
        i32::lemma_round_trip(v.throttle_time, s, at);
        CompactArray::<TopicResponse>::lemma_round_trip(v.topic_array, s, at + front1.len());
        OptionTopicCursor::lemma_round_trip(v.next_curor, s, at + front2.len());
        TagBuffer::lemma_round_trip(v.tag_buffer, s, at + front3.len());
    }
}

impl Default for TopicAuthorizedOperations {
    /// Read, write, create, delete, alter, describe, describe configs and
    /// alter configs: the bits `0x0df8`.
    fn default() -> (r: Self)
        ensures
            r.model() == 0x0df8u32,
    {
        TopicAuthorizedOperations::from_bits_retain(0x0000_0df8)
    }
}

/// What the server knows of a topic.
#[derive(Debug, Clone, PartialEq, Eq)]
pub struct TopicInfo {
    pub name: CompactString,
    pub id: Uuid,
    pub is_internal: bool,
    pub partitions_array: CompactArray<TopicPartition>,
    pub topic_authorized_operations: TopicAuthorizedOperations,
}

/// The value that a [`TopicInfo`] stands for.
pub struct TopicInfoModel {
    pub name: Seq<char>,
    pub id: u128,
    pub is_internal: bool,
    pub partitions_array: Option<Seq<TopicPartitionModel>>,
    pub topic_authorized_operations: u32,
}

impl Model for TopicInfo {
    type M = TopicInfoModel;

    open spec fn model(&self) -> TopicInfoModel {
        TopicInfoModel {
            name: self.name.model(),
            id: self.id.model(),
            is_internal: self.is_internal.model(),
            partitions_array: self.partitions_array.model(),
            topic_authorized_operations: self.topic_authorized_operations.model(),
        }
    }

    fn duplicate(&self) -> (r: Self) {
        TopicInfo {
            name: self.name.duplicate(),
            id: self.id.duplicate(),
            is_internal: self.is_internal.duplicate(),
            partitions_array: self.partitions_array.duplicate(),
            topic_authorized_operations: self.topic_authorized_operations.duplicate(),
        }
    }
}

/// What a response says of a topic that the index holds.
pub open spec fn known_topic(info: TopicInfoModel) -> TopicResponseModel {
    TopicResponseModel {
        error_code: 0,
        name: info.name,
        id: info.id,
        is_internal: info.is_internal,
        partitions_array: info.partitions_array,
        topic_authorized_operations: info.topic_authorized_operations,
        tag_buffer: TagBufferModel { fields: None },
    }
}

/// What a response says of a topic that the index does not hold: error 3
/// under the name that was asked for, the nil identifier and no partition.
pub open spec fn unknown_topic(name: Seq<char>) -> TopicResponseModel {
    TopicResponseModel {
        error_code: 3,
        name,
        id: 0,
        is_internal: false,
        partitions_array: Some(Seq::empty()),
        topic_authorized_operations: 0x0df8,
        tag_buffer: TagBufferModel { fields: None },
    }
}

/// What a response says of the topic of the given name.
pub open spec fn describe_topic(index: TopicIndexModel, name: Seq<char>) -> TopicResponseModel {
    match lookup_name(index.topics, name) {
        Some(info) => known_topic(info),
        None => unknown_topic(name),
    }
}

/// The topics of a request, none where the array is null.
pub open spec fn requested_topics(body: DescribeTopicPartitionsRequestBodyV0Model) -> Seq<
    TopicRequestModel,
> {
    match body.topics {
        Some(topics) => topics,
        None => Seq::empty(),
    }
}

/// The answer to a DescribeTopicPartitions request: one entry for each
/// requested topic, in the order of the request, and no cursor. A request
/// of another version than 0 is refused in the shape of an ApiVersions response.
pub open spec fn describe_topic_partitions_response(
    header: RequestHeaderV2Model,
    body: DescribeTopicPartitionsRequestBodyV0Model,
    index: TopicIndexModel,
) -> ResponseMessageModel {
    if header.request_api_version != 0 {
        v0_response(header.correlation_id, unsupported_version_body())
    } else {
        ResponseMessageModel {
            message_size: 0,
            header: ResponseHeaderModel::ResponseHeaderV1(
                ResponseHeaderV1Model {
                    correlation_id: header.correlation_id,
                    tag_buffer: TagBufferModel { fields: None },
                },
            ),
            body: ResponseBodyModel::DescribeTopicPartitionsV0(
                DescribeTopicPartitionsResponseBodyV0Model {
                    throttle_time: 0,
                    topic_array: Some(
                        Seq::new(
                            requested_topics(body).len(),
                            |i: int| describe_topic(index, requested_topics(body)[i].name),
                        ),
                    ),
                    next_curor: None,
                    tag_buffer: TagBufferModel { fields: None },
                },
            ),
        }
    }
}

/// Answers one requested topic from the index.
fn describe_one(index: &TopicIndex, request_topic: &TopicRequest) -> (r: TopicResponse)
    ensures
        r.model() == describe_topic(index.model(), request_topic.model().name),
{
    match index.topic_info(&request_topic.name) {
        Some(topic_info) => TopicResponse {
            error_code: 0,
            name: topic_info.name.duplicate(),
            id: topic_info.id,
            is_internal: topic_info.is_internal,
            partitions_array: topic_info.partitions_array.duplicate(),
            topic_authorized_operations: topic_info.topic_authorized_operations,
            tag_buffer: TagBuffer::default(),
        },
        None => TopicResponse {
            error_code: UNKNOWN_TOPIC_OR_PARTITION,
            name: request_topic.name.duplicate(),
            id: Uuid::nil(),
            is_internal: false,
            partitions_array: CompactArray::empty(),
            topic_authorized_operations: TopicAuthorizedOperations::default(),
            tag_buffer: TagBuffer::default(),
        },
    }
}

/// Answers a DescribeTopicPartitions request from the index.
pub fn execute_describe_topic_partitions(
    header: &RequestHeaderV2,
    body: &DescribeTopicPartitionsRequestBodyV0,
    index: &TopicIndex,
) -> (r: ResponseMessage)
    ensures
        r.model() == describe_topic_partitions_response(
            header.model(),
            body.model(),
            index.model(),
        ),
{
    let request_api_version: i16 = header.request_api_version;
    let correlation_id: i32 = header.correlation_id;
    if request_api_version != 0 {
        return unsupported_version_response(correlation_id);
    }
    let ghost wanted = requested_topics(body.model());
    let mut describe_topics: Vec<TopicResponse> = Vec::new();
    match body.topics.get_inner() {
        Some(topics) => {
            let mut i: usize = 0;
            while i < topics.len()
                invariant
                    i <= topics@.len(),
                    wanted == models(topics@),
                    describe_topics@.len() == i,
                    forall|j: int|
                        0 <= j < i ==> (#[trigger] describe_topics@[j]).model() == describe_topic(
                            index.model(),
                            wanted[j].name,
                        ),
                decreases topics@.len() - i,
            {
                let resp_topic = describe_one(index, &topics[i]);
                describe_topics.push(resp_topic);
                i = i + 1;
            }
        },
        None => {},
    }
    proof {
        assert(models(describe_topics@) =~= Seq::new(
            wanted.len(),
            |i: int| describe_topic(index.model(), wanted[i].name),
        ));
    }
    ResponseMessage::new(
        ResponseHeader::new_v1(correlation_id),
        ResponseBody::DescribeTopicPartitionsV0(
            DescribeTopicPartitionsResponseBodyV0 {
                throttle_time: 0,
                topic_array: CompactArray::new(Some(describe_topics)),
                next_curor: OptionTopicCursor::default(),
                tag_buffer: TagBuffer::default(),
            },
        ),
    )
}

} // verus!
