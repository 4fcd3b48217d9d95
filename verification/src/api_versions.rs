//! ApiVersions: the request, the response and the handler that tells a client
//! which requests the server speaks.
use vstd::prelude::*;

use crate::big_endian::{lemma_be_bytes_len, twos_complement};
use crate::codec::Codec;
use crate::common_struct::lemma_empty_tag_buffer_wire;
use crate::common_struct::{CompactArray, CompactString, TagBuffer, TagBufferModel};
use crate::cursor::Cursor;
use crate::decode::{
    end_of, error_of, lemma_holds_at_last, value_of, Decode, DecodeResult, Parsed,
};
use crate::encode::Encode;
use crate::model::{models, Model};
use crate::sequence::wire_items;
use crate::varint::varint_bytes;
use crate::request_message::RequestHeaderV2;
use crate::response_message::{
    response_frame_len, response_frameable, ResponseBody, ResponseBodyModel, ResponseHeader, ResponseHeaderModel, ResponseHeaderV0Model,
    ResponseMessage, ResponseMessageModel,
};

verus! {

pub const UNSUPPORTED_VERSION_ERROR: i16 = 35;

/// The key of the ApiVersions request.
pub const API_VERSIONS_KEY: i16 = 18;

/// The key of the DescribeTopicPartitions request.
pub const DESCRIBE_TOPIC_PARTITIONS_KEY: i16 = 75;

/// The key of the Fetch request.
pub const FETCH_KEY: i16 = 1;

/// The body of an ApiVersions request: who asks.
#[derive(Debug, Clone, PartialEq, Eq)]
pub struct ApiVersionsReqeustBodyV4 {
    pub client_id: CompactString,
    pub client_software_version: CompactString,
    pub tag_buffer: TagBuffer,
}

/// The value that a [`ApiVersionsReqeustBodyV4`] stands for.
pub struct ApiVersionsReqeustBodyV4Model {
    pub client_id: Seq<char>,
    pub client_software_version: Seq<char>,
    pub tag_buffer: TagBufferModel,
}

impl Model for ApiVersionsReqeustBodyV4 {
    type M = ApiVersionsReqeustBodyV4Model;

    open spec fn model(&self) -> ApiVersionsReqeustBodyV4Model {
        ApiVersionsReqeustBodyV4Model {
            client_id: self.client_id.model(),
            client_software_version: self.client_software_version.model(),
            tag_buffer: self.tag_buffer.model(),
        }
    }

    fn duplicate(&self) -> (r: Self) {
        ApiVersionsReqeustBodyV4 {
            client_id: self.client_id.duplicate(),
            client_software_version: self.client_software_version.duplicate(),
            tag_buffer: self.tag_buffer.duplicate(),
        }
    }
}

impl Encode for ApiVersionsReqeustBodyV4 {
    open spec fn wire(v: ApiVersionsReqeustBodyV4Model) -> Seq<u8> {
        CompactString::wire(v.client_id)
            + CompactString::wire(v.client_software_version)
            + TagBuffer::wire(v.tag_buffer)
    }

    open spec fn encodable(v: ApiVersionsReqeustBodyV4Model) -> bool {
        &&& CompactString::encodable(v.client_id)
        &&& CompactString::encodable(v.client_software_version)
        &&& TagBuffer::encodable(v.tag_buffer)
    }

    fn is_encodable(&self) -> (b: bool) {
        self.client_id.is_encodable()
            && self.client_software_version.is_encodable()
            && self.tag_buffer.is_encodable()
    }

    fn encode(&self) -> (out: Vec<u8>) {
        let mut out = self.client_id.encode();
        let mut piece = self.client_software_version.encode();
        out.append(&mut piece);
        let mut piece = self.tag_buffer.encode();
        out.append(&mut piece);
        out
    }
}

impl Decode for ApiVersionsReqeustBodyV4 {
    open spec fn parse(s: Seq<u8>, at: int) -> Parsed<ApiVersionsReqeustBodyV4Model> {
        let client_id = CompactString::parse(s, at);
        let client_software_version = CompactString::parse(s, end_of(client_id));
        let tag_buffer = TagBuffer::parse(s, end_of(client_software_version));
        if client_id is Err {
            Err(error_of(client_id))
        } else if client_software_version is Err {
            Err(error_of(client_software_version))
        } else if tag_buffer is Err {
            Err(error_of(tag_buffer))
        } else {
            Ok((
                ApiVersionsReqeustBodyV4Model {
                    client_id: value_of(client_id),
                    client_software_version: value_of(client_software_version),
                    tag_buffer: value_of(tag_buffer),
                },
                end_of(tag_buffer),
            ))
        }
    }

    proof fn lemma_parse_in_bounds(s: Seq<u8>, at: int) {
        CompactString::lemma_parse_in_bounds(s, at);
        let client_id = CompactString::parse(s, at);
        CompactString::lemma_parse_in_bounds(s, end_of(client_id));
        let client_software_version = CompactString::parse(s, end_of(client_id));
        TagBuffer::lemma_parse_in_bounds(s, end_of(client_software_version));
    }

    proof fn lemma_parse_extends(s: Seq<u8>, t: Seq<u8>, at: int) {
        CompactString::lemma_parse_extends(s, t, at);
        let client_id = CompactString::parse(s, at);
        CompactString::lemma_parse_extends(s, t, end_of(client_id));
        let client_software_version = CompactString::parse(s, end_of(client_id));
        TagBuffer::lemma_parse_extends(s, t, end_of(client_software_version));
    }

    fn decode(buffer: &mut Cursor) -> (r: DecodeResult<Self>) {
        let client_id = CompactString::decode(buffer)?;
        let client_software_version = CompactString::decode(buffer)?;
        let tag_buffer = TagBuffer::decode(buffer)?;
        Ok(ApiVersionsReqeustBodyV4 { client_id, client_software_version, tag_buffer })
    }
}

impl Codec for ApiVersionsReqeustBodyV4 {
    open spec fn canonical(v: ApiVersionsReqeustBodyV4Model) -> bool {
        &&& CompactString::canonical(v.client_id)
        &&& CompactString::canonical(v.client_software_version)
        &&& TagBuffer::canonical(v.tag_buffer)
    }

    proof fn lemma_round_trip(v: ApiVersionsReqeustBodyV4Model, s: Seq<u8>, at: int) {
        let w0 = CompactString::wire(v.client_id);
        let w1 = CompactString::wire(v.client_software_version);
        let w2 = TagBuffer::wire(v.tag_buffer);
        let front1 = w0;
        let front2 = front1 + w1;
        lemma_holds_at_last(s, at, front2, w2);
        lemma_holds_at_last(s, at, front1, w1);
        CompactString::lemma_round_trip(v.client_id, s, at);
        CompactString::lemma_round_trip(v.client_software_version, s, at + front1.len());
        TagBuffer::lemma_round_trip(v.tag_buffer, s, at + front2.len());
    }
}

/// An API and the range of its versions that the server speaks.
#[derive(Debug, Clone, PartialEq, Eq)]
pub struct ApiKey {
    pub api_key: i16,
    pub min_version: i16,
    pub max_version: i16,
    pub tag_buffer: TagBuffer,
}

/// The value that a [`ApiKey`] stands for.
pub struct ApiKeyModel {
    pub api_key: i16,
    pub min_version: i16,
    pub max_version: i16,
    pub tag_buffer: TagBufferModel,
}

impl Model for ApiKey {
    type M = ApiKeyModel;

    open spec fn model(&self) -> ApiKeyModel {
        ApiKeyModel {
            api_key: self.api_key.model(),
            min_version: self.min_version.model(),
            max_version: self.max_version.model(),
            tag_buffer: self.tag_buffer.model(),
        }
    }

    fn duplicate(&self) -> (r: Self) {
        ApiKey {
            api_key: self.api_key.duplicate(),
            min_version: self.min_version.duplicate(),
            max_version: self.max_version.duplicate(),
            tag_buffer: self.tag_buffer.duplicate(),
        }
    }
}

impl ApiKey {
    pub fn new(api_key: i16, min_version: i16, max_version: i16, tag_buffer: TagBuffer) -> (r: Self)
        ensures
            r == (ApiKey { api_key, min_version, max_version, tag_buffer }),
    {
        Self { api_key, min_version, max_version, tag_buffer }
    }
}

impl Encode for ApiKey {
    open spec fn wire(v: ApiKeyModel) -> Seq<u8> {
        i16::wire(v.api_key)
            + i16::wire(v.min_version)
            + i16::wire(v.max_version)
            + TagBuffer::wire(v.tag_buffer)
    }

    open spec fn encodable(v: ApiKeyModel) -> bool {
        &&& i16::encodable(v.api_key)
        &&& i16::encodable(v.min_version)
        &&& i16::encodable(v.max_version)
        &&& TagBuffer::encodable(v.tag_buffer)
    }

    fn is_encodable(&self) -> (b: bool) {
        self.api_key.is_encodable()
            && self.min_version.is_encodable()
            && self.max_version.is_encodable()
            && self.tag_buffer.is_encodable()
    }

    fn encode(&self) -> (out: Vec<u8>) {
        let mut out = self.api_key.encode();
        let mut piece = self.min_version.encode();
        out.append(&mut piece);
        let mut piece = self.max_version.encode();
        out.append(&mut piece);
        let mut piece = self.tag_buffer.encode();
        out.append(&mut piece);
        out
    }
}

impl Decode for ApiKey {
    open spec fn parse(s: Seq<u8>, at: int) -> Parsed<ApiKeyModel> {
        let api_key = i16::parse(s, at);
        let min_version = i16::parse(s, end_of(api_key));
        let max_version = i16::parse(s, end_of(min_version));
        let tag_buffer = TagBuffer::parse(s, end_of(max_version));
        if api_key is Err {
            Err(error_of(api_key))
        } else if min_version is Err {
            Err(error_of(min_version))
        } else if max_version is Err {
            Err(error_of(max_version))
        } else if tag_buffer is Err {
            Err(error_of(tag_buffer))
        } else {
            Ok((
                ApiKeyModel {
                    api_key: value_of(api_key),
                    min_version: value_of(min_version),
                    max_version: value_of(max_version),
                    tag_buffer: value_of(tag_buffer),
                },
                end_of(tag_buffer),
            ))
        }
    }

    proof fn lemma_parse_in_bounds(s: Seq<u8>, at: int) {
        i16::lemma_parse_in_bounds(s, at);
        let api_key = i16::parse(s, at);
        i16::lemma_parse_in_bounds(s, end_of(api_key));
        let min_version = i16::parse(s, end_of(api_key));
        i16::lemma_parse_in_bounds(s, end_of(min_version));
        let max_version = i16::parse(s, end_of(min_version));
        TagBuffer::lemma_parse_in_bounds(s, end_of(max_version));
    }

    proof fn lemma_parse_extends(s: Seq<u8>, t: Seq<u8>, at: int) {
        i16::lemma_parse_extends(s, t, at);
        let api_key = i16::parse(s, at);
        i16::lemma_parse_extends(s, t, end_of(api_key));
        let min_version = i16::parse(s, end_of(api_key));
        i16::lemma_parse_extends(s, t, end_of(min_version));
        let max_version = i16::parse(s, end_of(min_version));
        TagBuffer::lemma_parse_extends(s, t, end_of(max_version));
    }

    fn decode(buffer: &mut Cursor) -> (r: DecodeResult<Self>) {
        let api_key = i16::decode(buffer)?;
        let min_version = i16::decode(buffer)?;
        let max_version = i16::decode(buffer)?;
        let tag_buffer = TagBuffer::decode(buffer)?;
        Ok(ApiKey { api_key, min_version, max_version, tag_buffer })
    }
}

impl Codec for ApiKey {
    open spec fn canonical(v: ApiKeyModel) -> bool {
        &&& i16::canonical(v.api_key)
        &&& i16::canonical(v.min_version)
        &&& i16::canonical(v.max_version)
        &&& TagBuffer::canonical(v.tag_buffer)
    }

    proof fn lemma_round_trip(v: ApiKeyModel, s: Seq<u8>, at: int) {
        let w0 = i16::wire(v.api_key);
        let w1 = i16::wire(v.min_version);
        let w2 = i16::wire(v.max_version);
        let w3 = TagBuffer::wire(v.tag_buffer);
        let front1 = w0;
        let front2 = front1 + w1;
        let front3 = front2 + w2;
        lemma_holds_at_last(s, at, front3, w3);
        lemma_holds_at_last(s, at, front2, w2);
        lemma_holds_at_last(s, at, front1, w1);
        i16::lemma_round_trip(v.api_key, s, at);
        i16::lemma_round_trip(v.min_version, s, at + front1.len());
        i16::lemma_round_trip(v.max_version, s, at + front2.len());
        TagBuffer::lemma_round_trip(v.tag_buffer, s, at + front3.len());
    }
}

/// The body of an ApiVersions response.
#[derive(Debug, Clone, PartialEq, Eq)]
pub struct ApiVersionsResponseBodyV4 {
    pub error_code: i16,
    pub api_keys: CompactArray<ApiKey>,
    pub throttle_time_ms: i32,
    pub tag_buffer: TagBuffer,
}

/// The value that a [`ApiVersionsResponseBodyV4`] stands for.
pub struct ApiVersionsResponseBodyV4Model {
    pub error_code: i16,
    pub api_keys: Option<Seq<ApiKeyModel>>,
    pub throttle_time_ms: i32,
    pub tag_buffer: TagBufferModel,
}

impl Model for ApiVersionsResponseBodyV4 {
    type M = ApiVersionsResponseBodyV4Model;

    open spec fn model(&self) -> ApiVersionsResponseBodyV4Model {
        ApiVersionsResponseBodyV4Model {
            error_code: self.error_code.model(),
            api_keys: self.api_keys.model(),
            throttle_time_ms: self.throttle_time_ms.model(),
            tag_buffer: self.tag_buffer.model(),
        }
    }

    fn duplicate(&self) -> (r: Self) {
        ApiVersionsResponseBodyV4 {
            error_code: self.error_code.duplicate(),
            api_keys: self.api_keys.duplicate(),
            throttle_time_ms: self.throttle_time_ms.duplicate(),
            tag_buffer: self.tag_buffer.duplicate(),
        }
    }
}

impl ApiVersionsResponseBodyV4 {
    pub fn new(error_code: i16, api_keys: CompactArray<ApiKey>, throttle_time_ms: i32, tag_buffer: TagBuffer) -> (r: Self)
        ensures
            r == (ApiVersionsResponseBodyV4 { error_code, api_keys, throttle_time_ms, tag_buffer }),
    {
        Self { error_code, api_keys, throttle_time_ms, tag_buffer }
    }
}

impl Encode for ApiVersionsResponseBodyV4 {
    open spec fn wire(v: ApiVersionsResponseBodyV4Model) -> Seq<u8> {
        i16::wire(v.error_code)
            + CompactArray::<ApiKey>::wire(v.api_keys)
            + i32::wire(v.throttle_time_ms)
            + TagBuffer::wire(v.tag_buffer)
    }

    open spec fn encodable(v: ApiVersionsResponseBodyV4Model) -> bool {
        &&& i16::encodable(v.error_code)
        &&& CompactArray::<ApiKey>::encodable(v.api_keys)
        &&& i32::encodable(v.throttle_time_ms)
        &&& TagBuffer::encodable(v.tag_buffer)
    }

    fn is_encodable(&self) -> (b: bool) {
        self.error_code.is_encodable()
            && self.api_keys.is_encodable()
            && self.throttle_time_ms.is_encodable()
            && self.tag_buffer.is_encodable()
    }

    fn encode(&self) -> (out: Vec<u8>) {
        let mut out = self.error_code.encode();
        let mut piece = self.api_keys.encode();
        out.append(&mut piece);
        let mut piece = self.throttle_time_ms.encode();
        out.append(&mut piece);
        let mut piece = self.tag_buffer.encode();
        out.append(&mut piece);
        out
    }
}

impl Decode for ApiVersionsResponseBodyV4 {
    open spec fn parse(s: Seq<u8>, at: int) -> Parsed<ApiVersionsResponseBodyV4Model> {
        let error_code = i16::parse(s, at);
        let api_keys = CompactArray::<ApiKey>::parse(s, end_of(error_code));
        let throttle_time_ms = i32::parse(s, end_of(api_keys));
        let tag_buffer = TagBuffer::parse(s, end_of(throttle_time_ms));
        if error_code is Err {
            Err(error_of(error_code))
        } else if api_keys is Err {
            Err(error_of(api_keys))
        } else if throttle_time_ms is Err {
            Err(error_of(throttle_time_ms))
        } else if tag_buffer is Err {
            Err(error_of(tag_buffer))
        } else {
            Ok((
                ApiVersionsResponseBodyV4Model {
                    error_code: value_of(error_code),
                    api_keys: value_of(api_keys),
                    throttle_time_ms: value_of(throttle_time_ms),
                    tag_buffer: value_of(tag_buffer),
                },
                end_of(tag_buffer),
            ))
        }
    }

    proof fn lemma_parse_in_bounds(s: Seq<u8>, at: int) {
        i16::lemma_parse_in_bounds(s, at);
        let error_code = i16::parse(s, at);
        CompactArray::<ApiKey>::lemma_parse_in_bounds(s, end_of(error_code));
        let api_keys = CompactArray::<ApiKey>::parse(s, end_of(error_code));
        i32::lemma_parse_in_bounds(s, end_of(api_keys));
        let throttle_time_ms = i32::parse(s, end_of(api_keys));
        TagBuffer::lemma_parse_in_bounds(s, end_of(throttle_time_ms));
    }

    proof fn lemma_parse_extends(s: Seq<u8>, t: Seq<u8>, at: int) {
        i16::lemma_parse_extends(s, t, at);
        let error_code = i16::parse(s, at);
        CompactArray::<ApiKey>::lemma_parse_extends(s, t, end_of(error_code));
        let api_keys = CompactArray::<ApiKey>::parse(s, end_of(error_code));
        i32::lemma_parse_extends(s, t, end_of(api_keys));
        let throttle_time_ms = i32::parse(s, end_of(api_keys));
        TagBuffer::lemma_parse_extends(s, t, end_of(throttle_time_ms));
    }

    fn decode(buffer: &mut Cursor) -> (r: DecodeResult<Self>) {
        let error_code = i16::decode(buffer)?;
        let api_keys = CompactArray::<ApiKey>::decode(buffer)?;
        let throttle_time_ms = i32::decode(buffer)?;
        let tag_buffer = TagBuffer::decode(buffer)?;
        Ok(ApiVersionsResponseBodyV4 { error_code, api_keys, throttle_time_ms, tag_buffer })
    }
}

impl Codec for ApiVersionsResponseBodyV4 {
    open spec fn canonical(v: ApiVersionsResponseBodyV4Model) -> bool {
        &&& i16::canonical(v.error_code)
        &&& CompactArray::<ApiKey>::canonical(v.api_keys)
        &&& i32::canonical(v.throttle_time_ms)
        &&& TagBuffer::canonical(v.tag_buffer)
    }

    proof fn lemma_round_trip(v: ApiVersionsResponseBodyV4Model, s: Seq<u8>, at: int) {
        let w0 = i16::wire(v.error_code);
        let w1 = CompactArray::<ApiKey>::wire(v.api_keys);
        let w2 = i32::wire(v.throttle_time_ms);
        let w3 = TagBuffer::wire(v.tag_buffer);
        let front1 = w0;
        let front2 = front1 + w1;
        let front3 = front2 + w2;
        lemma_holds_at_last(s, at, front3, w3);
        lemma_holds_at_last(s, at, front2, w2);
        lemma_holds_at_last(s, at, front1, w1);
        i16::lemma_round_trip(v.error_code, s, at);
        CompactArray::<ApiKey>::lemma_round_trip(v.api_keys, s, at + front1.len());
        i32::lemma_round_trip(v.throttle_time_ms, s, at + front2.len());
        TagBuffer::lemma_round_trip(v.tag_buffer, s, at + front3.len());
    }
}

/// An API with the versions of it that the server speaks, without tagged fields.
pub open spec fn api_info(api_key: i16, min_version: i16, max_version: i16) -> ApiKeyModel {
    ApiKeyModel { api_key, min_version, max_version, tag_buffer: TagBufferModel { fields: None } }
}

/// The APIs that the server speaks, in the order of their keys: Fetch 0 to
/// 16, ApiVersions 0 to 4, DescribeTopicPartitions 0.
pub open spec fn supported_apis_model() -> Seq<ApiKeyModel> {
    seq![api_info(1, 0, 16), api_info(18, 0, 4), api_info(75, 0, 0)]
}

pub fn api_versions_api_info() -> (r: ApiKey)
    ensures
        r.model() == api_info(18, 0, 4),
{
    ApiKey::new(API_VERSIONS_KEY, 0, 4, TagBuffer::default())
}

pub fn describe_topic_partitions_api_info() -> (r: ApiKey)
    ensures
        r.model() == api_info(75, 0, 0),
{
    ApiKey::new(DESCRIBE_TOPIC_PARTITIONS_KEY, 0, 0, TagBuffer::default())
}

pub fn fetch_api_info() -> (r: ApiKey)
    ensures
        r.model() == api_info(1, 0, 16),
{
    ApiKey::new(FETCH_KEY, 0, 16, TagBuffer::default())
}

/// The supported APIs in the order of their keys.
pub fn supported_apis() -> (r: Vec<ApiKey>)
    ensures
        models(r@) == supported_apis_model(),
{
    let mut apis: Vec<ApiKey> = Vec::new();
    apis.push(fetch_api_info());
    apis.push(api_versions_api_info());
    apis.push(describe_topic_partitions_api_info());
    proof {
        assert(models(apis@) =~= supported_apis_model());
    }
    apis
}

/// The body that answers an ApiVersions request: the supported APIs where
/// the request's own version is one of 0 to 4, and error 35 with an empty
/// list where it is not.
pub open spec fn api_versions_body(request_api_version: i16) -> ApiVersionsResponseBodyV4Model {
    if 0 <= request_api_version <= 4 {
        ApiVersionsResponseBodyV4Model {
            error_code: 0,
            api_keys: Some(supported_apis_model()),
            throttle_time_ms: 0,
            tag_buffer: TagBufferModel { fields: None },
        }
    } else {
        unsupported_version_body()
    }
}

/// The body that refuses a request for its version.
pub open spec fn unsupported_version_body() -> ApiVersionsResponseBodyV4Model {
    ApiVersionsResponseBodyV4Model {
        error_code: 35,
        api_keys: Some(Seq::empty()),
        throttle_time_ms: 0,
        tag_buffer: TagBufferModel { fields: None },
    }
}

/// A response under the header without tagged fields, its size not yet filled in.
pub open spec fn v0_response(
    correlation_id: i32,
    body: ApiVersionsResponseBodyV4Model,
) -> ResponseMessageModel {
    ResponseMessageModel {
        message_size: 0,
        header: ResponseHeaderModel::ResponseHeaderV0(ResponseHeaderV0Model { correlation_id }),
        body: ResponseBodyModel::ApiVersionsV4(body),
    }
}

/// The response that refuses a request for its version. It has the shape of
/// an ApiVersions response whatever the request was.
pub fn unsupported_version_response(correlation_id: i32) -> (r: ResponseMessage)
    ensures
        r.model() == v0_response(correlation_id, unsupported_version_body()),
        response_frameable(r.model()),
{
    let none: Vec<ApiKey> = Vec::new();
    proof {
        assert(models(none@) =~= Seq::<ApiKeyModel>::empty());
        lemma_api_versions_response_frameable(5i16, correlation_id);
    }
    ResponseMessage::new(
        ResponseHeader::new_v0(correlation_id),
        ResponseBody::ApiVersionsV4(
            ApiVersionsResponseBodyV4::new(
                UNSUPPORTED_VERSION_ERROR,
                CompactArray::new(Some(none)),
                0,
                TagBuffer::default(),
            ),
        ),
    )
}

/// The wire form of an API without tagged fields takes seven bytes.
proof fn lemma_api_info_wire(api_key: i16, min_version: i16, max_version: i16)
    ensures
        ApiKey::encodable(api_info(api_key, min_version, max_version)),
        ApiKey::wire(api_info(api_key, min_version, max_version)).len() == 7,
{
    lemma_be_bytes_len(twos_complement(api_key as int, 2), 2);
    lemma_be_bytes_len(twos_complement(min_version as int, 2), 2);
    lemma_be_bytes_len(twos_complement(max_version as int, 2), 2);
    lemma_empty_tag_buffer_wire();
}

/// The answer to an ApiVersions request can always be framed: it takes 33
/// bytes behind its size where it lists the supported APIs, and 12 where it
/// refuses the version.
pub proof fn lemma_api_versions_response_frameable(request_api_version: i16, correlation_id: i32)
    ensures
        response_frameable(v0_response(correlation_id, api_versions_body(request_api_version))),
        response_frame_len(v0_response(correlation_id, api_versions_body(request_api_version)))
            == if 0 <= request_api_version <= 4 {
            33nat
        } else {
            12nat
        },
{
    let body = api_versions_body(request_api_version);
    lemma_be_bytes_len(twos_complement(correlation_id as int, 4), 4);
    lemma_be_bytes_len(twos_complement(body.error_code as int, 2), 2);
    lemma_be_bytes_len(twos_complement(body.throttle_time_ms as int, 4), 4);
    lemma_empty_tag_buffer_wire();
    lemma_api_info_wire(1, 0, 16);
    lemma_api_info_wire(18, 0, 4);
    lemma_api_info_wire(75, 0, 0);
    let apis = supported_apis_model();
    assert(wire_items::<ApiKey>(Seq::<ApiKeyModel>::empty()).len() == 0);
    assert(apis.drop_last().drop_last().drop_last() =~= Seq::<ApiKeyModel>::empty());
    assert(wire_items::<ApiKey>(apis.drop_last().drop_last()).len() == 7) by {
        assert(apis.drop_last().drop_last().last() == apis[0]);
    }
    assert(wire_items::<ApiKey>(apis.drop_last()).len() == 14) by {
        assert(apis.drop_last().last() == apis[1]);
    }
    assert(wire_items::<ApiKey>(apis).len() == 21) by {
        assert(apis.last() == apis[2]);
    }
    assert(varint_bytes(4) =~= seq![4u8]);
    assert(varint_bytes(1) =~= seq![1u8]);
}

/// Answers an ApiVersions request. The answer can always be framed.
pub fn execute_api_verions(header: &RequestHeaderV2, _body: &ApiVersionsReqeustBodyV4) -> (r:
    ResponseMessage)
    ensures
        r.model() == v0_response(
            header.correlation_id,
            api_versions_body(header.request_api_version),
        ),
        response_frameable(r.model()),
{
    proof {
        lemma_api_versions_response_frameable(header.request_api_version, header.correlation_id);
    }
    let request_api_version: i16 = header.request_api_version;
    let correlation_id: i32 = header.correlation_id;
    if request_api_version >= 0 && request_api_version <= 4 {
        ResponseMessage::new(
            ResponseHeader::new_v0(correlation_id),
            ResponseBody::ApiVersionsV4(
                ApiVersionsResponseBodyV4::new(
                    0,
                    CompactArray::new(Some(supported_apis())),
                    0,
                    TagBuffer::default(),
                ),
            ),
        )
    } else {
        unsupported_version_response(correlation_id)
    }
}

} // verus!
