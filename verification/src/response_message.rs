//! Responses: the two headers, the bodies, and how a response is framed.
use vstd::prelude::*;

use crate::api_versions::{
    api_versions_body, execute_api_verions, v0_response, ApiVersionsResponseBodyV4,
    ApiVersionsResponseBodyV4Model, API_VERSIONS_KEY, DESCRIBE_TOPIC_PARTITIONS_KEY, FETCH_KEY,
};
use crate::codec::Codec;
use crate::common_struct::{TagBuffer, TagBufferModel};
use crate::cursor::Cursor;
use crate::decode::{
    end_of, error_of, holds_at, lemma_holds_at_last, value_of, Decode, DecodeError, DecodeResult,
    Fault, Parsed,
};
use crate::describe_topic_partitions::{
    describe_topic_partitions_response, execute_describe_topic_partitions,
    DescribeTopicPartitionsResponseBodyV0, DescribeTopicPartitionsResponseBodyV0Model,
};
use crate::encode::Encode;
use crate::fetch::{
    execute_fetch, fetch_log_requests, fetch_response, fetch_wants, log_models, log_names,
    FetchResponseBodyV16, FetchResponseBodyV16Model, PartitionLog,
};
use crate::metadata_log::{TopicIndex, TopicIndexModel};
use crate::model::Model;
use crate::record::{RecordBatch, RecordBatchModel};
use crate::request_message::{
    RequestBody, RequestBodyModel, RequestHeader, RequestMessage, RequestMessageModel,
};

verus! {

/// The response header without tagged fields.
#[derive(Debug, Clone, PartialEq, Eq)]
pub struct ResponseHeaderV0 {
    pub correlation_id: i32,
}

/// The value that a [`ResponseHeaderV0`] stands for.
pub struct ResponseHeaderV0Model {
    pub correlation_id: i32,
}

impl Model for ResponseHeaderV0 {
    type M = ResponseHeaderV0Model;

    open spec fn model(&self) -> ResponseHeaderV0Model {
        ResponseHeaderV0Model {
            correlation_id: self.correlation_id.model(),
        }
    }

    fn duplicate(&self) -> (r: Self) {
        ResponseHeaderV0 {
            correlation_id: self.correlation_id.duplicate(),
        }
    }
}

impl Encode for ResponseHeaderV0 {
    open spec fn wire(v: ResponseHeaderV0Model) -> Seq<u8> {
        i32::wire(v.correlation_id)
    }

    open spec fn encodable(v: ResponseHeaderV0Model) -> bool {
        &&& i32::encodable(v.correlation_id)
    }

    fn is_encodable(&self) -> (b: bool) {
        self.correlation_id.is_encodable()
    }

    fn encode(&self) -> (out: Vec<u8>) {
        let mut out = self.correlation_id.encode();
        out
    }
}

impl Decode for ResponseHeaderV0 {
    open spec fn parse(s: Seq<u8>, at: int) -> Parsed<ResponseHeaderV0Model> {
        let correlation_id = i32::parse(s, at);
        if correlation_id is Err {
            Err(error_of(correlation_id))
        } else {
            Ok((
                ResponseHeaderV0Model {
                    correlation_id: value_of(correlation_id),
                },
                end_of(correlation_id),
            ))
        }
    }

    proof fn lemma_parse_in_bounds(s: Seq<u8>, at: int) {
        i32::lemma_parse_in_bounds(s, at);
    }

    proof fn lemma_parse_extends(s: Seq<u8>, t: Seq<u8>, at: int) {
        i32::lemma_parse_extends(s, t, at);
    }

    fn decode(buffer: &mut Cursor) -> (r: DecodeResult<Self>) {
        let correlation_id = i32::decode(buffer)?;
        Ok(ResponseHeaderV0 { correlation_id })
    }
}

impl Codec for ResponseHeaderV0 {
    open spec fn canonical(v: ResponseHeaderV0Model) -> bool {
        &&& i32::canonical(v.correlation_id)
    }

    proof fn lemma_round_trip(v: ResponseHeaderV0Model, s: Seq<u8>, at: int) {
        i32::lemma_round_trip(v.correlation_id, s, at);
    }
}

/// The response header with tagged fields.
#[derive(Debug, Clone, PartialEq, Eq)]
pub struct ResponseHeaderV1 {
    pub correlation_id: i32,
    pub tag_buffer: TagBuffer,
}

/// The value that a [`ResponseHeaderV1`] stands for.
pub struct ResponseHeaderV1Model {
    pub correlation_id: i32,
    pub tag_buffer: TagBufferModel,
}

impl Model for ResponseHeaderV1 {
    type M = ResponseHeaderV1Model;

    open spec fn model(&self) -> ResponseHeaderV1Model {
        ResponseHeaderV1Model {
            correlation_id: self.correlation_id.model(),
            tag_buffer: self.tag_buffer.model(),
        }
    }

    fn duplicate(&self) -> (r: Self) {
        ResponseHeaderV1 {
            correlation_id: self.correlation_id.duplicate(),
            tag_buffer: self.tag_buffer.duplicate(),
        }
    }
}

impl Encode for ResponseHeaderV1 {
    open spec fn wire(v: ResponseHeaderV1Model) -> Seq<u8> {
        i32::wire(v.correlation_id)
            + TagBuffer::wire(v.tag_buffer)
    }

    open spec fn encodable(v: ResponseHeaderV1Model) -> bool {
        &&& i32::encodable(v.correlation_id)
        &&& TagBuffer::encodable(v.tag_buffer)
    }

    fn is_encodable(&self) -> (b: bool) {
        self.correlation_id.is_encodable()
            && self.tag_buffer.is_encodable()
    }

    fn encode(&self) -> (out: Vec<u8>) {
        let mut out = self.correlation_id.encode();
        let mut piece = self.tag_buffer.encode();
        out.append(&mut piece);
        out
    }
}

impl Decode for ResponseHeaderV1 {
    open spec fn parse(s: Seq<u8>, at: int) -> Parsed<ResponseHeaderV1Model> {
        let correlation_id = i32::parse(s, at);
        let tag_buffer = TagBuffer::parse(s, end_of(correlation_id));
        if correlation_id is Err {
            Err(error_of(correlation_id))
        } else if tag_buffer is Err {
            Err(error_of(tag_buffer))
        } else {
            Ok((
                ResponseHeaderV1Model {
                    correlation_id: value_of(correlation_id),
                    tag_buffer: value_of(tag_buffer),
                },
                end_of(tag_buffer),
            ))
        }
    }

    proof fn lemma_parse_in_bounds(s: Seq<u8>, at: int) {
        i32::lemma_parse_in_bounds(s, at);
        let correlation_id = i32::parse(s, at);
        TagBuffer::lemma_parse_in_bounds(s, end_of(correlation_id));
    }

    proof fn lemma_parse_extends(s: Seq<u8>, t: Seq<u8>, at: int) {
        i32::lemma_parse_extends(s, t, at);
        let correlation_id = i32::parse(s, at);
        TagBuffer::lemma_parse_extends(s, t, end_of(correlation_id));
    }

    fn decode(buffer: &mut Cursor) -> (r: DecodeResult<Self>) {
        let correlation_id = i32::decode(buffer)?;
        let tag_buffer = TagBuffer::decode(buffer)?;
        Ok(ResponseHeaderV1 { correlation_id, tag_buffer })
    }
}

impl Codec for ResponseHeaderV1 {
    open spec fn canonical(v: ResponseHeaderV1Model) -> bool {
        &&& i32::canonical(v.correlation_id)
        &&& TagBuffer::canonical(v.tag_buffer)
    }

    proof fn lemma_round_trip(v: ResponseHeaderV1Model, s: Seq<u8>, at: int) {
        let w0 = i32::wire(v.correlation_id);
        let w1 = TagBuffer::wire(v.tag_buffer);
        let front1 = w0;
        lemma_holds_at_last(s, at, front1, w1);
        i32::lemma_round_trip(v.correlation_id, s, at);
        TagBuffer::lemma_round_trip(v.tag_buffer, s, at + front1.len());
    }
}

impl ResponseHeaderV0 {
    pub fn new(correlation_id: i32) -> (r: Self)
        ensures
            r == (ResponseHeaderV0 { correlation_id }),
    {
        ResponseHeaderV0 { correlation_id }
    }
}

impl ResponseHeaderV1 {
    pub fn new(correlation_id: i32, tag_buffer: TagBuffer) -> (r: Self)
        ensures
            r == (ResponseHeaderV1 { correlation_id, tag_buffer }),
    {
        ResponseHeaderV1 { correlation_id, tag_buffer }
    }
}

/// The header of a response: without tagged fields for ApiVersions, with
/// them for every other request.
#[derive(Debug, Clone, PartialEq, Eq)]
pub enum ResponseHeader {
    ResponseHeaderV0(ResponseHeaderV0),
    ResponseHeaderV1(ResponseHeaderV1),
}

/// The value that a [`ResponseHeader`] stands for.
pub enum ResponseHeaderModel {
    ResponseHeaderV0(ResponseHeaderV0Model),
    ResponseHeaderV1(ResponseHeaderV1Model),
}

impl Model for ResponseHeader {
    type M = ResponseHeaderModel;

    open spec fn model(&self) -> ResponseHeaderModel {
        match self {
            ResponseHeader::ResponseHeaderV0(h) => ResponseHeaderModel::ResponseHeaderV0(
                h.model(),
            ),
            ResponseHeader::ResponseHeaderV1(h) => ResponseHeaderModel::ResponseHeaderV1(
                h.model(),
            ),
        }
    }

    fn duplicate(&self) -> (r: Self) {
        match self {
            ResponseHeader::ResponseHeaderV0(h) => ResponseHeader::ResponseHeaderV0(h.duplicate()),
            ResponseHeader::ResponseHeaderV1(h) => ResponseHeader::ResponseHeaderV1(h.duplicate()),
        }
    }
}

impl ResponseHeader {
    pub fn new_v0(correlation_id: i32) -> (r: Self)
        ensures
            r.model() == ResponseHeaderModel::ResponseHeaderV0(
                ResponseHeaderV0Model { correlation_id },
            ),
    {
        ResponseHeader::ResponseHeaderV0(ResponseHeaderV0 { correlation_id })
    }

    pub fn new_v1(correlation_id: i32) -> (r: Self)
        ensures
            r.model() == ResponseHeaderModel::ResponseHeaderV1(
                ResponseHeaderV1Model {
                    correlation_id,
                    tag_buffer: TagBufferModel { fields: None },
                },
            ),
    {
        ResponseHeader::ResponseHeaderV1(
            ResponseHeaderV1 { correlation_id, tag_buffer: TagBuffer::default() },
        )
    }
}

impl Encode for ResponseHeader {
    open spec fn wire(v: ResponseHeaderModel) -> Seq<u8> {
        match v {
            ResponseHeaderModel::ResponseHeaderV0(h) => ResponseHeaderV0::wire(h),
            ResponseHeaderModel::ResponseHeaderV1(h) => ResponseHeaderV1::wire(h),
        }
    }

    open spec fn encodable(v: ResponseHeaderModel) -> bool {
        match v {
            ResponseHeaderModel::ResponseHeaderV0(h) => ResponseHeaderV0::encodable(h),
            ResponseHeaderModel::ResponseHeaderV1(h) => ResponseHeaderV1::encodable(h),
        }
    }

    fn is_encodable(&self) -> (b: bool) {
        match self {
            ResponseHeader::ResponseHeaderV0(h) => h.is_encodable(),
            ResponseHeader::ResponseHeaderV1(h) => h.is_encodable(),
        }
    }

    fn encode(&self) -> (out: Vec<u8>) {
        match self {
            ResponseHeader::ResponseHeaderV0(h) => h.encode(),
            ResponseHeader::ResponseHeaderV1(h) => h.encode(),
        }
    }
}

/// The body of a response, one kind for each request that the server speaks.
#[derive(Debug, Clone, PartialEq, Eq)]
pub enum ResponseBody {
    ApiVersionsV4(ApiVersionsResponseBodyV4),
    DescribeTopicPartitionsV0(DescribeTopicPartitionsResponseBodyV0),
    FetchV16(FetchResponseBodyV16),
}

/// The value that a [`ResponseBody`] stands for.
pub enum ResponseBodyModel {
    ApiVersionsV4(ApiVersionsResponseBodyV4Model),
    DescribeTopicPartitionsV0(DescribeTopicPartitionsResponseBodyV0Model),
    FetchV16(FetchResponseBodyV16Model),
}

impl Model for ResponseBody {
    type M = ResponseBodyModel;

    open spec fn model(&self) -> ResponseBodyModel {
        match self {
            ResponseBody::ApiVersionsV4(b) => ResponseBodyModel::ApiVersionsV4(b.model()),
            ResponseBody::DescribeTopicPartitionsV0(b) =>
                ResponseBodyModel::DescribeTopicPartitionsV0(b.model()),
            ResponseBody::FetchV16(b) => ResponseBodyModel::FetchV16(b.model()),
        }
    }

    fn duplicate(&self) -> (r: Self) {
        match self {
            ResponseBody::ApiVersionsV4(b) => ResponseBody::ApiVersionsV4(b.duplicate()),
            ResponseBody::DescribeTopicPartitionsV0(b) => ResponseBody::DescribeTopicPartitionsV0(
                b.duplicate(),
            ),
            ResponseBody::FetchV16(b) => ResponseBody::FetchV16(b.duplicate()),
        }
    }
}

impl Encode for ResponseBody {
    open spec fn wire(v: ResponseBodyModel) -> Seq<u8> {
        match v {
            ResponseBodyModel::ApiVersionsV4(b) => ApiVersionsResponseBodyV4::wire(b),
            ResponseBodyModel::DescribeTopicPartitionsV0(b) =>
                DescribeTopicPartitionsResponseBodyV0::wire(b),
            ResponseBodyModel::FetchV16(b) => FetchResponseBodyV16::wire(b),
        }
    }

    open spec fn encodable(v: ResponseBodyModel) -> bool {
        match v {
            ResponseBodyModel::ApiVersionsV4(b) => ApiVersionsResponseBodyV4::encodable(b),
            ResponseBodyModel::DescribeTopicPartitionsV0(b) =>
                DescribeTopicPartitionsResponseBodyV0::encodable(b),
            ResponseBodyModel::FetchV16(b) => FetchResponseBodyV16::encodable(b),
        }
    }

    fn is_encodable(&self) -> (b: bool) {
        match self {
            ResponseBody::ApiVersionsV4(b) => b.is_encodable(),
            ResponseBody::DescribeTopicPartitionsV0(b) => b.is_encodable(),
            ResponseBody::FetchV16(b) => b.is_encodable(),
        }
    }

    fn encode(&self) -> (out: Vec<u8>) {
        match self {
            ResponseBody::ApiVersionsV4(b) => b.encode(),
            ResponseBody::DescribeTopicPartitionsV0(b) => b.encode(),
            ResponseBody::FetchV16(b) => b.encode(),
        }
    }
}

/// A response: the size of what follows, a header and a body. The size is
/// zero until the response is framed.
#[derive(Debug, Clone, PartialEq, Eq)]
pub struct ResponseMessage {
    pub message_size: u32,
    pub header: ResponseHeader,
    pub body: ResponseBody,
}

/// The value that a [`ResponseMessage`] stands for.
pub struct ResponseMessageModel {
    pub message_size: u32,
    pub header: ResponseHeaderModel,
    pub body: ResponseBodyModel,
}

impl Model for ResponseMessage {
    type M = ResponseMessageModel;

    open spec fn model(&self) -> ResponseMessageModel {
        ResponseMessageModel {
            message_size: self.message_size,
            header: self.header.model(),
            body: self.body.model(),
        }
    }

    fn duplicate(&self) -> (r: Self) {
        ResponseMessage {
            message_size: self.message_size,
            header: self.header.duplicate(),
            body: self.body.duplicate(),
        }
    }
}

impl Encode for ResponseMessage {
    open spec fn wire(v: ResponseMessageModel) -> Seq<u8> {
        u32::wire(v.message_size) + ResponseHeader::wire(v.header) + ResponseBody::wire(v.body)
    }

    open spec fn encodable(v: ResponseMessageModel) -> bool {
        &&& ResponseHeader::encodable(v.header)
        &&& ResponseBody::encodable(v.body)
    }

    fn is_encodable(&self) -> (b: bool) {
        self.header.is_encodable() && self.body.is_encodable()
    }

    fn encode(&self) -> (out: Vec<u8>) {
        let mut out = self.message_size.encode();
        let mut header = self.header.encode();
        let mut body = self.body.encode();
        out.append(&mut header);
        out.append(&mut body);
        out
    }
}

/// The number of bytes of header and body: what the size field of a framed
/// message holds.
pub open spec fn response_frame_len(v: ResponseMessageModel) -> nat {
    ResponseHeader::wire(v.header).len() + ResponseBody::wire(v.body).len()
}

/// The responses that can be framed: they have a wire form, and where the
/// size is still to be filled in, it fits in 32 bits.
pub open spec fn response_frameable(v: ResponseMessageModel) -> bool {
    &&& ResponseMessage::encodable(v)
    &&& v.message_size == 0 ==> response_frame_len(v) <= u32::MAX
}

/// The response as it is framed: with the size that a response without one is given.
pub open spec fn framed_response(v: ResponseMessageModel) -> ResponseMessageModel {
    if v.message_size == 0 {
        ResponseMessageModel {
            message_size: response_frame_len(v) as u32,
            header: v.header,
            body: v.body,
        }
    } else {
        v
    }
}

/// What a response with the given request key decodes from: the size, the
/// header of the key, which is without tagged fields for ApiVersions and
/// with them for any other key, and the body that belongs to the key.
pub open spec fn parse_response(s: Seq<u8>, at: int, request_api_key: i16) -> Parsed<
    ResponseMessageModel,
> {
    let size = u32::parse(s, at);
    if size is Err {
        Err(error_of(size))
    } else if request_api_key == 18 {
        let header = ResponseHeaderV0::parse(s, end_of(size));
        if header is Err {
            Err(error_of(header))
        } else {
            match ApiVersionsResponseBodyV4::parse(s, end_of(header)) {
                Ok((body, end)) => Ok(
                    (
                        ResponseMessageModel {
                            message_size: value_of(size),
                            header: ResponseHeaderModel::ResponseHeaderV0(value_of(header)),
                            body: ResponseBodyModel::ApiVersionsV4(body),
                        },
                        end,
                    ),
                ),
                Err(e) => Err(e),
            }
        }
    } else {
        let header = ResponseHeaderV1::parse(s, end_of(size));
        if header is Err {
            Err(error_of(header))
        } else if request_api_key == 75 {
            match DescribeTopicPartitionsResponseBodyV0::parse(s, end_of(header)) {
                Ok((body, end)) => Ok(
                    (
                        ResponseMessageModel {
                            message_size: value_of(size),
                            header: ResponseHeaderModel::ResponseHeaderV1(value_of(header)),
                            body: ResponseBodyModel::DescribeTopicPartitionsV0(body),
                        },
                        end,
                    ),
                ),
                Err(e) => Err(e),
            }
        } else if request_api_key == 1 {
            match FetchResponseBodyV16::parse(s, end_of(header)) {
                Ok((body, end)) => Ok(
                    (
                        ResponseMessageModel {
                            message_size: value_of(size),
                            header: ResponseHeaderModel::ResponseHeaderV1(value_of(header)),
                            body: ResponseBodyModel::FetchV16(body),
                        },
                        end,
                    ),
                ),
                Err(e) => Err(e),
            }
        } else {
            Err(DecodeError::Other(Fault::UnknownApiKey(request_api_key)))
        }
    }
}

impl ResponseMessage {
    /// A response that is not framed yet: its size is zero.
    pub fn new(header: ResponseHeader, body: ResponseBody) -> (r: Self)
        ensures
            r == (ResponseMessage { message_size: 0, header, body }),
    {
        ResponseMessage { message_size: 0, header, body }
    }

    /// The bytes of the response as it goes out. A response without a size
    /// gets the number of bytes of its header and body, which is then what
    /// the first four bytes hold.
    pub fn as_bytes(&mut self) -> (out: Vec<u8>)
        requires
            response_frameable(old(self).model()),
        ensures
            final(self).model() == framed_response(old(self).model()),
            out@ == ResponseMessage::wire(final(self).model()),
            old(self).message_size == 0 ==> u32::parse(out@, 0) == Ok::<(u32, int), DecodeError>(
                ((out@.len() - 4) as u32, 4),
            ),
    {
        if self.message_size == 0 {
            let mut header = self.header.encode();
            let mut body = self.body.encode();
            let size: u32 = (header.len() + body.len()) as u32;
            self.message_size = size;
            let mut out = size.encode();
            out.append(&mut header);
            out.append(&mut body);
            proof {
                let w = u32::wire(size);
                crate::big_endian::lemma_be_bytes_len(size as nat, 4);
                assert(holds_at(out@, 0, w)) by {
                    reveal(holds_at);
                    assert(out@.subrange(0, 4) =~= w);
                }
                u32::lemma_round_trip(size, out@, 0);
            }
            out
        } else {
            self.encode()
        }
    }

    /// The bytes of the response as it goes out, or nothing, with the response
    /// left as it is, where it cannot be framed.
    pub fn try_as_bytes(&mut self) -> (r: Option<Vec<u8>>)
        ensures
            r is Some <==> response_frameable(old(self).model()),
            match r {
                Some(out) => {
                    &&& final(self).model() == framed_response(old(self).model())
                    &&& out@ == ResponseMessage::wire(final(self).model())
                    &&& old(self).message_size == 0 ==> u32::parse(out@, 0) == Ok::<
                        (u32, int),
                        DecodeError,
                    >(((out@.len() - 4) as u32, 4))
                },
                None => final(self).model() == old(self).model(),
            },
    {
        if !self.is_encodable() {
            return None;
        }
        if self.message_size == 0 {
            let header = self.header.encode();
            let body = self.body.encode();
            if header.len() as u128 + body.len() as u128 > 0xffff_ffff {
                return None;
            }
        }
        Some(self.as_bytes())
    }

    /// Reads the response to a request with the given key: under the header
    /// without tagged fields for ApiVersions, under the one with them otherwise.
    pub fn decode(buffer: &mut Cursor, request_api_key: i16) -> (r: DecodeResult<Self>)
        ensures
            final(buffer).content() == old(buffer).content(),
            old(buffer).offset() <= final(buffer).offset() <= old(buffer).content().len(),
            match r {
                Ok(v) => parse_response(
                    old(buffer).content(),
                    old(buffer).offset(),
                    request_api_key,
                ) == Ok::<(ResponseMessageModel, int), DecodeError>(
                    (v.model(), final(buffer).offset()),
                ),
                Err(e) => parse_response(
                    old(buffer).content(),
                    old(buffer).offset(),
                    request_api_key,
                ) == Err::<(ResponseMessageModel, int), DecodeError>(e),
            },
    {
        let message_size: u32 = u32::decode(buffer)?;
        if request_api_key == API_VERSIONS_KEY {
            let header = ResponseHeaderV0::decode(buffer)?;
            let body = ApiVersionsResponseBodyV4::decode(buffer)?;
            return Ok(
                ResponseMessage {
                    message_size,
                    header: ResponseHeader::ResponseHeaderV0(header),
                    body: ResponseBody::ApiVersionsV4(body),
                },
            );
        }
        let header = ResponseHeaderV1::decode(buffer)?;
        if request_api_key == DESCRIBE_TOPIC_PARTITIONS_KEY {
            let body = DescribeTopicPartitionsResponseBodyV0::decode(buffer)?;
            Ok(
                ResponseMessage {
                    message_size,
                    header: ResponseHeader::ResponseHeaderV1(header),
                    body: ResponseBody::DescribeTopicPartitionsV0(body),
                },
            )
        } else if request_api_key == FETCH_KEY {
            let body = FetchResponseBodyV16::decode(buffer)?;
            Ok(
                ResponseMessage {
                    message_size,
                    header: ResponseHeader::ResponseHeaderV1(header),
                    body: ResponseBody::FetchV16(body),
                },
            )
        } else {
            Err(DecodeError::Other(Fault::UnknownApiKey(request_api_key)))
        }
    }
}

/// Why a request gets no response.
#[derive(Debug, Clone, Copy, PartialEq, Eq)]
pub enum RequestError {
    /// The body is not the one that the key of the header asks for.
    UnsupportedHeaderOrBody,
    /// The server does not speak the API of this key.
    NotImplemented(i16),
}

/// The logs that the answer to a request is read from: those of a Fetch
/// request, and none for any other.
pub open spec fn request_wants(request: RequestMessageModel, index: TopicIndexModel) -> Seq<
    (Seq<char>, i32),
> {
    match request.body {
        RequestBodyModel::FetchV16(body) => if request.header.v2().request_api_key == 1 {
            fetch_wants(request.header.v2(), body, index)
        } else {
            Seq::empty()
        },
        _ => Seq::empty(),
    }
}

/// The response to a request: that of the handler which the key of the
/// header selects, where the body is of that handler's kind.
pub open spec fn response_to(
    request: RequestMessageModel,
    index: TopicIndexModel,
    logs: Seq<Seq<RecordBatchModel>>,
) -> Result<ResponseMessageModel, RequestError> {
    let header = request.header.v2();
    if header.request_api_key == 18 {
        match request.body {
            RequestBodyModel::ApiVersionsV4(_) => Ok(
                v0_response(header.correlation_id, api_versions_body(header.request_api_version)),
            ),
            _ => Err(RequestError::UnsupportedHeaderOrBody),
        }
    } else if header.request_api_key == 75 {
        match request.body {
            RequestBodyModel::DescribeTopicPartitionsV0(body) => Ok(
                describe_topic_partitions_response(header, body, index),
            ),
            _ => Err(RequestError::UnsupportedHeaderOrBody),
        }
    } else if header.request_api_key == 1 {
        match request.body {
            RequestBodyModel::FetchV16(body) => Ok(fetch_response(header, body, index, logs)),
            _ => Err(RequestError::UnsupportedHeaderOrBody),
        }
    } else {
        Err(RequestError::NotImplemented(header.request_api_key))
    }
}

/// Names the logs that the answer to a request is read from, in the order
/// in which [`execute_request`] takes them.
pub fn request_log_requests(request: &RequestMessage, index: &TopicIndex) -> (r: Vec<PartitionLog>)
    ensures
        log_names(r@) == request_wants(request.model(), index.model()),
{
    match (&request.header, &request.body) {
        (RequestHeader::RequestHeaderV2(header), RequestBody::FetchV16(body)) => {
            if header.request_api_key == FETCH_KEY {
                fetch_log_requests(header, body, index)
            } else {
                let none: Vec<PartitionLog> = Vec::new();
                proof {
                    assert(log_names(none@) =~= Seq::<(Seq<char>, i32)>::empty());
                }
                none
            }
        },
        _ => {
            let none: Vec<PartitionLog> = Vec::new();
            proof {
                assert(log_names(none@) =~= Seq::<(Seq<char>, i32)>::empty());
            }
            none
        },
    }
}

/// Answers a request from the index and the logs that
/// [`request_log_requests`] names, decoded and in the same order.
pub fn execute_request(
    request: &RequestMessage,
    index: &TopicIndex,
    logs: &Vec<Vec<RecordBatch>>,
) -> (r: Result<ResponseMessage, RequestError>)
    requires
        logs@.len() == request_wants(request.model(), index.model()).len(),
    ensures
        match r {
            Ok(response) => response_to(request.model(), index.model(), log_models(logs@)) == Ok::<
                ResponseMessageModel,
                RequestError,
            >(response.model()),
            Err(e) => response_to(request.model(), index.model(), log_models(logs@)) == Err::<
                ResponseMessageModel,
                RequestError,
            >(e),
        },
{
    let request_api_key: i16 = request.header.request_api_key();
    if request_api_key == API_VERSIONS_KEY {
        match (&request.header, &request.body) {
            (RequestHeader::RequestHeaderV2(header), RequestBody::ApiVersionsV4(body)) => Ok(
                execute_api_verions(header, body),
            ),
            _ => Err(RequestError::UnsupportedHeaderOrBody),
        }
    } else if request_api_key == DESCRIBE_TOPIC_PARTITIONS_KEY {
        match (&request.header, &request.body) {
            (
                RequestHeader::RequestHeaderV2(header),
                RequestBody::DescribeTopicPartitionsV0(body),
            ) => Ok(execute_describe_topic_partitions(header, body, index)),
            _ => Err(RequestError::UnsupportedHeaderOrBody),
        }
    } else if request_api_key == FETCH_KEY {
        match (&request.header, &request.body) {
            (RequestHeader::RequestHeaderV2(header), RequestBody::FetchV16(body)) => Ok(
                execute_fetch(header, body, index, logs),
            ),
            _ => Err(RequestError::UnsupportedHeaderOrBody),
        }
    } else {
        Err(RequestError::NotImplemented(request_api_key))
    }
}

} // verus!
