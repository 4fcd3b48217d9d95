//! Requests: the header, the bodies, and the frame that carries them.
use vstd::prelude::*;

use crate::api_versions::{
    ApiVersionsReqeustBodyV4, ApiVersionsReqeustBodyV4Model, API_VERSIONS_KEY,
    DESCRIBE_TOPIC_PARTITIONS_KEY, FETCH_KEY,
};
use crate::codec::Codec;
use crate::common_struct::{CompactString, KafkaString, TagBuffer, TagBufferModel};
use crate::cursor::Cursor;
use crate::decode::{
    end_of, error_of, holds_at, lemma_holds_at_last, value_of, Decode, DecodeError, DecodeResult,
    Fault, Parsed,
};
use crate::describe_topic_partitions::{
    DescribeTopicPartitionsRequestBodyV0, DescribeTopicPartitionsRequestBodyV0Model,
};
use crate::encode::Encode;
use crate::fetch::{FetchRequestBodyV16, FetchRequestBodyV16Model};
use crate::model::Model;

verus! {

/// The request header of version 2.
#[derive(Debug, Clone, PartialEq, Eq)]
pub struct RequestHeaderV2 {
    pub request_api_key: i16,
    pub request_api_version: i16,
    pub correlation_id: i32,
    pub client_id: KafkaString,
    pub tag_buffer: TagBuffer,
}

/// The value that a [`RequestHeaderV2`] stands for.
pub struct RequestHeaderV2Model {
    pub request_api_key: i16,
    pub request_api_version: i16,
    pub correlation_id: i32,
    pub client_id: Seq<char>,
    pub tag_buffer: TagBufferModel,
}

impl Model for RequestHeaderV2 {
    type M = RequestHeaderV2Model;

    open spec fn model(&self) -> RequestHeaderV2Model {
        RequestHeaderV2Model {
            request_api_key: self.request_api_key.model(),
            request_api_version: self.request_api_version.model(),
            correlation_id: self.correlation_id.model(),
            client_id: self.client_id.model(),
            tag_buffer: self.tag_buffer.model(),
        }
    }

    fn duplicate(&self) -> (r: Self) {
        RequestHeaderV2 {
            request_api_key: self.request_api_key.duplicate(),
            request_api_version: self.request_api_version.duplicate(),
            correlation_id: self.correlation_id.duplicate(),
            client_id: self.client_id.duplicate(),
            tag_buffer: self.tag_buffer.duplicate(),
        }
    }
}

impl RequestHeaderV2 {
    pub fn new(request_api_key: i16, request_api_version: i16, correlation_id: i32, client_id: KafkaString, tag_buffer: TagBuffer) -> (r: Self)
        ensures
            r == (RequestHeaderV2 { request_api_key, request_api_version, correlation_id, client_id, tag_buffer }),
    {
        Self { request_api_key, request_api_version, correlation_id, client_id, tag_buffer }
    }
}

impl Encode for RequestHeaderV2 {
    open spec fn wire(v: RequestHeaderV2Model) -> Seq<u8> {
        i16::wire(v.request_api_key)
            + i16::wire(v.request_api_version)
            + i32::wire(v.correlation_id)
            + KafkaString::wire(v.client_id)
            + TagBuffer::wire(v.tag_buffer)
    }

    open spec fn encodable(v: RequestHeaderV2Model) -> bool {
        &&& i16::encodable(v.request_api_key)
        &&& i16::encodable(v.request_api_version)
        &&& i32::encodable(v.correlation_id)
        &&& KafkaString::encodable(v.client_id)
        &&& TagBuffer::encodable(v.tag_buffer)
    }

    fn is_encodable(&self) -> (b: bool) {
        self.request_api_key.is_encodable()
            && self.request_api_version.is_encodable()
            && self.correlation_id.is_encodable()
            && self.client_id.is_encodable()
            && self.tag_buffer.is_encodable()
    }

    fn encode(&self) -> (out: Vec<u8>) {
        let mut out = self.request_api_key.encode();
        let mut piece = self.request_api_version.encode();
        out.append(&mut piece);
        let mut piece = self.correlation_id.encode();
        out.append(&mut piece);
        let mut piece = self.client_id.encode();
        out.append(&mut piece);
        let mut piece = self.tag_buffer.encode();
        out.append(&mut piece);
        out
    }
}

impl Decode for RequestHeaderV2 {
    open spec fn parse(s: Seq<u8>, at: int) -> Parsed<RequestHeaderV2Model> {
        let request_api_key = i16::parse(s, at);
        let request_api_version = i16::parse(s, end_of(request_api_key));
        let correlation_id = i32::parse(s, end_of(request_api_version));
        let client_id = KafkaString::parse(s, end_of(correlation_id));
        let tag_buffer = TagBuffer::parse(s, end_of(client_id));
        if request_api_key is Err {
            Err(error_of(request_api_key))
        } else if request_api_version is Err {
            Err(error_of(request_api_version))
        } else if correlation_id is Err {
            Err(error_of(correlation_id))
        } else if client_id is Err {
            Err(error_of(client_id))
        } else if tag_buffer is Err {
            Err(error_of(tag_buffer))
        } else {
            Ok((
                RequestHeaderV2Model {
                    request_api_key: value_of(request_api_key),
                    request_api_version: value_of(request_api_version),
                    correlation_id: value_of(correlation_id),
                    client_id: value_of(client_id),
                    tag_buffer: value_of(tag_buffer),
                },
                end_of(tag_buffer),
            ))
        }
    }

    proof fn lemma_parse_in_bounds(s: Seq<u8>, at: int) {
        i16::lemma_parse_in_bounds(s, at);
        let request_api_key = i16::parse(s, at);
        i16::lemma_parse_in_bounds(s, end_of(request_api_key));
        let request_api_version = i16::parse(s, end_of(request_api_key));
        i32::lemma_parse_in_bounds(s, end_of(request_api_version));
        let correlation_id = i32::parse(s, end_of(request_api_version));
        KafkaString::lemma_parse_in_bounds(s, end_of(correlation_id));
        let client_id = KafkaString::parse(s, end_of(correlation_id));
        TagBuffer::lemma_parse_in_bounds(s, end_of(client_id));
    }

    proof fn lemma_parse_extends(s: Seq<u8>, t: Seq<u8>, at: int) {
        i16::lemma_parse_extends(s, t, at);
        let request_api_key = i16::parse(s, at);
        i16::lemma_parse_extends(s, t, end_of(request_api_key));
        let request_api_version = i16::parse(s, end_of(request_api_key));
        i32::lemma_parse_extends(s, t, end_of(request_api_version));
        let correlation_id = i32::parse(s, end_of(request_api_version));
        KafkaString::lemma_parse_extends(s, t, end_of(correlation_id));
        let client_id = KafkaString::parse(s, end_of(correlation_id));
        TagBuffer::lemma_parse_extends(s, t, end_of(client_id));
    }

    fn decode(buffer: &mut Cursor) -> (r: DecodeResult<Self>) {
        let request_api_key = i16::decode(buffer)?;
        let request_api_version = i16::decode(buffer)?;
        let correlation_id = i32::decode(buffer)?;
        let client_id = KafkaString::decode(buffer)?;
        let tag_buffer = TagBuffer::decode(buffer)?;
        Ok(RequestHeaderV2 { request_api_key, request_api_version, correlation_id, client_id, tag_buffer })
    }
}

impl Codec for RequestHeaderV2 {
    open spec fn canonical(v: RequestHeaderV2Model) -> bool {
        &&& i16::canonical(v.request_api_key)
        &&& i16::canonical(v.request_api_version)
        &&& i32::canonical(v.correlation_id)
        &&& KafkaString::canonical(v.client_id)
        &&& TagBuffer::canonical(v.tag_buffer)
    }

    proof fn lemma_round_trip(v: RequestHeaderV2Model, s: Seq<u8>, at: int) {
        let w0 = i16::wire(v.request_api_key);
        let w1 = i16::wire(v.request_api_version);
        let w2 = i32::wire(v.correlation_id);
        let w3 = KafkaString::wire(v.client_id);
        let w4 = TagBuffer::wire(v.tag_buffer);
        let front1 = w0;
        let front2 = front1 + w1;
        let front3 = front2 + w2;
        let front4 = front3 + w3;
        lemma_holds_at_last(s, at, front4, w4);
        lemma_holds_at_last(s, at, front3, w3);
        lemma_holds_at_last(s, at, front2, w2);
        lemma_holds_at_last(s, at, front1, w1);
        i16::lemma_round_trip(v.request_api_key, s, at);
        i16::lemma_round_trip(v.request_api_version, s, at + front1.len());
        i32::lemma_round_trip(v.correlation_id, s, at + front2.len());
        KafkaString::lemma_round_trip(v.client_id, s, at + front3.len());
        TagBuffer::lemma_round_trip(v.tag_buffer, s, at + front4.len());
    }
}

/// The header of a request. The server reads version 2 only.
#[derive(Debug, Clone, PartialEq, Eq)]
pub enum RequestHeader {
    RequestHeaderV2(RequestHeaderV2),
}

/// The value that a [`RequestHeader`] stands for.
pub enum RequestHeaderModel {
    RequestHeaderV2(RequestHeaderV2Model),
}

impl Model for RequestHeader {
    type M = RequestHeaderModel;

    open spec fn model(&self) -> RequestHeaderModel {
        match self {
            RequestHeader::RequestHeaderV2(h) => RequestHeaderModel::RequestHeaderV2(h.model()),
        }
    }

    fn duplicate(&self) -> (r: Self) {
        match self {
            RequestHeader::RequestHeaderV2(h) => RequestHeader::RequestHeaderV2(h.duplicate()),
        }
    }
}

impl RequestHeaderModel {
    pub open spec fn v2(self) -> RequestHeaderV2Model {
        match self {
            RequestHeaderModel::RequestHeaderV2(h) => h,
        }
    }
}

impl RequestHeader {
    pub fn new_v2(
        request_api_key: i16,
        request_api_version: i16,
        correlation_id: i32,
        client_id: KafkaString,
        tag_buffer: TagBuffer,
    ) -> (r: Self)
        ensures
            r == RequestHeader::RequestHeaderV2(
                RequestHeaderV2 {
                    request_api_key,
                    request_api_version,
                    correlation_id,
                    client_id,
                    tag_buffer,
                },
            ),
    {
        RequestHeader::RequestHeaderV2(
            RequestHeaderV2 {
                request_api_key,
                request_api_version,
                correlation_id,
                client_id,
                tag_buffer,
            },
        )
    }

    pub fn request_api_key(&self) -> (r: i16)
        ensures
            r == self.model().v2().request_api_key,
    {
        match self {
            RequestHeader::RequestHeaderV2(header) => header.request_api_key,
        }
    }

    pub fn request_api_version(&self) -> (r: i16)
        ensures
            r == self.model().v2().request_api_version,
    {
        match self {
            RequestHeader::RequestHeaderV2(header) => header.request_api_version,
        }
    }

    pub fn correlation_id(&self) -> (r: i32)
        ensures
            r == self.model().v2().correlation_id,
    {
        match self {
            RequestHeader::RequestHeaderV2(header) => header.correlation_id,
        }
    }

    pub fn client_id(&self) -> (r: &str)
        ensures
            r@ == self.model().v2().client_id,
    {
        match self {
            RequestHeader::RequestHeaderV2(header) => header.client_id.get_inner().as_str(),
        }
    }
}

impl Encode for RequestHeader {
    open spec fn wire(v: RequestHeaderModel) -> Seq<u8> {
        match v {
            RequestHeaderModel::RequestHeaderV2(h) => RequestHeaderV2::wire(h),
        }
    }

    open spec fn encodable(v: RequestHeaderModel) -> bool {
        match v {
            RequestHeaderModel::RequestHeaderV2(h) => RequestHeaderV2::encodable(h),
        }
    }

    fn is_encodable(&self) -> (b: bool) {
        match self {
            RequestHeader::RequestHeaderV2(h) => h.is_encodable(),
        }
    }

    fn encode(&self) -> (out: Vec<u8>) {
        match self {
            RequestHeader::RequestHeaderV2(h) => h.encode(),
        }
    }
}

/// The body of a request, one kind for each request that the server speaks.
#[derive(Debug, Clone, PartialEq, Eq)]
pub enum RequestBody {
    ApiVersionsV4(ApiVersionsReqeustBodyV4),
    DescribeTopicPartitionsV0(DescribeTopicPartitionsRequestBodyV0),
    FetchV16(FetchRequestBodyV16),
}

/// The value that a [`RequestBody`] stands for.
pub enum RequestBodyModel {
    ApiVersionsV4(ApiVersionsReqeustBodyV4Model),
    DescribeTopicPartitionsV0(DescribeTopicPartitionsRequestBodyV0Model),
    FetchV16(FetchRequestBodyV16Model),
}

impl Model for RequestBody {
    type M = RequestBodyModel;

    open spec fn model(&self) -> RequestBodyModel {
        match self {
            RequestBody::ApiVersionsV4(b) => RequestBodyModel::ApiVersionsV4(b.model()),
            RequestBody::DescribeTopicPartitionsV0(b) =>
                RequestBodyModel::DescribeTopicPartitionsV0(b.model()),
            RequestBody::FetchV16(b) => RequestBodyModel::FetchV16(b.model()),
        }
    }

    fn duplicate(&self) -> (r: Self) {
        match self {
            RequestBody::ApiVersionsV4(b) => RequestBody::ApiVersionsV4(b.duplicate()),
            RequestBody::DescribeTopicPartitionsV0(b) => RequestBody::DescribeTopicPartitionsV0(
                b.duplicate(),
            ),
            RequestBody::FetchV16(b) => RequestBody::FetchV16(b.duplicate()),
        }
    }
}

impl Encode for RequestBody {
    open spec fn wire(v: RequestBodyModel) -> Seq<u8> {
        match v {
            RequestBodyModel::ApiVersionsV4(b) => ApiVersionsReqeustBodyV4::wire(b),
            RequestBodyModel::DescribeTopicPartitionsV0(b) =>
                DescribeTopicPartitionsRequestBodyV0::wire(b),
            RequestBodyModel::FetchV16(b) => FetchRequestBodyV16::wire(b),
        }
    }

    open spec fn encodable(v: RequestBodyModel) -> bool {
        match v {
            RequestBodyModel::ApiVersionsV4(b) => ApiVersionsReqeustBodyV4::encodable(b),
            RequestBodyModel::DescribeTopicPartitionsV0(b) =>
                DescribeTopicPartitionsRequestBodyV0::encodable(b),
            RequestBodyModel::FetchV16(b) => FetchRequestBodyV16::encodable(b),
        }
    }

    fn is_encodable(&self) -> (b: bool) {
        match self {
            RequestBody::ApiVersionsV4(b) => b.is_encodable(),
            RequestBody::DescribeTopicPartitionsV0(b) => b.is_encodable(),
            RequestBody::FetchV16(b) => b.is_encodable(),
        }
    }

    fn encode(&self) -> (out: Vec<u8>) {
        match self {
            RequestBody::ApiVersionsV4(b) => b.encode(),
            RequestBody::DescribeTopicPartitionsV0(b) => b.encode(),
            RequestBody::FetchV16(b) => b.encode(),
        }
    }
}

/// A request: the size of what follows, a header and a body.
#[derive(Debug, Clone, PartialEq, Eq)]
pub struct RequestMessage {
    pub message_size: u32,
    pub header: RequestHeader,
    pub body: RequestBody,
}

/// The value that a [`RequestMessage`] stands for.
pub struct RequestMessageModel {
    pub message_size: u32,
    pub header: RequestHeaderModel,
    pub body: RequestBodyModel,
}

impl Model for RequestMessage {
    type M = RequestMessageModel;

    open spec fn model(&self) -> RequestMessageModel {
        RequestMessageModel {
            message_size: self.message_size,
            header: self.header.model(),
            body: self.body.model(),
        }
    }

    fn duplicate(&self) -> (r: Self) {
        RequestMessage {
            message_size: self.message_size,
            header: self.header.duplicate(),
            body: self.body.duplicate(),
        }
    }
}

impl Encode for RequestMessage {
    open spec fn wire(v: RequestMessageModel) -> Seq<u8> {
        u32::wire(v.message_size) + RequestHeader::wire(v.header) + RequestBody::wire(v.body)
    }

    open spec fn encodable(v: RequestMessageModel) -> bool {
        &&& RequestHeader::encodable(v.header)
        &&& RequestBody::encodable(v.body)
    }

    fn is_encodable(&self) -> (b: bool) {
        self.header.is_encodable() && self.body.is_encodable()
    }

    fn encode(&self) -> (out: Vec<u8>) {
        let mut out = self.message_size.encode();
        let mut header = self.header.encode();
        let mut body = self.body.encode();
        out.append(&mut header);
        out.append(&mut body);
        out
    }
}

/// The number of bytes of header and body: what the size field of a framed
/// message holds.
pub open spec fn request_frame_len(v: RequestMessageModel) -> nat {
    RequestHeader::wire(v.header).len() + RequestBody::wire(v.body).len()
}

/// The requests that can be framed: they have a wire form, and where the
/// size is still to be filled in, it fits in 32 bits.
pub open spec fn request_frameable(v: RequestMessageModel) -> bool {
    &&& RequestMessage::encodable(v)
    &&& v.message_size == 0 ==> request_frame_len(v) <= u32::MAX
}

/// The request as it is framed: with the size that a request without one is given.
pub open spec fn framed_request(v: RequestMessageModel) -> RequestMessageModel {
    if v.message_size == 0 {
        RequestMessageModel {
            message_size: request_frame_len(v) as u32,
            header: v.header,
            body: v.body,
        }
    } else {
        v
    }
}

impl RequestMessage {
    /// A request that is not framed yet: its size is zero.
    pub fn new(header: RequestHeader, body: RequestBody) -> (r: Self)
        ensures
            r == (RequestMessage { message_size: 0, header, body }),
    {
        RequestMessage { message_size: 0, header, body }
    }

    /// The bytes of the request as it goes out. A request without a size
    /// gets the number of bytes of its header and body, which is then what
    /// the first four bytes hold.
    pub fn as_bytes(&mut self) -> (out: Vec<u8>)
        requires
            request_frameable(old(self).model()),
        ensures
            final(self).model() == framed_request(old(self).model()),
            out@ == RequestMessage::wire(final(self).model()),
            old(self).message_size == 0 ==> u32::parse(out@, 0) == Ok::<(u32, int), DecodeError>(
                ((out@.len() - 4) as u32, 4),
            ),
    {
        if self.message_size == 0 {
            let mut header = self.header.encode();
            let mut body = self.body.encode();
            let size: u32 = (header.len() + body.len()) as u32;
            self.message_size = size;
            let mut out = size.encode();
            out.append(&mut header);
            out.append(&mut body);
            proof {
                let w = u32::wire(size);
                crate::big_endian::lemma_be_bytes_len(size as nat, 4);
                assert(holds_at(out@, 0, w)) by {
                    reveal(holds_at);
                    assert(out@.subrange(0, 4) =~= w);
                }
                u32::lemma_round_trip(size, out@, 0);
            }
            out
        } else {
            self.encode()
        }
    }

    /// The bytes of the request as it goes out, or nothing, with the request
    /// left as it is, where it cannot be framed.
    pub fn try_as_bytes(&mut self) -> (r: Option<Vec<u8>>)
        ensures
            r is Some <==> request_frameable(old(self).model()),
            match r {
                Some(out) => {
                    &&& final(self).model() == framed_request(old(self).model())
                    &&& out@ == RequestMessage::wire(final(self).model())
                    &&& old(self).message_size == 0 ==> u32::parse(out@, 0) == Ok::<
                        (u32, int),
                        DecodeError,
                    >(((out@.len() - 4) as u32, 4))
                },
                None => final(self).model() == old(self).model(),
            },
    {
        if !self.is_encodable() {
            return None;
        }
        if self.message_size == 0 {
            let header = self.header.encode();
            let body = self.body.encode();
            if header.len() as u128 + body.len() as u128 > 0xffff_ffff {
                return None;
            }
        }
        Some(self.as_bytes())
    }
}

/// The body that belongs to a request key.
pub open spec fn body_matches_key(key: i16, body: RequestBodyModel) -> bool {
    match body {
        RequestBodyModel::ApiVersionsV4(_) => key == 18,
        RequestBodyModel::DescribeTopicPartitionsV0(_) => key == 75,
        RequestBodyModel::FetchV16(_) => key == 1,
    }
}

impl Decode for RequestMessage {
    /// Behind the size stands a version 2 header, whose key says which body
    /// follows. A key that the server does not speak is fatal.
    open spec fn parse(s: Seq<u8>, at: int) -> Parsed<RequestMessageModel> {
        let size = u32::parse(s, at);
        let header = RequestHeaderV2::parse(s, end_of(size));
        if size is Err {
            Err(error_of(size))
        } else if header is Err {
            Err(error_of(header))
        } else if value_of(header).request_api_key == 18 {
            match ApiVersionsReqeustBodyV4::parse(s, end_of(header)) {
                Ok((body, end)) => Ok(
                    (
                        RequestMessageModel {
                            message_size: value_of(size),
                            header: RequestHeaderModel::RequestHeaderV2(value_of(header)),
                            body: RequestBodyModel::ApiVersionsV4(body),
                        },
                        end,
                    ),
                ),
                Err(e) => Err(e),
            }
        } else if value_of(header).request_api_key == 75 {
            match DescribeTopicPartitionsRequestBodyV0::parse(s, end_of(header)) {
                Ok((body, end)) => Ok(
                    (
                        RequestMessageModel {
                            message_size: value_of(size),
                            header: RequestHeaderModel::RequestHeaderV2(value_of(header)),
                            body: RequestBodyModel::DescribeTopicPartitionsV0(body),
                        },
                        end,
                    ),
                ),
                Err(e) => Err(e),
            }
        } else if value_of(header).request_api_key == 1 {
            match FetchRequestBodyV16::parse(s, end_of(header)) {
                Ok((body, end)) => Ok(
                    (
                        RequestMessageModel {
                            message_size: value_of(size),
                            header: RequestHeaderModel::RequestHeaderV2(value_of(header)),
                            body: RequestBodyModel::FetchV16(body),
                        },
                        end,
                    ),
                ),
                Err(e) => Err(e),
            }
        } else {
            Err(DecodeError::Other(Fault::UnknownApiKey(value_of(header).request_api_key)))
        }
    }

    proof fn lemma_parse_in_bounds(s: Seq<u8>, at: int) {
        u32::lemma_parse_in_bounds(s, at);
        let size = u32::parse(s, at);
        RequestHeaderV2::lemma_parse_in_bounds(s, end_of(size));
        let header = RequestHeaderV2::parse(s, end_of(size));
        ApiVersionsReqeustBodyV4::lemma_parse_in_bounds(s, end_of(header));
        DescribeTopicPartitionsRequestBodyV0::lemma_parse_in_bounds(s, end_of(header));
        FetchRequestBodyV16::lemma_parse_in_bounds(s, end_of(header));
    }

    proof fn lemma_parse_extends(s: Seq<u8>, t: Seq<u8>, at: int) {
        u32::lemma_parse_extends(s, t, at);
        let size = u32::parse(s, at);
        RequestHeaderV2::lemma_parse_extends(s, t, end_of(size));
        let header = RequestHeaderV2::parse(s, end_of(size));
        ApiVersionsReqeustBodyV4::lemma_parse_extends(s, t, end_of(header));
        DescribeTopicPartitionsRequestBodyV0::lemma_parse_extends(s, t, end_of(header));
        FetchRequestBodyV16::lemma_parse_extends(s, t, end_of(header));
    }

    fn decode(buffer: &mut Cursor) -> (r: DecodeResult<Self>) {
        let message_size: u32 = u32::decode(buffer)?;
        let header = RequestHeaderV2::decode(buffer)?;
        let key: i16 = header.request_api_key;
        if key == API_VERSIONS_KEY {
            let body = ApiVersionsReqeustBodyV4::decode(buffer)?;
            Ok(
                RequestMessage {
                    message_size,
                    header: RequestHeader::RequestHeaderV2(header),
                    body: RequestBody::ApiVersionsV4(body),
                },
            )
        } else if key == DESCRIBE_TOPIC_PARTITIONS_KEY {
            let body = DescribeTopicPartitionsRequestBodyV0::decode(buffer)?;
            Ok(
                RequestMessage {
                    message_size,
                    header: RequestHeader::RequestHeaderV2(header),
                    body: RequestBody::DescribeTopicPartitionsV0(body),
                },
            )
        } else if key == FETCH_KEY {
            let body = FetchRequestBodyV16::decode(buffer)?;
            Ok(
                RequestMessage {
                    message_size,
                    header: RequestHeader::RequestHeaderV2(header),
                    body: RequestBody::FetchV16(body),
                },
            )
        } else {
            Err(DecodeError::Other(Fault::UnknownApiKey(key)))
        }
    }
}

impl Codec for RequestMessage {
    /// The body is the one that the key of the header asks for.
    open spec fn canonical(v: RequestMessageModel) -> bool {
        &&& RequestHeaderV2::canonical(v.header.v2())
        &&& body_matches_key(v.header.v2().request_api_key, v.body)
        &&& match v.body {
            RequestBodyModel::ApiVersionsV4(b) => ApiVersionsReqeustBodyV4::canonical(b),
            RequestBodyModel::DescribeTopicPartitionsV0(b) =>
                DescribeTopicPartitionsRequestBodyV0::canonical(b),
            RequestBodyModel::FetchV16(b) => FetchRequestBodyV16::canonical(b),
        }
    }

    proof fn lemma_round_trip(v: RequestMessageModel, s: Seq<u8>, at: int) {
        let w0 = u32::wire(v.message_size);
        let w1 = RequestHeader::wire(v.header);
        let w2 = RequestBody::wire(v.body);
        lemma_holds_at_last(s, at, w0 + w1, w2);
        lemma_holds_at_last(s, at, w0, w1);
        u32::lemma_round_trip(v.message_size, s, at);
        RequestHeaderV2::lemma_round_trip(v.header.v2(), s, at + w0.len());
        match v.body {
            RequestBodyModel::ApiVersionsV4(b) => {
                ApiVersionsReqeustBodyV4::lemma_round_trip(b, s, at + (w0 + w1).len());
            },
            RequestBodyModel::DescribeTopicPartitionsV0(b) => {
                DescribeTopicPartitionsRequestBodyV0::lemma_round_trip(
                    b,
                    s,
                    at + (w0 + w1).len(),
                );
            },
            RequestBodyModel::FetchV16(b) => {
                FetchRequestBodyV16::lemma_round_trip(b, s, at + (w0 + w1).len());
            },
        }
    }
}

/// An ApiVersions request of the given version as a client sends it.
pub fn request_api_versions(request_api_version: i16) -> (r: RequestMessage)
    ensures
        r.message_size == 0,
        r.header.model().v2().request_api_key == 18,
        r.header.model().v2().request_api_version == request_api_version,
        r.header.model().v2().correlation_id == 0,
        r.header.model().v2().client_id == "myclient"@,
        r.header.model().v2().tag_buffer == (TagBufferModel { fields: None }),
        r.body.model() == RequestBodyModel::ApiVersionsV4(
            ApiVersionsReqeustBodyV4Model {
                client_id: "myclient"@,
                client_software_version: "0.1"@,
                tag_buffer: TagBufferModel { fields: None },
            },
        ),
{
    RequestMessage {
        message_size: 0,
        header: RequestHeader::new_v2(
            API_VERSIONS_KEY,
            request_api_version,
            0,
            KafkaString::new("myclient".to_string()),
            TagBuffer::default(),
        ),
        body: RequestBody::ApiVersionsV4(
            ApiVersionsReqeustBodyV4 {
                client_id: CompactString::new("myclient".to_string()),
                client_software_version: CompactString::new("0.1".to_string()),
                tag_buffer: TagBuffer::default(),
            },
        ),
    }
}

} // verus!
