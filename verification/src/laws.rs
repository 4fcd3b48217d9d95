//! What holds of every wire type: reading undoes writing, a null array is
//! not an empty one, and a framed message says how long it is.
use vstd::prelude::*;

use crate::big_endian::{be_bytes, lemma_be_bytes_len, lemma_pow256_values};
use crate::codec::Codec;
use crate::common_struct::{Array, CompactArray};
use crate::decode::{holds_at, lemma_holds_at_last, Decode, DecodeError};
use crate::encode::Encode;
use crate::response_message::{
    framed_response, parse_response, response_frame_len, ResponseBody, ResponseBodyModel,
    ResponseHeader, ResponseHeaderModel, ResponseHeaderV0, ResponseHeaderV1, ResponseMessage,
    ResponseMessageModel,
};
use crate::api_versions::{
    api_versions_body, lemma_api_versions_response_frameable, v0_response,
    ApiVersionsResponseBodyV4,
};
use crate::common_struct::lemma_empty_tag_buffer_wire;
use crate::describe_topic_partitions::DescribeTopicPartitionsResponseBodyV0;
use crate::fetch::FetchResponseBodyV16;
use crate::varint::varint_bytes;

verus! {

/// Decoding what was encoded gives the value back, and takes exactly the
/// bytes that were written, whatever follows them.
pub proof fn lemma_decode_of_encode<T: Codec>(v: T::M, rest: Seq<u8>)
    requires
        T::encodable(v),
        T::canonical(v),
    ensures
        T::parse(T::wire(v) + rest, 0) == Ok::<(T::M, int), DecodeError>(
            (v, T::wire(v).len() as int),
        ),
{
    let s = T::wire(v) + rest;
    assert(holds_at(s, 0, T::wire(v))) by {
        reveal(holds_at);
        assert(s.subrange(0, T::wire(v).len() as int) =~= T::wire(v));
    }
    T::lemma_round_trip(v, s, 0);
}

/// Encoding what was decoded from the bytes of a valid encoder gives the
/// bytes back.
pub proof fn lemma_encode_of_decode<T: Codec>(b: Seq<u8>, origin: T::M)
    requires
        T::encodable(origin),
        T::canonical(origin),
        b == T::wire(origin),
    ensures
        T::parse(b, 0) matches Ok((v, n)) && n == b.len() && T::wire(v) == b,
{
    lemma_decode_of_encode::<T>(origin, Seq::empty());
    assert(T::wire(origin) + Seq::<u8>::empty() =~= b);
}

/// The null array and the empty array differ on the wire, `ff ff ff ff`
/// against `00 00 00 00`, and each reads back as what it was.
pub proof fn lemma_null_and_empty_array<T: Codec>()
    ensures
        Array::<T>::wire(None) == seq![0xffu8, 0xffu8, 0xffu8, 0xffu8],
        Array::<T>::wire(Some(Seq::empty())) == seq![0u8, 0u8, 0u8, 0u8],
        Array::<T>::parse(Array::<T>::wire(None), 0) == Ok::<(Option<Seq<T::M>>, int), DecodeError>(
            (None, 4),
        ),
        Array::<T>::parse(Array::<T>::wire(Some(Seq::empty())), 0) == Ok::<
            (Option<Seq<T::M>>, int),
            DecodeError,
        >((Some(Seq::empty()), 4)),
{
    reveal_with_fuel(be_bytes, 5);
    lemma_pow256_values();
    let null = Array::<T>::wire(None);
    let empty = Array::<T>::wire(Some(Seq::empty()));
    assert(null =~= seq![0xffu8, 0xffu8, 0xffu8, 0xffu8]);
    assert(empty =~= seq![0u8, 0u8, 0u8, 0u8]);
    lemma_decode_of_encode::<Array<T>>(None, Seq::empty());
    lemma_decode_of_encode::<Array<T>>(Some(Seq::empty()), Seq::empty());
    assert(null + Seq::<u8>::empty() =~= null);
    assert(empty + Seq::<u8>::empty() =~= empty);
}

/// The null compact array and the empty compact array differ on the wire,
/// `00` against `01`, and each reads back as what it was.
pub proof fn lemma_null_and_empty_compact_array<T: Codec>()
    ensures
        CompactArray::<T>::wire(None) == seq![0u8],
        CompactArray::<T>::wire(Some(Seq::empty())) == seq![1u8],
        CompactArray::<T>::parse(CompactArray::<T>::wire(None), 0) == Ok::<
            (Option<Seq<T::M>>, int),
            DecodeError,
        >((None, 1)),
        CompactArray::<T>::parse(CompactArray::<T>::wire(Some(Seq::empty())), 0) == Ok::<
            (Option<Seq<T::M>>, int),
            DecodeError,
        >((Some(Seq::empty()), 1)),
{
    let null = CompactArray::<T>::wire(None);
    let empty = CompactArray::<T>::wire(Some(Seq::empty()));
    assert(varint_bytes(0) =~= seq![0u8]);
    assert(varint_bytes(1) =~= seq![1u8]);
    assert(null =~= seq![0u8]);
    assert(empty =~= seq![1u8]);
    lemma_decode_of_encode::<CompactArray<T>>(None, Seq::empty());
    lemma_decode_of_encode::<CompactArray<T>>(Some(Seq::empty()), Seq::empty());
    assert(null + Seq::<u8>::empty() =~= null);
    assert(empty + Seq::<u8>::empty() =~= empty);
}

/// The first four bytes of a framed response hold the number of bytes that
/// follow them: those of the header and the body.
pub proof fn lemma_framed_response_size(v: ResponseMessageModel)
    requires
        v.message_size == 0,
        response_frame_len(v) <= u32::MAX,
    ensures
        ({
            let w = ResponseMessage::wire(framed_response(v));
            &&& w.len() == 4 + response_frame_len(v)
            &&& u32::parse(w, 0) == Ok::<(u32, int), DecodeError>(((w.len() - 4) as u32, 4))
        }),
{
    let size = response_frame_len(v) as u32;
    let w = ResponseMessage::wire(framed_response(v));
    lemma_be_bytes_len(size as nat, 4);
    assert(holds_at(w, 0, u32::wire(size))) by {
        reveal(holds_at);
        assert(w.subrange(0, 4) =~= u32::wire(size));
    }
    u32::lemma_round_trip(size, w, 0);
}

/// The values of a response that read back as they were written: the
/// header is the one of the body's request, without tagged fields for
/// ApiVersions and with them for the others, and both are canonical.
pub open spec fn response_canonical(v: ResponseMessageModel) -> bool {
    match v.body {
        ResponseBodyModel::ApiVersionsV4(b) => {
            &&& v.header matches ResponseHeaderModel::ResponseHeaderV0(h)
                && ResponseHeaderV0::canonical(h)
            &&& ApiVersionsResponseBodyV4::canonical(b)
        },
        ResponseBodyModel::DescribeTopicPartitionsV0(b) => {
            &&& v.header matches ResponseHeaderModel::ResponseHeaderV1(h)
                && ResponseHeaderV1::canonical(h)
            &&& DescribeTopicPartitionsResponseBodyV0::canonical(b)
        },
        ResponseBodyModel::FetchV16(b) => {
            &&& v.header matches ResponseHeaderModel::ResponseHeaderV1(h)
                && ResponseHeaderV1::canonical(h)
            &&& FetchResponseBodyV16::canonical(b)
        },
    }
}

/// The key of the request that a response body answers.
pub open spec fn key_of_body(body: ResponseBodyModel) -> i16 {
    match body {
        ResponseBodyModel::ApiVersionsV4(_) => 18,
        ResponseBodyModel::DescribeTopicPartitionsV0(_) => 75,
        ResponseBodyModel::FetchV16(_) => 1,
    }
}

/// A response under the header of its request reads back as it was
/// written, given the key of that request.
pub proof fn lemma_response_round_trip(v: ResponseMessageModel, s: Seq<u8>, at: int)
    requires
        ResponseMessage::encodable(v),
        response_canonical(v),
        holds_at(s, at, ResponseMessage::wire(v)),
    ensures
        parse_response(s, at, key_of_body(v.body)) == Ok::<(ResponseMessageModel, int), DecodeError>(
            (v, at + ResponseMessage::wire(v).len()),
        ),
{
    let w0 = u32::wire(v.message_size);
    let w1 = ResponseHeader::wire(v.header);
    let w2 = ResponseBody::wire(v.body);
    lemma_holds_at_last(s, at, w0 + w1, w2);
    lemma_holds_at_last(s, at, w0, w1);
    u32::lemma_round_trip(v.message_size, s, at);
    match v.header {
        ResponseHeaderModel::ResponseHeaderV0(h) => {
            ResponseHeaderV0::lemma_round_trip(h, s, at + w0.len());
        },
        ResponseHeaderModel::ResponseHeaderV1(h) => {
            ResponseHeaderV1::lemma_round_trip(h, s, at + w0.len());
        },
    }
    match v.body {
        ResponseBodyModel::ApiVersionsV4(b) => {
            ApiVersionsResponseBodyV4::lemma_round_trip(b, s, at + (w0 + w1).len());
        },
        ResponseBodyModel::DescribeTopicPartitionsV0(b) => {
            DescribeTopicPartitionsResponseBodyV0::lemma_round_trip(b, s, at + (w0 + w1).len());
        },
        ResponseBodyModel::FetchV16(b) => {
            FetchResponseBodyV16::lemma_round_trip(b, s, at + (w0 + w1).len());
        },
    }
}

/// The answer to an ApiVersions request, framed, reads back as it was
/// written when it is read with the key of ApiVersions.
pub proof fn lemma_api_versions_response_reads_back(request_api_version: i16, correlation_id: i32)
    ensures
        ({
            let v = framed_response(
                v0_response(correlation_id, api_versions_body(request_api_version)),
            );
            parse_response(ResponseMessage::wire(v), 0, 18) == Ok::<
                (ResponseMessageModel, int),
                DecodeError,
            >((v, ResponseMessage::wire(v).len() as int))
        }),
{
    let v = framed_response(v0_response(correlation_id, api_versions_body(request_api_version)));
    let w = ResponseMessage::wire(v);
    lemma_api_versions_response_frameable(request_api_version, correlation_id);
    lemma_empty_tag_buffer_wire();
    assert(holds_at(w, 0, w)) by {
        reveal(holds_at);
        assert(w.subrange(0, w.len() as int) =~= w);
    }
    lemma_response_round_trip(v, w, 0);
}

} // verus!
