//! The reading side of a connection: bytes arrive in pieces, and a request
//! is taken from the buffer once all of it is there.
use vstd::prelude::*;

use crate::cursor::Cursor;
use crate::decode::{Decode, DecodeError, DecodeResult, Parsed};
use crate::model::Model;
use crate::request_message::{RequestMessage, RequestMessageModel};
use crate::response_message::{parse_response, ResponseMessage, ResponseMessageModel};

verus! {

/// What the bytes that are buffered so far allow.
pub enum Framed<V> {
    /// A whole message stands at the front and takes this many bytes.
    Ready(V, int),
    /// The bytes end before the message does.
    Waiting,
    /// The bytes are no message, whatever may follow.
    Broken(DecodeError),
}

/// What a parse at the front of the buffer means for the connection.
pub open spec fn framed<V>(parsed: Parsed<V>) -> Framed<V> {
    match parsed {
        Ok((v, n)) => Framed::Ready(v, n),
        Err(DecodeError::Incomplete) => Framed::Waiting,
        Err(e) => Framed::Broken(e),
    }
}

/// Tries to take one request from the front of the buffered bytes. With a
/// request comes the number of bytes that it took, by which the caller
/// moves its buffer on. `None` asks for more bytes and leaves the buffer as it is.
pub fn parse_request(buffer: &[u8]) -> (r: DecodeResult<Option<(RequestMessage, usize)>>)
    ensures
        match r {
            Ok(Some((request, taken))) => framed(RequestMessage::parse(buffer@, 0))
                == Framed::Ready(request.model(), taken as int) && taken <= buffer@.len(),
            Ok(None) => framed(RequestMessage::parse(buffer@, 0)) == Framed::<
                RequestMessageModel,
            >::Waiting,
            Err(e) => framed(RequestMessage::parse(buffer@, 0)) == Framed::<
                RequestMessageModel,
            >::Broken(e),
        },
{
    let mut cursor = Cursor::new(buffer);
    match RequestMessage::decode(&mut cursor) {
        Ok(request) => {
            let taken: usize = cursor.position();
            Ok(Some((request, taken)))
        },
        Err(DecodeError::Incomplete) => Ok(None),
        Err(e) => Err(e),
    }
}

/// Tries to take the response to a request of the given key from the front
/// of the buffered bytes.
pub fn parse_response_frame(buffer: &[u8], request_api_key: i16) -> (r: DecodeResult<
    Option<(ResponseMessage, usize)>,
>)
    ensures
        match r {
            Ok(Some((response, taken))) => framed(parse_response(buffer@, 0, request_api_key))
                == Framed::Ready(response.model(), taken as int) && taken <= buffer@.len(),
            Ok(None) => framed(parse_response(buffer@, 0, request_api_key)) == Framed::<
                ResponseMessageModel,
            >::Waiting,
            Err(e) => framed(parse_response(buffer@, 0, request_api_key)) == Framed::<
                ResponseMessageModel,
            >::Broken(e),
        },
{
    let mut cursor = Cursor::new(buffer);
    match ResponseMessage::decode(&mut cursor, request_api_key) {
        Ok(response) => {
            let taken: usize = cursor.position();
            Ok(Some((response, taken)))
        },
        Err(DecodeError::Incomplete) => Ok(None),
        Err(e) => Err(e),
    }
}

/// What a read from the socket means for the connection.
#[derive(Debug, Clone, Copy, PartialEq, Eq)]
pub enum ReadOutcome {
    /// Bytes arrived: try to parse again.
    Progress,
    /// The peer closed between two messages.
    Closed,
    /// The peer closed in the middle of a message.
    ResetByPeer,
}

/// Judges a read that brought `read` bytes, with `buffered` bytes in the
/// buffer after it. No byte and an empty buffer is a clean end; no byte and
/// a buffer that holds a part of a message is a reset.
pub fn after_read(read: usize, buffered: usize) -> (r: ReadOutcome)
    ensures
        r == if read > 0 {
            ReadOutcome::Progress
        } else if buffered == 0 {
            ReadOutcome::Closed
        } else {
            ReadOutcome::ResetByPeer
        },
{
    if read > 0 {
        ReadOutcome::Progress
    } else if buffered == 0 {
        ReadOutcome::Closed
    } else {
        ReadOutcome::ResetByPeer
    }
}

/// The bytes of a connection that have arrived and not been taken yet.
pub struct RequestBuffer {
    bytes: Vec<u8>,
}

impl RequestBuffer {
    pub closed spec fn view(&self) -> Seq<u8> {
        self.bytes@
    }

    pub fn new() -> (r: Self)
        ensures
            r.view() == Seq::<u8>::empty(),
    {
        RequestBuffer { bytes: Vec::new() }
    }

    pub fn len(&self) -> (n: usize)
        ensures
            n == self.view().len(),
    {
        self.bytes.len()
    }

    /// Appends bytes that arrived.
    pub fn feed(&mut self, bytes: &[u8])
        ensures
            final(self).view() == old(self).view() + bytes@,
    {
        self.bytes.extend_from_slice(bytes);
        assert(self.bytes@ =~= old(self).bytes@ + bytes@);
    }

    /// Takes the request at the front, where all of it has arrived. The
    /// buffer then starts behind it. Where it has not, or the bytes are no
    /// request, the buffer stays as it is.
    pub fn next_request(&mut self) -> (r: DecodeResult<Option<RequestMessage>>)
        ensures
            match r {
                Ok(Some(request)) => exists|taken: int|
                    0 <= taken <= old(self).view().len() && framed(
                        RequestMessage::parse(old(self).view(), 0),
                    ) == Framed::Ready(request.model(), taken) && final(self).view() == old(
                        self,
                    ).view().skip(taken),
                Ok(None) => framed(RequestMessage::parse(old(self).view(), 0)) == Framed::<
                    RequestMessageModel,
                >::Waiting && final(self).view() == old(self).view(),
                Err(e) => framed(RequestMessage::parse(old(self).view(), 0)) == Framed::<
                    RequestMessageModel,
                >::Broken(e) && final(self).view() == old(self).view(),
            },
    {
        match parse_request(self.bytes.as_slice()) {
            Ok(Some((request, taken))) => {
                let rest = self.bytes.split_off(taken);
                self.bytes = rest;
                assert(self.bytes@ =~= old(self).bytes@.skip(taken as int));
                Ok(Some(request))
            },
            Ok(None) => Ok(None),
            Err(e) => Err(e),
        }
    }
}

/// While a request has arrived only in part, the reader waits: every
/// proper prefix of the bytes of one request is incomplete, never a request
/// of its own and never broken.
pub proof fn lemma_prefix_of_request_waits(b: Seq<u8>, k: int)
    requires
        RequestMessage::parse(b, 0) matches Ok((_, n)) && n == b.len(),
        0 <= k < b.len(),
    ensures
        framed(RequestMessage::parse(b.take(k), 0)) == Framed::<RequestMessageModel>::Waiting,
{
    let s = b.take(k);
    assert(s.is_prefix_of(b)) by {
        assert(s =~= b.subrange(0, s.len() as int));
    }
    RequestMessage::lemma_parse_extends(s, b, 0);
    RequestMessage::lemma_parse_in_bounds(s, 0);
}

/// More bytes behind a request that has arrived do not change it.
pub proof fn lemma_request_ignores_what_follows(s: Seq<u8>, more: Seq<u8>)
    requires
        RequestMessage::parse(s, 0) is Ok,
    ensures
        RequestMessage::parse(s + more, 0) == RequestMessage::parse(s, 0),
{
    assert(s.is_prefix_of(s + more)) by {
        assert(s =~= (s + more).subrange(0, s.len() as int));
    }
    RequestMessage::lemma_parse_extends(s, s + more, 0);
}

/// Feeding the bytes of one request in two pieces gives the same as feeding
/// them whole: after the first piece the reader waits and keeps it, and
/// after the second the buffer holds the bytes of the request again.
pub proof fn lemma_incremental_parse(b: Seq<u8>, k: int)
    requires
        RequestMessage::parse(b, 0) matches Ok((_, n)) && n == b.len(),
        0 <= k <= b.len(),
    ensures
        k < b.len() ==> framed(RequestMessage::parse(b.take(k), 0)) == Framed::<
            RequestMessageModel,
        >::Waiting,
        b.take(k) + b.skip(k) == b,
        framed(RequestMessage::parse(b.take(k) + b.skip(k), 0)) == framed(
            RequestMessage::parse(b, 0),
        ),
{
    if k < b.len() {
        lemma_prefix_of_request_waits(b, k);
    }
    assert(b.take(k) + b.skip(k) =~= b);
}

} // verus!
