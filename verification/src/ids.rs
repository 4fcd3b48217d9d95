//! Topic and directory identifiers: 128-bit UUIDs, sixteen bytes on the wire.
use uuid::Uuid;
use vstd::prelude::*;

use crate::big_endian::{be_bytes, be_push};
use crate::codec::Codec;
use crate::cursor::Cursor;
use crate::decode::{Decode, DecodeResult, Parsed};
use crate::encode::Encode;
use crate::model::Model;

verus! {

#[verifier::external_type_specification]
#[verifier::external_body]
pub struct ExUuid(uuid::Uuid);

/// The 128-bit number that a UUID holds: its sixteen bytes read in network order.
pub uninterp spec fn uuid_value(id: Uuid) -> u128;

/// `Uuid::from_u128` builds the UUID whose sixteen bytes are the network-order
/// bytes of `v`, so the number it holds is `v`.
pub assume_specification[ Uuid::from_u128 ](v: u128) -> (id: Uuid)
    ensures
        uuid_value(id) == v,
;

/// `Uuid::as_u128` reads the sixteen bytes of the UUID in network order.
pub assume_specification[ Uuid::as_u128 ](id: &Uuid) -> (v: u128)
    ensures
        v == uuid_value(*id),
;

/// `Uuid::nil` is the UUID of sixteen zero bytes.
pub assume_specification[ Uuid::nil ]() -> (id: Uuid)
    ensures
        uuid_value(id) == 0,
;

/// `Clone::clone` of a UUID copies its sixteen bytes: the clone is the same UUID.
pub assume_specification[ <Uuid as Clone>::clone ](id: &Uuid) -> (r: Uuid)
    ensures
        r == *id,
;

impl Model for Uuid {
    type M = u128;

    open spec fn model(&self) -> u128 {
        uuid_value(*self)
    }

    fn duplicate(&self) -> (r: Self) {
        *self
    }
}

impl Encode for Uuid {
    open spec fn wire(v: u128) -> Seq<u8> {
        be_bytes(v as nat, 16)
    }

    open spec fn encodable(v: u128) -> bool {
        true
    }

    fn is_encodable(&self) -> (b: bool) {
        true
    }

    fn encode(&self) -> (out: Vec<u8>) {
        let v: u128 = self.as_u128();
        v.encode()
    }
}

impl Decode for Uuid {
    open spec fn parse(s: Seq<u8>, at: int) -> Parsed<u128> {
        u128::parse(s, at)
    }

    proof fn lemma_parse_in_bounds(s: Seq<u8>, at: int) {
        u128::lemma_parse_in_bounds(s, at);
    }

    proof fn lemma_parse_extends(s: Seq<u8>, t: Seq<u8>, at: int) {
        u128::lemma_parse_extends(s, t, at);
    }

    fn decode(buffer: &mut Cursor) -> (r: DecodeResult<Self>) {
        let v: u128 = u128::decode(buffer)?;
        Ok(Uuid::from_u128(v))
    }
}

impl Codec for Uuid {
    open spec fn canonical(v: u128) -> bool {
        true
    }

    proof fn lemma_round_trip(v: u128, s: Seq<u8>, at: int) {
        u128::lemma_round_trip(v, s, at);
    }
}

} // verus!
