//! The law that ties the two directions together: what was written reads back.
use vstd::prelude::*;

use crate::big_endian::{
    be_bytes, lemma_be_bytes_len, lemma_be_value_of_bytes, lemma_pow256_values,
    lemma_twos_complement_round_trip, twos_complement,
};
use crate::cursor::parse_be;
use crate::decode::{holds_at, Decode, DecodeError};
use crate::encode::Encode;

verus! {

/// A type that can be written and read, with the proof that reading undoes writing.
pub trait Codec: Encode + Decode {
    /// The values that read back as they were written: no other value has
    /// their wire form.
    spec fn canonical(v: Self::M) -> bool;

    /// Wherever the wire form of `v` stands in `s`, parsing there gives `v`
    /// and ends just behind it.
    proof fn lemma_round_trip(v: Self::M, s: Seq<u8>, at: int)
        requires
            Self::encodable(v),
            Self::canonical(v),
            holds_at(s, at, Self::wire(v)),
        ensures
            Self::parse(s, at) == Ok::<(Self::M, int), DecodeError>(
                (v, at + Self::wire(v).len()),
            ),
    ;
}

impl Codec for u8 {
    open spec fn canonical(v: u8) -> bool {
        true
    }

    proof fn lemma_round_trip(v: u8, s: Seq<u8>, at: int) {
        reveal(holds_at);
        reveal(parse_be);
        lemma_pow256_values();
        lemma_be_bytes_len(v as nat, 1);
        lemma_be_value_of_bytes(v as nat, 1);
    }
}

impl Codec for u16 {
    open spec fn canonical(v: u16) -> bool {
        true
    }

    proof fn lemma_round_trip(v: u16, s: Seq<u8>, at: int) {
        reveal(holds_at);
        reveal(parse_be);
        lemma_pow256_values();
        lemma_be_bytes_len(v as nat, 2);
        lemma_be_value_of_bytes(v as nat, 2);
    }
}

impl Codec for u32 {
    open spec fn canonical(v: u32) -> bool {
        true
    }

    proof fn lemma_round_trip(v: u32, s: Seq<u8>, at: int) {
        reveal(holds_at);
        reveal(parse_be);
        lemma_pow256_values();
        lemma_be_bytes_len(v as nat, 4);
        lemma_be_value_of_bytes(v as nat, 4);
    }
}

impl Codec for u64 {
    open spec fn canonical(v: u64) -> bool {
        true
    }

    proof fn lemma_round_trip(v: u64, s: Seq<u8>, at: int) {
        reveal(holds_at);
        reveal(parse_be);
        lemma_pow256_values();
        lemma_be_bytes_len(v as nat, 8);
        lemma_be_value_of_bytes(v as nat, 8);
    }
}

impl Codec for u128 {
    open spec fn canonical(v: u128) -> bool {
        true
    }

    proof fn lemma_round_trip(v: u128, s: Seq<u8>, at: int) {
        reveal(holds_at);
        reveal(parse_be);
        lemma_pow256_values();
        lemma_be_bytes_len(v as nat, 16);
        lemma_be_value_of_bytes(v as nat, 16);
    }
}

impl Codec for i8 {
    open spec fn canonical(v: i8) -> bool {
        true
    }

    proof fn lemma_round_trip(v: i8, s: Seq<u8>, at: int) {
        reveal(holds_at);
        reveal(parse_be);
        lemma_pow256_values();
        lemma_twos_complement_round_trip(v as int, 1);
        lemma_be_bytes_len(twos_complement(v as int, 1), 1);
        lemma_be_value_of_bytes(twos_complement(v as int, 1), 1);
    }
}

impl Codec for i16 {
    open spec fn canonical(v: i16) -> bool {
        true
    }

    proof fn lemma_round_trip(v: i16, s: Seq<u8>, at: int) {
        reveal(holds_at);
        reveal(parse_be);
        lemma_pow256_values();
        lemma_twos_complement_round_trip(v as int, 2);
        lemma_be_bytes_len(twos_complement(v as int, 2), 2);
        lemma_be_value_of_bytes(twos_complement(v as int, 2), 2);
    }
}

impl Codec for i32 {
    open spec fn canonical(v: i32) -> bool {
        true
    }

    proof fn lemma_round_trip(v: i32, s: Seq<u8>, at: int) {
        reveal(holds_at);
        reveal(parse_be);
        lemma_pow256_values();
        lemma_twos_complement_round_trip(v as int, 4);
        lemma_be_bytes_len(twos_complement(v as int, 4), 4);
        lemma_be_value_of_bytes(twos_complement(v as int, 4), 4);
    }
}

impl Codec for i64 {
    open spec fn canonical(v: i64) -> bool {
        true
    }

    proof fn lemma_round_trip(v: i64, s: Seq<u8>, at: int) {
        reveal(holds_at);
        reveal(parse_be);
        lemma_pow256_values();
        lemma_twos_complement_round_trip(v as int, 8);
        lemma_be_bytes_len(twos_complement(v as int, 8), 8);
        lemma_be_value_of_bytes(twos_complement(v as int, 8), 8);
    }
}

impl Codec for i128 {
    open spec fn canonical(v: i128) -> bool {
        true
    }

    proof fn lemma_round_trip(v: i128, s: Seq<u8>, at: int) {
        reveal(holds_at);
        reveal(parse_be);
        lemma_pow256_values();
        lemma_twos_complement_round_trip(v as int, 16);
        lemma_be_bytes_len(twos_complement(v as int, 16), 16);
        lemma_be_value_of_bytes(twos_complement(v as int, 16), 16);
    }
}

impl Codec for bool {
    open spec fn canonical(v: bool) -> bool {
        true
    }

    proof fn lemma_round_trip(v: bool, s: Seq<u8>, at: int) {
        let byte = if v { 1u8 } else { 0u8 };
        reveal_with_fuel(be_bytes, 2);
        reveal(parse_be);
        assert(be_bytes(byte as nat, 1) =~= seq![byte]);
        u8::lemma_round_trip(byte, s, at);
    }
}

} // verus!
