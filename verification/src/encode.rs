//! Encoding: the writer's contract and the wire form of the primitive types.
use vstd::prelude::*;

use crate::big_endian::{be_bytes, be_push, lemma_pow256_values, twos_complement};
use crate::model::Model;

verus! {

/// A type that can be written to the wire.
pub trait Encode: Model {
    /// The bytes that stand for a value on the wire.
    spec fn wire(v: Self::M) -> Seq<u8>;

    /// The values that have a wire form: those whose lengths fit their prefixes.
    spec fn encodable(v: Self::M) -> bool;

    /// Tells whether the value has a wire form, for callers that cannot prove it.
    fn is_encodable(&self) -> (b: bool)
        ensures
            b == Self::encodable(self.model()),
    ;

    fn encode(&self) -> (out: Vec<u8>)
        requires
            Self::encodable(self.model()),
        ensures
            out@ == Self::wire(self.model()),
    ;
}

impl Encode for u8 {
    open spec fn wire(v: u8) -> Seq<u8> {
        be_bytes(v as nat, 1)
    }

    open spec fn encodable(v: u8) -> bool {
        true
    }

    fn is_encodable(&self) -> (b: bool) {
        true
    }

    fn encode(&self) -> (out: Vec<u8>) {
        let mut out: Vec<u8> = Vec::new();
        be_push(&mut out, *self as u128, 1);
        assert(out@ =~= be_bytes(*self as nat, 1));
        out
    }
}

impl Encode for u16 {
    open spec fn wire(v: u16) -> Seq<u8> {
        be_bytes(v as nat, 2)
    }

    open spec fn encodable(v: u16) -> bool {
        true
    }

    fn is_encodable(&self) -> (b: bool) {
        true
    }

    fn encode(&self) -> (out: Vec<u8>) {
        let mut out: Vec<u8> = Vec::new();
        be_push(&mut out, *self as u128, 2);
        assert(out@ =~= be_bytes(*self as nat, 2));
        out
    }
}

impl Encode for u32 {
    open spec fn wire(v: u32) -> Seq<u8> {
        be_bytes(v as nat, 4)
    }

    open spec fn encodable(v: u32) -> bool {
        true
    }

    fn is_encodable(&self) -> (b: bool) {
        true
    }

    fn encode(&self) -> (out: Vec<u8>) {
        let mut out: Vec<u8> = Vec::new();
        be_push(&mut out, *self as u128, 4);
        assert(out@ =~= be_bytes(*self as nat, 4));
        out
    }
}

impl Encode for u64 {
    open spec fn wire(v: u64) -> Seq<u8> {
        be_bytes(v as nat, 8)
    }

    open spec fn encodable(v: u64) -> bool {
        true
    }

    fn is_encodable(&self) -> (b: bool) {
        true
    }

    fn encode(&self) -> (out: Vec<u8>) {
        let mut out: Vec<u8> = Vec::new();
        be_push(&mut out, *self as u128, 8);
        assert(out@ =~= be_bytes(*self as nat, 8));
        out
    }
}

impl Encode for u128 {
    open spec fn wire(v: u128) -> Seq<u8> {
        be_bytes(v as nat, 16)
    }

    open spec fn encodable(v: u128) -> bool {
        true
    }

    fn is_encodable(&self) -> (b: bool) {
        true
    }

    fn encode(&self) -> (out: Vec<u8>) {
        let mut out: Vec<u8> = Vec::new();
        be_push(&mut out, *self as u128, 16);
        assert(out@ =~= be_bytes(*self as nat, 16));
        out
    }
}

impl Encode for i8 {
    open spec fn wire(v: i8) -> Seq<u8> {
        be_bytes(twos_complement(v as int, 1), 1)
    }

    open spec fn encodable(v: i8) -> bool {
        true
    }

    fn is_encodable(&self) -> (b: bool) {
        true
    }

    fn encode(&self) -> (out: Vec<u8>) {
        let x: i8 = *self;
        proof {
            lemma_pow256_values();
        }
        let raw: u128 = if x >= 0 {
            x as u128
        } else {
            (x as i128 + 0x100) as u128
        };
        let mut out: Vec<u8> = Vec::new();
        be_push(&mut out, raw, 1);
        assert(out@ =~= be_bytes(twos_complement(x as int, 1), 1));
        out
    }
}

impl Encode for i16 {
    open spec fn wire(v: i16) -> Seq<u8> {
        be_bytes(twos_complement(v as int, 2), 2)
    }

    open spec fn encodable(v: i16) -> bool {
        true
    }

    fn is_encodable(&self) -> (b: bool) {
        true
    }

    fn encode(&self) -> (out: Vec<u8>) {
        let x: i16 = *self;
        proof {
            lemma_pow256_values();
        }
        let raw: u128 = if x >= 0 {
            x as u128
        } else {
            (x as i128 + 0x1_0000) as u128
        };
        let mut out: Vec<u8> = Vec::new();
        be_push(&mut out, raw, 2);
        assert(out@ =~= be_bytes(twos_complement(x as int, 2), 2));
        out
    }
}

impl Encode for i32 {
    open spec fn wire(v: i32) -> Seq<u8> {
        be_bytes(twos_complement(v as int, 4), 4)
    }

    open spec fn encodable(v: i32) -> bool {
        true
    }

    fn is_encodable(&self) -> (b: bool) {
        true
    }

    fn encode(&self) -> (out: Vec<u8>) {
        let x: i32 = *self;
        proof {
            lemma_pow256_values();
        }
        let raw: u128 = if x >= 0 {
            x as u128
        } else {
            (x as i128 + 0x1_0000_0000) as u128
        };
        let mut out: Vec<u8> = Vec::new();
        be_push(&mut out, raw, 4);
        assert(out@ =~= be_bytes(twos_complement(x as int, 4), 4));
        out
    }
}

impl Encode for i64 {
    open spec fn wire(v: i64) -> Seq<u8> {
        be_bytes(twos_complement(v as int, 8), 8)
    }

    open spec fn encodable(v: i64) -> bool {
        true
    }

    fn is_encodable(&self) -> (b: bool) {
        true
    }

    fn encode(&self) -> (out: Vec<u8>) {
        let x: i64 = *self;
        proof {
            lemma_pow256_values();
        }
        let raw: u128 = if x >= 0 {
            x as u128
        } else {
            (x as i128 + 0x1_0000_0000_0000_0000) as u128
        };
        let mut out: Vec<u8> = Vec::new();
        be_push(&mut out, raw, 8);
        assert(out@ =~= be_bytes(twos_complement(x as int, 8), 8));
        out
    }
}

impl Encode for i128 {
    open spec fn wire(v: i128) -> Seq<u8> {
        be_bytes(twos_complement(v as int, 16), 16)
    }

    open spec fn encodable(v: i128) -> bool {
        true
    }

    fn is_encodable(&self) -> (b: bool) {
        true
    }

    fn encode(&self) -> (out: Vec<u8>) {
        let x: i128 = *self;
        proof {
            lemma_pow256_values();
        }
        let raw: u128 = if x >= 0 {
            x as u128
        } else {
            u128::MAX - ((-(x + 1)) as u128)
        };
        let mut out: Vec<u8> = Vec::new();
        be_push(&mut out, raw, 16);
        assert(out@ =~= be_bytes(twos_complement(x as int, 16), 16));
        out
    }
}

impl Encode for bool {
    open spec fn wire(v: bool) -> Seq<u8> {
        seq![if v { 1u8 } else { 0u8 }]
    }

    open spec fn encodable(v: bool) -> bool {
        true
    }

    fn is_encodable(&self) -> (b: bool) {
        true
    }

    fn encode(&self) -> (out: Vec<u8>) {
        let byte: u8 = if *self { 1 } else { 0 };
        let mut out: Vec<u8> = Vec::new();
        out.push(byte);
        assert(out@ =~= seq![byte]);
        out
    }
}

} // verus!
