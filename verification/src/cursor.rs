//! A read position over a borrowed row of bytes.
use vstd::prelude::*;
use vstd::slice::slice_subrange;
use vstd::slice::slice_to_vec;

use crate::big_endian::{be_read, be_value, lemma_be_value_bound, pow256};
use crate::decode::DecodeError;
use crate::decode::Parsed;

verus! {

/// What `width` bytes at offset `at` hold as a network-order number.
#[verifier::opaque]
pub open spec fn parse_be(s: Seq<u8>, at: int, width: nat) -> Parsed<nat> {
    if 0 <= at && at + width <= s.len() {
        Ok((be_value(s.subrange(at, at + width)), at + width))
    } else {
        Err(DecodeError::Incomplete)
    }
}

/// The `n` bytes at offset `at`, copied out.
pub open spec fn parse_bytes(s: Seq<u8>, at: int, n: nat) -> Parsed<Seq<u8>> {
    if 0 <= at && at + n <= s.len() {
        Ok((s.subrange(at, at + n), at + n))
    } else {
        Err(DecodeError::Incomplete)
    }
}

/// A number of `width` bytes ends `width` bytes behind its start, inside the
/// input, and is less than 256 to the `width`.
pub proof fn lemma_parse_be_shape(s: Seq<u8>, at: int, width: nat)
    ensures
        parse_be(s, at, width) matches Ok((v, next)) ==> {
            &&& 0 <= at
            &&& next == at + width
            &&& next <= s.len()
            &&& v < pow256(width)
            &&& v == be_value(s.subrange(at, at + width))
        },
        parse_be(s, at, width) matches Err(e) ==> e == DecodeError::Incomplete,
{
    reveal(parse_be);
    lemma_be_value_bound(s.subrange(at, at + width));
}

pub proof fn lemma_parse_be_extends(s: Seq<u8>, t: Seq<u8>, at: int, width: nat)
    requires
        s.is_prefix_of(t),
        parse_be(s, at, width) is Ok,
    ensures
        parse_be(t, at, width) == parse_be(s, at, width),
{
    reveal(parse_be);
    assert(t.subrange(at, at + width) =~= s.subrange(at, at + width));
}

pub proof fn lemma_parse_bytes_extends(s: Seq<u8>, t: Seq<u8>, at: int, n: nat)
    requires
        s.is_prefix_of(t),
        parse_bytes(s, at, n) is Ok,
    ensures
        parse_bytes(t, at, n) == parse_bytes(s, at, n),
{
    assert(t.subrange(at, at + n) =~= s.subrange(at, at + n));
}

pub struct Cursor<'a> {
    data: &'a [u8],
    pos: usize,
}

impl<'a> Cursor<'a> {
    #[verifier::type_invariant]
    spec fn in_bounds(self) -> bool {
        self.pos <= self.data@.len()
    }

    /// The bytes under the cursor, those already read included.
    pub closed spec fn content(&self) -> Seq<u8> {
        self.data@
    }

    /// How many bytes have been read.
    pub closed spec fn offset(&self) -> int {
        self.pos as int
    }

    pub fn new(data: &'a [u8]) -> (c: Self)
        ensures
            c.content() == data@,
            c.offset() == 0,
    {
        Cursor { data, pos: 0 }
    }

    pub fn position(&self) -> (p: usize)
        ensures
            p == self.offset(),
            p <= self.content().len(),
    {
        proof {
            use_type_invariant(self);
        }
        self.pos
    }

    /// Moves the cursor to `pos`, which lies inside the bytes or at their end.
    pub fn set_position(&mut self, pos: usize)
        requires
            pos <= old(self).content().len(),
        ensures
            final(self).content() == old(self).content(),
            final(self).offset() == pos,
    {
        self.pos = pos;
    }

    pub fn remaining(&self) -> (n: usize)
        ensures
            n == self.content().len() - self.offset(),
    {
        proof {
            use_type_invariant(self);
        }
        self.data.len() - self.pos
    }

    pub fn has_remaining(&self) -> (b: bool)
        ensures
            b == (self.offset() < self.content().len()),
    {
        proof {
            use_type_invariant(self);
        }
        self.pos < self.data.len()
    }

    /// Reads `width` bytes as one network-order number. Where fewer remain the
    /// cursor stays where it is.
    pub fn get_be(&mut self, width: usize) -> (r: Result<u128, DecodeError>)
        requires
            width <= 16,
        ensures
            final(self).content() == old(self).content(),
            old(self).offset() <= final(self).offset() <= old(self).content().len(),
            match r {
                Ok(v) => parse_be(old(self).content(), old(self).offset(), width as nat) == Ok::<
                    (nat, int),
                    DecodeError,
                >((v as nat, final(self).offset())),
                Err(e) => e == DecodeError::Incomplete && parse_be(
                    old(self).content(),
                    old(self).offset(),
                    width as nat,
                ) == Err::<(nat, int), DecodeError>(e) && final(self).offset() == old(
                    self,
                ).offset(),
            },
    {
        proof {
            use_type_invariant(&*self);
            reveal(parse_be);
        }
        if self.data.len() - self.pos < width {
            Err(DecodeError::Incomplete)
        } else {
            let v: u128 = be_read(self.data, self.pos, width);
            self.pos = self.pos + width;
            Ok(v)
        }
    }

    /// Copies the next `n` bytes out. Where fewer remain the cursor stays where it is.
    pub fn read_exact(&mut self, n: u64) -> (r: Result<Vec<u8>, DecodeError>)
        ensures
            final(self).content() == old(self).content(),
            old(self).offset() <= final(self).offset() <= old(self).content().len(),
            match r {
                Ok(v) => parse_bytes(old(self).content(), old(self).offset(), n as nat) == Ok::<
                    (Seq<u8>, int),
                    DecodeError,
                >((v@, final(self).offset())),
                Err(e) => e == DecodeError::Incomplete && parse_bytes(
                    old(self).content(),
                    old(self).offset(),
                    n as nat,
                ) == Err::<(Seq<u8>, int), DecodeError>(e) && final(self).offset() == old(
                    self,
                ).offset(),
            },
    {
        proof {
            use_type_invariant(&*self);
        }
        let left: usize = self.data.len() - self.pos;
        if (left as u64) < n {
            Err(DecodeError::Incomplete)
        } else {
            let count: usize = n as usize;
            let part = slice_subrange(self.data, self.pos, self.pos + count);
            let v = slice_to_vec(part);
            self.pos = self.pos + count;
            Ok(v)
        }
    }
}

} // verus!
