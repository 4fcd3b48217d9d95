//! Length prefixes: the three ways in which a container says how long it is,
//! and the byte strings that follow them.
use vstd::prelude::*;

use crate::big_endian::lemma_pow256_values;
use crate::codec::Codec;
use crate::cursor::{lemma_parse_be_shape, lemma_parse_bytes_extends, parse_bytes, Cursor};
use crate::decode::{
    holds_at, lemma_holds_at_split, Decode, DecodeError, DecodeResult, Parsed,
};
use crate::encode::Encode;
use crate::varint::{
    lemma_parse_varint_extends, lemma_parse_varint_round_trip, lemma_parse_varint_shape,
    lemma_varint_bytes_well_formed, lemma_varint_value_of_bytes, parse_varint, two_to_64,
    varint_bytes, varint_value, VarInt,
};

verus! {

/// How a container writes its length.
#[derive(Debug, Clone, Copy, PartialEq, Eq)]
pub enum Prefix {
    /// A signed 16-bit count; any negative count means null.
    Int16,
    /// A signed 32-bit count; any negative count means null.
    Int32,
    /// An unsigned variable-length integer holding the count plus one; zero means null.
    Compact,
}

/// The largest count that a prefix can hold.
pub open spec fn len_fits(kind: Prefix, n: nat) -> bool {
    match kind {
        Prefix::Int16 => n <= i16::MAX,
        Prefix::Int32 => n <= i32::MAX,
        Prefix::Compact => n < u64::MAX,
    }
}

/// The bytes of a prefix; `None` is the null container.
pub open spec fn wire_len(kind: Prefix, len: Option<nat>) -> Seq<u8> {
    match kind {
        Prefix::Int16 => match len {
            None => i16::wire(-1i16),
            Some(n) => i16::wire(n as i16),
        },
        Prefix::Int32 => match len {
            None => i32::wire(-1i32),
            Some(n) => i32::wire(n as i32),
        },
        Prefix::Compact => match len {
            None => varint_bytes(0),
            Some(n) => varint_bytes(n + 1),
        },
    }
}

/// The length that a prefix at offset `at` announces.
#[verifier::opaque]
pub open spec fn parse_len(kind: Prefix, s: Seq<u8>, at: int) -> Parsed<Option<nat>> {
    match kind {
        Prefix::Int16 => match i16::parse(s, at) {
            Ok((n, next)) => Ok((if n < 0 { None } else { Some(n as nat) }, next)),
            Err(e) => Err(e),
        },
        Prefix::Int32 => match i32::parse(s, at) {
            Ok((n, next)) => Ok((if n < 0 { None } else { Some(n as nat) }, next)),
            Err(e) => Err(e),
        },
        Prefix::Compact => match parse_varint(s, at) {
            Ok((w, next)) => {
                let n = varint_value(w) % two_to_64();
                Ok((if n == 0 { None } else { Some((n - 1) as nat) }, next))
            },
            Err(e) => Err(e),
        },
    }
}

pub open spec fn count_of(len: Option<usize>) -> Option<nat> {
    match len {
        None => None,
        Some(n) => Some(n as nat),
    }
}

pub open spec fn count_of_u64(len: Option<u64>) -> Option<nat> {
    match len {
        None => None,
        Some(n) => Some(n as nat),
    }
}

pub proof fn lemma_parse_len_in_bounds(kind: Prefix, s: Seq<u8>, at: int)
    ensures
        parse_len(kind, s, at) matches Ok((_, next)) ==> 0 <= at <= next <= s.len(),
        parse_len(kind, s, at) matches Err(e) ==> e == DecodeError::Incomplete,
{
    reveal(parse_len);
    i16::lemma_parse_in_bounds(s, at);
    i32::lemma_parse_in_bounds(s, at);
    lemma_parse_be_shape(s, at, 2);
    lemma_parse_be_shape(s, at, 4);
    lemma_parse_varint_shape(s, at);
}

pub proof fn lemma_parse_len_extends(kind: Prefix, s: Seq<u8>, t: Seq<u8>, at: int)
    requires
        s.is_prefix_of(t),
    ensures
        parse_len(kind, s, at) is Ok ==> parse_len(kind, t, at) == parse_len(kind, s, at),
{
    reveal(parse_len);
    i16::lemma_parse_extends(s, t, at);
    i32::lemma_parse_extends(s, t, at);
    lemma_parse_varint_extends(s, t, at);
}

/// Wherever a prefix stands, the parse reads the length it was written for.
pub proof fn lemma_parse_len_round_trip(kind: Prefix, len: Option<nat>, s: Seq<u8>, at: int)
    requires
        len matches Some(n) ==> len_fits(kind, n),
        holds_at(s, at, wire_len(kind, len)),
    ensures
        parse_len(kind, s, at) == Ok::<(Option<nat>, int), DecodeError>(
            (len, at + wire_len(kind, len).len()),
        ),
{
    reveal(parse_len);
    match kind {
        Prefix::Int16 => {
            let x: i16 = match len {
                None => -1i16,
                Some(n) => n as i16,
            };
            i16::lemma_round_trip(x, s, at);
        },
        Prefix::Int32 => {
            let x: i32 = match len {
                None => -1i32,
                Some(n) => n as i32,
            };
            i32::lemma_round_trip(x, s, at);
        },
        Prefix::Compact => {
            let n: nat = match len {
                None => 0,
                Some(n) => n + 1,
            };
            lemma_varint_bytes_well_formed(n);
            lemma_varint_value_of_bytes(n);
            lemma_parse_varint_round_trip(varint_bytes(n), s, at);
            vstd::arithmetic::div_mod::lemma_small_mod(n, two_to_64());
        },
    }
}

/// Writes the prefix of a container of `len` items, or of the null container.
pub fn put_len(kind: Prefix, len: Option<usize>) -> (out: Vec<u8>)
    requires
        len matches Some(n) ==> len_fits(kind, n as nat),
    ensures
        out@ == wire_len(kind, count_of(len)),
{
    match kind {
        Prefix::Int16 => {
            let x: i16 = match len {
                None => -1,
                Some(n) => n as i16,
            };
            x.encode()
        },
        Prefix::Int32 => {
            let x: i32 = match len {
                None => -1,
                Some(n) => n as i32,
            };
            x.encode()
        },
        Prefix::Compact => {
            let x: u64 = match len {
                None => 0,
                Some(n) => n as u64 + 1,
            };
            VarInt::from_u64(x).into_bytes()
        },
    }
}

/// Reads a prefix: the announced length, or `None` for the null container.
pub fn get_len(kind: Prefix, buffer: &mut Cursor) -> (r: DecodeResult<Option<u64>>)
    ensures
        final(buffer).content() == old(buffer).content(),
        old(buffer).offset() <= final(buffer).offset() <= old(buffer).content().len(),
        match r {
            Ok(len) => parse_len(kind, old(buffer).content(), old(buffer).offset()) == Ok::<
                (Option<nat>, int),
                DecodeError,
            >((count_of_u64(len), final(buffer).offset())),
            Err(e) => parse_len(kind, old(buffer).content(), old(buffer).offset()) == Err::<
                (Option<nat>, int),
                DecodeError,
            >(e),
        },
{
    proof {
        reveal(parse_len);
    }
    match kind {
        Prefix::Int16 => {
            let n: i16 = i16::decode(buffer)?;
            if n < 0 {
                Ok(None)
            } else {
                Ok(Some(n as u64))
            }
        },
        Prefix::Int32 => {
            let n: i32 = i32::decode(buffer)?;
            if n < 0 {
                Ok(None)
            } else {
                Ok(Some(n as u64))
            }
        },
        Prefix::Compact => {
            let n: u64 = VarInt::decode(buffer)?.as_u64();
            if n == 0 {
                Ok(None)
            } else {
                Ok(Some(n - 1))
            }
        },
    }
}

/// A byte string behind its prefix; `None` is the null string.
pub open spec fn wire_opt_bytes(kind: Prefix, v: Option<Seq<u8>>) -> Seq<u8> {
    match v {
        None => wire_len(kind, None),
        Some(b) => wire_len(kind, Some(b.len())) + b,
    }
}

/// The byte string that a prefix at offset `at` announces and the bytes behind it hold.
#[verifier::opaque]
pub open spec fn parse_opt_bytes(kind: Prefix, s: Seq<u8>, at: int) -> Parsed<Option<Seq<u8>>> {
    match parse_len(kind, s, at) {
        Ok((None, next)) => Ok((None, next)),
        Ok((Some(n), next)) => match parse_bytes(s, next, n) {
            Ok((b, end)) => Ok((Some(b), end)),
            Err(e) => Err(e),
        },
        Err(e) => Err(e),
    }
}

pub proof fn lemma_parse_opt_bytes_in_bounds(kind: Prefix, s: Seq<u8>, at: int)
    ensures
        parse_opt_bytes(kind, s, at) matches Ok((_, next)) ==> 0 <= at <= next <= s.len(),
        parse_opt_bytes(kind, s, at) matches Err(e) ==> e == DecodeError::Incomplete,
{
    reveal(parse_opt_bytes);
    lemma_parse_len_in_bounds(kind, s, at);
}

pub proof fn lemma_parse_opt_bytes_extends(kind: Prefix, s: Seq<u8>, t: Seq<u8>, at: int)
    requires
        s.is_prefix_of(t),
    ensures
        parse_opt_bytes(kind, s, at) is Ok ==> parse_opt_bytes(kind, t, at) == parse_opt_bytes(
            kind,
            s,
            at,
        ),
{
    reveal(parse_opt_bytes);
    lemma_parse_len_extends(kind, s, t, at);
    match parse_len(kind, s, at) {
        Ok((Some(n), next)) => {
            if parse_bytes(s, next, n) is Ok {
                lemma_parse_bytes_extends(s, t, next, n);
            }
        },
        _ => {},
    }
}

/// Wherever a prefixed byte string stands, the parse reads exactly it.
pub proof fn lemma_parse_opt_bytes_round_trip(
    kind: Prefix,
    v: Option<Seq<u8>>,
    s: Seq<u8>,
    at: int,
)
    requires
        v matches Some(b) ==> len_fits(kind, b.len()),
        holds_at(s, at, wire_opt_bytes(kind, v)),
    ensures
        parse_opt_bytes(kind, s, at) == Ok::<(Option<Seq<u8>>, int), DecodeError>(
            (v, at + wire_opt_bytes(kind, v).len()),
        ),
{
    reveal(parse_opt_bytes);
    match v {
        None => {
            lemma_parse_len_round_trip(kind, None, s, at);
        },
        Some(b) => {
            reveal(holds_at);
            let head = wire_len(kind, Some(b.len()));
            lemma_holds_at_split(s, at, head, b);
            lemma_parse_len_round_trip(kind, Some(b.len()), s, at);
        },
    }
}

/// Writes a byte string behind its prefix.
pub fn put_bytes(kind: Prefix, payload: &[u8]) -> (out: Vec<u8>)
    requires
        len_fits(kind, payload@.len()),
    ensures
        out@ == wire_opt_bytes(kind, Some(payload@)),
{
    let mut out = put_len(kind, Some(payload.len()));
    let ghost head = out@;
    out.extend_from_slice(payload);
    assert(out@ =~= head + payload@);
    out
}

/// Reads a prefixed byte string; `None` is the null string.
pub fn get_bytes(kind: Prefix, buffer: &mut Cursor) -> (r: DecodeResult<Option<Vec<u8>>>)
    ensures
        final(buffer).content() == old(buffer).content(),
        old(buffer).offset() <= final(buffer).offset() <= old(buffer).content().len(),
        match r {
            Ok(None) => parse_opt_bytes(kind, old(buffer).content(), old(buffer).offset())
                == Ok::<(Option<Seq<u8>>, int), DecodeError>((None, final(buffer).offset())),
            Ok(Some(b)) => parse_opt_bytes(kind, old(buffer).content(), old(buffer).offset())
                == Ok::<(Option<Seq<u8>>, int), DecodeError>((Some(b@), final(buffer).offset())),
            Err(e) => parse_opt_bytes(kind, old(buffer).content(), old(buffer).offset())
                == Err::<(Option<Seq<u8>>, int), DecodeError>(e),
        },
{
    proof {
        reveal(parse_opt_bytes);
    }
    match get_len(kind, buffer)? {
        None => Ok(None),
        Some(n) => {
            let bytes = buffer.read_exact(n)?;
            Ok(Some(bytes))
        },
    }
}

} // verus!
