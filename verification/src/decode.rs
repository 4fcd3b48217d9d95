//! Decoding: the error type, the reader's contract and the specification of a parse.
use vstd::prelude::*;
use vstd::string::StringExecFns;

use crate::big_endian::{be_value, from_twos_complement, lemma_pow256_values};
use crate::cursor::{lemma_parse_be_extends, lemma_parse_be_shape, parse_be, Cursor};
use crate::log_files::{decimal_text, push_decimal};
use crate::model::Model;
use crate::utils::{hex_text, push_hex};

verus! {

/// Why a row of bytes is no valid encoding, however many bytes may still follow.
#[derive(Debug, Clone, Copy, PartialEq, Eq)]
pub enum Fault {
    /// A boolean byte other than 0 and 1.
    InvalidBool(u8),
    /// String bytes that are not UTF-8.
    InvalidUtf8,
    /// A flag field with bits that have no meaning.
    UnknownBits(u32),
    /// A negative length where the encoding has no null.
    NegativeLength,
    /// A compact length of zero where the encoding has no null.
    ZeroLength,
    /// A request for an API that the server does not speak.
    UnknownApiKey(i16),
}

#[derive(Debug, Clone, Copy, PartialEq, Eq)]
pub enum DecodeError {
    /// The bytes end before the value does; more input may complete it.
    Incomplete,
    /// The bytes cannot be completed to a value.
    Other(Fault),
}

pub type DecodeResult<T> = Result<T, DecodeError>;

/// What an error says in words.
pub open spec fn message_text(e: DecodeError) -> Seq<char> {
    match e {
        DecodeError::Incomplete => "stream ended early"@,
        DecodeError::Other(Fault::InvalidBool(byte)) => "Found "@ + decimal_text(byte as int)
            + " when decoding bool"@,
        DecodeError::Other(Fault::InvalidUtf8) => "invalid utf-8 sequence"@,
        DecodeError::Other(Fault::UnknownBits(bits)) => "flags contain unknown bits: 0x"@
            + hex_text(bits as nat),
        DecodeError::Other(Fault::NegativeLength) => "length cannot be smaller than 0"@,
        DecodeError::Other(Fault::ZeroLength) => "length must be bigger than 0"@,
        DecodeError::Other(Fault::UnknownApiKey(key)) => "Unknown request api key: "@
            + decimal_text(key as int),
    }
}

impl DecodeError {
    /// The error in words.
    pub fn message(&self) -> (text: String)
        ensures
            text@ == message_text(*self),
    {
        match self {
            DecodeError::Incomplete => String::from_str("stream ended early"),
            DecodeError::Other(Fault::InvalidBool(byte)) => {
                let mut text = String::from_str("Found ");
                push_decimal(&mut text, *byte as i32);
                text.append(" when decoding bool");
                text
            },
            DecodeError::Other(Fault::InvalidUtf8) => String::from_str("invalid utf-8 sequence"),
            DecodeError::Other(Fault::UnknownBits(bits)) => {
                let mut text = String::from_str("flags contain unknown bits: 0x");
                push_hex(&mut text, *bits as usize);
                text
            },
            DecodeError::Other(Fault::NegativeLength) => String::from_str(
                "length cannot be smaller than 0",
            ),
            DecodeError::Other(Fault::ZeroLength) => String::from_str(
                "length must be bigger than 0",
            ),
            DecodeError::Other(Fault::UnknownApiKey(key)) => {
                let mut text = String::from_str("Unknown request api key: ");
                push_decimal(&mut text, *key as i32);
                text
            },
        }
    }
}

/// The outcome of a parse in specifications: the value and the offset just
/// behind it, or the reason why there is none.
pub type Parsed<V> = Result<(V, int), DecodeError>;

/// The offset behind a successful parse.
pub open spec fn end_of<V>(r: Parsed<V>) -> int {
    match r {
        Ok((_, end)) => end,
        Err(_) => 0,
    }
}

/// The value of a successful parse.
pub open spec fn value_of<V>(r: Parsed<V>) -> V {
    match r {
        Ok((v, _)) => v,
        Err(_) => arbitrary(),
    }
}

/// The reason of a failed parse.
pub open spec fn error_of<V>(r: Parsed<V>) -> DecodeError {
    match r {
        Ok(_) => DecodeError::Incomplete,
        Err(e) => e,
    }
}

/// `w` stands in `s` at offset `at`.
#[verifier::opaque]
pub open spec fn holds_at(s: Seq<u8>, at: int, w: Seq<u8>) -> bool {
    &&& 0 <= at
    &&& at + w.len() <= s.len()
    &&& s.subrange(at, at + w.len()) == w
}

pub proof fn lemma_holds_at_split(s: Seq<u8>, at: int, a: Seq<u8>, b: Seq<u8>)
    ensures
        holds_at(s, at, a + b) <==> holds_at(s, at, a) && holds_at(s, at + a.len(), b),
{
    reveal(holds_at);
    if holds_at(s, at, a + b) {
        assert(s.subrange(at, at + a.len()) =~= (a + b).subrange(0, a.len() as int));
        assert((a + b).subrange(0, a.len() as int) =~= a);
        assert(s.subrange(at + a.len(), at + a.len() + b.len()) =~= (a + b).subrange(
            a.len() as int,
            (a + b).len() as int,
        ));
        assert((a + b).subrange(a.len() as int, (a + b).len() as int) =~= b);
    }
    if holds_at(s, at, a) && holds_at(s, at + a.len(), b) {
        assert(s.subrange(at, at + (a + b).len()) =~= s.subrange(at, at + a.len()) + s.subrange(
            at + a.len(),
            at + a.len() + b.len(),
        ));
    }
}

/// Where `front` and `w` stand one behind the other at `at`, each stands in its place.
pub proof fn lemma_holds_at_last(s: Seq<u8>, at: int, front: Seq<u8>, w: Seq<u8>)
    requires
        holds_at(s, at, front + w),
    ensures
        holds_at(s, at, front),
        holds_at(s, at + front.len(), w),
        (front + w).len() == front.len() + w.len(),
{
    lemma_holds_at_split(s, at, front, w);
}

/// A type that can be read from the wire.
pub trait Decode: Model {
    /// What the bytes of `s` from offset `at` on decode to.
    spec fn parse(s: Seq<u8>, at: int) -> Parsed<Self::M>;

    /// A successful parse ends inside the input, at or behind its start.
    proof fn lemma_parse_in_bounds(s: Seq<u8>, at: int)
        ensures
            Self::parse(s, at) matches Ok((_, next)) ==> 0 <= at <= next <= s.len(),
    ;

    /// More input behind it changes neither a successful parse nor a fatal one.
    proof fn lemma_parse_extends(s: Seq<u8>, t: Seq<u8>, at: int)
        requires
            s.is_prefix_of(t),
        ensures
            !(Self::parse(s, at) matches Err(DecodeError::Incomplete)) ==> Self::parse(t, at)
                == Self::parse(s, at),
    ;

    /// Reads one value at the cursor. On success the cursor stands just behind
    /// the value. On failure it stands where the reading stopped, not
    /// before its start. The bytes under the cursor never change.
    fn decode(buffer: &mut Cursor) -> (r: DecodeResult<Self>)
        ensures
            final(buffer).content() == old(buffer).content(),
            old(buffer).offset() <= final(buffer).offset() <= old(buffer).content().len(),
            match r {
                Ok(v) => Self::parse(old(buffer).content(), old(buffer).offset()) == Ok::<
                    (Self::M, int),
                    DecodeError,
                >((v.model(), final(buffer).offset())),
                Err(e) => Self::parse(old(buffer).content(), old(buffer).offset()) == Err::<
                    (Self::M, int),
                    DecodeError,
                >(e),
            },
    ;
}

impl Decode for u8 {
    open spec fn parse(s: Seq<u8>, at: int) -> Parsed<u8> {
        match parse_be(s, at, 1) {
            Ok((v, next)) => Ok((v as u8, next)),
            Err(e) => Err(e),
        }
    }

    proof fn lemma_parse_in_bounds(s: Seq<u8>, at: int) {
        lemma_parse_be_shape(s, at, 1);
    }

    proof fn lemma_parse_extends(s: Seq<u8>, t: Seq<u8>, at: int) {
        lemma_parse_be_shape(s, at, 1);
        if parse_be(s, at, 1) is Ok {
            lemma_parse_be_extends(s, t, at, 1);
        }
    }

    /// Where fewer bytes remain than the number takes, the cursor stays where it is.
    fn decode(buffer: &mut Cursor) -> (r: DecodeResult<Self>)
        ensures
            r is Err ==> final(buffer).offset() == old(buffer).offset(),
    {
        match buffer.get_be(1) {
            Ok(v) => {
                proof {
                    lemma_parse_be_shape(old(buffer).content(), old(buffer).offset(), 1);
                    lemma_pow256_values();
                }
                Ok(v as u8)
            },
            Err(e) => Err(e),
        }
    }
}

impl Decode for u16 {
    open spec fn parse(s: Seq<u8>, at: int) -> Parsed<u16> {
        match parse_be(s, at, 2) {
            Ok((v, next)) => Ok((v as u16, next)),
            Err(e) => Err(e),
        }
    }

    proof fn lemma_parse_in_bounds(s: Seq<u8>, at: int) {
        lemma_parse_be_shape(s, at, 2);
    }

    proof fn lemma_parse_extends(s: Seq<u8>, t: Seq<u8>, at: int) {
        lemma_parse_be_shape(s, at, 2);
        if parse_be(s, at, 2) is Ok {
            lemma_parse_be_extends(s, t, at, 2);
        }
    }

    /// Where fewer bytes remain than the number takes, the cursor stays where it is.
    fn decode(buffer: &mut Cursor) -> (r: DecodeResult<Self>)
        ensures
            r is Err ==> final(buffer).offset() == old(buffer).offset(),
    {
        match buffer.get_be(2) {
            Ok(v) => {
                proof {
                    lemma_parse_be_shape(old(buffer).content(), old(buffer).offset(), 2);
                    lemma_pow256_values();
                }
                Ok(v as u16)
            },
            Err(e) => Err(e),
        }
    }
}

impl Decode for u32 {
    open spec fn parse(s: Seq<u8>, at: int) -> Parsed<u32> {
        match parse_be(s, at, 4) {
            Ok((v, next)) => Ok((v as u32, next)),
            Err(e) => Err(e),
        }
    }

    proof fn lemma_parse_in_bounds(s: Seq<u8>, at: int) {
        lemma_parse_be_shape(s, at, 4);
    }

    proof fn lemma_parse_extends(s: Seq<u8>, t: Seq<u8>, at: int) {
        lemma_parse_be_shape(s, at, 4);
        if parse_be(s, at, 4) is Ok {
            lemma_parse_be_extends(s, t, at, 4);
        }
    }

    /// Where fewer bytes remain than the number takes, the cursor stays where it is.
    fn decode(buffer: &mut Cursor) -> (r: DecodeResult<Self>)
        ensures
            r is Err ==> final(buffer).offset() == old(buffer).offset(),
    {
        match buffer.get_be(4) {
            Ok(v) => {
                proof {
                    lemma_parse_be_shape(old(buffer).content(), old(buffer).offset(), 4);
                    lemma_pow256_values();
                }
                Ok(v as u32)
            },
            Err(e) => Err(e),
        }
    }
}

impl Decode for u64 {
    open spec fn parse(s: Seq<u8>, at: int) -> Parsed<u64> {
        match parse_be(s, at, 8) {
            Ok((v, next)) => Ok((v as u64, next)),
            Err(e) => Err(e),
        }
    }

    proof fn lemma_parse_in_bounds(s: Seq<u8>, at: int) {
        lemma_parse_be_shape(s, at, 8);
    }

    proof fn lemma_parse_extends(s: Seq<u8>, t: Seq<u8>, at: int) {
        lemma_parse_be_shape(s, at, 8);
        if parse_be(s, at, 8) is Ok {
            lemma_parse_be_extends(s, t, at, 8);
        }
    }

    /// Where fewer bytes remain than the number takes, the cursor stays where it is.
    fn decode(buffer: &mut Cursor) -> (r: DecodeResult<Self>)
        ensures
            r is Err ==> final(buffer).offset() == old(buffer).offset(),
    {
        match buffer.get_be(8) {
            Ok(v) => {
                proof {
                    lemma_parse_be_shape(old(buffer).content(), old(buffer).offset(), 8);
                    lemma_pow256_values();
                }
                Ok(v as u64)
            },
            Err(e) => Err(e),
        }
    }
}

impl Decode for u128 {
    open spec fn parse(s: Seq<u8>, at: int) -> Parsed<u128> {
        match parse_be(s, at, 16) {
            Ok((v, next)) => Ok((v as u128, next)),
            Err(e) => Err(e),
        }
    }

    proof fn lemma_parse_in_bounds(s: Seq<u8>, at: int) {
        lemma_parse_be_shape(s, at, 16);
    }

    proof fn lemma_parse_extends(s: Seq<u8>, t: Seq<u8>, at: int) {
        lemma_parse_be_shape(s, at, 16);
        if parse_be(s, at, 16) is Ok {
            lemma_parse_be_extends(s, t, at, 16);
        }
    }

    /// Where fewer bytes remain than the number takes, the cursor stays where it is.
    fn decode(buffer: &mut Cursor) -> (r: DecodeResult<Self>)
        ensures
            r is Err ==> final(buffer).offset() == old(buffer).offset(),
    {
        match buffer.get_be(16) {
            Ok(v) => {
                proof {
                    lemma_parse_be_shape(old(buffer).content(), old(buffer).offset(), 16);
                    lemma_pow256_values();
                }
                Ok(v as u128)
            },
            Err(e) => Err(e),
        }
    }
}

impl Decode for i8 {
    open spec fn parse(s: Seq<u8>, at: int) -> Parsed<i8> {
        match parse_be(s, at, 1) {
            Ok((v, next)) => Ok((from_twos_complement(v, 1) as i8, next)),
            Err(e) => Err(e),
        }
    }

    proof fn lemma_parse_in_bounds(s: Seq<u8>, at: int) {
        lemma_parse_be_shape(s, at, 1);
    }

    proof fn lemma_parse_extends(s: Seq<u8>, t: Seq<u8>, at: int) {
        lemma_parse_be_shape(s, at, 1);
        if parse_be(s, at, 1) is Ok {
            lemma_parse_be_extends(s, t, at, 1);
        }
    }

    /// Where fewer bytes remain than the number takes, the cursor stays where it is.
    fn decode(buffer: &mut Cursor) -> (r: DecodeResult<Self>)
        ensures
            r is Err ==> final(buffer).offset() == old(buffer).offset(),
    {
        match buffer.get_be(1) {
            Ok(v) => {
                proof {
                    lemma_parse_be_shape(old(buffer).content(), old(buffer).offset(), 1);
                    lemma_pow256_values();
                }
                let x: i8 = if v < 0x80 {
                    v as i8
                } else {
                    (v as i128 - 0x100) as i8
                };
                Ok(x)
            },
            Err(e) => Err(e),
        }
    }
}

impl Decode for i16 {
    open spec fn parse(s: Seq<u8>, at: int) -> Parsed<i16> {
        match parse_be(s, at, 2) {
            Ok((v, next)) => Ok((from_twos_complement(v, 2) as i16, next)),
            Err(e) => Err(e),
        }
    }

    proof fn lemma_parse_in_bounds(s: Seq<u8>, at: int) {
        lemma_parse_be_shape(s, at, 2);
    }

    proof fn lemma_parse_extends(s: Seq<u8>, t: Seq<u8>, at: int) {
        lemma_parse_be_shape(s, at, 2);
        if parse_be(s, at, 2) is Ok {
            lemma_parse_be_extends(s, t, at, 2);
        }
    }

    /// Where fewer bytes remain than the number takes, the cursor stays where it is.
    fn decode(buffer: &mut Cursor) -> (r: DecodeResult<Self>)
        ensures
            r is Err ==> final(buffer).offset() == old(buffer).offset(),
    {
        match buffer.get_be(2) {
            Ok(v) => {
                proof {
                    lemma_parse_be_shape(old(buffer).content(), old(buffer).offset(), 2);
                    lemma_pow256_values();
                }
                let x: i16 = if v < 0x8000 {
                    v as i16
                } else {
                    (v as i128 - 0x1_0000) as i16
                };
                Ok(x)
            },
            Err(e) => Err(e),
        }
    }
}

impl Decode for i32 {
    open spec fn parse(s: Seq<u8>, at: int) -> Parsed<i32> {
        match parse_be(s, at, 4) {
            Ok((v, next)) => Ok((from_twos_complement(v, 4) as i32, next)),
            Err(e) => Err(e),
        }
    }

    proof fn lemma_parse_in_bounds(s: Seq<u8>, at: int) {
        lemma_parse_be_shape(s, at, 4);
    }

    proof fn lemma_parse_extends(s: Seq<u8>, t: Seq<u8>, at: int) {
        lemma_parse_be_shape(s, at, 4);
        if parse_be(s, at, 4) is Ok {
            lemma_parse_be_extends(s, t, at, 4);
        }
    }

    /// Where fewer bytes remain than the number takes, the cursor stays where it is.
    fn decode(buffer: &mut Cursor) -> (r: DecodeResult<Self>)
        ensures
            r is Err ==> final(buffer).offset() == old(buffer).offset(),
    {
        match buffer.get_be(4) {
            Ok(v) => {
                proof {
                    lemma_parse_be_shape(old(buffer).content(), old(buffer).offset(), 4);
                    lemma_pow256_values();
                }
                let x: i32 = if v < 0x8000_0000 {
                    v as i32
                } else {
                    (v as i128 - 0x1_0000_0000) as i32
                };
                Ok(x)
            },
            Err(e) => Err(e),
        }
    }
}

impl Decode for i64 {
    open spec fn parse(s: Seq<u8>, at: int) -> Parsed<i64> {
        match parse_be(s, at, 8) {
            Ok((v, next)) => Ok((from_twos_complement(v, 8) as i64, next)),
            Err(e) => Err(e),
        }
    }

    proof fn lemma_parse_in_bounds(s: Seq<u8>, at: int) {
        lemma_parse_be_shape(s, at, 8);
    }

    proof fn lemma_parse_extends(s: Seq<u8>, t: Seq<u8>, at: int) {
        lemma_parse_be_shape(s, at, 8);
        if parse_be(s, at, 8) is Ok {
            lemma_parse_be_extends(s, t, at, 8);
        }
    }

    /// Where fewer bytes remain than the number takes, the cursor stays where it is.
    fn decode(buffer: &mut Cursor) -> (r: DecodeResult<Self>)
        ensures
            r is Err ==> final(buffer).offset() == old(buffer).offset(),
    {
        match buffer.get_be(8) {
            Ok(v) => {
                proof {
                    lemma_parse_be_shape(old(buffer).content(), old(buffer).offset(), 8);
                    lemma_pow256_values();
                }
                let x: i64 = if v < 0x8000_0000_0000_0000 {
                    v as i64
                } else {
                    (v as i128 - 0x1_0000_0000_0000_0000) as i64
                };
                Ok(x)
            },
            Err(e) => Err(e),
        }
    }
}

impl Decode for i128 {
    open spec fn parse(s: Seq<u8>, at: int) -> Parsed<i128> {
        match parse_be(s, at, 16) {
            Ok((v, next)) => Ok((from_twos_complement(v, 16) as i128, next)),
            Err(e) => Err(e),
        }
    }

    proof fn lemma_parse_in_bounds(s: Seq<u8>, at: int) {
        lemma_parse_be_shape(s, at, 16);
    }

    proof fn lemma_parse_extends(s: Seq<u8>, t: Seq<u8>, at: int) {
        lemma_parse_be_shape(s, at, 16);
        if parse_be(s, at, 16) is Ok {
            lemma_parse_be_extends(s, t, at, 16);
        }
    }

    /// Where fewer bytes remain than the number takes, the cursor stays where it is.
    fn decode(buffer: &mut Cursor) -> (r: DecodeResult<Self>)
        ensures
            r is Err ==> final(buffer).offset() == old(buffer).offset(),
    {
        match buffer.get_be(16) {
            Ok(v) => {
                proof {
                    lemma_parse_be_shape(old(buffer).content(), old(buffer).offset(), 16);
                    lemma_pow256_values();
                }
                let x: i128 = if v < 0x8000_0000_0000_0000_0000_0000_0000_0000 {
                    v as i128
                } else {
                    -((u128::MAX - v) as i128) - 1
                };
                Ok(x)
            },
            Err(e) => Err(e),
        }
    }
}

/// One byte reads as itself.
pub proof fn lemma_parse_u8(s: Seq<u8>, at: int)
    ensures
        u8::parse(s, at) == if 0 <= at < s.len() {
            Ok::<(u8, int), DecodeError>((s[at], at + 1))
        } else {
            Err::<(u8, int), DecodeError>(DecodeError::Incomplete)
        },
{
    reveal(parse_be);
    reveal_with_fuel(be_value, 2);
    if 0 <= at < s.len() {
        let one = s.subrange(at, at + 1);
        assert(one.drop_last() =~= Seq::<u8>::empty());
        assert(one.last() == s[at]);
    }
}

/// One signed byte reads as the two's complement of the byte.
pub proof fn lemma_parse_i8(s: Seq<u8>, at: int)
    ensures
        i8::parse(s, at) == if 0 <= at < s.len() {
            Ok::<(i8, int), DecodeError>(
                (if s[at] < 128 { s[at] as i8 } else { (s[at] - 256) as i8 }, at + 1),
            )
        } else {
            Err::<(i8, int), DecodeError>(DecodeError::Incomplete)
        },
{
    reveal(parse_be);
    reveal_with_fuel(be_value, 2);
    lemma_pow256_values();
    if 0 <= at < s.len() {
        let one = s.subrange(at, at + 1);
        assert(one.drop_last() =~= Seq::<u8>::empty());
        assert(one.last() == s[at]);
    }
}

impl Decode for bool {
    open spec fn parse(s: Seq<u8>, at: int) -> Parsed<bool> {
        match u8::parse(s, at) {
            Ok((v, next)) => if v == 0 {
                Ok((false, next))
            } else if v == 1 {
                Ok((true, next))
            } else {
                Err(DecodeError::Other(Fault::InvalidBool(v)))
            },
            Err(e) => Err(e),
        }
    }

    proof fn lemma_parse_in_bounds(s: Seq<u8>, at: int) {
        u8::lemma_parse_in_bounds(s, at);
    }

    proof fn lemma_parse_extends(s: Seq<u8>, t: Seq<u8>, at: int) {
        u8::lemma_parse_extends(s, t, at);
    }

    fn decode(buffer: &mut Cursor) -> (r: DecodeResult<Self>) {
        let v: u8 = u8::decode(buffer)?;
        if v == 0 {
            Ok(false)
        } else if v == 1 {
            Ok(true)
        } else {
            Err(DecodeError::Other(Fault::InvalidBool(v)))
        }
    }
}

} // verus!
