//! Variable-length integers: little-endian groups of seven bits, the top bit
//! of each byte saying whether another byte follows, and the zig-zag mapping
//! that carries signed numbers in them.
use vstd::arithmetic::div_mod::{lemma_fundamental_div_mod, lemma_fundamental_div_mod_converse};
use vstd::prelude::*;

use crate::codec::Codec;
use crate::cursor::Cursor;
use crate::decode::{holds_at, lemma_parse_u8, Decode, DecodeError, DecodeResult, Parsed};
use crate::encode::Encode;
use crate::model::Model;

verus! {

/// The unsigned number that carries the signed `n`: 0, -1, 1, -2, ... become 0, 1, 2, 3, ...
pub open spec fn zigzag(n: int) -> nat {
    if n >= 0 {
        (2 * n) as nat
    } else {
        (-2 * n - 1) as nat
    }
}

/// The signed number that the unsigned `u` carries.
pub open spec fn unzigzag(u: nat) -> int {
    if u % 2 == 0 {
        u as int / 2
    } else {
        -(u as int / 2) - 1
    }
}

/// Zig-zag decoding undoes zig-zag encoding.
pub proof fn lemma_zigzag_round_trip(n: int)
    ensures
        unzigzag(zigzag(n)) == n,
{
}

/// Zig-zag encoding undoes zig-zag decoding.
pub proof fn lemma_unzigzag_round_trip(u: nat)
    ensures
        zigzag(unzigzag(u)) == u,
{
}

/// The bytes that carry `n`: seven bits a byte, least significant group
/// first, the top bit set on every byte but the last.
pub open spec fn varint_bytes(n: nat) -> Seq<u8>
    decreases n,
{
    if n < 128 {
        seq![n as u8]
    } else {
        seq![(n % 128 + 128) as u8] + varint_bytes(n / 128)
    }
}

/// The number that the low seven bits of each byte add up to, first byte least significant.
pub open spec fn varint_value(bytes: Seq<u8>) -> nat
    decreases bytes.len(),
{
    if bytes.len() == 0 {
        0
    } else {
        (bytes[0] % 128) as nat + 128 * varint_value(bytes.drop_first())
    }
}

/// A well-formed variable-length integer: at least one byte, the top bit
/// clear on the last and set on all others.
pub open spec fn is_varint(bytes: Seq<u8>) -> bool {
    &&& bytes.len() >= 1
    &&& bytes.last() < 128
    &&& forall|i: int| 0 <= i < bytes.len() - 1 ==> #[trigger] bytes[i] >= 128
}

/// The variable-length integer that starts at offset `at`: every byte up to
/// and including the first with a clear top bit.
pub open spec fn parse_varint(s: Seq<u8>, at: int) -> Parsed<Seq<u8>>
    decreases s.len() - at,
{
    if at < 0 || at >= s.len() {
        Err(DecodeError::Incomplete)
    } else if s[at] < 128 {
        Ok((seq![s[at]], at + 1))
    } else {
        match parse_varint(s, at + 1) {
            Ok((rest, end)) => Ok((seq![s[at]] + rest, end)),
            Err(e) => Err(e),
        }
    }
}

/// The number of binary digits of `n`; zero has none.
pub open spec fn bits_needed(n: nat) -> nat
    decreases n,
{
    if n == 0 {
        0
    } else {
        1 + bits_needed(n / 2)
    }
}

pub proof fn lemma_varint_bytes_well_formed(n: nat)
    ensures
        is_varint(varint_bytes(n)),
    decreases n,
{
    if n >= 128 {
        lemma_varint_bytes_well_formed(n / 128);
        let tail = varint_bytes(n / 128);
        let all = varint_bytes(n);
        assert(all.last() == tail.last());
        assert forall|i: int| 0 <= i < all.len() - 1 implies #[trigger] all[i] >= 128 by {
            if i > 0 {
                assert(all[i] == tail[i - 1]);
            }
        }
    }
}

/// The bytes written for `n` add up to `n` again.
pub proof fn lemma_varint_value_of_bytes(n: nat)
    ensures
        varint_value(varint_bytes(n)) == n,
    decreases n,
{
    if n < 128 {
        let b = varint_bytes(n);
        assert(b.drop_first() =~= Seq::<u8>::empty());
        assert(varint_value(b.drop_first()) == 0);
    } else {
        lemma_varint_value_of_bytes(n / 128);
        let b = varint_bytes(n);
        assert(b.drop_first() =~= varint_bytes(n / 128));
        assert(b[0] == (n % 128 + 128) as u8);
    }
}

/// A variable-length integer has one byte for every seven binary digits of
/// its number, and at least one.
pub proof fn lemma_varint_bytes_len(n: nat)
    ensures
        varint_bytes(n).len() == if n == 0 {
            1
        } else {
            (bits_needed(n) + 6) / 7
        },
    decreases n,
{
    if n < 128 {
        reveal_with_fuel(bits_needed, 8);
        if n > 0 {
            assert(1 <= bits_needed(n) <= 7);
        }
    } else {
        lemma_varint_bytes_len(n / 128);
        lemma_bits_needed_shift7(n);
    }
}

proof fn lemma_bits_needed_shift7(n: nat)
    requires
        n >= 128,
    ensures
        bits_needed(n) == 7 + bits_needed(n / 128),
{
    reveal_with_fuel(bits_needed, 8);
    assert(n / 2 / 2 / 2 / 2 / 2 / 2 / 2 == n / 128);
}

/// Bytes with the top bit set in front of a variable-length integer belong to it.
proof fn lemma_parse_varint_skip(s: Seq<u8>, at: int, pos: int)
    requires
        0 <= at <= pos <= s.len(),
        forall|i: int| at <= i < pos ==> #[trigger] s[i] >= 128,
    ensures
        parse_varint(s, at) == match parse_varint(s, pos) {
            Ok((rest, end)) => Ok::<(Seq<u8>, int), DecodeError>(
                (s.subrange(at, pos) + rest, end),
            ),
            Err(e) => Err(e),
        },
    decreases pos - at,
{
    if at == pos {
        match parse_varint(s, pos) {
            Ok((rest, end)) => {
                assert(s.subrange(at, pos) + rest =~= rest);
            },
            Err(e) => {},
        }
    } else {
        lemma_parse_varint_skip(s, at + 1, pos);
        assert(s[at] >= 128);
        match parse_varint(s, pos) {
            Ok((rest, end)) => {
                assert(seq![s[at]] + (s.subrange(at + 1, pos) + rest) =~= s.subrange(at, pos)
                    + rest);
            },
            Err(e) => {},
        }
    }
}

/// What a parse hands back is well formed and is the very bytes it passed over.
pub proof fn lemma_parse_varint_shape(s: Seq<u8>, at: int)
    ensures
        parse_varint(s, at) matches Ok((w, end)) ==> {
            &&& is_varint(w)
            &&& 0 <= at < end <= s.len()
            &&& w == s.subrange(at, end)
        },
        parse_varint(s, at) matches Err(e) ==> e == DecodeError::Incomplete,
    decreases s.len() - at,
{
    if at < 0 || at >= s.len() {
    } else if s[at] < 128 {
        assert(seq![s[at]] =~= s.subrange(at, at + 1));
    } else {
        lemma_parse_varint_shape(s, at + 1);
        match parse_varint(s, at + 1) {
            Ok((rest, end)) => {
                let w = seq![s[at]] + rest;
                assert(w =~= s.subrange(at, end));
                assert(w.last() == rest.last());
                assert forall|i: int| 0 <= i < w.len() - 1 implies #[trigger] w[i] >= 128 by {
                    if i > 0 {
                        assert(w[i] == rest[i - 1]);
                    }
                }
            },
            Err(e) => {},
        }
    }
}

pub proof fn lemma_parse_varint_extends(s: Seq<u8>, t: Seq<u8>, at: int)
    requires
        s.is_prefix_of(t),
    ensures
        parse_varint(s, at) is Ok ==> parse_varint(t, at) == parse_varint(s, at),
    decreases s.len() - at,
{
    if at < 0 || at >= s.len() {
    } else {
        assert(s[at] == t[at]);
        if s[at] >= 128 {
            lemma_parse_varint_extends(s, t, at + 1);
        }
    }
}

/// Wherever a well-formed variable-length integer stands, the parse finds exactly it.
pub proof fn lemma_parse_varint_round_trip(w: Seq<u8>, s: Seq<u8>, at: int)
    requires
        is_varint(w),
        holds_at(s, at, w),
    ensures
        parse_varint(s, at) == Ok::<(Seq<u8>, int), DecodeError>((w, at + w.len())),
{
    reveal(holds_at);
    let last = at + w.len() - 1;
    assert forall|i: int| at <= i < last implies #[trigger] s[i] >= 128 by {
        assert(s[i] == s.subrange(at, at + w.len())[i - at]);
        assert(w[i - at] >= 128);
    }
    assert(s[last] == s.subrange(at, at + w.len())[last - at]);
    lemma_parse_varint_skip(s, at, last);
    assert(s.subrange(at, last) + seq![s[last]] =~= w);
}

/// 2 to the 64th and 128th power.
pub open spec fn two_to_64() -> nat {
    (u64::MAX + 1) as nat
}

pub open spec fn two_to_128() -> nat {
    (u128::MAX + 1) as nat
}

/// Shifting seven bits up and keeping `bits` bits: `(128 * v + p) mod (128 * m)`.
proof fn lemma_shift_in_group(v: nat, p: nat, m: nat)
    requires
        m > 0,
        p < 128,
    ensures
        (128 * v + p) % (128 * m) == 128 * (v % m) + p,
        (v % (128 * m)) % m == v % m,
{
    lemma_fundamental_div_mod(v as int, m as int);
    let q = v as int / m as int;
    let r = v as int % m as int;
    assert(128 * v + p == (128 * m) * q + (128 * r + p)) by (nonlinear_arith)
        requires
            v == m * q + r,
    ;
    assert(0 <= 128 * r + p < 128 * m) by (nonlinear_arith)
        requires
            0 <= r < m,
            0 <= p < 128,
    ;
    lemma_fundamental_div_mod_converse(
        (128 * v + p) as int,
        (128 * m) as int,
        q,
        (128 * r + p) as int,
    );
    lemma_fundamental_div_mod(v as int, (128 * m) as int);
    let q2 = v as int / (128 * m) as int;
    let r2 = v as int % (128 * m) as int;
    lemma_fundamental_div_mod(r2, m as int);
    let q3 = r2 / m as int;
    let r3 = r2 % m as int;
    assert(v == m * (128 * q2 + q3) + r3) by (nonlinear_arith)
        requires
            v == (128 * m) * q2 + r2,
            r2 == m * q3 + r3,
    ;
    lemma_fundamental_div_mod_converse(v as int, m as int, 128 * q2 + q3, r3);
}

#[derive(Debug, Clone, Default, PartialEq, Eq, Hash)]
pub struct VarInt {
    bytes: Vec<u8>,
}

impl Model for VarInt {
    type M = Seq<u8>;

    closed spec fn model(&self) -> Seq<u8> {
        self.bytes@
    }

    fn duplicate(&self) -> (r: Self) {
        VarInt { bytes: self.bytes.clone() }
    }
}

pub fn zigzag_encode_64bit(n: i64) -> (u: u64)
    ensures
        u == zigzag(n as int),
{
    if n >= 0 {
        (n as u64) * 2
    } else {
        ((-(n + 1)) as u64) * 2 + 1
    }
}

pub fn zigzag_decode_64bit(u: u64) -> (n: i64)
    ensures
        n == unzigzag(u as nat),
{
    if u % 2 == 0 {
        (u / 2) as i64
    } else {
        -((u / 2) as i64) - 1
    }
}

impl VarInt {
    pub fn new(inner: Vec<u8>) -> (r: Self)
        ensures
            r.model() == inner@,
    {
        Self { bytes: inner }
    }

    pub fn from_u64(n: u64) -> (r: Self)
        ensures
            r.model() == varint_bytes(n as nat),
    {
        let mut bytes: Vec<u8> = Vec::new();
        let mut rest: u64 = n;
        while rest >= 128
            invariant
                varint_bytes(n as nat) == bytes@ + varint_bytes(rest as nat),
            decreases rest,
        {
            let byte: u8 = (rest % 128 + 128) as u8;
            proof {
                assert((bytes@.push(byte)) + varint_bytes((rest / 128) as nat) =~= bytes@ + (
                seq![byte] + varint_bytes((rest / 128) as nat)));
            }
            bytes.push(byte);
            rest = rest / 128;
        }
        proof {
            assert(bytes@.push(rest as u8) =~= bytes@ + varint_bytes(rest as nat));
        }
        bytes.push(rest as u8);
        VarInt::new(bytes)
    }

    pub fn from_i64(n: i64) -> (r: Self)
        ensures
            r.model() == varint_bytes(zigzag(n as int)),
    {
        let u: u64 = zigzag_encode_64bit(n);
        VarInt::from_u64(u)
    }

    /// The number that the bytes carry, as far as it fits in 64 bits.
    pub fn as_u64(&self) -> (n: u64)
        ensures
            n == varint_value(self.model()) % two_to_64(),
    {
        let mut n: u64 = 0;
        let mut i: usize = self.bytes.len();
        proof {
            assert(self.bytes@.subrange(i as int, self.bytes@.len() as int) =~= Seq::<u8>::empty());
            assert(varint_value(Seq::<u8>::empty()) == 0);
            assert(0nat % two_to_64() == 0);
        }
        while i > 0
            invariant
                i <= self.bytes@.len(),
                n == varint_value(self.bytes@.subrange(i as int, self.bytes@.len() as int))
                    % two_to_64(),
            decreases i,
        {
            i = i - 1;
            let payload: u8 = self.bytes[i] % 128;
            proof {
                let len = self.bytes@.len() as int;
                let tail = self.bytes@.subrange(i + 1, len);
                let here = self.bytes@.subrange(i as int, len);
                assert(here.drop_first() =~= tail);
                assert(here[0] == self.bytes@[i as int]);
                lemma_shift_in_group(varint_value(tail), payload as nat, 0x200_0000_0000_0000);
            }
            n = (n % 0x200_0000_0000_0000) * 128 + payload as u64;
        }
        proof {
            assert(self.bytes@.subrange(0, self.bytes@.len() as int) =~= self.bytes@);
        }
        n
    }

    pub fn as_i64(&self) -> (n: i64)
        ensures
            n == unzigzag(varint_value(self.model()) % two_to_64()),
    {
        let u: u64 = self.as_u64();
        zigzag_decode_64bit(u)
    }

    pub fn as_bytes(&self) -> (r: &Vec<u8>)
        ensures
            r@ == self.model(),
    {
        &self.bytes
    }

    pub fn into_bytes(self) -> (r: Vec<u8>)
        ensures
            r@ == self.model(),
    {
        self.bytes
    }
}

/// Reads the bytes of one variable-length integer at the cursor.
fn read_varint(buffer: &mut Cursor) -> (r: DecodeResult<Vec<u8>>)
    ensures
        final(buffer).content() == old(buffer).content(),
        old(buffer).offset() <= final(buffer).offset() <= old(buffer).content().len(),
        match r {
            Ok(v) => parse_varint(old(buffer).content(), old(buffer).offset()) == Ok::<
                (Seq<u8>, int),
                DecodeError,
            >((v@, final(buffer).offset())),
            Err(e) => parse_varint(old(buffer).content(), old(buffer).offset()) == Err::<
                (Seq<u8>, int),
                DecodeError,
            >(e),
        },
{
    let ghost s = buffer.content();
    let ghost at = buffer.offset();
    let start: usize = buffer.position();
    let mut bytes: Vec<u8> = Vec::new();
    loop
        invariant
            buffer.content() == s,
            s == old(buffer).content(),
            at == start == old(buffer).offset(),
            at <= buffer.offset() <= s.len(),
            bytes@ == s.subrange(at, buffer.offset()),
            forall|i: int| at <= i < buffer.offset() ==> #[trigger] s[i] >= 128,
        decreases s.len() - buffer.offset(),
    {
        let ghost pos = buffer.offset();
        proof {
            lemma_parse_varint_skip(s, at, pos);
        }
        match u8::decode(buffer) {
            Err(e) => {
                proof {
                    lemma_parse_u8(s, pos);
                }
                return Err(e);
            },
            Ok(byte) => {
                proof {
                    lemma_parse_u8(s, pos);
                    assert(byte == s[pos]);
                    assert(bytes@.push(byte) =~= s.subrange(at, pos + 1));
                }
                bytes.push(byte);
                if byte < 128 {
                    proof {
                        assert(s.subrange(at, pos) + seq![byte] =~= bytes@);
                    }
                    return Ok(bytes);
                }
            },
        }
    }
}

impl Encode for VarInt {
    open spec fn wire(v: Seq<u8>) -> Seq<u8> {
        v
    }

    open spec fn encodable(v: Seq<u8>) -> bool {
        true
    }

    fn is_encodable(&self) -> (b: bool) {
        true
    }

    fn encode(&self) -> (out: Vec<u8>) {
        self.bytes.clone()
    }
}

impl Decode for VarInt {
    open spec fn parse(s: Seq<u8>, at: int) -> Parsed<Seq<u8>> {
        parse_varint(s, at)
    }

    proof fn lemma_parse_in_bounds(s: Seq<u8>, at: int) {
        lemma_parse_varint_shape(s, at);
    }

    proof fn lemma_parse_extends(s: Seq<u8>, t: Seq<u8>, at: int) {
        lemma_parse_varint_shape(s, at);
        lemma_parse_varint_extends(s, t, at);
    }

    fn decode(buffer: &mut Cursor) -> (r: DecodeResult<Self>) {
        match read_varint(buffer) {
            Ok(bytes) => {
                let v = VarInt { bytes };
                assert(v.model() == bytes@);
                assert(VarInt::parse(old(buffer).content(), old(buffer).offset()) == Ok::<
                    (Seq<u8>, int),
                    DecodeError,
                >((v.model(), buffer.offset())));
                Ok(v)
            },
            Err(e) => {
                assert(VarInt::parse(old(buffer).content(), old(buffer).offset()) == Err::<
                    (Seq<u8>, int),
                    DecodeError,
                >(e));
                Err(e)
            },
        }
    }
}

impl Codec for VarInt {
    open spec fn canonical(v: Seq<u8>) -> bool {
        is_varint(v)
    }

    proof fn lemma_round_trip(v: Seq<u8>, s: Seq<u8>, at: int) {
        lemma_parse_varint_round_trip(v, s, at);
    }
}

#[derive(Debug, Clone, Default, PartialEq, Eq, Hash)]
pub struct VarLong {
    bytes: Vec<u8>,
}

impl Model for VarLong {
    type M = Seq<u8>;

    closed spec fn model(&self) -> Seq<u8> {
        self.bytes@
    }

    fn duplicate(&self) -> (r: Self) {
        VarLong { bytes: self.bytes.clone() }
    }
}

pub fn zigzag_encode_128bit(n: i128) -> (u: u128)
    ensures
        u == zigzag(n as int),
{
    if n >= 0 {
        (n as u128) * 2
    } else {
        ((-(n + 1)) as u128) * 2 + 1
    }
}

pub fn zigzag_decode_128bit(u: u128) -> (n: i128)
    ensures
        n == unzigzag(u as nat),
{
    if u % 2 == 0 {
        (u / 2) as i128
    } else {
        -((u / 2) as i128) - 1
    }
}

impl VarLong {
    pub fn new(inner: Vec<u8>) -> (r: Self)
        ensures
            r.model() == inner@,
    {
        Self { bytes: inner }
    }

    pub fn from_u128(n: u128) -> (r: Self)
        ensures
            r.model() == varint_bytes(n as nat),
    {
        let mut bytes: Vec<u8> = Vec::new();
        let mut rest: u128 = n;
        while rest >= 128
            invariant
                varint_bytes(n as nat) == bytes@ + varint_bytes(rest as nat),
            decreases rest,
        {
            let byte: u8 = (rest % 128 + 128) as u8;
            proof {
                assert((bytes@.push(byte)) + varint_bytes((rest / 128) as nat) =~= bytes@ + (
                seq![byte] + varint_bytes((rest / 128) as nat)));
            }
            bytes.push(byte);
            rest = rest / 128;
        }
        proof {
            assert(bytes@.push(rest as u8) =~= bytes@ + varint_bytes(rest as nat));
        }
        bytes.push(rest as u8);
        VarLong::new(bytes)
    }

    pub fn from_i128(n: i128) -> (r: Self)
        ensures
            r.model() == varint_bytes(zigzag(n as int)),
    {
        let u: u128 = zigzag_encode_128bit(n);
        VarLong::from_u128(u)
    }

    /// The number that the bytes carry, as far as it fits in 128 bits.
    pub fn as_u128(&self) -> (n: u128)
        ensures
            n == varint_value(self.model()) % two_to_128(),
    {
        let mut n: u128 = 0;
        let mut i: usize = self.bytes.len();
        proof {
            assert(self.bytes@.subrange(i as int, self.bytes@.len() as int) =~= Seq::<u8>::empty());
            assert(varint_value(Seq::<u8>::empty()) == 0);
            assert(0nat % two_to_128() == 0);
        }
        while i > 0
            invariant
                i <= self.bytes@.len(),
                n == varint_value(self.bytes@.subrange(i as int, self.bytes@.len() as int))
                    % two_to_128(),
            decreases i,
        {
            i = i - 1;
            let payload: u8 = self.bytes[i] % 128;
            proof {
                let len = self.bytes@.len() as int;
                let tail = self.bytes@.subrange(i + 1, len);
                let here = self.bytes@.subrange(i as int, len);
                assert(here.drop_first() =~= tail);
                assert(here[0] == self.bytes@[i as int]);
                lemma_shift_in_group(varint_value(tail), payload as nat, 0x200_0000_0000_0000_0000_0000_0000_0000);
            }
            n = (n % 0x200_0000_0000_0000_0000_0000_0000_0000) * 128 + payload as u128;
        }
        proof {
            assert(self.bytes@.subrange(0, self.bytes@.len() as int) =~= self.bytes@);
        }
        n
    }

    pub fn as_i128(&self) -> (n: i128)
        ensures
            n == unzigzag(varint_value(self.model()) % two_to_128()),
    {
        let u: u128 = self.as_u128();
        zigzag_decode_128bit(u)
    }

    pub fn as_bytes(&self) -> (r: &Vec<u8>)
        ensures
            r@ == self.model(),
    {
        &self.bytes
    }

    pub fn into_bytes(self) -> (r: Vec<u8>)
        ensures
            r@ == self.model(),
    {
        self.bytes
    }
}

impl Encode for VarLong {
    open spec fn wire(v: Seq<u8>) -> Seq<u8> {
        v
    }

    open spec fn encodable(v: Seq<u8>) -> bool {
        true
    }

    fn is_encodable(&self) -> (b: bool) {
        true
    }

    fn encode(&self) -> (out: Vec<u8>) {
        self.bytes.clone()
    }
}

impl Decode for VarLong {
    open spec fn parse(s: Seq<u8>, at: int) -> Parsed<Seq<u8>> {
        parse_varint(s, at)
    }

    proof fn lemma_parse_in_bounds(s: Seq<u8>, at: int) {
        lemma_parse_varint_shape(s, at);
    }

    proof fn lemma_parse_extends(s: Seq<u8>, t: Seq<u8>, at: int) {
        lemma_parse_varint_shape(s, at);
        lemma_parse_varint_extends(s, t, at);
    }

    fn decode(buffer: &mut Cursor) -> (r: DecodeResult<Self>) {
        match read_varint(buffer) {
            Ok(bytes) => {
                let v = VarLong { bytes };
                assert(v.model() == bytes@);
                assert(parse_varint(old(buffer).content(), old(buffer).offset()) == Ok::<
                    (Seq<u8>, int),
                    DecodeError,
                >((v.model(), buffer.offset())));
                Ok(v)
            },
            Err(e) => Err(e),
        }
    }
}

impl Codec for VarLong {
    open spec fn canonical(v: Seq<u8>) -> bool {
        is_varint(v)
    }

    proof fn lemma_round_trip(v: Seq<u8>, s: Seq<u8>, at: int) {
        lemma_parse_varint_round_trip(v, s, at);
    }
}

/// The lengths of the variable-length integers of `m - 1` and `m` differ
/// only where `m` is a power of 128.
pub open spec fn is_power_of_128(m: nat) -> bool
    decreases m,
{
    m >= 128 && (m == 128 || (m % 128 == 0 && is_power_of_128(m / 128)))
}

proof fn lemma_varint_len_of_predecessor(m: nat)
    requires
        m >= 1,
        !is_power_of_128(m),
    ensures
        varint_bytes((m - 1) as nat).len() == varint_bytes(m).len(),
    decreases m,
{
    if m > 128 {
        if m % 128 == 0 {
            assert(((m - 1) as nat) / 128 == (m / 128 - 1) as nat);
            lemma_varint_len_of_predecessor(m / 128);
        } else {
            assert(((m - 1) as nat) / 128 == m / 128);
        }
    }
}

/// A signed number written as a variable-length integer reads back as itself.
pub proof fn lemma_signed_varint_round_trip(n: i64)
    ensures
        unzigzag(varint_value(varint_bytes(zigzag(n as int))) % two_to_64()) == n,
{
    lemma_varint_value_of_bytes(zigzag(n as int));
    vstd::arithmetic::div_mod::lemma_small_mod(zigzag(n as int), two_to_64());
}

/// A signed number takes one byte for every seven binary digits of its
/// zig-zag image, and at least one byte.
pub proof fn lemma_signed_varint_len(n: i64)
    ensures
        varint_bytes(zigzag(n as int)).len() == if n == 0 {
            1
        } else {
            (bits_needed(zigzag(n as int)) + 6) / 7
        },
{
    lemma_varint_bytes_len(zigzag(n as int));
}

/// The same length counted on twice the magnitude of `n`. The count is one
/// byte too many for a negative `n` where twice its magnitude is a power of
/// 128 (-64, -8192, ...): its zig-zag image is one less and needs a digit less.
pub proof fn lemma_signed_varint_len_by_magnitude(n: i64)
    requires
        !(n < 0 && is_power_of_128((2 * -(n as int)) as nat)),
    ensures
        varint_bytes(zigzag(n as int)).len() == if n == 0 {
            1
        } else if n > 0 {
            (bits_needed((2 * n) as nat) + 6) / 7
        } else {
            (bits_needed((2 * -(n as int)) as nat) + 6) / 7
        },
{
    if n >= 0 {
        lemma_varint_bytes_len(zigzag(n as int));
    } else {
        let m = (2 * -(n as int)) as nat;
        lemma_varint_len_of_predecessor(m);
        lemma_varint_bytes_len(m);
    }
}

} // verus!
