//! The length-prefixed containers of the wire format: strings, byte strings,
//! arrays and the tagged-field trailer.
use vstd::prelude::*;
use vstd::utf8::{
    decode_utf8, encode_utf8, encode_utf8_decode_utf8, encode_utf8_valid_utf8, valid_utf8,
};

use crate::codec::Codec;
use crate::cursor::Cursor;
use crate::decode::{
    end_of, error_of, lemma_holds_at_last, lemma_holds_at_split, value_of, Decode, DecodeError, DecodeResult, Fault,
    Parsed,
};
use crate::encode::Encode;
use crate::length_prefix::{
    get_bytes, lemma_parse_opt_bytes_extends, lemma_parse_opt_bytes_in_bounds,
    lemma_parse_opt_bytes_round_trip, parse_opt_bytes, put_bytes, put_len, wire_opt_bytes, Prefix,
};
use crate::model::{models, Model};
use crate::sequence::{
    array_canonical, array_encodable, array_is_encodable, array_model, decode_array, duplicate_items, encode_array,
    lemma_parse_array_extends, lemma_parse_array_in_bounds, lemma_parse_array_round_trip,
    parse_array, wire_array,
};
use crate::varint::varint_bytes;

verus! {

/// `String::from_utf8` hands back the text that the bytes spell where they
/// are well-formed UTF-8, and an error, here `None`, where they are not.
#[verifier::external_body]
fn string_from_utf8(bytes: Vec<u8>) -> (r: Option<String>)
    ensures
        r is Some <==> valid_utf8(bytes@),
        r matches Some(text) ==> text@ == decode_utf8(bytes@),
{
    String::from_utf8(bytes).ok()
}

/// A string behind a signed 16-bit length.
#[derive(Debug, Clone, PartialEq, Eq, Hash, Default)]
pub struct KafkaString {
    inner: String,
}

impl Model for KafkaString {
    type M = Seq<char>;

    closed spec fn model(&self) -> Seq<char> {
        self.inner@
    }

    fn duplicate(&self) -> (r: Self) {
        KafkaString { inner: self.inner.clone() }
    }
}

impl KafkaString {
    pub fn new(inner: String) -> (r: Self)
        ensures
            r.model() == inner@,
    {
        Self { inner }
    }

    pub fn get_inner(&self) -> (r: &String)
        ensures
            r@ == self.model(),
    {
        &self.inner
    }

    /// Whether both hold the same text.
    pub fn same_text(&self, other: &KafkaString) -> (b: bool)
        ensures
            b == (self.model() == other.model()),
    {
        self.inner == other.inner
    }

    pub fn as_str(&self) -> (r: &str)
        ensures
            r@ == self.model(),
    {
        self.inner.as_str()
    }
}

impl Encode for KafkaString {
    open spec fn wire(v: Seq<char>) -> Seq<u8> {
        wire_opt_bytes(Prefix::Int16, Some(encode_utf8(v)))
    }

    open spec fn encodable(v: Seq<char>) -> bool {
        encode_utf8(v).len() <= i16::MAX
    }

    fn is_encodable(&self) -> (b: bool) {
        let n: usize = self.inner.as_str().as_bytes().len();
        (n as u64) <= 0x7fff
    }

    fn encode(&self) -> (out: Vec<u8>) {
        put_bytes(Prefix::Int16, self.inner.as_str().as_bytes())
    }
}

impl Decode for KafkaString {
    open spec fn parse(s: Seq<u8>, at: int) -> Parsed<Seq<char>> {
        match parse_opt_bytes(Prefix::Int16, s, at) {
            Ok((Some(b), next)) => if valid_utf8(b) {
                Ok((decode_utf8(b), next))
            } else {
                Err(DecodeError::Other(Fault::InvalidUtf8))
            },
            Ok((None, next)) => Err(DecodeError::Other(Fault::NegativeLength)),
            Err(e) => Err(e),
        }
    }

    proof fn lemma_parse_in_bounds(s: Seq<u8>, at: int) {
        lemma_parse_opt_bytes_in_bounds(Prefix::Int16, s, at);
    }

    proof fn lemma_parse_extends(s: Seq<u8>, t: Seq<u8>, at: int) {
        lemma_parse_opt_bytes_in_bounds(Prefix::Int16, s, at);
        lemma_parse_opt_bytes_extends(Prefix::Int16, s, t, at);
    }

    fn decode(buffer: &mut Cursor) -> (r: DecodeResult<Self>) {
        match get_bytes(Prefix::Int16, buffer)? {
            Some(bytes) => match string_from_utf8(bytes) {
                Some(text) => Ok(KafkaString { inner: text }),
                None => Err(DecodeError::Other(Fault::InvalidUtf8)),
            },
            None => Err(DecodeError::Other(Fault::NegativeLength)),
        }
    }
}

impl Codec for KafkaString {
    open spec fn canonical(v: Seq<char>) -> bool {
        true
    }

    proof fn lemma_round_trip(v: Seq<char>, s: Seq<u8>, at: int) {
        lemma_parse_opt_bytes_round_trip(Prefix::Int16, Some(encode_utf8(v)), s, at);
        encode_utf8_valid_utf8(v);
        encode_utf8_decode_utf8(v);
    }
}

/// A string behind a variable-length integer that holds its length plus one.
#[derive(Debug, Clone, PartialEq, Eq, Hash, Default)]
pub struct CompactString {
    inner: String,
}

impl Model for CompactString {
    type M = Seq<char>;

    closed spec fn model(&self) -> Seq<char> {
        self.inner@
    }

    fn duplicate(&self) -> (r: Self) {
        CompactString { inner: self.inner.clone() }
    }
}

impl CompactString {
    pub fn new(inner: String) -> (r: Self)
        ensures
            r.model() == inner@,
    {
        Self { inner }
    }

    pub fn get_inner(&self) -> (r: &String)
        ensures
            r@ == self.model(),
    {
        &self.inner
    }

    /// Whether both hold the same text.
    pub fn same_text(&self, other: &CompactString) -> (b: bool)
        ensures
            b == (self.model() == other.model()),
    {
        self.inner == other.inner
    }

    pub fn as_str(&self) -> (r: &str)
        ensures
            r@ == self.model(),
    {
        self.inner.as_str()
    }
}

impl Encode for CompactString {
    open spec fn wire(v: Seq<char>) -> Seq<u8> {
        wire_opt_bytes(Prefix::Compact, Some(encode_utf8(v)))
    }

    open spec fn encodable(v: Seq<char>) -> bool {
        encode_utf8(v).len() < u64::MAX
    }

    fn is_encodable(&self) -> (b: bool) {
        let n: usize = self.inner.as_str().as_bytes().len();
        (n as u64) < u64::MAX
    }

    fn encode(&self) -> (out: Vec<u8>) {
        put_bytes(Prefix::Compact, self.inner.as_str().as_bytes())
    }
}

impl Decode for CompactString {
    open spec fn parse(s: Seq<u8>, at: int) -> Parsed<Seq<char>> {
        match parse_opt_bytes(Prefix::Compact, s, at) {
            Ok((Some(b), next)) => if valid_utf8(b) {
                Ok((decode_utf8(b), next))
            } else {
                Err(DecodeError::Other(Fault::InvalidUtf8))
            },
            Ok((None, next)) => Err(DecodeError::Other(Fault::ZeroLength)),
            Err(e) => Err(e),
        }
    }

    proof fn lemma_parse_in_bounds(s: Seq<u8>, at: int) {
        lemma_parse_opt_bytes_in_bounds(Prefix::Compact, s, at);
    }

    proof fn lemma_parse_extends(s: Seq<u8>, t: Seq<u8>, at: int) {
        lemma_parse_opt_bytes_in_bounds(Prefix::Compact, s, at);
        lemma_parse_opt_bytes_extends(Prefix::Compact, s, t, at);
    }

    fn decode(buffer: &mut Cursor) -> (r: DecodeResult<Self>) {
        match get_bytes(Prefix::Compact, buffer)? {
            Some(bytes) => match string_from_utf8(bytes) {
                Some(text) => Ok(CompactString { inner: text }),
                None => Err(DecodeError::Other(Fault::InvalidUtf8)),
            },
            None => Err(DecodeError::Other(Fault::ZeroLength)),
        }
    }
}

impl Codec for CompactString {
    open spec fn canonical(v: Seq<char>) -> bool {
        true
    }

    proof fn lemma_round_trip(v: Seq<char>, s: Seq<u8>, at: int) {
        lemma_parse_opt_bytes_round_trip(Prefix::Compact, Some(encode_utf8(v)), s, at);
        encode_utf8_valid_utf8(v);
        encode_utf8_decode_utf8(v);
    }
}

/// A string behind a signed 16-bit length; a negative length is the null string.
#[derive(Debug, Clone, PartialEq, Eq, Hash, Default)]
pub struct NullableString {
    inner: Option<String>,
}

impl Model for NullableString {
    type M = Option<Seq<char>>;

    closed spec fn model(&self) -> Option<Seq<char>> {
        match self.inner {
            None => None,
            Some(x) => Some(x@),
        }
    }

    fn duplicate(&self) -> (r: Self) {
        match &self.inner {
            None => NullableString { inner: None },
            Some(x) => NullableString { inner: Some(x.clone()) },
        }
    }
}

impl NullableString {
    pub fn new(inner: Option<String>) -> (r: Self)
        ensures
            r.model() == match inner {
                None => None::<Seq<char>>,
                Some(x) => Some(x@),
            },
    {
        Self { inner }
    }

    pub fn get_inner(&self) -> (r: &Option<String>)
        ensures
            match r {
                None => self.model() == None::<Seq<char>>,
                Some(x) => self.model() == Some(x@),
            },
    {
        &self.inner
    }
}

impl Encode for NullableString {
    open spec fn wire(v: Option<Seq<char>>) -> Seq<u8> {
        match v {
            None => wire_opt_bytes(Prefix::Int16, None),
            Some(b) => wire_opt_bytes(Prefix::Int16, Some(encode_utf8(b))),
        }
    }

    open spec fn encodable(v: Option<Seq<char>>) -> bool {
        match v {
            None => true,
            Some(b) => encode_utf8(b).len() <= i16::MAX,
        }
    }

    fn is_encodable(&self) -> (b: bool) {
        match &self.inner {
            None => true,
            Some(x) => {
                let n: usize = x.as_str().as_bytes().len();
                (n as u64) <= 0x7fff
            },
        }
    }

    fn encode(&self) -> (out: Vec<u8>) {
        match &self.inner {
            None => put_len(Prefix::Int16, None),
            Some(x) => put_bytes(Prefix::Int16, x.as_str().as_bytes()),
        }
    }
}

impl Decode for NullableString {
    open spec fn parse(s: Seq<u8>, at: int) -> Parsed<Option<Seq<char>>> {
        match parse_opt_bytes(Prefix::Int16, s, at) {
            Ok((Some(b), next)) => if valid_utf8(b) {
                Ok((Some(decode_utf8(b)), next))
            } else {
                Err(DecodeError::Other(Fault::InvalidUtf8))
            },
            Ok((None, next)) => Ok((None, next)),
            Err(e) => Err(e),
        }
    }

    proof fn lemma_parse_in_bounds(s: Seq<u8>, at: int) {
        lemma_parse_opt_bytes_in_bounds(Prefix::Int16, s, at);
    }

    proof fn lemma_parse_extends(s: Seq<u8>, t: Seq<u8>, at: int) {
        lemma_parse_opt_bytes_in_bounds(Prefix::Int16, s, at);
        lemma_parse_opt_bytes_extends(Prefix::Int16, s, t, at);
    }

    fn decode(buffer: &mut Cursor) -> (r: DecodeResult<Self>) {
        match get_bytes(Prefix::Int16, buffer)? {
            Some(bytes) => match string_from_utf8(bytes) {
                Some(text) => Ok(NullableString { inner: Some(text) }),
                None => Err(DecodeError::Other(Fault::InvalidUtf8)),
            },
            None => Ok(NullableString { inner: None }),
        }
    }
}

impl Codec for NullableString {
    open spec fn canonical(v: Option<Seq<char>>) -> bool {
        true
    }

    proof fn lemma_round_trip(v: Option<Seq<char>>, s: Seq<u8>, at: int) {
        let raw = match v {
            None => None::<Seq<u8>>,
            Some(b) => Some(encode_utf8(b)),
        };
        lemma_parse_opt_bytes_round_trip(Prefix::Int16, raw, s, at);
        if let Some(b) = v {
            encode_utf8_valid_utf8(b);
            encode_utf8_decode_utf8(b);
        }
    }
}

/// A string behind a variable-length integer that holds its length plus one; zero is the null string.
#[derive(Debug, Clone, PartialEq, Eq, Hash, Default)]
pub struct CompactNullableString {
    inner: Option<String>,
}

impl Model for CompactNullableString {
    type M = Option<Seq<char>>;

    closed spec fn model(&self) -> Option<Seq<char>> {
        match self.inner {
            None => None,
            Some(x) => Some(x@),
        }
    }

    fn duplicate(&self) -> (r: Self) {
        match &self.inner {
            None => CompactNullableString { inner: None },
            Some(x) => CompactNullableString { inner: Some(x.clone()) },
        }
    }
}

impl CompactNullableString {
    pub fn new(inner: Option<String>) -> (r: Self)
        ensures
            r.model() == match inner {
                None => None::<Seq<char>>,
                Some(x) => Some(x@),
            },
    {
        Self { inner }
    }

    pub fn get_inner(&self) -> (r: &Option<String>)
        ensures
            match r {
                None => self.model() == None::<Seq<char>>,
                Some(x) => self.model() == Some(x@),
            },
    {
        &self.inner
    }
}

impl Encode for CompactNullableString {
    open spec fn wire(v: Option<Seq<char>>) -> Seq<u8> {
        match v {
            None => wire_opt_bytes(Prefix::Compact, None),
            Some(b) => wire_opt_bytes(Prefix::Compact, Some(encode_utf8(b))),
        }
    }

    open spec fn encodable(v: Option<Seq<char>>) -> bool {
        match v {
            None => true,
            Some(b) => encode_utf8(b).len() < u64::MAX,
        }
    }

    fn is_encodable(&self) -> (b: bool) {
        match &self.inner {
            None => true,
            Some(x) => {
                let n: usize = x.as_str().as_bytes().len();
                (n as u64) < u64::MAX
            },
        }
    }

    fn encode(&self) -> (out: Vec<u8>) {
        match &self.inner {
            None => put_len(Prefix::Compact, None),
            Some(x) => put_bytes(Prefix::Compact, x.as_str().as_bytes()),
        }
    }
}

impl Decode for CompactNullableString {
    open spec fn parse(s: Seq<u8>, at: int) -> Parsed<Option<Seq<char>>> {
        match parse_opt_bytes(Prefix::Compact, s, at) {
            Ok((Some(b), next)) => if valid_utf8(b) {
                Ok((Some(decode_utf8(b)), next))
            } else {
                Err(DecodeError::Other(Fault::InvalidUtf8))
            },
            Ok((None, next)) => Ok((None, next)),
            Err(e) => Err(e),
        }
    }

    proof fn lemma_parse_in_bounds(s: Seq<u8>, at: int) {
        lemma_parse_opt_bytes_in_bounds(Prefix::Compact, s, at);
    }

    proof fn lemma_parse_extends(s: Seq<u8>, t: Seq<u8>, at: int) {
        lemma_parse_opt_bytes_in_bounds(Prefix::Compact, s, at);
        lemma_parse_opt_bytes_extends(Prefix::Compact, s, t, at);
    }

    fn decode(buffer: &mut Cursor) -> (r: DecodeResult<Self>) {
        match get_bytes(Prefix::Compact, buffer)? {
            Some(bytes) => match string_from_utf8(bytes) {
                Some(text) => Ok(CompactNullableString { inner: Some(text) }),
                None => Err(DecodeError::Other(Fault::InvalidUtf8)),
            },
            None => Ok(CompactNullableString { inner: None }),
        }
    }
}

impl Codec for CompactNullableString {
    open spec fn canonical(v: Option<Seq<char>>) -> bool {
        true
    }

    proof fn lemma_round_trip(v: Option<Seq<char>>, s: Seq<u8>, at: int) {
        let raw = match v {
            None => None::<Seq<u8>>,
            Some(b) => Some(encode_utf8(b)),
        };
        lemma_parse_opt_bytes_round_trip(Prefix::Compact, raw, s, at);
        if let Some(b) = v {
            encode_utf8_valid_utf8(b);
            encode_utf8_decode_utf8(b);
        }
    }
}

/// Raw bytes behind a signed 32-bit length.
#[derive(Debug, Clone, PartialEq, Eq, Hash, Default)]
pub struct KafkaBytes {
    inner: Vec<u8>,
}

impl Model for KafkaBytes {
    type M = Seq<u8>;

    closed spec fn model(&self) -> Seq<u8> {
        self.inner@
    }

    fn duplicate(&self) -> (r: Self) {
        KafkaBytes { inner: self.inner.clone() }
    }
}

impl KafkaBytes {
    pub fn new(inner: Vec<u8>) -> (r: Self)
        ensures
            r.model() == inner@,
    {
        Self { inner }
    }

    pub fn get_inner(&self) -> (r: &Vec<u8>)
        ensures
            r@ == self.model(),
    {
        &self.inner
    }
}

impl Encode for KafkaBytes {
    open spec fn wire(v: Seq<u8>) -> Seq<u8> {
        wire_opt_bytes(Prefix::Int32, Some(v))
    }

    open spec fn encodable(v: Seq<u8>) -> bool {
        v.len() <= i32::MAX
    }

    fn is_encodable(&self) -> (b: bool) {
        let n: usize = self.inner.len();
        (n as u64) <= 0x7fff_ffff
    }

    fn encode(&self) -> (out: Vec<u8>) {
        put_bytes(Prefix::Int32, self.inner.as_slice())
    }
}

impl Decode for KafkaBytes {
    open spec fn parse(s: Seq<u8>, at: int) -> Parsed<Seq<u8>> {
        match parse_opt_bytes(Prefix::Int32, s, at) {
            Ok((Some(b), next)) => Ok((b, next)),
            Ok((None, next)) => Err(DecodeError::Other(Fault::NegativeLength)),
            Err(e) => Err(e),
        }
    }

    proof fn lemma_parse_in_bounds(s: Seq<u8>, at: int) {
        lemma_parse_opt_bytes_in_bounds(Prefix::Int32, s, at);
    }

    proof fn lemma_parse_extends(s: Seq<u8>, t: Seq<u8>, at: int) {
        lemma_parse_opt_bytes_in_bounds(Prefix::Int32, s, at);
        lemma_parse_opt_bytes_extends(Prefix::Int32, s, t, at);
    }

    fn decode(buffer: &mut Cursor) -> (r: DecodeResult<Self>) {
        match get_bytes(Prefix::Int32, buffer)? {
            Some(bytes) => Ok(KafkaBytes { inner: bytes }),
            None => Err(DecodeError::Other(Fault::NegativeLength)),
        }
    }
}

impl Codec for KafkaBytes {
    open spec fn canonical(v: Seq<u8>) -> bool {
        true
    }

    proof fn lemma_round_trip(v: Seq<u8>, s: Seq<u8>, at: int) {
        lemma_parse_opt_bytes_round_trip(Prefix::Int32, Some(v), s, at);
    }
}

/// Raw bytes behind a variable-length integer that holds their number plus one.
#[derive(Debug, Clone, PartialEq, Eq, Hash, Default)]
pub struct CompactBytes {
    inner: Vec<u8>,
}

impl Model for CompactBytes {
    type M = Seq<u8>;

    closed spec fn model(&self) -> Seq<u8> {
        self.inner@
    }

    fn duplicate(&self) -> (r: Self) {
        CompactBytes { inner: self.inner.clone() }
    }
}

impl CompactBytes {
    pub fn new(inner: Vec<u8>) -> (r: Self)
        ensures
            r.model() == inner@,
    {
        Self { inner }
    }

    pub fn get_inner(&self) -> (r: &Vec<u8>)
        ensures
            r@ == self.model(),
    {
        &self.inner
    }
}

impl Encode for CompactBytes {
    open spec fn wire(v: Seq<u8>) -> Seq<u8> {
        wire_opt_bytes(Prefix::Compact, Some(v))
    }

    open spec fn encodable(v: Seq<u8>) -> bool {
        v.len() < u64::MAX
    }

    fn is_encodable(&self) -> (b: bool) {
        let n: usize = self.inner.len();
        (n as u64) < u64::MAX
    }

    fn encode(&self) -> (out: Vec<u8>) {
        put_bytes(Prefix::Compact, self.inner.as_slice())
    }
}

impl Decode for CompactBytes {
    open spec fn parse(s: Seq<u8>, at: int) -> Parsed<Seq<u8>> {
        match parse_opt_bytes(Prefix::Compact, s, at) {
            Ok((Some(b), next)) => Ok((b, next)),
            Ok((None, next)) => Err(DecodeError::Other(Fault::ZeroLength)),
            Err(e) => Err(e),
        }
    }

    proof fn lemma_parse_in_bounds(s: Seq<u8>, at: int) {
        lemma_parse_opt_bytes_in_bounds(Prefix::Compact, s, at);
    }

    proof fn lemma_parse_extends(s: Seq<u8>, t: Seq<u8>, at: int) {
        lemma_parse_opt_bytes_in_bounds(Prefix::Compact, s, at);
        lemma_parse_opt_bytes_extends(Prefix::Compact, s, t, at);
    }

    fn decode(buffer: &mut Cursor) -> (r: DecodeResult<Self>) {
        match get_bytes(Prefix::Compact, buffer)? {
            Some(bytes) => Ok(CompactBytes { inner: bytes }),
            None => Err(DecodeError::Other(Fault::ZeroLength)),
        }
    }
}

impl Codec for CompactBytes {
    open spec fn canonical(v: Seq<u8>) -> bool {
        true
    }

    proof fn lemma_round_trip(v: Seq<u8>, s: Seq<u8>, at: int) {
        lemma_parse_opt_bytes_round_trip(Prefix::Compact, Some(v), s, at);
    }
}

/// Raw bytes behind a signed 32-bit length; a negative length is null.
#[derive(Debug, Clone, PartialEq, Eq, Hash, Default)]
pub struct NullableBytes {
    inner: Option<Vec<u8>>,
}

impl Model for NullableBytes {
    type M = Option<Seq<u8>>;

    closed spec fn model(&self) -> Option<Seq<u8>> {
        match self.inner {
            None => None,
            Some(x) => Some(x@),
        }
    }

    fn duplicate(&self) -> (r: Self) {
        match &self.inner {
            None => NullableBytes { inner: None },
            Some(x) => NullableBytes { inner: Some(x.clone()) },
        }
    }
}

impl NullableBytes {
    pub fn new(inner: Option<Vec<u8>>) -> (r: Self)
        ensures
            r.model() == match inner {
                None => None::<Seq<u8>>,
                Some(x) => Some(x@),
            },
    {
        Self { inner }
    }

    pub fn get_inner(&self) -> (r: &Option<Vec<u8>>)
        ensures
            match r {
                None => self.model() == None::<Seq<u8>>,
                Some(x) => self.model() == Some(x@),
            },
    {
        &self.inner
    }
}

impl Encode for NullableBytes {
    open spec fn wire(v: Option<Seq<u8>>) -> Seq<u8> {
        match v {
            None => wire_opt_bytes(Prefix::Int32, None),
            Some(b) => wire_opt_bytes(Prefix::Int32, Some(b)),
        }
    }

    open spec fn encodable(v: Option<Seq<u8>>) -> bool {
        match v {
            None => true,
            Some(b) => b.len() <= i32::MAX,
        }
    }

    fn is_encodable(&self) -> (b: bool) {
        match &self.inner {
            None => true,
            Some(x) => {
                let n: usize = x.len();
                (n as u64) <= 0x7fff_ffff
            },
        }
    }

    fn encode(&self) -> (out: Vec<u8>) {
        match &self.inner {
            None => put_len(Prefix::Int32, None),
            Some(x) => put_bytes(Prefix::Int32, x.as_slice()),
        }
    }
}

impl Decode for NullableBytes {
    open spec fn parse(s: Seq<u8>, at: int) -> Parsed<Option<Seq<u8>>> {
        match parse_opt_bytes(Prefix::Int32, s, at) {
            Ok((Some(b), next)) => Ok((Some(b), next)),
            Ok((None, next)) => Ok((None, next)),
            Err(e) => Err(e),
        }
    }

    proof fn lemma_parse_in_bounds(s: Seq<u8>, at: int) {
        lemma_parse_opt_bytes_in_bounds(Prefix::Int32, s, at);
    }

    proof fn lemma_parse_extends(s: Seq<u8>, t: Seq<u8>, at: int) {
        lemma_parse_opt_bytes_in_bounds(Prefix::Int32, s, at);
        lemma_parse_opt_bytes_extends(Prefix::Int32, s, t, at);
    }

    fn decode(buffer: &mut Cursor) -> (r: DecodeResult<Self>) {
        match get_bytes(Prefix::Int32, buffer)? {
            Some(bytes) => Ok(NullableBytes { inner: Some(bytes) }),
            None => Ok(NullableBytes { inner: None }),
        }
    }
}

impl Codec for NullableBytes {
    open spec fn canonical(v: Option<Seq<u8>>) -> bool {
        true
    }

    proof fn lemma_round_trip(v: Option<Seq<u8>>, s: Seq<u8>, at: int) {
        let raw = match v {
            None => None::<Seq<u8>>,
            Some(b) => Some(b),
        };
        lemma_parse_opt_bytes_round_trip(Prefix::Int32, raw, s, at);
    }
}

/// Raw bytes behind a variable-length integer that holds their number plus one; zero is null.
#[derive(Debug, Clone, PartialEq, Eq, Hash, Default)]
pub struct CompactNullableBytes {
    inner: Option<Vec<u8>>,
}

impl Model for CompactNullableBytes {
    type M = Option<Seq<u8>>;

    closed spec fn model(&self) -> Option<Seq<u8>> {
        match self.inner {
            None => None,
            Some(x) => Some(x@),
        }
    }

    fn duplicate(&self) -> (r: Self) {
        match &self.inner {
            None => CompactNullableBytes { inner: None },
            Some(x) => CompactNullableBytes { inner: Some(x.clone()) },
        }
    }
}

impl CompactNullableBytes {
    pub fn new(inner: Option<Vec<u8>>) -> (r: Self)
        ensures
            r.model() == match inner {
                None => None::<Seq<u8>>,
                Some(x) => Some(x@),
            },
    {
        Self { inner }
    }

    pub fn get_inner(&self) -> (r: &Option<Vec<u8>>)
        ensures
            match r {
                None => self.model() == None::<Seq<u8>>,
                Some(x) => self.model() == Some(x@),
            },
    {
        &self.inner
    }
}

impl Encode for CompactNullableBytes {
    open spec fn wire(v: Option<Seq<u8>>) -> Seq<u8> {
        match v {
            None => wire_opt_bytes(Prefix::Compact, None),
            Some(b) => wire_opt_bytes(Prefix::Compact, Some(b)),
        }
    }

    open spec fn encodable(v: Option<Seq<u8>>) -> bool {
        match v {
            None => true,
            Some(b) => b.len() < u64::MAX,
        }
    }

    fn is_encodable(&self) -> (b: bool) {
        match &self.inner {
            None => true,
            Some(x) => {
                let n: usize = x.len();
                (n as u64) < u64::MAX
            },
        }
    }

    fn encode(&self) -> (out: Vec<u8>) {
        match &self.inner {
            None => put_len(Prefix::Compact, None),
            Some(x) => put_bytes(Prefix::Compact, x.as_slice()),
        }
    }
}

impl Decode for CompactNullableBytes {
    open spec fn parse(s: Seq<u8>, at: int) -> Parsed<Option<Seq<u8>>> {
        match parse_opt_bytes(Prefix::Compact, s, at) {
            Ok((Some(b), next)) => Ok((Some(b), next)),
            Ok((None, next)) => Ok((None, next)),
            Err(e) => Err(e),
        }
    }

    proof fn lemma_parse_in_bounds(s: Seq<u8>, at: int) {
        lemma_parse_opt_bytes_in_bounds(Prefix::Compact, s, at);
    }

    proof fn lemma_parse_extends(s: Seq<u8>, t: Seq<u8>, at: int) {
        lemma_parse_opt_bytes_in_bounds(Prefix::Compact, s, at);
        lemma_parse_opt_bytes_extends(Prefix::Compact, s, t, at);
    }

    fn decode(buffer: &mut Cursor) -> (r: DecodeResult<Self>) {
        match get_bytes(Prefix::Compact, buffer)? {
            Some(bytes) => Ok(CompactNullableBytes { inner: Some(bytes) }),
            None => Ok(CompactNullableBytes { inner: None }),
        }
    }
}

impl Codec for CompactNullableBytes {
    open spec fn canonical(v: Option<Seq<u8>>) -> bool {
        true
    }

    proof fn lemma_round_trip(v: Option<Seq<u8>>, s: Seq<u8>, at: int) {
        let raw = match v {
            None => None::<Seq<u8>>,
            Some(b) => Some(b),
        };
        lemma_parse_opt_bytes_round_trip(Prefix::Compact, raw, s, at);
    }
}

/// An array behind a signed 32-bit count; a negative count is the null array.
#[derive(Debug, Clone, PartialEq, Eq, Hash)]
pub struct Array<T> {
    inner: Option<Vec<T>>,
}

impl<T: Model> Model for Array<T> {
    type M = Option<Seq<T::M>>;

    closed spec fn model(&self) -> Option<Seq<T::M>> {
        array_model(self.inner)
    }

    fn duplicate(&self) -> (r: Self) {
        Array { inner: duplicate_items(&self.inner) }
    }
}

impl<T: Model> Array<T> {
    pub fn new(inner: Option<Vec<T>>) -> (r: Self)
        ensures
            r.model() == array_model(inner),
    {
        Self { inner }
    }

    /// The array without items, which is not the null array.
    pub fn empty() -> (r: Self)
        ensures
            r.model() == Some(Seq::<T::M>::empty()),
    {
        let items: Vec<T> = Vec::new();
        proof {
            assert(models(items@) =~= Seq::<T::M>::empty());
        }
        Self { inner: Some(items) }
    }

    pub fn get_inner(&self) -> (r: &Option<Vec<T>>)
        ensures
            array_model(*r) == self.model(),
    {
        &self.inner
    }

    pub fn into_inner(self) -> (r: Option<Vec<T>>)
        ensures
            array_model(r) == self.model(),
    {
        self.inner
    }
}

impl<T: Model> Default for Array<T> {
    /// The null array.
    fn default() -> (r: Self)
        ensures
            r.model() == None::<Seq<T::M>>,
    {
        Self { inner: None }
    }
}

impl<T: Encode> Encode for Array<T> {
    open spec fn wire(v: Option<Seq<T::M>>) -> Seq<u8> {
        wire_array::<T>(Prefix::Int32, v)
    }

    open spec fn encodable(v: Option<Seq<T::M>>) -> bool {
        array_encodable::<T>(Prefix::Int32, v)
    }

    fn is_encodable(&self) -> (b: bool) {
        array_is_encodable(Prefix::Int32, &self.inner)
    }

    fn encode(&self) -> (out: Vec<u8>) {
        encode_array(Prefix::Int32, &self.inner)
    }
}

impl<T: Decode> Decode for Array<T> {
    open spec fn parse(s: Seq<u8>, at: int) -> Parsed<Option<Seq<T::M>>> {
        parse_array::<T>(Prefix::Int32, s, at)
    }

    proof fn lemma_parse_in_bounds(s: Seq<u8>, at: int) {
        lemma_parse_array_in_bounds::<T>(Prefix::Int32, s, at);
    }

    proof fn lemma_parse_extends(s: Seq<u8>, t: Seq<u8>, at: int) {
        lemma_parse_array_extends::<T>(Prefix::Int32, s, t, at);
    }

    fn decode(buffer: &mut Cursor) -> (r: DecodeResult<Self>) {
        let inner = decode_array::<T>(Prefix::Int32, buffer)?;
        Ok(Array { inner })
    }
}

impl<T: Codec> Codec for Array<T> {
    open spec fn canonical(v: Option<Seq<T::M>>) -> bool {
        array_canonical::<T>(v)
    }

    proof fn lemma_round_trip(v: Option<Seq<T::M>>, s: Seq<u8>, at: int) {
        lemma_parse_array_round_trip::<T>(Prefix::Int32, v, s, at);
    }
}

/// An array behind a variable-length integer that holds its count plus one; zero is the null array.
#[derive(Debug, Clone, PartialEq, Eq, Hash)]
pub struct CompactArray<T> {
    inner: Option<Vec<T>>,
}

impl<T: Model> Model for CompactArray<T> {
    type M = Option<Seq<T::M>>;

    closed spec fn model(&self) -> Option<Seq<T::M>> {
        array_model(self.inner)
    }

    fn duplicate(&self) -> (r: Self) {
        CompactArray { inner: duplicate_items(&self.inner) }
    }
}

impl<T: Model> CompactArray<T> {
    pub fn new(inner: Option<Vec<T>>) -> (r: Self)
        ensures
            r.model() == array_model(inner),
    {
        Self { inner }
    }

    /// The array without items, which is not the null array.
    pub fn empty() -> (r: Self)
        ensures
            r.model() == Some(Seq::<T::M>::empty()),
    {
        let items: Vec<T> = Vec::new();
        proof {
            assert(models(items@) =~= Seq::<T::M>::empty());
        }
        Self { inner: Some(items) }
    }

    pub fn get_inner(&self) -> (r: &Option<Vec<T>>)
        ensures
            array_model(*r) == self.model(),
    {
        &self.inner
    }

    pub fn into_inner(self) -> (r: Option<Vec<T>>)
        ensures
            array_model(r) == self.model(),
    {
        self.inner
    }
}

impl<T: Model> Default for CompactArray<T> {
    /// The null array.
    fn default() -> (r: Self)
        ensures
            r.model() == None::<Seq<T::M>>,
    {
        Self { inner: None }
    }
}

impl<T: Encode> Encode for CompactArray<T> {
    open spec fn wire(v: Option<Seq<T::M>>) -> Seq<u8> {
        wire_array::<T>(Prefix::Compact, v)
    }

    open spec fn encodable(v: Option<Seq<T::M>>) -> bool {
        array_encodable::<T>(Prefix::Compact, v)
    }

    fn is_encodable(&self) -> (b: bool) {
        array_is_encodable(Prefix::Compact, &self.inner)
    }

    fn encode(&self) -> (out: Vec<u8>) {
        encode_array(Prefix::Compact, &self.inner)
    }
}

impl<T: Decode> Decode for CompactArray<T> {
    open spec fn parse(s: Seq<u8>, at: int) -> Parsed<Option<Seq<T::M>>> {
        parse_array::<T>(Prefix::Compact, s, at)
    }

    proof fn lemma_parse_in_bounds(s: Seq<u8>, at: int) {
        lemma_parse_array_in_bounds::<T>(Prefix::Compact, s, at);
    }

    proof fn lemma_parse_extends(s: Seq<u8>, t: Seq<u8>, at: int) {
        lemma_parse_array_extends::<T>(Prefix::Compact, s, t, at);
    }

    fn decode(buffer: &mut Cursor) -> (r: DecodeResult<Self>) {
        let inner = decode_array::<T>(Prefix::Compact, buffer)?;
        Ok(CompactArray { inner })
    }
}

impl<T: Codec> Codec for CompactArray<T> {
    open spec fn canonical(v: Option<Seq<T::M>>) -> bool {
        array_canonical::<T>(v)
    }

    proof fn lemma_round_trip(v: Option<Seq<T::M>>, s: Seq<u8>, at: int) {
        lemma_parse_array_round_trip::<T>(Prefix::Compact, v, s, at);
    }
}

/// One tagged field of a trailer: its tag and its raw data.
#[derive(Debug, Clone, PartialEq, Eq, Default)]
pub struct TagSection {
    pub tag: u8,
    pub data: CompactArray<u8>,
}

/// The value that a [`TagSection`] stands for.
pub struct TagSectionModel {
    pub tag: u8,
    pub data: Option<Seq<u8>>,
}

impl Model for TagSection {
    type M = TagSectionModel;

    open spec fn model(&self) -> TagSectionModel {
        TagSectionModel {
            tag: self.tag.model(),
            data: self.data.model(),
        }
    }

    fn duplicate(&self) -> (r: Self) {
        TagSection {
            tag: self.tag.duplicate(),
            data: self.data.duplicate(),
        }
    }
}

impl Encode for TagSection {
    open spec fn wire(v: TagSectionModel) -> Seq<u8> {
        u8::wire(v.tag)
            + CompactArray::<u8>::wire(v.data)
    }

    open spec fn encodable(v: TagSectionModel) -> bool {
        &&& u8::encodable(v.tag)
        &&& CompactArray::<u8>::encodable(v.data)
    }

    fn is_encodable(&self) -> (b: bool) {
        self.tag.is_encodable()
            && self.data.is_encodable()
    }

    fn encode(&self) -> (out: Vec<u8>) {
        let mut out = self.tag.encode();
        let mut piece = self.data.encode();
        out.append(&mut piece);
        out
    }
}

impl Decode for TagSection {
    open spec fn parse(s: Seq<u8>, at: int) -> Parsed<TagSectionModel> {
        let tag = u8::parse(s, at);
        let data = CompactArray::<u8>::parse(s, end_of(tag));
        if tag is Err {
            Err(error_of(tag))
        } else if data is Err {
            Err(error_of(data))
        } else {
            Ok((
                TagSectionModel {
                    tag: value_of(tag),
                    data: value_of(data),
                },
                end_of(data),
            ))
        }
    }

    proof fn lemma_parse_in_bounds(s: Seq<u8>, at: int) {
        u8::lemma_parse_in_bounds(s, at);
        let tag = u8::parse(s, at);
        CompactArray::<u8>::lemma_parse_in_bounds(s, end_of(tag));
    }

    proof fn lemma_parse_extends(s: Seq<u8>, t: Seq<u8>, at: int) {
        u8::lemma_parse_extends(s, t, at);
        let tag = u8::parse(s, at);
        CompactArray::<u8>::lemma_parse_extends(s, t, end_of(tag));
    }

    fn decode(buffer: &mut Cursor) -> (r: DecodeResult<Self>) {
        let tag = u8::decode(buffer)?;
        let data = CompactArray::<u8>::decode(buffer)?;
        Ok(TagSection { tag, data })
    }
}

impl Codec for TagSection {
    open spec fn canonical(v: TagSectionModel) -> bool {
        &&& u8::canonical(v.tag)
        &&& CompactArray::<u8>::canonical(v.data)
    }

    proof fn lemma_round_trip(v: TagSectionModel, s: Seq<u8>, at: int) {
        let w0 = u8::wire(v.tag);
        let w1 = CompactArray::<u8>::wire(v.data);
        let front1 = w0;
        lemma_holds_at_last(s, at, front1, w1);
        u8::lemma_round_trip(v.tag, s, at);
        CompactArray::<u8>::lemma_round_trip(v.data, s, at + front1.len());
    }
}

/// The trailer of tagged fields that closes most records, so that fields can be added later.
#[derive(Debug, Clone, PartialEq, Eq)]
pub struct TagBuffer {
    pub fields: CompactArray<TagSection>,
}

/// The value that a [`TagBuffer`] stands for.
pub struct TagBufferModel {
    pub fields: Option<Seq<TagSectionModel>>,
}

impl Model for TagBuffer {
    type M = TagBufferModel;

    open spec fn model(&self) -> TagBufferModel {
        TagBufferModel {
            fields: self.fields.model(),
        }
    }

    fn duplicate(&self) -> (r: Self) {
        TagBuffer {
            fields: self.fields.duplicate(),
        }
    }
}

impl Encode for TagBuffer {
    open spec fn wire(v: TagBufferModel) -> Seq<u8> {
        CompactArray::<TagSection>::wire(v.fields)
    }

    open spec fn encodable(v: TagBufferModel) -> bool {
        &&& CompactArray::<TagSection>::encodable(v.fields)
    }

    fn is_encodable(&self) -> (b: bool) {
        self.fields.is_encodable()
    }

    fn encode(&self) -> (out: Vec<u8>) {
        let mut out = self.fields.encode();
        out
    }
}

impl Decode for TagBuffer {
    open spec fn parse(s: Seq<u8>, at: int) -> Parsed<TagBufferModel> {
        let fields = CompactArray::<TagSection>::parse(s, at);
        if fields is Err {
            Err(error_of(fields))
        } else {
            Ok((
                TagBufferModel {
                    fields: value_of(fields),
                },
                end_of(fields),
            ))
        }
    }

    proof fn lemma_parse_in_bounds(s: Seq<u8>, at: int) {
        CompactArray::<TagSection>::lemma_parse_in_bounds(s, at);
    }

    proof fn lemma_parse_extends(s: Seq<u8>, t: Seq<u8>, at: int) {
        CompactArray::<TagSection>::lemma_parse_extends(s, t, at);
    }

    fn decode(buffer: &mut Cursor) -> (r: DecodeResult<Self>) {
        let fields = CompactArray::<TagSection>::decode(buffer)?;
        Ok(TagBuffer { fields })
    }
}

impl Codec for TagBuffer {
    open spec fn canonical(v: TagBufferModel) -> bool {
        &&& CompactArray::<TagSection>::canonical(v.fields)
    }

    proof fn lemma_round_trip(v: TagBufferModel, s: Seq<u8>, at: int) {
        CompactArray::<TagSection>::lemma_round_trip(v.fields, s, at);
    }
}

impl TagBuffer {
    pub fn new(fields: CompactArray<TagSection>) -> (r: Self)
        ensures
            r == (TagBuffer { fields }),
    {
        Self { fields }
    }
}

impl Default for TagBuffer {
    /// The trailer without a field list, one zero byte on the wire.
    fn default() -> (r: Self)
        ensures
            r.model() == (TagBufferModel { fields: None }),
    {
        TagBuffer { fields: CompactArray::default() }
    }
}

impl TagSection {
    pub fn new(tag: u8, data: Option<Vec<u8>>) -> (r: Self)
        ensures
            r.model() == (TagSectionModel { tag, data: array_model(data) }),
    {
        Self { tag, data: CompactArray::new(data) }
    }
}

/// The wire form of the trailer without a field list.
pub proof fn lemma_empty_tag_buffer_wire()
    ensures
        TagBuffer::wire(TagBufferModel { fields: None }) == seq![0u8],
        TagBuffer::encodable(TagBufferModel { fields: None }),
        TagBuffer::canonical(TagBufferModel { fields: None }),
{
    assert(varint_bytes(0) =~= seq![0u8]);
}

} // verus!
