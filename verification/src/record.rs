//! The log format: record batches, their records, and the metadata records
//! that a controller writes into its log.
use uuid::Uuid;
use vstd::prelude::*;

use crate::codec::Codec;
use crate::common_struct::Array;
use crate::common_struct::{CompactArray, CompactString, TagBuffer, TagBufferModel};
use crate::cursor::{lemma_parse_be_shape, lemma_parse_bytes_extends, parse_bytes, Cursor};
use crate::decode::{
    end_of, error_of, holds_at, lemma_holds_at_last, lemma_holds_at_split, lemma_parse_i8,
    value_of, Decode, DecodeError,
    DecodeResult, Fault, Parsed,
};
use crate::describe_topic_partitions::{RepicaNode, RepicaNodeModel};
use crate::encode::Encode;
use crate::length_prefix::{
    lemma_parse_opt_bytes_extends, lemma_parse_opt_bytes_in_bounds,
    lemma_parse_opt_bytes_round_trip, get_bytes, parse_opt_bytes, put_bytes, wire_opt_bytes,
    Prefix,
};
use crate::model::{models, Model};
use crate::sequence::{array_model, duplicate_items, wire_items};
use crate::varint::{
    lemma_parse_varint_extends, lemma_parse_varint_round_trip, lemma_parse_varint_shape,
    lemma_varint_bytes_well_formed, lemma_varint_value_of_bytes, parse_varint, two_to_64,
    unzigzag, varint_bytes, varint_value, zigzag, VarInt, VarLong,
};

verus! {

/// The record types that the reader knows by their type byte.
pub struct RecordType;

impl RecordType {
    pub const TOPIC_RECORD: i8 = 0x02;

    pub const PARITION_RECORD: i8 = 0x03;

    pub const FEATURE_LEVEL_RECORD: i8 = 0x0c;
}

/// A signed length as a zig-zag variable-length integer.
pub open spec fn wire_signed_len(n: int) -> Seq<u8> {
    varint_bytes(zigzag(n))
}

/// The signed length that stands at offset `at`, as far as it fits in 64 bits.
pub open spec fn parse_signed_len(s: Seq<u8>, at: int) -> Parsed<int> {
    match parse_varint(s, at) {
        Ok((w, next)) => Ok((unzigzag(varint_value(w) % two_to_64()), next)),
        Err(e) => Err(e),
    }
}

pub proof fn lemma_parse_signed_len_round_trip(n: int, s: Seq<u8>, at: int)
    requires
        i64::MIN <= n <= i64::MAX,
        holds_at(s, at, wire_signed_len(n)),
    ensures
        parse_signed_len(s, at) == Ok::<(int, int), DecodeError>(
            (n, at + wire_signed_len(n).len()),
        ),
{
    lemma_varint_bytes_well_formed(zigzag(n));
    lemma_varint_value_of_bytes(zigzag(n));
    lemma_parse_varint_round_trip(varint_bytes(zigzag(n)), s, at);
    vstd::arithmetic::div_mod::lemma_small_mod(zigzag(n), two_to_64());
}

/// Reads a signed length.
fn get_signed_len(buffer: &mut Cursor) -> (r: DecodeResult<i64>)
    ensures
        final(buffer).content() == old(buffer).content(),
        old(buffer).offset() <= final(buffer).offset() <= old(buffer).content().len(),
        match r {
            Ok(n) => parse_signed_len(old(buffer).content(), old(buffer).offset()) == Ok::<
                (int, int),
                DecodeError,
            >((n as int, final(buffer).offset())),
            Err(e) => parse_signed_len(old(buffer).content(), old(buffer).offset()) == Err::<
                (int, int),
                DecodeError,
            >(e),
        },
{
    let n: i64 = VarInt::decode(buffer)?.as_i64();
    Ok(n)
}

/// Writes a byte string behind its signed length.
fn put_signed_bytes(payload: &[u8]) -> (out: Vec<u8>)
    requires
        payload@.len() <= i64::MAX,
    ensures
        out@ == wire_signed_len(payload@.len() as int) + payload@,
{
    let mut out = VarInt::from_i64(payload.len() as i64).into_bytes();
    let ghost head = out@;
    out.extend_from_slice(payload);
    assert(out@ =~= head + payload@);
    out
}

/// The attribute bits of a record batch: the compression codec in the low three bits, then one bit each for the timestamp type, a transactional batch, a control batch and a delete horizon.
#[derive(Debug, Clone, Copy, PartialEq, Eq)]
pub struct MetadataAttributes {
    bits: u16,
}

impl MetadataAttributes {
    pub const NO_COMPRESSION: u16 = 0b000;
    pub const GZIP: u16 = 0b001;
    pub const SNAPPY: u16 = 0b010;
    pub const LZ4: u16 = 0b011;
    pub const ZSTD: u16 = 0b100;
    pub const TIMESTAMP_TYPE: u16 = 1 << 3;
    pub const IS_TRANSACTIONAL: u16 = 1 << 4;
    pub const IS_CONTROL_BATCH: u16 = 1 << 5;
    pub const HAS_DELETE_HORIZON_MS: u16 = 1 << 6;

    /// Every bit that has a meaning. They are the low bits without a gap,
    /// so the bits of a value are all known where the value is at most this.
    pub const KNOWN_BITS: u16 = 0x7f;

    /// No bit without a meaning is set.
    pub open spec fn known(bits: u16) -> bool {
        bits <= 0x7f
    }

    /// The flags of `bits`, where all of them are known.
    pub fn from_bits(bits: u16) -> (r: Option<Self>)
        ensures
            r is Some <==> Self::known(bits),
            r matches Some(flags) ==> flags.model() == bits,
    {
        if bits <= 0x7f {
            Some(Self { bits })
        } else {
            None
        }
    }

    /// The flags of `bits`, unknown bits kept as they are.
    pub fn from_bits_retain(bits: u16) -> (r: Self)
        ensures
            r.model() == bits,
    {
        Self { bits }
    }

    pub fn bits(&self) -> (r: u16)
        ensures
            r == self.model(),
    {
        self.bits
    }
}

impl Model for MetadataAttributes {
    type M = u16;

    closed spec fn model(&self) -> u16 {
        self.bits
    }

    fn duplicate(&self) -> (r: Self) {
        *self
    }
}

impl Encode for MetadataAttributes {
    open spec fn wire(v: u16) -> Seq<u8> {
        u16::wire(v)
    }

    open spec fn encodable(v: u16) -> bool {
        true
    }

    fn is_encodable(&self) -> (b: bool) {
        true
    }

    fn encode(&self) -> (out: Vec<u8>) {
        self.bits.encode()
    }
}

impl Decode for MetadataAttributes {
    open spec fn parse(s: Seq<u8>, at: int) -> Parsed<u16> {
        match u16::parse(s, at) {
            Ok((bits, next)) => if Self::known(bits) {
                Ok((bits, next))
            } else {
                Err(DecodeError::Other(Fault::UnknownBits(bits as u32)))
            },
            Err(e) => Err(e),
        }
    }

    proof fn lemma_parse_in_bounds(s: Seq<u8>, at: int) {
        u16::lemma_parse_in_bounds(s, at);
    }

    proof fn lemma_parse_extends(s: Seq<u8>, t: Seq<u8>, at: int) {
        u16::lemma_parse_extends(s, t, at);
    }

    fn decode(buffer: &mut Cursor) -> (r: DecodeResult<Self>) {
        let bits: u16 = u16::decode(buffer)?;
        match Self::from_bits(bits) {
            Some(flags) => Ok(flags),
            None => Err(DecodeError::Other(Fault::UnknownBits(bits as u32))),
        }
    }
}

impl Codec for MetadataAttributes {
    open spec fn canonical(v: u16) -> bool {
        Self::known(v)
    }

    proof fn lemma_round_trip(v: u16, s: Seq<u8>, at: int) {
        u16::lemma_round_trip(v, s, at);
    }
}

/// A header of a record: a key and raw bytes.
#[derive(Debug, Clone, PartialEq, Eq)]
pub struct RecordHeader {
    pub key: CompactString,
    pub value: CompactArray<u8>,
}

/// The value that a [`RecordHeader`] stands for.
pub struct RecordHeaderModel {
    pub key: Seq<char>,
    pub value: Option<Seq<u8>>,
}

impl Model for RecordHeader {
    type M = RecordHeaderModel;

    open spec fn model(&self) -> RecordHeaderModel {
        RecordHeaderModel {
            key: self.key.model(),
            value: self.value.model(),
        }
    }

    fn duplicate(&self) -> (r: Self) {
        RecordHeader {
            key: self.key.duplicate(),
            value: self.value.duplicate(),
        }
    }
}

impl Encode for RecordHeader {
    open spec fn wire(v: RecordHeaderModel) -> Seq<u8> {
        CompactString::wire(v.key)
            + CompactArray::<u8>::wire(v.value)
    }

    open spec fn encodable(v: RecordHeaderModel) -> bool {
        &&& CompactString::encodable(v.key)
        &&& CompactArray::<u8>::encodable(v.value)
    }

    fn is_encodable(&self) -> (b: bool) {
        self.key.is_encodable()
            && self.value.is_encodable()
    }

    fn encode(&self) -> (out: Vec<u8>) {
        let mut out = self.key.encode();
        let mut piece = self.value.encode();
        out.append(&mut piece);
        out
    }
}

impl Decode for RecordHeader {
    open spec fn parse(s: Seq<u8>, at: int) -> Parsed<RecordHeaderModel> {
        let key = CompactString::parse(s, at);
        let value = CompactArray::<u8>::parse(s, end_of(key));
        if key is Err {
            Err(error_of(key))
        } else if value is Err {
            Err(error_of(value))
        } else {
            Ok((
                RecordHeaderModel {
                    key: value_of(key),
                    value: value_of(value),
                },
                end_of(value),
            ))
        }
    }

    proof fn lemma_parse_in_bounds(s: Seq<u8>, at: int) {
        CompactString::lemma_parse_in_bounds(s, at);
        let key = CompactString::parse(s, at);
        CompactArray::<u8>::lemma_parse_in_bounds(s, end_of(key));
    }

    proof fn lemma_parse_extends(s: Seq<u8>, t: Seq<u8>, at: int) {
        CompactString::lemma_parse_extends(s, t, at);
        let key = CompactString::parse(s, at);
        CompactArray::<u8>::lemma_parse_extends(s, t, end_of(key));
    }

    fn decode(buffer: &mut Cursor) -> (r: DecodeResult<Self>) {
        let key = CompactString::decode(buffer)?;
        let value = CompactArray::<u8>::decode(buffer)?;
        Ok(RecordHeader { key, value })
    }
}

impl Codec for RecordHeader {
    open spec fn canonical(v: RecordHeaderModel) -> bool {
        &&& CompactString::canonical(v.key)
        &&& CompactArray::<u8>::canonical(v.value)
    }

    proof fn lemma_round_trip(v: RecordHeaderModel, s: Seq<u8>, at: int) {
        let w0 = CompactString::wire(v.key);
        let w1 = CompactArray::<u8>::wire(v.value);
        let front1 = w0;
        lemma_holds_at_last(s, at, front1, w1);
        CompactString::lemma_round_trip(v.key, s, at);
        CompactArray::<u8>::lemma_round_trip(v.value, s, at + front1.len());
    }
}

/// A log directory of a partition, by its identifier.
#[derive(Debug, Clone, PartialEq, Eq)]
pub struct Directory {
    pub id: Uuid,
}

/// The value that a [`Directory`] stands for.
pub struct DirectoryModel {
    pub id: u128,
}

impl Model for Directory {
    type M = DirectoryModel;

    open spec fn model(&self) -> DirectoryModel {
        DirectoryModel {
            id: self.id.model(),
        }
    }

    fn duplicate(&self) -> (r: Self) {
        Directory {
            id: self.id.duplicate(),
        }
    }
}

impl Encode for Directory {
    open spec fn wire(v: DirectoryModel) -> Seq<u8> {
        Uuid::wire(v.id)
    }

    open spec fn encodable(v: DirectoryModel) -> bool {
        &&& Uuid::encodable(v.id)
    }

    fn is_encodable(&self) -> (b: bool) {
        self.id.is_encodable()
    }

    fn encode(&self) -> (out: Vec<u8>) {
        let mut out = self.id.encode();
        out
    }
}

impl Decode for Directory {
    open spec fn parse(s: Seq<u8>, at: int) -> Parsed<DirectoryModel> {
        let id = Uuid::parse(s, at);
        if id is Err {
            Err(error_of(id))
        } else {
            Ok((
                DirectoryModel {
                    id: value_of(id),
                },
                end_of(id),
            ))
        }
    }

    proof fn lemma_parse_in_bounds(s: Seq<u8>, at: int) {
        Uuid::lemma_parse_in_bounds(s, at);
    }

    proof fn lemma_parse_extends(s: Seq<u8>, t: Seq<u8>, at: int) {
        Uuid::lemma_parse_extends(s, t, at);
    }

    fn decode(buffer: &mut Cursor) -> (r: DecodeResult<Self>) {
        let id = Uuid::decode(buffer)?;
        Ok(Directory { id })
    }
}

impl Codec for Directory {
    open spec fn canonical(v: DirectoryModel) -> bool {
        &&& Uuid::canonical(v.id)
    }

    proof fn lemma_round_trip(v: DirectoryModel, s: Seq<u8>, at: int) {
        Uuid::lemma_round_trip(v.id, s, at);
    }
}

/// The metadata record that names a topic and gives it its identifier.
#[derive(Debug, Clone, PartialEq, Eq)]
pub struct TopicRecord {
    pub frame_version: i8,
    pub record_type: i8,
    pub version: i8,
    pub name: CompactString,
    pub id: Uuid,
    pub tag_buffers: TagBuffer,
}

/// The value that a [`TopicRecord`] stands for.
pub struct TopicRecordModel {
    pub frame_version: i8,
    pub record_type: i8,
    pub version: i8,
    pub name: Seq<char>,
    pub id: u128,
    pub tag_buffers: TagBufferModel,
}

impl Model for TopicRecord {
    type M = TopicRecordModel;

    open spec fn model(&self) -> TopicRecordModel {
        TopicRecordModel {
            frame_version: self.frame_version.model(),
            record_type: self.record_type.model(),
            version: self.version.model(),
            name: self.name.model(),
            id: self.id.model(),
            tag_buffers: self.tag_buffers.model(),
        }
    }

    fn duplicate(&self) -> (r: Self) {
        TopicRecord {
            frame_version: self.frame_version.duplicate(),
            record_type: self.record_type.duplicate(),
            version: self.version.duplicate(),
            name: self.name.duplicate(),
            id: self.id.duplicate(),
            tag_buffers: self.tag_buffers.duplicate(),
        }
    }
}

impl Encode for TopicRecord {
    open spec fn wire(v: TopicRecordModel) -> Seq<u8> {
        i8::wire(v.frame_version)
            + i8::wire(v.record_type)
            + i8::wire(v.version)
            + CompactString::wire(v.name)
            + Uuid::wire(v.id)
            + TagBuffer::wire(v.tag_buffers)
    }

    open spec fn encodable(v: TopicRecordModel) -> bool {
        &&& i8::encodable(v.frame_version)
        &&& i8::encodable(v.record_type)
        &&& i8::encodable(v.version)
        &&& CompactString::encodable(v.name)
        &&& Uuid::encodable(v.id)
        &&& TagBuffer::encodable(v.tag_buffers)
    }

    fn is_encodable(&self) -> (b: bool) {
        self.frame_version.is_encodable()
            && self.record_type.is_encodable()
            && self.version.is_encodable()
            && self.name.is_encodable()
            && self.id.is_encodable()
            && self.tag_buffers.is_encodable()
    }

    fn encode(&self) -> (out: Vec<u8>) {
        let mut out = self.frame_version.encode();
        let mut piece = self.record_type.encode();
        out.append(&mut piece);
        let mut piece = self.version.encode();
        out.append(&mut piece);
        let mut piece = self.name.encode();
        out.append(&mut piece);
        let mut piece = self.id.encode();
        out.append(&mut piece);
        let mut piece = self.tag_buffers.encode();
        out.append(&mut piece);
        out
    }
}

impl Decode for TopicRecord {
    open spec fn parse(s: Seq<u8>, at: int) -> Parsed<TopicRecordModel> {
        let frame_version = i8::parse(s, at);
        let record_type = i8::parse(s, end_of(frame_version));
        let version = i8::parse(s, end_of(record_type));
        let name = CompactString::parse(s, end_of(version));
        let id = Uuid::parse(s, end_of(name));
        let tag_buffers = TagBuffer::parse(s, end_of(id));
        if frame_version is Err {
            Err(error_of(frame_version))
        } else if record_type is Err {
            Err(error_of(record_type))
        } else if version is Err {
            Err(error_of(version))
        } else if name is Err {
            Err(error_of(name))
        } else if id is Err {
            Err(error_of(id))
        } else if tag_buffers is Err {
            Err(error_of(tag_buffers))
        } else {
            Ok((
                TopicRecordModel {
                    frame_version: value_of(frame_version),
                    record_type: value_of(record_type),
                    version: value_of(version),
                    name: value_of(name),
                    id: value_of(id),
                    tag_buffers: value_of(tag_buffers),
                },
                end_of(tag_buffers),
            ))
        }
    }

    proof fn lemma_parse_in_bounds(s: Seq<u8>, at: int) {
        i8::lemma_parse_in_bounds(s, at);
        let frame_version = i8::parse(s, at);
        i8::lemma_parse_in_bounds(s, end_of(frame_version));
        let record_type = i8::parse(s, end_of(frame_version));
        i8::lemma_parse_in_bounds(s, end_of(record_type));
        let version = i8::parse(s, end_of(record_type));
        CompactString::lemma_parse_in_bounds(s, end_of(version));
        let name = CompactString::parse(s, end_of(version));
        Uuid::lemma_parse_in_bounds(s, end_of(name));
        let id = Uuid::parse(s, end_of(name));
        TagBuffer::lemma_parse_in_bounds(s, end_of(id));
    }

    proof fn lemma_parse_extends(s: Seq<u8>, t: Seq<u8>, at: int) {
        i8::lemma_parse_extends(s, t, at);
        let frame_version = i8::parse(s, at);
        i8::lemma_parse_extends(s, t, end_of(frame_version));
        let record_type = i8::parse(s, end_of(frame_version));
        i8::lemma_parse_extends(s, t, end_of(record_type));
        let version = i8::parse(s, end_of(record_type));
        CompactString::lemma_parse_extends(s, t, end_of(version));
        let name = CompactString::parse(s, end_of(version));
        Uuid::lemma_parse_extends(s, t, end_of(name));
        let id = Uuid::parse(s, end_of(name));
        TagBuffer::lemma_parse_extends(s, t, end_of(id));
    }

    fn decode(buffer: &mut Cursor) -> (r: DecodeResult<Self>) {
        let frame_version = i8::decode(buffer)?;
        let record_type = i8::decode(buffer)?;
        let version = i8::decode(buffer)?;
        let name = CompactString::decode(buffer)?;
        let id = Uuid::decode(buffer)?;
        let tag_buffers = TagBuffer::decode(buffer)?;
        Ok(TopicRecord { frame_version, record_type, version, name, id, tag_buffers })
    }
}

impl Codec for TopicRecord {
    open spec fn canonical(v: TopicRecordModel) -> bool {
        &&& i8::canonical(v.frame_version)
        &&& i8::canonical(v.record_type)
        &&& i8::canonical(v.version)
        &&& CompactString::canonical(v.name)
        &&& Uuid::canonical(v.id)
        &&& TagBuffer::canonical(v.tag_buffers)
    }

    proof fn lemma_round_trip(v: TopicRecordModel, s: Seq<u8>, at: int) {
        let w0 = i8::wire(v.frame_version);
        let w1 = i8::wire(v.record_type);
        let w2 = i8::wire(v.version);
        let w3 = CompactString::wire(v.name);
        let w4 = Uuid::wire(v.id);
        let w5 = TagBuffer::wire(v.tag_buffers);
        let front1 = w0;
        let front2 = front1 + w1;
        let front3 = front2 + w2;
        let front4 = front3 + w3;
        let front5 = front4 + w4;
        lemma_holds_at_last(s, at, front5, w5);
        lemma_holds_at_last(s, at, front4, w4);
        lemma_holds_at_last(s, at, front3, w3);
        lemma_holds_at_last(s, at, front2, w2);
        lemma_holds_at_last(s, at, front1, w1);
        i8::lemma_round_trip(v.frame_version, s, at);
        i8::lemma_round_trip(v.record_type, s, at + front1.len());
        i8::lemma_round_trip(v.version, s, at + front2.len());
        CompactString::lemma_round_trip(v.name, s, at + front3.len());
        Uuid::lemma_round_trip(v.id, s, at + front4.len());
        TagBuffer::lemma_round_trip(v.tag_buffers, s, at + front5.len());
    }
}

/// The metadata record that describes one partition of a topic.
#[derive(Debug, Clone, PartialEq, Eq)]
pub struct ParitionRecord {
    pub frame_version: i8,
    pub record_type: i8,
    pub version: i8,
    pub parition_id: i32,
    pub topic_id: Uuid,
    pub replica_nodes: CompactArray<RepicaNode>,
    pub isr_nodes: CompactArray<RepicaNode>,
    pub removing_replicas_nodes: CompactArray<RepicaNode>,
    pub adding_replicas_nodes: CompactArray<RepicaNode>,
    pub leader_id: i32,
    pub leader_epoch: i32,
    pub partition_epoch: i32,
    pub directories: CompactArray<Directory>,
    pub tag_buffers: TagBuffer,
}

/// The value that a [`ParitionRecord`] stands for.
pub struct ParitionRecordModel {
    pub frame_version: i8,
    pub record_type: i8,
    pub version: i8,
    pub parition_id: i32,
    pub topic_id: u128,
    pub replica_nodes: Option<Seq<RepicaNodeModel>>,
    pub isr_nodes: Option<Seq<RepicaNodeModel>>,
    pub removing_replicas_nodes: Option<Seq<RepicaNodeModel>>,
    pub adding_replicas_nodes: Option<Seq<RepicaNodeModel>>,
    pub leader_id: i32,
    pub leader_epoch: i32,
    pub partition_epoch: i32,
    pub directories: Option<Seq<DirectoryModel>>,
    pub tag_buffers: TagBufferModel,
}

impl Model for ParitionRecord {
    type M = ParitionRecordModel;

    open spec fn model(&self) -> ParitionRecordModel {
        ParitionRecordModel {
            frame_version: self.frame_version.model(),
            record_type: self.record_type.model(),
            version: self.version.model(),
            parition_id: self.parition_id.model(),
            topic_id: self.topic_id.model(),
            replica_nodes: self.replica_nodes.model(),
            isr_nodes: self.isr_nodes.model(),
            removing_replicas_nodes: self.removing_replicas_nodes.model(),
            adding_replicas_nodes: self.adding_replicas_nodes.model(),
            leader_id: self.leader_id.model(),
            leader_epoch: self.leader_epoch.model(),
            partition_epoch: self.partition_epoch.model(),
            directories: self.directories.model(),
            tag_buffers: self.tag_buffers.model(),
        }
    }

    fn duplicate(&self) -> (r: Self) {
        ParitionRecord {
            frame_version: self.frame_version.duplicate(),
            record_type: self.record_type.duplicate(),
            version: self.version.duplicate(),
            parition_id: self.parition_id.duplicate(),
            topic_id: self.topic_id.duplicate(),
            replica_nodes: self.replica_nodes.duplicate(),
            isr_nodes: self.isr_nodes.duplicate(),
            removing_replicas_nodes: self.removing_replicas_nodes.duplicate(),
            adding_replicas_nodes: self.adding_replicas_nodes.duplicate(),
            leader_id: self.leader_id.duplicate(),
            leader_epoch: self.leader_epoch.duplicate(),
            partition_epoch: self.partition_epoch.duplicate(),
            directories: self.directories.duplicate(),
            tag_buffers: self.tag_buffers.duplicate(),
        }
    }
}

impl Encode for ParitionRecord {
    open spec fn wire(v: ParitionRecordModel) -> Seq<u8> {
        i8::wire(v.frame_version)
            + i8::wire(v.record_type)
            + i8::wire(v.version)
            + i32::wire(v.parition_id)
            + Uuid::wire(v.topic_id)
            + CompactArray::<RepicaNode>::wire(v.replica_nodes)
            + CompactArray::<RepicaNode>::wire(v.isr_nodes)
            + CompactArray::<RepicaNode>::wire(v.removing_replicas_nodes)
            + CompactArray::<RepicaNode>::wire(v.adding_replicas_nodes)
            + i32::wire(v.leader_id)
            + i32::wire(v.leader_epoch)
            + i32::wire(v.partition_epoch)
            + CompactArray::<Directory>::wire(v.directories)
            + TagBuffer::wire(v.tag_buffers)
    }

    open spec fn encodable(v: ParitionRecordModel) -> bool {
        &&& i8::encodable(v.frame_version)
        &&& i8::encodable(v.record_type)
        &&& i8::encodable(v.version)
        &&& i32::encodable(v.parition_id)
        &&& Uuid::encodable(v.topic_id)
        &&& CompactArray::<RepicaNode>::encodable(v.replica_nodes)
        &&& CompactArray::<RepicaNode>::encodable(v.isr_nodes)
        &&& CompactArray::<RepicaNode>::encodable(v.removing_replicas_nodes)
        &&& CompactArray::<RepicaNode>::encodable(v.adding_replicas_nodes)
        &&& i32::encodable(v.leader_id)
        &&& i32::encodable(v.leader_epoch)
        &&& i32::encodable(v.partition_epoch)
        &&& CompactArray::<Directory>::encodable(v.directories)
        &&& TagBuffer::encodable(v.tag_buffers)
    }

    fn is_encodable(&self) -> (b: bool) {
        self.frame_version.is_encodable()
            && self.record_type.is_encodable()
            && self.version.is_encodable()
            && self.parition_id.is_encodable()
            && self.topic_id.is_encodable()
            && self.replica_nodes.is_encodable()
            && self.isr_nodes.is_encodable()
            && self.removing_replicas_nodes.is_encodable()
            && self.adding_replicas_nodes.is_encodable()
            && self.leader_id.is_encodable()
            && self.leader_epoch.is_encodable()
            && self.partition_epoch.is_encodable()
            && self.directories.is_encodable()
            && self.tag_buffers.is_encodable()
    }

    fn encode(&self) -> (out: Vec<u8>) {
        let mut out = self.frame_version.encode();
        let mut piece = self.record_type.encode();
        out.append(&mut piece);
        let mut piece = self.version.encode();
        out.append(&mut piece);
        let mut piece = self.parition_id.encode();
        out.append(&mut piece);
        let mut piece = self.topic_id.encode();
        out.append(&mut piece);
        let mut piece = self.replica_nodes.encode();
        out.append(&mut piece);
        let mut piece = self.isr_nodes.encode();
        out.append(&mut piece);
        let mut piece = self.removing_replicas_nodes.encode();
        out.append(&mut piece);
        let mut piece = self.adding_replicas_nodes.encode();
        out.append(&mut piece);
        let mut piece = self.leader_id.encode();
        out.append(&mut piece);
        let mut piece = self.leader_epoch.encode();
        out.append(&mut piece);
        let mut piece = self.partition_epoch.encode();
        out.append(&mut piece);
        let mut piece = self.directories.encode();
        out.append(&mut piece);
        let mut piece = self.tag_buffers.encode();
        out.append(&mut piece);
        out
    }
}

impl Decode for ParitionRecord {
    open spec fn parse(s: Seq<u8>, at: int) -> Parsed<ParitionRecordModel> {
        let frame_version = i8::parse(s, at);
        let record_type = i8::parse(s, end_of(frame_version));
        let version = i8::parse(s, end_of(record_type));
        let parition_id = i32::parse(s, end_of(version));
        let topic_id = Uuid::parse(s, end_of(parition_id));
        let replica_nodes = CompactArray::<RepicaNode>::parse(s, end_of(topic_id));
        let isr_nodes = CompactArray::<RepicaNode>::parse(s, end_of(replica_nodes));
        let removing_replicas_nodes = CompactArray::<RepicaNode>::parse(s, end_of(isr_nodes));
        let adding_replicas_nodes = CompactArray::<RepicaNode>::parse(s, end_of(removing_replicas_nodes));
        let leader_id = i32::parse(s, end_of(adding_replicas_nodes));
        let leader_epoch = i32::parse(s, end_of(leader_id));
        let partition_epoch = i32::parse(s, end_of(leader_epoch));
        let directories = CompactArray::<Directory>::parse(s, end_of(partition_epoch));
        let tag_buffers = TagBuffer::parse(s, end_of(directories));
        if frame_version is Err {
            Err(error_of(frame_version))
        } else if record_type is Err {
            Err(error_of(record_type))
        } else if version is Err {
            Err(error_of(version))
        } else if parition_id is Err {
            Err(error_of(parition_id))
        } else if topic_id is Err {
            Err(error_of(topic_id))
        } else if replica_nodes is Err {
            Err(error_of(replica_nodes))
        } else if isr_nodes is Err {
            Err(error_of(isr_nodes))
        } else if removing_replicas_nodes is Err {
            Err(error_of(removing_replicas_nodes))
        } else if adding_replicas_nodes is Err {
            Err(error_of(adding_replicas_nodes))
        } else if leader_id is Err {
            Err(error_of(leader_id))
        } else if leader_epoch is Err {
            Err(error_of(leader_epoch))
        } else if partition_epoch is Err {
            Err(error_of(partition_epoch))
        } else if directories is Err {
            Err(error_of(directories))
        } else if tag_buffers is Err {
            Err(error_of(tag_buffers))
        } else {
            Ok((
                ParitionRecordModel {
                    frame_version: value_of(frame_version),
                    record_type: value_of(record_type),
                    version: value_of(version),
                    parition_id: value_of(parition_id),
                    topic_id: value_of(topic_id),
                    replica_nodes: value_of(replica_nodes),
                    isr_nodes: value_of(isr_nodes),
                    removing_replicas_nodes: value_of(removing_replicas_nodes),
                    adding_replicas_nodes: value_of(adding_replicas_nodes),
                    leader_id: value_of(leader_id),
                    leader_epoch: value_of(leader_epoch),
                    partition_epoch: value_of(partition_epoch),
                    directories: value_of(directories),
                    tag_buffers: value_of(tag_buffers),
                },
                end_of(tag_buffers),
            ))
        }
    }

    proof fn lemma_parse_in_bounds(s: Seq<u8>, at: int) {
        i8::lemma_parse_in_bounds(s, at);
        let frame_version = i8::parse(s, at);
        i8::lemma_parse_in_bounds(s, end_of(frame_version));
        let record_type = i8::parse(s, end_of(frame_version));
        i8::lemma_parse_in_bounds(s, end_of(record_type));
        let version = i8::parse(s, end_of(record_type));
        i32::lemma_parse_in_bounds(s, end_of(version));
        let parition_id = i32::parse(s, end_of(version));
        Uuid::lemma_parse_in_bounds(s, end_of(parition_id));
        let topic_id = Uuid::parse(s, end_of(parition_id));
        CompactArray::<RepicaNode>::lemma_parse_in_bounds(s, end_of(topic_id));
        let replica_nodes = CompactArray::<RepicaNode>::parse(s, end_of(topic_id));
        CompactArray::<RepicaNode>::lemma_parse_in_bounds(s, end_of(replica_nodes));
        let isr_nodes = CompactArray::<RepicaNode>::parse(s, end_of(replica_nodes));
        CompactArray::<RepicaNode>::lemma_parse_in_bounds(s, end_of(isr_nodes));
        let removing_replicas_nodes = CompactArray::<RepicaNode>::parse(s, end_of(isr_nodes));
        CompactArray::<RepicaNode>::lemma_parse_in_bounds(s, end_of(removing_replicas_nodes));
        let adding_replicas_nodes = CompactArray::<RepicaNode>::parse(s, end_of(removing_replicas_nodes));
        i32::lemma_parse_in_bounds(s, end_of(adding_replicas_nodes));
        let leader_id = i32::parse(s, end_of(adding_replicas_nodes));
        i32::lemma_parse_in_bounds(s, end_of(leader_id));
        let leader_epoch = i32::parse(s, end_of(leader_id));
        i32::lemma_parse_in_bounds(s, end_of(leader_epoch));
        let partition_epoch = i32::parse(s, end_of(leader_epoch));
        CompactArray::<Directory>::lemma_parse_in_bounds(s, end_of(partition_epoch));
        let directories = CompactArray::<Directory>::parse(s, end_of(partition_epoch));
        TagBuffer::lemma_parse_in_bounds(s, end_of(directories));
    }

    proof fn lemma_parse_extends(s: Seq<u8>, t: Seq<u8>, at: int) {
        i8::lemma_parse_extends(s, t, at);
        let frame_version = i8::parse(s, at);
        i8::lemma_parse_extends(s, t, end_of(frame_version));
        let record_type = i8::parse(s, end_of(frame_version));
        i8::lemma_parse_extends(s, t, end_of(record_type));
        let version = i8::parse(s, end_of(record_type));
        i32::lemma_parse_extends(s, t, end_of(version));
        let parition_id = i32::parse(s, end_of(version));
        Uuid::lemma_parse_extends(s, t, end_of(parition_id));
        let topic_id = Uuid::parse(s, end_of(parition_id));
        CompactArray::<RepicaNode>::lemma_parse_extends(s, t, end_of(topic_id));
        let replica_nodes = CompactArray::<RepicaNode>::parse(s, end_of(topic_id));
        CompactArray::<RepicaNode>::lemma_parse_extends(s, t, end_of(replica_nodes));
        let isr_nodes = CompactArray::<RepicaNode>::parse(s, end_of(replica_nodes));
        CompactArray::<RepicaNode>::lemma_parse_extends(s, t, end_of(isr_nodes));
        let removing_replicas_nodes = CompactArray::<RepicaNode>::parse(s, end_of(isr_nodes));
        CompactArray::<RepicaNode>::lemma_parse_extends(s, t, end_of(removing_replicas_nodes));
        let adding_replicas_nodes = CompactArray::<RepicaNode>::parse(s, end_of(removing_replicas_nodes));
        i32::lemma_parse_extends(s, t, end_of(adding_replicas_nodes));
        let leader_id = i32::parse(s, end_of(adding_replicas_nodes));
        i32::lemma_parse_extends(s, t, end_of(leader_id));
        let leader_epoch = i32::parse(s, end_of(leader_id));
        i32::lemma_parse_extends(s, t, end_of(leader_epoch));
        let partition_epoch = i32::parse(s, end_of(leader_epoch));
        CompactArray::<Directory>::lemma_parse_extends(s, t, end_of(partition_epoch));
        let directories = CompactArray::<Directory>::parse(s, end_of(partition_epoch));
        TagBuffer::lemma_parse_extends(s, t, end_of(directories));
    }

    fn decode(buffer: &mut Cursor) -> (r: DecodeResult<Self>) {
        let frame_version = i8::decode(buffer)?;
        let record_type = i8::decode(buffer)?;
        let version = i8::decode(buffer)?;
        let parition_id = i32::decode(buffer)?;
        let topic_id = Uuid::decode(buffer)?;
        let replica_nodes = CompactArray::<RepicaNode>::decode(buffer)?;
        let isr_nodes = CompactArray::<RepicaNode>::decode(buffer)?;
        let removing_replicas_nodes = CompactArray::<RepicaNode>::decode(buffer)?;
        let adding_replicas_nodes = CompactArray::<RepicaNode>::decode(buffer)?;
        let leader_id = i32::decode(buffer)?;
        let leader_epoch = i32::decode(buffer)?;
        let partition_epoch = i32::decode(buffer)?;
        let directories = CompactArray::<Directory>::decode(buffer)?;
        let tag_buffers = TagBuffer::decode(buffer)?;
        Ok(ParitionRecord { frame_version, record_type, version, parition_id, topic_id, replica_nodes, isr_nodes, removing_replicas_nodes, adding_replicas_nodes, leader_id, leader_epoch, partition_epoch, directories, tag_buffers })
    }
}

impl Codec for ParitionRecord {
    open spec fn canonical(v: ParitionRecordModel) -> bool {
        &&& i8::canonical(v.frame_version)
        &&& i8::canonical(v.record_type)
        &&& i8::canonical(v.version)
        &&& i32::canonical(v.parition_id)
        &&& Uuid::canonical(v.topic_id)
        &&& CompactArray::<RepicaNode>::canonical(v.replica_nodes)
        &&& CompactArray::<RepicaNode>::canonical(v.isr_nodes)
        &&& CompactArray::<RepicaNode>::canonical(v.removing_replicas_nodes)
        &&& CompactArray::<RepicaNode>::canonical(v.adding_replicas_nodes)
        &&& i32::canonical(v.leader_id)
        &&& i32::canonical(v.leader_epoch)
        &&& i32::canonical(v.partition_epoch)
        &&& CompactArray::<Directory>::canonical(v.directories)
        &&& TagBuffer::canonical(v.tag_buffers)
    }

    proof fn lemma_round_trip(v: ParitionRecordModel, s: Seq<u8>, at: int) {
        let w0 = i8::wire(v.frame_version);
        let w1 = i8::wire(v.record_type);
        let w2 = i8::wire(v.version);
        let w3 = i32::wire(v.parition_id);
        let w4 = Uuid::wire(v.topic_id);
        let w5 = CompactArray::<RepicaNode>::wire(v.replica_nodes);
        let w6 = CompactArray::<RepicaNode>::wire(v.isr_nodes);
        let w7 = CompactArray::<RepicaNode>::wire(v.removing_replicas_nodes);
        let w8 = CompactArray::<RepicaNode>::wire(v.adding_replicas_nodes);
        let w9 = i32::wire(v.leader_id);
        let w10 = i32::wire(v.leader_epoch);
        let w11 = i32::wire(v.partition_epoch);
        let w12 = CompactArray::<Directory>::wire(v.directories);
        let w13 = TagBuffer::wire(v.tag_buffers);
        let front1 = w0;
        let front2 = front1 + w1;
        let front3 = front2 + w2;
        let front4 = front3 + w3;
        let front5 = front4 + w4;
        let front6 = front5 + w5;
        let front7 = front6 + w6;
        let front8 = front7 + w7;
        let front9 = front8 + w8;
        let front10 = front9 + w9;
        let front11 = front10 + w10;
        let front12 = front11 + w11;
        let front13 = front12 + w12;
        lemma_holds_at_last(s, at, front13, w13);
        lemma_holds_at_last(s, at, front12, w12);
        lemma_holds_at_last(s, at, front11, w11);
        lemma_holds_at_last(s, at, front10, w10);
        lemma_holds_at_last(s, at, front9, w9);
        lemma_holds_at_last(s, at, front8, w8);
        lemma_holds_at_last(s, at, front7, w7);
        lemma_holds_at_last(s, at, front6, w6);
        lemma_holds_at_last(s, at, front5, w5);
        lemma_holds_at_last(s, at, front4, w4);
        lemma_holds_at_last(s, at, front3, w3);
        lemma_holds_at_last(s, at, front2, w2);
        lemma_holds_at_last(s, at, front1, w1);
        i8::lemma_round_trip(v.frame_version, s, at);
        i8::lemma_round_trip(v.record_type, s, at + front1.len());
        i8::lemma_round_trip(v.version, s, at + front2.len());
        i32::lemma_round_trip(v.parition_id, s, at + front3.len());
        Uuid::lemma_round_trip(v.topic_id, s, at + front4.len());
        CompactArray::<RepicaNode>::lemma_round_trip(v.replica_nodes, s, at + front5.len());
        CompactArray::<RepicaNode>::lemma_round_trip(v.isr_nodes, s, at + front6.len());
        CompactArray::<RepicaNode>::lemma_round_trip(v.removing_replicas_nodes, s, at + front7.len());
        CompactArray::<RepicaNode>::lemma_round_trip(v.adding_replicas_nodes, s, at + front8.len());
        i32::lemma_round_trip(v.leader_id, s, at + front9.len());
        i32::lemma_round_trip(v.leader_epoch, s, at + front10.len());
        i32::lemma_round_trip(v.partition_epoch, s, at + front11.len());
        CompactArray::<Directory>::lemma_round_trip(v.directories, s, at + front12.len());
        TagBuffer::lemma_round_trip(v.tag_buffers, s, at + front13.len());
    }
}

/// The metadata record that sets the level of a feature.
#[derive(Debug, Clone, PartialEq, Eq)]
pub struct FeatureLevelRecord {
    pub frame_version: i8,
    pub record_type: i8,
    pub version: i8,
    pub name: CompactString,
    pub feature_level: i16,
    pub tag_buffers: TagBuffer,
}

/// The value that a [`FeatureLevelRecord`] stands for.
pub struct FeatureLevelRecordModel {
    pub frame_version: i8,
    pub record_type: i8,
    pub version: i8,
    pub name: Seq<char>,
    pub feature_level: i16,
    pub tag_buffers: TagBufferModel,
}

impl Model for FeatureLevelRecord {
    type M = FeatureLevelRecordModel;

    open spec fn model(&self) -> FeatureLevelRecordModel {
        FeatureLevelRecordModel {
            frame_version: self.frame_version.model(),
            record_type: self.record_type.model(),
            version: self.version.model(),
            name: self.name.model(),
            feature_level: self.feature_level.model(),
            tag_buffers: self.tag_buffers.model(),
        }
    }

    fn duplicate(&self) -> (r: Self) {
        FeatureLevelRecord {
            frame_version: self.frame_version.duplicate(),
            record_type: self.record_type.duplicate(),
            version: self.version.duplicate(),
            name: self.name.duplicate(),
            feature_level: self.feature_level.duplicate(),
            tag_buffers: self.tag_buffers.duplicate(),
        }
    }
}

impl Encode for FeatureLevelRecord {
    open spec fn wire(v: FeatureLevelRecordModel) -> Seq<u8> {
        i8::wire(v.frame_version)
            + i8::wire(v.record_type)
            + i8::wire(v.version)
            + CompactString::wire(v.name)
            + i16::wire(v.feature_level)
            + TagBuffer::wire(v.tag_buffers)
    }

    open spec fn encodable(v: FeatureLevelRecordModel) -> bool {
        &&& i8::encodable(v.frame_version)
        &&& i8::encodable(v.record_type)
        &&& i8::encodable(v.version)
        &&& CompactString::encodable(v.name)
        &&& i16::encodable(v.feature_level)
        &&& TagBuffer::encodable(v.tag_buffers)
    }

    fn is_encodable(&self) -> (b: bool) {
        self.frame_version.is_encodable()
            && self.record_type.is_encodable()
            && self.version.is_encodable()
            && self.name.is_encodable()
            && self.feature_level.is_encodable()
            && self.tag_buffers.is_encodable()
    }

    fn encode(&self) -> (out: Vec<u8>) {
        let mut out = self.frame_version.encode();
        let mut piece = self.record_type.encode();
        out.append(&mut piece);
        let mut piece = self.version.encode();
        out.append(&mut piece);
        let mut piece = self.name.encode();
        out.append(&mut piece);
        let mut piece = self.feature_level.encode();
        out.append(&mut piece);
        let mut piece = self.tag_buffers.encode();
        out.append(&mut piece);
        out
    }
}

impl Decode for FeatureLevelRecord {
    open spec fn parse(s: Seq<u8>, at: int) -> Parsed<FeatureLevelRecordModel> {
        let frame_version = i8::parse(s, at);
        let record_type = i8::parse(s, end_of(frame_version));
        let version = i8::parse(s, end_of(record_type));
        let name = CompactString::parse(s, end_of(version));
        let feature_level = i16::parse(s, end_of(name));
        let tag_buffers = TagBuffer::parse(s, end_of(feature_level));
        if frame_version is Err {
            Err(error_of(frame_version))
        } else if record_type is Err {
            Err(error_of(record_type))
        } else if version is Err {
            Err(error_of(version))
        } else if name is Err {
            Err(error_of(name))
        } else if feature_level is Err {
            Err(error_of(feature_level))
        } else if tag_buffers is Err {
            Err(error_of(tag_buffers))
        } else {
            Ok((
                FeatureLevelRecordModel {
                    frame_version: value_of(frame_version),
                    record_type: value_of(record_type),
                    version: value_of(version),
                    name: value_of(name),
                    feature_level: value_of(feature_level),
                    tag_buffers: value_of(tag_buffers),
                },
                end_of(tag_buffers),
            ))
        }
    }

    proof fn lemma_parse_in_bounds(s: Seq<u8>, at: int) {
        i8::lemma_parse_in_bounds(s, at);
        let frame_version = i8::parse(s, at);
        i8::lemma_parse_in_bounds(s, end_of(frame_version));
        let record_type = i8::parse(s, end_of(frame_version));
        i8::lemma_parse_in_bounds(s, end_of(record_type));
        let version = i8::parse(s, end_of(record_type));
        CompactString::lemma_parse_in_bounds(s, end_of(version));
        let name = CompactString::parse(s, end_of(version));
        i16::lemma_parse_in_bounds(s, end_of(name));
        let feature_level = i16::parse(s, end_of(name));
        TagBuffer::lemma_parse_in_bounds(s, end_of(feature_level));
    }

    proof fn lemma_parse_extends(s: Seq<u8>, t: Seq<u8>, at: int) {
        i8::lemma_parse_extends(s, t, at);
        let frame_version = i8::parse(s, at);
        i8::lemma_parse_extends(s, t, end_of(frame_version));
        let record_type = i8::parse(s, end_of(frame_version));
        i8::lemma_parse_extends(s, t, end_of(record_type));
        let version = i8::parse(s, end_of(record_type));
        CompactString::lemma_parse_extends(s, t, end_of(version));
        let name = CompactString::parse(s, end_of(version));
        i16::lemma_parse_extends(s, t, end_of(name));
        let feature_level = i16::parse(s, end_of(name));
        TagBuffer::lemma_parse_extends(s, t, end_of(feature_level));
    }

    fn decode(buffer: &mut Cursor) -> (r: DecodeResult<Self>) {
        let frame_version = i8::decode(buffer)?;
        let record_type = i8::decode(buffer)?;
        let version = i8::decode(buffer)?;
        let name = CompactString::decode(buffer)?;
        let feature_level = i16::decode(buffer)?;
        let tag_buffers = TagBuffer::decode(buffer)?;
        Ok(FeatureLevelRecord { frame_version, record_type, version, name, feature_level, tag_buffers })
    }
}

impl Codec for FeatureLevelRecord {
    open spec fn canonical(v: FeatureLevelRecordModel) -> bool {
        &&& i8::canonical(v.frame_version)
        &&& i8::canonical(v.record_type)
        &&& i8::canonical(v.version)
        &&& CompactString::canonical(v.name)
        &&& i16::canonical(v.feature_level)
        &&& TagBuffer::canonical(v.tag_buffers)
    }

    proof fn lemma_round_trip(v: FeatureLevelRecordModel, s: Seq<u8>, at: int) {
        let w0 = i8::wire(v.frame_version);
        let w1 = i8::wire(v.record_type);
        let w2 = i8::wire(v.version);
        let w3 = CompactString::wire(v.name);
        let w4 = i16::wire(v.feature_level);
        let w5 = TagBuffer::wire(v.tag_buffers);
        let front1 = w0;
        let front2 = front1 + w1;
        let front3 = front2 + w2;
        let front4 = front3 + w3;
        let front5 = front4 + w4;
        lemma_holds_at_last(s, at, front5, w5);
        lemma_holds_at_last(s, at, front4, w4);
        lemma_holds_at_last(s, at, front3, w3);
        lemma_holds_at_last(s, at, front2, w2);
        lemma_holds_at_last(s, at, front1, w1);
        i8::lemma_round_trip(v.frame_version, s, at);
        i8::lemma_round_trip(v.record_type, s, at + front1.len());
        i8::lemma_round_trip(v.version, s, at + front2.len());
        CompactString::lemma_round_trip(v.name, s, at + front3.len());
        i16::lemma_round_trip(v.feature_level, s, at + front4.len());
        TagBuffer::lemma_round_trip(v.tag_buffers, s, at + front5.len());
    }
}

/// The key of a record: bytes behind a signed length, or null where the
/// length is negative.
#[derive(Debug, Clone, PartialEq, Eq)]
pub struct RecordKey {
    inner: Option<Vec<u8>>,
}

impl Model for RecordKey {
    type M = Option<Seq<u8>>;

    closed spec fn model(&self) -> Option<Seq<u8>> {
        match self.inner {
            None => None,
            Some(x) => Some(x@),
        }
    }

    fn duplicate(&self) -> (r: Self) {
        match &self.inner {
            None => RecordKey { inner: None },
            Some(x) => RecordKey { inner: Some(x.clone()) },
        }
    }
}

impl RecordKey {
    pub fn new(inner: Option<Vec<u8>>) -> (r: Self)
        ensures
            r.model() == match inner {
                None => None::<Seq<u8>>,
                Some(x) => Some(x@),
            },
    {
        Self { inner }
    }

    pub fn get_inner(&self) -> (r: &Option<Vec<u8>>)
        ensures
            match r {
                None => self.model() == None::<Seq<u8>>,
                Some(x) => self.model() == Some(x@),
            },
    {
        &self.inner
    }
}

impl Encode for RecordKey {
    open spec fn wire(v: Option<Seq<u8>>) -> Seq<u8> {
        match v {
            None => seq![1u8],
            Some(b) => wire_signed_len(b.len() as int) + b,
        }
    }

    open spec fn encodable(v: Option<Seq<u8>>) -> bool {
        match v {
            None => true,
            Some(b) => b.len() <= i64::MAX,
        }
    }

    fn is_encodable(&self) -> (b: bool) {
        match &self.inner {
            None => true,
            Some(x) => (x.len() as u64) <= 0x7fff_ffff_ffff_ffff,
        }
    }

    fn encode(&self) -> (out: Vec<u8>) {
        match &self.inner {
            None => {
                let mut out: Vec<u8> = Vec::new();
                out.push(1u8);
                assert(out@ =~= seq![1u8]);
                out
            },
            Some(x) => put_signed_bytes(x.as_slice()),
        }
    }
}

impl Decode for RecordKey {
    open spec fn parse(s: Seq<u8>, at: int) -> Parsed<Option<Seq<u8>>> {
        match parse_signed_len(s, at) {
            Ok((n, next)) => if n >= 0 {
                match parse_bytes(s, next, n as nat) {
                    Ok((b, end)) => Ok((Some(b), end)),
                    Err(e) => Err(e),
                }
            } else {
                Ok((None, next))
            },
            Err(e) => Err(e),
        }
    }

    proof fn lemma_parse_in_bounds(s: Seq<u8>, at: int) {
        lemma_parse_varint_shape(s, at);
    }

    proof fn lemma_parse_extends(s: Seq<u8>, t: Seq<u8>, at: int) {
        lemma_parse_varint_shape(s, at);
        lemma_parse_varint_extends(s, t, at);
        if let Ok((n, next)) = parse_signed_len(s, at) {
            if n >= 0 && parse_bytes(s, next, n as nat) is Ok {
                lemma_parse_bytes_extends(s, t, next, n as nat);
            }
        }
    }

    fn decode(buffer: &mut Cursor) -> (r: DecodeResult<Self>) {
        let n: i64 = get_signed_len(buffer)?;
        if n >= 0 {
            let bytes = buffer.read_exact(n as u64)?;
            Ok(RecordKey { inner: Some(bytes) })
        } else {
            Ok(RecordKey { inner: None })
        }
    }
}

impl Codec for RecordKey {
    open spec fn canonical(v: Option<Seq<u8>>) -> bool {
        true
    }

    proof fn lemma_round_trip(v: Option<Seq<u8>>, s: Seq<u8>, at: int) {
        match v {
            None => {
                assert(wire_signed_len(-1) =~= seq![1u8]);
                lemma_parse_signed_len_round_trip(-1, s, at);
            },
            Some(b) => {
                reveal(holds_at);
                lemma_holds_at_split(s, at, wire_signed_len(b.len() as int), b);
                lemma_parse_signed_len_round_trip(b.len() as int, s, at);
            },
        }
    }
}

/// The value of a record: one of the metadata records that the reader knows
/// by its type byte, or the raw bytes of one that it does not know.
#[derive(Debug, Clone, PartialEq, Eq)]
pub enum RecordValue {
    Topic(TopicRecord),
    Partition(ParitionRecord),
    FeatureLevel(FeatureLevelRecord),
    Unknown(Vec<u8>),
}

/// The value that a [`RecordValue`] stands for.
pub enum RecordValueModel {
    Topic(TopicRecordModel),
    Partition(ParitionRecordModel),
    FeatureLevel(FeatureLevelRecordModel),
    Unknown(Seq<u8>),
}

impl Model for RecordValue {
    type M = RecordValueModel;

    open spec fn model(&self) -> RecordValueModel {
        match self {
            RecordValue::Topic(r) => RecordValueModel::Topic(r.model()),
            RecordValue::Partition(r) => RecordValueModel::Partition(r.model()),
            RecordValue::FeatureLevel(r) => RecordValueModel::FeatureLevel(r.model()),
            RecordValue::Unknown(b) => RecordValueModel::Unknown(b@),
        }
    }

    fn duplicate(&self) -> (r: Self) {
        match self {
            RecordValue::Topic(x) => RecordValue::Topic(x.duplicate()),
            RecordValue::Partition(x) => RecordValue::Partition(x.duplicate()),
            RecordValue::FeatureLevel(x) => RecordValue::FeatureLevel(x.duplicate()),
            RecordValue::Unknown(b) => RecordValue::Unknown(b.clone()),
        }
    }
}

impl RecordValue {
    pub fn is_unknown(&self) -> (b: bool)
        ensures
            b == (self.model() is Unknown),
    {
        match self {
            RecordValue::Unknown(_) => true,
            _ => false,
        }
    }
}

/// The bytes of a record value behind its length.
pub open spec fn record_value_body(v: RecordValueModel) -> Seq<u8> {
    match v {
        RecordValueModel::Topic(r) => TopicRecord::wire(r),
        RecordValueModel::Partition(r) => ParitionRecord::wire(r),
        RecordValueModel::FeatureLevel(r) => FeatureLevelRecord::wire(r),
        RecordValueModel::Unknown(b) => b,
    }
}

impl Encode for RecordValue {
    open spec fn wire(v: RecordValueModel) -> Seq<u8> {
        wire_signed_len(record_value_body(v).len() as int) + record_value_body(v)
    }

    open spec fn encodable(v: RecordValueModel) -> bool {
        &&& record_value_body(v).len() <= i64::MAX
        &&& match v {
            RecordValueModel::Topic(r) => TopicRecord::encodable(r),
            RecordValueModel::Partition(r) => ParitionRecord::encodable(r),
            RecordValueModel::FeatureLevel(r) => FeatureLevelRecord::encodable(r),
            RecordValueModel::Unknown(b) => true,
        }
    }

    fn is_encodable(&self) -> (b: bool) {
        match self {
            RecordValue::Topic(r) => r.is_encodable() && (r.encode().len() as u64)
                <= 0x7fff_ffff_ffff_ffff,
            RecordValue::Partition(r) => r.is_encodable() && (r.encode().len() as u64)
                <= 0x7fff_ffff_ffff_ffff,
            RecordValue::FeatureLevel(r) => r.is_encodable() && (r.encode().len() as u64)
                <= 0x7fff_ffff_ffff_ffff,
            RecordValue::Unknown(body) => (body.len() as u64) <= 0x7fff_ffff_ffff_ffff,
        }
    }

    fn encode(&self) -> (out: Vec<u8>) {
        match self {
            RecordValue::Topic(r) => {
                let body = r.encode();
                put_signed_bytes(body.as_slice())
            },
            RecordValue::Partition(r) => {
                let body = r.encode();
                put_signed_bytes(body.as_slice())
            },
            RecordValue::FeatureLevel(r) => {
                let body = r.encode();
                put_signed_bytes(body.as_slice())
            },
            RecordValue::Unknown(body) => put_signed_bytes(body.as_slice()),
        }
    }
}

impl Decode for RecordValue {
    /// Behind the length stand the frame version and the type byte. A known
    /// type decides which record is read from there; of any other type the
    /// announced number of bytes is kept as it is.
    open spec fn parse(s: Seq<u8>, at: int) -> Parsed<RecordValueModel> {
        match parse_signed_len(s, at) {
            Err(e) => Err(e),
            Ok((n, start)) => {
                let frame = i8::parse(s, start);
                let kind = i8::parse(s, end_of(frame));
                if frame is Err {
                    Err(error_of(frame))
                } else if kind is Err {
                    Err(error_of(kind))
                } else if value_of(kind) == 0x02 {
                    match TopicRecord::parse(s, start) {
                        Ok((r, end)) => Ok((RecordValueModel::Topic(r), end)),
                        Err(e) => Err(e),
                    }
                } else if value_of(kind) == 0x03 {
                    match ParitionRecord::parse(s, start) {
                        Ok((r, end)) => Ok((RecordValueModel::Partition(r), end)),
                        Err(e) => Err(e),
                    }
                } else if value_of(kind) == 0x0c {
                    match FeatureLevelRecord::parse(s, start) {
                        Ok((r, end)) => Ok((RecordValueModel::FeatureLevel(r), end)),
                        Err(e) => Err(e),
                    }
                } else if n < 0 {
                    Err(DecodeError::Other(Fault::NegativeLength))
                } else {
                    match parse_bytes(s, start, n as nat) {
                        Ok((b, end)) => Ok((RecordValueModel::Unknown(b), end)),
                        Err(e) => Err(e),
                    }
                }
            },
        }
    }

    proof fn lemma_parse_in_bounds(s: Seq<u8>, at: int) {
        lemma_parse_varint_shape(s, at);
        if let Ok((n, start)) = parse_signed_len(s, at) {
            TopicRecord::lemma_parse_in_bounds(s, start);
            ParitionRecord::lemma_parse_in_bounds(s, start);
            FeatureLevelRecord::lemma_parse_in_bounds(s, start);
        }
    }

    proof fn lemma_parse_extends(s: Seq<u8>, t: Seq<u8>, at: int) {
        lemma_parse_varint_shape(s, at);
        lemma_parse_varint_extends(s, t, at);
        if let Ok((n, start)) = parse_signed_len(s, at) {
            i8::lemma_parse_extends(s, t, start);
            i8::lemma_parse_extends(s, t, end_of(i8::parse(s, start)));
            TopicRecord::lemma_parse_extends(s, t, start);
            ParitionRecord::lemma_parse_extends(s, t, start);
            FeatureLevelRecord::lemma_parse_extends(s, t, start);
            if n >= 0 && parse_bytes(s, start, n as nat) is Ok {
                lemma_parse_bytes_extends(s, t, start, n as nat);
            }
        }
    }

    fn decode(buffer: &mut Cursor) -> (r: DecodeResult<Self>) {
        let n: i64 = get_signed_len(buffer)?;
        let start: usize = buffer.position();
        let _frame_version: i8 = i8::decode(buffer)?;
        let record_type: i8 = i8::decode(buffer)?;
        buffer.set_position(start);
        if record_type == RecordType::TOPIC_RECORD {
            let record = TopicRecord::decode(buffer)?;
            Ok(RecordValue::Topic(record))
        } else if record_type == RecordType::PARITION_RECORD {
            let record = ParitionRecord::decode(buffer)?;
            Ok(RecordValue::Partition(record))
        } else if record_type == RecordType::FEATURE_LEVEL_RECORD {
            let record = FeatureLevelRecord::decode(buffer)?;
            Ok(RecordValue::FeatureLevel(record))
        } else if n < 0 {
            Err(DecodeError::Other(Fault::NegativeLength))
        } else {
            let bytes = buffer.read_exact(n as u64)?;
            Ok(RecordValue::Unknown(bytes))
        }
    }
}

impl Codec for RecordValue {
    /// A typed record carries its own type byte; raw bytes are long enough
    /// to hold a type byte, and it is none of the known ones.
    open spec fn canonical(v: RecordValueModel) -> bool {
        match v {
            RecordValueModel::Topic(r) => TopicRecord::canonical(r) && r.record_type == 0x02,
            RecordValueModel::Partition(r) => ParitionRecord::canonical(r) && r.record_type
                == 0x03,
            RecordValueModel::FeatureLevel(r) => FeatureLevelRecord::canonical(r)
                && r.record_type == 0x0c,
            RecordValueModel::Unknown(b) => b.len() >= 2 && b[1] != 0x02 && b[1] != 0x03 && b[1]
                != 0x0c,
        }
    }

    proof fn lemma_round_trip(v: RecordValueModel, s: Seq<u8>, at: int) {
        let body = record_value_body(v);
        let head = wire_signed_len(body.len() as int);
        lemma_holds_at_split(s, at, head, body);
        lemma_parse_signed_len_round_trip(body.len() as int, s, at);
        let start = at + head.len();
        match v {
            RecordValueModel::Topic(r) => {
                TopicRecord::lemma_round_trip(r, s, start);
            },
            RecordValueModel::Partition(r) => {
                ParitionRecord::lemma_round_trip(r, s, start);
            },
            RecordValueModel::FeatureLevel(r) => {
                FeatureLevelRecord::lemma_round_trip(r, s, start);
            },
            RecordValueModel::Unknown(b) => {
                reveal(holds_at);
                lemma_parse_i8(s, start);
                lemma_parse_i8(s, start + 1);
                assert(s[start + 1] == b[1]) by {
                    assert(s.subrange(start, start + b.len())[1] == b[1]);
                }
            },
        }
    }
}

/// One record of a batch. Its length is kept as it was read.
#[derive(Debug, Clone, PartialEq, Eq)]
pub struct Record {
    pub length: VarInt,
    pub attributes: i8,
    pub timestamp_delta: VarLong,
    pub offset_delta: VarInt,
    pub key: RecordKey,
    pub value: RecordValue,
    pub headers_array_count: CompactArray<RecordHeader>,
}

/// The value that a [`Record`] stands for.
pub struct RecordModel {
    pub length: Seq<u8>,
    pub attributes: i8,
    pub timestamp_delta: Seq<u8>,
    pub offset_delta: Seq<u8>,
    pub key: Option<Seq<u8>>,
    pub value: RecordValueModel,
    pub headers_array_count: Option<Seq<RecordHeaderModel>>,
}

impl Model for Record {
    type M = RecordModel;

    open spec fn model(&self) -> RecordModel {
        RecordModel {
            length: self.length.model(),
            attributes: self.attributes.model(),
            timestamp_delta: self.timestamp_delta.model(),
            offset_delta: self.offset_delta.model(),
            key: self.key.model(),
            value: self.value.model(),
            headers_array_count: self.headers_array_count.model(),
        }
    }

    fn duplicate(&self) -> (r: Self) {
        Record {
            length: self.length.duplicate(),
            attributes: self.attributes.duplicate(),
            timestamp_delta: self.timestamp_delta.duplicate(),
            offset_delta: self.offset_delta.duplicate(),
            key: self.key.duplicate(),
            value: self.value.duplicate(),
            headers_array_count: self.headers_array_count.duplicate(),
        }
    }
}

impl Encode for Record {
    open spec fn wire(v: RecordModel) -> Seq<u8> {
        VarInt::wire(v.length)
            + i8::wire(v.attributes)
            + VarLong::wire(v.timestamp_delta)
            + VarInt::wire(v.offset_delta)
            + RecordKey::wire(v.key)
            + RecordValue::wire(v.value)
            + CompactArray::<RecordHeader>::wire(v.headers_array_count)
    }

    open spec fn encodable(v: RecordModel) -> bool {
        &&& VarInt::encodable(v.length)
        &&& i8::encodable(v.attributes)
        &&& VarLong::encodable(v.timestamp_delta)
        &&& VarInt::encodable(v.offset_delta)
        &&& RecordKey::encodable(v.key)
        &&& RecordValue::encodable(v.value)
        &&& CompactArray::<RecordHeader>::encodable(v.headers_array_count)
    }

    fn is_encodable(&self) -> (b: bool) {
        self.length.is_encodable()
            && self.attributes.is_encodable()
            && self.timestamp_delta.is_encodable()
            && self.offset_delta.is_encodable()
            && self.key.is_encodable()
            && self.value.is_encodable()
            && self.headers_array_count.is_encodable()
    }

    fn encode(&self) -> (out: Vec<u8>) {
        let mut out = self.length.encode();
        let mut piece = self.attributes.encode();
        out.append(&mut piece);
        let mut piece = self.timestamp_delta.encode();
        out.append(&mut piece);
        let mut piece = self.offset_delta.encode();
        out.append(&mut piece);
        let mut piece = self.key.encode();
        out.append(&mut piece);
        let mut piece = self.value.encode();
        out.append(&mut piece);
        let mut piece = self.headers_array_count.encode();
        out.append(&mut piece);
        out
    }
}

impl Decode for Record {
    open spec fn parse(s: Seq<u8>, at: int) -> Parsed<RecordModel> {
        let length = VarInt::parse(s, at);
        let attributes = i8::parse(s, end_of(length));
        let timestamp_delta = VarLong::parse(s, end_of(attributes));
        let offset_delta = VarInt::parse(s, end_of(timestamp_delta));
        let key = RecordKey::parse(s, end_of(offset_delta));
        let value = RecordValue::parse(s, end_of(key));
        let headers_array_count = CompactArray::<RecordHeader>::parse(s, end_of(value));
        if length is Err {
            Err(error_of(length))
        } else if attributes is Err {
            Err(error_of(attributes))
        } else if timestamp_delta is Err {
            Err(error_of(timestamp_delta))
        } else if offset_delta is Err {
            Err(error_of(offset_delta))
        } else if key is Err {
            Err(error_of(key))
        } else if value is Err {
            Err(error_of(value))
        } else if headers_array_count is Err {
            Err(error_of(headers_array_count))
        } else {
            Ok((
                RecordModel {
                    length: value_of(length),
                    attributes: value_of(attributes),
                    timestamp_delta: value_of(timestamp_delta),
                    offset_delta: value_of(offset_delta),
                    key: value_of(key),
                    value: value_of(value),
                    headers_array_count: value_of(headers_array_count),
                },
                end_of(headers_array_count),
            ))
        }
    }

    proof fn lemma_parse_in_bounds(s: Seq<u8>, at: int) {
        VarInt::lemma_parse_in_bounds(s, at);
        let length = VarInt::parse(s, at);
        i8::lemma_parse_in_bounds(s, end_of(length));
        let attributes = i8::parse(s, end_of(length));
        VarLong::lemma_parse_in_bounds(s, end_of(attributes));
        let timestamp_delta = VarLong::parse(s, end_of(attributes));
        VarInt::lemma_parse_in_bounds(s, end_of(timestamp_delta));
        let offset_delta = VarInt::parse(s, end_of(timestamp_delta));
        RecordKey::lemma_parse_in_bounds(s, end_of(offset_delta));
        let key = RecordKey::parse(s, end_of(offset_delta));
        RecordValue::lemma_parse_in_bounds(s, end_of(key));
        let value = RecordValue::parse(s, end_of(key));
        CompactArray::<RecordHeader>::lemma_parse_in_bounds(s, end_of(value));
    }

    proof fn lemma_parse_extends(s: Seq<u8>, t: Seq<u8>, at: int) {
        VarInt::lemma_parse_extends(s, t, at);
        let length = VarInt::parse(s, at);
        i8::lemma_parse_extends(s, t, end_of(length));
        let attributes = i8::parse(s, end_of(length));
        VarLong::lemma_parse_extends(s, t, end_of(attributes));
        let timestamp_delta = VarLong::parse(s, end_of(attributes));
        VarInt::lemma_parse_extends(s, t, end_of(timestamp_delta));
        let offset_delta = VarInt::parse(s, end_of(timestamp_delta));
        RecordKey::lemma_parse_extends(s, t, end_of(offset_delta));
        let key = RecordKey::parse(s, end_of(offset_delta));
        RecordValue::lemma_parse_extends(s, t, end_of(key));
        let value = RecordValue::parse(s, end_of(key));
        CompactArray::<RecordHeader>::lemma_parse_extends(s, t, end_of(value));
    }

    fn decode(buffer: &mut Cursor) -> (r: DecodeResult<Self>) {
        let length = VarInt::decode(buffer)?;
        let attributes = i8::decode(buffer)?;
        let timestamp_delta = VarLong::decode(buffer)?;
        let offset_delta = VarInt::decode(buffer)?;
        let key = RecordKey::decode(buffer)?;
        let value = RecordValue::decode(buffer)?;
        let headers_array_count = CompactArray::<RecordHeader>::decode(buffer)?;
        Ok(Record { length, attributes, timestamp_delta, offset_delta, key, value, headers_array_count })
    }
}

impl Codec for Record {
    open spec fn canonical(v: RecordModel) -> bool {
        &&& VarInt::canonical(v.length)
        &&& i8::canonical(v.attributes)
        &&& VarLong::canonical(v.timestamp_delta)
        &&& VarInt::canonical(v.offset_delta)
        &&& RecordKey::canonical(v.key)
        &&& RecordValue::canonical(v.value)
        &&& CompactArray::<RecordHeader>::canonical(v.headers_array_count)
    }

    proof fn lemma_round_trip(v: RecordModel, s: Seq<u8>, at: int) {
        let w0 = VarInt::wire(v.length);
        let w1 = i8::wire(v.attributes);
        let w2 = VarLong::wire(v.timestamp_delta);
        let w3 = VarInt::wire(v.offset_delta);
        let w4 = RecordKey::wire(v.key);
        let w5 = RecordValue::wire(v.value);
        let w6 = CompactArray::<RecordHeader>::wire(v.headers_array_count);
        let front1 = w0;
        let front2 = front1 + w1;
        let front3 = front2 + w2;
        let front4 = front3 + w3;
        let front5 = front4 + w4;
        let front6 = front5 + w5;
        lemma_holds_at_last(s, at, front6, w6);
        lemma_holds_at_last(s, at, front5, w5);
        lemma_holds_at_last(s, at, front4, w4);
        lemma_holds_at_last(s, at, front3, w3);
        lemma_holds_at_last(s, at, front2, w2);
        lemma_holds_at_last(s, at, front1, w1);
        VarInt::lemma_round_trip(v.length, s, at);
        i8::lemma_round_trip(v.attributes, s, at + front1.len());
        VarLong::lemma_round_trip(v.timestamp_delta, s, at + front2.len());
        VarInt::lemma_round_trip(v.offset_delta, s, at + front3.len());
        RecordKey::lemma_round_trip(v.key, s, at + front4.len());
        RecordValue::lemma_round_trip(v.value, s, at + front5.len());
        CompactArray::<RecordHeader>::lemma_round_trip(v.headers_array_count, s, at + front6.len());
    }
}

/// A record batch, the unit of the log: a fixed header and an array of records.
#[derive(Debug, Clone, PartialEq, Eq)]
pub struct RecordBatch {
    pub base_offset: i64,
    pub batch_length: i32,
    pub partition_leader_epoch: i32,
    pub magic_byte: i8,
    pub crc: i32,
    pub attributes: MetadataAttributes,
    pub last_offset_data: i32,
    pub base_timestamp: i64,
    pub max_timestamp: i64,
    pub producer_id: i64,
    pub producer_epoch: i16,
    pub base_sequence: i32,
    pub records: Array<Record>,
}

/// The value that a [`RecordBatch`] stands for.
pub struct RecordBatchModel {
    pub base_offset: i64,
    pub batch_length: i32,
    pub partition_leader_epoch: i32,
    pub magic_byte: i8,
    pub crc: i32,
    pub attributes: u16,
    pub last_offset_data: i32,
    pub base_timestamp: i64,
    pub max_timestamp: i64,
    pub producer_id: i64,
    pub producer_epoch: i16,
    pub base_sequence: i32,
    pub records: Option<Seq<RecordModel>>,
}

impl Model for RecordBatch {
    type M = RecordBatchModel;

    open spec fn model(&self) -> RecordBatchModel {
        RecordBatchModel {
            base_offset: self.base_offset.model(),
            batch_length: self.batch_length.model(),
            partition_leader_epoch: self.partition_leader_epoch.model(),
            magic_byte: self.magic_byte.model(),
            crc: self.crc.model(),
            attributes: self.attributes.model(),
            last_offset_data: self.last_offset_data.model(),
            base_timestamp: self.base_timestamp.model(),
            max_timestamp: self.max_timestamp.model(),
            producer_id: self.producer_id.model(),
            producer_epoch: self.producer_epoch.model(),
            base_sequence: self.base_sequence.model(),
            records: self.records.model(),
        }
    }

    fn duplicate(&self) -> (r: Self) {
        RecordBatch {
            base_offset: self.base_offset.duplicate(),
            batch_length: self.batch_length.duplicate(),
            partition_leader_epoch: self.partition_leader_epoch.duplicate(),
            magic_byte: self.magic_byte.duplicate(),
            crc: self.crc.duplicate(),
            attributes: self.attributes.duplicate(),
            last_offset_data: self.last_offset_data.duplicate(),
            base_timestamp: self.base_timestamp.duplicate(),
            max_timestamp: self.max_timestamp.duplicate(),
            producer_id: self.producer_id.duplicate(),
            producer_epoch: self.producer_epoch.duplicate(),
            base_sequence: self.base_sequence.duplicate(),
            records: self.records.duplicate(),
        }
    }
}

impl Encode for RecordBatch {
    open spec fn wire(v: RecordBatchModel) -> Seq<u8> {
        i64::wire(v.base_offset)
            + i32::wire(v.batch_length)
            + i32::wire(v.partition_leader_epoch)
            + i8::wire(v.magic_byte)
            + i32::wire(v.crc)
            + MetadataAttributes::wire(v.attributes)
            + i32::wire(v.last_offset_data)
            + i64::wire(v.base_timestamp)
            + i64::wire(v.max_timestamp)
            + i64::wire(v.producer_id)
            + i16::wire(v.producer_epoch)
            + i32::wire(v.base_sequence)
            + Array::<Record>::wire(v.records)
    }

    open spec fn encodable(v: RecordBatchModel) -> bool {
        &&& i64::encodable(v.base_offset)
        &&& i32::encodable(v.batch_length)
        &&& i32::encodable(v.partition_leader_epoch)
        &&& i8::encodable(v.magic_byte)
        &&& i32::encodable(v.crc)
        &&& MetadataAttributes::encodable(v.attributes)
        &&& i32::encodable(v.last_offset_data)
        &&& i64::encodable(v.base_timestamp)
        &&& i64::encodable(v.max_timestamp)
        &&& i64::encodable(v.producer_id)
        &&& i16::encodable(v.producer_epoch)
        &&& i32::encodable(v.base_sequence)
        &&& Array::<Record>::encodable(v.records)
    }

    fn is_encodable(&self) -> (b: bool) {
        self.base_offset.is_encodable()
            && self.batch_length.is_encodable()
            && self.partition_leader_epoch.is_encodable()
            && self.magic_byte.is_encodable()
            && self.crc.is_encodable()
            && self.attributes.is_encodable()
            && self.last_offset_data.is_encodable()
            && self.base_timestamp.is_encodable()
            && self.max_timestamp.is_encodable()
            && self.producer_id.is_encodable()
            && self.producer_epoch.is_encodable()
            && self.base_sequence.is_encodable()
            && self.records.is_encodable()
    }

    fn encode(&self) -> (out: Vec<u8>) {
        let mut out = self.base_offset.encode();
        let mut piece = self.batch_length.encode();
        out.append(&mut piece);
        let mut piece = self.partition_leader_epoch.encode();
        out.append(&mut piece);
        let mut piece = self.magic_byte.encode();
        out.append(&mut piece);
        let mut piece = self.crc.encode();
        out.append(&mut piece);
        let mut piece = self.attributes.encode();
        out.append(&mut piece);
        let mut piece = self.last_offset_data.encode();
        out.append(&mut piece);
        let mut piece = self.base_timestamp.encode();
        out.append(&mut piece);
        let mut piece = self.max_timestamp.encode();
        out.append(&mut piece);
        let mut piece = self.producer_id.encode();
        out.append(&mut piece);
        let mut piece = self.producer_epoch.encode();
        out.append(&mut piece);
        let mut piece = self.base_sequence.encode();
        out.append(&mut piece);
        let mut piece = self.records.encode();
        out.append(&mut piece);
        out
    }
}

impl Decode for RecordBatch {
    open spec fn parse(s: Seq<u8>, at: int) -> Parsed<RecordBatchModel> {
        let base_offset = i64::parse(s, at);
        let batch_length = i32::parse(s, end_of(base_offset));
        let partition_leader_epoch = i32::parse(s, end_of(batch_length));
        let magic_byte = i8::parse(s, end_of(partition_leader_epoch));
        let crc = i32::parse(s, end_of(magic_byte));
        let attributes = MetadataAttributes::parse(s, end_of(crc));
        let last_offset_data = i32::parse(s, end_of(attributes));
        let base_timestamp = i64::parse(s, end_of(last_offset_data));
        let max_timestamp = i64::parse(s, end_of(base_timestamp));
        let producer_id = i64::parse(s, end_of(max_timestamp));
        let producer_epoch = i16::parse(s, end_of(producer_id));
        let base_sequence = i32::parse(s, end_of(producer_epoch));
        let records = Array::<Record>::parse(s, end_of(base_sequence));
        if base_offset is Err {
            Err(error_of(base_offset))
        } else if batch_length is Err {
            Err(error_of(batch_length))
        } else if partition_leader_epoch is Err {
            Err(error_of(partition_leader_epoch))
        } else if magic_byte is Err {
            Err(error_of(magic_byte))
        } else if crc is Err {
            Err(error_of(crc))
        } else if attributes is Err {
            Err(error_of(attributes))
        } else if last_offset_data is Err {
            Err(error_of(last_offset_data))
        } else if base_timestamp is Err {
            Err(error_of(base_timestamp))
        } else if max_timestamp is Err {
            Err(error_of(max_timestamp))
        } else if producer_id is Err {
            Err(error_of(producer_id))
        } else if producer_epoch is Err {
            Err(error_of(producer_epoch))
        } else if base_sequence is Err {
            Err(error_of(base_sequence))
        } else if records is Err {
            Err(error_of(records))
        } else {
            Ok((
                RecordBatchModel {
                    base_offset: value_of(base_offset),
                    batch_length: value_of(batch_length),
                    partition_leader_epoch: value_of(partition_leader_epoch),
                    magic_byte: value_of(magic_byte),
                    crc: value_of(crc),
                    attributes: value_of(attributes),
                    last_offset_data: value_of(last_offset_data),
                    base_timestamp: value_of(base_timestamp),
                    max_timestamp: value_of(max_timestamp),
                    producer_id: value_of(producer_id),
                    producer_epoch: value_of(producer_epoch),
                    base_sequence: value_of(base_sequence),
                    records: value_of(records),
                },
                end_of(records),
            ))
        }
    }

    proof fn lemma_parse_in_bounds(s: Seq<u8>, at: int) {
        i64::lemma_parse_in_bounds(s, at);
        let base_offset = i64::parse(s, at);
        i32::lemma_parse_in_bounds(s, end_of(base_offset));
        let batch_length = i32::parse(s, end_of(base_offset));
        i32::lemma_parse_in_bounds(s, end_of(batch_length));
        let partition_leader_epoch = i32::parse(s, end_of(batch_length));
        i8::lemma_parse_in_bounds(s, end_of(partition_leader_epoch));
        let magic_byte = i8::parse(s, end_of(partition_leader_epoch));
        i32::lemma_parse_in_bounds(s, end_of(magic_byte));
        let crc = i32::parse(s, end_of(magic_byte));
        MetadataAttributes::lemma_parse_in_bounds(s, end_of(crc));
        let attributes = MetadataAttributes::parse(s, end_of(crc));
        i32::lemma_parse_in_bounds(s, end_of(attributes));
        let last_offset_data = i32::parse(s, end_of(attributes));
        i64::lemma_parse_in_bounds(s, end_of(last_offset_data));
        let base_timestamp = i64::parse(s, end_of(last_offset_data));
        i64::lemma_parse_in_bounds(s, end_of(base_timestamp));
        let max_timestamp = i64::parse(s, end_of(base_timestamp));
        i64::lemma_parse_in_bounds(s, end_of(max_timestamp));
        let producer_id = i64::parse(s, end_of(max_timestamp));
        i16::lemma_parse_in_bounds(s, end_of(producer_id));
        let producer_epoch = i16::parse(s, end_of(producer_id));
        i32::lemma_parse_in_bounds(s, end_of(producer_epoch));
        let base_sequence = i32::parse(s, end_of(producer_epoch));
        Array::<Record>::lemma_parse_in_bounds(s, end_of(base_sequence));
    }

    proof fn lemma_parse_extends(s: Seq<u8>, t: Seq<u8>, at: int) {
        i64::lemma_parse_extends(s, t, at);
        let base_offset = i64::parse(s, at);
        i32::lemma_parse_extends(s, t, end_of(base_offset));
        let batch_length = i32::parse(s, end_of(base_offset));
        i32::lemma_parse_extends(s, t, end_of(batch_length));
        let partition_leader_epoch = i32::parse(s, end_of(batch_length));
        i8::lemma_parse_extends(s, t, end_of(partition_leader_epoch));
        let magic_byte = i8::parse(s, end_of(partition_leader_epoch));
        i32::lemma_parse_extends(s, t, end_of(magic_byte));
        let crc = i32::parse(s, end_of(magic_byte));
        MetadataAttributes::lemma_parse_extends(s, t, end_of(crc));
        let attributes = MetadataAttributes::parse(s, end_of(crc));
        i32::lemma_parse_extends(s, t, end_of(attributes));
        let last_offset_data = i32::parse(s, end_of(attributes));
        i64::lemma_parse_extends(s, t, end_of(last_offset_data));
        let base_timestamp = i64::parse(s, end_of(last_offset_data));
        i64::lemma_parse_extends(s, t, end_of(base_timestamp));
        let max_timestamp = i64::parse(s, end_of(base_timestamp));
        i64::lemma_parse_extends(s, t, end_of(max_timestamp));
        let producer_id = i64::parse(s, end_of(max_timestamp));
        i16::lemma_parse_extends(s, t, end_of(producer_id));
        let producer_epoch = i16::parse(s, end_of(producer_id));
        i32::lemma_parse_extends(s, t, end_of(producer_epoch));
        let base_sequence = i32::parse(s, end_of(producer_epoch));
        Array::<Record>::lemma_parse_extends(s, t, end_of(base_sequence));
    }

    fn decode(buffer: &mut Cursor) -> (r: DecodeResult<Self>) {
        let base_offset = i64::decode(buffer)?;
        let batch_length = i32::decode(buffer)?;
        let partition_leader_epoch = i32::decode(buffer)?;
        let magic_byte = i8::decode(buffer)?;
        let crc = i32::decode(buffer)?;
        let attributes = MetadataAttributes::decode(buffer)?;
        let last_offset_data = i32::decode(buffer)?;
        let base_timestamp = i64::decode(buffer)?;
        let max_timestamp = i64::decode(buffer)?;
        let producer_id = i64::decode(buffer)?;
        let producer_epoch = i16::decode(buffer)?;
        let base_sequence = i32::decode(buffer)?;
        let records = Array::<Record>::decode(buffer)?;
        Ok(RecordBatch { base_offset, batch_length, partition_leader_epoch, magic_byte, crc, attributes, last_offset_data, base_timestamp, max_timestamp, producer_id, producer_epoch, base_sequence, records })
    }
}

impl Codec for RecordBatch {
    open spec fn canonical(v: RecordBatchModel) -> bool {
        &&& i64::canonical(v.base_offset)
        &&& i32::canonical(v.batch_length)
        &&& i32::canonical(v.partition_leader_epoch)
        &&& i8::canonical(v.magic_byte)
        &&& i32::canonical(v.crc)
        &&& MetadataAttributes::canonical(v.attributes)
        &&& i32::canonical(v.last_offset_data)
        &&& i64::canonical(v.base_timestamp)
        &&& i64::canonical(v.max_timestamp)
        &&& i64::canonical(v.producer_id)
        &&& i16::canonical(v.producer_epoch)
        &&& i32::canonical(v.base_sequence)
        &&& Array::<Record>::canonical(v.records)
    }

    proof fn lemma_round_trip(v: RecordBatchModel, s: Seq<u8>, at: int) {
        let w0 = i64::wire(v.base_offset);
        let w1 = i32::wire(v.batch_length);
        let w2 = i32::wire(v.partition_leader_epoch);
        let w3 = i8::wire(v.magic_byte);
        let w4 = i32::wire(v.crc);
        let w5 = MetadataAttributes::wire(v.attributes);
        let w6 = i32::wire(v.last_offset_data);
        let w7 = i64::wire(v.base_timestamp);
        let w8 = i64::wire(v.max_timestamp);
        let w9 = i64::wire(v.producer_id);
        let w10 = i16::wire(v.producer_epoch);
        let w11 = i32::wire(v.base_sequence);
        let w12 = Array::<Record>::wire(v.records);
        let front1 = w0;
        let front2 = front1 + w1;
        let front3 = front2 + w2;
        let front4 = front3 + w3;
        let front5 = front4 + w4;
        let front6 = front5 + w5;
        let front7 = front6 + w6;
        let front8 = front7 + w7;
        let front9 = front8 + w8;
        let front10 = front9 + w9;
        let front11 = front10 + w10;
        let front12 = front11 + w11;
        lemma_holds_at_last(s, at, front12, w12);
        lemma_holds_at_last(s, at, front11, w11);
        lemma_holds_at_last(s, at, front10, w10);
        lemma_holds_at_last(s, at, front9, w9);
        lemma_holds_at_last(s, at, front8, w8);
        lemma_holds_at_last(s, at, front7, w7);
        lemma_holds_at_last(s, at, front6, w6);
        lemma_holds_at_last(s, at, front5, w5);
        lemma_holds_at_last(s, at, front4, w4);
        lemma_holds_at_last(s, at, front3, w3);
        lemma_holds_at_last(s, at, front2, w2);
        lemma_holds_at_last(s, at, front1, w1);
        i64::lemma_round_trip(v.base_offset, s, at);
        i32::lemma_round_trip(v.batch_length, s, at + front1.len());
        i32::lemma_round_trip(v.partition_leader_epoch, s, at + front2.len());
        i8::lemma_round_trip(v.magic_byte, s, at + front3.len());
        i32::lemma_round_trip(v.crc, s, at + front4.len());
        MetadataAttributes::lemma_round_trip(v.attributes, s, at + front5.len());
        i32::lemma_round_trip(v.last_offset_data, s, at + front6.len());
        i64::lemma_round_trip(v.base_timestamp, s, at + front7.len());
        i64::lemma_round_trip(v.max_timestamp, s, at + front8.len());
        i64::lemma_round_trip(v.producer_id, s, at + front9.len());
        i16::lemma_round_trip(v.producer_epoch, s, at + front10.len());
        i32::lemma_round_trip(v.base_sequence, s, at + front11.len());
        Array::<Record>::lemma_round_trip(v.records, s, at + front12.len());
    }
}

impl RecordBatch {
    pub fn get_records(&self) -> (r: &Array<Record>)
        ensures
            *r == self.records,
    {
        &self.records
    }
}

impl Record {
    pub fn get_value(&self) -> (r: &RecordValue)
        ensures
            *r == self.value,
    {
        &self.value
    }
}

/// A record batch starts with eight bytes of offset, so reading one moves on.
pub proof fn lemma_record_batch_advances(s: Seq<u8>, at: int)
    ensures
        RecordBatch::parse(s, at) matches Ok((_, next)) ==> at + 8 <= next <= s.len(),
{
    RecordBatch::lemma_parse_in_bounds(s, at);
    lemma_parse_be_shape(s, at, 8);
    let base_offset = i64::parse(s, at);
    i32::lemma_parse_in_bounds(s, end_of(base_offset));
    let batch_length = i32::parse(s, end_of(base_offset));
    i32::lemma_parse_in_bounds(s, end_of(batch_length));
    let partition_leader_epoch = i32::parse(s, end_of(batch_length));
    i8::lemma_parse_in_bounds(s, end_of(partition_leader_epoch));
    let magic_byte = i8::parse(s, end_of(partition_leader_epoch));
    i32::lemma_parse_in_bounds(s, end_of(magic_byte));
    let crc = i32::parse(s, end_of(magic_byte));
    MetadataAttributes::lemma_parse_in_bounds(s, end_of(crc));
    let attributes = MetadataAttributes::parse(s, end_of(crc));
    i32::lemma_parse_in_bounds(s, end_of(attributes));
    let last_offset_data = i32::parse(s, end_of(attributes));
    i64::lemma_parse_in_bounds(s, end_of(last_offset_data));
    let base_timestamp = i64::parse(s, end_of(last_offset_data));
    i64::lemma_parse_in_bounds(s, end_of(base_timestamp));
    let max_timestamp = i64::parse(s, end_of(base_timestamp));
    i64::lemma_parse_in_bounds(s, end_of(max_timestamp));
    let producer_id = i64::parse(s, end_of(max_timestamp));
    i16::lemma_parse_in_bounds(s, end_of(producer_id));
    let producer_epoch = i16::parse(s, end_of(producer_id));
    i32::lemma_parse_in_bounds(s, end_of(producer_epoch));
    let base_sequence = i32::parse(s, end_of(producer_epoch));
    Array::<Record>::lemma_parse_in_bounds(s, end_of(base_sequence));
}

/// The record batches that stand one behind the other from offset `at` to
/// the end of `s`.
pub open spec fn parse_batches(s: Seq<u8>, at: int) -> Parsed<Seq<RecordBatchModel>>
    decreases s.len() - at,
    via parse_batches_decreases
{
    if at >= s.len() {
        Ok((Seq::empty(), at))
    } else {
        match RecordBatch::parse(s, at) {
            Err(e) => Err(e),
            Ok((batch, next)) => match parse_batches(s, next) {
                Err(e) => Err(e),
                Ok((rest, end)) => Ok((seq![batch] + rest, end)),
            },
        }
    }
}

#[via_fn]
proof fn parse_batches_decreases(s: Seq<u8>, at: int) {
    lemma_record_batch_advances(s, at);
}

/// The wire form of a row of items is that of the first before that of the others.
pub proof fn lemma_wire_items_prepend<T: Encode>(first: T::M, rest: Seq<T::M>)
    ensures
        wire_items::<T>(seq![first] + rest) == T::wire(first) + wire_items::<T>(rest),
    decreases rest.len(),
{
    let all = seq![first] + rest;
    if rest.len() == 0 {
        assert(all.drop_last() =~= Seq::<T::M>::empty());
        assert(wire_items::<T>(all.drop_last()) =~= Seq::<u8>::empty());
        assert(wire_items::<T>(all) =~= T::wire(first) + wire_items::<T>(rest));
    } else {
        lemma_wire_items_prepend::<T>(first, rest.drop_last());
        assert(all.drop_last() =~= seq![first] + rest.drop_last());
        assert(all.last() == rest.last());
        assert(wire_items::<T>(all) =~= T::wire(first) + wire_items::<T>(rest));
    }
}

/// The wire form of a row of items is at least as long as that of its first items.
pub proof fn lemma_wire_items_grows<T: Encode>(items: Seq<T::M>, n: int)
    requires
        0 <= n <= items.len(),
    ensures
        wire_items::<T>(items.take(n)).len() <= wire_items::<T>(items).len(),
    decreases items.len(),
{
    if n < items.len() {
        assert(items.drop_last().take(n) =~= items.take(n));
        lemma_wire_items_grows::<T>(items.drop_last(), n);
    } else {
        assert(items.take(n) =~= items);
    }
}

/// Where the wire forms of a row of batches fill `s` from `at` to its end,
/// the parse reads the row.
pub proof fn lemma_parse_batches_round_trip(batches: Seq<RecordBatchModel>, s: Seq<u8>, at: int)
    requires
        forall|i: int| 0 <= i < batches.len() ==> RecordBatch::encodable(#[trigger] batches[i]),
        forall|i: int| 0 <= i < batches.len() ==> RecordBatch::canonical(#[trigger] batches[i]),
        holds_at(s, at, wire_items::<RecordBatch>(batches)),
        at + wire_items::<RecordBatch>(batches).len() == s.len(),
    ensures
        parse_batches(s, at) == Ok::<(Seq<RecordBatchModel>, int), DecodeError>(
            (batches, s.len() as int),
        ),
    decreases batches.len(),
{
    if batches.len() == 0 {
        reveal(holds_at);
        assert(batches =~= Seq::<RecordBatchModel>::empty());
    } else {
        let first = batches[0];
        let rest = batches.drop_first();
        assert(batches =~= seq![first] + rest);
        lemma_wire_items_prepend::<RecordBatch>(first, rest);
        lemma_holds_at_split(s, at, RecordBatch::wire(first), wire_items::<RecordBatch>(rest));
        RecordBatch::lemma_round_trip(first, s, at);
        lemma_record_batch_advances(s, at);
        assert forall|i: int| 0 <= i < rest.len() implies RecordBatch::encodable(
            #[trigger] rest[i],
        ) && RecordBatch::canonical(rest[i]) by {
            assert(rest[i] == batches[i + 1]);
        }
        lemma_parse_batches_round_trip(rest, s, at + RecordBatch::wire(first).len());
    }
}

pub proof fn lemma_parse_batches_in_bounds(s: Seq<u8>, at: int)
    requires
        0 <= at <= s.len(),
    ensures
        parse_batches(s, at) matches Ok((_, end)) ==> end == s.len(),
    decreases s.len() - at,
{
    if at < s.len() {
        lemma_record_batch_advances(s, at);
        if let Ok((batch, next)) = RecordBatch::parse(s, at) {
            lemma_parse_batches_in_bounds(s, next);
        }
    }
}

/// There are no more batches than bytes.
pub proof fn lemma_parse_batches_len(s: Seq<u8>, at: int)
    requires
        0 <= at <= s.len(),
    ensures
        parse_batches(s, at) matches Ok((batches, _)) ==> batches.len() <= s.len() - at,
    decreases s.len() - at,
{
    if at < s.len() {
        lemma_record_batch_advances(s, at);
        if let Ok((batch, next)) = RecordBatch::parse(s, at) {
            lemma_parse_batches_len(s, next);
        }
    }
}

/// Reads record batches one behind the other until the bytes end: a log
/// segment, or the records of a fetch response.
pub fn read_record_batches(content: &[u8]) -> (r: DecodeResult<Vec<RecordBatch>>)
    ensures
        match r {
            Ok(batches) => parse_batches(content@, 0) == Ok::<
                (Seq<RecordBatchModel>, int),
                DecodeError,
            >((models(batches@), content@.len() as int)),
            Err(e) => parse_batches(content@, 0) == Err::<
                (Seq<RecordBatchModel>, int),
                DecodeError,
            >(e),
        },
{
    let ghost s = content@;
    let mut buffer = Cursor::new(content);
    let mut batches: Vec<RecordBatch> = Vec::new();
    proof {
        assert(models(batches@) =~= Seq::<RecordBatchModel>::empty());
        lemma_parse_batches_in_bounds(s, 0);
        if let Ok((rest, end)) = parse_batches(s, 0) {
            assert(models(batches@) + rest =~= rest);
        }
    }
    while buffer.has_remaining()
        invariant
            buffer.content() == s,
            s == content@,
            0 <= buffer.offset() <= s.len(),
            parse_batches(s, 0) == match parse_batches(s, buffer.offset()) {
                Ok((rest, end)) => Ok::<(Seq<RecordBatchModel>, int), DecodeError>(
                    (models(batches@) + rest, end),
                ),
                Err(e) => Err(e),
            },
        decreases s.len() - buffer.offset(),
    {
        let ghost here = buffer.offset();
        let ghost before = models(batches@);
        proof {
            lemma_record_batch_advances(s, here);
        }
        match RecordBatch::decode(&mut buffer) {
            Err(e) => {
                return Err(e);
            },
            Ok(batch) => {
                proof {
                    let next = buffer.offset();
                    assert(models(batches@.push(batch)) =~= before.push(batch.model()));
                    if let Ok((rest, end)) = parse_batches(s, next) {
                        assert(before.push(batch.model()) + rest =~= before + (seq![
                            batch.model(),
                        ] + rest));
                    }
                }
                batches.push(batch);
            },
        }
    }
    proof {
        assert(models(batches@) + Seq::<RecordBatchModel>::empty() =~= models(batches@));
    }
    Ok(batches)
}

/// The record batches of a fetch response: their wire forms one behind the
/// other, behind a variable-length integer that holds the number of bytes
/// plus one. Zero is null.
#[derive(Debug, Clone, PartialEq, Eq)]
pub struct CompactRecords {
    inner: Option<Vec<RecordBatch>>,
}

impl Model for CompactRecords {
    type M = Option<Seq<RecordBatchModel>>;

    closed spec fn model(&self) -> Option<Seq<RecordBatchModel>> {
        array_model(self.inner)
    }

    fn duplicate(&self) -> (r: Self) {
        CompactRecords { inner: duplicate_items(&self.inner) }
    }
}

impl CompactRecords {
    pub fn new(inner: Option<Vec<RecordBatch>>) -> (r: Self)
        ensures
            r.model() == array_model(inner),
    {
        Self { inner }
    }

    /// The records without a batch, which are not null.
    pub fn empty() -> (r: Self)
        ensures
            r.model() == Some(Seq::<RecordBatchModel>::empty()),
    {
        let batches: Vec<RecordBatch> = Vec::new();
        proof {
            assert(models(batches@) =~= Seq::<RecordBatchModel>::empty());
        }
        Self { inner: Some(batches) }
    }

    pub fn get_inner(&self) -> (r: &Option<Vec<RecordBatch>>)
        ensures
            array_model(*r) == self.model(),
    {
        &self.inner
    }
}

impl Default for CompactRecords {
    /// The null records.
    fn default() -> (r: Self)
        ensures
            r.model() == None::<Seq<RecordBatchModel>>,
    {
        Self { inner: None }
    }
}

impl Encode for CompactRecords {
    open spec fn wire(v: Option<Seq<RecordBatchModel>>) -> Seq<u8> {
        match v {
            None => wire_opt_bytes(Prefix::Compact, None),
            Some(batches) => wire_opt_bytes(
                Prefix::Compact,
                Some(wire_items::<RecordBatch>(batches)),
            ),
        }
    }

    open spec fn encodable(v: Option<Seq<RecordBatchModel>>) -> bool {
        match v {
            None => true,
            Some(batches) => {
                &&& wire_items::<RecordBatch>(batches).len() < u64::MAX
                &&& forall|i: int|
                    0 <= i < batches.len() ==> RecordBatch::encodable(#[trigger] batches[i])
            },
        }
    }

    fn is_encodable(&self) -> (b: bool) {
        match &self.inner {
            None => true,
            Some(batches) => {
                let ghost all = models(batches@);
                let mut total: u64 = 0;
                let mut i: usize = 0;
                proof {
                    assert(all.take(0) =~= Seq::<RecordBatchModel>::empty());
                }
                while i < batches.len()
                    invariant
                        i <= batches@.len(),
                        all == models(batches@),
                        self.model() == Some(all),
                        forall|j: int| 0 <= j < i ==> RecordBatch::encodable(#[trigger] all[j]),
                        total == wire_items::<RecordBatch>(all.take(i as int)).len(),
                        total < u64::MAX,
                    decreases batches@.len() - i,
                {
                    proof {
                        assert(all[i as int] == batches@[i as int].model());
                        assert(all.take(i + 1).drop_last() =~= all.take(i as int));
                        assert(all.take(i + 1).last() == all[i as int]);
                    }
                    if !batches[i].is_encodable() {
                        return false;
                    }
                    let piece: u64 = batches[i].encode().len() as u64;
                    if piece >= u64::MAX - total {
                        proof {
                            lemma_wire_items_grows::<RecordBatch>(all, i + 1);
                        }
                        return false;
                    }
                    total = total + piece;
                    i = i + 1;
                }
                proof {
                    assert(all.take(batches@.len() as int) =~= all);
                }
                true
            },
        }
    }

    fn encode(&self) -> (out: Vec<u8>) {
        match &self.inner {
            None => {
                let out = VarInt::from_u64(0).into_bytes();
                out
            },
            Some(batches) => {
                let ghost all = models(batches@);
                let mut body: Vec<u8> = Vec::new();
                let mut i: usize = 0;
                proof {
                    assert(all.take(0) =~= Seq::<RecordBatchModel>::empty());
                    assert(body@ =~= wire_items::<RecordBatch>(all.take(0)));
                }
                while i < batches.len()
                    invariant
                        i <= batches@.len(),
                        all == models(batches@),
                        forall|j: int|
                            0 <= j < all.len() ==> RecordBatch::encodable(#[trigger] all[j]),
                        body@ == wire_items::<RecordBatch>(all.take(i as int)),
                    decreases batches@.len() - i,
                {
                    proof {
                        assert(all[i as int] == batches@[i as int].model());
                        assert(RecordBatch::encodable(all[i as int]));
                        assert(all.take(i + 1).drop_last() =~= all.take(i as int));
                        assert(all.take(i + 1).last() == all[i as int]);
                    }
                    let mut piece = batches[i].encode();
                    body.append(&mut piece);
                    i = i + 1;
                }
                proof {
                    assert(all.take(batches@.len() as int) =~= all);
                }
                put_bytes(Prefix::Compact, body.as_slice())
            },
        }
    }
}

impl Decode for CompactRecords {
    open spec fn parse(s: Seq<u8>, at: int) -> Parsed<Option<Seq<RecordBatchModel>>> {
        match parse_opt_bytes(Prefix::Compact, s, at) {
            Ok((None, next)) => Ok((None, next)),
            Ok((Some(window), next)) => match parse_batches(window, 0) {
                Ok((batches, _)) => Ok((Some(batches), next)),
                Err(e) => Err(e),
            },
            Err(e) => Err(e),
        }
    }

    proof fn lemma_parse_in_bounds(s: Seq<u8>, at: int) {
        lemma_parse_opt_bytes_in_bounds(Prefix::Compact, s, at);
    }

    proof fn lemma_parse_extends(s: Seq<u8>, t: Seq<u8>, at: int) {
        lemma_parse_opt_bytes_in_bounds(Prefix::Compact, s, at);
        lemma_parse_opt_bytes_extends(Prefix::Compact, s, t, at);
    }

    fn decode(buffer: &mut Cursor) -> (r: DecodeResult<Self>) {
        match get_bytes(Prefix::Compact, buffer)? {
            None => Ok(CompactRecords { inner: None }),
            Some(window) => {
                let batches = read_record_batches(window.as_slice())?;
                Ok(CompactRecords { inner: Some(batches) })
            },
        }
    }
}

impl Codec for CompactRecords {
    open spec fn canonical(v: Option<Seq<RecordBatchModel>>) -> bool {
        match v {
            None => true,
            Some(batches) => forall|i: int|
                0 <= i < batches.len() ==> RecordBatch::canonical(#[trigger] batches[i]),
        }
    }

    proof fn lemma_round_trip(v: Option<Seq<RecordBatchModel>>, s: Seq<u8>, at: int) {
        match v {
            None => {
                lemma_parse_opt_bytes_round_trip(Prefix::Compact, None, s, at);
            },
            Some(batches) => {
                reveal(holds_at);
                let window = wire_items::<RecordBatch>(batches);
                lemma_parse_opt_bytes_round_trip(Prefix::Compact, Some(window), s, at);
                assert(window.subrange(0, window.len() as int) =~= window);
                lemma_parse_batches_round_trip(batches, window, 0);
            },
        }
    }
}

} // verus!
