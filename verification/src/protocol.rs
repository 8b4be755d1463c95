//! The packets that the host sends to the client, and their wire format.
//!
//! A packet is a little-endian `u32` variant index followed by its fields:
//! `Handshake` carries a `u32` version; `Events` carries a `u64` count and
//! then, per event, `u16` type, `u16` code and `i32` value; `ReleaseAll`
//! carries nothing. Bytes after a complete packet are ignored.
use crate::wire::{
    lemma_u16_le_of, lemma_u16_le_read, lemma_u32_le_of, lemma_u32_le_read, lemma_u64_le_of,
    lemma_u64_le_read, push_u16_le, push_u32_le, push_u64_le, read_u16_le, read_u32_le,
    read_u64_le, u16_at, u16_le, u32_at, u32_le, u64_at, u64_le,
};
use crate::text::{decimal_text, push_decimal};
use vstd::prelude::*;

verus! {

/// Version that both ends must agree on in the handshake.
pub const PROTOCOL_VERSION: u32 = 1;

/// One input event as the Linux input layer reports it.
#[derive(Debug, Clone, Copy, PartialEq, Eq, Structural)]
pub struct KvmEvent {
    pub event_type: u16,
    pub code: u16,
    pub value: i32,
}

#[derive(Debug, Clone, PartialEq, Eq)]
pub enum KvmPacket {
    Handshake { version: u32 },
    Events(Vec<KvmEvent>),
    ReleaseAll,
}

/// A packet as a mathematical value.
pub enum PacketModel {
    Handshake { version: u32 },
    Events(Seq<KvmEvent>),
    ReleaseAll,
}

impl View for KvmPacket {
    type V = PacketModel;

    open spec fn view(&self) -> PacketModel {
        match self {
            KvmPacket::Handshake { version } => PacketModel::Handshake { version: *version },
            KvmPacket::Events(events) => PacketModel::Events(events@),
            KvmPacket::ReleaseAll => PacketModel::ReleaseAll,
        }
    }
}

/// Why bytes do not hold a packet.
#[derive(Debug, Clone, Copy, PartialEq, Eq, Structural)]
pub enum WireError {
    /// The bytes end before the packet does.
    UnexpectedEnd,
    /// The variant index names no packet kind.
    InvalidVariant(u32),
    /// The event count does not fit in `usize`.
    SizeTooLarge(u64),
}

/// The error as the packet format's reference decoder (bincode) words it.
pub open spec fn wire_error_text(e: WireError) -> Seq<char> {
    match e {
        WireError::UnexpectedEnd => "io error: unexpected end of file"@,
        WireError::InvalidVariant(tag) => "invalid value: integer `"@ + decimal_text(tag as nat)
            + "`, expected variant index 0 <= i < 3"@,
        WireError::SizeTooLarge(n) => "Invalid size "@ + decimal_text(n as nat)
            + ": sizes must fit in a usize (0 to "@ + decimal_text(usize::MAX as nat) + ")"@,
    }
}

impl WireError {
    /// The error as a sentence for people.
    pub fn message(&self) -> (r: String)
        ensures
            r@ == wire_error_text(*self),
    {
        match self {
            WireError::UnexpectedEnd => "io error: unexpected end of file".to_owned(),
            WireError::InvalidVariant(tag) => {
                let mut s = "invalid value: integer `".to_owned();
                push_decimal(&mut s, *tag as u64);
                s.append("`, expected variant index 0 <= i < 3");
                s
            },
            WireError::SizeTooLarge(n) => {
                let mut s = "Invalid size ".to_owned();
                push_decimal(&mut s, *n);
                s.append(": sizes must fit in a usize (0 to ");
                push_decimal(&mut s, usize::MAX as u64);
                s.append(")");
                s
            },
        }
    }
}

pub const TAG_HANDSHAKE: u32 = 0;

pub const TAG_EVENTS: u32 = 1;

pub const TAG_RELEASE_ALL: u32 = 2;

/// Bytes per encoded event.
pub const EVENT_SIZE: usize = 8;

pub open spec fn event_le(e: KvmEvent) -> Seq<u8> {
    u16_le(e.event_type) + u16_le(e.code) + u32_le(e.value as u32)
}

/// The events one after another, `EVENT_SIZE` bytes each.
pub open spec fn events_le(es: Seq<KvmEvent>) -> Seq<u8> {
    Seq::new(8 * es.len(), |j: int| event_le(es[j / 8])[j % 8])
}

pub open spec fn encode_packet(p: PacketModel) -> Seq<u8> {
    match p {
        PacketModel::Handshake { version } => u32_le(TAG_HANDSHAKE) + u32_le(version),
        PacketModel::Events(es) => u32_le(TAG_EVENTS) + u64_le(es.len() as u64) + events_le(es),
        PacketModel::ReleaseAll => u32_le(TAG_RELEASE_ALL),
    }
}

/// Length of the encoding of `p`.
pub open spec fn encoded_len(p: PacketModel) -> int {
    match p {
        PacketModel::Handshake { .. } => 8,
        PacketModel::Events(es) => 12 + 8 * es.len() as int,
        PacketModel::ReleaseAll => 4,
    }
}

/// The encoding of `p` fits in memory that `usize` can address.
pub open spec fn packet_fits(p: PacketModel) -> bool {
    encoded_len(p) <= usize::MAX
}

/// The event encoded at `b[i..i + 8]`.
pub open spec fn event_at(b: Seq<u8>, i: int) -> KvmEvent {
    KvmEvent { event_type: u16_at(b, i), code: u16_at(b, i + 2), value: u32_at(b, i + 4) as i32 }
}

pub open spec fn decode_packet(b: Seq<u8>) -> Result<PacketModel, WireError> {
    if b.len() < 4 {
        Err(WireError::UnexpectedEnd)
    } else {
        let tag = u32_at(b, 0);
        if tag == TAG_HANDSHAKE {
            if b.len() < 8 {
                Err(WireError::UnexpectedEnd)
            } else {
                Ok(PacketModel::Handshake { version: u32_at(b, 4) })
            }
        } else if tag == TAG_EVENTS {
            if b.len() < 12 {
                Err(WireError::UnexpectedEnd)
            } else {
                let n = u64_at(b, 4);
                if n > usize::MAX {
                    Err(WireError::SizeTooLarge(n))
                } else if b.len() < 12 + 8 * n {
                    Err(WireError::UnexpectedEnd)
                } else {
                    Ok(PacketModel::Events(Seq::new(n as nat, |i: int| event_at(b, 12 + 8 * i))))
                }
            }
        } else if tag == TAG_RELEASE_ALL {
            Ok(PacketModel::ReleaseAll)
        } else {
            Err(WireError::InvalidVariant(tag))
        }
    }
}

/// Encoding one more event appends its eight bytes.
proof fn lemma_events_le_push(es: Seq<KvmEvent>, i: int)
    requires
        0 <= i < es.len(),
    ensures
        events_le(es.take(i + 1)) == events_le(es.take(i)) + event_le(es[i]),
{
    let lhs = events_le(es.take(i + 1));
    let rhs = events_le(es.take(i)) + event_le(es[i]);
    assert forall|j: int| 0 <= j < lhs.len() implies lhs[j] == rhs[j] by {
        if j < 8 * i {
            assert(j / 8 < i);
        } else {
            assert(j / 8 == i);
            assert(j % 8 == j - 8 * i);
        }
    }
    assert(lhs =~= rhs);
}

proof fn lemma_i32_as_u32(v: i32)
    ensures
        (v as u32) as i32 == v,
{
    assert((v as u32) as i32 == v) by (bit_vector);
}

proof fn lemma_u32_as_i32(v: u32)
    ensures
        (v as i32) as u32 == v,
{
    assert((v as i32) as u32 == v) by (bit_vector);
}

/// Reading an event back from its encoding gives the event.
proof fn lemma_event_le_read(e: KvmEvent, b: Seq<u8>, x: int)
    requires
        0 <= x,
        x + 8 <= b.len(),
        b.subrange(x, x + 8) == event_le(e),
    ensures
        event_at(b, x) == e,
{
    let enc = event_le(e);
    assert(b[x] == enc[0] && b[x + 1] == enc[1] && b[x + 2] == enc[2] && b[x + 3] == enc[3]);
    assert(b[x + 4] == enc[4] && b[x + 5] == enc[5] && b[x + 6] == enc[6] && b[x + 7] == enc[7]);
    lemma_u16_le_read(e.event_type);
    lemma_u16_le_read(e.code);
    lemma_u32_le_read(e.value as u32);
    lemma_i32_as_u32(e.value);
}

/// Encoding an event read from bytes gives those bytes.
proof fn lemma_event_at_le(b: Seq<u8>, x: int)
    requires
        0 <= x,
        x + 8 <= b.len(),
    ensures
        event_le(event_at(b, x)) == b.subrange(x, x + 8),
{
    lemma_u16_le_of(b[x], b[x + 1]);
    lemma_u16_le_of(b[x + 2], b[x + 3]);
    lemma_u32_le_of(b[x + 4], b[x + 5], b[x + 6], b[x + 7]);
    lemma_u32_as_i32(u32_at(b, x + 4));
    assert(event_le(event_at(b, x)) =~= b.subrange(x, x + 8));
}

/// Decoding what `encode_packet` wrote gives the packet back, whatever bytes
/// follow it.
pub proof fn lemma_decode_encode(p: PacketModel, rest: Seq<u8>)
    requires
        packet_fits(p),
    ensures
        decode_packet(encode_packet(p) + rest) == Ok::<PacketModel, WireError>(p),
{
    let b = encode_packet(p) + rest;
    match p {
        PacketModel::Handshake { version } => {
            assert(b.subrange(0, 4) =~= u32_le(TAG_HANDSHAKE));
            assert(b.subrange(4, 8) =~= u32_le(version));
            lemma_u32_le_read(TAG_HANDSHAKE);
            lemma_u32_le_read(version);
            assert(u32_at(b, 0) == u32_at(b.subrange(0, 4), 0));
            assert(u32_at(b, 4) == u32_at(b.subrange(4, 8), 0));
        },
        PacketModel::Events(es) => {
            let n = es.len() as u64;
            assert(b.subrange(0, 4) =~= u32_le(TAG_EVENTS));
            assert(b.subrange(4, 12) =~= u64_le(n));
            lemma_u32_le_read(TAG_EVENTS);
            lemma_u64_le_read(n);
            assert(u32_at(b, 0) == u32_at(b.subrange(0, 4), 0));
            assert(u64_at(b, 4) == u64_at(b.subrange(4, 12), 0));
            let decoded = Seq::new(n as nat, |i: int| event_at(b, 12 + 8 * i));
            assert forall|i: int| 0 <= i < es.len() implies decoded[i] == es[i] by {
                assert forall|k: int| 0 <= k < 8 implies b[12 + 8 * i + k] == event_le(es[i])[k] by {
                    assert((8 * i + k) / 8 == i);
                    assert((8 * i + k) % 8 == k);
                }
                assert(b.subrange(12 + 8 * i, 12 + 8 * i + 8) =~= event_le(es[i]));
                lemma_event_le_read(es[i], b, 12 + 8 * i);
            }
            assert(decoded =~= es);
        },
        PacketModel::ReleaseAll => {
            assert(b.subrange(0, 4) =~= u32_le(TAG_RELEASE_ALL));
            lemma_u32_le_read(TAG_RELEASE_ALL);
            assert(u32_at(b, 0) == u32_at(b.subrange(0, 4), 0));
        },
    }
}

/// Bytes that decode to a packet start with that packet's encoding.
pub proof fn lemma_encode_decode(b: Seq<u8>)
    requires
        b.len() <= usize::MAX,
    ensures
        decode_packet(b) matches Ok(p) ==> {
            &&& packet_fits(p)
            &&& encoded_len(p) <= b.len()
            &&& encode_packet(p) == b.subrange(0, encoded_len(p))
        },
{
    if let Ok(p) = decode_packet(b) {
        lemma_u32_le_of(b[0], b[1], b[2], b[3]);
        assert(u32_le(u32_at(b, 0)) =~= b.subrange(0, 4));
        match p {
            PacketModel::Handshake { version } => {
                lemma_u32_le_of(b[4], b[5], b[6], b[7]);
                assert(encode_packet(p) =~= b.subrange(0, 8));
            },
            PacketModel::Events(es) => {
                lemma_u64_le_of(b, 4);
                let n = u64_at(b, 4);
                assert(es.len() as u64 == n);
                let ev = events_le(es);
                assert forall|j: int| 0 <= j < ev.len() implies ev[j] == b[12 + j] by {
                    let i = j / 8;
                    lemma_event_at_le(b, 12 + 8 * i);
                    assert(es[i] == event_at(b, 12 + 8 * i));
                    assert(event_le(es[i])[j % 8] == b.subrange(12 + 8 * i, 12 + 8 * i + 8)[j % 8]);
                }
                assert(encode_packet(p) =~= b.subrange(0, 12 + 8 * n));
            },
            PacketModel::ReleaseAll => {
                assert(encode_packet(p) =~= b.subrange(0, 4));
            },
        }
    }
}

/// Encodes `packet`; this never fails.
pub fn serialize_packet(packet: &KvmPacket) -> (r: Result<Vec<u8>, WireError>)
    requires
        packet_fits(packet@),
    ensures
        r matches Ok(bytes) && bytes@ == encode_packet(packet@),
{
    let mut out: Vec<u8> = Vec::new();
    match packet {
        KvmPacket::Handshake { version } => {
            push_u32_le(&mut out, TAG_HANDSHAKE);
            push_u32_le(&mut out, *version);
        },
        KvmPacket::Events(events) => {
            push_u32_le(&mut out, TAG_EVENTS);
            push_u64_le(&mut out, events.len() as u64);
            let ghost header = out@;
            let n = events.len();
            let mut i: usize = 0;
            while i < n
                invariant
                    n == events@.len(),
                    i <= n,
                    header == u32_le(TAG_EVENTS) + u64_le(n as u64),
                    out@ == header + events_le(events@.take(i as int)),
                decreases n - i,
            {
                let e = events[i];
                push_u16_le(&mut out, e.event_type);
                push_u16_le(&mut out, e.code);
                push_u32_le(&mut out, e.value as u32);
                proof {
                    lemma_events_le_push(events@, i as int);
                }
                i = i + 1;
            }
            assert(events@.take(n as int) =~= events@);
            assert(out@ =~= encode_packet(packet@));
        },
        KvmPacket::ReleaseAll => {
            push_u32_le(&mut out, TAG_RELEASE_ALL);
        },
    }
    proof {
        assert(out@ =~= encode_packet(packet@));
    }
    Ok(out)
}

/// Decodes the packet at the start of `bytes`, ignoring any bytes after it.
pub fn deserialize_packet(bytes: &[u8]) -> (r: Result<KvmPacket, WireError>)
    ensures
        match r {
            Ok(p) => decode_packet(bytes@) == Ok::<PacketModel, WireError>(p@),
            Err(e) => decode_packet(bytes@) == Err::<PacketModel, WireError>(e),
        },
{
    let len = bytes.len();
    if len < 4 {
        return Err(WireError::UnexpectedEnd);
    }
    let tag = read_u32_le(bytes, 0);
    if tag == TAG_HANDSHAKE {
        if len < 8 {
            return Err(WireError::UnexpectedEnd);
        }
        Ok(KvmPacket::Handshake { version: read_u32_le(bytes, 4) })
    } else if tag == TAG_EVENTS {
        if len < 12 {
            return Err(WireError::UnexpectedEnd);
        }
        let count = read_u64_le(bytes, 4);
        if count > usize::MAX as u64 {
            return Err(WireError::SizeTooLarge(count));
        }
        let n = count as usize;
        if n > (len - 12) / EVENT_SIZE {
            return Err(WireError::UnexpectedEnd);
        }
        let mut events: Vec<KvmEvent> = Vec::new();
        let mut i: usize = 0;
        while i < n
            invariant
                n == count,
                len == bytes@.len(),
                12 + 8 * n <= len,
                i <= n,
                events@.len() == i,
                forall|k: int| 0 <= k < i ==> events@[k] == event_at(bytes@, 12 + 8 * k),
            decreases n - i,
        {
            let at = 12 + EVENT_SIZE * i;
            let e = KvmEvent {
                event_type: read_u16_le(bytes, at),
                code: read_u16_le(bytes, at + 2),
                value: read_u32_le(bytes, at + 4) as i32,
            };
            events.push(e);
            i = i + 1;
        }
        proof {
            assert(events@ =~= Seq::new(n as nat, |k: int| event_at(bytes@, 12 + 8 * k)));
        }
        Ok(KvmPacket::Events(events))
    } else if tag == TAG_RELEASE_ALL {
        Ok(KvmPacket::ReleaseAll)
    } else {
        Err(WireError::InvalidVariant(tag))
    }
}

} // verus!
