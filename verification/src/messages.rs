//! Messages between the main thread and the chunk workers: the event names,
//! and the chunk-key request in its wire form.

use vstd::prelude::*;
use vstd::bytes::{lemma_auto_spec_u64_to_from_le_bytes, spec_u64_from_le_bytes, spec_u64_to_le_bytes};
use crate::payload::{decode_payload, encode_payload, hex_decodable, hex_decode, hex_lower, lemma_payload_round_trip};

verus! {

/// A request for the chunk at `key`, computed at level of detail `lod`.
#[derive(Clone, Copy, Debug, PartialEq, Eq)]
pub struct Key {
    pub key: [i64; 3],
    pub lod: usize,
}

/// bincode's fixed-width little-endian layout of a key request: the three
/// coordinates, then the level of detail as a 64-bit word.
pub open spec fn key_wire(key: [i64; 3], lod: usize) -> Seq<u8> {
    spec_u64_to_le_bytes(key[0] as u64) + spec_u64_to_le_bytes(key[1] as u64)
        + spec_u64_to_le_bytes(key[2] as u64) + spec_u64_to_le_bytes(lod as u64)
}

/// The 64-bit word at byte `start` of a little-endian layout.
pub open spec fn wire_word(b: Seq<u8>, start: int) -> u64 {
    spec_u64_from_le_bytes(b.subrange(start, start + 8))
}

/// Whether bytes read as a key request: at least 32 bytes (more are
/// ignored) whose last word fits a `usize`.
pub open spec fn key_wire_readable(b: Seq<u8>) -> bool {
    b.len() >= 32 && wire_word(b, 24) <= usize::MAX
}

/// The key request that readable bytes stand for.
pub open spec fn read_key_wire(b: Seq<u8>) -> ([i64; 3], usize) {
    ([wire_word(b, 0) as i64, wire_word(b, 8) as i64, wire_word(b, 16) as i64], wire_word(b, 24) as usize)
}

/// `bincode::serialize` of a key request `(key, lod)`: with bincode's
/// default (fixed-width, little-endian) layout each coordinate takes eight
/// bytes and the `usize` level of detail takes eight bytes as a `u64`;
/// writing into a vector does not fail.
#[verifier::external_body]
fn serialize_key(key: [i64; 3], lod: usize) -> (r: Result<Vec<u8>, Box<bincode::ErrorKind>>)
    ensures
        r is Ok,
        r matches Ok(v) ==> v@ == key_wire(key, lod),
{
    bincode::serialize(&(key, lod))
}

/// `bincode::deserialize` into a key request `([i64; 3], usize)`: it reads
/// four little-endian 64-bit words from the front of the bytes, fails when
/// fewer than 32 bytes are there or the last word does not fit a `usize`,
/// and ignores trailing bytes.  Which error it returns is not stated.
#[verifier::external_body]
fn deserialize_key(bytes: &Vec<u8>) -> (r: Result<([i64; 3], usize), Box<bincode::ErrorKind>>)
    ensures
        r is Ok <==> key_wire_readable(bytes@),
        r matches Ok(v) ==> v == read_key_wire(bytes@),
{
    bincode::deserialize(bytes.as_slice())
}

/// The text a key request travels as: its bincode bytes in hexadecimal.
pub fn encode_key_message(k: &Key) -> (s: String)
    ensures
        s@ == hex_lower(key_wire(k.key, k.lod)),
{
    match serialize_key(k.key, k.lod) {
        Ok(bytes) => encode_payload(&bytes),
        Err(_) => {
            proof {
                assert(false);
            }
            String::new()
        },
    }
}

/// The key request that a message carries, or `None` where the text is not
/// hexadecimal or its bytes do not read as a key request.
pub fn decode_key_message(text: &str) -> (r: Option<Key>)
    ensures
        r is Some <==> (hex_decodable(text@) && key_wire_readable(hex_decode(text@))),
        r matches Some(k) ==> (k.key, k.lod) == read_key_wire(hex_decode(text@)),
{
    match decode_payload(text) {
        Some(bytes) => match deserialize_key(&bytes) {
            Ok((key, lod)) => Some(Key { key, lod }),
            Err(_) => None,
        },
        None => None,
    }
}

/// A key request survives the trip to a worker unchanged: the message that
/// encodes it decodes to the same key and level of detail.
pub proof fn lemma_key_message_round_trip(key: [i64; 3], lod: usize)
    ensures
        hex_decodable(hex_lower(key_wire(key, lod))),
        key_wire_readable(hex_decode(hex_lower(key_wire(key, lod)))),
        read_key_wire(hex_decode(hex_lower(key_wire(key, lod)))) == (key, lod),
{
    let w = key_wire(key, lod);
    lemma_payload_round_trip(w);
    lemma_auto_spec_u64_to_from_le_bytes();
    let a = spec_u64_to_le_bytes(key[0] as u64);
    let b = spec_u64_to_le_bytes(key[1] as u64);
    let c = spec_u64_to_le_bytes(key[2] as u64);
    let d = spec_u64_to_le_bytes(lod as u64);
    assert(w.subrange(0, 8) =~= a);
    assert(w.subrange(8, 16) =~= b);
    assert(w.subrange(16, 24) =~= c);
    assert(w.subrange(24, 32) =~= d);
    let k0 = key[0];
    let k1 = key[1];
    let k2 = key[2];
    assert((k0 as u64) as i64 == k0) by (bit_vector);
    assert((k1 as u64) as i64 == k1) by (bit_vector);
    assert((k2 as u64) as i64 == k2) by (bit_vector);
    assert((lod as u64) as usize == lod);
    assert(read_key_wire(w).0 =~= key);
}

/// The custom events that carry work between the main thread and the
/// workers.
#[derive(Clone, Copy, Debug, PartialEq, Eq, Hash, Structural)]
pub enum EventType {
    KeySend,
    KeyRecv,
    ChunkSend,
    ChunkRecv,
    SendColors,
}

/// The name an event is dispatched under.
pub open spec fn event_name(e: EventType) -> Seq<char> {
    match e {
        EventType::KeySend => "KeySend"@,
        EventType::KeyRecv => "KeyRecv"@,
        EventType::ChunkSend => "ChunkSend"@,
        EventType::ChunkRecv => "ChunkRecv"@,
        EventType::SendColors => "SendColors"@,
    }
}

impl EventType {
    /// The name the event is dispatched under, which is the variant's name.
    pub fn to_string(&self) -> (s: String)
        ensures
            s@ == event_name(*self),
    {
        match self {
            EventType::KeySend => String::from_str("KeySend"),
            EventType::KeyRecv => String::from_str("KeyRecv"),
            EventType::ChunkSend => String::from_str("ChunkSend"),
            EventType::ChunkRecv => String::from_str("ChunkRecv"),
            EventType::SendColors => String::from_str("SendColors"),
        }
    }

    /// The event a worker answers a request with: a key request is answered
    /// with the computed chunk, a chunk with its mesh; the other events are
    /// not requests.
    pub fn reply(&self) -> (r: Option<EventType>)
        ensures
            r == event_reply(*self),
    {
        match self {
            EventType::KeySend => Some(EventType::KeyRecv),
            EventType::ChunkSend => Some(EventType::ChunkRecv),
            _ => None,
        }
    }
}

/// The reply to each request event.
pub open spec fn event_reply(e: EventType) -> Option<EventType> {
    match e {
        EventType::KeySend => Some(EventType::KeyRecv),
        EventType::ChunkSend => Some(EventType::ChunkRecv),
        _ => None,
    }
}

/// Distinct events are dispatched under distinct names, so a listener
/// registered for one event never receives another.
pub proof fn lemma_event_names_distinct(a: EventType, b: EventType)
    requires
        a != b,
    ensures
        event_name(a) != event_name(b),
{
    reveal_strlit("KeySend");
    reveal_strlit("KeyRecv");
    reveal_strlit("ChunkSend");
    reveal_strlit("ChunkRecv");
    reveal_strlit("SendColors");
    if event_name(a) == event_name(b) {
        let x = event_name(a);
        let y = event_name(b);
        assert(x.len() == y.len());
        assert(x[0] == y[0]);
        assert(x[1] == y[1]);
        assert(x[4] == y[4]);
        assert(x[5] == y[5]);
    }
}

} // verus!
