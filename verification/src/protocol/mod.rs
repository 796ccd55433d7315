//! The values that the game's client and server exchange, and the framing
//! of messages on the wire.

pub mod tcp;
pub mod udp;

use vstd::prelude::*;
use crate::keymap::MapKey;

verus! {

/// The secret that the server hands a client over TCP, by which the client
/// later proves itself over UDP.
#[derive(Clone, Copy, Debug, PartialEq, Eq, Hash)]
pub struct Token(pub [u8; 32]);

/// A random challenge that the server asks a client to answer.
#[derive(Clone, Copy, Debug, PartialEq, Eq, Hash)]
pub struct Nonce(pub [u8; 16]);

/// The identity of a player in the world.
#[derive(Clone, Copy, Debug, PartialEq, Eq, Hash)]
pub struct PlayerId(pub u32);

/// A player's position, each of its two coordinates held as the bit
/// pattern of a 32-bit float.
#[derive(Clone, Copy, Debug, PartialEq, Eq, Hash)]
pub struct PositionBits(pub [u32; 2]);

/// The address of a UDP peer: an IP address, version 4 or 6, and a port.
#[derive(Clone, Copy, Debug, PartialEq, Eq, Hash)]
pub enum PeerAddr {
    V4 { ip4: [u8; 4], port: u16 },
    V6 { ip6: [u8; 16], port: u16, flowinfo: u32, scope_id: u32 },
}

impl PositionBits {
    /// The position at the origin (both coordinates `0.0`).
    pub fn origin() -> (p: PositionBits)
        ensures
            p == PositionBits([0u32, 0u32]),
    {
        PositionBits([0u32, 0u32])
    }
}

/// The big-endian bytes of a 16-bit length.
pub open spec fn be16(n: u16) -> Seq<u8> {
    seq![(n / 256) as u8, (n % 256) as u8]
}

/// The number that a big-endian 16-bit header stands for.
pub open spec fn be16_value(hi: u8, lo: u8) -> int {
    hi * 256 + lo
}

/// A payload of `len` bytes may be sent when it is not empty and not
/// longer than `max_len`.
pub open spec fn length_allowed(len: int, max_len: u16) -> bool {
    0 < len <= max_len
}

/// The frame that carries `payload` over TCP: its length as a big-endian
/// `u16`, then the payload itself; `None` where its length is not allowed.
pub fn frame_message(payload: &[u8], max_len: u16) -> (r: Option<Vec<u8>>)
    ensures
        r is Some <==> length_allowed(payload@.len() as int, max_len),
        r matches Some(f) ==> f@ == be16(payload@.len() as u16) + payload@,
{
    let length = payload.len();
    if length == 0 || length > max_len as usize {
        return None;
    }
    let n = length as u16;
    let mut frame: Vec<u8> = Vec::with_capacity(length + 2);
    frame.push((n / 256) as u8);
    frame.push((n % 256) as u8);
    let mut i: usize = 0;
    while i < length
        invariant
            length == payload@.len(),
            n == length,
            i <= length,
            frame@ == be16(n) + payload@.subrange(0, i as int),
        decreases length - i,
    {
        frame.push(payload[i]);
        i = i + 1;
        assert(payload@.subrange(0, i as int) =~= payload@.subrange(0, i - 1).push(payload@[i - 1]));
        assert(frame@ =~= be16(n) + payload@.subrange(0, i as int));
    }
    assert(payload@.subrange(0, length as int) =~= payload@);
    Some(frame)
}

/// The length of the payload that follows a frame header, where it is
/// allowed; `None` otherwise.
pub fn frame_payload_length(header: [u8; 2], max_len: u16) -> (r: Option<usize>)
    ensures
        r is Some <==> length_allowed(be16_value(header[0], header[1]), max_len),
        r matches Some(n) ==> n == be16_value(header[0], header[1]),
{
    let length: u16 = header[0] as u16 * 256 + header[1] as u16;
    if length == 0 || length > max_len {
        None
    } else {
        Some(length as usize)
    }
}

/// Whether a datagram of `length` bytes may be sent or accepted.
pub fn datagram_length_ok(length: usize, max_len: u16) -> (ok: bool)
    ensures
        ok == length_allowed(length as int, max_len),
{
    length != 0 && length <= max_len as usize
}

/// A frame header, read back, gives the length of the payload that it was
/// made for.
pub proof fn lemma_frame_header_roundtrip(payload: Seq<u8>, max_len: u16)
    requires
        length_allowed(payload.len() as int, max_len),
    ensures
        ({
            let f = be16(payload.len() as u16) + payload;
            &&& f.len() == payload.len() + 2
            &&& be16_value(f[0], f[1]) == payload.len()
            &&& f.subrange(2, f.len() as int) == payload
        }),
{
    let f = be16(payload.len() as u16) + payload;
    assert(f.subrange(2, f.len() as int) =~= payload);
}

/// Whether two byte arrays hold the same bytes.
pub fn bytes_eq<const N: usize>(a: &[u8; N], b: &[u8; N]) -> (eq: bool)
    ensures
        eq == (*a == *b),
{
    let mut i: usize = 0;
    while i < N
        invariant
            i <= N,
            a@.len() == N,
            b@.len() == N,
            forall|j: int| 0 <= j < i ==> a@[j] == b@[j],
        decreases N - i,
    {
        if a[i] != b[i] {
            return false;
        }
        i = i + 1;
    }
    assert(*a =~= *b);
    true
}

impl Token {
    /// Whether two tokens are the same.
    pub fn same(&self, other: &Token) -> (eq: bool)
        ensures
            eq == (*self == *other),
    {
        bytes_eq(&self.0, &other.0)
    }
}

impl Nonce {
    /// Whether two nonces are the same.
    pub fn same(&self, other: &Nonce) -> (eq: bool)
        ensures
            eq == (*self == *other),
    {
        bytes_eq(&self.0, &other.0)
    }
}

impl MapKey for Token {
    fn key_eq(&self, other: &Self) -> (eq: bool) {
        self.same(other)
    }
}

impl MapKey for PlayerId {
    fn key_eq(&self, other: &Self) -> (eq: bool) {
        self.0 == other.0
    }
}

impl MapKey for PeerAddr {
    fn key_eq(&self, other: &Self) -> (eq: bool) {
        match (self, other) {
            (PeerAddr::V4 { ip4: a, port: p }, PeerAddr::V4 { ip4: b, port: q }) => *p == *q && bytes_eq(a, b),
            (
                PeerAddr::V6 { ip6: a, port: p, flowinfo: f, scope_id: s },
                PeerAddr::V6 { ip6: b, port: q, flowinfo: g, scope_id: t },
            ) => *p == *q && *f == *g && *s == *t && bytes_eq(a, b),
            _ => false,
        }
    }
}

} // verus!
