//! The packets of a status ping, each with its encoding and its decoding.
//!
//! Packet ids are VarInts on the wire, but every id used here is below 128,
//! so each takes one byte.

use crate::error::{PingError, U64Packet};
use crate::protocol::io::{
    lemma_string_roundtrip, lemma_u16_be_roundtrip, parse_string, parse_u16_be, string_bytes,
    u16_be_bytes, MinecraftReadExt, MinecraftWriteExt, PacketReader,
};
use crate::protocol::varint::{lemma_varint_i32_roundtrip, parse_varint, varint_of};
use vstd::prelude::*;
use vstd::utf8::encode_utf8;

verus! {

pub const HANDSHAKE_PACKET_ID: u8 = 0;

pub const PING_REQUEST_PACKET_ID: u8 = 0;

pub const PING_RESPONSE_PACKET_ID: u8 = 0;

pub const PING_PACKET_ID: u8 = 1;

pub const PONG_PACKET_ID: u8 = 1;

/// A packet of the protocol: its bytes (without the length prefix that frames
/// it on the connection) and how bytes are read back into one.
pub trait Packet: Sized + View {
    /// The bytes of the packet whose value is `v`.
    spec fn spec_encode(v: Self::V) -> Seq<u8>;

    /// Reading a packet from `bytes`: `None` on the bytes that cannot be
    /// read at all (a string whose length prefix is negative, which as a
    /// buffer size exceeds `isize::MAX`), else the value or why it was
    /// refused.
    spec fn spec_decode(bytes: Seq<u8>) -> Option<Result<Self::V, PingError>>;

    /// The packet's bytes; encoding cannot fail.
    fn encode(&self) -> (r: Result<Vec<u8>, PingError>)
        ensures
            r is Ok,
            r->Ok_0@ == Self::spec_encode(self@),
    ;

    /// Whether `packet` is one of the inputs that `decode` is not given (see
    /// `spec_decode`), so that a caller can test it first.
    fn decode_aborts(packet: &[u8]) -> (r: bool)
        ensures
            r == (Self::spec_decode(packet@) is None),
    ;

    /// Reads a packet from its bytes.
    fn decode(packet: &[u8]) -> (r: Result<Self, PingError>)
        requires
            Self::spec_decode(packet@) is Some,
        ensures
            match r {
                Ok(p) => Self::spec_decode(packet@) == Some(Ok::<Self::V, PingError>(p@)),
                Err(e) => Self::spec_decode(packet@) == Some(Err::<Self::V, PingError>(e)),
            },
    ;
}

/// The state that a handshake asks the server to switch to.
#[derive(Clone, Copy, Debug, PartialEq, Eq)]
pub enum HandshakeState {
    Status,
    Login,
    Transfer,
}

/// The number that stands for `s` on the wire.
pub open spec fn state_number(s: HandshakeState) -> i32 {
    match s {
        HandshakeState::Status => 1,
        HandshakeState::Login => 2,
        HandshakeState::Transfer => 3,
    }
}

/// The state that `n` stands for, if any.
pub open spec fn state_from_number(n: i32) -> Option<HandshakeState> {
    if n == 1 {
        Some(HandshakeState::Status)
    } else if n == 2 {
        Some(HandshakeState::Login)
    } else if n == 3 {
        Some(HandshakeState::Transfer)
    } else {
        None
    }
}

impl HandshakeState {
    /// The number that stands for this state on the wire.
    pub fn number(self) -> (n: i32)
        ensures
            n == state_number(self),
    {
        match self {
            HandshakeState::Status => 1,
            HandshakeState::Login => 2,
            HandshakeState::Transfer => 3,
        }
    }
}

/// The first packet a client sends.
pub struct HandshakePacket {
    pub protocol_version: i32,
    pub server_address: String,
    pub server_port: u16,
    pub next_state: HandshakeState,
}

/// A handshake as a value: the address as characters.
pub struct HandshakeView {
    pub protocol_version: i32,
    pub server_address: Seq<char>,
    pub server_port: u16,
    pub next_state: HandshakeState,
}

impl View for HandshakePacket {
    type V = HandshakeView;

    open spec fn view(&self) -> HandshakeView {
        HandshakeView {
            protocol_version: self.protocol_version,
            server_address: self.server_address@,
            server_port: self.server_port,
            next_state: self.next_state,
        }
    }
}

/// The request for the server's status; it carries nothing.
pub struct PingRquestPacket {}

impl View for PingRquestPacket {
    type V = ();

    open spec fn view(&self) -> () {
        ()
    }
}

/// The server's status, a JSON text.
pub struct PingResponsePacket {
    pub content: String,
}

impl View for PingResponsePacket {
    type V = Seq<char>;

    open spec fn view(&self) -> Seq<char> {
        self.content@
    }
}

/// A ping, carrying a code for the pong to echo.
pub struct PingPacket {
    pub code: u64,
}

impl View for PingPacket {
    type V = u64;

    open spec fn view(&self) -> u64 {
        self.code
    }
}

/// The answer to a ping.
pub struct PongPacket {
    pub code: u64,
}

impl View for PongPacket {
    type V = u64;

    open spec fn view(&self) -> u64 {
        self.code
    }
}

/// The check of a packet's first byte, its id.
pub open spec fn spec_check_id(packet: Seq<u8>, id: u8) -> Result<(), PingError> {
    if packet.len() == 0 {
        Err(PingError::EmptyPacket)
    } else if packet[0] != id {
        Err(PingError::InvalidPacketId)
    } else {
        Ok(())
    }
}

/// The eight bytes of `x`, most significant first.
pub open spec fn u64_be_bytes(x: u64) -> Seq<u8> {
    seq![
        (x >> 56u64) as u8,
        (x >> 48u64) as u8,
        (x >> 40u64) as u8,
        (x >> 32u64) as u8,
        (x >> 24u64) as u8,
        (x >> 16u64) as u8,
        (x >> 8u64) as u8,
        x as u8,
    ]
}

/// The `u64` whose big-endian bytes are `s[from..from + 8]`.
pub open spec fn u64_from_be(s: Seq<u8>, from: int) -> u64 {
    ((s[from] as u64) << 56u64) | ((s[from + 1] as u64) << 48u64) | ((s[from + 2] as u64)
        << 40u64) | ((s[from + 3] as u64) << 32u64) | ((s[from + 4] as u64) << 24u64) | ((s[from
        + 5] as u64) << 16u64) | ((s[from + 6] as u64) << 8u64) | (s[from + 7] as u64)
}

/// A packet of one id byte followed by a big-endian `u64`.
pub open spec fn u64_packet_bytes(id: u8, code: u64) -> Seq<u8> {
    seq![id] + u64_be_bytes(code)
}

/// Reading such a packet: exactly nine bytes, the right id, then the code.
pub open spec fn spec_decode_u64_packet(packet: Seq<u8>, id: u8, which: U64Packet) -> Result<
    u64,
    PingError,
> {
    if packet.len() != 9 {
        Err(PingError::InvalidPacketLength(which))
    } else {
        match spec_check_id(packet, id) {
            Err(e) => Err(e),
            Ok(_) => Ok(u64_from_be(packet, 1)),
        }
    }
}

/// Checks that `packet` starts with `id`.
pub fn check_id(packet: &[u8], id: u8) -> (r: Result<(), PingError>)
    ensures
        r == spec_check_id(packet@, id),
{
    if packet.len() == 0 {
        return Err(PingError::EmptyPacket);
    }
    if packet[0] != id {
        return Err(PingError::InvalidPacketId);
    }
    Ok(())
}

/// Appends the big-endian bytes of `x`.
fn push_u64_be(out: &mut Vec<u8>, x: u64)
    ensures
        final(out)@ == old(out)@ + u64_be_bytes(x),
{
    out.push((x >> 56u64) as u8);
    out.push((x >> 48u64) as u8);
    out.push((x >> 40u64) as u8);
    out.push((x >> 32u64) as u8);
    out.push((x >> 24u64) as u8);
    out.push((x >> 16u64) as u8);
    out.push((x >> 8u64) as u8);
    out.push(x as u8);
    assert(final(out)@ =~= old(out)@ + u64_be_bytes(x));
}

/// The packet of id `id` that carries `code`.
pub fn encode_u64_packet(id: u8, code: u64) -> (r: Vec<u8>)
    ensures
        r@ == u64_packet_bytes(id, code),
{
    let mut packet: Vec<u8> = Vec::new();
    packet.push(id);
    push_u64_be(&mut packet, code);
    assert(packet@ =~= u64_packet_bytes(id, code));
    packet
}

/// Reads the code of a packet of id `id`; `which` names the packet in the
/// error for a wrong length.
pub fn decode_u64_packet(packet: &[u8], expected_id: u8, which: U64Packet) -> (r: Result<
    u64,
    PingError,
>)
    ensures
        r == spec_decode_u64_packet(packet@, expected_id, which),
{
    if packet.len() != 9 {
        return Err(PingError::InvalidPacketLength(which));
    }
    check_id(packet, expected_id)?;
    let v: u64 = ((packet[1] as u64) << 56u64) | ((packet[2] as u64) << 48u64) | ((
    packet[3] as u64) << 40u64) | ((packet[4] as u64) << 32u64) | ((packet[5] as u64) << 24u64)
        | ((packet[6] as u64) << 16u64) | ((packet[7] as u64) << 8u64) | (packet[8] as u64);
    Ok(v)
}

/// Reading back a `u64` packet that was written.
pub proof fn lemma_u64_packet_roundtrip(id: u8, code: u64, which: U64Packet)
    ensures
        spec_decode_u64_packet(u64_packet_bytes(id, code), id, which) == Ok::<u64, PingError>(code),
{
    let s = u64_packet_bytes(id, code);
    assert(s.len() == 9);
    assert(s[0] == id);
    let b1 = s[1];
    let b2 = s[2];
    let b3 = s[3];
    let b4 = s[4];
    let b5 = s[5];
    let b6 = s[6];
    let b7 = s[7];
    let b8 = s[8];
    assert(((b1 as u64) << 56u64) | ((b2 as u64) << 48u64) | ((b3 as u64) << 40u64) | ((
    b4 as u64) << 32u64) | ((b5 as u64) << 24u64) | ((b6 as u64) << 16u64) | ((b7 as u64)
        << 8u64) | (b8 as u64) == code) by (bit_vector)
        requires
            b1 == (code >> 56u64) as u8,
            b2 == (code >> 48u64) as u8,
            b3 == (code >> 40u64) as u8,
            b4 == (code >> 32u64) as u8,
            b5 == (code >> 24u64) as u8,
            b6 == (code >> 16u64) as u8,
            b7 == (code >> 8u64) as u8,
            b8 == code as u8,
    ;
}

/// Writing back a `u64` packet that was read gives the same nine bytes.
pub proof fn lemma_u64_packet_reencode(packet: Seq<u8>, id: u8, which: U64Packet)
    requires
        spec_decode_u64_packet(packet, id, which) is Ok,
    ensures
        u64_packet_bytes(id, spec_decode_u64_packet(packet, id, which)->Ok_0) == packet,
{
    let code = u64_from_be(packet, 1);
    let b1 = packet[1];
    let b2 = packet[2];
    let b3 = packet[3];
    let b4 = packet[4];
    let b5 = packet[5];
    let b6 = packet[6];
    let b7 = packet[7];
    let b8 = packet[8];
    assert(b1 == (code >> 56u64) as u8 && b2 == (code >> 48u64) as u8 && b3 == (code >> 40u64)
        as u8 && b4 == (code >> 32u64) as u8 && b5 == (code >> 24u64) as u8 && b6 == (code
        >> 16u64) as u8 && b7 == (code >> 8u64) as u8 && b8 == code as u8) by (bit_vector)
        requires
            code == ((b1 as u64) << 56u64) | ((b2 as u64) << 48u64) | ((b3 as u64) << 40u64) | ((
            b4 as u64) << 32u64) | ((b5 as u64) << 24u64) | ((b6 as u64) << 16u64) | ((
            b7 as u64) << 8u64) | (b8 as u64),
    ;
    assert(u64_packet_bytes(id, code) =~= packet);
}

/// Reading a handshake from `bytes`.
pub open spec fn spec_decode_handshake(bytes: Seq<u8>) -> Option<Result<HandshakeView, PingError>> {
    match spec_check_id(bytes, HANDSHAKE_PACKET_ID) {
        Err(e) => Some(Err(e)),
        Ok(_) => {
            let s0 = bytes.skip(1);
            match parse_varint(s0) {
                Err(e) => Some(Err(e)),
                Ok((version, n1)) => {
                    let s1 = s0.skip(n1 as int);
                    match parse_string(s1) {
                        None => None,
                        Some(Err(e)) => Some(Err(e)),
                        Some(Ok((address, n2))) => {
                            let s2 = s1.skip(n2 as int);
                            match parse_u16_be(s2) {
                                Err(e) => Some(Err(e)),
                                Ok((port, n3)) => {
                                    let s3 = s2.skip(n3 as int);
                                    match parse_varint(s3) {
                                        Err(e) => Some(Err(e)),
                                        Ok((state, _)) => match state_from_number(state) {
                                            Some(next_state) => Some(
                                                Ok(
                                                    HandshakeView {
                                                        protocol_version: version,
                                                        server_address: address,
                                                        server_port: port,
                                                        next_state,
                                                    },
                                                ),
                                            ),
                                            None => Some(
                                                Err(PingError::InvalidHandshakeState(state)),
                                            ),
                                        },
                                    }
                                },
                            }
                        },
                    }
                },
            }
        },
    }
}

/// The bytes of a handshake.
pub open spec fn handshake_bytes(v: HandshakeView) -> Seq<u8> {
    seq![HANDSHAKE_PACKET_ID] + varint_of(v.protocol_version) + string_bytes(v.server_address)
        + u16_be_bytes(v.server_port) + varint_of(state_number(v.next_state))
}

impl Packet for HandshakePacket {
    open spec fn spec_encode(v: HandshakeView) -> Seq<u8> {
        handshake_bytes(v)
    }

    open spec fn spec_decode(bytes: Seq<u8>) -> Option<Result<HandshakeView, PingError>> {
        spec_decode_handshake(bytes)
    }

    fn encode(&self) -> (r: Result<Vec<u8>, PingError>) {
        let mut packet: Vec<u8> = Vec::new();
        packet.push(HANDSHAKE_PACKET_ID);
        packet.write_varint(self.protocol_version);
        packet.write_string(self.server_address.as_str());
        packet.push((self.server_port >> 8u16) as u8);
        packet.push((self.server_port & 0xff) as u8);
        packet.write_varint(self.next_state.number());
        assert(packet@ =~= handshake_bytes(self@));
        Ok(packet)
    }

    fn decode_aborts(packet: &[u8]) -> (r: bool) {
        if check_id(packet, HANDSHAKE_PACKET_ID).is_err() {
            return false;
        }
        let body = &packet[1..packet.len()];
        assert(body@ =~= packet@.skip(1));
        let mut reader = PacketReader::new(body);
        match reader.read_varint() {
            Ok(_) => reader.length_prefix_negative(),
            Err(_) => false,
        }
    }

    fn decode(packet: &[u8]) -> (r: Result<Self, PingError>) {
        check_id(packet, HANDSHAKE_PACKET_ID)?;
        let body = &packet[1..packet.len()];
        let mut reader = PacketReader::new(body);
        assert(body@ =~= packet@.skip(1));
        let protocol_version = reader.read_varint()?;
        let server_address = reader.read_string()?;
        let server_port = reader.read_unsigned_short()?;
        let state = reader.read_varint()?;
        let next_state = if state == 1 {
            HandshakeState::Status
        } else if state == 2 {
            HandshakeState::Login
        } else if state == 3 {
            HandshakeState::Transfer
        } else {
            return Err(PingError::InvalidHandshakeState(state));
        };
        Ok(HandshakePacket { protocol_version, server_address, server_port, next_state })
    }
}

/// Reading back a handshake that was written gives the same handshake,
/// provided its address's UTF-8 length fits in an `i32`.
pub proof fn lemma_handshake_roundtrip(v: HandshakeView)
    requires
        encode_utf8(v.server_address).len() <= i32::MAX,
    ensures
        HandshakePacket::spec_decode(HandshakePacket::spec_encode(v)) == Some(
            Ok::<HandshakeView, PingError>(v),
        ),
{
    let b = handshake_bytes(v);
    let tail3 = varint_of(state_number(v.next_state));
    let tail2 = u16_be_bytes(v.server_port) + tail3;
    let tail1 = string_bytes(v.server_address) + tail2;
    assert(b.skip(1) =~= varint_of(v.protocol_version) + tail1);
    lemma_varint_i32_roundtrip(v.protocol_version, tail1);
    let n1 = varint_of(v.protocol_version).len();
    assert((varint_of(v.protocol_version) + tail1).skip(n1 as int) =~= tail1);
    lemma_string_roundtrip(v.server_address, tail2);
    let n2 = string_bytes(v.server_address).len();
    assert(tail1.skip(n2 as int) =~= tail2);
    lemma_u16_be_roundtrip(v.server_port, tail3);
    assert(tail2.skip(2) =~= tail3);
    lemma_varint_i32_roundtrip(state_number(v.next_state), seq![]);
    assert(tail3 + seq![] =~= tail3);
}

/// The next state travels as its protocol number, Status 1, Login 2 and
/// Transfer 3: it is the last byte of every encoded handshake, and only those
/// three numbers are read back as a state, each as the state it stands for.
pub proof fn lemma_handshake_state_on_wire(v: HandshakeView, n: i32)
    ensures
        HandshakePacket::spec_encode(v).last() == (match v.next_state {
            HandshakeState::Status => 1u8,
            HandshakeState::Login => 2u8,
            HandshakeState::Transfer => 3u8,
        }),
        state_from_number(1) == Some(HandshakeState::Status),
        state_from_number(2) == Some(HandshakeState::Login),
        state_from_number(3) == Some(HandshakeState::Transfer),
        !(1 <= n <= 3) ==> state_from_number(n) is None,
{
    let k = state_number(v.next_state);
    assert(varint_of(k) =~= seq![k as u8]);
}

impl Packet for PingRquestPacket {
    open spec fn spec_encode(v: ()) -> Seq<u8> {
        seq![PING_REQUEST_PACKET_ID]
    }

    open spec fn spec_decode(bytes: Seq<u8>) -> Option<Result<(), PingError>> {
        Some(spec_check_id(bytes, PING_REQUEST_PACKET_ID))
    }

    fn encode(&self) -> (r: Result<Vec<u8>, PingError>) {
        let v = vec![PING_REQUEST_PACKET_ID];
        assert(v@ =~= seq![PING_REQUEST_PACKET_ID]);
        Ok(v)
    }

    fn decode_aborts(packet: &[u8]) -> (r: bool) {
        false
    }

    fn decode(packet: &[u8]) -> (r: Result<Self, PingError>) {
        check_id(packet, PING_REQUEST_PACKET_ID)?;
        Ok(PingRquestPacket {  })
    }
}

/// Reading a status response from `bytes`.
pub open spec fn spec_decode_response(bytes: Seq<u8>) -> Option<Result<Seq<char>, PingError>> {
    match spec_check_id(bytes, PING_RESPONSE_PACKET_ID) {
        Err(e) => Some(Err(e)),
        Ok(_) => match parse_string(bytes.skip(1)) {
            None => None,
            Some(Err(e)) => Some(Err(e)),
            Some(Ok((content, _))) => Some(Ok(content)),
        },
    }
}

impl Packet for PingResponsePacket {
    open spec fn spec_encode(v: Seq<char>) -> Seq<u8> {
        seq![PING_RESPONSE_PACKET_ID] + string_bytes(v)
    }

    open spec fn spec_decode(bytes: Seq<u8>) -> Option<Result<Seq<char>, PingError>> {
        spec_decode_response(bytes)
    }

    fn encode(&self) -> (r: Result<Vec<u8>, PingError>) {
        let mut packet: Vec<u8> = Vec::new();
        packet.push(PING_RESPONSE_PACKET_ID);
        packet.write_string(self.content.as_str());
        assert(packet@ =~= seq![PING_RESPONSE_PACKET_ID] + string_bytes(self@));
        Ok(packet)
    }

    fn decode_aborts(packet: &[u8]) -> (r: bool) {
        if check_id(packet, PING_RESPONSE_PACKET_ID).is_err() {
            return false;
        }
        let body = &packet[1..packet.len()];
        assert(body@ =~= packet@.skip(1));
        PacketReader::new(body).length_prefix_negative()
    }

    fn decode(packet: &[u8]) -> (r: Result<Self, PingError>) {
        check_id(packet, PING_RESPONSE_PACKET_ID)?;
        let body = &packet[1..packet.len()];
        assert(body@ =~= packet@.skip(1));
        let mut reader = PacketReader::new(body);
        let content = reader.read_string()?;
        Ok(PingResponsePacket { content })
    }
}

/// Reading back a status response that was written gives the same text,
/// provided its UTF-8 length fits in an `i32`.
pub proof fn lemma_response_roundtrip(content: Seq<char>)
    requires
        encode_utf8(content).len() <= i32::MAX,
    ensures
        PingResponsePacket::spec_decode(PingResponsePacket::spec_encode(content)) == Some(
            Ok::<Seq<char>, PingError>(content),
        ),
{
    let b = PingResponsePacket::spec_encode(content);
    assert(b.skip(1) =~= string_bytes(content) + seq![]);
    lemma_string_roundtrip(content, seq![]);
}

/// Reading back the status request that was written succeeds.
pub proof fn lemma_request_roundtrip()
    ensures
        PingRquestPacket::spec_decode(PingRquestPacket::spec_encode(())) == Some(
            Ok::<(), PingError>(()),
        ),
{
}

/// Reading back a ping that was written gives its code; writing back a ping
/// that was read gives the bytes that were read.
pub proof fn lemma_ping_roundtrip(code: u64, bytes: Seq<u8>)
    ensures
        PingPacket::spec_decode(PingPacket::spec_encode(code)) == Some(
            Ok::<u64, PingError>(code),
        ),
        PingPacket::spec_decode(bytes) matches Some(Ok(c)) ==> PingPacket::spec_encode(c)
            == bytes,
{
    lemma_u64_packet_roundtrip(PING_PACKET_ID, code, U64Packet::Ping);
    if spec_decode_u64_packet(bytes, PING_PACKET_ID, U64Packet::Ping) is Ok {
        lemma_u64_packet_reencode(bytes, PING_PACKET_ID, U64Packet::Ping);
    }
}

/// Reading back a pong that was written gives its code; writing back a pong
/// that was read gives the bytes that were read.
pub proof fn lemma_pong_roundtrip(code: u64, bytes: Seq<u8>)
    ensures
        PongPacket::spec_decode(PongPacket::spec_encode(code)) == Some(
            Ok::<u64, PingError>(code),
        ),
        PongPacket::spec_decode(bytes) matches Some(Ok(c)) ==> PongPacket::spec_encode(c)
            == bytes,
{
    lemma_u64_packet_roundtrip(PONG_PACKET_ID, code, U64Packet::Pong);
    if spec_decode_u64_packet(bytes, PONG_PACKET_ID, U64Packet::Pong) is Ok {
        lemma_u64_packet_reencode(bytes, PONG_PACKET_ID, U64Packet::Pong);
    }
}

impl Packet for PingPacket {
    open spec fn spec_encode(v: u64) -> Seq<u8> {
        u64_packet_bytes(PING_PACKET_ID, v)
    }

    open spec fn spec_decode(bytes: Seq<u8>) -> Option<Result<u64, PingError>> {
        Some(spec_decode_u64_packet(bytes, PING_PACKET_ID, U64Packet::Ping))
    }

    fn encode(&self) -> (r: Result<Vec<u8>, PingError>) {
        Ok(encode_u64_packet(PING_PACKET_ID, self.code))
    }

    fn decode_aborts(packet: &[u8]) -> (r: bool) {
        false
    }

    fn decode(packet: &[u8]) -> (r: Result<Self, PingError>) {
        let code = decode_u64_packet(packet, PING_PACKET_ID, U64Packet::Ping)?;
        Ok(PingPacket { code })
    }
}

impl Packet for PongPacket {
    open spec fn spec_encode(v: u64) -> Seq<u8> {
        u64_packet_bytes(PONG_PACKET_ID, v)
    }

    open spec fn spec_decode(bytes: Seq<u8>) -> Option<Result<u64, PingError>> {
        Some(spec_decode_u64_packet(bytes, PONG_PACKET_ID, U64Packet::Pong))
    }

    fn encode(&self) -> (r: Result<Vec<u8>, PingError>) {
        Ok(encode_u64_packet(PONG_PACKET_ID, self.code))
    }

    fn decode_aborts(packet: &[u8]) -> (r: bool) {
        false
    }

    fn decode(packet: &[u8]) -> (r: Result<Self, PingError>) {
        let code = decode_u64_packet(packet, PONG_PACKET_ID, U64Packet::Pong)?;
        Ok(PongPacket { code })
    }
}

} // verus!
