//! Reading and writing the protocol's primitive values: VarInts, big-endian
//! `u16`s, length-prefixed UTF-8 strings and length-prefixed packets.

use crate::error::PingError;
use crate::protocol::varint::{
    lemma_varint_i32_roundtrip, lemma_parse_varint_consumes, lemma_varint_parse_consumes, parse_varint, varint_group, varint_bytes, varint_of, varint_parse_from,
    VarintDecoder, VarintStep,
};
use vstd::prelude::*;
use vstd::utf8::*;
use vstd::slice::slice_to_vec;

pub use crate::protocol::forge::decode_forge_d;



verus! {

broadcast use vstd::utf8::encode_utf8_valid_utf8, vstd::utf8::encode_utf8_decode_utf8;

/// The two bytes of `x`, most significant first.
pub open spec fn u16_be_bytes(x: u16) -> Seq<u8> {
    seq![(x >> 8) as u8, (x & 0xff) as u8]
}

/// Reading a big-endian `u16` at the start of `s`.
pub open spec fn parse_u16_be(s: Seq<u8>) -> Result<(u16, nat), PingError> {
    if s.len() < 2 {
        Err(PingError::UnexpectedEof)
    } else {
        Ok(((((s[0] as u16) << 8u16) | (s[1] as u16)) as u16, 2))
    }
}

/// A string on the wire: its UTF-8 byte length as a VarInt (the length taken
/// as an `i32`), then its UTF-8 bytes.
pub open spec fn string_bytes(chars: Seq<char>) -> Seq<u8> {
    varint_of(encode_utf8(chars).len() as i32) + encode_utf8(chars)
}

/// Reading a string at the start of `s`: `None` where the length prefix is
/// negative, which cannot be read at all (as a buffer size it exceeds
/// `isize::MAX`); else the characters and the number of bytes consumed, or
/// why it failed.
pub open spec fn parse_string(s: Seq<u8>) -> Option<Result<(Seq<char>, nat), PingError>> {
    match parse_varint(s) {
        Err(e) => Some(Err(e)),
        Ok((len, n)) => if len < 0 {
            None
        } else if n + len > s.len() {
            Some(Err(PingError::UnexpectedEof))
        } else {
            let body = s.subrange(n as int, n + len);
            if valid_utf8(body) {
                Some(Ok((decode_utf8(body), (n + len) as nat)))
            } else {
                Some(Err(PingError::InvalidUtf8))
            }
        },
    }
}

/// A packet on the wire: its length as a VarInt (taken as an `i32`), then
/// its bytes.
pub open spec fn frame_bytes(payload: Seq<u8>) -> Seq<u8> {
    varint_of(payload.len() as i32) + payload
}

/// Reading a length-prefixed packet at the start of `s`: `None` where the
/// length prefix is negative (as for strings), else the packet's bytes and
/// the number of bytes consumed, or why it failed.
pub open spec fn parse_frame(s: Seq<u8>) -> Option<Result<(Seq<u8>, nat), PingError>> {
    match parse_varint(s) {
        Err(e) => Some(Err(e)),
        Ok((len, n)) => if len < 0 {
            None
        } else if n + len > s.len() {
            Some(Err(PingError::UnexpectedEof))
        } else {
            Some(Ok((s.subrange(n as int, n + len), (n + len) as nat)))
        },
    }
}

/// Reading back a `u16` that was written, whatever follows it.
pub proof fn lemma_u16_be_roundtrip(x: u16, rest: Seq<u8>)
    ensures
        parse_u16_be(u16_be_bytes(x) + rest) == Ok::<(u16, nat), PingError>((x, 2)),
{
    let s = u16_be_bytes(x) + rest;
    assert(s[0] == (x >> 8) as u8 && s[1] == (x & 0xff) as u8);
    let b0 = (x >> 8) as u8;
    let b1 = (x & 0xff) as u8;
    assert((((b0 as u16) << 8u16) | (b1 as u16)) == x) by (bit_vector)
        requires
            b0 == (x >> 8) as u8,
            b1 == (x & 0xff) as u8,
    ;
}

/// Reading back a string that was written, whatever follows it, provided its
/// UTF-8 length fits in an `i32` (longer ones are written with a length that
/// wraps around).
pub proof fn lemma_string_roundtrip(chars: Seq<char>, rest: Seq<u8>)
    requires
        encode_utf8(chars).len() <= i32::MAX,
    ensures
        parse_string(string_bytes(chars) + rest) == Some(
            Ok::<(Seq<char>, nat), PingError>((chars, string_bytes(chars).len())),
        ),
{
    let body = encode_utf8(chars);
    let len = body.len() as i32;
    let s = string_bytes(chars) + rest;
    lemma_varint_i32_roundtrip(len, body + rest);
    assert(s =~= varint_of(len) + (body + rest));
    let n = varint_of(len).len();
    assert(s.subrange(n as int, n + len) =~= body);
}

/// Reading back a packet that was framed, whatever follows it, provided its
/// length fits in an `i32`.
pub proof fn lemma_frame_roundtrip(payload: Seq<u8>, rest: Seq<u8>)
    requires
        payload.len() <= i32::MAX,
    ensures
        parse_frame(frame_bytes(payload) + rest) == Some(
            Ok::<(Seq<u8>, nat), PingError>((payload, frame_bytes(payload).len())),
        ),
{
    let len = payload.len() as i32;
    let s = frame_bytes(payload) + rest;
    lemma_varint_i32_roundtrip(len, payload + rest);
    assert(s =~= varint_of(len) + (payload + rest));
    let n = varint_of(len).len();
    assert(s.subrange(n as int, n + len) =~= payload);
}

/// `String::from_utf8`: the bytes as a string where they are valid UTF-8,
/// `None` where they are not. Claimed of it: validity is `valid_utf8` and the
/// characters are `decode_utf8` of the bytes, as the standard library
/// documents ("converts a vector of bytes to a String ... returns Err if the
/// slice is not UTF-8").
#[verifier::external_body]
fn utf8_to_string(bytes: &[u8]) -> (r: Option<String>)
    ensures
        r is Some <==> valid_utf8(bytes@),
        r matches Some(s) ==> s@ == decode_utf8(bytes@),
{
    String::from_utf8(bytes.to_vec()).ok()
}

/// Where a failed read leaves the source: a VarInt that is too long has had
/// its five bytes consumed, and a value cut short by the end of the input has
/// consumed everything there was.
pub open spec fn rest_after_error(s: Seq<u8>, rest: Seq<u8>, e: PingError) -> bool {
    &&& e is VarintTooLong ==> rest == s.skip(5)
    &&& e is UnexpectedEof ==> rest.len() == 0
}

/// Reading the protocol's values from a source of bytes that is consumed from
/// the front.
pub trait MinecraftReadExt {
    /// The bytes not read yet.
    spec fn unread(&self) -> Seq<u8>;

    /// Reads a length-prefixed UTF-8 string. Bytes that are not UTF-8 are
    /// consumed with their length prefix.
    fn read_string(&mut self) -> (r: Result<String, PingError>)
        requires
            parse_string(old(self).unread()) is Some,
        ensures
            match parse_string(old(self).unread()) {
                Some(Ok((chars, n))) => r is Ok && r->Ok_0@ == chars && final(self).unread()
                    == old(self).unread().skip(n as int),
                Some(Err(e)) => {
                    &&& r == Err::<String, PingError>(e)
                    &&& rest_after_error(old(self).unread(), final(self).unread(), e)
                    &&& e is InvalidUtf8 ==> (parse_frame(old(self).unread()) matches Some(
                        Ok((_, m)),
                    ) && final(self).unread() == old(self).unread().skip(m as int))
                },
                None => false,
            },
    ;

    /// Reads a big-endian `u16`.
    fn read_unsigned_short(&mut self) -> (r: Result<u16, PingError>)
        ensures
            match parse_u16_be(old(self).unread()) {
                Ok((v, n)) => r == Ok::<u16, PingError>(v) && final(self).unread() == old(
                    self,
                ).unread().skip(n as int),
                Err(e) => r == Err::<u16, PingError>(e) && rest_after_error(
                    old(self).unread(),
                    final(self).unread(),
                    e,
                ),
            },
    ;

    /// Reads a VarInt.
    fn read_varint(&mut self) -> (r: Result<i32, PingError>)
        ensures
            match parse_varint(old(self).unread()) {
                Ok((v, n)) => r == Ok::<i32, PingError>(v) && final(self).unread() == old(
                    self,
                ).unread().skip(n as int),
                Err(e) => r == Err::<i32, PingError>(e) && rest_after_error(
                    old(self).unread(),
                    final(self).unread(),
                    e,
                ),
            },
    ;

    /// Reads a length-prefixed packet.
    fn read_packet(&mut self) -> (r: Result<Vec<u8>, PingError>)
        requires
            parse_frame(old(self).unread()) is Some,
        ensures
            match parse_frame(old(self).unread()) {
                Some(Ok((body, n))) => r is Ok && r->Ok_0@ == body && final(self).unread() == old(
                    self,
                ).unread().skip(n as int),
                Some(Err(e)) => r == Err::<Vec<u8>, PingError>(e) && rest_after_error(
                    old(self).unread(),
                    final(self).unread(),
                    e,
                ),
                None => false,
            },
    ;
}

/// Writing the protocol's values at the end of a growing buffer.
pub trait MinecraftWriteExt {
    /// The bytes written so far.
    spec fn written(&self) -> Seq<u8>;

    /// Writes a string: its UTF-8 length as a VarInt, then its UTF-8 bytes.
    fn write_string(&mut self, str: &str)
        ensures
            final(self).written() == old(self).written() + string_bytes(str@),
    ;

    /// Writes a VarInt.
    fn write_varint(&mut self, number: i32)
        ensures
            final(self).written() == old(self).written() + varint_of(number),
    ;

    /// Writes a packet: its length as a VarInt, then its bytes.
    fn write_packet(&mut self, packet: &[u8])
        ensures
            final(self).written() == old(self).written() + frame_bytes(packet@),
    ;
}

/// A byte slice read from the front.
pub struct PacketReader<'a> {
    data: &'a [u8],
    pos: usize,
}

impl<'a> PacketReader<'a> {
    #[verifier::type_invariant]
    spec fn inv(self) -> bool {
        self.pos <= self.data@.len()
    }

    /// A reader over all of `data`.
    pub fn new(data: &'a [u8]) -> (r: PacketReader<'a>)
        ensures
            r.unread() == data@,
    {
        let r = PacketReader { data, pos: 0 };
        assert(r.unread() =~= data@);
        r
    }

    /// Whether the next value, read as a length prefix, is negative: the
    /// input on which `read_string` and `read_packet` are refused.
    pub fn length_prefix_negative(&self) -> (r: bool)
        ensures
            r == (parse_frame(self.unread()) is None),
            r == (parse_string(self.unread()) is None),
    {
        proof {
            use_type_invariant(self);
        }
        let mut probe = PacketReader { data: self.data, pos: self.pos };
        assert(probe.unread() == self.unread());
        match probe.read_varint() {
            Ok(len) => len < 0,
            Err(_) => false,
        }
    }

    /// Takes the next byte.
    fn next_byte(&mut self) -> (r: Option<u8>)
        ensures
            old(self).unread().len() == 0 ==> r is None && final(self).unread() == old(self).unread(),
            old(self).unread().len() > 0 ==> r == Some(old(self).unread()[0]) && final(self).unread()
                == old(self).unread().skip(1),
    {
        proof {
            use_type_invariant(&*self);
        }
        if self.pos < self.data.len() {
            let b = self.data[self.pos];
            self.pos = self.pos + 1;
            assert(self.unread() =~= old(self).unread().skip(1));
            Some(b)
        } else {
            None
        }
    }

    /// Takes the next `len` bytes, if there are that many; if there are
    /// fewer, they are all consumed.
    fn take(&mut self, len: usize) -> (r: Option<&'a [u8]>)
        ensures
            len > old(self).unread().len() ==> r is None && final(self).unread().len() == 0,
            len <= old(self).unread().len() ==> r is Some && r->0@ == old(self).unread().take(
                len as int,
            ) && final(self).unread() == old(self).unread().skip(len as int),
    {
        proof {
            use_type_invariant(&*self);
        }
        if len <= self.data.len() - self.pos {
            let start = self.pos;
            let slice = &self.data[start..start + len];
            self.pos = start + len;
            assert(slice@ =~= old(self).unread().take(len as int));
            assert(self.unread() =~= old(self).unread().skip(len as int));
            Some(slice)
        } else {
            self.pos = self.data.len();
            None
        }
    }

    /// Reads the length prefix of a string or packet and takes that many
    /// bytes.
    fn read_prefixed(&mut self) -> (r: Result<&'a [u8], PingError>)
        requires
            parse_frame(old(self).unread()) is Some,
        ensures
            match parse_frame(old(self).unread()) {
                Some(Ok((body, n))) => r is Ok && r->Ok_0@ == body && final(self).unread() == old(
                    self,
                ).unread().skip(n as int),
                Some(Err(e)) => r == Err::<&'a [u8], PingError>(e) && rest_after_error(
                    old(self).unread(),
                    final(self).unread(),
                    e,
                ),
                None => false,
            },
    {
        let ghost s = self.unread();
        proof {
            lemma_parse_varint_consumes(s);
        }
        let len = self.read_varint()?;
        let ghost n = parse_varint(s)->Ok_0.1;
        assert(self.unread() =~= s.skip(n as int));
        let len = len as usize;
        match self.take(len) {
            Some(body) => {
                assert(n + len <= s.len());
                assert(body@ =~= s.subrange(n as int, n + len));
                assert(self.unread() =~= s.skip(n + len));
                Ok(body)
            },
            None => Err(PingError::UnexpectedEof),
        }
    }
}

impl<'a> MinecraftReadExt for PacketReader<'a> {
    closed spec fn unread(&self) -> Seq<u8> {
        self.data@.subrange(self.pos as int, self.data@.len() as int)
    }

    fn read_string(&mut self) -> (r: Result<String, PingError>) {
        let ghost s = self.unread();
        assert(parse_frame(s) is Some);
        proof {
            lemma_varint_parse_consumes(s, 0, 0);
        }
        let bytes = self.read_prefixed()?;
        match utf8_to_string(bytes) {
            Some(value) => Ok(value),
            None => Err(PingError::InvalidUtf8),
        }
    }

    fn read_unsigned_short(&mut self) -> (r: Result<u16, PingError>) {
        match self.take(2) {
            Some(buf) => {
                let v: u16 = ((buf[0] as u16) << 8u16) | (buf[1] as u16);
                Ok(v)
            },
            None => Err(PingError::UnexpectedEof),
        }
    }

    fn read_varint(&mut self) -> (r: Result<i32, PingError>) {
        let ghost s = self.unread();
        let mut decoder = VarintDecoder::new();
        let ghost mut i: nat = 0;
        loop
            invariant
                i < 5,
                s == old(self).unread(),
                decoder@.1 == i,
                varint_parse_from(s, i, decoder@.0) == varint_parse_from(s, 0, 0),
                self.unread() == s.skip(i as int),
                i <= s.len(),
            decreases 5 - i,
        {
            let ghost acc = decoder@.0;
            assert(varint_parse_from(s, i, acc) == (if i >= s.len() {
                Err(PingError::UnexpectedEof)
            } else {
                let acc2 = acc | varint_group(s[i as int], i);
                if s[i as int] & 0x80 == 0 {
                    Ok((acc2, i + 1))
                } else {
                    varint_parse_from(s, i + 1, acc2)
                }
            }));
            match self.next_byte() {
                None => {
                    return Err(PingError::UnexpectedEof);
                },
                Some(b) => {
                    assert(b == s[i as int]);
                    assert(self.unread() =~= s.skip(i + 1int));
                    match decoder.feed(b) {
                        VarintStep::Done(v) => {
                            return Ok(v);
                        },
                        VarintStep::TooLong => {
                            return Err(PingError::VarintTooLong);
                        },
                        VarintStep::NeedMore => {
                            proof {
                                i = i + 1;
                            }
                        },
                    }
                },
            }
        }
    }

    fn read_packet(&mut self) -> (r: Result<Vec<u8>, PingError>) {
        let body = self.read_prefixed()?;
        Ok(slice_to_vec(body))
    }
}

impl MinecraftWriteExt for Vec<u8> {
    open spec fn written(&self) -> Seq<u8> {
        self@
    }

    fn write_string(&mut self, str: &str) {
        let bytes = str.as_bytes();
        let ghost start = self@;
        self.write_varint(bytes.len() as i32);
        assert(self@ == start + varint_of(encode_utf8(str@).len() as i32));
        let ghost mid = self@;
        self.extend_from_slice(bytes);
        assert(self@ =~= mid + bytes@);
    }

    fn write_varint(&mut self, number: i32) {
        let ghost start = self@;
        let mut u: u32 = number as u32;
        while u >= 128
            invariant
                start + varint_of(number) == self@ + varint_bytes(u),
            decreases u,
        {
            let ghost before = self@;
            let byte: u8 = ((u & 0x7f) | 0x80) as u8;
            self.push(byte);
            assert(u >> 7 < u) by (bit_vector)
                requires
                    u >= 128,
            ;
            assert(varint_bytes(u) == seq![byte] + varint_bytes(u >> 7));
            assert(self@ + varint_bytes(u >> 7) =~= before + varint_bytes(u));
            u = u >> 7;
        }
        let ghost before = self@;
        self.push(u as u8);
        assert(self@ =~= before + varint_bytes(u));
    }

    fn write_packet(&mut self, packet: &[u8]) {
        // Buffered in one vector and then appended, as a socket is written once.
        let mut buf: Vec<u8> = Vec::new();
        buf.write_varint(packet.len() as i32);
        let ghost mid = buf@;
        buf.extend_from_slice(packet);
        assert(buf@ =~= mid + packet@);
        let ghost before = self@;
        self.append(&mut buf);
        assert(self@ =~= before + frame_bytes(packet@));
    }
}

} // verus!
