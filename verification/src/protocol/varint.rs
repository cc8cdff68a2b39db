//! Minecraft's VarInt: the 32 bits of an `i32`, seven at a time, least
//! significant group first, every byte but the last with its high bit set.

use crate::error::PingError;
use vstd::prelude::*;

verus! {

/// The encoding of the 32 bits `u`.
pub open spec fn varint_bytes(u: u32) -> Seq<u8>
    decreases u,
{
    if u < 128 {
        seq![u as u8]
    } else {
        proof {
            assert(u >= 128 ==> u >> 7 < u) by (bit_vector);
        }
        seq![((u & 0x7f) | 0x80) as u8] + varint_bytes(u >> 7)
    }
}

/// The number of bytes that `varint_bytes(u)` takes.
pub open spec fn varint_len(u: u32) -> nat {
    if u < 0x80 {
        1
    } else if u < 0x4000 {
        2
    } else if u < 0x20_0000 {
        3
    } else if u < 0x1000_0000 {
        4
    } else {
        5
    }
}

/// The bits that the group read at position `i` adds to the accumulator.
pub open spec fn varint_group(b: u8, i: nat) -> u32 {
    ((b & 0x7f) as u32) << ((7 * i) as u32)
}

/// Reading a VarInt from `s`, positions `i` onwards, with the groups of the
/// first `i` bytes already or-ed into `acc`: the value's bits and the number
/// of bytes consumed from the start, or why it failed.
pub open spec fn varint_parse_from(s: Seq<u8>, i: nat, acc: u32) -> Result<(u32, nat), PingError>
    decreases 5 - i,
{
    if i >= 5 {
        Err(PingError::VarintTooLong)
    } else if i >= s.len() {
        Err(PingError::UnexpectedEof)
    } else {
        let b = s[i as int];
        let acc2 = acc | varint_group(b, i);
        if b & 0x80 == 0 {
            Ok((acc2, i + 1))
        } else {
            varint_parse_from(s, i + 1, acc2)
        }
    }
}

/// Reading a VarInt at the start of `s`: the value and the number of bytes it
/// took, or why it failed.
pub open spec fn parse_varint(s: Seq<u8>) -> Result<(i32, nat), PingError> {
    match varint_parse_from(s, 0, 0) {
        Ok((u, n)) => Ok((u as i32, n)),
        Err(e) => Err(e),
    }
}

/// The encoding of the `i32` `number`.
pub open spec fn varint_of(number: i32) -> Seq<u8> {
    varint_bytes(number as u32)
}

/// A successful read consumes between one and five bytes, all of them in `s`;
/// a failed one is either too long or cut short.
pub proof fn lemma_varint_parse_consumes(s: Seq<u8>, i: nat, acc: u32)
    ensures
        varint_parse_from(s, i, acc) matches Ok((u, n)) ==> i < n <= s.len() && n <= 5,
        varint_parse_from(s, i, acc) matches Err(e) ==> e is VarintTooLong || e is UnexpectedEof,
    decreases 5 - i,
{
    if i < 5 && i < s.len() {
        let acc2 = acc | varint_group(s[i as int], i);
        lemma_varint_parse_consumes(s, i + 1, acc2);
    }
}

/// The same for `parse_varint`.
pub proof fn lemma_parse_varint_consumes(s: Seq<u8>)
    ensures
        parse_varint(s) matches Ok((v, n)) ==> 1 <= n <= s.len() && n <= 5,
{
    lemma_varint_parse_consumes(s, 0, 0);
}

/// The bytes `b` are a VarInt in its shortest form: no trailing zero group
/// (unless the value is zero, in one byte), and a fifth byte that carries
/// only the four bits that are left.
pub open spec fn varint_minimal(b: Seq<u8>) -> bool {
    &&& b.len() >= 1
    &&& (b.len() == 1 || b.last() != 0)
    &&& (b.len() == 5 ==> b[4] < 16)
}

proof fn lemma_reencode_from(s: Seq<u8>, i: nat, acc: u32)
    requires
        i <= 4,
        acc & low_mask((7 * i) as u32) == acc,
        varint_parse_from(s, i, acc) is Ok,
        ({
            let n = varint_parse_from(s, i, acc)->Ok_0.1;
            &&& n == 1 || s[n - 1] != 0
            &&& n == 5 ==> s[4] < 16
        }),
    ensures
        ({
            let (u, n) = varint_parse_from(s, i, acc)->Ok_0;
            &&& varint_bytes(u >> ((7 * i) as u32)) == s.subrange(i as int, n as int)
            &&& u & low_mask((7 * i) as u32) == acc
        }),
    decreases 4 - i,
{
    let sh = (7 * i) as u32;
    let (u, n) = varint_parse_from(s, i, acc)->Ok_0;
    lemma_varint_parse_consumes(s, i, acc);
    let b = s[i as int];
    let acc2 = acc | varint_group(b, i);
    assert(sh <= 21 || sh == 28);
    if b & 0x80 == 0 {
        assert(n == i + 1 && u == acc2);
        assert(i == 4 ==> b < 16);
        assert(u >> sh == b as u32 && u & (((1u32 << sh) - 1) as u32) == acc) by (bit_vector)
            requires
                u == acc | (((b & 0x7f) as u32) << sh),
                b & 0x80 == 0,
                acc & (((1u32 << sh) - 1) as u32) == acc,
                sh <= 21 || sh == 28,
                sh == 28 ==> b < 16,
        ;
        assert((b as u32) < 128 && ((b as u32) as u8) == b) by (bit_vector)
            requires
                b & 0x80 == 0,
        ;
        assert(varint_bytes(b as u32) == seq![b]);
        assert(s.subrange(i as int, n as int) =~= seq![b]);
    } else {
        assert(i < 4);
        let sh2 = (7 * (i + 1)) as u32;
        assert(sh2 == sh + 7);
        assert(acc2 & (((1u32 << sh2) - 1) as u32) == acc2) by (bit_vector)
            requires
                acc2 == acc | (((b & 0x7f) as u32) << sh),
                acc & (((1u32 << sh) - 1) as u32) == acc,
                sh <= 21,
                sh2 == sh + 7,
        ;
        assert(varint_parse_from(s, i, acc) == varint_parse_from(s, i + 1, acc2));
        lemma_reencode_from(s, i + 1, acc2);
        let rest = u >> sh2;
        assert(varint_bytes(rest) == s.subrange(i + 1int, n as int));
        assert(rest != 0) by {
            if rest == 0 {
                assert(varint_bytes(0) == seq![0u8]);
                assert(s.subrange(i + 1int, n as int).len() == 1);
                assert(s[n - 1] == s.subrange(i + 1int, n as int)[0]);
            }
        }
        let x = u >> sh;
        assert(x >= 128 && (x & 0x7f) | 0x80 == b as u32 && x >> 7 == rest && u & (((1u32 << sh)
            - 1) as u32) == acc) by (bit_vector)
            requires
                u & (((1u32 << sh2) - 1) as u32) == acc | (((b & 0x7f) as u32) << sh),
                acc & (((1u32 << sh) - 1) as u32) == acc,
                b & 0x80 != 0,
                sh <= 21,
                sh2 == sh + 7,
                x == u >> sh,
                rest == u >> sh2,
                rest != 0,
        ;
        assert(((x & 0x7f) | 0x80) as u8 == b);
        assert(varint_bytes(x) == seq![b] + varint_bytes(rest));
        assert(s.subrange(i as int, n as int) =~= seq![b] + s.subrange(i + 1int, n as int));
    }
}

/// Writing back what was read gives the bytes that were read, where they
/// were a VarInt in its shortest form. (The reader also takes longer forms,
/// such as `[0x80, 0x00]` for zero, which are written back shorter.)
pub proof fn lemma_varint_reencode(s: Seq<u8>)
    requires
        parse_varint(s) is Ok,
        varint_minimal(s.take(parse_varint(s)->Ok_0.1 as int)),
    ensures
        varint_of(parse_varint(s)->Ok_0.0) == s.take(parse_varint(s)->Ok_0.1 as int),
{
    let (u, n) = varint_parse_from(s, 0, 0)->Ok_0;
    lemma_varint_parse_consumes(s, 0, 0);
    let t = s.take(n as int);
    assert(t.last() == s[n - 1]);
    assert(n == 5 ==> t[4] == s[4]);
    assert(0u32 & (((1u32 << 0u32) - 1) as u32) == 0) by (bit_vector);
    lemma_reencode_from(s, 0, 0);
    assert(u >> 0u32 == u) by (bit_vector);
    assert((u as i32) as u32 == u) by (bit_vector);
    assert(s.subrange(0, n as int) =~= t);
}

/// The low `s` bits of a `u32` set.
pub open spec fn low_mask(s: u32) -> u32 {
    ((1u32 << s) - 1) as u32
}

proof fn lemma_parse_encoded_tail(whole: u32, i: nat, pre: Seq<u8>, rest: Seq<u8>)
    requires
        i <= 4,
        pre.len() == i,
    ensures
        ({
            let s = (7 * i) as u32;
            let tail = varint_bytes(whole >> s);
            varint_parse_from(pre + tail + rest, i, whole & low_mask(s)) == Ok::<(u32, nat), PingError>((whole, i + tail.len()))
        }),
    decreases 4 - i,
{
    let s = (7 * i) as u32;
    let u = whole >> s;
    let tail = varint_bytes(u);
    let buf = pre + tail + rest;
    let acc = whole & low_mask(s);
    assert(s <= 28);
    if u < 128 {
        assert(tail == seq![u as u8]);
        assert(buf[i as int] == u as u8);
        let b = u as u8;
        assert(b & 0x80 == 0 && (acc | (((b & 0x7f) as u32) << s)) == whole) by (bit_vector)
            requires
                u == whole >> s,
                u < 128,
                b == u as u8,
                s <= 28,
                acc == whole & (((1u32 << s) - 1) as u32),
        ;
    } else {
        let b = ((u & 0x7f) | 0x80) as u8;
        let s2 = (7 * (i + 1)) as u32;
        assert(i < 4 && s2 == s + 7) by {
            assert(whole >> 28u32 < 128) by (bit_vector);
            if i == 4 {
                assert(s == 28);
            }
        }
        assert(tail == seq![b] + varint_bytes(u >> 7));
        assert(buf[i as int] == b);
        assert(b & 0x80 != 0 && (acc | (((b & 0x7f) as u32) << s)) == whole & (((1u32 << s2) - 1) as u32)
            && u >> 7 == whole >> s2) by (bit_vector)
            requires
                u == whole >> s,
                u >= 128,
                b == ((u & 0x7f) | 0x80) as u8,
                s <= 21,
                s2 == s + 7,
                acc == whole & (((1u32 << s) - 1) as u32),
        ;
        let pre2 = pre.push(b);
        lemma_parse_encoded_tail(whole, i + 1, pre2, rest);
        assert(pre2 + varint_bytes(u >> 7) + rest =~= buf);
    }
}

/// Reading back what was written: the encoding of `u`, followed by any bytes
/// at all, reads as `u` and consumes exactly the encoding.
pub proof fn lemma_varint_roundtrip(u: u32, rest: Seq<u8>)
    ensures
        varint_parse_from(varint_bytes(u) + rest, 0, 0) == Ok::<(u32, nat), PingError>((u, varint_bytes(u).len())),
{
    lemma_parse_encoded_tail(u, 0, seq![], rest);
    assert(u >> 0u32 == u && u & (((1u32 << 0u32) - 1) as u32) == 0) by (bit_vector);
    assert(seq![] + varint_bytes(u) + rest =~= varint_bytes(u) + rest);
}

/// The same law over `i32`: `parse_varint(varint_of(n) + rest)` gives `n`
/// back and consumes exactly the encoding.
pub proof fn lemma_varint_i32_roundtrip(n: i32, rest: Seq<u8>)
    ensures
        parse_varint(varint_of(n) + rest) == Ok::<(i32, nat), PingError>((n, varint_of(n).len())),
{
    lemma_varint_roundtrip(n as u32, rest);
    assert((n as u32) as i32 == n) by (bit_vector);
}

/// The encoding of `u` is `varint_len(u)` bytes long, between one and five.
pub proof fn lemma_varint_len(u: u32)
    ensures
        varint_bytes(u).len() == varint_len(u),
        1 <= varint_len(u) <= 5,
    decreases u,
{
    if u >= 128 {
        assert(u >> 7 < u) by (bit_vector)
            requires
                u >= 128,
        ;
        lemma_varint_len(u >> 7);
        assert(varint_len(u) == 1 + varint_len(u >> 7)) by {
            assert(u < 0x4000 ==> u >> 7 < 0x80) by (bit_vector);
            assert(u >= 0x4000 ==> u >> 7 >= 0x80) by (bit_vector);
            assert(u < 0x20_0000 ==> u >> 7 < 0x4000) by (bit_vector);
            assert(u >= 0x20_0000 ==> u >> 7 >= 0x4000) by (bit_vector);
            assert(u < 0x1000_0000 ==> u >> 7 < 0x20_0000) by (bit_vector);
            assert(u >= 0x1000_0000 ==> u >> 7 >= 0x20_0000) by (bit_vector);
            assert(u >> 7 < 0x1000_0000) by (bit_vector);
        }
    }
}

/// The number of bytes of the VarInt encoding of `value` taken as 32 bits
/// (its low 32 bits, as the protocol carries lengths as `i32`).
pub fn seek_varint_length(value: usize) -> (r: usize)
    ensures
        r == varint_bytes(value as u32).len(),
        1 <= r <= 5,
{
    let temp = value as u32;
    proof {
        lemma_varint_len(temp);
    }
    if (temp & 0xFFFF_FF80) == 0 {
        assert(temp & 0xFFFF_FF80 == 0 ==> temp < 0x80) by (bit_vector);
        1
    } else if (temp >> 14) == 0 {
        assert(temp & 0xFFFF_FF80 != 0 && temp >> 14 == 0 ==> 0x80 <= temp < 0x4000) by (bit_vector);
        2
    } else if (temp >> 21) == 0 {
        assert(temp >> 14 != 0 && temp >> 21 == 0 ==> 0x4000 <= temp < 0x20_0000) by (bit_vector);
        3
    } else if (temp >> 28) == 0 {
        assert(temp >> 21 != 0 && temp >> 28 == 0 ==> 0x20_0000 <= temp < 0x1000_0000) by (bit_vector);
        4
    } else {
        assert(temp >> 28 != 0 ==> 0x1000_0000 <= temp) by (bit_vector);
        5
    }
}

/// What one byte does to a VarInt being read.
#[derive(Clone, Copy, Debug, PartialEq, Eq)]
pub enum VarintStep {
    /// The byte had its continuation bit set: more bytes are needed.
    NeedMore,
    /// The byte ended the VarInt, whose value this is.
    Done(i32),
    /// The fifth byte still had its continuation bit set.
    TooLong,
}

/// A VarInt being read one byte at a time, for input that arrives a byte at a
/// time (a socket): the groups read so far and how many bytes they took.
pub struct VarintDecoder {
    acc: u32,
    count: u32,
}

impl View for VarintDecoder {
    type V = (u32, nat);

    closed spec fn view(&self) -> (u32, nat) {
        (self.acc, self.count as nat)
    }
}

impl VarintDecoder {
    #[verifier::type_invariant]
    spec fn inv(self) -> bool {
        self.count < 5
    }

    /// No byte read yet.
    pub fn new() -> (d: VarintDecoder)
        ensures
            d@ == (0u32, 0nat),
    {
        VarintDecoder { acc: 0, count: 0 }
    }

    /// Takes in the next byte: the step is what `varint_parse_from` does at
    /// position `count` with accumulator `acc`.
    pub fn feed(&mut self, byte: u8) -> (step: VarintStep)
        ensures
            ({
                let (acc, i) = old(self)@;
                let acc2 = acc | varint_group(byte, i);
                &&& byte & 0x80 == 0 ==> step == VarintStep::Done(acc2 as i32)
                &&& byte & 0x80 != 0 && i + 1 >= 5 ==> step == VarintStep::TooLong
                &&& byte & 0x80 != 0 && i + 1 < 5 ==> step == VarintStep::NeedMore && final(self)@ == (acc2, i + 1)
            }),
    {
        proof {
            use_type_invariant(&*self);
        }
        let shift: u32 = 7 * self.count;
        let acc2 = self.acc | (((byte & 0x7f) as u32) << shift);
        if byte & 0x80 == 0 {
            VarintStep::Done(acc2 as i32)
        } else if self.count + 1 >= 5 {
            VarintStep::TooLong
        } else {
            self.acc = acc2;
            self.count = self.count + 1;
            VarintStep::NeedMore
        }
    }
}

} // verus!
