//! Forge's packed `forgeData.d` field: bytes carried fifteen bits at a time in
//! UTF-16 code units, after a header of two units that gives the byte count.

use crate::error::PingError;
use vstd::arithmetic::div_mod::{
    lemma_div_denominator, lemma_fundamental_div_mod, lemma_fundamental_div_mod_converse_div,
    lemma_fundamental_div_mod_converse_mod, lemma_small_mod,
};
use vstd::arithmetic::power2::{
    lemma2_to64, lemma_pow2_adds, lemma_pow2_pos, lemma_pow2_strictly_increases, pow2,
};
use vstd::bits::lemma_u32_shl_is_mul;
use vstd::prelude::*;

verus! {

/// The fifteen payload bits of unit `j` after the two header units.
pub open spec fn forge_payload(units: Seq<u16>, j: nat) -> nat {
    (units[j + 2int] & 0x7fff) as nat
}

/// The bit stream of the first `m` payload units, as a number: unit `j`'s
/// fifteen bits stand at bit `15 * j`.
pub open spec fn forge_stream(units: Seq<u16>, m: nat) -> nat
    decreases m,
{
    if m == 0 {
        0
    } else {
        forge_stream(units, (m - 1) as nat) + forge_payload(units, (m - 1) as nat) * pow2(
            15 * (m - 1) as nat,
        )
    }
}

/// Byte `e` of a bit stream, least significant byte first.
pub open spec fn stream_byte(v: nat, e: nat) -> u8 {
    ((v / pow2(8 * e)) % 256) as u8
}

/// The byte count announced by the two header units: the first unit or-ed
/// with the second shifted left by fifteen bits.
pub open spec fn forge_declared_size(units: Seq<u16>) -> nat {
    ((units[0] as u32) | ((units[1] as u32) << 15u32)) as nat
}

/// How many bytes are given out while the `m` payload units are taken in:
/// before each unit, every complete byte of the units before it.
pub open spec fn forge_emitted(m: nat) -> nat {
    if m == 0 {
        0
    } else {
        ((15 * (m - 1)) / 8) as nat
    }
}

/// The unpacked bytes: the bytes of the payload's bit stream, as many as the
/// header announces, or as many as were complete before the last unit if
/// that is more; past the stream's end they are zero.
pub open spec fn forge_d_bytes(units: Seq<u16>) -> Seq<u8> {
    let k = (units.len() - 2) as nat;
    let v = forge_stream(units, k);
    let emitted = forge_emitted(k);
    let declared = forge_declared_size(units);
    let n = if declared >= emitted {
        declared
    } else {
        emitted
    };
    Seq::new(n, |e: int| stream_byte(v, e as nat))
}

/// The number written by `b`, least significant byte first.
pub open spec fn bytes_value(b: Seq<u8>) -> nat
    decreases b.len(),
{
    if b.len() == 0 {
        0
    } else {
        b[0] as nat + 256 * bytes_value(b.drop_first())
    }
}

/// How many payload units Forge packs `n` bytes into: fifteen bits each,
/// rounded up.
pub open spec fn forge_unit_count(n: nat) -> nat {
    (8 * n + 14) / 15
}

/// Forge's packing of `b`: the byte count in two fifteen-bit header units,
/// low bits first, then the bits of `b`, least significant first, fifteen to
/// a unit.
pub open spec fn forge_pack(b: Seq<u8>) -> Seq<u16> {
    let n = b.len();
    let v = bytes_value(b);
    seq![(n % 0x8000) as u16, ((n / 0x8000) % 0x8000) as u16] + Seq::new(
        forge_unit_count(n),
        |k: int| ((v / pow2((15 * k) as nat)) % 0x8000) as u16,
    )
}

proof fn lemma_bytes_value_bound(b: Seq<u8>)
    ensures
        bytes_value(b) < pow2(8 * b.len()),
    decreases b.len(),
{
    lemma2_to64();
    if b.len() > 0 {
        let rest = b.drop_first();
        lemma_bytes_value_bound(rest);
        lemma_pow2_adds(8, 8 * rest.len());
        assert(8 * b.len() == 8 + 8 * rest.len());
        let p = pow2(8 * rest.len());
        let v = bytes_value(rest);
        let b0 = b[0] as nat;
        assert(b0 + 256 * v < 256 * p) by (nonlinear_arith)
            requires
                v < p,
                b0 < 256,
        ;
    }
}

proof fn lemma_stream_byte_of_value(b: Seq<u8>, e: nat)
    requires
        e < b.len(),
    ensures
        stream_byte(bytes_value(b), e) == b[e as int],
    decreases e,
{
    lemma2_to64();
    let v = bytes_value(b);
    let rest = b.drop_first();
    let w = bytes_value(rest);
    assert(v == w * 256 + b[0] as nat);
    lemma_fundamental_div_mod_converse_div(v as int, 256, w as int, b[0] as int);
    lemma_fundamental_div_mod_converse_mod(v as int, 256, w as int, b[0] as int);
    if e == 0 {
        assert(v / pow2(0) == v);
    } else {
        let e1 = (e - 1) as nat;
        lemma_stream_byte_of_value(rest, e1);
        lemma_pow2_pos(8 * e1);
        lemma_pow2_adds(8, 8 * e1);
        assert(8 * e == 8 + 8 * e1);
        lemma_div_denominator(v as int, 256, pow2(8 * e1) as int);
        assert(v / pow2(8 * e) == w / pow2(8 * e1));
    }
}

proof fn lemma_mod_split(v: nat, a: nat, c: nat)
    requires
        a > 0,
        c > 0,
    ensures
        v % (a * c) == v % a + ((v / a) % c) * a,
{
    let q = v / a;
    let r = v % a;
    let q2 = q / c;
    let r2 = q % c;
    lemma_fundamental_div_mod(v as int, a as int);
    lemma_fundamental_div_mod(q as int, c as int);
    assert(v == q2 * (a * c) + (r2 * a + r) && 0 <= r2 * a + r < a * c) by (nonlinear_arith)
        requires
            v == a * q + r,
            q == c * q2 + r2,
            0 <= r < a,
            0 <= r2 < c,
    ;
    lemma_fundamental_div_mod_converse_mod(v as int, (a * c) as int, q2 as int, (r2 * a + r) as int);
}

proof fn lemma_stream_of_pack(b: Seq<u8>, m: nat)
    requires
        m <= forge_unit_count(b.len()),
    ensures
        forge_stream(forge_pack(b), m) == bytes_value(b) % pow2(15 * m),
    decreases m,
{
    lemma2_to64();
    let v = bytes_value(b);
    let units = forge_pack(b);
    if m == 0 {
        assert(v % 1 == 0);
    } else {
        let m1 = (m - 1) as nat;
        lemma_stream_of_pack(b, m1);
        let a = pow2(15 * m1);
        lemma_pow2_pos(15 * m1);
        let x = ((v / a) % 0x8000) as u16;
        assert(units[m1 + 2int] == x);
        assert(x & 0x7fff == x) by (bit_vector)
            requires
                x < 0x8000,
        ;
        assert(forge_payload(units, m1) == (v / a) % 0x8000);
        lemma_pow2_adds(15 * m1, 15);
        assert(15 * m == 15 * m1 + 15);
        lemma_mod_split(v, a, 0x8000);
    }
}

/// Unpacking what Forge packed gives the bytes back, for every byte string
/// shorter than 2^30 bytes (the header's thirty bits hold its length).
pub proof fn lemma_forge_roundtrip(b: Seq<u8>)
    requires
        b.len() < 0x4000_0000,
    ensures
        forge_d_bytes(forge_pack(b)) == b,
{
    lemma2_to64();
    let n = b.len();
    let units = forge_pack(b);
    let k = forge_unit_count(n);
    assert(units.len() == k + 2);
    let x = units[0];
    let y = units[1];
    assert(n / 0x8000 < 0x8000);
    assert(x as nat == n % 0x8000);
    assert(y as nat == n / 0x8000);
    assert(((x as u32) | ((y as u32) << 15u32)) == (x as u32) + (y as u32) * 0x8000) by (bit_vector)
        requires
            x < 0x8000,
            y < 0x8000,
    ;
    assert(forge_declared_size(units) == n);
    let v = bytes_value(b);
    lemma_stream_of_pack(b, k);
    lemma_bytes_value_bound(b);
    assert(15 * k >= 8 * n) by (nonlinear_arith)
        requires
            k == (8 * n + 14) / 15,
    ;
    if 8 * n < 15 * k {
        lemma_pow2_strictly_increases(8 * n, 15 * k);
    }
    lemma_pow2_pos(15 * k);
    lemma_small_mod(v, pow2(15 * k));
    assert(forge_stream(units, k) == v);
    if k > 0 {
        assert((15 * (k - 1)) / 8 < n) by (nonlinear_arith)
            requires
                k == (8 * n + 14) / 15,
                k > 0,
        ;
    }
    assert(forge_emitted(k) <= n);
    let out = forge_d_bytes(units);
    assert forall|e: int| 0 <= e < n implies out[e] == b[e] by {
        lemma_stream_byte_of_value(b, e as nat);
    }
    assert(out =~= b);
}

proof fn lemma_div_add_multiple(s: nat, p: nat, a: nat, b: nat)
    requires
        a <= b,
    ensures
        (s + p * pow2(b)) / pow2(a) == s / pow2(a) + p * pow2((b - a) as nat),
{
    let d = pow2(a) as int;
    let t = pow2((b - a) as nat) as int;
    let si = s as int;
    let q = p * t;
    lemma_pow2_pos(a);
    lemma_pow2_adds(a, (b - a) as nat);
    assert(pow2(b) == d * t);
    lemma_fundamental_div_mod(si, d);
    let x = si + p * pow2(b);
    assert(x == (si / d + q) * d + si % d) by (nonlinear_arith)
        requires
            pow2(b) == d * t,
            q == p * t,
            si == d * (si / d) + si % d,
            x == si + p * pow2(b),
    ;
    lemma_fundamental_div_mod_converse_div(x, d, si / d + q, si % d);
}

proof fn lemma_byte_stable(s: nat, p: nat, i: nat, b: nat)
    requires
        8 * i + 8 <= b,
    ensures
        stream_byte(s + p * pow2(b), i) == stream_byte(s, i),
{
    let a = 8 * i;
    lemma_div_add_multiple(s, p, a, b);
    let c = (b - a) as nat;
    assert((s + p * pow2(b)) / pow2(a) == s / pow2(a) + p * pow2(c));
    lemma_pow2_adds(8, (c - 8) as nat);
    lemma2_to64();
    let t = pow2((c - 8) as nat);
    let x = s / pow2(a);
    assert(p * pow2(c) == 256 * (p * t)) by (nonlinear_arith)
        requires
            pow2(c) == 256 * t,
    ;
    let big = (s + p * pow2(b)) / pow2(a);
    assert(big == x + 256 * (p * t));
    let q = p * t;
    assert(big == x + 256 * q);
    assert(big % 256 == x % 256) by (nonlinear_arith)
        requires
            big == x + 256 * q,
    ;
}

proof fn lemma_next_byte(s: nat, e: nat)
    ensures
        (s / pow2(8 * e)) / 256 == s / pow2(8 * (e + 1)),
{
    lemma_pow2_pos(8 * e);
    lemma2_to64();
    lemma_pow2_adds(8 * e, 8);
    assert(8 * (e + 1) == 8 * e + 8);
    lemma_div_denominator(s as int, pow2(8 * e) as int, 256);
}

/// `Vec::try_reserve`: reserves room for `additional` more bytes. Whether
/// the allocator grants a real reservation is not stated (it depends on the
/// machine); reserving nothing succeeds, as the documentation says it "does
/// nothing if capacity is already sufficient"; the vector's contents are
/// unchanged either way ("preserves the contents even if an error occurs").
#[verifier::external_body]
fn try_reserve_bytes(v: &mut Vec<u8>, additional: usize) -> (ok: bool)
    ensures
        final(v)@ == old(v)@,
        additional == 0 ==> ok,
{
    v.try_reserve(additional).is_ok()
}

/// The byte count that the two header units announce: the size of the
/// buffer that unpacking reserves.
pub fn forge_declared_len(units: &[u16]) -> (r: usize)
    requires
        units@.len() >= 2,
    ensures
        r == forge_declared_size(units@),
{
    ((units[0] as u32) | ((units[1] as u32) << 15u32)) as usize
}

/// Unpacks Forge's `d` field, given as UTF-16 code units: fewer than two
/// units is an error; otherwise the unpacked bytes, unless the buffer for
/// the announced size could not be reserved (which cannot happen where the
/// announced size is zero).
pub fn decode_forge_d(units: &[u16]) -> (r: Result<Vec<u8>, PingError>)
    ensures
        units@.len() < 2 ==> r == Err::<Vec<u8>, PingError>(PingError::ForgeDataTooShort),
        units@.len() >= 2 ==> match r {
            Ok(out) => out@ == forge_d_bytes(units@),
            Err(e) => e == PingError::OutOfMemory,
        },
        units@.len() >= 2 && forge_declared_size(units@) == 0 ==> r is Ok,
{
    if units.len() < 2 {
        return Err(PingError::ForgeDataTooShort);
    }
    let size = forge_declared_len(units);
    let mut out: Vec<u8> = Vec::new();
    let reserved = try_reserve_bytes(&mut out, size);
    unpack_forge_d(units, out, reserved)
}

/// What follows the reservation in `decode_forge_d`: an error where it was
/// refused, else the unpacked bytes, written into the empty `out`.
pub fn unpack_forge_d(units: &[u16], out: Vec<u8>, reserved: bool) -> (r: Result<Vec<u8>, PingError>)
    requires
        units@.len() >= 2,
        out@.len() == 0,
    ensures
        !reserved ==> r == Err::<Vec<u8>, PingError>(PingError::OutOfMemory),
        reserved ==> r is Ok && r->Ok_0@ == forge_d_bytes(units@),
{
    if !reserved {
        return Err(PingError::OutOfMemory);
    }
    let size = ((units[0] as u32) | ((units[1] as u32) << 15u32)) as usize;
    let mut out = out;
    let mut buffer: u32 = 0;
    let mut bits: u32 = 0;
    let mut j: usize = 2;
    proof {
        lemma2_to64();
        assert(buffer < (1u32 << bits)) by (bit_vector)
            requires
                buffer == 0,
                bits == 0,
        ;
        assert(out@ =~= Seq::new(0, |e: int| stream_byte(0, e as nat)));
    }
    while j < units.len()
        invariant
            2 <= j <= units@.len(),
            bits + 8 * out@.len() == 15 * (j - 2),
            out@.len() == forge_emitted((j - 2) as nat),
            bits <= 22,
            buffer < (1u32 << bits),
            buffer as nat == forge_stream(units@, (j - 2) as nat) / pow2(8 * out@.len()),
            out@ == Seq::new(
                out@.len(),
                |e: int| stream_byte(forge_stream(units@, (j - 2) as nat), e as nat),
            ),
        decreases units@.len() - j,
    {
        let ghost m = (j - 2) as nat;
        let ghost sm = forge_stream(units@, m);
        while bits >= 8
            invariant
                bits + 8 * out@.len() == 15 * m,
                bits <= 22,
                buffer < (1u32 << bits),
                buffer as nat == sm / pow2(8 * out@.len()),
                out@ == Seq::new(out@.len(), |e: int| stream_byte(sm, e as nat)),
            decreases bits,
        {
            let ghost e = out@.len();
            let byte = (buffer & 0xff) as u8;
            let next = buffer >> 8;
            proof {
                assert(byte == buffer % 256 && next == buffer / 256 && next < (1u32 << ((bits
                    - 8) as u32))) by (bit_vector)
                    requires
                        byte == (buffer & 0xff) as u8,
                        next == buffer >> 8,
                        buffer < (1u32 << bits),
                        8 <= bits <= 22,
                ;
                lemma_next_byte(sm, e);
            }
            out.push(byte);
            buffer = next;
            bits = bits - 8;
            assert(out@ =~= Seq::new(out@.len(), |e: int| stream_byte(sm, e as nat)));
        }
        let ghost e = out@.len();
        let p: u32 = (units[j] as u32) & 0x7fff;
        let shifted = p << bits;
        let combined = buffer | shifted;
        proof {
            let u = units@[j as int];
            assert(p == (u & 0x7fff) as u32 && p < 0x8000) by (bit_vector)
                requires
                    p == (u as u32) & 0x7fff,
            ;
            assert(forge_payload(units@, m) == p);
            assert(combined == buffer + shifted && combined < (1u32 << ((bits + 15) as u32)))
                by (bit_vector)
                requires
                    buffer < (1u32 << bits),
                    bits < 8,
                    p < 0x8000,
                    shifted == p << bits,
                    combined == buffer | shifted,
            ;
            assert(pow2(bits as nat) <= 128) by {
                lemma2_to64();
                if bits < 8 {
                    assert(bits == 0 || bits == 1 || bits == 2 || bits == 3 || bits == 4 || bits
                        == 5 || bits == 6 || bits == 7);
                }
            }
            assert(p * pow2(bits as nat) <= u32::MAX) by (nonlinear_arith)
                requires
                    p < 0x8000,
                    pow2(bits as nat) <= 128,
            ;
            lemma_u32_shl_is_mul(p, bits);
            assert(e == (15 * m) / 8);
            lemma_div_add_multiple(sm, p as nat, 8 * e, 15 * m);
            assert((15 * m - 8 * e) as nat == bits as nat);
            let sm1 = forge_stream(units@, m + 1);
            assert(sm1 == sm + p * pow2(15 * m));
            assert forall|i: int| 0 <= i < e implies #[trigger] stream_byte(sm1, i as nat) == stream_byte(
                sm,
                i as nat,
            ) by {
                lemma_byte_stable(sm, p as nat, i as nat, 15 * m);
            }
        }
        buffer = combined;
        bits = bits + 15;
        j = j + 1;
        assert(out@ =~= Seq::new(
            out@.len(),
            |e: int| stream_byte(forge_stream(units@, (j - 2) as nat), e as nat),
        ));
    }
    let ghost k = (units@.len() - 2) as nat;
    let ghost v = forge_stream(units@, k);
    assert(size == forge_declared_size(units@));
    while out.len() < size
        invariant
            buffer as nat == v / pow2(8 * out@.len()),
            out@ == Seq::new(out@.len(), |e: int| stream_byte(v, e as nat)),
            out@.len() >= forge_emitted(k),
            out@.len() > forge_emitted(k) ==> out@.len() <= size,
            size == forge_declared_size(units@),
        decreases size - out@.len(),
    {
        let ghost e = out@.len();
        let byte = (buffer & 0xff) as u8;
        let next = buffer >> 8;
        proof {
            assert(byte == buffer % 256 && next == buffer / 256) by (bit_vector)
                requires
                    byte == (buffer & 0xff) as u8,
                    next == buffer >> 8,
            ;
            lemma_next_byte(v, e);
        }
        out.push(byte);
        buffer = next;
        assert(out@ =~= Seq::new(out@.len(), |e: int| stream_byte(v, e as nat)));
    }
    assert(out@ =~= forge_d_bytes(units@));
    Ok(out)
}

} // verus!
