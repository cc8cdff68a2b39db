//! What a status ping computes: the byte counts it reports, the check of the
//! pong, and what is read from the server's JSON status (players online, and
//! the number of mods that a Forge or FML server lists).

use crate::error::PingError;
use crate::protocol::forge::{decode_forge_d, forge_d_bytes, forge_declared_size, forge_emitted};
use crate::protocol::io::{frame_bytes, parse_u16_be};
use crate::protocol::json::{
    json_accepts, json_array_len_at, json_as_array, json_as_i64, json_as_str, json_error_is_eof,
    json_error_message, json_error_text, json_from_str, json_get, json_has, json_i64_at,
    json_str_at, json_truncated,
};
use crate::protocol::packet::{
    lemma_pong_roundtrip, state_number, HandshakePacket, HandshakeState, HandshakeView, Packet, PingPacket,
    PingRquestPacket, PongPacket,
};
use crate::protocol::varint::{lemma_varint_len, seek_varint_length, varint_bytes, varint_of};
use vstd::utf8::encode_utf8;
use core::time::Duration;
use vstd::prelude::*;
use vstd::string::StrSliceExecFns;

verus! {

/// The bytes of a framed pong: one length byte, the id, eight code bytes.
pub const PONG_PACKET_SIZE: usize = 10;

/// The outcome of one successful ping.
pub struct PingReport {
    /// Bytes received: the framed status response and the framed pong.
    pub received_bytes: usize,
    /// Players online, as the server reports it (possibly negative).
    pub onlines: Option<i64>,
    /// The number of mods a modded server lists.
    pub mods: Option<usize>,
    /// The time from sending the ping to receiving the pong.
    pub elapsed: Duration,
    /// The server's status text.
    pub json: String,
}

/// The number of bytes a status ping sends for a host whose UTF-8 length is
/// `host_len`: the framed handshake (its id, the protocol version -1, which
/// takes five VarInt bytes, the host as a string, the port and the next
/// state), the framed one-byte status request, and the framed ping.
pub open spec fn sent_bytes(host_len: nat) -> nat {
    let handshake_len = 1 + 5 + varint_bytes(host_len as u32).len() + host_len + 2 + 1;
    varint_bytes(handshake_len as u32).len() + handshake_len + 2 + PONG_PACKET_SIZE as nat
}

/// The number of bytes a status ping to `host` sends, computed in advance.
pub fn seek_send_bytes(host: &str) -> (r: usize)
    requires
        host.len() <= usize::MAX - 32,
    ensures
        r == sent_bytes(host.len() as nat),
{
    let len = host.len();
    let handshake_packet_len = 1 + 5 + seek_varint_length(len) + len + 2 + 1;
    seek_varint_length(handshake_packet_len) + handshake_packet_len + 2 + PONG_PACKET_SIZE
}

/// The bytes received in a ping whose status response packet was
/// `first_packet_len` bytes long: that packet framed, then the framed pong.
pub fn received_bytes(first_packet_len: usize) -> (r: usize)
    requires
        first_packet_len <= usize::MAX - 16,
    ensures
        r == varint_bytes(first_packet_len as u32).len() + first_packet_len + PONG_PACKET_SIZE,
{
    seek_varint_length(first_packet_len) + first_packet_len + PONG_PACKET_SIZE
}

/// `sent_bytes` is exactly what a status ping writes: the framed handshake
/// for `host` with protocol version -1, the framed status request and the
/// framed ping, whatever the port, the next state and the ping's code.
pub proof fn lemma_sent_bytes_exact(host: Seq<char>, port: u16, state: HandshakeState, code: u64)
    requires
        encode_utf8(host).len() <= i32::MAX - 32,
    ensures
        sent_bytes(encode_utf8(host).len()) == frame_bytes(
            HandshakePacket::spec_encode(
                HandshakeView {
                    protocol_version: -1i32,
                    server_address: host,
                    server_port: port,
                    next_state: state,
                },
            ),
        ).len() + frame_bytes(PingRquestPacket::spec_encode(())).len() + frame_bytes(
            PingPacket::spec_encode(code),
        ).len(),
{
    let len = encode_utf8(host).len();
    let v = HandshakeView {
        protocol_version: -1i32,
        server_address: host,
        server_port: port,
        next_state: state,
    };
    let hs = HandshakePacket::spec_encode(v);
    lemma_varint_len((-1i32) as u32);
    assert(((-1i32) as u32) == 0xFFFF_FFFFu32) by (bit_vector);
    assert(varint_of(-1i32).len() == 5);
    assert(varint_of(state_number(state)).len() == 1);
    assert((len as i32) as u32 == len as u32);
    lemma_varint_len(len as u32);
    assert(hs.len() == 1 + 5 + varint_bytes(len as u32).len() + len + 2 + 1);
    assert((hs.len() as i32) as u32 == hs.len() as u32);
    assert(varint_of(1).len() == 1);
    assert(varint_of(9).len() == 1);
}

/// What `received_bytes` counts is exactly the framed status response of
/// that length and a framed pong, for responses shorter than 2^31 bytes.
pub proof fn lemma_received_bytes_exact(response: Seq<u8>, code: u64)
    requires
        response.len() <= i32::MAX,
    ensures
        varint_bytes(response.len() as u32).len() + response.len() + PONG_PACKET_SIZE == frame_bytes(
            response,
        ).len() + frame_bytes(PongPacket::spec_encode(code)).len(),
{
    assert((response.len() as i32) as u32 == response.len() as u32);
    assert(varint_of(9).len() == 1);
}

/// The check of a pong against the code that the ping carried.
pub open spec fn spec_check_pong(pong: Seq<u8>, code: u64, verify: bool) -> Result<(), PingError> {
    if !verify {
        Ok(())
    } else {
        match PongPacket::spec_decode(pong) {
            Some(Ok(c)) => if c == code {
                Ok(())
            } else {
                Err(PingError::InvalidPongCode)
            },
            Some(Err(e)) => Err(e),
            None => Ok(()),
        }
    }
}

/// With `verify` set, a pong passes exactly when it is the pong of the very
/// code that was sent: the pong of `c` passes against `code` if and only if
/// `c == code` (all 64 bits), and fails with `InvalidPongCode` otherwise; and
/// any bytes that pass are the encoding of `code`. Without `verify` every
/// pong passes.
pub proof fn lemma_pong_check(c: u64, code: u64, pong: Seq<u8>)
    ensures
        spec_check_pong(PongPacket::spec_encode(c), code, true) == (if c == code {
            Ok::<(), PingError>(())
        } else {
            Err::<(), PingError>(PingError::InvalidPongCode)
        }),
        spec_check_pong(pong, code, true) is Ok ==> pong == PongPacket::spec_encode(code),
        spec_check_pong(pong, code, false) is Ok,
{
    lemma_pong_roundtrip(c, pong);
}

/// Where `verify` is set, the pong must be a well-formed pong that echoes
/// `code`; otherwise it is not looked at.
pub fn check_pong(pong_packet: &[u8], code: u64, verify: bool) -> (r: Result<(), PingError>)
    ensures
        r == spec_check_pong(pong_packet@, code, verify),
{
    if verify {
        let pong = PongPacket::decode(pong_packet)?;
        if pong.code != code {
            return Err(PingError::InvalidPongCode);
        }
    }
    Ok(())
}

/// The UTF-16 code units of one character.
pub open spec fn utf16_units(c: char) -> Seq<u16> {
    let v = c as u32;
    if v < 0x10000 {
        seq![v as u16]
    } else {
        let w = (v - 0x10000) as u32;
        seq![(0xD800 + (w >> 10u32)) as u16, (0xDC00 + (w & 0x3FF)) as u16]
    }
}

/// The UTF-16 encoding of `chars`.
pub open spec fn encode_utf16(chars: Seq<char>) -> Seq<u16>
    decreases chars.len(),
{
    if chars.len() == 0 {
        seq![]
    } else {
        encode_utf16(chars.drop_last()) + utf16_units(chars.last())
    }
}

/// The units of one character decode back to it: a character below U+10000
/// is one unit whose value is its code point (never a surrogate); any other
/// is a high surrogate and a low surrogate that together carry its code
/// point less 0x10000, ten bits each.
pub proof fn lemma_utf16_units_decode(c: char)
    ensures
        (c as u32) < 0x10000 ==> utf16_units(c).len() == 1 && utf16_units(c)[0] as u32 == c as u32
            && !(0xD800 <= utf16_units(c)[0] < 0xE000),
        (c as u32) >= 0x10000 ==> ({
            let u = utf16_units(c);
            &&& u.len() == 2
            &&& 0xD800 <= u[0] < 0xDC00
            &&& 0xDC00 <= u[1] < 0xE000
            &&& 0x10000 + (u[0] - 0xD800) * 0x400 + (u[1] - 0xDC00) == c as u32
        }),
{
    let v = c as u32;
    if v >= 0x10000 {
        let w = (v - 0x10000) as u32;
        assert(w <= 0xFFFFF);
        assert((w >> 10u32) < 0x400 && (w & 0x3FF) < 0x400 && (w >> 10u32) * 0x400 + (w & 0x3FF) == w)
            by (bit_vector)
            requires
                w <= 0xFFFFF,
        ;
    }
}

/// Encoding two texts one after the other gives the units of the first, then
/// those of the second.
pub proof fn lemma_encode_utf16_concat(a: Seq<char>, b: Seq<char>)
    ensures
        encode_utf16(a + b) == encode_utf16(a) + encode_utf16(b),
    decreases b.len(),
{
    if b.len() == 0 {
        assert(a + b =~= a);
        assert(encode_utf16(b) =~= Seq::<u16>::empty());
        assert(encode_utf16(a) + encode_utf16(b) =~= encode_utf16(a));
    } else {
        lemma_encode_utf16_concat(a, b.drop_last());
        assert((a + b).drop_last() =~= a + b.drop_last());
        assert((a + b).last() == b.last());
        assert(encode_utf16(a + b) =~= encode_utf16(a) + encode_utf16(b));
    }
}

/// The UTF-16 code units of `s`, as `str::encode_utf16` gives them.
pub fn utf16_of(s: &str) -> (r: Vec<u16>)
    ensures
        r@ == encode_utf16(s@),
{
    let n = s.unicode_len();
    let mut out: Vec<u16> = Vec::new();
    let mut i: usize = 0;
    while i < n
        invariant
            i <= n,
            n == s@.len(),
            out@ == encode_utf16(s@.subrange(0, i as int)),
        decreases n - i,
    {
        let c = s.get_char(i);
        let v = c as u32;
        assert(s@.subrange(0, i + 1).drop_last() =~= s@.subrange(0, i as int));
        if v < 0x10000 {
            out.push(v as u16);
        } else {
            let w = v - 0x10000;
            assert(w >> 10u32 < 0x400 && w & 0x3FF <= 0x3FF) by (bit_vector)
                requires
                    w <= 0xFFFFF,
            ;
            out.push((0xD800 + (w >> 10u32)) as u16);
            out.push((0xDC00 + (w & 0x3FF)) as u16);
        }
        i = i + 1;
        assert(out@ =~= encode_utf16(s@.subrange(0, i as int)));
    }
    assert(s@.subrange(0, n as int) =~= s@);
    out
}

/// What the ping reads from the server's status JSON.
pub struct StatusInfo {
    /// `players.online`, where it is an integer that fits in an `i64`.
    pub onlines: Option<i64>,
    /// Where `forgeData.d` is present: its UTF-16 code units (none where it
    /// is not a string).
    pub forge_d: Option<Vec<u16>>,
    /// The length of `modinfo.modList`, where it is an array.
    pub mod_list_len: Option<usize>,
}

/// Following `k1` and then `k2` from the root of the document `text` reaches
/// a value.
pub open spec fn json_reaches(text: Seq<char>, k1: Seq<char>, k2: Seq<char>) -> bool {
    json_has(text, seq![k1]) && json_has(text, seq![k1, k2])
}

/// `players.online` of the status `text`, where it is an integer that fits
/// in an `i64`.
pub open spec fn status_onlines(text: Seq<char>) -> Option<i64> {
    if json_reaches(text, "players"@, "online"@) {
        json_i64_at(text, seq!["players"@, "online"@])
    } else {
        None
    }
}

/// Where `forgeData.d` of the status `text` is present: the UTF-16 code
/// units of that string, none where it is not a string.
pub open spec fn status_forge_d(text: Seq<char>) -> Option<Seq<u16>> {
    if json_reaches(text, "forgeData"@, "d"@) {
        Some(
            encode_utf16(
                match json_str_at(text, seq!["forgeData"@, "d"@]) {
                    Some(chars) => chars,
                    None => Seq::empty(),
                },
            ),
        )
    } else {
        None
    }
}

/// The length of `modinfo.modList` of the status `text`, where it is an
/// array.
pub open spec fn status_mod_list_len(text: Seq<char>) -> Option<nat> {
    if json_reaches(text, "modinfo"@, "modList"@) {
        json_array_len_at(text, seq!["modinfo"@, "modList"@])
    } else {
        None
    }
}

/// `info` holds what the status `text` says.
pub open spec fn status_info_of(text: Seq<char>, info: StatusInfo) -> bool {
    &&& info.onlines == status_onlines(text)
    &&& match info.forge_d {
        Some(units) => status_forge_d(text) == Some(units@),
        None => status_forge_d(text) is None,
    }
    &&& match info.mod_list_len {
        Some(n) => status_mod_list_len(text) == Some(n as nat),
        None => status_mod_list_len(text) is None,
    }
}

/// The error that refusing the status `text` gives: `TruncatedJson` where
/// the text ends too early, else `InvalidJson`, with `serde_json`'s message.
pub open spec fn json_refusal(text: Seq<char>, e: PingError) -> bool {
    match e {
        PingError::TruncatedJson(m) => json_truncated(text) && m@ == json_error_text(text),
        PingError::InvalidJson(m) => !json_truncated(text) && m@ == json_error_text(text),
        _ => false,
    }
}

/// Reads the status JSON: an error exactly where `serde_json` refuses the
/// text (`TruncatedJson` where the text ends too early, else `InvalidJson`),
/// and otherwise what the text says of the players online, Forge's data and
/// the mod list.
pub fn parse_status(content: &str) -> (r: Result<StatusInfo, PingError>)
    ensures
        r is Ok <==> json_accepts(content@),
        r matches Err(e) ==> json_refusal(content@, e),
        r matches Ok(info) ==> status_info_of(content@, info),
{
    let doc = match json_from_str(content) {
        Ok(d) => d,
        Err(e) => {
            let message = json_error_message(&e);
            if json_error_is_eof(&e) {
                return Err(PingError::TruncatedJson(message));
            }
            return Err(PingError::InvalidJson(message));
        },
    };
    let root = doc.root();
    let onlines = match json_get(&root, "players") {
        Some(players) => match json_get(&players, "online") {
            Some(online) => json_as_i64(&online),
            None => None,
        },
        None => None,
    };
    let forge_d = match json_get(&root, "forgeData") {
        Some(forge_data) => match json_get(&forge_data, "d") {
            Some(d) => {
                let text = match json_as_str(&d) {
                    Some(t) => t,
                    None => "",
                };
                proof {
                    reveal_strlit("");
                }
                Some(utf16_of(text))
            },
            None => None,
        },
        None => None,
    };
    let mod_list_len = match json_get(&root, "modinfo") {
        Some(modinfo) => match json_get(&modinfo, "modList") {
            Some(list) => match json_as_array(&list) {
                Some(items) => Some(items.len()),
                None => None,
            },
            None => None,
        },
        None => None,
    };
    let info = StatusInfo { onlines, forge_d, mod_list_len };
    assert(Seq::<Seq<char>>::empty().push("players"@) =~= seq!["players"@]);
    assert(seq!["players"@].push("online"@) =~= seq!["players"@, "online"@]);
    assert(Seq::<Seq<char>>::empty().push("forgeData"@) =~= seq!["forgeData"@]);
    assert(seq!["forgeData"@].push("d"@) =~= seq!["forgeData"@, "d"@]);
    assert(Seq::<Seq<char>>::empty().push("modinfo"@) =~= seq!["modinfo"@]);
    assert(seq!["modinfo"@].push("modList"@) =~= seq!["modinfo"@, "modList"@]);
    Ok(info)
}

/// The mod count that Forge's packed data gives: the big-endian `u16` after
/// the first unpacked byte.
pub open spec fn spec_forge_mod_count(units: Seq<u16>) -> Result<Option<usize>, PingError> {
    match parse_u16_be(forge_d_bytes(units).skip(1)) {
        Ok((count, _)) => Ok(Some(count as usize)),
        Err(e) => Err(e),
    }
}

/// The statuses that `read_forge_mods` is not given: the packed data has
/// three units or more and unpacks to no byte at all, so that there is no
/// first byte to skip.
pub open spec fn spec_forge_mods_abort(info: StatusInfo) -> bool {
    info.forge_d matches Some(units) && units@.len() >= 3 && forge_d_bytes(units@).len() == 0
}

impl StatusInfo {
    /// Whether `read_forge_mods` is refused this status (see
    /// `spec_forge_mods_abort`).
    pub fn forge_mods_abort(&self) -> (r: bool)
        ensures
            r == spec_forge_mods_abort(*self),
    {
        match &self.forge_d {
            Some(units) => {
                if units.len() < 3 {
                    return false;
                }
                let size = (units[0] as u32) | ((units[1] as u32) << 15u32);
                proof {
                    let k = (units@.len() - 2) as nat;
                    if k >= 2 {
                        assert(forge_emitted(k) >= 1) by (nonlinear_arith)
                            requires
                                k >= 2,
                                forge_emitted(k) == (15 * (k - 1)) / 8,
                        ;
                    }
                    assert(size as nat == forge_declared_size(units@));
                }
                units.len() == 3 && size == 0
            },
            None => false,
        }
    }
}

/// The number of mods a server lists: from Forge's packed data where
/// `forgeData.d` is present (none where it has fewer than three units),
/// else the length of `modinfo.modList`. Unpacking may fail for want of
/// memory.
pub fn read_forge_mods(info: &StatusInfo) -> (r: Result<Option<usize>, PingError>)
    requires
        !spec_forge_mods_abort(*info),
    ensures
        match info.forge_d {
            None => r == Ok::<Option<usize>, PingError>(info.mod_list_len),
            Some(units) => if units@.len() < 3 {
                r == Ok::<Option<usize>, PingError>(None)
            } else {
                &&& r == spec_forge_mod_count(units@) || r == Err::<Option<usize>, PingError>(
                    PingError::OutOfMemory,
                )
                &&& r == Err::<Option<usize>, PingError>(PingError::OutOfMemory)
                    ==> forge_declared_size(units@) > 0
            },
        },
{
    match &info.forge_d {
        Some(units) => {
            if units.len() < 3 {
                return Ok(None);
            }
            let bytes = decode_forge_d(units.as_slice())?;
            let rest = &bytes.as_slice()[1..bytes.len()];
            assert(rest@ =~= forge_d_bytes(units@).skip(1));
            if rest.len() < 2 {
                return Err(PingError::UnexpectedEof);
            }
            let size: u16 = ((rest[0] as u16) << 8u16) | (rest[1] as u16);
            Ok(Some(size as usize))
        },
        None => Ok(info.mod_list_len),
    }
}

/// Forge's mod count, in terms of the unpacked bytes `b`: where there are
/// three or more, the count is the big-endian `u16` in `b[1]` and `b[2]`;
/// with fewer (but at least the one byte that is skipped) the input ended
/// early.
pub proof fn lemma_forge_mod_count(units: Seq<u16>)
    requires
        forge_d_bytes(units).len() >= 1,
    ensures
        ({
            let b = forge_d_bytes(units);
            &&& b.len() >= 3 ==> spec_forge_mod_count(units) == Ok::<Option<usize>, PingError>(
                Some((b[1] as nat * 256 + b[2] as nat) as usize),
            )
            &&& b.len() < 3 ==> spec_forge_mod_count(units) == Err::<Option<usize>, PingError>(
                PingError::UnexpectedEof,
            )
        }),
{
    let b = forge_d_bytes(units);
    let rest = b.skip(1);
    if b.len() >= 3 {
        let x = rest[0];
        let y = rest[1];
        assert((((x as u16) << 8u16) | (y as u16)) as nat == x as nat * 256 + y as nat) by (bit_vector);
    }
}

/// The mod count that the status `text` gives, where its unpacking does not
/// run out of memory: from Forge's packed data where `forgeData.d` is
/// present (none where it has fewer than three units), else the length of
/// `modinfo.modList`.
pub open spec fn status_mods(text: Seq<char>) -> Result<Option<usize>, PingError> {
    match status_forge_d(text) {
        None => Ok(
            match status_mod_list_len(text) {
                Some(n) => Some(n as usize),
                None => None,
            },
        ),
        Some(units) => if units.len() < 3 {
            Ok(None)
        } else {
            spec_forge_mod_count(units)
        },
    }
}

/// The status texts on which a ping cannot report: accepted JSON whose
/// Forge data has three units or more and unpacks to no byte at all.
pub open spec fn status_aborts(text: Seq<char>) -> bool {
    &&& json_accepts(text)
    &&& status_forge_d(text) matches Some(units)
    &&& units.len() >= 3
    &&& forge_d_bytes(units).len() == 0
}

/// What a ping reports once the status response (`content`, from a packet
/// of `first_packet_len` bytes) and the pong are in: the pong is checked
/// first where `verify` is set, then the status text is read. `None` exactly
/// on the texts of `status_aborts`, where nothing can be reported.
pub fn ping_report(
    first_packet_len: usize,
    content: String,
    pong_packet: &[u8],
    code: u64,
    verify: bool,
    elapsed: Duration,
) -> (r: Option<Result<PingReport, PingError>>)
    requires
        first_packet_len <= usize::MAX - 16,
    ensures
        match spec_check_pong(pong_packet@, code, verify) {
            Err(e) => r == Some(Err::<PingReport, PingError>(e)),
            Ok(_) => if !json_accepts(content@) {
                r matches Some(Err(e)) && json_refusal(content@, e)
            } else if status_aborts(content@) {
                r is None
            } else {
                match r {
                    Some(Ok(report)) => {
                        &&& report.received_bytes == varint_bytes(first_packet_len as u32).len()
                            + first_packet_len + PONG_PACKET_SIZE
                        &&& report.onlines == status_onlines(content@)
                        &&& status_mods(content@) == Ok::<Option<usize>, PingError>(report.mods)
                        &&& report.elapsed == elapsed
                        &&& report.json@ == content@
                    },
                    Some(Err(e)) => status_mods(content@) == Err::<Option<usize>, PingError>(e)
                        || (e == PingError::OutOfMemory && (status_forge_d(content@) matches Some(
                        units,
                    ) && forge_declared_size(units) > 0)),
                    None => false,
                }
            },
        },
{
    if let Err(e) = check_pong(pong_packet, code, verify) {
        return Some(Err(e));
    }
    let info = match parse_status(content.as_str()) {
        Ok(info) => info,
        Err(e) => {
            return Some(Err(e));
        },
    };
    if info.forge_mods_abort() {
        return None;
    }
    let received = received_bytes(first_packet_len);
    let mods = match read_forge_mods(&info) {
        Ok(m) => m,
        Err(e) => {
            return Some(Err(e));
        },
    };
    Some(Ok(PingReport { received_bytes: received, onlines: info.onlines, mods, elapsed, json: content }))
}

} // verus!
