use mcping::dns::{split_host_port, strip_port, with_default_port, parse_u16, AddrKind, FamilyHint, IpFamily, LookupHints};
use mcping::error::{ErrorKind, PingError, U64Packet};
use mcping::protocol::io::{decode_forge_d, MinecraftReadExt, MinecraftWriteExt, PacketReader};
use mcping::protocol::forge::unpack_forge_d;
use mcping::protocol::packet::{
    check_id, decode_u64_packet, HandshakePacket, HandshakeState, Packet, PingPacket,
    PingResponsePacket, PingRquestPacket, PongPacket,
};
use mcping::protocol::ping::{
    check_pong, parse_status, ping_report, read_forge_mods, received_bytes, seek_send_bytes,
    utf16_of, StatusInfo,
};
use mcping::protocol::varint::{seek_varint_length, VarintDecoder, VarintStep};
use mcping::stats::Total;
use std::time::Duration;

fn varint(n: i32) -> Vec<u8> {
    let mut v = Vec::new();
    v.write_varint(n);
    v
}

#[test]
fn varint_known_encodings() {
    assert_eq!(varint(0), vec![0x00]);
    assert_eq!(varint(1), vec![0x01]);
    assert_eq!(varint(127), vec![0x7f]);
    assert_eq!(varint(128), vec![0x80, 0x01]);
    assert_eq!(varint(300), vec![0xac, 0x02]);
    assert_eq!(varint(25565), vec![0xdd, 0xc7, 0x01]);
    assert_eq!(varint(2097151), vec![0xff, 0xff, 0x7f]);
    assert_eq!(varint(i32::MAX), vec![0xff, 0xff, 0xff, 0xff, 0x07]);
    assert_eq!(varint(-1), vec![0xff, 0xff, 0xff, 0xff, 0x0f]);
    assert_eq!(varint(i32::MIN), vec![0x80, 0x80, 0x80, 0x80, 0x08]);
}

#[test]
fn varint_roundtrip_values() {
    for n in [0, 1, -1, 127, 128, 255, 25565, 2097151, 2097152, i32::MAX, i32::MIN, -760] {
        let mut bytes = varint(n);
        bytes.push(0x55);
        let mut reader = PacketReader::new(&bytes);
        assert_eq!(reader.read_varint(), Ok(n));
        assert_eq!(reader.read_unsigned_short(), Err(PingError::UnexpectedEof));
    }
}

#[test]
fn varint_read_errors() {
    let mut reader = PacketReader::new(&[]);
    assert_eq!(reader.read_varint(), Err(PingError::UnexpectedEof));
    let mut reader = PacketReader::new(&[0x80, 0x80]);
    assert_eq!(reader.read_varint(), Err(PingError::UnexpectedEof));
    let bytes = [0x80, 0x80, 0x80, 0x80, 0x80, 0x00];
    let mut reader = PacketReader::new(&bytes);
    let e = reader.read_varint().unwrap_err();
    assert_eq!(e, PingError::VarintTooLong);
    assert_eq!(e.kind(), ErrorKind::InvalidData);
    // A non-minimal encoding is accepted.
    let mut reader = PacketReader::new(&[0x80, 0x00]);
    assert_eq!(reader.read_varint(), Ok(0));
}

#[test]
fn varint_decoder_steps() {
    let mut d = VarintDecoder::new();
    assert_eq!(d.feed(0xac), VarintStep::NeedMore);
    assert_eq!(d.feed(0x02), VarintStep::Done(300));
    let mut d = VarintDecoder::new();
    for _ in 0..4 {
        assert_eq!(d.feed(0xff), VarintStep::NeedMore);
    }
    assert_eq!(d.feed(0x80), VarintStep::TooLong);
}

#[test]
fn seek_varint_length_values() {
    assert_eq!(seek_varint_length(0), 1);
    assert_eq!(seek_varint_length(127), 1);
    assert_eq!(seek_varint_length(128), 2);
    assert_eq!(seek_varint_length(16383), 2);
    assert_eq!(seek_varint_length(16384), 3);
    assert_eq!(seek_varint_length(2097152), 4);
    assert_eq!(seek_varint_length(268435456), 5);
    assert_eq!(seek_varint_length(u32::MAX as usize), 5);
    for n in [0usize, 1, 200, 70000, 3_000_000, 300_000_000] {
        assert_eq!(seek_varint_length(n), varint(n as i32).len());
    }
}

#[test]
fn strings_and_packets_frame() {
    let mut buf = Vec::new();
    buf.write_string("héllo");
    assert_eq!(buf, vec![6, b'h', 0xc3, 0xa9, b'l', b'l', b'o']);
    let mut reader = PacketReader::new(&buf);
    assert_eq!(reader.read_string().unwrap(), "héllo");

    let mut framed = Vec::new();
    framed.write_packet(&[1, 2, 3]);
    assert_eq!(framed, vec![3, 1, 2, 3]);
    let mut reader = PacketReader::new(&framed);
    assert_eq!(reader.read_packet().unwrap(), vec![1, 2, 3]);
}

#[test]
fn string_read_errors() {
    let mut reader = PacketReader::new(&[5, b'a', b'b']);
    let e = reader.read_string().unwrap_err();
    assert_eq!(e.kind(), ErrorKind::UnexpectedEof);
    let mut reader = PacketReader::new(&[2, 0xff, 0xfe]);
    let e = reader.read_string().unwrap_err();
    assert_eq!(e, PingError::InvalidUtf8);
    assert_eq!(e.kind(), ErrorKind::InvalidData);
}

#[test]
fn unsigned_short_is_big_endian() {
    let mut reader = PacketReader::new(&[0x63, 0xdd, 0x01]);
    assert_eq!(reader.read_unsigned_short(), Ok(25565));
}

#[test]
fn handshake_exact_bytes() {
    let p = HandshakePacket {
        protocol_version: -1,
        server_address: "ab".to_string(),
        server_port: 25565,
        next_state: HandshakeState::Login,
    };
    let bytes = p.encode().unwrap();
    assert_eq!(bytes, vec![0, 0xff, 0xff, 0xff, 0xff, 0x0f, 2, b'a', b'b', 0x63, 0xdd, 2]);
    let d = HandshakePacket::decode(&bytes).unwrap();
    assert_eq!(d.next_state, HandshakeState::Login);
    assert_eq!(d.protocol_version, -1);
}

#[test]
fn handshake_transfer_state_and_truncation() {
    let p = HandshakePacket {
        protocol_version: 5,
        server_address: "x".to_string(),
        server_port: 1,
        next_state: HandshakeState::Transfer,
    };
    let bytes = p.encode().unwrap();
    assert_eq!(HandshakePacket::decode(&bytes).unwrap().next_state, HandshakeState::Transfer);
    let r = HandshakePacket::decode(&bytes[..bytes.len() - 1]);
    assert_eq!(r.err(), Some(PingError::UnexpectedEof));
    let r = HandshakePacket::decode(&[0, 5, 1, b'x', 0]);
    assert_eq!(r.err().map(|e| e.kind()), Some(ErrorKind::UnexpectedEof));
}

#[test]
fn check_id_errors() {
    assert_eq!(check_id(&[], 0), Err(PingError::EmptyPacket));
    assert_eq!(check_id(&[1], 0), Err(PingError::InvalidPacketId));
    assert_eq!(check_id(&[1, 2], 1), Ok(()));
    assert_eq!(PingResponsePacket::decode(&[]).err(), Some(PingError::EmptyPacket));
}

#[test]
fn u64_packet_errors() {
    assert_eq!(
        decode_u64_packet(&[1, 2], 1, U64Packet::Pong),
        Err(PingError::InvalidPacketLength(U64Packet::Pong))
    );
    assert_eq!(
        decode_u64_packet(&[1, 0, 0, 0, 0, 0, 0, 1, 0], 1, U64Packet::Ping),
        Ok(256)
    );
}

#[test]
fn forge_d_unpacks_bits() {
    assert_eq!(decode_forge_d(&[3, 0, 1, 0xA]).unwrap(), vec![1, 0, 5]);
    assert_eq!(decode_forge_d(&[0, 0, 0x7fff, 0x7fff, 0x7fff]).unwrap(), vec![0xff, 0xff, 0xff]);
    assert_eq!(decode_forge_d(&[2, 0]).unwrap(), vec![0, 0]);
    assert_eq!(decode_forge_d(&[0, 0]).unwrap(), Vec::<u8>::new());
    assert_eq!(decode_forge_d(&[1]), Err(PingError::ForgeDataTooShort));
    assert_eq!(unpack_forge_d(&[3, 0, 1, 0xA], Vec::new(), false), Err(PingError::OutOfMemory));
    assert_eq!(unpack_forge_d(&[3, 0, 1, 0xA], Vec::new(), true), Ok(vec![1, 0, 5]));
}

#[test]
fn forge_mods_from_status() {
    let info = StatusInfo { onlines: None, forge_d: Some(vec![3, 0, 1, 0xA]), mod_list_len: Some(9) };
    assert!(!info.forge_mods_abort());
    assert_eq!(read_forge_mods(&info), Ok(Some(5)));
    let info = StatusInfo { onlines: None, forge_d: Some(vec![1, 0]), mod_list_len: Some(9) };
    assert_eq!(read_forge_mods(&info), Ok(None));
    let info = StatusInfo { onlines: None, forge_d: None, mod_list_len: Some(9) };
    assert_eq!(read_forge_mods(&info), Ok(Some(9)));
    let info = StatusInfo { onlines: None, forge_d: Some(vec![0, 0, 0]), mod_list_len: None };
    assert!(info.forge_mods_abort());
    let info = StatusInfo { onlines: None, forge_d: Some(vec![2, 0, 7]), mod_list_len: None };
    assert_eq!(read_forge_mods(&info), Err(PingError::UnexpectedEof));
}

#[test]
fn status_json_is_read() {
    let info = parse_status(r#"{"players":{"max":20,"online":-3},"modinfo":{"modList":[1,2,3]}}"#).unwrap();
    assert_eq!(info.onlines, Some(-3));
    assert_eq!(info.forge_d, None);
    assert_eq!(info.mod_list_len, Some(3));
    let info = parse_status(r#"{"forgeData":{"d":5}}"#).unwrap();
    assert_eq!(info.forge_d, Some(vec![]));
    assert_eq!(info.onlines, None);
    let e = parse_status("not json").err().unwrap();
    assert!(matches!(e, PingError::InvalidJson(_)));
    assert_eq!(e.kind(), ErrorKind::InvalidData);
}

#[test]
fn status_json_fields_and_truncation() {
    let info = parse_status(r#"{"players":{"online":7},"forgeData":{"d":"ab"},"modinfo":{"modList":[]}}"#).unwrap();
    assert_eq!(info.onlines, Some(7));
    assert_eq!(info.forge_d, Some(vec![0x61, 0x62]));
    assert_eq!(info.mod_list_len, Some(0));
    let info = parse_status(r#"{"players":7,"modinfo":{"modList":{}}}"#).unwrap();
    assert_eq!(info.onlines, None);
    assert_eq!(info.mod_list_len, None);
    let info = parse_status(r#"{"players":{"online":1.5}}"#).unwrap();
    assert_eq!(info.onlines, None);
    let e = parse_status(r#"{"players":{"online":"#).err().unwrap();
    assert!(matches!(e, PingError::TruncatedJson(_)));
    assert_eq!(e.kind(), ErrorKind::UnexpectedEof);
    let e = parse_status("").err().unwrap();
    assert_eq!(e.kind(), ErrorKind::UnexpectedEof);
    let e = parse_status("{} x").err().unwrap();
    assert_eq!(e.kind(), ErrorKind::InvalidData);
}

#[test]
fn utf16_units_of_text() {
    assert_eq!(utf16_of("a\u{e9}"), vec![0x61, 0xe9]);
    assert_eq!(utf16_of("\u{1F600}"), vec![0xD83D, 0xDE00]);
    assert_eq!(utf16_of("x\u{10FFFF}"), "x\u{10FFFF}".encode_utf16().collect::<Vec<u16>>());
}

#[test]
fn pong_check() {
    let pong = PongPacket { code: 7 }.encode().unwrap();
    assert_eq!(check_pong(&pong, 7, true), Ok(()));
    assert_eq!(check_pong(&pong, 8, true), Err(PingError::InvalidPongCode));
    assert_eq!(check_pong(&pong, 8, false), Ok(()));
    assert_eq!(check_pong(&[1, 2], 8, true), Err(PingError::InvalidPacketLength(U64Packet::Pong)));
}

#[test]
fn reader_position_after_errors() {
    let data = [0x80u8, 0x80, 0x80, 0x80, 0x80, 0x01];
    let mut r = PacketReader::new(&data);
    assert_eq!(r.read_varint(), Err(PingError::VarintTooLong));
    assert_eq!(r.read_varint(), Ok(1));
    let data = [0x80u8];
    let mut r = PacketReader::new(&data);
    assert_eq!(r.read_varint(), Err(PingError::UnexpectedEof));
    assert_eq!(r.read_varint(), Err(PingError::UnexpectedEof));
    let data = [0x01u8, 0x02, 0x03];
    let mut r = PacketReader::new(&data);
    assert_eq!(r.read_varint(), Ok(1));
    assert_eq!(r.read_unsigned_short(), Ok(0x0203));
    let data = [0x01u8];
    let mut r = PacketReader::new(&data);
    assert_eq!(r.read_unsigned_short(), Err(PingError::UnexpectedEof));
    assert_eq!(r.read_varint(), Err(PingError::UnexpectedEof));
    let data = [0x02u8, 0xff, 0xfe, 0x05];
    let mut r = PacketReader::new(&data);
    assert_eq!(r.read_string(), Err(PingError::InvalidUtf8));
    assert_eq!(r.read_varint(), Ok(5));
    let data = [0x05u8, 0x41, 0x42];
    let mut r = PacketReader::new(&data);
    assert_eq!(r.read_packet(), Err(PingError::UnexpectedEof));
    assert_eq!(r.read_varint(), Err(PingError::UnexpectedEof));
}

#[test]
fn byte_counts() {
    assert_eq!(received_bytes(100), 111);
    assert_eq!(received_bytes(200), 212);
    assert_eq!(seek_send_bytes("localhost"), 32);
}

#[test]
fn strip_port_forms() {
    assert_eq!(strip_port("example.com:25565"), "example.com");
    assert_eq!(strip_port("example.com"), "example.com");
    assert_eq!(strip_port("example.com:abc"), "example.com:abc");
    assert_eq!(strip_port("example.com:"), "example.com");
    assert_eq!(strip_port("[::1]:25565"), "::1");
    assert_eq!(strip_port("[::1]"), "[::1]");
    assert_eq!(strip_port("::1"), "::1");
    assert_eq!(strip_port("hé:1"), "hé");
}

#[test]
fn default_port_forms() {
    assert_eq!(with_default_port("example.com"), "example.com:25565");
    assert_eq!(with_default_port("example.com:1"), "example.com:1");
    assert_eq!(with_default_port("::1"), "[::1]:25565");
    assert_eq!(with_default_port("[::1]"), "[::1]:25565");
    assert_eq!(with_default_port("[::1]:80"), "[::1]:80");
    assert_eq!(with_default_port("[::1]x"), "[::1]x");
    assert_eq!(with_default_port(""), "");
}

#[test]
fn host_port_split() {
    assert_eq!(split_host_port("example.com:25565"), Ok(("example.com".to_string(), 25565)));
    assert_eq!(split_host_port("[::1]:80"), Ok(("::1".to_string(), 80)));
    assert_eq!(split_host_port("a:+80"), Ok(("a".to_string(), 80)));
    assert_eq!(split_host_port("a:65536"), Err(PingError::InvalidPort));
    assert_eq!(split_host_port("a:"), Err(PingError::InvalidPort));
    assert_eq!(split_host_port(":80"), Err(PingError::InvalidSocketAddress));
    assert_eq!(split_host_port("noport"), Err(PingError::InvalidSocketAddress));
    assert_eq!(split_host_port("[::1]80"), Err(PingError::InvalidSocketAddress));
    assert_eq!(split_host_port("[::1"), Err(PingError::InvalidSocketAddress));
    assert_eq!(split_host_port("a:x").unwrap_err().kind(), ErrorKind::InvalidInput);
}

#[test]
fn port_parsing() {
    assert_eq!(parse_u16("0"), Some(0));
    assert_eq!(parse_u16("65535"), Some(65535));
    assert_eq!(parse_u16("065535"), Some(65535));
    assert_eq!(parse_u16("65536"), None);
    assert_eq!(parse_u16("+"), None);
    assert_eq!(parse_u16("-1"), None);
    assert_eq!(parse_u16(""), None);
    assert_eq!(parse_u16("1a"), None);
    for s in ["12", "+7", "99999", "x", "00080"] {
        assert_eq!(parse_u16(s), s.parse::<u16>().ok());
    }
}

#[test]
fn family_matching() {
    assert!(IpFamily::Any.matches(AddrKind::V6));
    assert!(IpFamily::V4.matches(AddrKind::V4));
    assert!(!IpFamily::V4.matches(AddrKind::V6));
    assert!(!IpFamily::V6.matches(AddrKind::V4));
}

#[test]
fn totals() {
    let mut t = Total::default();
    t.record_request();
    t.record_request();
    t.record_reply(Duration::from_millis(5));
    assert_eq!(t.transmitted, 2);
    assert_eq!(t.received, 1);
    assert_eq!(t.lost(), 1);
    assert_eq!(t.rtts, vec![Duration::from_millis(5)]);
    t.received = 5;
    assert_eq!(t.lost(), 0);
}

#[test]
fn response_decode_keeps_trailing_bytes_out() {
    let mut bytes = PingResponsePacket { content: "{}".to_string() }.encode().unwrap();
    bytes.push(9);
    assert_eq!(PingResponsePacket::decode(&bytes).unwrap().content, "{}");
}

#[test]
fn default_port_then_split() {
    let h = with_default_port("example.com");
    assert_eq!(split_host_port(&h), Ok(("example.com".to_string(), 25565)));
    let h = with_default_port("fe80::1");
    assert_eq!(split_host_port(&h), Ok(("fe80::1".to_string(), 25565)));
}

fn framed(packet: &[u8]) -> Vec<u8> {
    let mut v = Vec::new();
    v.write_packet(packet);
    v
}

#[test]
fn sent_count_against_bytes_sent() {
    let host = "mc.example.org";
    let sent = |port: u16| {
        let hs = HandshakePacket {
            protocol_version: -1,
            server_address: host.to_string(),
            server_port: port,
            next_state: HandshakeState::Status,
        }
        .encode()
        .unwrap();
        framed(&hs).len()
            + framed(&PingRquestPacket {}.encode().unwrap()).len()
            + framed(&PingPacket { code: 99 }.encode().unwrap()).len()
    };
    assert_eq!(seek_send_bytes(host), sent(25565));
    assert_eq!(seek_send_bytes(host), sent(1));
    assert_eq!(seek_send_bytes(host), 37);
}

#[test]
fn received_count_against_frames() {
    let response = PingResponsePacket { content: "x".repeat(300) }.encode().unwrap();
    let pong = PongPacket { code: 1 }.encode().unwrap();
    assert_eq!(received_bytes(response.len()), framed(&response).len() + framed(&pong).len());
}

#[test]
fn ping_bytes_reencode() {
    let bytes = vec![1u8, 9, 8, 7, 6, 5, 4, 3, 2];
    let p = PingPacket::decode(&bytes).unwrap();
    assert_eq!(p.encode().unwrap(), bytes);
}

#[test]
fn response_abort_detection() {
    let mut bytes = vec![0u8];
    bytes.write_varint(-5);
    assert!(PingResponsePacket::decode_aborts(&bytes));
    assert!(!PingResponsePacket::decode_aborts(&[0, 0]));
    assert!(!PingResponsePacket::decode_aborts(&[3, 0xff]));
}


#[test]
fn varint_read_then_write() {
    for bytes in [vec![0xacu8, 0x02], vec![0x00], vec![0xff, 0xff, 0xff, 0xff, 0x0f], vec![0x80, 0x01]] {
        let mut reader = PacketReader::new(&bytes);
        let n = reader.read_varint().unwrap();
        assert_eq!(varint(n), bytes);
    }
    // A longer form reads fine but is written back in its shortest form.
    let mut reader = PacketReader::new(&[0x80, 0x00]);
    let n = reader.read_varint().unwrap();
    assert_eq!(varint(n), vec![0x00]);
}

#[test]
fn joined_host_and_port_split_back() {
    for port in [0u16, 1, 9, 10, 80, 255, 25565, 65535] {
        for host in ["example.com", "a:b", "::1", "h]x"] {
            assert_eq!(split_host_port(&format!("{host}:{port}")), Ok((host.to_string(), port)));
        }
        for host in ["example.com", "::1", "fe80::1%eth0"] {
            assert_eq!(split_host_port(&format!("[{host}]:{port}")), Ok((host.to_string(), port)));
        }
    }
}

#[test]
fn default_port_is_idempotent() {
    for s in ["", "example.com", "example.com:1", "::1", "[::1]", "[::1]:80", "[::1]x", "a]:b:c", "[x", ":"] {
        let once = with_default_port(s);
        assert_eq!(with_default_port(&once), once);
        assert!(once == s || once == format!("{s}:25565") || once == format!("[{s}]:25565"));
    }
    assert_eq!(with_default_port("mc.example.org"), "mc.example.org:25565");
}

#[test]
fn stripped_host_is_the_looked_up_host() {
    for s in ["example.com", "example.com:25565", "example.com:", "::1", "[::1]:80", "[::1]:", "a:b:c", "a]:b:c", "[a]x", ":5"] {
        if let Ok((host, _)) = split_host_port(&with_default_port(s)) {
            assert_eq!(strip_port(s), host);
        }
        assert!(s.contains(strip_port(s)));
    }
    assert_eq!(strip_port("[::1]"), "[::1]");
    assert_eq!(split_host_port(&with_default_port("[::1]")), Ok(("::1".to_string(), 25565)));
}

fn forge_pack(b: &[u8]) -> Vec<u16> {
    let n = b.len();
    let mut units = vec![(n & 0x7fff) as u16, ((n >> 15) & 0x7fff) as u16];
    let k = (8 * n + 14) / 15;
    let mut buffer: u64 = 0;
    let mut bits: u32 = 0;
    let mut next = 0;
    for _ in 0..k {
        while bits < 15 && next < n {
            buffer |= (b[next] as u64) << bits;
            bits += 8;
            next += 1;
        }
        units.push((buffer & 0x7fff) as u16);
        buffer >>= 15;
        bits = bits.saturating_sub(15);
    }
    units
}

#[test]
fn forge_packing_round_trip() {
    for n in 0..64usize {
        let bytes: Vec<u8> = (0..n).map(|i| (i * 37 + 11) as u8).collect();
        assert_eq!(decode_forge_d(&forge_pack(&bytes)), Ok(bytes));
    }
    let bytes = vec![0xffu8; 300];
    assert_eq!(decode_forge_d(&forge_pack(&bytes)), Ok(bytes));
}

#[test]
fn forge_mod_count_from_unpacked_bytes() {
    let info = |bytes: &[u8]| StatusInfo { onlines: None, forge_d: Some(forge_pack(bytes)), mod_list_len: Some(9) };
    assert_eq!(read_forge_mods(&info(&[7, 0x01, 0x02, 0xaa])), Ok(Some(0x0102)));
    assert_eq!(read_forge_mods(&info(&[7, 0x00, 0x05])), Ok(Some(5)));
    assert_eq!(read_forge_mods(&info(&[7, 0x01])), Err(PingError::UnexpectedEof));
}

#[test]
fn report_of_a_ping() {
    let pong = PongPacket { code: 42 }.encode().unwrap();
    let elapsed = Duration::from_millis(5);
    let content = r#"{"players":{"online":3},"modinfo":{"modList":[{},{}]}}"#.to_string();
    let report = ping_report(100, content.clone(), &pong, 42, true, elapsed).unwrap().unwrap();
    assert_eq!(report.received_bytes, 111);
    assert_eq!(report.onlines, Some(3));
    assert_eq!(report.mods, Some(2));
    assert_eq!(report.elapsed, elapsed);
    assert_eq!(report.json, content);
    let e = ping_report(100, content.clone(), &pong, 41, true, elapsed).unwrap().err().unwrap();
    assert_eq!(e, PingError::InvalidPongCode);
    assert!(ping_report(100, content.clone(), &pong, 41, false, elapsed).unwrap().is_ok());
    let e = ping_report(100, "{".to_string(), &pong, 42, true, elapsed).unwrap().err().unwrap();
    assert_eq!(e.kind(), ErrorKind::UnexpectedEof);
    assert!(ping_report(100, "{\"forgeData\":{\"d\":\"\\u0000\\u0000A\"}}".to_string(), &pong, 42, true, elapsed).is_none());
}

#[test]
fn lookup_hints_per_family() {
    assert_eq!(IpFamily::Any.lookup_hints(), LookupHints { family: FamilyHint::Unspecified, address_config: true });
    assert_eq!(IpFamily::V4.lookup_hints(), LookupHints { family: FamilyHint::Inet, address_config: false });
    assert_eq!(IpFamily::V6.lookup_hints(), LookupHints { family: FamilyHint::Inet6, address_config: false });
}

#[test]
fn forge_declared_length_of_header() {
    assert_eq!(mcping::protocol::forge::forge_declared_len(&[5, 0]), 5);
    assert_eq!(mcping::protocol::forge::forge_declared_len(&[0x7fff, 1]), 0xffff);
    assert_eq!(decode_forge_d(&[0, 0]), Ok(vec![]));
}

#[test]
fn refused_status_messages() {
    let e = parse_status("").err().unwrap();
    assert!(matches!(e, PingError::TruncatedJson(ref m) if m.contains("EOF")));
    let e = parse_status("{} x").err().unwrap();
    assert!(matches!(e, PingError::InvalidJson(ref m) if m.contains("trailing")));
}
