use mcping::error::ErrorKind;
use mcping::protocol::io::MinecraftWriteExt;
use mcping::protocol::packet::{
    encode_u64_packet, HandshakePacket, HandshakeState, Packet, PingPacket, PingResponsePacket,
    PingRquestPacket, PongPacket, HANDSHAKE_PACKET_ID, PING_PACKET_ID, PING_REQUEST_PACKET_ID,
    PING_RESPONSE_PACKET_ID, PONG_PACKET_ID,
};

fn assert_invalid_data<T>(r: Result<T, mcping::error::PingError>) {
    match r {
        Err(e) => assert_eq!(e.kind(), ErrorKind::InvalidData),
        Ok(_) => panic!("expected InvalidData error, got Ok"),
    }
}

// The bytes of a handshake, written field by field (used to build an invalid state).
fn build_handshake_bytes(protocol_version: i32, addr: &str, port: u16, next_state_varint: i32) -> Vec<u8> {
    let mut packet: Vec<u8> = Vec::new();
    packet.push(HANDSHAKE_PACKET_ID);
    packet.write_varint(protocol_version);
    packet.write_string(addr);
    packet.extend_from_slice(&port.to_be_bytes());
    packet.write_varint(next_state_varint);
    packet
}

#[test]
fn handshake_encode_decode_roundtrip() {
    let p = HandshakePacket {
        protocol_version: 760,
        server_address: "localhost".to_string(),
        server_port: 25565,
        next_state: HandshakeState::Status,
    };

    let bytes = p.encode().unwrap();
    let decoded = HandshakePacket::decode(&bytes).unwrap();

    assert_eq!(decoded.protocol_version, 760);
    assert_eq!(decoded.server_address, "localhost");
    assert_eq!(decoded.server_port, 25565);
    match decoded.next_state {
        HandshakeState::Status => {}
        _ => panic!("expected Status"),
    }
}

#[test]
fn handshake_decode_rejects_wrong_id() {
    let mut bytes = build_handshake_bytes(760, "localhost", 25565, 1);
    bytes[0] = 0x7f;
    assert_invalid_data(HandshakePacket::decode(&bytes));
}

#[test]
fn handshake_decode_rejects_invalid_state() {
    let bytes = build_handshake_bytes(760, "localhost", 25565, 99);
    let r = HandshakePacket::decode(&bytes);
    assert_invalid_data(r);
}

#[test]
fn ping_request_encode_decode_roundtrip() {
    let p = PingRquestPacket {};
    let bytes = p.encode().unwrap();
    assert_eq!(bytes, vec![PING_REQUEST_PACKET_ID]);

    let _decoded = PingRquestPacket::decode(&bytes).unwrap();
}

#[test]
fn ping_request_decode_rejects_wrong_id() {
    let bytes = vec![0x7f];
    assert_invalid_data(PingRquestPacket::decode(&bytes));
}

#[test]
fn ping_response_encode_decode_roundtrip() {
    let p = PingResponsePacket {
        content: r#"{"version":{"name":"1.20.4","protocol":765},"players":{"max":20,"online":0},"description":{"text":"hi"}}"#.to_string(),
    };

    let bytes = p.encode().unwrap();

    assert_eq!(bytes[0], PING_RESPONSE_PACKET_ID);

    let decoded = PingResponsePacket::decode(&bytes).unwrap();
    assert_eq!(decoded.content, p.content);
}

#[test]
fn ping_response_decode_rejects_wrong_id() {
    let mut bytes: Vec<u8> = Vec::new();
    bytes.push(0x7f);
    bytes.write_string("oops");
    assert_invalid_data(PingResponsePacket::decode(&bytes));
}

#[test]
fn ping_encode_decode_roundtrip() {
    let p = PingPacket { code: 0x0102030405060708 };
    let bytes = p.encode().unwrap();

    assert_eq!(bytes.len(), 9);
    assert_eq!(bytes[0], PING_PACKET_ID);
    assert_eq!(&bytes[1..], &0x0102030405060708u64.to_be_bytes());

    let decoded = PingPacket::decode(&bytes).unwrap();
    assert_eq!(decoded.code, p.code);
}

#[test]
fn pong_encode_decode_roundtrip() {
    let p = PongPacket { code: 42 };
    let bytes = p.encode().unwrap();

    assert_eq!(bytes.len(), 9);
    assert_eq!(bytes[0], PONG_PACKET_ID);
    assert_eq!(&bytes[1..], &42u64.to_be_bytes());

    let decoded = PongPacket::decode(&bytes).unwrap();
    assert_eq!(decoded.code, 42);
}

#[test]
fn ping_decode_rejects_wrong_length() {
    let bytes = vec![PING_PACKET_ID, 1, 2, 3];
    assert_invalid_data(PingPacket::decode(&bytes));
}

#[test]
fn pong_decode_rejects_wrong_length() {
    let bytes = vec![PONG_PACKET_ID, 1, 2, 3];
    assert_invalid_data(PongPacket::decode(&bytes));
}

#[test]
fn ping_decode_rejects_wrong_id() {
    let mut bytes = encode_u64_packet(PING_PACKET_ID, 123);
    bytes[0] = 0x7f;
    assert_invalid_data(PingPacket::decode(&bytes));
}

#[test]
fn pong_decode_rejects_wrong_id() {
    let mut bytes = encode_u64_packet(PONG_PACKET_ID, 123);
    bytes[0] = 0x7f;
    assert_invalid_data(PongPacket::decode(&bytes));
}
