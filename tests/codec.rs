use gameserver::framing::FrameReader;
use gameserver::packet::{
    ClientToServerTCPPacket, ClientToServerUDPPacket, ServerToClientTCPPacket,
    MESSAGE_TO_SERVER_LIMIT,
};

fn payload(frame: &[u8]) -> Vec<u8> {
    frame[4..].to_vec()
}

#[test]
fn client_packets_round_trip() {
    let cases = vec![
        ClientToServerTCPPacket::ClientError("boom".to_string()),
        ClientToServerTCPPacket::ClientDesire("bye".to_string()),
        ClientToServerTCPPacket::SessionID("abc\u{e9}\u{4eac}".to_string()),
        ClientToServerTCPPacket::SessionID(String::new()),
    ];
    for p in cases {
        let frame = p.pack();
        let len = u32::from_be_bytes([frame[0], frame[1], frame[2], frame[3]]) as usize;
        assert_eq!(len, frame.len() - 4);
        let back = ClientToServerTCPPacket::unpack(&payload(&frame)).unwrap();
        match (p, back) {
            (ClientToServerTCPPacket::ClientError(a), ClientToServerTCPPacket::ClientError(b)) => {
                assert_eq!(a, b)
            },
            (ClientToServerTCPPacket::ClientDesire(a), ClientToServerTCPPacket::ClientDesire(b)) => {
                assert_eq!(a, b)
            },
            (ClientToServerTCPPacket::SessionID(a), ClientToServerTCPPacket::SessionID(b)) => {
                assert_eq!(a, b)
            },
            _ => panic!("variant changed"),
        }
    }
}

#[test]
fn server_packets_round_trip() {
    let cases = vec![
        ServerToClientTCPPacket::ServerShutdown,
        ServerToClientTCPPacket::ServerError("e".to_string()),
        ServerToClientTCPPacket::ServerDesire("d".to_string()),
        ServerToClientTCPPacket::LoginOrRegister,
        ServerToClientTCPPacket::InitializeUDPConnection(7),
    ];
    for p in cases {
        let frame = p.pack();
        let back = ServerToClientTCPPacket::unpack(&payload(&frame)).unwrap();
        let same = match (&p, &back) {
            (ServerToClientTCPPacket::ServerShutdown, ServerToClientTCPPacket::ServerShutdown) => true,
            (ServerToClientTCPPacket::ServerError(a), ServerToClientTCPPacket::ServerError(b)) => a == b,
            (ServerToClientTCPPacket::ServerDesire(a), ServerToClientTCPPacket::ServerDesire(b)) => a == b,
            (ServerToClientTCPPacket::LoginOrRegister, ServerToClientTCPPacket::LoginOrRegister) => true,
            (
                ServerToClientTCPPacket::InitializeUDPConnection(a),
                ServerToClientTCPPacket::InitializeUDPConnection(b),
            ) => a == b,
            _ => false,
        };
        assert!(same);
    }
}

#[test]
fn exact_bytes_of_a_session_id_frame() {
    let frame = ClientToServerTCPPacket::SessionID("ab".to_string()).pack();
    assert_eq!(
        frame,
        vec![0, 0, 0, 14, 0, 0, 0, 2, 0, 0, 0, 0, 0, 0, 0, 2, b'a', b'b']
    );
}

#[test]
fn exact_bytes_of_a_handle_frame() {
    let frame = ServerToClientTCPPacket::InitializeUDPConnection(0x0102).pack();
    assert_eq!(frame, vec![0, 0, 0, 12, 0, 0, 0, 4, 0, 0, 0, 0, 0, 0, 1, 2]);
}

#[test]
fn oversized_payload_gives_empty_frame() {
    let big = "x".repeat(MESSAGE_TO_SERVER_LIMIT);
    let frame = ClientToServerTCPPacket::ClientError(big).pack();
    assert_eq!(frame, vec![0, 0, 0, 0]);
}

#[test]
fn malformed_payloads_are_refused() {
    assert!(ClientToServerTCPPacket::unpack(&vec![]).is_err());
    assert!(ClientToServerTCPPacket::unpack(&vec![0, 0, 0, 9, 0, 0, 0, 0, 0, 0, 0, 0]).is_err());
    assert!(ClientToServerTCPPacket::unpack(&vec![0, 0, 0, 0, 0, 0, 0, 0, 0, 0, 0, 5, b'a']).is_err());
    assert!(ClientToServerTCPPacket::unpack(&vec![0, 0, 0, 2, 0, 0, 0, 0, 0, 0, 0, 1, 0xff]).is_err());
    assert!(ServerToClientTCPPacket::unpack(&vec![0, 0, 0, 5]).is_err());
}

#[test]
fn udp_packet_round_trip_and_header() {
    let mut d = ClientToServerUDPPacket::Initialization(42).pack().unwrap();
    assert_eq!(d.len(), 16 + 12);
    assert!(d[..16].iter().all(|b| *b == 0));
    d[0..8].copy_from_slice(&0x1122_3344_5566_7788u64.to_be_bytes());
    d[8..16].copy_from_slice(&99u64.to_be_bytes());
    assert_eq!(ClientToServerUDPPacket::unpackSession(&d), 0x1122_3344_5566_7788);
    assert_eq!(ClientToServerUDPPacket::unpackTime(&d), 99);
    match ClientToServerUDPPacket::unpack(&d).unwrap() {
        ClientToServerUDPPacket::Initialization(h) => assert_eq!(h, 42),
    }
}

fn stream() -> Vec<u8> {
    let mut s = Vec::new();
    s.extend(ClientToServerTCPPacket::SessionID("one".to_string()).pack());
    s.extend(ClientToServerTCPPacket::ClientDesire("two".to_string()).pack());
    s.extend(ClientToServerTCPPacket::ClientError(String::new()).pack());
    s
}

#[test]
fn byte_at_a_time_equals_one_chunk() {
    let s = stream();
    let mut whole = FrameReader::new();
    let all = whole.push(&s, 16384);
    let mut slow = FrameReader::new();
    let mut pieces = Vec::new();
    for b in &s {
        pieces.extend(slow.push(&[*b], 16384));
    }
    assert_eq!(all.len(), 3);
    assert_eq!(all, pieces);
    let mut mixed = FrameReader::new();
    let mut parts = Vec::new();
    for c in s.chunks(5) {
        parts.extend(mixed.push(c, 16384));
    }
    assert_eq!(all, parts);
}

#[test]
fn too_long_length_stops_the_reader() {
    let mut r = FrameReader::new();
    let out = r.push(&[0, 0, 0x40, 0x01, 1, 2, 3], 16384);
    assert!(out.is_empty());
    assert!(r.has_failed());
    assert!(r.push(&[0, 0, 0, 0], 16384).is_empty());
}

#[test]
fn frames_before_a_refused_length_come_out() {
    let mut r = FrameReader::new();
    let out = r.push(&[0, 0, 0, 1, 9, 0, 0, 0x40, 0x01], 16384);
    assert_eq!(out, vec![vec![9u8]]);
    assert!(r.has_failed());
}
