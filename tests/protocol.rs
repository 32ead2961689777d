use gameserver::packet::{ClientToServerTCPPacket, ClientToServerUDPPacket, ServerToClientTCPPacket};
use gameserver::player::Player;
use gameserver::server::{
    mint_token, DatagramResult, DisconnectionReason, DisconnectionSource, Server, ServerState,
};
use gameserver::tcp_connection::{TCPConnection, TCPConnectionStage};
use gameserver::udp_connection::PeerAddress;

fn peer() -> PeerAddress {
    PeerAddress { octets: vec![127, 0, 0, 1], port: 5000 }
}

/// The messages queued on a connection, decoded.
fn queued(c: &TCPConnection) -> Vec<ServerToClientTCPPacket> {
    c.sendQueue
        .iter()
        .map(|f| ServerToClientTCPPacket::unpack(&f[4..].to_vec()).unwrap())
        .collect()
}

/// Reads a chunk and handles every frame it completes, as the reactor does.
fn feed(s: &mut Server, h: usize, chunk: &[u8], now: i64) -> Vec<Vec<u8>> {
    let mut requests = Vec::new();
    for frame in s.readTCPBytes(h, chunk) {
        if let Some(r) = s.handleTCPFrame(h, &frame, now) {
            requests.push(r);
        }
    }
    requests
}

fn server_with_connection() -> (Server, usize) {
    let mut s = Server::new(8, 8, 1000);
    assert!(s.reportReady());
    assert!(s.reportReady());
    assert!(s.state == ServerState::Processing);
    let h = s.processAccept(1000).unwrap();
    (s, h)
}

fn handshake_to_udp(s: &mut Server, h: usize) {
    let req = feed(s, h, &ClientToServerTCPPacket::SessionID("tok".to_string()).pack(), 1000);
    assert_eq!(req.len(), 1);
    s.onIdentityResponse(h, 200, b"userID = 5\nuserName = \"bob\"", 1001);
}

fn init_datagram(h: usize, token: u64) -> Vec<u8> {
    let mut d = ClientToServerUDPPacket::Initialization(h).pack().unwrap();
    d[0..8].copy_from_slice(&token.to_be_bytes());
    d
}

#[test]
fn empty_session_id_disconnects_with_server_error() {
    let (mut s, h) = server_with_connection();
    let req = feed(&mut s, h, &ClientToServerTCPPacket::SessionID(String::new()).pack(), 1000);
    assert!(req.is_empty());
    let c = s.getSafeTCPConnection(h).unwrap();
    assert!(!c.isActive);
    match &c.stage {
        TCPConnectionStage::Disconnecting(DisconnectionReason::ServerError(m)) => {
            assert_eq!(m, "no sessionID")
        },
        _ => panic!("not disconnected"),
    }
    match queued(c).as_slice() {
        [ServerToClientTCPPacket::ServerError(m)] => assert_eq!(m, "no sessionID"),
        _ => panic!("no farewell"),
    }
}

#[test]
fn session_id_starts_identity_request() {
    let (mut s, h) = server_with_connection();
    let req = feed(&mut s, h, &ClientToServerTCPPacket::SessionID("abc".to_string()).pack(), 1000);
    assert_eq!(
        String::from_utf8(req[0].clone()).unwrap(),
        "GET /getUserIDAndName_sessionID=abc HTTP/1.1\r\nHost: 89.110.48.1:1941\r\n\r\n"
    );
    assert!(matches!(
        s.getSafeTCPConnection(h).unwrap().stage,
        TCPConnectionStage::LoadingPlayerDataFromMasterServer(1010)
    ));
}

#[test]
fn accepted_identity_moves_to_udp_handshake() {
    let (mut s, h) = server_with_connection();
    handshake_to_udp(&mut s, h);
    let c = s.getSafeTCPConnection(h).unwrap();
    match &c.stage {
        TCPConnectionStage::UDPConnectionInitialization(deadline, id, name) => {
            assert_eq!(*deadline, 1006);
            assert_eq!(*id, 5);
            assert_eq!(name, "bob");
        },
        _ => panic!("wrong stage"),
    }
    match queued(c).as_slice() {
        [ServerToClientTCPPacket::InitializeUDPConnection(x)] => assert_eq!(*x, h),
        _ => panic!("handle not sent"),
    }
}

#[test]
fn identity_error_answer_disconnects() {
    let (mut s, h) = server_with_connection();
    feed(&mut s, h, &ClientToServerTCPPacket::SessionID("tok".to_string()).pack(), 1000);
    s.onIdentityResponse(h, 200, b"Error: unknown", 1001);
    let c = s.getSafeTCPConnection(h).unwrap();
    assert!(!c.isActive);
    assert!(matches!(
        c.stage,
        TCPConnectionStage::Disconnecting(DisconnectionReason::ServerError(_))
    ));
}

#[test]
fn identity_failure_code_falls_back_to_login() {
    let (mut s, h) = server_with_connection();
    feed(&mut s, h, &ClientToServerTCPPacket::SessionID("tok".to_string()).pack(), 1000);
    s.onIdentityResponse(h, 500, b"", 1001);
    let c = s.getSafeTCPConnection(h).unwrap();
    assert!(matches!(c.stage, TCPConnectionStage::LoginOrRegister(1011, 0)));
    assert!(matches!(queued(c).as_slice(), [ServerToClientTCPPacket::LoginOrRegister]));
}

#[test]
fn udp_initialization_creates_one_player() {
    let (mut s, h) = server_with_connection();
    handshake_to_udp(&mut s, h);
    let d = init_datagram(h, 0);
    assert!(matches!(s.processDatagram(&d, peer(), 77), DatagramResult::Accepted));
    assert!(matches!(s.getSafeTCPConnection(h).unwrap().stage, TCPConnectionStage::Playing));
    let p = s.getSafePlayer(h).unwrap();
    assert!(p.isActive);
    assert_eq!(p.userID, 5);
    assert_eq!(p.userName, "bob");
    let token = s.sessions[h];
    assert_eq!(token, mint_token(77, h));
    assert_eq!(s.getSafeUDPConnection(h).unwrap().session, token);
    // A repeated handshake changes nothing.
    assert!(matches!(s.processDatagram(&d, peer(), 99), DatagramResult::Accepted));
    assert_eq!(s.sessions[h], token);
}

#[test]
fn udp_initialization_before_identity_is_refused() {
    let (mut s, h) = server_with_connection();
    let d = init_datagram(h, 0);
    assert!(matches!(s.processDatagram(&d, peer(), 1), DatagramResult::AcceptError(_)));
    assert!(s.getSafePlayer(h).is_none());
    assert_eq!(s.sessions[h], 0);
}

#[test]
fn udp_handle_out_of_range_is_refused() {
    let (mut s, _) = server_with_connection();
    let d = init_datagram(100, 0);
    assert!(matches!(s.processDatagram(&d, peer(), 1), DatagramResult::AcceptError(_)));
}

#[test]
fn spoofed_token_is_discarded() {
    let (mut s, h) = server_with_connection();
    handshake_to_udp(&mut s, h);
    s.processDatagram(&init_datagram(h, 0), peer(), 77);
    let token = s.sessions[h];
    let forged = token ^ (1u64 << 40);
    assert_eq!(forged & 0xFFFF, h as u64);
    let d = init_datagram(h, forged);
    assert!(matches!(s.processDatagram(&d, peer(), 5), DatagramResult::Discarded));
    assert_eq!(s.sessions[h], token);
    assert!(s.getSafePlayer(h).unwrap().isActive);
    let good = init_datagram(h, token);
    assert!(matches!(s.processDatagram(&good, peer(), 5), DatagramResult::Delivered));
}

#[test]
fn short_datagram_is_dropped() {
    let (mut s, _) = server_with_connection();
    assert!(matches!(s.processDatagram(&vec![0u8; 15], peer(), 1), DatagramResult::Dropped));
}

#[test]
fn player_disconnect_twice_fans_out_once() {
    let mut p = Player::new(3, 9, "ann".to_string());
    assert!(p.disconnect(DisconnectionReason::Hup));
    assert!(!p.isActive);
    assert!(!p.disconnect(DisconnectionReason::Hup));
    assert!(!p.isActive);
}

#[test]
fn server_player_disconnect_is_idempotent() {
    let (mut s, h) = server_with_connection();
    handshake_to_udp(&mut s, h);
    s.processDatagram(&init_datagram(h, 0), peer(), 77);
    s.disconnectPlayer(h, DisconnectionReason::ServerDesire("kick".to_string()));
    assert!(!s.getSafePlayer(h).unwrap().isActive);
    let c = s.getSafeTCPConnection(h).unwrap();
    assert!(!c.isActive);
    assert_eq!(queued(c).len(), 1);
    assert!(s.getSafeUDPConnection(h).unwrap().shouldReset);
    s.disconnectPlayer(h, DisconnectionReason::ServerDesire("again".to_string()));
    let c = s.getSafeTCPConnection(h).unwrap();
    match queued(c).as_slice() {
        [ServerToClientTCPPacket::ServerDesire(m)] => assert_eq!(m, "kick"),
        _ => panic!("second disconnect had an effect"),
    }
}

#[test]
fn waiting_for_session_id_times_out() {
    let (mut s, h) = server_with_connection();
    assert!(s.processTCPTickAt(1005).is_empty());
    assert!(s.getSafeTCPConnection(h).unwrap().isActive);
    s.processTCPTickAt(1010);
    let c = s.getSafeTCPConnection(h).unwrap();
    assert!(!c.isActive);
    assert!(matches!(
        c.stage,
        TCPConnectionStage::Disconnecting(DisconnectionReason::ServerDesire(_))
    ));
    // Nothing it sends is handled any more.
    let req = feed(&mut s, h, &ClientToServerTCPPacket::SessionID("late".to_string()).pack(), 1011);
    assert!(req.is_empty());
    assert!(matches!(
        s.getSafeTCPConnection(h).unwrap().stage,
        TCPConnectionStage::Disconnecting(_)
    ));
}

#[test]
fn shutdown_says_farewell_and_empties_the_table() {
    let mut s = Server::new(8, 8, 0);
    s.reportReady();
    s.reportReady();
    let a = s.processAccept(0).unwrap();
    let b = s.processAccept(0).unwrap();
    let c = s.processAccept(0).unwrap();
    assert!(s.stop());
    assert!(!s.stop());
    assert!(s.state == ServerState::Shutdown);
    assert_eq!(s.shutdownPlan(DisconnectionSource::TCP, false), (true, false));
    s.sendAbschiedMessages();
    for h in [a, b, c] {
        let conn = s.getSafeTCPConnection(h).unwrap();
        assert!(matches!(queued(conn).as_slice(), [ServerToClientTCPPacket::ServerShutdown]));
        // Drain the farewell as the socket would.
        let mut written: Vec<u8> = Vec::new();
        loop {
            let out = s.tcpOutput(h);
            if out.is_empty() {
                break;
            }
            written.extend(out.iter());
            s.tcpWrote(h, out.len());
        }
        assert_eq!(written, ServerToClientTCPPacket::ServerShutdown.pack());
    }
    s.reregisterConnections();
    let removed = s.checkTCPConnections(100);
    assert_eq!(removed.len(), 3);
    assert!(s.tcpConnections.is_empty());
    let closed = s.closeTCPConnections();
    assert!(closed.is_empty());
}

#[test]
fn client_desire_resets_without_farewell() {
    let (mut s, h) = server_with_connection();
    feed(&mut s, h, &ClientToServerTCPPacket::ClientDesire("bye".to_string()).pack(), 1000);
    let c = s.getSafeTCPConnection(h).unwrap();
    assert!(c.shouldReset);
    assert!(queued(c).is_empty());
}

#[test]
fn oversized_length_is_a_fatal_error() {
    let (mut s, h) = server_with_connection();
    feed(&mut s, h, &[0, 0, 0x40, 0x01], 1000);
    let c = s.getSafeTCPConnection(h).unwrap();
    assert!(c.shouldReset);
    assert!(queued(c).is_empty());
    match &c.stage {
        TCPConnectionStage::Disconnecting(DisconnectionReason::FatalError(m)) => {
            assert_eq!(m, "Message length is too large")
        },
        _ => panic!("not disconnected"),
    }
}

#[test]
fn fatal_error_wins_over_farewell() {
    let (mut s, h) = server_with_connection();
    s.disconnectTCPConnection(h, DisconnectionReason::ServerDesire("x".to_string()));
    assert!(!s.getSafeTCPConnection(h).unwrap().shouldReset);
    s.disconnectTCPConnection(h, DisconnectionReason::FatalError("socket".to_string()));
    let c = s.getSafeTCPConnection(h).unwrap();
    assert!(c.shouldReset);
    assert!(matches!(c.stage, TCPConnectionStage::Disconnecting(DisconnectionReason::FatalError(_))));
}

#[test]
fn queued_disconnects_apply_on_the_tick() {
    let (mut s, h) = server_with_connection();
    s.queueDisconnectTCPConnection(h, DisconnectionReason::Hup);
    assert!(s.getSafeTCPConnection(h).unwrap().isActive);
    s.disconnectTCPConnectionsFromList();
    assert!(s.disconnectTCPConnectionsList.is_empty());
    assert!(!s.getSafeTCPConnection(h).unwrap().isActive);
}

#[test]
fn udp_disconnect_reaches_player_and_stream() {
    let (mut s, h) = server_with_connection();
    handshake_to_udp(&mut s, h);
    s.processDatagram(&init_datagram(h, 0), peer(), 77);
    s.queueDisconnectUDPConnection(h, DisconnectionReason::Hup);
    s.disconnectUDPConnectionsFromList();
    assert!(s.getSafeUDPConnection(h).unwrap().shouldReset);
    assert!(!s.getSafePlayer(h).unwrap().isActive);
    assert!(!s.getSafeTCPConnection(h).unwrap().isActive);
    s.checkUDPConnections();
    assert!(s.getSafeUDPConnection(h).is_none());
    assert_eq!(s.sessions[h], 0);
}

#[test]
fn sweep_removes_stream_and_player() {
    let (mut s, h) = server_with_connection();
    handshake_to_udp(&mut s, h);
    s.processDatagram(&init_datagram(h, 0), peer(), 77);
    s.disconnectTCPConnection(h, DisconnectionReason::Hup);
    let removed = s.checkTCPConnections(1002);
    assert_eq!(removed, vec![h]);
    assert!(s.getSafeTCPConnection(h).is_none());
    assert!(s.getSafePlayer(h).is_none());
}

#[test]
fn undecodable_frame_disconnects_with_generic_error() {
    let (mut s, h) = server_with_connection();
    feed(&mut s, h, &[0, 0, 0, 4, 0, 0, 0, 9], 1000);
    let c = s.getSafeTCPConnection(h).unwrap();
    match queued(c).as_slice() {
        [ServerToClientTCPPacket::ServerError(m)] => assert_eq!(m, "deserialization error"),
        _ => panic!("no farewell"),
    }
}

#[test]
fn second_session_id_is_unexpected() {
    let (mut s, h) = server_with_connection();
    feed(&mut s, h, &ClientToServerTCPPacket::SessionID("a".to_string()).pack(), 1000);
    feed(&mut s, h, &ClientToServerTCPPacket::SessionID("b".to_string()).pack(), 1000);
    let c = s.getSafeTCPConnection(h).unwrap();
    match queued(c).as_slice() {
        [ServerToClientTCPPacket::ServerError(m)] => {
            assert_eq!(m, "unexpected ClientToServerTCPPacket::Session")
        },
        _ => panic!("no farewell"),
    }
}

#[test]
fn reregister_reports_interest_and_resets_after_farewell() {
    let (mut s, h) = server_with_connection();
    feed(&mut s, h, &[], 1000);
    let r = s.reregisterConnections();
    assert_eq!(r.len(), 1);
    assert_eq!(r[0].0, h);
    assert!(r[0].1.readable && !r[0].1.writable);
    assert!(s.reregisterConnections().is_empty());
    s.disconnectTCPConnection(h, DisconnectionReason::ServerDesire("bye".to_string()));
    let r = s.reregisterConnections();
    assert!(!r[0].1.readable && r[0].1.writable);
    loop {
        let out = s.tcpOutput(h);
        if out.is_empty() {
            break;
        }
        s.tcpWrote(h, out.len());
    }
    assert!(s.reregisterConnections().is_empty());
    assert!(s.getSafeTCPConnection(h).unwrap().shouldReset);
}

#[test]
fn disconnects_are_recorded_once_with_reason_and_source() {
    let (mut s, h) = server_with_connection();
    handshake_to_udp(&mut s, h);
    s.processDatagram(&init_datagram(h, 0), peer(), 77);
    s.takeDisconnectLog();
    s.disconnectPlayer(h, DisconnectionReason::ServerDesire("kick".to_string()));
    s.disconnectPlayer(h, DisconnectionReason::ServerDesire("again".to_string()));
    s.disconnectTCPConnection(h, DisconnectionReason::Hup);
    let log = s.takeDisconnectLog();
    assert_eq!(log.len(), 1);
    assert_eq!(log[0].0, h);
    assert!(log[0].1 == DisconnectionSource::Player);
    assert!(matches!(&log[0].2, DisconnectionReason::ServerDesire(m) if m == "kick"));
    assert!(s.takeDisconnectLog().is_empty());
}

#[test]
fn token_carries_handle_and_nonzero_nonce() {
    assert_eq!(mint_token(0, 3), 0x1_0003);
    assert_eq!(mint_token(0xFFFF_FFFF_FFFE, 1), 0x1_0001);
    assert_eq!(mint_token(5, 0), 6 << 16);
}

#[test]
fn state_machine_reports() {
    let mut s = Server::new(1, 1, 0);
    s.reportError(DisconnectionSource::UDP);
    assert!(!s.reportReady());
    assert!(s.state == ServerState::UDPError);
    assert_eq!(s.shutdownPlan(DisconnectionSource::TCP, false), (false, false));
    assert_eq!(s.shutdownPlan(DisconnectionSource::UDP, true), (false, true));
}

#[test]
fn full_table_refuses_connections() {
    let mut s = Server::new(1, 1, 0);
    assert_eq!(s.processAccept(0), Some(0));
    assert_eq!(s.processAccept(0), None);
}
