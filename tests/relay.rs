use udp_tunnel::client::{ClientAction, ClientRelay};
use udp_tunnel::codec::{encode_frame, FrameError};
use udp_tunnel::endpoint::{local_addr_same_family, Endpoint, IpAddress};
use udp_tunnel::server::{Session, SessionAction};

fn v4(a: u8, b: u8, c: u8, d: u8, port: u16) -> Endpoint {
    Endpoint { ip: IpAddress::V4(u32::from_be_bytes([a, b, c, d])), port }
}

/// Hands `bytes` to the client relay in reads as large as it allows and
/// returns the actions that they bring.
fn client_feed(relay: &mut ClientRelay, bytes: &[u8]) -> Vec<ClientAction> {
    let mut out = Vec::new();
    let mut at = 0;
    while at < bytes.len() {
        let n = relay.want().min(bytes.len() - at);
        assert!(n > 0);
        out.push(relay.on_stream_data(&bytes[at..at + n]));
        at += n;
    }
    out
}

/// Hands `bytes` to a session in reads of at most `chunk` bytes.
fn session_feed(session: &mut Session, bytes: &[u8], chunk: usize) -> Vec<SessionAction> {
    let mut out = Vec::new();
    let mut at = 0;
    while at < bytes.len() {
        let n = chunk.min(session.want()).min(bytes.len() - at);
        out.push(session.on_stream_data(&bytes[at..at + n]));
        at += n;
    }
    out
}

#[test]
fn first_datagram_connects_then_writes() {
    let server = v4(10, 0, 0, 1, 51820);
    let mut relay = ClientRelay::new(server);
    assert!(!relay.is_connected());
    assert_eq!(relay.want(), 0);
    match relay.on_local_datagram(v4(127, 0, 0, 1, 9000), &[1, 2, 3]) {
        ClientAction::Connect { server: s, frame } => {
            assert_eq!(s, server);
            assert_eq!(frame, vec![0, 3, 1, 2, 3]);
        }
        other => panic!("unexpected {:?}", other),
    }
    assert!(relay.is_connected());
    match relay.on_local_datagram(v4(127, 0, 0, 1, 9000), &[4]) {
        ClientAction::Write { frame } => assert_eq!(frame, vec![0, 1, 4]),
        other => panic!("unexpected {:?}", other),
    }
}

#[test]
fn idle_timeout_closes_and_next_datagram_reconnects() {
    let server = v4(10, 0, 0, 1, 51820);
    let mut relay = ClientRelay::new(server);
    relay.on_local_datagram(v4(127, 0, 0, 1, 9000), &[1]);
    assert!(matches!(relay.on_timeout(), ClientAction::Close));
    assert!(!relay.is_connected());
    match relay.on_local_datagram(v4(127, 0, 0, 1, 9000), &[5, 6]) {
        ClientAction::Connect { server: s, frame } => {
            assert_eq!(s, server);
            assert_eq!(frame, vec![0, 2, 5, 6]);
        }
        other => panic!("unexpected {:?}", other),
    }
    assert_eq!(relay.want(), 2);
}

#[test]
fn replies_go_to_latest_sender() {
    let a = v4(127, 0, 0, 1, 9000);
    let b = v4(127, 0, 0, 1, 9001);
    let mut relay = ClientRelay::new(v4(10, 0, 0, 1, 51820));
    relay.on_local_datagram(a, &[1]);
    relay.on_local_datagram(b, &[2]);
    let actions = client_feed(&mut relay, &[0, 2, 8, 9]);
    match actions.last().unwrap() {
        ClientAction::Deliver { to, payload } => {
            assert_eq!(*to, b);
            assert_ne!(*to, a);
            assert_eq!(payload, &vec![8, 9]);
        }
        other => panic!("unexpected {:?}", other),
    }
    relay.on_timeout();
    relay.on_local_datagram(b, &[3]);
    let actions = client_feed(&mut relay, &[0, 1, 7]);
    assert!(matches!(actions.last().unwrap(), ClientAction::Deliver { to, .. } if *to == b));
}

#[test]
fn send_failure_drops_connection_and_retries() {
    let mut relay = ClientRelay::new(v4(10, 0, 0, 1, 51820));
    relay.on_local_datagram(v4(127, 0, 0, 1, 9000), &[1]);
    assert!(matches!(relay.on_send_failed(), ClientAction::Close));
    assert!(!relay.is_connected());
    assert!(matches!(
        relay.on_local_datagram(v4(127, 0, 0, 1, 9000), &[1]),
        ClientAction::Connect { .. }
    ));
}

#[test]
fn stream_close_drops_connection_and_decoder() {
    let mut relay = ClientRelay::new(v4(10, 0, 0, 1, 51820));
    relay.on_local_datagram(v4(127, 0, 0, 1, 9000), &[1]);
    assert!(matches!(relay.on_stream_data(&[0]), ClientAction::Nothing));
    assert_eq!(relay.want(), 1);
    assert!(matches!(relay.on_stream_closed(), ClientAction::Close));
    assert!(!relay.is_connected());
    relay.on_local_datagram(v4(127, 0, 0, 1, 9000), &[1]);
    assert_eq!(relay.want(), 2);
}

#[test]
fn stream_data_without_connection_does_nothing() {
    let mut relay = ClientRelay::new(v4(10, 0, 0, 1, 51820));
    assert!(matches!(relay.on_stream_data(&[]), ClientAction::Nothing));
    assert!(!relay.is_connected());
}

#[test]
fn oversized_local_datagram_closes_connection() {
    let mut relay = ClientRelay::new(v4(10, 0, 0, 1, 51820));
    relay.on_local_datagram(v4(127, 0, 0, 1, 9000), &[1]);
    let big = vec![0u8; 65536];
    assert!(matches!(relay.on_local_datagram(v4(127, 0, 0, 1, 9000), &big), ClientAction::Close));
    assert!(!relay.is_connected());
}

#[test]
fn session_frames_datagrams_from_target() {
    let session = Session::new();
    match session.on_datagram(&[1, 2]) {
        SessionAction::Write { frame } => assert_eq!(frame, vec![0, 2, 1, 2]),
        other => panic!("unexpected {:?}", other),
    }
    assert!(matches!(
        session.on_datagram(&vec![0u8; 65536]),
        SessionAction::Fail(FrameError::TooLong)
    ));
}

#[test]
fn session_end_on_frame_boundary_is_clean() {
    let mut session = Session::new();
    let actions = session_feed(&mut session, &[0, 2, 5, 6], 1);
    assert!(matches!(actions.last().unwrap(), SessionAction::Send { payload } if *payload == vec![5, 6]));
    assert!(matches!(session.on_stream_end(), SessionAction::End));
}

#[test]
fn session_end_inside_length_prefix_fails() {
    let mut session = Session::new();
    let actions = session_feed(&mut session, &[0, 2, 5, 6, 0], 16);
    assert!(matches!(actions.last().unwrap(), SessionAction::Continue));
    assert!(matches!(
        session.on_stream_end(),
        SessionAction::Fail(FrameError::UnexpectedEof)
    ));
}

#[test]
fn failing_session_leaves_other_session_alone() {
    let mut failing = Session::new();
    let mut other = Session::new();
    session_feed(&mut failing, &[0, 5, 1], 8);
    session_feed(&mut other, &[0, 3, 1], 8);
    assert!(matches!(failing.on_stream_end(), SessionAction::Fail(_)));
    let actions = session_feed(&mut other, &[2, 3], 8);
    assert!(matches!(actions.last().unwrap(), SessionAction::Send { payload } if *payload == vec![1, 2, 3]));
    assert!(matches!(other.on_stream_end(), SessionAction::End));
}

#[test]
fn session_bind_address_matches_target_family() {
    let r = local_addr_same_family(&v4(192, 168, 1, 2, 51280));
    assert_eq!(r, Endpoint { ip: IpAddress::V4(0), port: 0 });
    let r = local_addr_same_family(&Endpoint { ip: IpAddress::V6(5), port: 7 });
    assert_eq!(r, Endpoint { ip: IpAddress::V6(1), port: 0 });
}

#[test]
fn datagram_travels_through_tunnel_and_back() {
    let server = v4(10, 0, 0, 1, 51820);
    let local = v4(127, 0, 0, 1, 9000);
    let mut relay = ClientRelay::new(server);
    let mut session = Session::new();
    let request: Vec<u8> = (0..100u8).collect();

    let frame = match relay.on_local_datagram(local, &request) {
        ClientAction::Connect { server: s, frame } => {
            assert_eq!(s, server);
            frame
        }
        other => panic!("unexpected {:?}", other),
    };
    assert_eq!(&frame[..2], &[0x00, 0x64]);
    assert_eq!(&frame[2..], &request[..]);

    let actions = session_feed(&mut session, &frame, 4096);
    match actions.last().unwrap() {
        SessionAction::Send { payload } => assert_eq!(payload, &request),
        other => panic!("unexpected {:?}", other),
    }

    let reply: Vec<u8> = (0..50u8).map(|b| b ^ 0xa5).collect();
    let back = match session.on_datagram(&reply) {
        SessionAction::Write { frame } => frame,
        other => panic!("unexpected {:?}", other),
    };
    assert_eq!(&back[..2], &[0x00, 0x32]);
    assert_eq!(back, encode_frame(&reply).unwrap());

    let actions = client_feed(&mut relay, &back);
    match actions.last().unwrap() {
        ClientAction::Deliver { to, payload } => {
            assert_eq!(*to, local);
            assert_eq!(payload, &reply);
        }
        other => panic!("unexpected {:?}", other),
    }
}
