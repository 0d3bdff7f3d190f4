use websocket_server::client::{ClientState, Event, Interest, ParseStatus};
use websocket_server::frame::WebSocketFrame;
use websocket_server::server::{Registration, WebSocketServer, SERVER};

const KEY: [u8; 4] = [1, 2, 3, 4];

const UPGRADE: ParseStatus = ParseStatus { has_error: false, is_upgrade: true };

const NOTHING: ParseStatus = ParseStatus { has_error: false, is_upgrade: false };

fn masked_text(payload: &[u8]) -> Vec<u8> {
    let mut bytes = vec![0x81, 0x80 | payload.len() as u8];
    bytes.extend_from_slice(&KEY);
    let mut body = payload.to_vec();
    WebSocketFrame::apply_mask(KEY, &mut body);
    bytes.extend_from_slice(&body);
    bytes
}

/// Takes in a connection and brings it through the handshake.
fn open(server: &mut WebSocketServer, now: u64) -> usize {
    let token = server.accept(now).unwrap();
    {
        let client = server.clients.get_mut(&token).unwrap();
        assert!(client.handler.on_header_field(b"Upgrade"));
        assert!(client.handler.on_header_value(b"websocket"));
        assert!(client.handler.on_header_field(b"Sec-WebSocket-Key"));
        assert!(client.handler.on_header_value(b"dGhlIHNhbXBsZSBub25jZQ=="));
        assert!(!client.handler.on_headers_complete());
    }
    assert!(server.readable(token, b"", UPGRADE, now).is_empty());
    server.writable(token);
    let n = server.pending(token).unwrap().len();
    server.advance(token, n);
    assert_eq!(server.state(token), Some(ClientState::Connected));
    token
}

#[test]
fn a_new_registry_is_empty() {
    let server = WebSocketServer::new(1000, 100);
    assert_eq!(server.token_counter, 1);
    assert_eq!(server.len(), 0);
    assert_eq!(server.idle_timeout, 1000);
    assert_eq!(server.close_timeout, 100);
    assert!(!server.contains(SERVER));
    assert!(!server.contains(1));
    assert_eq!(server.state(2), None);
    assert_eq!(server.registration(2), Registration::Deregister);
}

#[test]
fn identifiers_are_given_out_once() {
    let mut server = WebSocketServer::new(1000, 100);
    let a = server.accept(0).unwrap();
    let b = server.accept(0).unwrap();
    assert_eq!(a, 2);
    assert_eq!(b, 3);
    assert_ne!(a, SERVER);
    assert_eq!(server.len(), 2);
    assert!(server.remove(a));
    assert!(!server.contains(a));
    let c = server.accept(0).unwrap();
    assert_eq!(c, 4);
    assert_eq!(server.len(), 2);
    assert_eq!(server.token_counter, 4);
}

#[test]
fn identifiers_run_out() {
    let mut server = WebSocketServer::new(1000, 100);
    server.token_counter = usize::MAX - 1;
    assert_eq!(server.accept(0), Some(usize::MAX));
    assert_eq!(server.accept(0), None);
    assert_eq!(server.len(), 1);
    assert_eq!(server.token_counter, usize::MAX);
}

#[test]
fn an_accepted_connection_is_registered_for_input() {
    let mut server = WebSocketServer::new(1000, 100);
    let token = server.accept(7).unwrap();
    assert_eq!(server.state(token), Some(ClientState::AwaitingHandshake));
    assert_eq!(
        server.registration(token),
        Registration::Renew(Interest { readable: true, writable: false })
    );
    assert_eq!(server.clients[&token].last_active, 7);
    assert_eq!(server.clients[&token].idle_timeout, 1000);
    assert_eq!(server.clients[&token].close_timeout, 100);
    assert_eq!(server.pending(token), Some(&[][..]));
}

#[test]
fn the_registration_follows_the_handshake() {
    let mut server = WebSocketServer::new(1000, 100);
    let token = server.accept(0).unwrap();
    {
        let client = server.clients.get_mut(&token).unwrap();
        client.handler.on_header_field(b"Upgrade");
        client.handler.on_header_value(b"websocket");
        client.handler.on_header_field(b"Sec-WebSocket-Key");
        client.handler.on_header_value(b"dGhlIHNhbXBsZSBub25jZQ==");
        client.handler.on_headers_complete();
    }
    server.readable(token, b"", UPGRADE, 5);
    assert_eq!(
        server.registration(token),
        Registration::Renew(Interest { readable: false, writable: true })
    );
    server.writable(token);
    assert_eq!(
        server.registration(token),
        Registration::Renew(Interest { readable: true, writable: true })
    );
    let pending = server.pending(token).unwrap().to_vec();
    assert!(pending.starts_with(b"HTTP/1.1 101 Switching Protocols\r\n"));
    assert!(pending.ends_with(b"Sec-WebSocket-Accept: s3pPLMBiTxaQ9kYGzzhZRbK+xOo=\r\nUpgrade: websocket\r\n\r\n"));
    server.advance(token, pending.len());
    assert_eq!(
        server.registration(token),
        Registration::Renew(Interest { readable: true, writable: false })
    );
}

#[test]
fn input_goes_to_its_connection_alone() {
    let mut server = WebSocketServer::new(1000, 100);
    let a = open(&mut server, 0);
    let b = open(&mut server, 0);
    let events = server.readable(a, &masked_text(b"hi"), NOTHING, 10);
    assert_eq!(events.len(), 1);
    match &events[0] {
        Event::Message { is_text, payload } => {
            assert!(*is_text);
            assert_eq!(payload, &b"hi".to_vec());
        },
        other => panic!("{:?}", other),
    }
    assert_eq!(server.clients[&a].last_active, 10);
    assert_eq!(server.clients[&b].last_active, 0);
    assert!(server.clients[&b].inbound.is_empty());
}

#[test]
fn events_for_no_connection_do_nothing() {
    let mut server = WebSocketServer::new(1000, 100);
    let a = open(&mut server, 0);
    assert!(server.readable(99, &masked_text(b"hi"), NOTHING, 10).is_empty());
    server.writable(99);
    server.advance(99, 3);
    assert!(!server.send(99, b"x", true));
    assert!(!server.close(99, 1000));
    assert!(!server.check_timeout(99, u64::MAX));
    assert!(!server.remove(99));
    assert_eq!(server.pending(99), None);
    assert_eq!(server.len(), 1);
    assert_eq!(server.state(a), Some(ClientState::Connected));
}

#[test]
fn send_asserts_the_interest_in_writing() {
    let mut server = WebSocketServer::new(1000, 100);
    let a = open(&mut server, 0);
    assert!(server.send(a, b"Hello", true));
    assert_eq!(
        server.pending(a).unwrap(),
        &[0x81, 0x05, 0x48, 0x65, 0x6c, 0x6c, 0x6f]
    );
    assert_eq!(
        server.registration(a),
        Registration::Renew(Interest { readable: true, writable: true })
    );
    server.advance(a, 4);
    assert_eq!(server.pending(a).unwrap(), &[0x6c, 0x6c, 0x6f]);
    assert_eq!(
        server.registration(a),
        Registration::Renew(Interest { readable: true, writable: true })
    );
    server.advance(a, 3);
    assert_eq!(
        server.registration(a),
        Registration::Renew(Interest { readable: true, writable: false })
    );
}

#[test]
fn send_before_the_handshake_is_refused() {
    let mut server = WebSocketServer::new(1000, 100);
    let a = server.accept(0).unwrap();
    assert!(!server.send(a, b"Hello", true));
    assert_eq!(server.pending(a).unwrap(), &[][..]);
}

#[test]
fn a_violation_keeps_the_registration_until_closed() {
    let mut server = WebSocketServer::new(1000, 100);
    let a = open(&mut server, 0);
    let events = server.readable(a, &[0x81, 0x01, b'x'], NOTHING, 1);
    assert!(events.is_empty());
    assert_eq!(server.state(a), Some(ClientState::ClosingSent));
    assert_eq!(server.pending(a).unwrap(), &[0x88, 0x02, 0x03, 0xea]);
    assert_eq!(
        server.registration(a),
        Registration::Renew(Interest { readable: true, writable: true })
    );
    server.advance(a, 4);
    assert!(!server.check_timeout(a, 101));
    assert!(server.check_timeout(a, 102));
    assert_eq!(server.state(a), Some(ClientState::Closed));
    assert_eq!(server.registration(a), Registration::Deregister);
    assert!(server.remove(a));
    assert_eq!(server.len(), 0);
}

#[test]
fn closing_through_the_registry() {
    let mut server = WebSocketServer::new(1000, 100);
    let a = open(&mut server, 0);
    assert!(server.close(a, 1000));
    assert!(!server.close(a, 1000));
    assert_eq!(server.state(a), Some(ClientState::ClosingSent));
    assert_eq!(server.pending(a).unwrap(), &[0x88, 0x02, 0x03, 0xe8]);
}

#[test]
fn idle_connections_are_closed_one_by_one() {
    let mut server = WebSocketServer::new(1000, 100);
    let a = open(&mut server, 0);
    let b = open(&mut server, 0);
    server.readable(b, &masked_text(b"still here"), NOTHING, 900);
    assert!(!server.check_timeout(a, 1000));
    assert!(server.check_timeout(a, 1001));
    assert!(!server.check_timeout(b, 1001));
    assert_eq!(server.registration(a), Registration::Deregister);
    assert_eq!(
        server.registration(b),
        Registration::Renew(Interest { readable: true, writable: false })
    );
    assert!(server.check_timeout(b, 1901));
}

#[test]
fn tokens_names_each_connection_once() {
    let mut server = WebSocketServer::new(1000, 100);
    assert!(server.tokens().is_empty());
    let a = server.accept(0).unwrap();
    let b = server.accept(0).unwrap();
    let c = server.accept(0).unwrap();
    assert!(server.remove(b));
    let mut tokens = server.tokens();
    tokens.sort();
    assert_eq!(tokens, vec![a, c]);
}

#[test]
fn the_sweep_closes_the_silent_and_spares_the_rest() {
    let mut server = WebSocketServer::new(1000, 100);
    let a = open(&mut server, 0);
    let b = open(&mut server, 0);
    let c = server.accept(400).unwrap();
    server.readable(b, &masked_text(b"still here"), NOTHING, 900);
    assert!(server.expire(1000).is_empty());
    let mut closed = server.expire(1401);
    closed.sort();
    assert_eq!(closed, vec![a, c]);
    assert_eq!(server.len(), 3);
    assert_eq!(server.state(a), Some(ClientState::Closed));
    assert_eq!(server.state(b), Some(ClientState::Connected));
    assert_eq!(server.state(c), Some(ClientState::Closed));
    assert_eq!(server.registration(a), Registration::Deregister);
    assert!(server.expire(1402).is_empty());
    assert_eq!(server.expire(1901), vec![b]);
}
