use websockets::batched::Prioritized;
use websockets::boundary::UrlParts;
use websockets::secure::{TlsCertificate, TlsIdentity, TlsProtocol};
use websockets::websocket::frame::Frame;
use websockets::websocket::handshake::{answer_matches, Handshake, HandshakeResponse};
use websockets::websocket::message::{Fragmentation, Message};
use websockets::websocket::parsed_addr::ParsedAddr;
use websockets::websocket::split::write::{ReadyAction, ReadyEvent};
use websockets::websocket::step::Step;
use websockets::websocket::{ReceiveAction, ReceiveEvent};
use websockets::{WebSocket, WebSocketBuilder, WebSocketError};

fn pair(name: &str, value: &str) -> (String, String) {
    (name.to_string(), value.to_string())
}

fn addr(scheme: &str) -> ParsedAddr {
    ParsedAddr {
        scheme: scheme.to_string(),
        host: "example.org".to_string(),
        port: 8080,
        path: "/chat?x=1".to_string(),
    }
}

fn response(status: u16, headers: &[(&str, &str)]) -> HandshakeResponse {
    HandshakeResponse {
        status,
        headers: headers.iter().map(|(n, v)| (n.to_string(), v.as_bytes().to_vec())).collect(),
    }
}

/// The example of the protocol's own definition.
fn example() -> Handshake {
    let key = "dGhlIHNhbXBsZSBub25jZQ==".to_string();
    Handshake::with_key(&addr("ws"), &vec![], &vec![], key)
}

const ACCEPT: &str = "s3pPLMBiTxaQ9kYGzzhZRbK+xOo=";

#[test]
fn urls_are_parsed() {
    assert_eq!(
        ParsedAddr::parse("ws://example.org").unwrap(),
        ParsedAddr {
            scheme: "ws".to_string(),
            host: "example.org".to_string(),
            port: 80,
            path: "/".to_string(),
        }
    );
    assert_eq!(
        ParsedAddr::parse("WSS://Example.org:8443/a/b?q=1#frag").unwrap(),
        ParsedAddr {
            scheme: "wss".to_string(),
            host: "example.org".to_string(),
            port: 8443,
            path: "/a/b?q=1".to_string(),
        }
    );
    assert_eq!(ParsedAddr::parse("wss://example.org/").unwrap().port, 443);
    assert!(matches!(ParsedAddr::parse("example.org"), Err(WebSocketError::ParseError(_))));
    assert!(matches!(ParsedAddr::parse("http://example.org"), Err(WebSocketError::SchemeError)));
}

#[test]
fn parts_of_urls_are_checked() {
    let parts = |scheme: &str, host: Option<&str>, port: Option<u16>| UrlParts {
        scheme: scheme.to_string(),
        host: host.map(str::to_string),
        port,
        path: "/".to_string(),
        query: None,
    };
    let check = |parts: UrlParts| ParsedAddr::from_parts(parts);
    assert!(matches!(check(parts("ftp", None, None)), Err(WebSocketError::SchemeError)));
    assert!(matches!(check(parts("ws", None, None)), Err(WebSocketError::HostError)));
    assert!(matches!(check(parts("ws", Some("h"), None)), Err(WebSocketError::PortError)));
    assert_eq!(check(parts("ws", Some("h"), Some(1))).unwrap().authority(), "h:1");
}

#[test]
fn schemes_decide_on_encryption() {
    assert_eq!(addr("ws").is_secure().unwrap(), false);
    assert_eq!(addr("wss").is_secure().unwrap(), true);
    assert!(matches!(addr("http").is_secure(), Err(WebSocketError::SchemeError)));
    assert_eq!(addr("ws").http_uri(), "http://example.org:8080/chat?x=1");
    assert_eq!(addr("wss").http_uri(), "https://example.org:8080/chat?x=1");
    assert_eq!(addr("ws").clone(), addr("ws"));
}

#[test]
fn requests_are_exact() {
    let handshake = Handshake::with_key(
        &addr("ws"),
        &vec![pair("Origin", "me"), pair("X", "y")],
        &vec!["wamp".to_string(), "chat".to_string()],
        "KEY".to_string(),
    );
    let request = handshake.request();
    assert_eq!(request.uri, "http://example.org:8080/chat?x=1");
    assert_eq!(
        request.headers,
        vec![
            pair("host", "example.org:8080"),
            pair("upgrade", "websocket"),
            pair("connection", "Upgrade"),
            pair("sec-websocket-key", "KEY"),
            pair("sec-websocket-version", "13"),
            pair("sec-websocket-protocol", "wamp, chat"),
            pair("Origin", "me"),
            pair("X", "y"),
        ]
    );
    assert_eq!(example().request().headers.len(), 5);
}

#[test]
fn keys_are_random_and_encoded() {
    let key = |handshake: &Handshake| handshake.request().headers[3].1.clone();
    let first = key(&Handshake::new(&addr("ws"), &vec![], &vec![]));
    let second = key(&Handshake::new(&addr("ws"), &vec![], &vec![]));
    assert_ne!(first, second);
    assert_eq!(base64::decode(&first).unwrap().len(), 16);
    assert_ne!(base64::decode(&first).unwrap(), vec![0; 16]);
}

#[test]
fn the_right_answer_is_accepted() {
    let good = [
        ("Upgrade", "WebSocket"),
        ("Connection", "upgrade"),
        ("Sec-WebSocket-Accept", ACCEPT),
    ];
    assert!(example().accepts(&response(101, &good)));
    assert!(!example().accepts(&response(200, &good)));
    assert!(!example().accepts(&response(101, &good[..2])));
    assert!(!example().accepts(&response(101, &good[1..])));
    assert!(!example().accepts(&response(101, &[good[0], good[2]])));
    let other = Handshake::with_key(&addr("ws"), &vec![], &vec![], "KEY".to_string());
    assert!(!other.accepts(&response(101, &good)));
}

#[test]
fn wrong_answers_are_not_accepted() {
    let with = |upgrade: &str, connection: &str, accept: &str| {
        example().accepts(&response(
            101,
            &[
                ("upgrade", upgrade),
                ("connection", connection),
                ("sec-websocket-accept", accept),
            ],
        ))
    };
    assert!(with("websocket", "Upgrade", ACCEPT));
    assert!(!with("websockets", "Upgrade", ACCEPT));
    assert!(!with("websocket", "keep-alive, Upgrade", ACCEPT));
    assert!(!with("websocket", "Upgrade", "not base64"));
    assert!(!with("websocket", "Upgrade", "AAAA"));
    let first_wins = response(
        101,
        &[
            ("upgrade", "other"),
            ("upgrade", "websocket"),
            ("connection", "Upgrade"),
            ("sec-websocket-accept", ACCEPT),
        ],
    );
    assert!(!first_wins.upgrades());
    assert!(!example().accepts(&first_wins));
    let mut not_text = response(101, &[("connection", "Upgrade")]);
    not_text.headers.push(("upgrade".to_string(), vec![0xff; 9]));
    assert!(!not_text.upgrades());
}

#[test]
fn answers_are_compared() {
    assert!(answer_matches(&Some(vec![1, 2]), &vec![1, 2]));
    assert!(!answer_matches(&Some(vec![1]), &vec![1, 2]));
    assert!(!answer_matches(&None, &vec![]));
}

#[test]
fn refused_handshakes_tell_the_response() {
    let refused = response(403, &[("x", "y")]);
    assert_eq!(refused.header("X"), Some(&b"y"[..]));
    assert_eq!(refused.header("z"), None);
    match refused.into_error("403 Forbidden".to_string(), b"no".to_vec()) {
        WebSocketError::HandshakeFailedError { status_code, headers, body } => {
            assert_eq!(status_code, "403 Forbidden");
            assert_eq!(headers, vec![("x".to_string(), b"y".to_vec())]);
            assert_eq!(body, b"no".to_vec());
        }
        other => panic!("{:?}", other),
    }
}

#[test]
fn builders_collect_headers_and_subprotocols() {
    let builder = WebSocket::builder()
        .add_header("A", "1")
        .add_header("B", "2")
        .add_header("A", "3")
        .add_header("a", "4")
        .remove_header("A")
        .add_subprotocol("x")
        .add_subprotocol("y")
        .remove_subprotocol("x")
        .remove_subprotocol("z");
    let request = builder.handshake(&addr("ws")).request();
    assert_eq!(
        request.headers[5..],
        [pair("sec-websocket-protocol", "y"), pair("B", "2"), pair("a", "4")]
    );
}

#[test]
fn builders_collect_tls_options() {
    let options = WebSocketBuilder::new();
    let options = options.tls_options();
    assert!(!options.accept_invalid_certs && !options.accept_invalid_hostnames);
    assert!(options.root_certificates.is_empty() && !options.disable_built_in_roots);
    assert!(options.identity.is_none() && options.use_sni);
    assert_eq!(options.max_protocol_version, None);
    assert_eq!(options.min_protocol_version, Some(TlsProtocol::Tlsv10));

    let builder = WebSocket::builder()
        .fragmentation(Fragmentation::Disabled)
        .tls_danger_accept_invalid_certs(true)
        .tls_danger_accept_invalid_hostnames(true)
        .tls_add_root_certificate(TlsCertificate { der: vec![1] })
        .tls_add_root_certificate(TlsCertificate { der: vec![2] })
        .tls_disable_built_in_roots(true)
        .tls_identity(TlsIdentity { pkcs12: vec![3], password: "p".to_string() })
        .tls_max_protocol_version(Some(TlsProtocol::Tlsv12))
        .tls_min_protocol_version(None)
        .tls_use_sni(false);
    let options = builder.tls_options();
    assert!(options.accept_invalid_certs && options.accept_invalid_hostnames);
    assert_eq!(
        options.root_certificates,
        vec![TlsCertificate { der: vec![1] }, TlsCertificate { der: vec![2] }]
    );
    assert!(options.disable_built_in_roots && !options.use_sni);
    assert_eq!(options.identity.as_ref().unwrap().pkcs12, vec![3]);
    assert_eq!(options.max_protocol_version, Some(TlsProtocol::Tlsv12));
    assert_eq!(options.min_protocol_version, None);
}

#[test]
fn the_response_is_kept() {
    let mut ws = WebSocket::builder().connection(());
    assert_eq!(ws.accepted_subprotocol(), &None);
    assert_eq!(ws.handshake_response_headers(), &None);
    let mut head = response(101, &[("sec-websocket-protocol", "wamp")]);
    head.headers.push(("binary".to_string(), vec![0xff]));
    ws.record_response(&head);
    assert_eq!(ws.accepted_subprotocol(), &Some("wamp".to_string()));
    assert_eq!(
        ws.handshake_response_headers(),
        &Some(vec![pair("sec-websocket-protocol", "wamp")])
    );
    let (read, write) = ws.split();
    let ws = WebSocket::join(read, write);
    assert_eq!(ws.accepted_subprotocol(), &None);
}

#[test]
fn a_ping_is_answered_across_the_halves() {
    let mut ws = WebSocket::builder().connection(());
    let inner = ws.inner_mut();
    assert!(matches!(inner.read.on_frame(Frame::ping(Some(vec![5]))), Step::Pending));
    assert!(matches!(inner.write.poll_ready(ReadyEvent::Begin), ReadyAction::PollStream));
    match inner.write.poll_ready(ReadyEvent::StreamReady) {
        ReadyAction::StartSend { frame, closing } => {
            assert_eq!(frame, Frame::pong(Some(vec![5])));
            assert!(!closing);
        }
        other => panic!("{:?}", other),
    }
}

#[test]
fn messages_are_handed_out_after_the_flush() {
    let mut ws = WebSocket::builder().connection(());
    let inner = ws.inner_mut();
    assert!(matches!(inner.poll_next(ReceiveEvent::Begin), ReceiveAction::PollRead));
    let step = inner.read.on_frame(Frame::binary(vec![1]));
    assert!(matches!(
        inner.poll_next(ReceiveEvent::ReadPolled(step)),
        ReceiveAction::FlushEvents
    ));
    assert!(matches!(inner.poll_next(ReceiveEvent::Begin), ReceiveAction::FlushEvents));
    assert!(matches!(
        inner.poll_next(ReceiveEvent::Flushed(Err(WebSocketError::ChannelError))),
        ReceiveAction::Return(Step::Ready(Some(Err(WebSocketError::ChannelError))))
    ));
    match inner.poll_next(ReceiveEvent::Flushed(Ok(()))) {
        ReceiveAction::Return(Step::Ready(Some(Ok(message)))) => {
            assert_eq!(message, Message::Binary(vec![1]))
        }
        other => panic!("{:?}", other),
    }
    assert!(matches!(
        inner.poll_next(ReceiveEvent::ReadPolled(Step::Pending)),
        ReceiveAction::FlushEvents
    ));
    assert!(matches!(
        inner.poll_next(ReceiveEvent::Flushed(Ok(()))),
        ReceiveAction::Return(Step::Pending)
    ));
    assert!(matches!(
        inner.poll_next(ReceiveEvent::ReadPolled(Step::Ready(None))),
        ReceiveAction::FlushEvents
    ));
    assert!(matches!(
        inner.poll_next(ReceiveEvent::Flushed(Ok(()))),
        ReceiveAction::Return(Step::Ready(None))
    ));
    assert!(matches!(
        inner.poll_next(ReceiveEvent::ReadPolled(Step::Ready(Some(Err(
            WebSocketError::PayloadTooLarge
        ))))),
        ReceiveAction::Return(Step::Ready(Some(Err(WebSocketError::PayloadTooLarge))))
    ));
}

#[test]
fn closing_catches_what_is_left() {
    let mut ws = WebSocket::builder().connection(());
    let stream = ws.inner_mut().write.stream_mut();
    assert_eq!(
        stream.start_send_prioritized(Prioritized(Frame::close(None))),
        Some(Frame::close(None))
    );
    let mut frames = ws.close_catching();
    assert!(matches!(
        frames.on_frame(Frame::binary(vec![1])),
        Step::Ready(Some(Ok(Message::Binary(bytes)))) if bytes == vec![1]
    ));
}
