use websockets::error::InvalidFrameReason;
use websockets::ops::{close_frame, CloseOutcome, ClosePayload, ClosingFrames, Status};
use websockets::websocket::frame::Frame;
use websockets::websocket::message::{IncompleteMessage, Message};
use websockets::websocket::split::read::WebSocketReadHalf;
use websockets::websocket::step::Step;
use websockets::{WebSocket, WebSocketError};

const NAMED: [(u16, Status); 12] = [
    (1000, Status::NormalClosure),
    (1001, Status::GoingAway),
    (1002, Status::ProtocolError),
    (1003, Status::UnacceptableData),
    (1005, Status::MissingStatusCode),
    (1006, Status::AbnormalShutdown),
    (1007, Status::InvalidData),
    (1008, Status::PolicyViolation),
    (1009, Status::MessageTooLarge),
    (1010, Status::InsufficientExtensions),
    (1011, Status::ServerError),
    (1015, Status::TlsFailure),
];

fn closing() -> ClosingFrames {
    let (event_sender, _) = flume::unbounded();
    let (_, pong_receiver) = flume::unbounded();
    ClosingFrames::new(WebSocketReadHalf::new(event_sender, pong_receiver))
}

fn bad_code(error: WebSocketError) -> bool {
    matches!(error, WebSocketError::InvalidFrame(InvalidFrameReason::BadCloseCode))
}

#[test]
fn codes_and_statuses() {
    for code in 0..=u16::MAX {
        let expected = match NAMED.iter().find(|(c, _)| *c == code) {
            Some((_, status)) => Some(*status),
            None if (3000..=3999).contains(&code) => Some(Status::RegisteredStatus(code)),
            None if (4000..=4999).contains(&code) => Some(Status::PrivateStatus(code)),
            None => None,
        };
        match (Status::try_from(code), expected) {
            (Ok(status), Some(expected)) => {
                assert_eq!(status, expected);
                assert_eq!(u16::from(status), code);
            }
            (Err(error), None) => assert!(bad_code(error)),
            (result, _) => panic!("{}: {:?}", code, result),
        }
    }
}

#[test]
fn three_statuses_are_not_sent() {
    for (code, status) in NAMED {
        assert_eq!(status.sendable(), ![1005, 1006, 1015].contains(&code));
        let result = close_frame(Some(ClosePayload { status, reason: None }));
        match result {
            Ok(frame) => assert_eq!(frame, Frame::close(Some((code, String::new())))),
            Err(error) => {
                assert!(!status.sendable());
                assert!(matches!(error, WebSocketError::BadStatus));
            }
        }
    }
    assert!(Status::RegisteredStatus(3000).sendable());
    assert!(Status::RegisteredStatus(3999).sendable());
    assert!(Status::PrivateStatus(4000).sendable());
    assert!(Status::PrivateStatus(4999).sendable());
    for status in [
        Status::RegisteredStatus(1005),
        Status::RegisteredStatus(2999),
        Status::RegisteredStatus(4000),
        Status::PrivateStatus(3999),
        Status::PrivateStatus(5000),
        Status::PrivateStatus(1000),
    ] {
        assert!(!status.sendable());
        assert!(matches!(
            close_frame(Some(ClosePayload { status, reason: None })),
            Err(WebSocketError::BadStatus)
        ));
    }
    assert_eq!(close_frame(None).unwrap(), Frame::close(None));
}

#[test]
fn received_bodies() {
    assert_eq!(
        ClosePayload::received(1000, String::new()).unwrap(),
        ClosePayload { status: Status::NormalClosure, reason: None }
    );
    assert_eq!(
        ClosePayload::received(4000, "x".to_string()).unwrap(),
        ClosePayload { status: Status::PrivateStatus(4000), reason: Some("x".to_string()) }
    );
    assert!(bad_code(ClosePayload::received(1004, "x".to_string()).unwrap_err()));
    assert_eq!(
        ClosePayload::missing(),
        ClosePayload { status: Status::MissingStatusCode, reason: None }
    );
}

#[test]
fn normal_outcomes_are_unwrapped() {
    let payload = || ClosePayload { status: Status::GoingAway, reason: None };
    assert_eq!(CloseOutcome::Normal(Some(payload())).unwrap(), Some(payload()));
    assert_eq!(CloseOutcome::Normal(None).unwrap(), None);
}

#[test]
fn messages_are_caught_until_the_echo() {
    let mut frames = closing();
    assert!(!frames.is_complete());
    assert!(matches!(
        frames.on_frame(Frame::text("a".to_string())),
        Step::Ready(Some(Ok(Message::Text(text)))) if text == "a"
    ));
    assert!(matches!(frames.on_frame(Frame::ping(Some(vec![1]))), Step::Pending));
    assert!(matches!(frames.on_frame(Frame::pong(None)), Step::Pending));
    assert!(matches!(
        frames.on_frame(Frame::binary(vec![1]).set_fin(false)),
        Step::Pending
    ));
    assert!(frames.remainder().is_none());
    assert!(!frames.accepts(&Frame::text("b".to_string())));
    assert!(matches!(
        frames.on_frame(Frame::close(Some((1000, "bye".to_string())))),
        Step::Ready(None)
    ));
    assert!(frames.is_complete());
    assert!(matches!(frames.on_frame(Frame::ping(None)), Step::Ready(None)));
    assert_eq!(frames.remainder(), Some(IncompleteMessage::Binary(vec![1])));
    assert_eq!(frames.remainder(), None);
    assert_eq!(
        frames.close(),
        Some(CloseOutcome::Normal(Some(ClosePayload {
            status: Status::NormalClosure,
            reason: Some("bye".to_string()),
        })))
    );
}

#[test]
fn an_empty_echo_is_a_missing_status() {
    let mut frames = closing();
    assert!(matches!(frames.on_frame(Frame::close(None)), Step::Ready(None)));
    assert_eq!(frames.close(), Some(CloseOutcome::Normal(Some(ClosePayload::missing()))));
}

#[test]
fn a_bad_code_does_not_complete() {
    let mut frames = closing();
    match frames.on_frame(Frame::close(Some((999, String::new())))) {
        Step::Ready(Some(Err(error))) => assert!(bad_code(error)),
        other => panic!("{:?}", other),
    }
    assert!(!frames.is_complete());
    assert_eq!(frames.close(), None);
}

#[test]
fn waiting_for_the_echo() {
    assert_eq!(ClosingFrames::await_echo(None).unwrap().unwrap(), CloseOutcome::Abrupt);
    assert!(ClosingFrames::await_echo(Some(Frame::binary(vec![1]))).is_none());
    assert_eq!(
        ClosingFrames::await_echo(Some(Frame::close(None))).unwrap().unwrap(),
        CloseOutcome::Normal(None)
    );
    let result = ClosingFrames::await_echo(Some(Frame::close(Some((2000, String::new())))));
    assert!(bad_code(result.unwrap().unwrap_err()));
    assert_eq!(
        WebSocket::<()>::await_close(Some(Frame::close(None))).unwrap().unwrap(),
        CloseOutcome::Normal(Some(ClosePayload::missing()))
    );
    assert_eq!(WebSocket::<()>::await_close(None).unwrap().unwrap(), CloseOutcome::Abrupt);
    assert!(WebSocket::<()>::await_close(Some(Frame::ping(None))).is_none());
}

#[test]
fn an_echo_tells_what_was_sent() {
    let payload = || ClosePayload {
        status: Status::PrivateStatus(4321),
        reason: Some("r".to_string()),
    };
    let sent = close_frame(Some(payload())).unwrap();
    assert_eq!(
        WebSocket::<()>::await_close(Some(sent)).unwrap().unwrap(),
        CloseOutcome::Normal(Some(payload()))
    );
}
