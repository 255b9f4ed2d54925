use websockets::websocket::frame::{Frame, FrameType};
use websockets::websocket::message::{Fragmentation, IncompleteMessage, Message};
use websockets::websocket::reassembly::{Assembled, Reassembly};

fn cut(threshold: usize, max_frame_size: usize) -> Fragmentation {
    Fragmentation::WithThreshold { threshold, max_frame_size }
}

fn text(payload: &[u8], continuation: bool, fin: bool) -> Frame {
    Frame::Text { payload: payload.to_vec(), continuation, fin }
}

fn binary(payload: &[u8], continuation: bool, fin: bool) -> Frame {
    Frame::Binary { payload: payload.to_vec(), continuation, fin }
}

#[test]
fn messages_tell_their_data() {
    assert_eq!(Message::Text("é".to_string()).len(), 2);
    assert_eq!(Message::Binary(vec![1, 2, 3]).len(), 3);
    assert_eq!(Message::Text("a".to_string()).as_text(), Some("a".to_string()));
    assert_eq!(Message::Text("a".to_string()).as_binary(), None);
    assert_eq!(Message::Binary(vec![1]).as_binary(), Some(vec![1]));
    assert_eq!(Message::Binary(vec![1]).as_text(), None);
}

#[test]
fn whole_messages_are_single_frames() {
    assert_eq!(
        Fragmentation::Disabled.fragment(Message::Text("abc".to_string())),
        vec![text(b"abc", false, true)]
    );
    assert_eq!(
        cut(4, 1).fragment(Message::Binary(vec![1, 2, 3])),
        vec![binary(&[1, 2, 3], false, true)]
    );
    assert_eq!(cut(1, 0).fragment(Message::Binary(vec![])), vec![binary(&[], false, true)]);
}

#[test]
fn messages_are_cut_from_the_threshold_on() {
    assert_eq!(
        cut(3, 2).fragment(Message::Binary(vec![1, 2, 3])),
        vec![binary(&[1, 2], false, false), binary(&[3], true, true)]
    );
    assert_eq!(
        cut(0, 2).fragment(Message::Text("abcdef".to_string())),
        vec![text(b"ab", false, false), text(b"cd", true, false), text(b"ef", true, true)]
    );
    assert_eq!(
        cut(0, 2).fragment(Message::Text("abcde".to_string())),
        vec![text(b"ab", false, false), text(b"cd", true, false), text(b"e", true, true)]
    );
    assert_eq!(
        cut(0, 9).fragment(Message::Text("abc".to_string())),
        vec![text(b"abc", false, true)]
    );
}

#[test]
fn an_empty_message_that_is_to_be_cut_has_no_frames() {
    assert_eq!(cut(0, 4).fragment(Message::Binary(vec![])), vec![]);
}

#[test]
fn frames_of_no_bytes_cannot_carry_anything() {
    assert!(!cut(0, 0).can_fragment(&Message::Binary(vec![1])));
    assert!(cut(2, 0).can_fragment(&Message::Binary(vec![1])));
    assert!(cut(0, 1).can_fragment(&Message::Binary(vec![1])));
    assert!(Fragmentation::Disabled.can_fragment(&Message::Binary(vec![1])));
}

#[test]
fn fragments_hold_the_message() {
    let bytes: Vec<u8> = (0..=200).collect();
    for max in 1..210 {
        let frames = cut(0, max).fragment(Message::Binary(bytes.clone()));
        let n = frames.len();
        assert_eq!(n, (bytes.len() + max - 1) / max);
        let mut joined = Vec::new();
        for (i, frame) in frames.into_iter().enumerate() {
            assert_eq!(frame.frame_type(), FrameType::Binary);
            let (payload, continuation, fin) = frame.into_binary().unwrap();
            assert_eq!(continuation, i > 0);
            assert_eq!(fin, i == n - 1);
            assert!(!payload.is_empty() && payload.len() <= max);
            joined.extend(payload);
        }
        assert_eq!(joined, bytes);
    }
}

#[test]
fn fragments_are_put_together_again() {
    for max in 1..8 {
        let message = "aé€😀z";
        let frames = cut(0, max).fragment(Message::Text(message.to_string()));
        let n = frames.len();
        let mut reassembly = Reassembly::new();
        for (i, frame) in frames.into_iter().enumerate() {
            assert!(reassembly.accepts(&frame));
            assert_eq!(reassembly.push(Frame::ping(None)), Assembled::Nothing);
            let expected = if i == n - 1 {
                Assembled::Complete(Message::Text(message.to_string()))
            } else {
                Assembled::Nothing
            };
            assert_eq!(reassembly.push(frame), expected);
        }
        assert_eq!(reassembly, Reassembly::new());
    }
}

#[test]
fn text_that_is_not_utf8_is_reported() {
    let mut reassembly = Reassembly::new();
    assert_eq!(reassembly.push(text(&[0xff], false, true)), Assembled::BadUtf8);
    assert_eq!(reassembly, Reassembly::new());
}

#[test]
fn flags_that_do_not_fit_are_not_accepted() {
    let reassembly = Reassembly::new();
    assert!(!reassembly.accepts(&text(b"a", true, true)));
    assert!(reassembly.accepts(&text(b"a", false, true)));
    let mut reassembly = Reassembly::new();
    assert_eq!(reassembly.push(text(b"a", false, false)), Assembled::Nothing);
    assert!(!reassembly.accepts(&text(b"b", false, false)));
    assert!(!reassembly.accepts(&binary(b"b", true, false)));
    assert!(reassembly.accepts(&text(b"b", true, false)));
    assert!(reassembly.accepts(&Frame::close(None)));
}

#[test]
fn the_rest_of_an_abandoned_message_is_lost() {
    let mut reassembly = Reassembly {
        partial_message: Some(IncompleteMessage::Text(b"a".to_vec())),
        recovering: true,
    };
    assert_eq!(reassembly.push(text(b"b", true, false)), Assembled::Nothing);
    assert_eq!(reassembly.push(Frame::pong(None)), Assembled::Nothing);
    assert!(reassembly.recovering);
    assert_eq!(reassembly.push(text(b"c", true, true)), Assembled::Nothing);
    assert_eq!(reassembly, Reassembly::new());
    assert_eq!(
        reassembly.push(binary(&[1], false, true)),
        Assembled::Complete(Message::Binary(vec![1]))
    );
}

#[test]
fn a_whole_message_ends_the_recovery() {
    let mut reassembly = Reassembly { partial_message: None, recovering: true };
    assert_eq!(
        reassembly.push(binary(&[1], false, true)),
        Assembled::Complete(Message::Binary(vec![1]))
    );
    assert_eq!(reassembly, Reassembly::new());
}
