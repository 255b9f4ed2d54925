use websockets::websocket::text::{
    bytes_equal, eq_ignore_ascii_case, into_bytes, join_texts, push_decimal,
};
use websockets::websocket::utf8::{
    split_off_partial_utf8, stagger, SplitOffPartialError, StaggeredText,
};

fn split(bytes: &[u8]) -> (Result<Vec<u8>, SplitOffPartialError>, Vec<u8>) {
    let mut vec = bytes.to_vec();
    let result = split_off_partial_utf8(&mut vec);
    (result, vec)
}

const NONE: SplitOffPartialError = SplitOffPartialError::NoPartialCodePoint;
const INVALID: SplitOffPartialError = SplitOffPartialError::InvalidUtf8;

#[test]
fn whole_code_points_are_left() {
    for text in ["", "a", "ab", "é", "€", "😀", "a😀", "€é"] {
        assert_eq!(split(text.as_bytes()), (Err(NONE), text.as_bytes().to_vec()));
    }
}

#[test]
fn partial_code_points_are_split_off() {
    assert_eq!(split(&[b'a', 0xc3]), (Ok(vec![0xc3]), vec![b'a']));
    assert_eq!(split(&[0xe2]), (Ok(vec![0xe2]), vec![]));
    assert_eq!(split(&[0xe2, 0x82]), (Ok(vec![0xe2, 0x82]), vec![]));
    assert_eq!(
        split(&[b'x', 0xf0, 0x9f, 0x98]),
        (Ok(vec![0xf0, 0x9f, 0x98]), vec![b'x'])
    );
}

#[test]
fn ends_that_belong_to_nothing_are_invalid() {
    for bytes in [
        vec![0x80u8, 0x80],
        vec![b'a', 0x80],
        vec![0xc3, 0xa9, 0x80],
        vec![0xf0, 0x9f, 0x98, 0x80, 0x80],
        vec![0xff, 0x80],
    ] {
        assert_eq!(split(&bytes), (Err(INVALID), bytes.clone()));
    }
    assert_eq!(split(&[0x80]), (Err(NONE), vec![0x80]));
    assert_eq!(split(&[0xff]), (Err(NONE), vec![0xff]));
}

#[test]
fn text_is_staggered() {
    match stagger(vec![b'a', 0xe2, 0x82]) {
        StaggeredText::Read { text, held_back } => {
            assert_eq!(text, Some("a".to_string()));
            assert_eq!(held_back, Some(vec![0xe2, 0x82]));
        }
        other => panic!("{:?}", other),
    }
    match stagger(vec![0xff, b'a']) {
        StaggeredText::Read { text, held_back } => {
            assert_eq!(text, None);
            assert_eq!(held_back, None);
        }
        other => panic!("{:?}", other),
    }
    assert!(matches!(stagger(vec![b'a', 0x80]), StaggeredText::BadEnd));
}

#[test]
fn every_prefix_of_text_is_understood() {
    let text = "aé€😀z\u{10ffff}";
    for cut in 0..=text.len() {
        match stagger(text.as_bytes()[..cut].to_vec()) {
            StaggeredText::Read { text: Some(read), held_back } => {
                let held_back = held_back.unwrap_or_default();
                assert!(text.starts_with(&read));
                assert_eq!(read.len() + held_back.len(), cut);
                assert!(held_back.len() < 4);
            }
            other => panic!("{:?}", other),
        }
    }
}

#[test]
fn decimals_and_lists() {
    for n in [0usize, 7, 10, 99, 100, 65535, 1234567890] {
        let mut out = String::from("n=");
        push_decimal(&mut out, n);
        assert_eq!(out, format!("n={}", n));
    }
    let list = |items: &[&str]| -> Vec<String> { items.iter().map(|s| s.to_string()).collect() };
    assert_eq!(join_texts(&list(&[]), ", "), "");
    assert_eq!(join_texts(&list(&["a"]), ", "), "a");
    assert_eq!(join_texts(&list(&["a", "", "c"]), ", "), "a, , c");
}

#[test]
fn bytes_are_compared() {
    assert_eq!(into_bytes("é".to_string()), vec![0xc3, 0xa9]);
    assert!(eq_ignore_ascii_case(b"WebSocket", b"websocket"));
    assert!(!eq_ignore_ascii_case(b"websocket", b"websockets"));
    assert!(!eq_ignore_ascii_case(b"[", b"{"));
    assert!(bytes_equal(b"ab", b"ab"));
    assert!(!bytes_equal(b"ab", b"aB"));
    assert!(!bytes_equal(b"ab", b"abc"));
}
