use with_str_bytes::{with_str_bytes, Failure, Guard, GuardState, Text, Utf8Error};

fn as_str(text: &Text) -> &str {
    std::str::from_utf8(text.as_bytes()).unwrap()
}

#[test]
fn empty() {
    let mut data: Text = Text::from_str("");
    let ended: Result<(), Failure<()>> = with_str_bytes(&mut data, |bytes: &mut [u8]| {
        assert_eq!(bytes, &mut []);
        Ok(())
    });
    assert_eq!(ended, Ok(()));
    assert_eq!(as_str(&data), "");
}

#[test]
fn valid_utf8() {
    let initial = "--------------------------";
    let replaced = b"Lorem ipsum dolor sit amet";

    let mut data: Text = Text::from_str(initial);
    let ended: Result<(), Failure<()>> = with_str_bytes(&mut data, |bytes: &mut [u8]| {
        bytes.copy_from_slice(replaced);
        Ok(())
    });
    assert_eq!(ended, Ok(()));
    assert_eq!(data.as_bytes(), replaced);
}

#[test]
fn invalid_utf8() {
    let mut data: Text = Text::from_str("abc");

    let ended: Result<(), Failure<()>> = with_str_bytes(&mut data, |bytes: &mut [u8]| {
        bytes[1] = 0xC0;
        Ok(())
    });
    let error: Utf8Error = match ended {
        Err(Failure::InvariantViolation(error)) => error,
        other => panic!("unexpected end: {:?}", other),
    };

    assert_eq!(
        error.violation(),
        "`with_bytes` encountered invalid utf-8: invalid utf-8 sequence of 1 bytes from index 1"
    );
    assert_eq!(error.valid_up_to, 1);

    assert_eq!(as_str(&data), "a\0\0");
}

#[test]
fn panics() {
    let mut data: Text = Text::from_str("abc");

    let ended: Result<(), Failure<&'static str>> =
        with_str_bytes(&mut data, |_: &mut [u8]| Err("Oh no"));
    let msg: &'static str = match ended {
        Err(Failure::Propagated(msg)) => msg,
        other => panic!("unexpected end: {:?}", other),
    };

    assert_eq!(msg, "Oh no");

    assert_eq!(as_str(&data), "\0\0\0");
}

#[test]
fn spaces_become_dashes() {
    let mut data: Text = Text::from_str("Lorem ipsum dolor sit amet");
    let ended: Result<usize, Failure<()>> = with_str_bytes(&mut data, |bytes: &mut [u8]| {
        let mut changed: usize = 0;
        for byte in bytes {
            if *byte == b' ' {
                *byte = b'-';
                changed += 1;
            }
        }
        Ok(changed)
    });
    assert_eq!(ended, Ok(4));
    assert_eq!(as_str(&data), "Lorem-ipsum-dolor-sit-amet");
}

#[test]
fn untouched_text_is_identical() {
    let unchanged: &str = "gr\u{fc}\u{df}e, \u{4e16}\u{754c} \u{1f600}";
    let mut data: Text = Text::from_str(unchanged);
    let ended: Result<u8, Failure<()>> = with_str_bytes(&mut data, |_: &mut [u8]| Ok(7));
    assert_eq!(ended, Ok(7));
    assert_eq!(data.as_bytes(), unchanged.as_bytes());
    assert_eq!(data.len(), unchanged.len());
}

#[test]
fn another_encoding_of_equal_length_is_kept() {
    // two bytes each: U+00E9 before, U+00FC after
    let mut data: Text = Text::from_str("\u{e9}\u{e9}");
    let ended: Result<(), Failure<()>> = with_str_bytes(&mut data, |bytes: &mut [u8]| {
        bytes.copy_from_slice("\u{fc}zz".as_bytes());
        Ok(())
    });
    assert_eq!(ended, Ok(()));
    assert_eq!(as_str(&data), "\u{fc}zz");
}

#[test]
fn invalid_tail_is_zeroed_from_the_first_bad_offset() {
    let mut data: Text = Text::from_str("h\u{e9}llo w\u{f6}rld");
    let before: Vec<u8> = data.as_bytes().to_vec();
    assert_eq!(before.len(), 13);
    let ended: Result<(), Failure<()>> = with_str_bytes(&mut data, |bytes: &mut [u8]| {
        bytes[0] = b'H';
        // a continuation byte where a scalar should start
        bytes[5] = 0x80;
        // more damage behind it
        bytes[9] = 0xff;
        Ok(())
    });
    assert_eq!(
        ended,
        Err(Failure::InvariantViolation(Utf8Error { valid_up_to: 5, error_len: Some(1) }))
    );
    let after: &[u8] = data.as_bytes();
    assert_eq!(after.len(), 13);
    assert_eq!(&after[..5], &[b'H', 0xc3, 0xa9, b'l', b'l']);
    assert!(after[5..].iter().all(|byte| *byte == 0));
}

#[test]
fn truncated_scalar_at_the_end_is_a_violation() {
    let mut data: Text = Text::from_str("ab\u{20ac}");
    let ended: Result<(), Failure<()>> = with_str_bytes(&mut data, |bytes: &mut [u8]| {
        // the three bytes of U+20AC, moved one to the right: the last one is lost
        bytes[4] = bytes[3];
        bytes[3] = bytes[2];
        bytes[2] = b'c';
        Ok(())
    });
    assert_eq!(
        ended,
        Err(Failure::InvariantViolation(Utf8Error { valid_up_to: 3, error_len: None }))
    );
    assert_eq!(data.as_bytes(), &[b'a', b'b', b'c', 0, 0]);
}

#[test]
fn failure_wins_over_invalid_bytes() {
    let mut data: Text = Text::from_str("abcdef");
    let ended: Result<(), Failure<String>> = with_str_bytes(&mut data, |bytes: &mut [u8]| {
        bytes[2] = 0xff;
        Err(String::from("gave up"))
    });
    // one failure, the transformation's own, and all bytes zeroed, the valid ones too
    assert_eq!(ended, Err(Failure::Propagated(String::from("gave up"))));
    assert_eq!(data.as_bytes(), &[0u8; 6]);
}

#[test]
fn failure_on_empty_text() {
    let mut data: Text = Text::from_str("");
    let ended: Result<(), Failure<u32>> = with_str_bytes(&mut data, |_: &mut [u8]| Err(17));
    assert_eq!(ended, Err(Failure::Propagated(17)));
    assert_eq!(data.len(), 0);
}

#[test]
fn nested_calls_on_distinct_texts() {
    let mut outer: Text = Text::from_str("outer");
    let mut inner: Text = Text::from_str("inner");
    let ended: Result<Result<(), Failure<()>>, Failure<()>> =
        with_str_bytes(&mut outer, |bytes: &mut [u8]| {
            bytes[0] = b'O';
            Ok(with_str_bytes(&mut inner, |bytes: &mut [u8]| {
                bytes[0] = 0xff;
                Ok(())
            }))
        });
    assert_eq!(
        ended,
        Ok(Err(Failure::InvariantViolation(Utf8Error { valid_up_to: 0, error_len: Some(1) })))
    );
    assert_eq!(as_str(&outer), "Outer");
    assert_eq!(as_str(&inner), "\0\0\0\0\0");
}

#[test]
fn guard_starts_assuming_failure() {
    let mut bytes: Vec<u8> = b"abc".to_vec();
    let guard: Guard = Guard::new(&mut bytes);
    assert_eq!(guard.state, GuardState::AssumedFailed);
    assert_eq!(guard.bytes, b"abc");
    // released as it is, it zeroes everything and raises nothing
    assert_eq!(guard.release(), Ok(()));
    assert_eq!(bytes, vec![0u8, 0, 0]);
}

#[test]
fn completed_guard_keeps_valid_bytes() {
    let mut bytes: Vec<u8> = "d\u{e9}j\u{e0}".as_bytes().to_vec();
    let mut guard: Guard = Guard::new(&mut bytes);
    guard.bytes[0] = b'D';
    guard.complete();
    assert_eq!(guard.state, GuardState::Completed);
    assert_eq!(guard.release(), Ok(()));
    assert_eq!(bytes, "D\u{e9}j\u{e0}".as_bytes());
}

#[test]
fn completed_guard_zeroes_the_invalid_tail() {
    let mut bytes: Vec<u8> = vec![b'o', b'k', 0xe2, 0x28, 0xa1, b'!'];
    let mut guard: Guard = Guard::new(&mut bytes);
    guard.complete();
    assert_eq!(guard.release(), Err(Utf8Error { valid_up_to: 2, error_len: Some(1) }));
    assert_eq!(bytes, vec![b'o', b'k', 0, 0, 0, 0]);
}

#[test]
fn assumed_failed_guard_does_not_look_at_the_bytes() {
    let mut bytes: Vec<u8> = vec![0xff, 0xfe, b'a'];
    let guard: Guard = Guard::new(&mut bytes);
    assert_eq!(guard.release(), Ok(()));
    assert_eq!(bytes, vec![0u8, 0, 0]);
}

#[test]
fn finish_hands_on_value_payload_or_violation() {
    let mut bytes: Vec<u8> = b"abc".to_vec();
    let ended: Result<u8, Failure<u8>> = Guard::new(&mut bytes).finish(Ok(1));
    assert_eq!(ended, Ok(1));
    assert_eq!(bytes, b"abc");

    let ended: Result<u8, Failure<u8>> = Guard::new(&mut bytes).finish(Err(2));
    assert_eq!(ended, Err(Failure::Propagated(2)));
    assert_eq!(bytes, vec![0u8, 0, 0]);

    let mut bytes: Vec<u8> = vec![b'a', 0xc0, b'c'];
    let ended: Result<u8, Failure<u8>> = Guard::new(&mut bytes).finish(Ok(3));
    assert_eq!(
        ended,
        Err(Failure::InvariantViolation(Utf8Error { valid_up_to: 1, error_len: Some(1) }))
    );
    assert_eq!(bytes, vec![b'a', 0, 0]);
}

#[test]
fn text_from_bytes_and_back() {
    let made: Result<Text, Utf8Error> = Text::from_utf8("na\u{ef}ve".as_bytes().to_vec());
    let text: Text = made.unwrap();
    assert_eq!(text.len(), 6);
    assert_eq!(as_str(&text), "na\u{ef}ve");
    let copy: Text = text.clone();
    assert_eq!(copy, text);
    assert_eq!(text.into_bytes(), "na\u{ef}ve".as_bytes());

    let made: Result<Text, Utf8Error> = Text::from_utf8(vec![b'x', 0xf0, 0x9f, 0x98]);
    assert_eq!(made, Err(Utf8Error { valid_up_to: 1, error_len: None }));
}
