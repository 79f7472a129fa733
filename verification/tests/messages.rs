use with_str_bytes::{validate, Utf8Error};

#[test]
fn describes_an_invalid_sequence() {
    let error: Utf8Error = Utf8Error { valid_up_to: 1, error_len: Some(1) };
    assert_eq!(error.describe(), "invalid utf-8 sequence of 1 bytes from index 1");
    let error: Utf8Error = Utf8Error { valid_up_to: 0, error_len: Some(3) };
    assert_eq!(error.describe(), "invalid utf-8 sequence of 3 bytes from index 0");
}

#[test]
fn describes_an_incomplete_sequence() {
    let error: Utf8Error = Utf8Error { valid_up_to: 12, error_len: None };
    assert_eq!(error.describe(), "incomplete utf-8 byte sequence from index 12");
}

#[test]
fn writes_offsets_in_decimal() {
    let error: Utf8Error = Utf8Error { valid_up_to: 9, error_len: Some(2) };
    assert_eq!(error.describe(), "invalid utf-8 sequence of 2 bytes from index 9");
    let error: Utf8Error = Utf8Error { valid_up_to: 10, error_len: Some(2) };
    assert_eq!(error.describe(), "invalid utf-8 sequence of 2 bytes from index 10");
    let error: Utf8Error = Utf8Error { valid_up_to: 1_234_567_890, error_len: None };
    assert_eq!(error.describe(), "incomplete utf-8 byte sequence from index 1234567890");
    let error: Utf8Error = Utf8Error { valid_up_to: usize::MAX, error_len: None };
    assert_eq!(
        error.describe(),
        format!("incomplete utf-8 byte sequence from index {}", usize::MAX)
    );
}

#[test]
fn violation_names_the_operation() {
    let error: Utf8Error = Utf8Error { valid_up_to: 4, error_len: None };
    assert_eq!(
        error.violation(),
        "`with_bytes` encountered invalid utf-8: incomplete utf-8 byte sequence from index 4"
    );
}

#[test]
fn describes_as_std_does() {
    let inputs: [&[u8]; 5] = [
        &[b'a', 0xc0, b'c'],
        &[0xe2, 0x82],
        &[b'a', b'b', 0xf0, 0x9f, 0x98, b'c'],
        &[0xed, 0xa0, 0x80],
        &[b'0', b'1', b'2', b'3', b'4', b'5', b'6', b'7', b'8', b'9', b'a', 0xff],
    ];
    for bytes in inputs {
        let ours: Utf8Error = validate(bytes).unwrap_err();
        let theirs = std::str::from_utf8(bytes).unwrap_err();
        assert_eq!(ours.describe(), format!("{}", theirs));
    }
}
