use hieronymus::parse::{boolean, connection_state, maybe, var_bytes, var_str, var_str_with_max_length, ParseError};
use hieronymus::state::ConnectionState;
use hieronymus::builder::ResponseBuilder;
use hieronymus::packets::{read_login, read_status, LoginPacket, StatusPacket};
use hieronymus::varint::serialize_and_append;

#[test]
fn test_read_var_str() {
    fn test(input: &[u8], expected: &str) {
        let (input, actual) = var_str(input).unwrap();
        assert!(input.is_empty());
        assert_eq!(actual, expected);
    }
    test(b"\x00", "");
    test(b"\x01!", "!");
    test(b"\x05hello", "hello");
    test(
        b"\x19a slightly longer example",
        "a slightly longer example",
    );
    test(
        b"\x11UTF-8 \xe6\xb5\x8b\xe8\xaf\x95 \xf0\x9f\x99\x8b",
        "UTF-8 测试 🙋",
    );
    test(
        b"\xa5\x03Testing the limits here!!! :DD
I'd just like to interject for a moment.  What you're referring to as Linux,
is in fact, GNU/Linux, or as I've recently taken to calling it, GNU plus Linux.
Linux is not an operating system unto itself, but rather another free component
of a fully functioning GNU system made useful by the GNU corelibs, shell
utilities and vital system components comprising a full OS as defined by POSIX.
",
        "Testing the limits here!!! :DD
I'd just like to interject for a moment.  What you're referring to as Linux,
is in fact, GNU/Linux, or as I've recently taken to calling it, GNU plus Linux.
Linux is not an operating system unto itself, but rather another free component
of a fully functioning GNU system made useful by the GNU corelibs, shell
utilities and vital system components comprising a full OS as defined by POSIX.
",
    )
}

#[test]
fn strings_over_the_limit_are_rejected() {
    assert_eq!(
        var_str_with_max_length(b"\x05hello", 4).unwrap_err(),
        ParseError::StringTooLong(5)
    );
    let (rest, s) = var_str_with_max_length(b"\x04Alex", 16).unwrap();
    assert_eq!(s, "Alex");
    assert!(rest.is_empty());
}

#[test]
fn invalid_utf8_is_rejected() {
    assert_eq!(var_str(b"\x02\xff\xfe").unwrap_err(), ParseError::InvalidUtf8);
    assert_eq!(var_str(b"\x05hel").unwrap_err(), ParseError::Incomplete);
}

#[test]
fn booleans() {
    assert_eq!(boolean(&[0, 9]).unwrap(), (&[9u8][..], false));
    assert_eq!(boolean(&[1]).unwrap(), (&[][..], true));
    assert_eq!(boolean(&[2]).unwrap_err(), ParseError::InvalidBoolean(2));
    assert_eq!(boolean(&[]).unwrap_err(), ParseError::Incomplete);
}

#[test]
fn optional_values() {
    let (rest, v) = maybe(b"\x01\x02hi\x07", var_str).unwrap();
    assert_eq!(v, Some("hi"));
    assert_eq!(rest, b"\x07");
    let (rest, v) = maybe(b"\x00\x02hi", var_str).unwrap();
    assert_eq!(v, None);
    assert_eq!(rest, b"\x02hi");
    assert_eq!(maybe(b"\x03", var_str).unwrap_err(), ParseError::InvalidBoolean(3));
}

#[test]
fn frames_split_at_their_length() {
    let (rest, data) = var_bytes(b"\x03abcde").unwrap();
    assert_eq!(data, b"abc");
    assert_eq!(rest, b"de");
    assert_eq!(var_bytes(b"\x03ab").unwrap_err(), ParseError::Incomplete);
    assert_eq!(var_bytes(b"").unwrap_err(), ParseError::Incomplete);
}

#[test]
fn next_state_field() {
    assert_eq!(connection_state(&[1]).unwrap().1, ConnectionState::Status);
    assert_eq!(connection_state(&[2]).unwrap().1, ConnectionState::Login);
    assert_eq!(connection_state(&[3]).unwrap_err(), ParseError::InvalidNextState(3));
}

#[test]
fn framing_round_trip() {
    let mut b = ResponseBuilder::new(1);
    b.add(0x0123_4567_89ab_cdefu64);
    let payload = b.into_bytes();
    let mut frame = vec![];
    serialize_and_append(payload.len() as u32, &mut frame);
    frame.extend_from_slice(&payload);
    frame.push(0x77);
    let (rest, body) = var_bytes(&frame).unwrap();
    assert_eq!(rest, &[0x77]);
    assert_eq!(read_status(body).unwrap(), StatusPacket::Ping(0x0123_4567_89ab_cdef));

    let mut b = ResponseBuilder::new(0);
    b.add("Steve");
    let body = b.into_bytes();
    assert_eq!(
        read_login(&body).unwrap(),
        LoginPacket::LoginStart { username: "Steve".to_string() }
    );
    let mut long = ResponseBuilder::new(0);
    long.add("SeventeenCharName");
    assert_eq!(
        read_login(long.data()).unwrap_err(),
        ParseError::StringTooLong(17)
    );
}
