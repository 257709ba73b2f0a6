use bytes::BytesMut;
use std::borrow::Cow;
use tokio_stomp::error::{Expected, ParseError};
use tokio_stomp::frame::{
    expect_header, extra_headers, fetch_header, get_content_length, get_content_length_header,
    is_empty_slice, parse_frame, Frame,
};
use tokio_stomp::{FromServer, Message, StompError, ToServer};

fn header_bytes<'a>(frame: &'a Frame<'_>) -> Vec<(&'a [u8], &'a [u8])> {
    frame
        .headers
        .iter()
        .map(|(k, v)| (k.as_bytes(), v.as_bytes()))
        .collect()
}

fn owned(headers: &[(&str, &str)]) -> Vec<(String, String)> {
    headers
        .iter()
        .map(|(k, v)| (k.to_string(), v.to_string()))
        .collect()
}

fn written(frame: &Frame<'_>) -> Vec<u8> {
    let mut buffer = BytesMut::new();
    assert!(frame.fits(&buffer));
    frame.serialize(&mut buffer);
    buffer.to_vec()
}

#[test]
fn parse_and_serialize_connect() {
    let data = b"CONNECT
accept-version:1.2
host:datafeeds.here.co.uk
login:user
heart-beat:6,7
passcode:password\\c123\n\n\x00"
        .to_vec();
    let (_, frame) = parse_frame(&data).unwrap();
    assert_eq!(frame.command.as_ref(), "CONNECT");
    let headers_expect: Vec<(&[u8], &[u8])> = vec![
        (&b"accept-version"[..], &b"1.2"[..]),
        (b"host", b"datafeeds.here.co.uk"),
        (b"login", b"user"),
        (b"heart-beat", b"6,7"),
        (b"passcode", b"password:123"),
    ];
    assert_eq!(header_bytes(&frame), headers_expect);
    assert_eq!(frame.body, None);
    let stomp = Message::<ToServer>::try_from(&frame).unwrap();
    let mut buffer = BytesMut::new();
    Frame::from(&stomp).serialize(&mut buffer);
    assert_eq!(&*buffer, &*data);

    let msg = Message::<ToServer>::try_from(&frame).unwrap();
    assert!(matches!(msg.content, ToServer::Connect {
        heartbeat: Some((6, 7)),
        login: Some(ref login),
        ..
    } if login == "user"));

    let mut bytes_mut = BytesMut::with_capacity(64);
    Frame::from(&msg).serialize(&mut bytes_mut);
    assert_eq!(bytes_mut.as_ref(), data)
}

#[test]
fn parse_and_serialize_message() {
    let mut data = b"\nMESSAGE
destination:datafeeds.here.co.uk
message-id:12345
subscription:some-id
"
    .to_vec();
    let body = "this body contains \x00 nulls \n and \r\n newlines \x00 OK?";
    let rest = format!("content-length:{}\n\n{}\x00", body.len(), body);
    data.extend_from_slice(rest.as_bytes());
    let (_, frame) = parse_frame(&data).unwrap();
    assert_eq!(frame.command.as_bytes(), b"MESSAGE");
    let headers_expect: Vec<(&[u8], &[u8])> = vec![
        (&b"destination"[..], &b"datafeeds.here.co.uk"[..]),
        (b"message-id", b"12345"),
        (b"subscription", b"some-id"),
        (b"content-length", b"50"),
    ];
    assert_eq!(header_bytes(&frame), headers_expect);
    assert_eq!(frame.body, Some(body.as_bytes()));
    Message::<FromServer>::try_from(&frame).unwrap();
}

#[test]
fn parse_and_serialize_message_with_body_start_with_newline() {
    let mut data = b"MESSAGE
destination:datafeeds.here.co.uk
message-id:12345
subscription:some-id"
        .to_vec();
    let body = "\n\n\nthis body contains  nulls \n and \r\n newlines OK?";
    let rest = format!("\n\n{}\x00\r\n", body);
    data.extend_from_slice(rest.as_bytes());
    let (_, frame) = parse_frame(&data).unwrap();
    assert_eq!(frame.command.as_bytes(), b"MESSAGE");
    let headers_expect: Vec<(&[u8], &[u8])> = vec![
        (&b"destination"[..], &b"datafeeds.here.co.uk"[..]),
        (b"message-id", b"12345"),
        (b"subscription", b"some-id"),
    ];
    assert_eq!(header_bytes(&frame), headers_expect);
    assert_eq!(frame.body, Some(body.as_bytes()));
}

#[test]
fn parse_and_serialize_message_body_like_header() {
    let data = b"\nMESSAGE\r
destination:datafeeds.here.co.uk
message-id:12345
subscription:some-id\n\nsomething-like-header:1\x00\r\n"
        .to_vec();
    let (_, frame) = parse_frame(&data).unwrap();
    assert_eq!(frame.command.as_bytes(), b"MESSAGE");
    let headers_expect: Vec<(&[u8], &[u8])> = vec![
        (b"destination", b"datafeeds.here.co.uk"),
        (b"message-id", b"12345"),
        (b"subscription", b"some-id"),
    ];
    assert_eq!(header_bytes(&frame), headers_expect);
    assert_eq!(frame.body, Some("something-like-header:1".as_bytes()));
    let msg = Message::<FromServer>::try_from(&frame).unwrap();
    let mut bytes_mut = BytesMut::with_capacity(64);
    Frame::from(&msg).serialize(&mut bytes_mut);
    assert_eq!(
        &bytes_mut[..],
        &b"MESSAGE\nsubscription:some-id\nmessage-id:12345\ndestination:datafeeds.here.co.uk\n\
           content-length:23\n\nsomething-like-header:1\0"[..]
    );
}

#[test]
fn parse_a_incomplete_message() {
    assert!(matches!(
        parse_frame(b"\nMESSAG".as_ref()),
        Err(ParseError::Incomplete)
    ));

    assert!(matches!(
        parse_frame(b"\nMESSAGE\n\n".as_ref()),
        Err(ParseError::Incomplete)
    ));

    assert!(matches!(
        parse_frame(b"\nMESSAG\n\n\0".as_ref()),
        Ok((
            _,
            Frame {
                ref command,
                headers: _,
                body: None
            }
        )) if command == "MESSAG"
    ));

    assert!(matches!(
        parse_frame(b"\nMESSAGE\r\ndestination:datafeeds.here.co.uk".as_ref()),
        Err(ParseError::Incomplete)
    ));

    assert!(matches!(
        parse_frame(b"\nMESSAGE\r\ndestination:datafeeds.here.co.uk\n\n".as_ref()),
        Err(ParseError::Incomplete)
    ));

    assert!(matches!(
        parse_frame(b"\nMESSAGE\r\nheader:da\\ctafeeds.here.co.uk\n\n\0".as_ref()),
        Ok((b"", Frame { headers: ref a, .. })) if a[0].1 == "da:tafeeds.here.co.uk".to_string()
    ));

    assert!(matches!(
        Message::<ToServer>::try_from(
            &parse_frame(b"\nSEND\r\ndestination:da\\ntafeedsuk\n\n\0".as_ref())
                .unwrap()
                .1
        ),
        Ok(Message::<ToServer> {
            content: ToServer::Send {
                destination: ref a,
                ..
            },
            ..
        }) if a == "da\ntafeedsuk"
    ));

    assert!(matches!(
        parse_frame(b"\nMESSAGE\r\ndestination:datafeeds.here.co.uk".as_ref()),
        Err(ParseError::Incomplete)
    ));

    assert!(
        matches!(
            parse_frame(b"\nMESSAGE\r\ndestination:datafeeds.here.co.uk\n\n\0remain".as_ref()),
            Ok((b"remain", Frame { .. }))
        ),
        "stream with other after body end, should return remain text"
    );

    assert!(
        matches!(
            parse_frame(b"\nMESSAGE\ncontent-length:10000\n\n\0remain".as_ref()),
            Err(ParseError::Incomplete)
        ),
        "content-length:10000, body size<10000, return incomplete"
    );
    assert!(
        matches!(
            parse_frame(b"\nMESSAGE\ncontent-length:0\n\n\0remain".as_ref()),
            Ok((b"remain", Frame { body: Some([]), .. }))
        ),
        "empty body with content-length:0, body should be Some([])"
    );
    assert!(
        matches!(
            parse_frame(b"\nMESSAGE\n\n\0remain".as_ref()),
            Ok((b"remain", Frame { body: None, .. }))
        ),
        "empty body without content-length header, body should be None"
    );
}

#[test]
fn parse_and_serialize_message_header_value_with_colon() {
    let data = b"CONNECTED
server:ActiveMQ/6.0.0
heart-beat:0,0
session:ID:orbstack-45879-1702220142549-3:2
version:1.2

\0\n"
        .to_vec();
    let (_, frame) = parse_frame(&data).unwrap();
    assert_eq!(frame.command.as_bytes(), b"CONNECTED");
    let headers_expect: Vec<(&[u8], &[u8])> = vec![
        (b"server", b"ActiveMQ/6.0.0"),
        (b"heart-beat", b"0,0"),
        (b"session", b"ID:orbstack-45879-1702220142549-3:2"),
        (b"version", b"1.2"),
    ];
    assert_eq!(header_bytes(&frame), headers_expect);
    let msg = Message::<FromServer>::try_from(&frame).unwrap();
    assert!(matches!(
        msg.content,
        FromServer::Connected {
            heartbeat: Some((0, 0)),
            session: Some(ref session),
            ..
        } if session == "ID:orbstack-45879-1702220142549-3:2"
    ));
}

#[test]
fn test_parser_header1() {
    let h = parse_frame(b"MESSAGE\nsubscription:11\nmessage-id:0.4.0\ndestination:now\\c Instant {\\n    tv_sec\\c 5740,\\n    tv_nsec\\c 164006416,\\n}\ncontent-type:application/json\nserver:tokio-stomp/0.4.0\n\n\0".as_ref());
    let (rest, frame) = h.unwrap();
    assert!(rest.is_empty());
    assert_eq!(
        fetch_header(&frame.headers, "destination").as_deref(),
        Some("now: Instant {\n    tv_sec: 5740,\n    tv_nsec: 164006416,\n}")
    );
}

#[test]
fn malformed_frames_say_where_and_why() {
    assert_eq!(
        parse_frame(b"1\n\n\0").unwrap_err(),
        ParseError::Invalid { offset: 0, expected: Expected::Alphabetic }
    );
    assert_eq!(
        parse_frame(b"\r\n1\n\n\0").unwrap_err(),
        ParseError::Invalid { offset: 2, expected: Expected::Alphabetic }
    );
    assert_eq!(
        parse_frame(b"\n\nSEND\n\n\0").unwrap_err(),
        ParseError::Invalid { offset: 1, expected: Expected::Alphabetic }
    );
    assert_eq!(
        parse_frame(b"SE1ND\n\n\0").unwrap_err(),
        ParseError::Invalid { offset: 2, expected: Expected::LineEnding }
    );
    assert_eq!(
        parse_frame(b"SEND\nno colon\n\n\0").unwrap_err(),
        ParseError::Invalid { offset: 5, expected: Expected::LineEnding }
    );
    assert_eq!(
        parse_frame(b"SEND\na:b\n:no key\n\n\0").unwrap_err(),
        ParseError::Invalid { offset: 9, expected: Expected::LineEnding }
    );
    assert_eq!(
        parse_frame(b"SEND\na:bad \\t escape\n\n\0").unwrap_err(),
        ParseError::Invalid { offset: 5, expected: Expected::LineEnding }
    );
    assert_eq!(
        parse_frame(b"SEND\na:\xff\n\n\0").unwrap_err(),
        ParseError::Invalid { offset: 5, expected: Expected::LineEnding }
    );
    assert_eq!(
        parse_frame(b"SEND\ncontent-length:2\n\nabc\0").unwrap_err(),
        ParseError::Invalid { offset: 25, expected: Expected::Nul }
    );
}

#[test]
fn a_frame_takes_one_line_ending_with_it() {
    for (ending, left) in [
        (&b""[..], &b""[..]),
        (b"\n", b""),
        (b"\r\n", b""),
        (b"\n\n", b"\n"),
        (b"\r", b"\r"),
    ] {
        let mut data = b"BEGIN\ntransaction:t\n\n\0".to_vec();
        data.extend_from_slice(ending);
        assert_eq!(parse_frame(&data).unwrap().0, left);
    }
}

#[test]
fn a_length_that_is_no_number_is_no_length() {
    let (rest, frame) = parse_frame(b"SEND\ncontent-length:many\n\nab\0c\0").unwrap();
    assert_eq!(frame.body, Some(&b"ab"[..]));
    assert_eq!(rest, b"c\0");
    let (rest, frame) = parse_frame(b"SEND\ncontent-length:+4\n\nab\0c\0").unwrap();
    assert_eq!(frame.body, Some(&b"ab\0c"[..]));
    assert_eq!(rest, b"");
}

#[test]
fn the_first_of_two_headers_counts() {
    let headers = owned(&[("a", "1"), ("b", "2"), ("a", "3")]);
    assert_eq!(fetch_header(&headers, "a").as_deref(), Some("1"));
    assert_eq!(fetch_header(&headers, "b").as_deref(), Some("2"));
    assert_eq!(fetch_header(&headers, "c"), None);
    assert_eq!(expect_header(&headers, "b").unwrap(), "2");
    assert!(matches!(
        expect_header(&headers, "c"),
        Err(StompError::MissingHeader(ref key)) if key == "c"
    ));
    let (_, frame) = parse_frame(b"SEND\ncontent-length:1\ncontent-length:2\n\na\0").unwrap();
    assert_eq!(frame.body, Some(&b"a"[..]));
}

#[test]
fn lengths_are_read_and_written() {
    assert_eq!(get_content_length(&owned(&[("content-length", "0")])), Some(0));
    assert_eq!(get_content_length(&owned(&[("content-length", "0012")])), Some(12));
    assert_eq!(
        get_content_length(&owned(&[("content-length", "18446744073709551615")])),
        "18446744073709551615".parse::<usize>().ok()
    );
    assert_eq!(
        get_content_length(&owned(&[("content-length", "18446744073709551616")])),
        None
    );
    assert_eq!(get_content_length(&owned(&[("content-length", "-1")])), None);
    assert_eq!(get_content_length(&owned(&[("content-length", "")])), None);
    assert_eq!(get_content_length(&owned(&[("Content-Length", "1")])), None);
    assert_eq!(get_content_length_header(b""), b"content-length:0\n".to_vec());
    assert_eq!(
        get_content_length_header(&[7; 1234]),
        b"content-length:1234\n".to_vec()
    );
}

#[test]
fn empty_slices_are_no_body() {
    assert_eq!(is_empty_slice(b""), None);
    assert_eq!(is_empty_slice(b"\0"), Some(&b"\0"[..]));
}

#[test]
fn extra_headers_keep_their_order() {
    let headers = owned(&[("x", "1"), ("id", "2"), ("y", "3"), ("id", "4"), ("x", "5")]);
    assert_eq!(
        extra_headers(&headers, &["id", "ack"]),
        owned(&[("x", "1"), ("y", "3"), ("x", "5")])
    );
    assert_eq!(extra_headers(&headers, &[]), headers);
}

#[test]
fn new_frames_hold_the_headers_with_a_value() {
    let one = "1".to_string();
    let extra = owned(&[("x", "y")]);
    let frame = Frame::new(
        "SEND",
        vec![("a", Some(&one)), ("b", None), ("c", Some(&one))],
        Some(b"body"),
        &extra,
    );
    assert_eq!(frame.command_text(), "SEND");
    assert_eq!(frame.headers, owned(&[("a", "1"), ("c", "1"), ("x", "y")]));
    assert_eq!(frame.body, Some(&b"body"[..]));
    assert_eq!(
        written(&frame),
        b"SEND\na:1\nc:1\nx:y\ncontent-length:4\n\nbody\0".to_vec()
    );
}

#[test]
fn frames_are_added_behind_what_a_buffer_holds() {
    let mut buffer = BytesMut::from(&b"before"[..]);
    let frame = Frame { command: Cow::Borrowed("X"), headers: vec![], body: None };
    assert!(frame.fits(&buffer));
    frame.serialize(&mut buffer);
    frame.serialize(&mut buffer);
    assert_eq!(&buffer[..], b"beforeX\n\n\0X\n\n\0");
}

#[test]
fn special_bytes_are_escaped_and_read_back() {
    let frame = Frame {
        command: Cow::Owned("X".to_string()),
        headers: owned(&[("k:\\", "\r\n:\\ \u{e9}\u{1f980}")]),
        body: None,
    };
    let bytes = written(&frame);
    assert_eq!(
        bytes,
        b"X\nk\\c\\\\:\\r\\n\\c\\\\ \xc3\xa9\xf0\x9f\xa6\x80\n\n\0".to_vec()
    );
    let (rest, read) = parse_frame(&bytes).unwrap();
    assert!(rest.is_empty());
    assert_eq!(read.command_text(), "X");
    assert_eq!(read.headers, frame.headers);
    assert_eq!(read.body, None);
}

#[test]
fn written_frames_are_read_back() {
    let bodies: [Option<&[u8]>; 4] = [None, Some(b""), Some(b"\0\n\0"), Some(b"content-length:1\n\n")];
    for body in bodies {
        let frame = Frame {
            command: Cow::Borrowed("MESSAGE"),
            headers: owned(&[("a", ""), ("\n", "\0")]),
            body,
        };
        let mut bytes = written(&frame);
        for n in 0..bytes.len() {
            assert_eq!(parse_frame(&bytes[..n]).unwrap_err(), ParseError::Incomplete);
        }
        bytes.extend_from_slice(b"SEND");
        let (rest, read) = parse_frame(&bytes).unwrap();
        assert_eq!(rest, b"SEND");
        assert_eq!(read.body, body);
        assert_eq!(&read.headers[..2], &frame.headers[..]);
        assert_eq!(
            fetch_header(&read.headers, "content-length"),
            body.map(|b| b.len().to_string())
        );
    }
}

#[test]
fn an_announced_empty_body_arrives_as_one() {
    let frame = Frame {
        command: Cow::Borrowed("BEGIN"),
        headers: owned(&[("content-length", "0")]),
        body: None,
    };
    let bytes = written(&frame);
    assert_eq!(bytes, b"BEGIN\ncontent-length:0\n\n\0".to_vec());
    assert_eq!(parse_frame(&bytes).unwrap().1.body, Some(&b""[..]));
}

#[test]
fn more_bytes_do_not_change_what_was_found() {
    let whole = b"SEND\na:b\n\nbody\0";
    let broken = b"SEND\na\n\nbody\0";
    for more in [&b""[..], b"\n", b"\r\n", b"x", b"\0"] {
        let mut data = whole.to_vec();
        data.extend_from_slice(more);
        let (_, frame) = parse_frame(&data).unwrap();
        assert_eq!(frame.headers, owned(&[("a", "b")]));
        assert_eq!(frame.body, Some(&b"body"[..]));
        let mut data = broken.to_vec();
        data.extend_from_slice(more);
        assert_eq!(
            parse_frame(&data).unwrap_err(),
            ParseError::Invalid { offset: 5, expected: Expected::LineEnding }
        );
    }
}

#[test]
fn header_lines_end_in_either_line_ending() {
    for eol in ["\n", "\r\n"] {
        let data = format!("A\nk\\c:v\\n\\\\{}empty:{}\n\0", eol, eol);
        let (rest, frame) = parse_frame(data.as_bytes()).unwrap();
        assert!(rest.is_empty());
        assert_eq!(frame.headers, owned(&[("k:", "v\n\\"), ("empty", "")]));
    }
}
