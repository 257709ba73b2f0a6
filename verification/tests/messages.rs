use bytes::BytesMut;
use tokio_stomp::error::{unrecognized_text, Expected};
use tokio_stomp::frame::{expect_header, parse_frame, Frame};
use tokio_stomp::heartbeat::parse_heartbeat;
use tokio_stomp::{AckMode, FromServer, IntegerError, Message, StompError, ToServer};

fn to_server(input: &str) -> Result<Message<ToServer>, StompError> {
    Message::<ToServer>::try_from(&parse_frame(input.as_bytes()).unwrap().1)
}

fn from_server(input: &str) -> Result<Message<FromServer>, StompError> {
    Message::<FromServer>::try_from(&parse_frame(input.as_bytes()).unwrap().1)
}

fn written(frame: &Frame<'_>) -> String {
    let mut buffer = BytesMut::new();
    frame.serialize(&mut buffer);
    String::from_utf8(buffer.to_vec()).unwrap()
}

fn text(s: &str) -> String {
    s.to_string()
}

/// Messages to a server and how they are written.
fn client_messages() -> Vec<(Message<ToServer>, &'static str)> {
    let plain = |content: ToServer| Message { content, extra_headers: vec![] };
    vec![
        (
            plain(ToServer::Connect {
                accept_version: text("1.2"),
                host: text("h"),
                login: None,
                passcode: None,
                heartbeat: None,
            }),
            "CONNECT\naccept-version:1.2\nhost:h\n\n\0",
        ),
        (
            Message {
                content: ToServer::Connect {
                    accept_version: text("1.1,1.2"),
                    host: text("a:b"),
                    login: Some(text("user")),
                    passcode: Some(text("")),
                    heartbeat: Some((0, 4294967295)),
                },
                extra_headers: vec![(text("x"), text("y")), (text("x"), text("\n"))],
            },
            "CONNECT\naccept-version:1.1,1.2\nhost:a\\cb\nlogin:user\nheart-beat:0,4294967295\n\
             passcode:\nx:y\nx:\\n\n\n\0",
        ),
        (
            plain(ToServer::Disconnect { receipt: None }),
            "DISCONNECT\n\n\0",
        ),
        (
            plain(ToServer::Disconnect { receipt: Some(text("77")) }),
            "DISCONNECT\nreceipt:77\n\n\0",
        ),
        (
            plain(ToServer::Send {
                destination: text("/queue/a"),
                transaction: None,
                content_type: None,
                body: None,
            }),
            "SEND\ndestination:/queue/a\n\n\0",
        ),
        (
            Message {
                content: ToServer::Send {
                    destination: text("d"),
                    transaction: Some(text("t")),
                    content_type: Some(text("text/plain")),
                    body: Some(b"a\0b\n\n".to_vec()),
                },
                extra_headers: vec![(text("receipt"), text("1"))],
            },
            "SEND\ndestination:d\ntransaction:t\ncontent-type:text/plain\nreceipt:1\n\
             content-length:5\n\na\0b\n\n\0",
        ),
        (
            plain(ToServer::Send {
                destination: text(""),
                transaction: None,
                content_type: None,
                body: Some(vec![]),
            }),
            "SEND\ndestination:\ncontent-length:0\n\n\0",
        ),
        (
            plain(ToServer::Subscribe { destination: text("d"), id: text("0"), ack: None }),
            "SUBSCRIBE\ndestination:d\nid:0\n\n\0",
        ),
        (
            plain(ToServer::Subscribe {
                destination: text("d"),
                id: text("0"),
                ack: Some(AckMode::Auto),
            }),
            "SUBSCRIBE\ndestination:d\nid:0\nack:auto\n\n\0",
        ),
        (
            plain(ToServer::Subscribe {
                destination: text("d"),
                id: text("0"),
                ack: Some(AckMode::Client),
            }),
            "SUBSCRIBE\ndestination:d\nid:0\nack:client\n\n\0",
        ),
        (
            plain(ToServer::Subscribe {
                destination: text("d"),
                id: text("0"),
                ack: Some(AckMode::ClientIndividual),
            }),
            "SUBSCRIBE\ndestination:d\nid:0\nack:client-individual\n\n\0",
        ),
        (
            plain(ToServer::Unsubscribe { id: text("0") }),
            "UNSUBSCRIBE\nid:0\n\n\0",
        ),
        (
            plain(ToServer::Ack { id: text("1"), transaction: Some(text("t")) }),
            "ACK\nid:1\ntransaction:t\n\n\0",
        ),
        (
            plain(ToServer::Nack { id: text("1"), transaction: None }),
            "NACK\nid:1\n\n\0",
        ),
        (
            plain(ToServer::Begin { transaction: text("t") }),
            "BEGIN\ntransaction:t\n\n\0",
        ),
        (
            plain(ToServer::Commit { transaction: text("t") }),
            "COMMIT\ntransaction:t\n\n\0",
        ),
        (
            Message {
                content: ToServer::Abort { transaction: text("t") },
                extra_headers: vec![(text("content-length"), text("0"))],
            },
            "ABORT\ntransaction:t\ncontent-length:0\n\n\0",
        ),
    ]
}

/// Messages from a server and how they are written.
fn server_messages() -> Vec<(Message<FromServer>, &'static str)> {
    let plain = |content: FromServer| Message { content, extra_headers: vec![] };
    vec![
        (
            plain(FromServer::Connected {
                version: text("1.2"),
                session: None,
                server: None,
                heartbeat: None,
            }),
            "CONNECTED\nversion:1.2\n\n\0",
        ),
        (
            Message {
                content: FromServer::Connected {
                    version: text("1.2"),
                    session: Some(text("ID:1")),
                    server: Some(text("s/1")),
                    heartbeat: Some((10, 200)),
                },
                extra_headers: vec![(text("user"), text("me"))],
            },
            "CONNECTED\nversion:1.2\nheart-beat:10,200\nsession:ID\\c1\nserver:s/1\nuser:me\n\n\0",
        ),
        (
            plain(FromServer::Message {
                destination: text("d"),
                message_id: text("m"),
                subscription: text("s"),
                content_type: None,
                body: None,
            }),
            "MESSAGE\nsubscription:s\nmessage-id:m\ndestination:d\n\n\0",
        ),
        (
            plain(FromServer::Message {
                destination: text("d"),
                message_id: text("m"),
                subscription: text("s"),
                content_type: Some(text("application/json")),
                body: Some(b"{}".to_vec()),
            }),
            "MESSAGE\nsubscription:s\nmessage-id:m\ndestination:d\ncontent-type:application/json\n\
             content-length:2\n\n{}\0",
        ),
        (
            plain(FromServer::Receipt { receipt_id: text("77") }),
            "RECEIPT\nreceipt-id:77\n\n\0",
        ),
        (
            plain(FromServer::Error { message: None, content_type: None, body: None }),
            "ERROR\n\n\0",
        ),
        (
            plain(FromServer::Error {
                message: Some(text("no")),
                content_type: Some(text("text/plain")),
                body: Some(b"\0".to_vec()),
            }),
            "ERROR\nmessage:no\ncontent-type:text/plain\ncontent-length:1\n\n\0\0",
        ),
    ]
}

#[test]
fn client_messages_are_written_and_read_back() {
    for (message, bytes) in client_messages() {
        assert_eq!(written(&Frame::from(&message)), bytes);
        let read = to_server(bytes).unwrap();
        assert_eq!(format!("{:?}", read), format!("{:?}", message));
    }
}

#[test]
fn server_messages_are_written_and_read_back() {
    for (message, bytes) in server_messages() {
        assert_eq!(written(&Frame::from(&message)), bytes);
        let read = from_server(bytes).unwrap();
        assert_eq!(format!("{:?}", read), format!("{:?}", message));
    }
}

#[test]
fn commands_in_lower_case_are_the_same_commands() {
    for (message, bytes) in client_messages() {
        let end = bytes.find('\n').unwrap();
        let lower = bytes[..end].to_lowercase() + &bytes[end..];
        let read = to_server(&lower).unwrap();
        assert_eq!(format!("{:?}", read), format!("{:?}", message));
    }
    for (message, bytes) in server_messages() {
        let end = bytes.find('\n').unwrap();
        let lower = bytes[..end].to_lowercase() + &bytes[end..];
        let read = from_server(&lower).unwrap();
        assert_eq!(format!("{:?}", read), format!("{:?}", message));
    }
    for command in ["STOMP", "stomp"] {
        let read = to_server(&format!("{}\naccept-version:1.2\nhost:h\n\n\0", command)).unwrap();
        assert!(matches!(read.content, ToServer::Connect { .. }));
    }
}

#[test]
fn other_commands_are_not_recognized() {
    for command in ["Send", "sEND", "MESSAGE", "CONNECTED", "XSEND"] {
        assert!(matches!(
            to_server(&format!("{}\ndestination:d\n\n\0", command)),
            Err(StompError::UnrecognizedFrame(ref c)) if c == command
        ));
    }
    for command in ["Message", "SEND", "connect", "stomp"] {
        assert!(matches!(
            from_server(&format!("{}\nmessage-id:m\n\n\0", command)),
            Err(StompError::UnrecognizedFrame(ref c)) if c == command
        ));
    }
}

#[test]
fn mandatory_headers_are_asked_for_in_order() {
    let missing = |r: Result<Message<ToServer>, StompError>| match r {
        Err(StompError::MissingHeader(key)) => key,
        other => panic!("{:?}", other),
    };
    assert_eq!(missing(to_server("CONNECT\n\n\0")), "accept-version");
    assert_eq!(missing(to_server("CONNECT\naccept-version:1.2\n\n\0")), "host");
    assert_eq!(missing(to_server("SEND\n\n\0")), "destination");
    assert_eq!(missing(to_server("SUBSCRIBE\nack:bad\n\n\0")), "destination");
    assert_eq!(missing(to_server("SUBSCRIBE\ndestination:d\nack:bad\n\n\0")), "id");
    assert_eq!(missing(to_server("UNSUBSCRIBE\n\n\0")), "id");
    assert_eq!(missing(to_server("ACK\n\n\0")), "id");
    assert_eq!(missing(to_server("NACK\n\n\0")), "id");
    assert_eq!(missing(to_server("BEGIN\n\n\0")), "transaction");
    assert_eq!(missing(to_server("COMMIT\n\n\0")), "transaction");
    assert_eq!(missing(to_server("ABORT\n\n\0")), "transaction");
    let missing = |r: Result<Message<FromServer>, StompError>| match r {
        Err(StompError::MissingHeader(key)) => key,
        other => panic!("{:?}", other),
    };
    assert_eq!(missing(from_server("CONNECTED\nheart-beat:bad\n\n\0")), "version");
    assert_eq!(missing(from_server("MESSAGE\n\n\0")), "destination");
    assert_eq!(missing(from_server("MESSAGE\ndestination:d\n\n\0")), "message-id");
    assert_eq!(
        missing(from_server("MESSAGE\ndestination:d\nmessage-id:m\n\n\0")),
        "subscription"
    );
    assert_eq!(missing(from_server("RECEIPT\n\n\0")), "receipt-id");
}

#[test]
fn bad_ack_modes_are_refused() {
    for mode in ["", "Auto", "clients", "client-"] {
        assert!(matches!(
            to_server(&format!("SUBSCRIBE\ndestination:d\nid:0\nack:{}\n\n\0", mode)),
            Err(StompError::InvalidAckMode(ref m)) if m == mode
        ));
    }
}

#[test]
fn bad_heartbeats_are_refused() {
    assert!(matches!(
        to_server("CONNECT\nheart-beat:1\n\n\0"),
        Err(StompError::BadHeartbeat)
    ));
    assert!(matches!(
        from_server("CONNECTED\nversion:1.2\nheart-beat:1,x\n\n\0"),
        Err(StompError::InvalidInteger(IntegerError::InvalidDigit))
    ));
    assert_eq!(parse_heartbeat("6,7").unwrap(), (6, 7));
    assert_eq!(parse_heartbeat("+6,007").unwrap(), (6, 7));
    assert!(matches!(parse_heartbeat(""), Err(StompError::BadHeartbeat)));
    assert!(matches!(
        parse_heartbeat(",x"),
        Err(StompError::InvalidInteger(IntegerError::Empty))
    ));
    assert!(matches!(
        parse_heartbeat("1,2,3"),
        Err(StompError::InvalidInteger(IntegerError::InvalidDigit))
    ));
    assert!(matches!(
        parse_heartbeat("4294967296,x"),
        Err(StompError::InvalidInteger(IntegerError::TooLarge))
    ));
    assert!(matches!(
        parse_heartbeat("1, 2"),
        Err(StompError::InvalidInteger(IntegerError::InvalidDigit))
    ));
}

#[test]
fn content_lengths_are_extra_only_where_no_body_is_expected() {
    let read = to_server("SEND\ncontent-length:1\ndestination:d\na:b\n\nx\0").unwrap();
    assert_eq!(read.extra_headers, vec![(text("a"), text("b"))]);
    let read = to_server("BEGIN\ncontent-length:1\ntransaction:t\n\nx\0").unwrap();
    assert_eq!(read.extra_headers, vec![(text("content-length"), text("1"))]);
    let read = from_server("ERROR\ncontent-length:1\nmessage:m\n\nx\0").unwrap();
    assert!(read.extra_headers.is_empty());
    assert!(matches!(read.content, FromServer::Error { body: Some(ref b), .. } if b == b"x"));
}

#[test]
fn a_message_that_was_read_can_be_sent_on() {
    let read = from_server("message\r\nmessage-id:m\nx:1\ndestination:d\nsubscription:s\nx:2\n\nab\0")
        .unwrap();
    let again = written(&Frame::from(&read));
    assert_eq!(
        again,
        "MESSAGE\nsubscription:s\nmessage-id:m\ndestination:d\nx:1\nx:2\ncontent-length:2\n\nab\0"
    );
    let back = from_server(&again).unwrap();
    assert_eq!(format!("{:?}", back), format!("{:?}", read));
}

#[test]
fn errors_say_what_is_wrong() {
    let words = |input: &str| to_server(input).unwrap_err().text("");
    assert_eq!(words("SEND\n\n\0"), "Expected header 'destination' missing");
    assert_eq!(
        words("SUBSCRIBE\ndestination:d\nid:0\nack:Auto\n\n\0"),
        "Invalid ack mode: Auto"
    );
    assert_eq!(words("HELLO\n\n\0"), "Frame not recognized: \"HELLO\"");
    assert_eq!(words("CONNECT\nheart-beat:1\n\n\0"), "Bad heartbeat");
    for (text, number) in [("", ""), ("x", "x"), ("4294967296", "4294967296")] {
        assert_eq!(
            words(&format!("CONNECT\nheart-beat:{},0\n\n\0", text)),
            number.parse::<u32>().unwrap_err().to_string()
        );
    }
    assert_eq!(expect_header(&vec![], "k'").unwrap_err().text("x"), "Expected header 'k'' missing");
    assert_eq!(
        StompError::UnrecognizedFrame("a\"\n\u{e9}".to_string()).text(""),
        format!("Frame not recognized: {:?}", "a\"\n\u{e9}")
    );
    assert_eq!(unrecognized_text("'x'"), "Frame not recognized: 'x'");
    for (expected, code) in [
        (Expected::Alphabetic, nom::error::ErrorKind::Alpha),
        (Expected::LineEnding, nom::error::ErrorKind::CrLf),
        (Expected::Nul, nom::error::ErrorKind::Tag),
    ] {
        let rest = &b"ab\0"[..];
        let error = nom::Err::Error(nom::error::Error { input: rest, code });
        assert_eq!(
            StompError::Malformed { offset: 7, expected }.text(&format!("{:?}", rest)),
            format!("Parse failed: {:?}", error)
        );
    }
    assert_eq!(StompError::UnexpectedReply.text("None"), "unexpected reply: None");
}

#[test]
fn the_frame_of_a_message_is_the_message() {
    for (message, _) in client_messages() {
        let frame = Frame::from(&message);
        let read = Message::<ToServer>::try_from(&frame).unwrap();
        assert_eq!(format!("{:?}", read), format!("{:?}", message));
    }
    for (message, _) in server_messages() {
        let frame = Frame::from(&message);
        let read = Message::<FromServer>::try_from(&frame).unwrap();
        assert_eq!(format!("{:?}", read), format!("{:?}", message));
    }
}
