use bytes::BytesMut;
use tokio_stomp::client::{client_handshake, connect_message, subscribe, ClientCodec};
use tokio_stomp::error::Expected;
use tokio_stomp::server::{
    answer_first, clock_message, handshake_refusal, server_handshake, FirstEvent, ServerCodec,
};
use tokio_stomp::{FromServer, Message, StompError, ToServer};

fn encoded_by_client(messages: Vec<Message<ToServer>>) -> BytesMut {
    let mut buffer = BytesMut::new();
    for message in messages {
        ClientCodec.encode(message, &mut buffer).unwrap();
    }
    buffer
}

fn encoded_by_server(messages: Vec<Message<FromServer>>) -> BytesMut {
    let mut buffer = BytesMut::new();
    for message in messages {
        ServerCodec.encode(message, &mut buffer).unwrap();
    }
    buffer
}

#[test]
fn codecs_add_to_the_end_and_take_from_the_front() {
    let mut buffer = BytesMut::from(&b"\n"[..]);
    ClientCodec.encode(subscribe("rusty".to_string(), "myid".to_string()), &mut buffer).unwrap();
    assert_eq!(&buffer[..], b"\nSUBSCRIBE\ndestination:rusty\nid:myid\n\n\0");
    buffer.extend_from_slice(b"\r\nDISC");
    let message = ServerCodec.decode(&mut buffer).unwrap().unwrap();
    assert!(matches!(
        message.content,
        ToServer::Subscribe { ref destination, ref id, ack: None }
            if destination == "rusty" && id == "myid"
    ));
    assert!(message.extra_headers.is_empty());
    assert_eq!(&buffer[..], b"DISC");
    assert!(ServerCodec.decode(&mut buffer).unwrap().is_none());
    assert_eq!(&buffer[..], b"DISC");
    buffer.extend_from_slice(b"ONNECT\n\n\0");
    let message = ServerCodec.decode(&mut buffer).unwrap().unwrap();
    assert!(matches!(message.content, ToServer::Disconnect { receipt: None }));
    assert!(buffer.is_empty());
}

#[test]
fn the_client_reads_what_the_server_writes() {
    let mut buffer = encoded_by_server(vec![Message {
        content: FromServer::Receipt { receipt_id: "1:2".to_string() },
        extra_headers: vec![],
    }]);
    assert_eq!(&buffer[..], b"RECEIPT\nreceipt-id:1\\c2\n\n\0");
    let message = ClientCodec.decode(&mut buffer).unwrap().unwrap();
    assert!(matches!(
        message.content,
        FromServer::Receipt { ref receipt_id } if receipt_id == "1:2"
    ));
    assert!(buffer.is_empty());
}

#[test]
fn a_frame_that_is_no_message_is_taken() {
    let mut buffer = BytesMut::from(&b"HELLO\n\n\0BEGIN\n\n\0BEGIN\ntransaction:t\n\n\0"[..]);
    assert!(matches!(
        ServerCodec.decode(&mut buffer),
        Err(StompError::UnrecognizedFrame(ref command)) if command == "HELLO"
    ));
    assert!(matches!(
        ServerCodec.decode(&mut buffer),
        Err(StompError::MissingHeader(ref key)) if key == "transaction"
    ));
    assert!(matches!(
        ServerCodec.decode(&mut buffer),
        Ok(Some(Message { content: ToServer::Begin { .. }, .. }))
    ));
    assert!(buffer.is_empty());
    let mut buffer = BytesMut::from(&b"HELLO\n\n\0rest"[..]);
    assert!(matches!(
        ClientCodec.decode(&mut buffer),
        Err(StompError::UnrecognizedFrame(ref command)) if command == "HELLO"
    ));
    assert_eq!(&buffer[..], b"rest");
}

#[test]
fn bytes_that_are_no_frame_stay() {
    let bytes = b"SEND\nbroken\n\n\0";
    let mut buffer = BytesMut::from(&bytes[..]);
    for _ in 0..2 {
        assert!(matches!(
            ServerCodec.decode(&mut buffer),
            Err(StompError::Malformed { offset: 5, expected: Expected::LineEnding })
        ));
        assert_eq!(&buffer[..], bytes);
        assert!(matches!(
            ClientCodec.decode(&mut buffer),
            Err(StompError::Malformed { offset: 5, expected: Expected::LineEnding })
        ));
        assert_eq!(&buffer[..], bytes);
    }
}

#[test]
fn messages_arrive_in_any_pieces() {
    let sent = || {
        vec![
            connect_message("h".to_string(), Some("l".to_string()), None),
            subscribe("d".to_string(), "i".to_string()),
            Message {
                content: ToServer::Send {
                    destination: "d".to_string(),
                    transaction: None,
                    content_type: None,
                    body: Some(b"\0\n\n\0SEND\n\n\0".to_vec()),
                },
                extra_headers: vec![],
            },
            Message { content: ToServer::Disconnect { receipt: None }, extra_headers: vec![] },
        ]
    };
    let bytes = encoded_by_client(sent());
    for size in 1..=bytes.len() {
        let mut read = Vec::new();
        let mut buffer = BytesMut::new();
        for piece in bytes.chunks(size) {
            buffer.extend_from_slice(piece);
            while let Some(message) = ServerCodec.decode(&mut buffer).unwrap() {
                read.push(message);
            }
        }
        assert!(buffer.is_empty());
        assert_eq!(format!("{:?}", read), format!("{:?}", sent()));
    }
}

#[test]
fn a_connection_is_opened() {
    let (login, passcode) = (Some("me".to_string()), Some("pw".to_string()));
    let request = connect_message("host".to_string(), login, passcode);
    let mut buffer = encoded_by_client(vec![request]);
    assert_eq!(
        &buffer[..],
        b"CONNECT\naccept-version:1.2\nhost:host\nlogin:me\npasscode:pw\n\n\0"
    );
    let request = ServerCodec.decode(&mut buffer).unwrap();
    let answer = server_handshake(&request).unwrap();
    let mut buffer = encoded_by_server(vec![answer]);
    assert_eq!(&buffer[..], b"CONNECTED\nversion:1.2\nserver:tokio-stomp/0.4.0\n\n\0");
    let reply = ClientCodec.decode(&mut buffer).unwrap();
    assert!(client_handshake(&reply).is_ok());
}

#[test]
fn a_connection_is_refused() {
    assert!(matches!(server_handshake(&None), Err(StompError::UnexpectedReply)));
    assert!(matches!(client_handshake(&None), Err(StompError::UnexpectedReply)));
    let first = Some(subscribe("d".to_string(), "i".to_string()));
    assert!(matches!(server_handshake(&first), Err(StompError::UnexpectedReply)));
    let mut buffer = encoded_by_server(vec![handshake_refusal()]);
    assert_eq!(&buffer[..], b"ERROR\n\n\0");
    let reply = ClientCodec.decode(&mut buffer).unwrap();
    assert!(matches!(client_handshake(&reply), Err(StompError::UnexpectedReply)));
}

#[test]
fn the_first_event_decides_what_is_sent_and_whether_to_close() {
    let request = connect_message("h".to_string(), None, None);
    let (reply, close) = answer_first(&FirstEvent::Received(Some(request)));
    assert!(matches!(
        reply.content,
        FromServer::Connected { ref version, ref server, session: None, heartbeat: None }
            if version == "1.2" && server.as_deref() == Some("tokio-stomp/0.4.0")
    ));
    assert!(!close);
    let other = subscribe("d".to_string(), "i".to_string());
    for event in [
        FirstEvent::Received(Some(other)),
        FirstEvent::Received(None),
        FirstEvent::Failed,
    ] {
        let (reply, close) = answer_first(&event);
        assert!(matches!(
            reply.content,
            FromServer::Error { message: None, content_type: None, body: None }
        ));
        assert!(reply.extra_headers.is_empty());
        assert!(close);
    }
}

#[test]
fn the_clock_ticks() {
    let mut buffer = encoded_by_server(vec![clock_message("Instant {\n    tv_sec: 1,\n}")]);
    assert_eq!(
        &buffer[..],
        &b"MESSAGE\nsubscription:11\nmessage-id:0.4.0\n\
           destination:now\\c Instant {\\n    tv_sec\\c 1,\\n}\n\
           content-type:application/json\nserver:tokio-stomp/0.4.0\n\n\0"[..]
    );
    let message = ClientCodec.decode(&mut buffer).unwrap().unwrap();
    assert!(matches!(
        message.content,
        FromServer::Message { ref destination, body: None, .. }
            if destination == "now: Instant {\n    tv_sec: 1,\n}"
    ));
    assert_eq!(
        message.extra_headers,
        vec![("server".to_string(), "tokio-stomp/0.4.0".to_string())]
    );
}
