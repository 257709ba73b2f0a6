//! Steps towards the laws: the message that arrives is the message that was sent.
use crate::envelope::{
    extras_apart, extras_survive, lemma_frame_fields, lemma_frame_survives, lemma_received_beyond,
    lemma_received_value, Fields,
};
use crate::error::ErrorModel;
use crate::fields::{heartbeat_header, heartbeat_in};
use crate::from_server::{
    server_command, server_frame, server_keys, server_message, ServerCommand,
};
use crate::grammar::{header_value, FrameModel, HeaderModel};
use crate::heartbeat::{
    heartbeat_bytes, heartbeat_of, heartbeat_text, lemma_decimal_digits, lemma_heartbeat_text,
};
use crate::message::{AckMode, FromServerModel, MessageModel, ToServerModel};
use crate::roundtrip::{is_command, is_readable, lemma_read_decimal, received};
use crate::scan::{decimal, lemma_find_from_is, Stop, COMMA};
use crate::to_server::{
    ack_header, ack_in, client_command, client_frame, client_keys, client_message, ClientCommand,
};
use vstd::prelude::*;

verus! {

/// Reading the text of a heart-beat gives the heart-beat.
pub proof fn lemma_heartbeat_read(heartbeat: (u32, u32))
    ensures
        heartbeat_of(heartbeat_text(heartbeat)) == Ok::<(u32, u32), ErrorModel>(heartbeat),
{
    let bytes = heartbeat_bytes(heartbeat);
    let left = decimal(heartbeat.0 as nat);
    let right = decimal(heartbeat.1 as nat);
    let comma = left.len() as int;
    lemma_heartbeat_text(heartbeat);
    lemma_decimal_digits(heartbeat.0 as nat);
    assert forall|j: int| 0 <= j < comma implies !Stop::Comma.has(#[trigger] bytes[j]) by {
        assert(bytes[j] == left[j]);
    }
    assert(bytes[comma] == COMMA);
    lemma_find_from_is(bytes, 0, Stop::Comma, comma);
    assert(bytes.take(comma) =~= left);
    assert(bytes.skip(comma + 1) =~= right);
    lemma_read_decimal(heartbeat.0 as nat, u32::MAX as int);
    lemma_read_decimal(heartbeat.1 as nat, u32::MAX as int);
}

/// A `heart-beat` header that was written is read back.
proof fn lemma_heartbeat_in(headers: Seq<HeaderModel>, heartbeat: Option<(u32, u32)>)
    requires
        header_value(headers, "heart-beat"@) == heartbeat_header(heartbeat),
    ensures
        heartbeat_in(headers) == Ok::<Option<(u32, u32)>, ErrorModel>(heartbeat),
{
    if let Some(pair) = heartbeat {
        lemma_heartbeat_read(pair);
    }
}

/// An `ack` header that was written is read back.
proof fn lemma_ack_in(headers: Seq<HeaderModel>, ack: Option<AckMode>)
    requires
        header_value(headers, "ack"@) == ack_header(ack),
    ensures
        ack_in(headers) == Ok::<Option<AckMode>, ErrorModel>(ack),
{
    reveal_strlit("auto");
    reveal_strlit("client");
    reveal_strlit("client-individual");
    assert("auto"@.len() == 4 && "client"@.len() == 6 && "client-individual"@.len() == 17);
}

/// The command of what a client says.
pub open spec fn client_command_of(content: ToServerModel) -> ClientCommand {
    match content {
        ToServerModel::Connect { .. } => ClientCommand::Connect,
        ToServerModel::Send { .. } => ClientCommand::Send,
        ToServerModel::Subscribe { .. } => ClientCommand::Subscribe,
        ToServerModel::Unsubscribe { .. } => ClientCommand::Unsubscribe,
        ToServerModel::Ack { .. } => ClientCommand::Ack,
        ToServerModel::Nack { .. } => ClientCommand::Nack,
        ToServerModel::Begin { .. } => ClientCommand::Begin,
        ToServerModel::Commit { .. } => ClientCommand::Commit,
        ToServerModel::Abort { .. } => ClientCommand::Abort,
        ToServerModel::Disconnect { .. } => ClientCommand::Disconnect,
    }
}

/// The commands in upper case and in lower case are commands of clients, and those in upper case
/// are made of letters.
pub proof fn lemma_client_commands()
    ensures
        client_command("STOMP"@) == Some(ClientCommand::Connect),
        client_command("stomp"@) == Some(ClientCommand::Connect),
        client_command("connect"@) == Some(ClientCommand::Connect),
        client_command("disconnect"@) == Some(ClientCommand::Disconnect),
        client_command("send"@) == Some(ClientCommand::Send),
        client_command("subscribe"@) == Some(ClientCommand::Subscribe),
        client_command("unsubscribe"@) == Some(ClientCommand::Unsubscribe),
        client_command("ack"@) == Some(ClientCommand::Ack),
        client_command("nack"@) == Some(ClientCommand::Nack),
        client_command("begin"@) == Some(ClientCommand::Begin),
        client_command("commit"@) == Some(ClientCommand::Commit),
        client_command("abort"@) == Some(ClientCommand::Abort),
        client_command("CONNECT"@) == Some(ClientCommand::Connect),
        client_command("DISCONNECT"@) == Some(ClientCommand::Disconnect),
        client_command("SEND"@) == Some(ClientCommand::Send),
        client_command("SUBSCRIBE"@) == Some(ClientCommand::Subscribe),
        client_command("UNSUBSCRIBE"@) == Some(ClientCommand::Unsubscribe),
        client_command("ACK"@) == Some(ClientCommand::Ack),
        client_command("NACK"@) == Some(ClientCommand::Nack),
        client_command("BEGIN"@) == Some(ClientCommand::Begin),
        client_command("COMMIT"@) == Some(ClientCommand::Commit),
        client_command("ABORT"@) == Some(ClientCommand::Abort),
        is_command("CONNECT"@),
        is_command("DISCONNECT"@),
        is_command("SEND"@),
        is_command("SUBSCRIBE"@),
        is_command("UNSUBSCRIBE"@),
        is_command("ACK"@),
        is_command("NACK"@),
        is_command("BEGIN"@),
        is_command("COMMIT"@),
        is_command("ABORT"@),
{
    reveal_strlit("STOMP");
    reveal_strlit("CONNECT");
    reveal_strlit("stomp");
    reveal_strlit("connect");
    reveal_strlit("DISCONNECT");
    reveal_strlit("disconnect");
    reveal_strlit("SEND");
    reveal_strlit("send");
    reveal_strlit("SUBSCRIBE");
    reveal_strlit("subscribe");
    reveal_strlit("UNSUBSCRIBE");
    reveal_strlit("unsubscribe");
    reveal_strlit("ACK");
    reveal_strlit("ack");
    reveal_strlit("NACK");
    reveal_strlit("nack");
    reveal_strlit("BEGIN");
    reveal_strlit("begin");
    reveal_strlit("COMMIT");
    reveal_strlit("commit");
    reveal_strlit("ABORT");
    reveal_strlit("abort");
    assert("STOMP"@.len() == 5 && "CONNECT"@.len() == 7 && "stomp"@.len() == 5
        && "connect"@.len() == 7 && "DISCONNECT"@.len() == 10 && "disconnect"@.len() == 10
        && "SEND"@.len() == 4 && "send"@.len() == 4 && "SUBSCRIBE"@.len() == 9
        && "subscribe"@.len() == 9 && "UNSUBSCRIBE"@.len() == 11 && "unsubscribe"@.len() == 11
        && "ACK"@.len() == 3 && "ack"@.len() == 3 && "NACK"@.len() == 4
        && "nack"@.len() == 4 && "BEGIN"@.len() == 5 && "begin"@.len() == 5
        && "COMMIT"@.len() == 6 && "commit"@.len() == 6 && "ABORT"@.len() == 5
        && "abort"@.len() == 5);
    assert("SEND"@[0] == 'S' && "send"@[0] == 's' && "NACK"@[0] == 'N' && "nack"@[0] == 'n');
    assert("STOMP"@[0] == 'S' && "stomp"@[0] == 's' && "BEGIN"@[0] == 'B' && "begin"@[0] == 'b'
        && "ABORT"@[0] == 'A' && "abort"@[0] == 'a');
}

/// The lengths and first letters of the keys of headers tell them apart.
pub proof fn lemma_header_keys()
    ensures
        "accept-version"@.len() == 14 && "accept-version"@[0] == 'a',
        "content-length"@.len() == 14 && "content-length"@[0] == 'c',
        "host"@.len() == 4 && "host"@[0] == 'h',
        "login"@.len() == 5 && "login"@[0] == 'l',
        "passcode"@.len() == 8 && "passcode"@[0] == 'p',
        "heart-beat"@.len() == 10 && "heart-beat"@[0] == 'h',
        "receipt"@.len() == 7 && "receipt"@[0] == 'r',
        "destination"@.len() == 11 && "destination"@[0] == 'd',
        "transaction"@.len() == 11 && "transaction"@[0] == 't',
        "content-type"@.len() == 12 && "content-type"@[0] == 'c',
        "id"@.len() == 2 && "id"@[0] == 'i',
        "ack"@.len() == 3 && "ack"@[0] == 'a',
        "version"@.len() == 7 && "version"@[0] == 'v',
        "session"@.len() == 7 && "session"@[0] == 's',
        "server"@.len() == 6 && "server"@[0] == 's',
        "message-id"@.len() == 10 && "message-id"@[0] == 'm',
        "subscription"@.len() == 12 && "subscription"@[0] == 's',
        "receipt-id"@.len() == 10 && "receipt-id"@[0] == 'r',
        "message"@.len() == 7 && "message"@[0] == 'm',
{
    reveal_strlit("accept-version");
    reveal_strlit("content-length");
    reveal_strlit("host");
    reveal_strlit("login");
    reveal_strlit("passcode");
    reveal_strlit("heart-beat");
    reveal_strlit("receipt");
    reveal_strlit("destination");
    reveal_strlit("transaction");
    reveal_strlit("content-type");
    reveal_strlit("id");
    reveal_strlit("ack");
    reveal_strlit("version");
    reveal_strlit("session");
    reveal_strlit("server");
    reveal_strlit("message-id");
    reveal_strlit("subscription");
    reveal_strlit("receipt-id");
    reveal_strlit("message");
}

/// A message to a server that arrives as it was sent: so do its extra headers, and its body is one
/// that the machine can count.
pub open spec fn client_survives(message: MessageModel<ToServerModel>) -> bool {
    &&& extras_survive(
        message.extra_headers,
        client_keys(client_command_of(message.content)),
    )
    &&& message.content matches ToServerModel::Send { body: Some(bytes), .. } ==> bytes.len()
        <= usize::MAX
}

/// The message that arrives at a server is `message`, if that was sent.
pub open spec fn client_arrives(message: MessageModel<ToServerModel>) -> bool {
    &&& is_readable(client_frame(message))
    &&& client_message(received(client_frame(message))) == Ok::<
        MessageModel<ToServerModel>,
        ErrorModel,
    >(message)
}

/// A message's frame is the message. It can be read back, and arrives with its body, if the
/// message arrives as it was sent.
#[verifier::rlimit(40)]
pub proof fn lemma_client_frame(message: MessageModel<ToServerModel>)
    requires
        extras_apart(message.extra_headers, client_keys(client_command_of(message.content))),
    ensures
        client_message(client_frame(message)) == Ok::<MessageModel<ToServerModel>, ErrorModel>(
            message,
        ),
        client_command(client_frame(message).command) == Some(client_command_of(message.content)),
        client_frame(message).body is Some ==> client_keys(
            client_command_of(message.content),
        ).contains("content-length"@),
        client_survives(message) ==> is_readable(client_frame(message)),
        client_survives(message) && client_keys(client_command_of(message.content)).contains(
            "content-length"@,
        ) ==> received(client_frame(message)).body == client_frame(message).body,
{
    let extra = message.extra_headers;
    let h = client_frame(message).headers;
    let keys = client_keys(client_command_of(message.content));
    lemma_client_commands();
    lemma_header_keys();
    let survives = client_survives(message);
    match message.content {
        ToServerModel::Connect { accept_version, host, login, passcode, heartbeat } => {
            let fields: Fields = seq![
                ("accept-version"@, Some(accept_version)),
                ("host"@, Some(host)),
                ("login"@, login),
                ("heart-beat"@, heartbeat_header(heartbeat)),
                ("passcode"@, passcode),
            ];
            assert(keys[0] == fields[0].0);
            assert(keys[1] == fields[1].0);
            assert(keys[2] == fields[2].0);
            assert(keys[4] == fields[3].0);
            assert(keys[3] == fields[4].0);
            lemma_frame_fields("CONNECT"@, fields, None, extra, keys);
            if survives {
                lemma_frame_survives("CONNECT"@, fields, None, extra, keys);
            }
            assert(header_value(h, fields[0].0) == fields[0].1);
            assert(header_value(h, fields[1].0) == fields[1].1);
            assert(header_value(h, fields[2].0) == fields[2].1);
            assert(header_value(h, fields[3].0) == fields[3].1);
            assert(header_value(h, fields[4].0) == fields[4].1);
            lemma_heartbeat_in(h, heartbeat);
        },
        ToServerModel::Disconnect { receipt } => {
            let fields: Fields = seq![("receipt"@, receipt)];
            assert(keys[0] == fields[0].0);
            lemma_frame_fields("DISCONNECT"@, fields, None, extra, keys);
            if survives {
                lemma_frame_survives("DISCONNECT"@, fields, None, extra, keys);
            }
            assert(header_value(h, fields[0].0) == fields[0].1);
        },
        ToServerModel::Send { destination, transaction, content_type, body } => {
            let fields: Fields = seq![
                ("destination"@, Some(destination)),
                ("transaction"@, transaction),
                ("content-type"@, content_type),
            ];
            assert(keys[0] == fields[0].0);
            assert(keys[1] == fields[1].0);
            assert(keys[3] == fields[2].0);
            assert(keys[2] == "content-length"@);
            lemma_frame_fields("SEND"@, fields, body, extra, keys);
            if survives {
                lemma_frame_survives("SEND"@, fields, body, extra, keys);
            }
            assert(header_value(h, fields[0].0) == fields[0].1);
            assert(header_value(h, fields[1].0) == fields[1].1);
            assert(header_value(h, fields[2].0) == fields[2].1);
        },
        ToServerModel::Subscribe { destination, id, ack } => {
            let fields: Fields = seq![
                ("destination"@, Some(destination)),
                ("id"@, Some(id)),
                ("ack"@, ack_header(ack)),
            ];
            assert(keys[0] == fields[0].0);
            assert(keys[1] == fields[1].0);
            assert(keys[2] == fields[2].0);
            lemma_frame_fields("SUBSCRIBE"@, fields, None, extra, keys);
            if survives {
                lemma_frame_survives("SUBSCRIBE"@, fields, None, extra, keys);
            }
            assert(header_value(h, fields[0].0) == fields[0].1);
            assert(header_value(h, fields[1].0) == fields[1].1);
            assert(header_value(h, fields[2].0) == fields[2].1);
            lemma_ack_in(h, ack);
        },
        ToServerModel::Unsubscribe { id } => {
            let fields: Fields = seq![("id"@, Some(id))];
            assert(keys[0] == fields[0].0);
            lemma_frame_fields("UNSUBSCRIBE"@, fields, None, extra, keys);
            if survives {
                lemma_frame_survives("UNSUBSCRIBE"@, fields, None, extra, keys);
            }
            assert(header_value(h, fields[0].0) == fields[0].1);
        },
        ToServerModel::Ack { id, transaction } => {
            let fields: Fields = seq![("id"@, Some(id)), ("transaction"@, transaction)];
            assert(keys[0] == fields[0].0);
            assert(keys[1] == fields[1].0);
            lemma_frame_fields("ACK"@, fields, None, extra, keys);
            if survives {
                lemma_frame_survives("ACK"@, fields, None, extra, keys);
            }
            assert(header_value(h, fields[0].0) == fields[0].1);
            assert(header_value(h, fields[1].0) == fields[1].1);
        },
        ToServerModel::Nack { id, transaction } => {
            let fields: Fields = seq![("id"@, Some(id)), ("transaction"@, transaction)];
            assert(keys[0] == fields[0].0);
            assert(keys[1] == fields[1].0);
            lemma_frame_fields("NACK"@, fields, None, extra, keys);
            if survives {
                lemma_frame_survives("NACK"@, fields, None, extra, keys);
            }
            assert(header_value(h, fields[0].0) == fields[0].1);
            assert(header_value(h, fields[1].0) == fields[1].1);
        },
        ToServerModel::Begin { transaction } => {
            let fields: Fields = seq![("transaction"@, Some(transaction))];
            assert(keys[0] == fields[0].0);
            lemma_frame_fields("BEGIN"@, fields, None, extra, keys);
            if survives {
                lemma_frame_survives("BEGIN"@, fields, None, extra, keys);
            }
            assert(header_value(h, fields[0].0) == fields[0].1);
        },
        ToServerModel::Commit { transaction } => {
            let fields: Fields = seq![("transaction"@, Some(transaction))];
            assert(keys[0] == fields[0].0);
            lemma_frame_fields("COMMIT"@, fields, None, extra, keys);
            if survives {
                lemma_frame_survives("COMMIT"@, fields, None, extra, keys);
            }
            assert(header_value(h, fields[0].0) == fields[0].1);
        },
        ToServerModel::Abort { transaction } => {
            let fields: Fields = seq![("transaction"@, Some(transaction))];
            assert(keys[0] == fields[0].0);
            lemma_frame_fields("ABORT"@, fields, None, extra, keys);
            if survives {
                lemma_frame_survives("ABORT"@, fields, None, extra, keys);
            }
            assert(header_value(h, fields[0].0) == fields[0].1);
        },
    }
}

/// A frame says the same when it arrives, if the header that announces the length of its body is
/// one that the content accounts for.
proof fn lemma_client_received(command: ClientCommand, frame: FrameModel)
    requires
        client_command(frame.command) == Some(command),
        frame.body is Some ==> client_keys(command).contains("content-length"@),
        client_keys(command).contains("content-length"@) ==> received(frame).body == frame.body,
    ensures
        client_message(received(frame)) == client_message(frame),
{
    let keys = client_keys(command);
    lemma_header_keys();
    lemma_received_value(frame, "accept-version"@);
    lemma_received_value(frame, "host"@);
    lemma_received_value(frame, "login"@);
    lemma_received_value(frame, "passcode"@);
    lemma_received_value(frame, "heart-beat"@);
    lemma_received_value(frame, "receipt"@);
    lemma_received_value(frame, "destination"@);
    lemma_received_value(frame, "transaction"@);
    lemma_received_value(frame, "content-type"@);
    lemma_received_value(frame, "id"@);
    lemma_received_value(frame, "ack"@);
    lemma_received_beyond(frame, keys);
    if command == ClientCommand::Send {
        assert(keys[2] == "content-length"@);
    }
}

/// The message that arrives at a server is the message that was sent.
pub proof fn lemma_client_delivery(message: MessageModel<ToServerModel>)
    requires
        client_survives(message),
    ensures
        client_arrives(message),
{
    lemma_client_frame(message);
    lemma_client_received(client_command_of(message.content), client_frame(message));
}

/// The command of what a server says.
pub open spec fn server_command_of(content: FromServerModel) -> ServerCommand {
    match content {
        FromServerModel::Connected { .. } => ServerCommand::Connected,
        FromServerModel::Message { .. } => ServerCommand::Message,
        FromServerModel::Receipt { .. } => ServerCommand::Receipt,
        FromServerModel::Error { .. } => ServerCommand::Error,
    }
}

/// The commands in upper case and in lower case are commands of servers, and those in upper case
/// are made of letters.
pub proof fn lemma_server_commands()
    ensures
        server_command("connected"@) == Some(ServerCommand::Connected),
        server_command("message"@) == Some(ServerCommand::Message),
        server_command("receipt"@) == Some(ServerCommand::Receipt),
        server_command("error"@) == Some(ServerCommand::Error),
        server_command("CONNECTED"@) == Some(ServerCommand::Connected),
        server_command("MESSAGE"@) == Some(ServerCommand::Message),
        server_command("RECEIPT"@) == Some(ServerCommand::Receipt),
        server_command("ERROR"@) == Some(ServerCommand::Error),
        is_command("CONNECTED"@),
        is_command("MESSAGE"@),
        is_command("RECEIPT"@),
        is_command("ERROR"@),
{
    reveal_strlit("CONNECTED");
    reveal_strlit("connected");
    reveal_strlit("MESSAGE");
    reveal_strlit("message");
    reveal_strlit("RECEIPT");
    reveal_strlit("receipt");
    reveal_strlit("ERROR");
    reveal_strlit("error");
    assert("CONNECTED"@.len() == 9 && "connected"@.len() == 9 && "MESSAGE"@.len() == 7
        && "message"@.len() == 7 && "RECEIPT"@.len() == 7 && "receipt"@.len() == 7
        && "ERROR"@.len() == 5 && "error"@.len() == 5);
    assert("RECEIPT"@[0] == 'R' && "receipt"@[0] == 'r' && "MESSAGE"@[0] == 'M' && "message"@[0]
        == 'm');
}

/// A message from a server that arrives as it was sent: so do its extra headers, and its body is
/// one that the machine can count.
pub open spec fn server_survives(message: MessageModel<FromServerModel>) -> bool {
    &&& extras_survive(
        message.extra_headers,
        server_keys(server_command_of(message.content)),
    )
    &&& message.content matches FromServerModel::Message { body: Some(bytes), .. } ==> bytes.len()
        <= usize::MAX
    &&& message.content matches FromServerModel::Error { body: Some(bytes), .. } ==> bytes.len()
        <= usize::MAX
}

/// The message that arrives at a client is `message`, if that was sent.
pub open spec fn server_arrives(message: MessageModel<FromServerModel>) -> bool {
    &&& is_readable(server_frame(message))
    &&& server_message(received(server_frame(message))) == Ok::<
        MessageModel<FromServerModel>,
        ErrorModel,
    >(message)
}

/// A message's frame is the message. It can be read back, and arrives with its body, if the
/// message arrives as it was sent.
#[verifier::rlimit(40)]
pub proof fn lemma_server_frame(message: MessageModel<FromServerModel>)
    requires
        extras_apart(message.extra_headers, server_keys(server_command_of(message.content))),
    ensures
        server_message(server_frame(message)) == Ok::<MessageModel<FromServerModel>, ErrorModel>(
            message,
        ),
        server_command(server_frame(message).command) == Some(server_command_of(message.content)),
        server_frame(message).body is Some ==> server_keys(
            server_command_of(message.content),
        ).contains("content-length"@),
        server_survives(message) ==> is_readable(server_frame(message)),
        server_survives(message) && server_keys(server_command_of(message.content)).contains(
            "content-length"@,
        ) ==> received(server_frame(message)).body == server_frame(message).body,
{
    let extra = message.extra_headers;
    let h = server_frame(message).headers;
    let keys = server_keys(server_command_of(message.content));
    lemma_server_commands();
    lemma_header_keys();
    let survives = server_survives(message);
    match message.content {
        FromServerModel::Connected { version, session, server, heartbeat } => {
            let fields: Fields = seq![
                ("version"@, Some(version)),
                ("heart-beat"@, heartbeat_header(heartbeat)),
                ("session"@, session),
                ("server"@, server),
            ];
            assert(keys[0] == fields[0].0);
            assert(keys[3] == fields[1].0);
            assert(keys[1] == fields[2].0);
            assert(keys[2] == fields[3].0);
            lemma_frame_fields("CONNECTED"@, fields, None, extra, keys);
            if survives {
                lemma_frame_survives("CONNECTED"@, fields, None, extra, keys);
            }
            assert(header_value(h, fields[0].0) == fields[0].1);
            assert(header_value(h, fields[1].0) == fields[1].1);
            assert(header_value(h, fields[2].0) == fields[2].1);
            assert(header_value(h, fields[3].0) == fields[3].1);
            lemma_heartbeat_in(h, heartbeat);
        },
        FromServerModel::Message { destination, message_id, subscription, content_type, body } => {
            let fields: Fields = seq![
                ("subscription"@, Some(subscription)),
                ("message-id"@, Some(message_id)),
                ("destination"@, Some(destination)),
                ("content-type"@, content_type),
            ];
            assert(keys[2] == fields[0].0);
            assert(keys[1] == fields[1].0);
            assert(keys[0] == fields[2].0);
            assert(keys[4] == fields[3].0);
            assert(keys[3] == "content-length"@);
            lemma_frame_fields("MESSAGE"@, fields, body, extra, keys);
            if survives {
                lemma_frame_survives("MESSAGE"@, fields, body, extra, keys);
            }
            assert(header_value(h, fields[0].0) == fields[0].1);
            assert(header_value(h, fields[1].0) == fields[1].1);
            assert(header_value(h, fields[2].0) == fields[2].1);
            assert(header_value(h, fields[3].0) == fields[3].1);
        },
        FromServerModel::Receipt { receipt_id } => {
            let fields: Fields = seq![("receipt-id"@, Some(receipt_id))];
            assert(keys[0] == fields[0].0);
            lemma_frame_fields("RECEIPT"@, fields, None, extra, keys);
            if survives {
                lemma_frame_survives("RECEIPT"@, fields, None, extra, keys);
            }
            assert(header_value(h, fields[0].0) == fields[0].1);
        },
        FromServerModel::Error { message, content_type, body } => {
            let fields: Fields = seq![("message"@, message), ("content-type"@, content_type)];
            assert(keys[0] == fields[0].0);
            assert(keys[2] == fields[1].0);
            assert(keys[1] == "content-length"@);
            lemma_frame_fields("ERROR"@, fields, body, extra, keys);
            if survives {
                lemma_frame_survives("ERROR"@, fields, body, extra, keys);
            }
            assert(header_value(h, fields[0].0) == fields[0].1);
            assert(header_value(h, fields[1].0) == fields[1].1);
        },
    }
}

/// A frame says the same when it arrives, if the header that announces the length of its body is
/// one that the content accounts for.
proof fn lemma_server_received(command: ServerCommand, frame: FrameModel)
    requires
        server_command(frame.command) == Some(command),
        frame.body is Some ==> server_keys(command).contains("content-length"@),
        server_keys(command).contains("content-length"@) ==> received(frame).body == frame.body,
    ensures
        server_message(received(frame)) == server_message(frame),
{
    let keys = server_keys(command);
    lemma_header_keys();
    lemma_received_value(frame, "version"@);
    lemma_received_value(frame, "session"@);
    lemma_received_value(frame, "server"@);
    lemma_received_value(frame, "heart-beat"@);
    lemma_received_value(frame, "destination"@);
    lemma_received_value(frame, "message-id"@);
    lemma_received_value(frame, "subscription"@);
    lemma_received_value(frame, "content-type"@);
    lemma_received_value(frame, "receipt-id"@);
    lemma_received_value(frame, "message"@);
    lemma_received_beyond(frame, keys);
    if command == ServerCommand::Message {
        assert(keys[3] == "content-length"@);
    } else if command == ServerCommand::Error {
        assert(keys[1] == "content-length"@);
    }
}

/// The message that arrives at a client is the message that was sent.
pub proof fn lemma_server_delivery(message: MessageModel<FromServerModel>)
    requires
        server_survives(message),
    ensures
        server_arrives(message),
{
    lemma_server_frame(message);
    lemma_server_received(server_command_of(message.content), server_frame(message));
}

} // verus!
