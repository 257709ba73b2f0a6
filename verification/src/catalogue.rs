//! Laws of the messages, one by one: which frame each is, and what each frame says, whatever the
//! order of its headers; and which first messages open a connection.
use crate::client::{connect_request, is_accepted};
use crate::delivery::{lemma_client_commands, lemma_server_commands};
use crate::error::{
    error_text, expected_name, integer_error_text, outcome, unrecognized_text_of, ErrorModel,
    Expected, IntegerError, StompError,
};
use crate::frame::{headers_beyond, present, Frame};
use crate::from_server::{server_command, server_frame, server_message, ServerCommand};
use crate::grammar::{header_value, FrameModel, HeaderModel};
use crate::heartbeat::{heartbeat_of, heartbeat_text};
use crate::message::{
    body_of, message_of, text_of, AckMode, FromServer, FromServerModel, Message, MessageModel,
    ToServer, ToServerModel,
};
use crate::notation::{has_none, is_first, law_header_is_found};
use crate::server::{
    clock, connected_reply, first_reply, refusal, server_answer, FirstEvent, FirstEventModel,
};
use crate::text::debug_text;
use crate::to_server::{ack_in, client_command, client_frame, client_message, ClientCommand};
use vstd::prelude::*;

verus! {

/* Words */

/// The header with this key, if there is a value.
pub open spec fn maybe(key: Seq<char>, value: Option<Seq<char>>) -> Seq<HeaderModel> {
    match value {
        Some(v) => seq![(key, v)],
        None => seq![],
    }
}

/// Among the headers, wherever it stands, the first with this key has this value; if the value is
/// absent, no header has the key.
pub open spec fn holds(
    headers: Seq<HeaderModel>,
    key: Seq<char>,
    value: Option<Seq<char>>,
) -> bool {
    match value {
        Some(v) => exists|i: int| #[trigger] is_first(headers, i, key) && headers[i].1 == v,
        None => has_none(headers, key),
    }
}

proof fn lemma_holds(headers: Seq<HeaderModel>, key: Seq<char>, value: Option<Seq<char>>)
    requires
        holds(headers, key, value),
    ensures
        header_value(headers, key) == value,
{
    law_header_is_found(headers, key);
}

/// The heart-beat in a header that may be absent.
pub open spec fn heartbeat_from(text: Option<Seq<char>>) -> Result<
    Option<(u32, u32)>,
    ErrorModel,
> {
    match text {
        Some(t) => match heartbeat_of(t) {
            Ok(pair) => Ok(Some(pair)),
            Err(e) => Err(e),
        },
        None => Ok(None),
    }
}

/// The name of an acknowledgement mode.
pub open spec fn mode_name(ack: AckMode) -> Seq<char> {
    match ack {
        AckMode::Auto => "auto"@,
        AckMode::Client => "client"@,
        AckMode::ClientIndividual => "client-individual"@,
    }
}

/// The text of a heart-beat that may be absent.
pub open spec fn beat_text(heartbeat: Option<(u32, u32)>) -> Option<Seq<char>> {
    match heartbeat {
        Some(pair) => Some(heartbeat_text(pair)),
        None => None,
    }
}

/// The name of an acknowledgement mode that may be absent.
pub open spec fn mode_text(ack: Option<AckMode>) -> Option<Seq<char>> {
    match ack {
        Some(mode) => Some(mode_name(mode)),
        None => None,
    }
}

/// The text is the name of the mode.
pub open spec fn names_mode(text: Option<Seq<char>>, ack: Option<AckMode>) -> bool {
    match (text, ack) {
        (Some(t), Some(mode)) => t == mode_name(mode),
        (None, None) => true,
        _ => false,
    }
}

/// The text is the name of no mode.
pub open spec fn names_no_mode(text: Seq<char>) -> bool {
    forall|mode: AckMode| text != #[trigger] mode_name(mode)
}

proof fn lemma_modes(headers: Seq<HeaderModel>, text: Option<Seq<char>>)
    requires
        header_value(headers, "ack"@) == text,
    ensures
        forall|ack: Option<AckMode>| #[trigger]
            names_mode(text, ack) ==> ack_in(headers) == Ok::<Option<AckMode>, ErrorModel>(ack),
        text matches Some(t) && names_no_mode(t) ==> ack_in(headers) == Err::<
            Option<AckMode>,
            ErrorModel,
        >(ErrorModel::InvalidAckMode(text->0)),
{
    reveal_strlit("auto");
    reveal_strlit("client");
    reveal_strlit("client-individual");
    assert("auto"@.len() == 4 && "client"@.len() == 6 && "client-individual"@.len() == 17);
    assert(mode_name(AckMode::Auto) == "auto"@);
    assert(mode_name(AckMode::Client) == "client"@);
    assert(mode_name(AckMode::ClientIndividual) == "client-individual"@);
}

/* Messages as frames */

/// The frame `CONNECT` of a message holds each of its fields under its own key, in this order,
/// followed by the extra headers.
pub proof fn law_connect_is_written(
    accept_version: Seq<char>,
    host: Seq<char>,
    login: Option<Seq<char>>,
    passcode: Option<Seq<char>>,
    heartbeat: Option<(u32, u32)>,
    extra_headers: Seq<HeaderModel>,
)
    ensures
        client_frame(
            MessageModel {
                content: ToServerModel::Connect {
                    accept_version,
                    host,
                    login,
                    passcode,
                    heartbeat,
                },
                extra_headers,
            },
        ) == (FrameModel {
            command: "CONNECT"@,
            headers: maybe("accept-version"@, Some(accept_version))
                + maybe("host"@, Some(host)) + maybe("login"@, login)
                + maybe("heart-beat"@, beat_text(heartbeat)) + maybe("passcode"@, passcode)
                + extra_headers,
            body: None,
        }),
{
    reveal_with_fuel(present, 6);
    let content = ToServerModel::Connect { accept_version, host, login, passcode, heartbeat };
    let frame = client_frame(MessageModel { content, extra_headers });
    assert(frame.headers =~= maybe("accept-version"@, Some(accept_version))
        + maybe("host"@, Some(host)) + maybe("login"@, login)
        + maybe("heart-beat"@, beat_text(heartbeat)) + maybe("passcode"@, passcode)
        + extra_headers);
}

/// A frame `CONNECT` is read by the keys of its headers, whatever their order and whatever other
/// headers there are: each field is the value of the first header with its key.
pub proof fn law_connect_is_read(
    frame: FrameModel,
    accept_version: Option<Seq<char>>,
    host: Option<Seq<char>>,
    login: Option<Seq<char>>,
    heartbeat: Option<Seq<char>>,
    passcode: Option<Seq<char>>,
)
    requires
        frame.command == "STOMP"@ || frame.command == "stomp"@ || frame.command == "CONNECT"@
            || frame.command == "connect"@,
        holds(frame.headers, "accept-version"@, accept_version),
        holds(frame.headers, "host"@, host),
        holds(frame.headers, "login"@, login),
        holds(frame.headers, "heart-beat"@, heartbeat),
        holds(frame.headers, "passcode"@, passcode),
    ensures
        heartbeat_from(heartbeat) is Err ==> client_message(frame) == Err::<
            MessageModel<ToServerModel>,
            ErrorModel,
        >(heartbeat_from(heartbeat)->Err_0),
        heartbeat_from(heartbeat) is Ok && accept_version is None ==> client_message(frame)
            == Err::<
            MessageModel<ToServerModel>,
            ErrorModel,
        >(ErrorModel::MissingHeader("accept-version"@)),
        heartbeat_from(heartbeat) is Ok && accept_version is Some && host is None
            ==> client_message(frame) == Err::<
            MessageModel<ToServerModel>,
            ErrorModel,
        >(ErrorModel::MissingHeader("host"@)),
        heartbeat_from(heartbeat) is Ok && accept_version is Some && host is Some
            ==> client_message(frame) == Ok::<MessageModel<ToServerModel>, ErrorModel>(
            MessageModel {
                content: ToServerModel::Connect {
                    accept_version: accept_version->0,
                    host: host->0,
                    login,
                    passcode,
                    heartbeat: heartbeat_from(heartbeat)->Ok_0,
                },
                extra_headers: headers_beyond(
                    frame.headers,
                    seq!["accept-version"@, "host"@, "login"@, "passcode"@, "heart-beat"@],
                ),
            },
        ),
{
    lemma_client_commands();
    lemma_holds(frame.headers, "accept-version"@, accept_version);
    lemma_holds(frame.headers, "host"@, host);
    lemma_holds(frame.headers, "login"@, login);
    lemma_holds(frame.headers, "heart-beat"@, heartbeat);
    lemma_holds(frame.headers, "passcode"@, passcode);
    assert(client_command(frame.command) == Some(ClientCommand::Connect));
}

/// The frame `DISCONNECT` of a message holds each of its fields under its own key, in this order,
/// followed by the extra headers.
pub proof fn law_disconnect_is_written(
    receipt: Option<Seq<char>>,
    extra_headers: Seq<HeaderModel>,
)
    ensures
        client_frame(
            MessageModel {
                content: ToServerModel::Disconnect { receipt },
                extra_headers,
            },
        ) == (FrameModel {
            command: "DISCONNECT"@,
            headers: maybe("receipt"@, receipt) + extra_headers,
            body: None,
        }),
{
    reveal_with_fuel(present, 2);
    let content = ToServerModel::Disconnect { receipt };
    let frame = client_frame(MessageModel { content, extra_headers });
    assert(frame.headers =~= maybe("receipt"@, receipt) + extra_headers);
}

/// A frame `DISCONNECT` is read by the keys of its headers, whatever their order and whatever
/// other headers there are: each field is the value of the first header with its key.
pub proof fn law_disconnect_is_read(
    frame: FrameModel,
    receipt: Option<Seq<char>>,
)
    requires
        frame.command == "DISCONNECT"@ || frame.command == "disconnect"@,
        holds(frame.headers, "receipt"@, receipt),
    ensures
        client_message(frame) == Ok::<MessageModel<ToServerModel>, ErrorModel>(
            MessageModel {
                content: ToServerModel::Disconnect { receipt },
                extra_headers: headers_beyond(
                    frame.headers,
                    seq!["receipt"@],
                ),
            },
        ),
{
    lemma_client_commands();
    lemma_holds(frame.headers, "receipt"@, receipt);
    assert(client_command(frame.command) == Some(ClientCommand::Disconnect));
}

/// The frame `SEND` of a message holds each of its fields under its own key, in this order,
/// followed by the extra headers.
pub proof fn law_send_is_written(
    destination: Seq<char>,
    transaction: Option<Seq<char>>,
    content_type: Option<Seq<char>>,
    body: Option<Seq<u8>>,
    extra_headers: Seq<HeaderModel>,
)
    ensures
        client_frame(
            MessageModel {
                content: ToServerModel::Send { destination, transaction, content_type, body },
                extra_headers,
            },
        ) == (FrameModel {
            command: "SEND"@,
            headers: maybe("destination"@, Some(destination))
                + maybe("transaction"@, transaction) + maybe("content-type"@, content_type)
                + extra_headers,
            body: body,
        }),
{
    reveal_with_fuel(present, 4);
    let content = ToServerModel::Send { destination, transaction, content_type, body };
    let frame = client_frame(MessageModel { content, extra_headers });
    assert(frame.headers =~= maybe("destination"@, Some(destination))
        + maybe("transaction"@, transaction) + maybe("content-type"@, content_type)
        + extra_headers);
}

/// A frame `SEND` is read by the keys of its headers, whatever their order and whatever other
/// headers there are: each field is the value of the first header with its key, and the body is
/// the body of the frame.
pub proof fn law_send_is_read(
    frame: FrameModel,
    destination: Option<Seq<char>>,
    transaction: Option<Seq<char>>,
    content_type: Option<Seq<char>>,
)
    requires
        frame.command == "SEND"@ || frame.command == "send"@,
        holds(frame.headers, "destination"@, destination),
        holds(frame.headers, "transaction"@, transaction),
        holds(frame.headers, "content-type"@, content_type),
    ensures
        destination is None ==> client_message(frame) == Err::<
            MessageModel<ToServerModel>,
            ErrorModel,
        >(ErrorModel::MissingHeader("destination"@)),
        destination is Some ==> client_message(frame)
            == Ok::<MessageModel<ToServerModel>, ErrorModel>(
            MessageModel {
                content: ToServerModel::Send {
                    destination: destination->0,
                    transaction,
                    content_type,
                    body: frame.body,
                },
                extra_headers: headers_beyond(
                    frame.headers,
                    seq!["destination"@, "transaction"@, "content-length"@, "content-type"@],
                ),
            },
        ),
{
    lemma_client_commands();
    lemma_holds(frame.headers, "destination"@, destination);
    lemma_holds(frame.headers, "transaction"@, transaction);
    lemma_holds(frame.headers, "content-type"@, content_type);
    assert(client_command(frame.command) == Some(ClientCommand::Send));
}

/// The frame `SUBSCRIBE` of a message holds each of its fields under its own key, in this order,
/// followed by the extra headers.
pub proof fn law_subscribe_is_written(
    destination: Seq<char>,
    id: Seq<char>,
    ack: Option<AckMode>,
    extra_headers: Seq<HeaderModel>,
)
    ensures
        client_frame(
            MessageModel {
                content: ToServerModel::Subscribe { destination, id, ack },
                extra_headers,
            },
        ) == (FrameModel {
            command: "SUBSCRIBE"@,
            headers: maybe("destination"@, Some(destination)) + maybe("id"@, Some(id))
                + maybe("ack"@, mode_text(ack)) + extra_headers,
            body: None,
        }),
{
    reveal_with_fuel(present, 4);
    let content = ToServerModel::Subscribe { destination, id, ack };
    let frame = client_frame(MessageModel { content, extra_headers });
    assert(frame.headers =~= maybe("destination"@, Some(destination)) + maybe("id"@, Some(id))
        + maybe("ack"@, mode_text(ack)) + extra_headers);
}

/// A frame `SUBSCRIBE` is read by the keys of its headers, whatever their order and whatever other
/// headers there are: each field is the value of the first header with its key.
pub proof fn law_subscribe_is_read(
    frame: FrameModel,
    destination: Option<Seq<char>>,
    id: Option<Seq<char>>,
    ack: Option<Seq<char>>,
    mode: Option<AckMode>,
)
    requires
        frame.command == "SUBSCRIBE"@ || frame.command == "subscribe"@,
        holds(frame.headers, "destination"@, destination),
        holds(frame.headers, "id"@, id),
        holds(frame.headers, "ack"@, ack),
    ensures
        destination is None ==> client_message(frame) == Err::<
            MessageModel<ToServerModel>,
            ErrorModel,
        >(ErrorModel::MissingHeader("destination"@)),
        destination is Some && id is None ==> client_message(frame) == Err::<
            MessageModel<ToServerModel>,
            ErrorModel,
        >(ErrorModel::MissingHeader("id"@)),
        destination is Some && id is Some && ack is Some && names_no_mode(ack->0)
            ==> client_message(frame) == Err::<
            MessageModel<ToServerModel>,
            ErrorModel,
        >(ErrorModel::InvalidAckMode(ack->0)),
        destination is Some && id is Some && names_mode(ack, mode) ==> client_message(frame)
            == Ok::<MessageModel<ToServerModel>, ErrorModel>(
            MessageModel {
                content: ToServerModel::Subscribe {
                    destination: destination->0,
                    id: id->0,
                    ack: mode,
                },
                extra_headers: headers_beyond(
                    frame.headers,
                    seq!["destination"@, "id"@, "ack"@],
                ),
            },
        ),
{
    lemma_client_commands();
    lemma_holds(frame.headers, "destination"@, destination);
    lemma_holds(frame.headers, "id"@, id);
    lemma_holds(frame.headers, "ack"@, ack);
    lemma_modes(frame.headers, ack);
    assert(names_mode(ack, mode) ==> ack_in(frame.headers)
        == Ok::<Option<AckMode>, ErrorModel>(mode));
    assert(client_command(frame.command) == Some(ClientCommand::Subscribe));
}

/// The frame `UNSUBSCRIBE` of a message holds each of its fields under its own key, in this order,
/// followed by the extra headers.
pub proof fn law_unsubscribe_is_written(
    id: Seq<char>,
    extra_headers: Seq<HeaderModel>,
)
    ensures
        client_frame(
            MessageModel {
                content: ToServerModel::Unsubscribe { id },
                extra_headers,
            },
        ) == (FrameModel {
            command: "UNSUBSCRIBE"@,
            headers: maybe("id"@, Some(id)) + extra_headers,
            body: None,
        }),
{
    reveal_with_fuel(present, 2);
    let content = ToServerModel::Unsubscribe { id };
    let frame = client_frame(MessageModel { content, extra_headers });
    assert(frame.headers =~= maybe("id"@, Some(id)) + extra_headers);
}

/// A frame `UNSUBSCRIBE` is read by the keys of its headers, whatever their order and whatever
/// other headers there are: each field is the value of the first header with its key.
pub proof fn law_unsubscribe_is_read(
    frame: FrameModel,
    id: Option<Seq<char>>,
)
    requires
        frame.command == "UNSUBSCRIBE"@ || frame.command == "unsubscribe"@,
        holds(frame.headers, "id"@, id),
    ensures
        id is None ==> client_message(frame) == Err::<
            MessageModel<ToServerModel>,
            ErrorModel,
        >(ErrorModel::MissingHeader("id"@)),
        id is Some ==> client_message(frame) == Ok::<MessageModel<ToServerModel>, ErrorModel>(
            MessageModel {
                content: ToServerModel::Unsubscribe { id: id->0 },
                extra_headers: headers_beyond(
                    frame.headers,
                    seq!["id"@],
                ),
            },
        ),
{
    lemma_client_commands();
    lemma_holds(frame.headers, "id"@, id);
    assert(client_command(frame.command) == Some(ClientCommand::Unsubscribe));
}

/// The frame `ACK` of a message holds each of its fields under its own key, in this order,
/// followed by the extra headers.
pub proof fn law_ack_is_written(
    id: Seq<char>,
    transaction: Option<Seq<char>>,
    extra_headers: Seq<HeaderModel>,
)
    ensures
        client_frame(
            MessageModel {
                content: ToServerModel::Ack { id, transaction },
                extra_headers,
            },
        ) == (FrameModel {
            command: "ACK"@,
            headers: maybe("id"@, Some(id)) + maybe("transaction"@, transaction) + extra_headers,
            body: None,
        }),
{
    reveal_with_fuel(present, 3);
    let content = ToServerModel::Ack { id, transaction };
    let frame = client_frame(MessageModel { content, extra_headers });
    assert(frame.headers =~= maybe("id"@, Some(id)) + maybe("transaction"@, transaction)
        + extra_headers);
}

/// A frame `ACK` is read by the keys of its headers, whatever their order and whatever other
/// headers there are: each field is the value of the first header with its key.
pub proof fn law_ack_is_read(
    frame: FrameModel,
    id: Option<Seq<char>>,
    transaction: Option<Seq<char>>,
)
    requires
        frame.command == "ACK"@ || frame.command == "ack"@,
        holds(frame.headers, "id"@, id),
        holds(frame.headers, "transaction"@, transaction),
    ensures
        id is None ==> client_message(frame) == Err::<
            MessageModel<ToServerModel>,
            ErrorModel,
        >(ErrorModel::MissingHeader("id"@)),
        id is Some ==> client_message(frame) == Ok::<MessageModel<ToServerModel>, ErrorModel>(
            MessageModel {
                content: ToServerModel::Ack { id: id->0, transaction },
                extra_headers: headers_beyond(
                    frame.headers,
                    seq!["id"@, "transaction"@],
                ),
            },
        ),
{
    lemma_client_commands();
    lemma_holds(frame.headers, "id"@, id);
    lemma_holds(frame.headers, "transaction"@, transaction);
    assert(client_command(frame.command) == Some(ClientCommand::Ack));
}

/// The frame `NACK` of a message holds each of its fields under its own key, in this order,
/// followed by the extra headers.
pub proof fn law_nack_is_written(
    id: Seq<char>,
    transaction: Option<Seq<char>>,
    extra_headers: Seq<HeaderModel>,
)
    ensures
        client_frame(
            MessageModel {
                content: ToServerModel::Nack { id, transaction },
                extra_headers,
            },
        ) == (FrameModel {
            command: "NACK"@,
            headers: maybe("id"@, Some(id)) + maybe("transaction"@, transaction) + extra_headers,
            body: None,
        }),
{
    reveal_with_fuel(present, 3);
    let content = ToServerModel::Nack { id, transaction };
    let frame = client_frame(MessageModel { content, extra_headers });
    assert(frame.headers =~= maybe("id"@, Some(id)) + maybe("transaction"@, transaction)
        + extra_headers);
}

/// A frame `NACK` is read by the keys of its headers, whatever their order and whatever other
/// headers there are: each field is the value of the first header with its key.
pub proof fn law_nack_is_read(
    frame: FrameModel,
    id: Option<Seq<char>>,
    transaction: Option<Seq<char>>,
)
    requires
        frame.command == "NACK"@ || frame.command == "nack"@,
        holds(frame.headers, "id"@, id),
        holds(frame.headers, "transaction"@, transaction),
    ensures
        id is None ==> client_message(frame) == Err::<
            MessageModel<ToServerModel>,
            ErrorModel,
        >(ErrorModel::MissingHeader("id"@)),
        id is Some ==> client_message(frame) == Ok::<MessageModel<ToServerModel>, ErrorModel>(
            MessageModel {
                content: ToServerModel::Nack { id: id->0, transaction },
                extra_headers: headers_beyond(
                    frame.headers,
                    seq!["id"@, "transaction"@],
                ),
            },
        ),
{
    lemma_client_commands();
    lemma_holds(frame.headers, "id"@, id);
    lemma_holds(frame.headers, "transaction"@, transaction);
    assert(client_command(frame.command) == Some(ClientCommand::Nack));
}

/// The frame `BEGIN` of a message holds each of its fields under its own key, in this order,
/// followed by the extra headers.
pub proof fn law_begin_is_written(
    transaction: Seq<char>,
    extra_headers: Seq<HeaderModel>,
)
    ensures
        client_frame(
            MessageModel {
                content: ToServerModel::Begin { transaction },
                extra_headers,
            },
        ) == (FrameModel {
            command: "BEGIN"@,
            headers: maybe("transaction"@, Some(transaction)) + extra_headers,
            body: None,
        }),
{
    reveal_with_fuel(present, 2);
    let content = ToServerModel::Begin { transaction };
    let frame = client_frame(MessageModel { content, extra_headers });
    assert(frame.headers =~= maybe("transaction"@, Some(transaction)) + extra_headers);
}

/// A frame `BEGIN` is read by the keys of its headers, whatever their order and whatever other
/// headers there are: each field is the value of the first header with its key.
pub proof fn law_begin_is_read(
    frame: FrameModel,
    transaction: Option<Seq<char>>,
)
    requires
        frame.command == "BEGIN"@ || frame.command == "begin"@,
        holds(frame.headers, "transaction"@, transaction),
    ensures
        transaction is None ==> client_message(frame) == Err::<
            MessageModel<ToServerModel>,
            ErrorModel,
        >(ErrorModel::MissingHeader("transaction"@)),
        transaction is Some ==> client_message(frame)
            == Ok::<MessageModel<ToServerModel>, ErrorModel>(
            MessageModel {
                content: ToServerModel::Begin { transaction: transaction->0 },
                extra_headers: headers_beyond(
                    frame.headers,
                    seq!["transaction"@],
                ),
            },
        ),
{
    lemma_client_commands();
    lemma_holds(frame.headers, "transaction"@, transaction);
    assert(client_command(frame.command) == Some(ClientCommand::Begin));
}

/// The frame `COMMIT` of a message holds each of its fields under its own key, in this order,
/// followed by the extra headers.
pub proof fn law_commit_is_written(
    transaction: Seq<char>,
    extra_headers: Seq<HeaderModel>,
)
    ensures
        client_frame(
            MessageModel {
                content: ToServerModel::Commit { transaction },
                extra_headers,
            },
        ) == (FrameModel {
            command: "COMMIT"@,
            headers: maybe("transaction"@, Some(transaction)) + extra_headers,
            body: None,
        }),
{
    reveal_with_fuel(present, 2);
    let content = ToServerModel::Commit { transaction };
    let frame = client_frame(MessageModel { content, extra_headers });
    assert(frame.headers =~= maybe("transaction"@, Some(transaction)) + extra_headers);
}

/// A frame `COMMIT` is read by the keys of its headers, whatever their order and whatever other
/// headers there are: each field is the value of the first header with its key.
pub proof fn law_commit_is_read(
    frame: FrameModel,
    transaction: Option<Seq<char>>,
)
    requires
        frame.command == "COMMIT"@ || frame.command == "commit"@,
        holds(frame.headers, "transaction"@, transaction),
    ensures
        transaction is None ==> client_message(frame) == Err::<
            MessageModel<ToServerModel>,
            ErrorModel,
        >(ErrorModel::MissingHeader("transaction"@)),
        transaction is Some ==> client_message(frame)
            == Ok::<MessageModel<ToServerModel>, ErrorModel>(
            MessageModel {
                content: ToServerModel::Commit { transaction: transaction->0 },
                extra_headers: headers_beyond(
                    frame.headers,
                    seq!["transaction"@],
                ),
            },
        ),
{
    lemma_client_commands();
    lemma_holds(frame.headers, "transaction"@, transaction);
    assert(client_command(frame.command) == Some(ClientCommand::Commit));
}

/// The frame `ABORT` of a message holds each of its fields under its own key, in this order,
/// followed by the extra headers.
pub proof fn law_abort_is_written(
    transaction: Seq<char>,
    extra_headers: Seq<HeaderModel>,
)
    ensures
        client_frame(
            MessageModel {
                content: ToServerModel::Abort { transaction },
                extra_headers,
            },
        ) == (FrameModel {
            command: "ABORT"@,
            headers: maybe("transaction"@, Some(transaction)) + extra_headers,
            body: None,
        }),
{
    reveal_with_fuel(present, 2);
    let content = ToServerModel::Abort { transaction };
    let frame = client_frame(MessageModel { content, extra_headers });
    assert(frame.headers =~= maybe("transaction"@, Some(transaction)) + extra_headers);
}

/// A frame `ABORT` is read by the keys of its headers, whatever their order and whatever other
/// headers there are: each field is the value of the first header with its key.
pub proof fn law_abort_is_read(
    frame: FrameModel,
    transaction: Option<Seq<char>>,
)
    requires
        frame.command == "ABORT"@ || frame.command == "abort"@,
        holds(frame.headers, "transaction"@, transaction),
    ensures
        transaction is None ==> client_message(frame) == Err::<
            MessageModel<ToServerModel>,
            ErrorModel,
        >(ErrorModel::MissingHeader("transaction"@)),
        transaction is Some ==> client_message(frame)
            == Ok::<MessageModel<ToServerModel>, ErrorModel>(
            MessageModel {
                content: ToServerModel::Abort { transaction: transaction->0 },
                extra_headers: headers_beyond(
                    frame.headers,
                    seq!["transaction"@],
                ),
            },
        ),
{
    lemma_client_commands();
    lemma_holds(frame.headers, "transaction"@, transaction);
    assert(client_command(frame.command) == Some(ClientCommand::Abort));
}

/// A frame with any other command is refused, and the error names the command.
pub proof fn law_client_command_is_unknown(frame: FrameModel)
    requires
        frame.command != "STOMP"@,
        frame.command != "stomp"@,
        frame.command != "CONNECT"@,
        frame.command != "connect"@,
        frame.command != "DISCONNECT"@,
        frame.command != "disconnect"@,
        frame.command != "SEND"@,
        frame.command != "send"@,
        frame.command != "SUBSCRIBE"@,
        frame.command != "subscribe"@,
        frame.command != "UNSUBSCRIBE"@,
        frame.command != "unsubscribe"@,
        frame.command != "ACK"@,
        frame.command != "ack"@,
        frame.command != "NACK"@,
        frame.command != "nack"@,
        frame.command != "BEGIN"@,
        frame.command != "begin"@,
        frame.command != "COMMIT"@,
        frame.command != "commit"@,
        frame.command != "ABORT"@,
        frame.command != "abort"@,
    ensures
        client_message(frame) == Err::<MessageModel<ToServerModel>, ErrorModel>(
            ErrorModel::UnrecognizedFrame(frame.command),
        ),
{
}

/// What a frame says depends on its command, on its body, and on which value is found first under
/// each key; headers with different keys may change places.
pub proof fn law_client_headers_in_any_order(a: FrameModel, b: FrameModel)
    requires
        a.command == b.command,
        a.body == b.body,
        forall|key: Seq<char>| #[trigger]
            header_value(a.headers, key) == header_value(b.headers, key),
    ensures
        match (client_message(a), client_message(b)) {
            (Ok(x), Ok(y)) => x.content == y.content,
            (Err(x), Err(y)) => x == y,
            _ => false,
        },
{
}

/// The frame `CONNECTED` of a message holds each of its fields under its own key, in this order,
/// followed by the extra headers.
pub proof fn law_connected_is_written(
    version: Seq<char>,
    session: Option<Seq<char>>,
    server: Option<Seq<char>>,
    heartbeat: Option<(u32, u32)>,
    extra_headers: Seq<HeaderModel>,
)
    ensures
        server_frame(
            MessageModel {
                content: FromServerModel::Connected { version, session, server, heartbeat },
                extra_headers,
            },
        ) == (FrameModel {
            command: "CONNECTED"@,
            headers: maybe("version"@, Some(version))
            + maybe("heart-beat"@, beat_text(heartbeat)) + maybe("session"@, session)
            + maybe("server"@, server) + extra_headers,
            body: None,
        }),
{
    reveal_with_fuel(present, 5);
    let content = FromServerModel::Connected { version, session, server, heartbeat };
    let frame = server_frame(MessageModel { content, extra_headers });
    assert(frame.headers =~= maybe("version"@, Some(version))
        + maybe("heart-beat"@, beat_text(heartbeat)) + maybe("session"@, session)
        + maybe("server"@, server) + extra_headers);
}

/// A frame `CONNECTED` is read by the keys of its headers, whatever their order and whatever other
/// headers there are: each field is the value of the first header with its key.
pub proof fn law_connected_is_read(
    frame: FrameModel,
    version: Option<Seq<char>>,
    heartbeat: Option<Seq<char>>,
    session: Option<Seq<char>>,
    server: Option<Seq<char>>,
)
    requires
        frame.command == "CONNECTED"@ || frame.command == "connected"@,
        holds(frame.headers, "version"@, version),
        holds(frame.headers, "heart-beat"@, heartbeat),
        holds(frame.headers, "session"@, session),
        holds(frame.headers, "server"@, server),
    ensures
        version is None ==> server_message(frame) == Err::<
            MessageModel<FromServerModel>,
            ErrorModel,
        >(ErrorModel::MissingHeader("version"@)),
        version is Some && heartbeat_from(heartbeat) is Err ==> server_message(frame) == Err::<
            MessageModel<FromServerModel>,
            ErrorModel,
        >(heartbeat_from(heartbeat)->Err_0),
        version is Some && heartbeat_from(heartbeat) is Ok ==> server_message(frame)
            == Ok::<MessageModel<FromServerModel>, ErrorModel>(
            MessageModel {
                content: FromServerModel::Connected {
                    version: version->0,
                    session,
                    server,
                    heartbeat: heartbeat_from(heartbeat)->Ok_0,
                },
                extra_headers: headers_beyond(
                    frame.headers,
                    seq!["version"@, "session"@, "server"@, "heart-beat"@],
                ),
            },
        ),
{
    lemma_server_commands();
    lemma_holds(frame.headers, "version"@, version);
    lemma_holds(frame.headers, "heart-beat"@, heartbeat);
    lemma_holds(frame.headers, "session"@, session);
    lemma_holds(frame.headers, "server"@, server);
    assert(server_command(frame.command) == Some(ServerCommand::Connected));
}

/// The frame `MESSAGE` of a message holds each of its fields under its own key, in this order,
/// followed by the extra headers.
pub proof fn law_message_is_written(
    destination: Seq<char>,
    message_id: Seq<char>,
    subscription: Seq<char>,
    content_type: Option<Seq<char>>,
    body: Option<Seq<u8>>,
    extra_headers: Seq<HeaderModel>,
)
    ensures
        server_frame(
            MessageModel {
                content: FromServerModel::Message {
                    destination,
                    message_id,
                    subscription,
                    content_type,
                    body,
                },
                extra_headers,
            },
        ) == (FrameModel {
            command: "MESSAGE"@,
            headers: maybe("subscription"@, Some(subscription))
                + maybe("message-id"@, Some(message_id))
                + maybe("destination"@, Some(destination))
                + maybe("content-type"@, content_type) + extra_headers,
            body: body,
        }),
{
    reveal_with_fuel(present, 5);
    let content = FromServerModel::Message { destination, message_id, subscription, content_type, body };
    let frame = server_frame(MessageModel { content, extra_headers });
    assert(frame.headers =~= maybe("subscription"@, Some(subscription))
        + maybe("message-id"@, Some(message_id)) + maybe("destination"@, Some(destination))
        + maybe("content-type"@, content_type) + extra_headers);
}

/// A frame `MESSAGE` is read by the keys of its headers, whatever their order and whatever other
/// headers there are: each field is the value of the first header with its key, and the body is
/// the body of the frame.
pub proof fn law_message_is_read(
    frame: FrameModel,
    subscription: Option<Seq<char>>,
    message_id: Option<Seq<char>>,
    destination: Option<Seq<char>>,
    content_type: Option<Seq<char>>,
)
    requires
        frame.command == "MESSAGE"@ || frame.command == "message"@,
        holds(frame.headers, "subscription"@, subscription),
        holds(frame.headers, "message-id"@, message_id),
        holds(frame.headers, "destination"@, destination),
        holds(frame.headers, "content-type"@, content_type),
    ensures
        destination is None ==> server_message(frame) == Err::<
            MessageModel<FromServerModel>,
            ErrorModel,
        >(ErrorModel::MissingHeader("destination"@)),
        destination is Some && message_id is None ==> server_message(frame) == Err::<
            MessageModel<FromServerModel>,
            ErrorModel,
        >(ErrorModel::MissingHeader("message-id"@)),
        destination is Some && message_id is Some && subscription is None
            ==> server_message(frame) == Err::<
            MessageModel<FromServerModel>,
            ErrorModel,
        >(ErrorModel::MissingHeader("subscription"@)),
        destination is Some && message_id is Some && subscription is Some
            ==> server_message(frame) == Ok::<MessageModel<FromServerModel>, ErrorModel>(
            MessageModel {
                content: FromServerModel::Message {
                    destination: destination->0,
                    message_id: message_id->0,
                    subscription: subscription->0,
                    content_type,
                    body: frame.body,
                },
                extra_headers: headers_beyond(
                    frame.headers,
                    seq!["destination"@, "message-id"@, "subscription"@, "content-length"@,
                        "content-type"@],
                ),
            },
        ),
{
    lemma_server_commands();
    lemma_holds(frame.headers, "subscription"@, subscription);
    lemma_holds(frame.headers, "message-id"@, message_id);
    lemma_holds(frame.headers, "destination"@, destination);
    lemma_holds(frame.headers, "content-type"@, content_type);
    assert(server_command(frame.command) == Some(ServerCommand::Message));
}

/// The frame `RECEIPT` of a message holds each of its fields under its own key, in this order,
/// followed by the extra headers.
pub proof fn law_receipt_is_written(
    receipt_id: Seq<char>,
    extra_headers: Seq<HeaderModel>,
)
    ensures
        server_frame(
            MessageModel {
                content: FromServerModel::Receipt { receipt_id },
                extra_headers,
            },
        ) == (FrameModel {
            command: "RECEIPT"@,
            headers: maybe("receipt-id"@, Some(receipt_id)) + extra_headers,
            body: None,
        }),
{
    reveal_with_fuel(present, 2);
    let content = FromServerModel::Receipt { receipt_id };
    let frame = server_frame(MessageModel { content, extra_headers });
    assert(frame.headers =~= maybe("receipt-id"@, Some(receipt_id)) + extra_headers);
}

/// A frame `RECEIPT` is read by the keys of its headers, whatever their order and whatever other
/// headers there are: each field is the value of the first header with its key.
pub proof fn law_receipt_is_read(
    frame: FrameModel,
    receipt_id: Option<Seq<char>>,
)
    requires
        frame.command == "RECEIPT"@ || frame.command == "receipt"@,
        holds(frame.headers, "receipt-id"@, receipt_id),
    ensures
        receipt_id is None ==> server_message(frame) == Err::<
            MessageModel<FromServerModel>,
            ErrorModel,
        >(ErrorModel::MissingHeader("receipt-id"@)),
        receipt_id is Some ==> server_message(frame)
            == Ok::<MessageModel<FromServerModel>, ErrorModel>(
            MessageModel {
                content: FromServerModel::Receipt { receipt_id: receipt_id->0 },
                extra_headers: headers_beyond(
                    frame.headers,
                    seq!["receipt-id"@],
                ),
            },
        ),
{
    lemma_server_commands();
    lemma_holds(frame.headers, "receipt-id"@, receipt_id);
    assert(server_command(frame.command) == Some(ServerCommand::Receipt));
}

/// The frame `ERROR` of a message holds each of its fields under its own key, in this order,
/// followed by the extra headers.
pub proof fn law_error_is_written(
    message: Option<Seq<char>>,
    content_type: Option<Seq<char>>,
    body: Option<Seq<u8>>,
    extra_headers: Seq<HeaderModel>,
)
    ensures
        server_frame(
            MessageModel {
                content: FromServerModel::Error { message, content_type, body },
                extra_headers,
            },
        ) == (FrameModel {
            command: "ERROR"@,
            headers: maybe("message"@, message) + maybe("content-type"@, content_type)
                + extra_headers,
            body: body,
        }),
{
    reveal_with_fuel(present, 3);
    let content = FromServerModel::Error { message, content_type, body };
    let frame = server_frame(MessageModel { content, extra_headers });
    assert(frame.headers =~= maybe("message"@, message) + maybe("content-type"@, content_type)
        + extra_headers);
}

/// A frame `ERROR` is read by the keys of its headers, whatever their order and whatever other
/// headers there are: each field is the value of the first header with its key, and the body is
/// the body of the frame.
pub proof fn law_error_is_read(
    frame: FrameModel,
    message: Option<Seq<char>>,
    content_type: Option<Seq<char>>,
)
    requires
        frame.command == "ERROR"@ || frame.command == "error"@,
        holds(frame.headers, "message"@, message),
        holds(frame.headers, "content-type"@, content_type),
    ensures
        server_message(frame) == Ok::<MessageModel<FromServerModel>, ErrorModel>(
            MessageModel {
                content: FromServerModel::Error { message, content_type, body: frame.body },
                extra_headers: headers_beyond(
                    frame.headers,
                    seq!["message"@, "content-length"@, "content-type"@],
                ),
            },
        ),
{
    lemma_server_commands();
    lemma_holds(frame.headers, "message"@, message);
    lemma_holds(frame.headers, "content-type"@, content_type);
    assert(server_command(frame.command) == Some(ServerCommand::Error));
}

/// A frame with any other command is refused, and the error names the command.
pub proof fn law_server_command_is_unknown(frame: FrameModel)
    requires
        frame.command != "CONNECTED"@,
        frame.command != "connected"@,
        frame.command != "MESSAGE"@,
        frame.command != "message"@,
        frame.command != "RECEIPT"@,
        frame.command != "receipt"@,
        frame.command != "ERROR"@,
        frame.command != "error"@,
    ensures
        server_message(frame) == Err::<MessageModel<FromServerModel>, ErrorModel>(
            ErrorModel::UnrecognizedFrame(frame.command),
        ),
{
}

/// What a frame says depends on its command, on its body, and on which value is found first under
/// each key; headers with different keys may change places.
pub proof fn law_server_headers_in_any_order(a: FrameModel, b: FrameModel)
    requires
        a.command == b.command,
        a.body == b.body,
        forall|key: Seq<char>| #[trigger]
            header_value(a.headers, key) == header_value(b.headers, key),
    ensures
        match (server_message(a), server_message(b)) {
            (Ok(x), Ok(y)) => x.content == y.content,
            (Err(x), Err(y)) => x == y,
            _ => false,
        },
{
}

/* Opening a connection */

/// The reply that a client accepts is a frame `CONNECTED`, whatever version, session, server,
/// heart-beat and extra headers it has. No other reply is accepted, nor none at all.
pub proof fn law_any_connected_is_accepted(reply: MessageModel<FromServerModel>)
    ensures
        is_accepted(Some(reply)) <==> server_frame(reply).command == "CONNECTED"@,
        is_accepted(Some(reply)) <==> reply.content is Connected,
        !is_accepted(None),
{
    lemma_server_commands();
}

/// The reply of a server that accepts a connection: version 1.2 and the name of the server.
pub open spec fn accepts(reply: MessageModel<FromServerModel>) -> bool {
    &&& reply.content matches FromServerModel::Connected { version, session, server, heartbeat }
    &&& version == "1.2"@
    &&& session is None
    &&& server == Some("tokio-stomp/0.4.0"@)
    &&& heartbeat is None
    &&& reply.extra_headers.len() == 0
}

/// The reply of a server that refuses a connection: a frame `ERROR` with nothing in it.
pub open spec fn refuses(reply: MessageModel<FromServerModel>) -> bool {
    &&& reply.content matches FromServerModel::Error { message, content_type, body }
    &&& message is None
    &&& content_type is None
    &&& body is None
    &&& reply.extra_headers.len() == 0
}

/// A first message that is a frame `CONNECT` is accepted, whatever versions, host, login,
/// passcode, heart-beat and extra headers it has, and the connection stays open.
pub proof fn law_any_connect_is_answered(first: MessageModel<ToServerModel>)
    requires
        client_frame(first).command == "CONNECT"@ || first.content is Connect,
    ensures
        server_answer(Some(first)) matches Ok(reply) && accepts(reply),
        first_reply(FirstEventModel::Received(Some(first))).1 == false,
        accepts(first_reply(FirstEventModel::Received(Some(first))).0),
{
    lemma_client_commands();
}

/// Any other first message is an unexpected one: it is refused, and the connection is closed. So
/// it is if no message came, or if it could not be read or answered.
pub proof fn law_anything_else_is_refused(first: MessageModel<ToServerModel>)
    ensures
        client_frame(first).command != "CONNECT"@ || !(first.content is Connect) ==> {
            &&& server_answer(Some(first)) == Err::<MessageModel<FromServerModel>, ErrorModel>(
                ErrorModel::UnexpectedReply,
            )
            &&& first_reply(FirstEventModel::Received(Some(first))).1
            &&& refuses(first_reply(FirstEventModel::Received(Some(first))).0)
        },
        server_answer(None) == Err::<MessageModel<FromServerModel>, ErrorModel>(
            ErrorModel::UnexpectedReply,
        ),
        first_reply(FirstEventModel::Received(None)).1,
        refuses(first_reply(FirstEventModel::Received(None)).0),
        first_reply(FirstEventModel::Failed).1,
        refuses(first_reply(FirstEventModel::Failed).0),
        accepts(connected_reply()),
        refuses(refusal()),
{
    lemma_client_commands();
}

/// The request of a client asks for version 1.2 and hands over its host, login and passcode.
pub proof fn law_request_of_a_client(
    host: Seq<char>,
    login: Option<Seq<char>>,
    passcode: Option<Seq<char>>,
)
    ensures
        connect_request(host, login, passcode).content == (ToServerModel::Connect {
            accept_version: "1.2"@,
            host,
            login,
            passcode,
            heartbeat: None,
        }),
        connect_request(host, login, passcode).extra_headers.len() == 0,
{
}

/// The time is told in the destination of a message of subscription 11.
pub proof fn law_clock_tells_the_time(now: Seq<char>)
    ensures
        clock(now).content == (FromServerModel::Message {
            destination: "now: "@ + now,
            message_id: "0.4.0"@,
            subscription: "11"@,
            content_type: Some("application/json"@),
            body: None,
        }),
        clock(now).extra_headers == seq![("server"@, "tokio-stomp/0.4.0"@)],
{
}

/* Values */

/// The value of an optional text.
pub open spec fn same_option(text: Option<String>, value: Option<Seq<char>>) -> bool {
    match (text, value) {
        (Some(t), Some(v)) => t@ == v,
        (None, None) => true,
        _ => false,
    }
}

/// The value of an optional body.
pub open spec fn same_bytes(body: Option<Vec<u8>>, value: Option<Seq<u8>>) -> bool {
    match (body, value) {
        (Some(b), Some(v)) => b@ == v,
        (None, None) => true,
        _ => false,
    }
}

/// The value of what may be absent, or may have failed, is the value of what is there.
pub proof fn law_value_of_optional<T: View>(
    m: Message<T>,
    text: String,
    body: Vec<u8>,
    value: T,
    e: StompError,
)
    ensures
        message_of(Some(m)) == Some(m@),
        message_of::<T>(None) == None::<MessageModel<T::V>>,
        m@.content == m.content@,
        m@.extra_headers == m.extra_headers.deep_view(),
        text_of(Some(text)) == Some(text@),
        text_of(None) == None::<Seq<char>>,
        body_of(Some(body)) == Some(body@),
        body_of(None) == None::<Seq<u8>>,
        outcome(Ok::<T, StompError>(value)) == Ok::<T::V, ErrorModel>(value@),
        outcome(Err::<T, StompError>(e)) == Err::<T::V, ErrorModel>(e@),
{
}

/// The value of a message to a server has the same kind and the same fields.
pub proof fn law_value_of_client_message(m: Message<ToServer>)
    ensures
        m@.extra_headers == m.extra_headers.deep_view(),
        match (m.content, m@.content) {
            (
                ToServer::Connect { accept_version, host, login, passcode, heartbeat },
                ToServerModel::Connect { accept_version: accept_version_value, host: host_value,
                    login: login_value, passcode: passcode_value, heartbeat: heartbeat_value },
            ) => accept_version@ == accept_version_value && host@ == host_value
                && same_option(login, login_value) && same_option(passcode, passcode_value)
                && heartbeat == heartbeat_value,
            (
                ToServer::Send { destination, transaction, content_type, body },
                ToServerModel::Send { destination: destination_value,
                    transaction: transaction_value, content_type: content_type_value,
                    body: body_value },
            ) => destination@ == destination_value
                && same_option(transaction, transaction_value)
                && same_option(content_type, content_type_value) && same_bytes(body, body_value),
            (
                ToServer::Subscribe { destination, id, ack },
                ToServerModel::Subscribe { destination: destination_value, id: id_value,
                    ack: ack_value },
            ) => destination@ == destination_value && id@ == id_value && ack == ack_value,
            (
                ToServer::Unsubscribe { id },
                ToServerModel::Unsubscribe { id: id_value },
            ) => id@ == id_value,
            (
                ToServer::Ack { id, transaction },
                ToServerModel::Ack { id: id_value, transaction: transaction_value },
            ) => id@ == id_value && same_option(transaction, transaction_value),
            (
                ToServer::Nack { id, transaction },
                ToServerModel::Nack { id: id_value, transaction: transaction_value },
            ) => id@ == id_value && same_option(transaction, transaction_value),
            (
                ToServer::Begin { transaction },
                ToServerModel::Begin { transaction: transaction_value },
            ) => transaction@ == transaction_value,
            (
                ToServer::Commit { transaction },
                ToServerModel::Commit { transaction: transaction_value },
            ) => transaction@ == transaction_value,
            (
                ToServer::Abort { transaction },
                ToServerModel::Abort { transaction: transaction_value },
            ) => transaction@ == transaction_value,
            (
                ToServer::Disconnect { receipt },
                ToServerModel::Disconnect { receipt: receipt_value },
            ) => same_option(receipt, receipt_value),
            _ => false,
        },
{
}

/// The value of a message from a server has the same kind and the same fields.
pub proof fn law_value_of_server_message(m: Message<FromServer>)
    ensures
        m@.extra_headers == m.extra_headers.deep_view(),
        match (m.content, m@.content) {
            (
                FromServer::Connected { version, session, server, heartbeat },
                FromServerModel::Connected { version: version_value, session: session_value,
                    server: server_value, heartbeat: heartbeat_value },
            ) => version@ == version_value && same_option(session, session_value)
                && same_option(server, server_value) && heartbeat == heartbeat_value,
            (
                FromServer::Message { destination, message_id, subscription, content_type, body },
                FromServerModel::Message { destination: destination_value,
                    message_id: message_id_value, subscription: subscription_value,
                    content_type: content_type_value, body: body_value },
            ) => destination@ == destination_value && message_id@ == message_id_value
                && subscription@ == subscription_value
                && same_option(content_type, content_type_value) && same_bytes(body, body_value),
            (
                FromServer::Receipt { receipt_id },
                FromServerModel::Receipt { receipt_id: receipt_id_value },
            ) => receipt_id@ == receipt_id_value,
            (
                FromServer::Error { message, content_type, body },
                FromServerModel::Error { message: message_value,
                    content_type: content_type_value, body: body_value },
            ) => same_option(message, message_value)
                && same_option(content_type, content_type_value) && same_bytes(body, body_value),
            _ => false,
        },
{
}

/// The value of a frame has its command, its headers and its body.
pub proof fn law_value_of_frame(frame: Frame<'_>)
    ensures
        frame@.command == frame.command@,
        frame@.headers == frame.headers.deep_view(),
        match (frame.body, frame@.body) {
            (Some(bytes), Some(value)) => bytes@ == value,
            (None, None) => true,
            _ => false,
        },
{
}

/// The value of a first event has the same kind, and the value of its message.
pub proof fn law_value_of_first_event(event: FirstEvent)
    ensures
        match (event, event@) {
            (FirstEvent::Received(Some(m)), FirstEventModel::Received(Some(value))) => m@ == value,
            (FirstEvent::Received(None), FirstEventModel::Received(None)) => true,
            (FirstEvent::Failed, FirstEventModel::Failed) => true,
            _ => false,
        },
{
}

/// The value of an error has the same kind and the same fields.
pub proof fn law_value_of_error(e: StompError)
    ensures
        match (e, e@) {
            (StompError::MissingHeader(key), ErrorModel::MissingHeader(value)) => key@ == value,
            (StompError::InvalidAckMode(mode), ErrorModel::InvalidAckMode(value)) => mode@
                == value,
            (StompError::UnrecognizedFrame(command), ErrorModel::UnrecognizedFrame(value)) => {
                command@ == value
            },
            (StompError::BadHeartbeat, ErrorModel::BadHeartbeat) => true,
            (StompError::InvalidInteger(why), ErrorModel::InvalidInteger(value)) => why == value,
            (
                StompError::Malformed { offset, expected },
                ErrorModel::Malformed { offset: offset_value, expected: expected_value },
            ) => offset == offset_value && expected == expected_value,
            (StompError::UnexpectedReply, ErrorModel::UnexpectedReply) => true,
            _ => false,
        },
{
}

/// Each error says in words what is wrong, and with what.
pub proof fn law_words_of_errors(
    key: Seq<char>,
    mode: Seq<char>,
    command: Seq<char>,
    offset: int,
    detail: Seq<char>,
)
    ensures
        error_text(ErrorModel::MissingHeader(key), detail) == "Expected header '"@ + key
            + "' missing"@,
        error_text(ErrorModel::InvalidAckMode(mode), detail) == "Invalid ack mode: "@ + mode,
        error_text(ErrorModel::UnrecognizedFrame(command), detail) == "Frame not recognized: "@
            + debug_text(command),
        error_text(ErrorModel::BadHeartbeat, detail) == "Bad heartbeat"@,
        error_text(ErrorModel::InvalidInteger(IntegerError::Empty), detail)
            == "cannot parse integer from empty string"@,
        error_text(ErrorModel::InvalidInteger(IntegerError::InvalidDigit), detail)
            == "invalid digit found in string"@,
        error_text(ErrorModel::InvalidInteger(IntegerError::TooLarge), detail)
            == "number too large to fit in target type"@,
        error_text(ErrorModel::Malformed { offset, expected: Expected::Alphabetic }, detail)
            == "Parse failed: Error(Error { input: "@ + detail + ", code: "@ + "Alpha"@ + " })"@,
        error_text(ErrorModel::Malformed { offset, expected: Expected::LineEnding }, detail)
            == "Parse failed: Error(Error { input: "@ + detail + ", code: "@ + "CrLf"@ + " })"@,
        error_text(ErrorModel::Malformed { offset, expected: Expected::Nul }, detail)
            == "Parse failed: Error(Error { input: "@ + detail + ", code: "@ + "Tag"@ + " })"@,
        error_text(ErrorModel::UnexpectedReply, detail) == "unexpected reply: "@ + detail,
        integer_error_text(IntegerError::Empty) == "cannot parse integer from empty string"@,
        integer_error_text(IntegerError::InvalidDigit) == "invalid digit found in string"@,
        integer_error_text(IntegerError::TooLarge) == "number too large to fit in target type"@,
        expected_name(Expected::Alphabetic) == "Alpha"@,
        expected_name(Expected::LineEnding) == "CrLf"@,
        expected_name(Expected::Nul) == "Tag"@,
        unrecognized_text_of(detail) == "Frame not recognized: "@ + detail,
{
}

} // verus!
