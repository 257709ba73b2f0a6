//! The laws of the library: what holds of its functions together. They are stated over the
//! specification functions that the contracts of the functions use.
use crate::client::{connect_request, is_accepted};
use crate::delivery::{
    client_command_of, client_survives, lemma_client_commands, lemma_client_delivery,
    lemma_client_frame, lemma_header_keys, lemma_heartbeat_read, lemma_server_commands,
    lemma_server_delivery, lemma_server_frame, server_command_of, server_survives,
};
use crate::envelope::{extras_apart, lemma_header_value_add};
use crate::error::{ErrorModel, IntegerError};
use crate::escape::{escape, unescape_text};
use crate::from_server::{server_command, server_frame, server_keys, server_message};
use crate::grammar::{
    content_length, frame_bytes, header_at, header_value, line_ending, parse, FrameModel,
    HeaderModel, Parsed,
};
use crate::heartbeat::{heartbeat_of, heartbeat_text};
use crate::message::{FromServerModel, MessageModel, ToServerModel};
use crate::reread::{
    body_agrees, lemma_client_read_survives, lemma_parsed, lemma_server_read_survives,
};
use crate::roundtrip::{
    is_readable, keys_present, lemma_escape_clean, lemma_header_line,
    lemma_parse_written, lemma_read_decimal, lemma_unescape_text, received,
};
use crate::scan::{decimal, read_integer, Stop, COLON, CR, LF};
use crate::server::{
    clock, connected_reply, first_reply, refusal, server_answer, FirstEventModel,
};
use crate::streaming::{
    all_readable, all_received, frames_bytes, frames_in_pieces, lemma_frames_in_pieces,
    lemma_parse_extend, lemma_parse_part, used_with_more,
};
use crate::to_server::{client_command, client_frame, client_keys, client_message};
use vstd::prelude::*;
use vstd::utf8::*;

verus! {

/* Texts and numbers */

/// Reading an escaped text gives the text back.
pub proof fn law_unescape_undoes_escape(text: Seq<char>)
    ensures
        unescape_text(escape(encode_utf8(text))) == Some(text),
{
    lemma_unescape_text(text);
}

/// An escaped text holds no colon, no carriage return and no line feed, so it ends neither a key
/// nor a line.
pub proof fn law_escaped_text_ends_nothing(text: Seq<char>, i: int)
    requires
        0 <= i < escape(encode_utf8(text)).len(),
    ensures
        !Stop::KeyEnd.has(escape(encode_utf8(text))[i]),
        !Stop::LineEnd.has(escape(encode_utf8(text))[i]),
{
    lemma_escape_clean(encode_utf8(text));
}

/// Reading the decimal digits of a number that is not too large gives the number.
pub proof fn law_decimal_is_read_back(n: nat, max: int)
    requires
        n <= max,
    ensures
        read_integer(decimal(n), max) == Ok::<int, IntegerError>(n as int),
{
    lemma_read_decimal(n, max);
}

/// Reading a written heart-beat gives the heart-beat.
pub proof fn law_heartbeat_is_read_back(heartbeat: (u32, u32))
    ensures
        heartbeat_of(heartbeat_text(heartbeat)) == Ok::<(u32, u32), ErrorModel>(heartbeat),
{
    lemma_heartbeat_read(heartbeat);
}

/* Headers and bodies */

/// Of headers with the same key the first counts.
pub proof fn law_first_header_counts(a: Seq<HeaderModel>, b: Seq<HeaderModel>, key: Seq<char>)
    ensures
        header_value(a + b, key) == match header_value(a, key) {
            Some(value) => Some(value),
            None => header_value(b, key),
        },
{
    lemma_header_value_add(a, b, key);
}

/// A header line is read as its header, whether it ends in a line feed or in a carriage return and
/// a line feed, whatever stands before and behind it. The next line starts behind its line ending.
pub proof fn law_header_line_is_read_back(
    pre: Seq<u8>,
    header: HeaderModel,
    eol: Seq<u8>,
    rest: Seq<u8>,
)
    requires
        header.0.len() > 0,
        eol == seq![LF] || eol == seq![CR, LF],
    ensures
        ({
            let line = escape(encode_utf8(header.0)) + seq![COLON] + escape(encode_utf8(header.1))
                + eol;
            header_at(pre + line + rest, pre.len() as int) == Some(
                (header, (pre.len() + line.len()) as int),
            )
        }),
{
    lemma_header_line(pre, header, eol, rest);
}

/// A body has the length that the headers announce. Where they announce none, it is not empty and
/// holds no NUL byte. All headers have keys.
pub proof fn law_body_agrees_with_headers(s: Seq<u8>, frame: FrameModel, used: int)
    requires
        parse(s) == (Parsed::Complete { frame, used }),
    ensures
        body_agrees(frame),
        keys_present(frame.headers),
{
    lemma_parsed(s);
}

/* Frames */

/// A frame that was written is read back, whatever follows it. A line ending that follows is taken
/// with it.
pub proof fn law_frame_is_read_back(frame: FrameModel, rest: Seq<u8>)
    requires
        is_readable(frame),
    ensures
        parse(frame_bytes(frame) + rest) == (Parsed::Complete {
            frame: received(frame),
            used: frame_bytes(frame).len() + line_ending(rest, 0),
        }),
{
    lemma_parse_written(frame, rest);
}

/// No part of a frame that was written is taken for a frame, nor for something else: the reader
/// waits for the rest.
pub proof fn law_part_of_frame_waits(frame: FrameModel, n: int)
    requires
        is_readable(frame),
        0 <= n < frame_bytes(frame).len(),
    ensures
        parse(frame_bytes(frame).take(n)) == Parsed::Incomplete,
{
    lemma_parse_part(frame, n);
}

/// What was found in an input stays true whatever follows. A frame that was found takes up some of
/// the input, and no more than all of it; only a line ending behind it may still be on its way. A
/// byte that shows that there is no frame is one of the input.
pub proof fn law_more_bytes_change_nothing(s: Seq<u8>, more: Seq<u8>)
    ensures
        match parse(s) {
            Parsed::Complete { frame, used } => 0 < used <= s.len() && parse(s + more) == (
            Parsed::Complete { frame, used: used_with_more(s, used, more) }),
            Parsed::Incomplete => true,
            Parsed::Invalid { offset, expected } => 0 <= offset < s.len() && parse(s + more)
                == parse(s),
        },
{
    lemma_parse_extend(s, more);
}

/// From frames that were written one behind the other, these frames are read, in their order and
/// with nothing left over, whatever pieces the bytes come in.
pub proof fn law_frames_arrive_in_any_pieces(frames: Seq<FrameModel>, pieces: Seq<Seq<u8>>)
    requires
        all_readable(frames),
        pieces.flatten() == frames_bytes(frames),
    ensures
        frames_in_pieces(seq![], pieces) == (all_received(frames), Seq::<u8>::empty()),
{
    assert(seq![] + pieces.flatten() =~= pieces.flatten());
    lemma_frames_in_pieces(frames, seq![], pieces);
}

/* Messages */

/// What a server decodes from the start of `s`, if that is a frame.
pub open spec fn server_decodes(s: Seq<u8>) -> Option<
    Result<MessageModel<ToServerModel>, ErrorModel>,
> {
    match parse(s) {
        Parsed::Complete { frame, .. } => Some(client_message(frame)),
        _ => None,
    }
}

/// What a client decodes from the start of `s`, if that is a frame.
pub open spec fn client_decodes(s: Seq<u8>) -> Option<
    Result<MessageModel<FromServerModel>, ErrorModel>,
> {
    match parse(s) {
        Parsed::Complete { frame, .. } => Some(server_message(frame)),
        _ => None,
    }
}

/// Reading the frame of a message to a server gives the message, unless an extra header has a key
/// that the content accounts for.
pub proof fn law_client_frame_is_message(message: MessageModel<ToServerModel>)
    requires
        extras_apart(message.extra_headers, client_keys(client_command_of(message.content))),
    ensures
        client_message(client_frame(message)) == Ok::<MessageModel<ToServerModel>, ErrorModel>(
            message,
        ),
{
    lemma_client_frame(message);
}

/// A message that a client has encoded is the message that a server decodes, whatever follows it.
pub proof fn law_client_message_arrives(message: MessageModel<ToServerModel>, rest: Seq<u8>)
    requires
        client_survives(message),
    ensures
        parse(frame_bytes(client_frame(message)) + rest) matches Parsed::Complete { frame, used }
            && client_message(frame) == Ok::<MessageModel<ToServerModel>, ErrorModel>(message)
            && used == frame_bytes(client_frame(message)).len() + line_ending(rest, 0),
{
    lemma_client_delivery(message);
    lemma_parse_written(client_frame(message), rest);
}

/// Reading the frame of a message from a server gives the message, unless an extra header has a key
/// that the content accounts for.
pub proof fn law_server_frame_is_message(message: MessageModel<FromServerModel>)
    requires
        extras_apart(message.extra_headers, server_keys(server_command_of(message.content))),
    ensures
        server_message(server_frame(message)) == Ok::<MessageModel<FromServerModel>, ErrorModel>(
            message,
        ),
{
    lemma_server_frame(message);
}

/// A message that a server has encoded is the message that a client decodes, whatever follows it.
pub proof fn law_server_message_arrives(message: MessageModel<FromServerModel>, rest: Seq<u8>)
    requires
        server_survives(message),
    ensures
        parse(frame_bytes(server_frame(message)) + rest) matches Parsed::Complete { frame, used }
            && server_message(frame) == Ok::<MessageModel<FromServerModel>, ErrorModel>(message)
            && used == frame_bytes(server_frame(message)).len() + line_ending(rest, 0),
{
    lemma_server_delivery(message);
    lemma_parse_written(server_frame(message), rest);
}

/// Different messages to a server are encoded differently.
pub proof fn law_client_messages_differ(
    a: MessageModel<ToServerModel>,
    b: MessageModel<ToServerModel>,
)
    requires
        client_survives(a),
        client_survives(b),
        frame_bytes(client_frame(a)) == frame_bytes(client_frame(b)),
    ensures
        a == b,
{
    law_client_message_arrives(a, seq![]);
    law_client_message_arrives(b, seq![]);
}

/// Different messages to a client are encoded differently.
pub proof fn law_server_messages_differ(
    a: MessageModel<FromServerModel>,
    b: MessageModel<FromServerModel>,
)
    requires
        server_survives(a),
        server_survives(b),
        frame_bytes(server_frame(a)) == frame_bytes(server_frame(b)),
    ensures
        a == b,
{
    law_server_message_arrives(a, seq![]);
    law_server_message_arrives(b, seq![]);
}

/// A server waits as long as only a part of a message from a client is there.
pub proof fn law_part_of_client_message_waits(message: MessageModel<ToServerModel>, n: int)
    requires
        client_survives(message),
        0 <= n < frame_bytes(client_frame(message)).len(),
    ensures
        parse(frame_bytes(client_frame(message)).take(n)) == Parsed::Incomplete,
{
    lemma_client_delivery(message);
    lemma_parse_part(client_frame(message), n);
}

/// A client waits as long as only a part of a message from a server is there.
pub proof fn law_part_of_server_message_waits(message: MessageModel<FromServerModel>, n: int)
    requires
        server_survives(message),
        0 <= n < frame_bytes(server_frame(message)).len(),
    ensures
        parse(frame_bytes(server_frame(message)).take(n)) == Parsed::Incomplete,
{
    lemma_server_delivery(message);
    lemma_parse_part(server_frame(message), n);
}

/// The frames of messages to a server.
pub open spec fn client_frames(messages: Seq<MessageModel<ToServerModel>>) -> Seq<FrameModel> {
    messages.map_values(|message: MessageModel<ToServerModel>| client_frame(message))
}

/// The frames of messages from a server.
pub open spec fn server_frames(messages: Seq<MessageModel<FromServerModel>>) -> Seq<FrameModel> {
    messages.map_values(|message: MessageModel<FromServerModel>| server_frame(message))
}

/// From messages that a client has encoded one behind the other, a server decodes these messages,
/// in their order and with nothing left over, whatever pieces the bytes come in.
pub proof fn law_client_messages_arrive_in_any_pieces(
    messages: Seq<MessageModel<ToServerModel>>,
    pieces: Seq<Seq<u8>>,
)
    requires
        forall|i: int| 0 <= i < messages.len() ==> client_survives(#[trigger] messages[i]),
        pieces.flatten() == frames_bytes(client_frames(messages)),
    ensures
        ({
            let (frames, left) = frames_in_pieces(seq![], pieces);
            &&& frames.len() == messages.len()
            &&& forall|i: int|
                0 <= i < messages.len() ==> client_message(#[trigger] frames[i]) == Ok::<
                    MessageModel<ToServerModel>,
                    ErrorModel,
                >(messages[i])
            &&& left.len() == 0
        }),
{
    let sent = client_frames(messages);
    assert forall|i: int| 0 <= i < messages.len() implies is_readable(#[trigger] sent[i])
        && client_message(received(sent[i])) == Ok::<MessageModel<ToServerModel>, ErrorModel>(
        messages[i],
    ) by {
        lemma_client_delivery(messages[i]);
    }
    law_frames_arrive_in_any_pieces(sent, pieces);
    let frames = frames_in_pieces(seq![], pieces).0;
    assert forall|i: int| 0 <= i < messages.len() implies client_message(#[trigger] frames[i])
        == Ok::<MessageModel<ToServerModel>, ErrorModel>(messages[i]) by {
        assert(frames[i] == received(sent[i]));
    }
}

/// From messages that a server has encoded one behind the other, a client decodes these messages,
/// in their order and with nothing left over, whatever pieces the bytes come in.
pub proof fn law_server_messages_arrive_in_any_pieces(
    messages: Seq<MessageModel<FromServerModel>>,
    pieces: Seq<Seq<u8>>,
)
    requires
        forall|i: int| 0 <= i < messages.len() ==> server_survives(#[trigger] messages[i]),
        pieces.flatten() == frames_bytes(server_frames(messages)),
    ensures
        ({
            let (frames, left) = frames_in_pieces(seq![], pieces);
            &&& frames.len() == messages.len()
            &&& forall|i: int|
                0 <= i < messages.len() ==> server_message(#[trigger] frames[i]) == Ok::<
                    MessageModel<FromServerModel>,
                    ErrorModel,
                >(messages[i])
            &&& left.len() == 0
        }),
{
    let sent = server_frames(messages);
    assert forall|i: int| 0 <= i < messages.len() implies is_readable(#[trigger] sent[i])
        && server_message(received(sent[i])) == Ok::<MessageModel<FromServerModel>, ErrorModel>(
        messages[i],
    ) by {
        lemma_server_delivery(messages[i]);
    }
    law_frames_arrive_in_any_pieces(sent, pieces);
    let frames = frames_in_pieces(seq![], pieces).0;
    assert forall|i: int| 0 <= i < messages.len() implies server_message(#[trigger] frames[i])
        == Ok::<MessageModel<FromServerModel>, ErrorModel>(messages[i]) by {
        assert(frames[i] == received(sent[i]));
    }
}

/// A message that was decoded from a client can be encoded and decoded again and stays the same,
/// unless its extra headers announce a body, which it does not have.
pub proof fn law_client_message_can_be_sent_on(
    s: Seq<u8>,
    frame: FrameModel,
    used: int,
    message: MessageModel<ToServerModel>,
    rest: Seq<u8>,
)
    requires
        s.len() <= usize::MAX,
        parse(s) == (Parsed::Complete { frame, used }),
        client_message(frame) == Ok::<MessageModel<ToServerModel>, ErrorModel>(message),
        content_length(message.extra_headers) matches Some(length) ==> length == 0,
    ensures
        server_decodes(frame_bytes(client_frame(message)) + rest) == Some(
            Ok::<MessageModel<ToServerModel>, ErrorModel>(message),
        ),
{
    lemma_client_read_survives(s, frame, used, message);
    law_client_message_arrives(message, rest);
}

/// A message that was decoded from a server can be encoded and decoded again and stays the same,
/// unless its extra headers announce a body, which it does not have.
pub proof fn law_server_message_can_be_sent_on(
    s: Seq<u8>,
    frame: FrameModel,
    used: int,
    message: MessageModel<FromServerModel>,
    rest: Seq<u8>,
)
    requires
        s.len() <= usize::MAX,
        parse(s) == (Parsed::Complete { frame, used }),
        server_message(frame) == Ok::<MessageModel<FromServerModel>, ErrorModel>(message),
        content_length(message.extra_headers) matches Some(length) ==> length == 0,
    ensures
        client_decodes(frame_bytes(server_frame(message)) + rest) == Some(
            Ok::<MessageModel<FromServerModel>, ErrorModel>(message),
        ),
{
    lemma_server_read_survives(s, frame, used, message);
    law_server_message_arrives(message, rest);
}

/* The handshake */

/// A client that opens a connection reaches the server as one that opens a connection, the server
/// answers that it accepts it, and the answer reaches the client as one that accepts it.
pub proof fn law_handshake_succeeds(
    host: Seq<char>,
    login: Option<Seq<char>>,
    passcode: Option<Seq<char>>,
)
    ensures
        ({
            let request = connect_request(host, login, passcode);
            let answer = connected_reply();
            &&& server_decodes(frame_bytes(client_frame(request))) == Some(
                Ok::<MessageModel<ToServerModel>, ErrorModel>(request),
            )
            &&& server_answer(Some(request)) == Ok::<MessageModel<FromServerModel>, ErrorModel>(
                answer,
            )
            &&& first_reply(FirstEventModel::Received(Some(request))) == (answer, false)
            &&& client_decodes(frame_bytes(server_frame(answer))) == Some(
                Ok::<MessageModel<FromServerModel>, ErrorModel>(answer),
            )
            &&& is_accepted(Some(answer))
        }),
{
    let request = connect_request(host, login, passcode);
    let answer = connected_reply();
    law_client_message_arrives(request, seq![]);
    law_server_message_arrives(answer, seq![]);
    assert(frame_bytes(client_frame(request)) + seq![] =~= frame_bytes(client_frame(request)));
    assert(frame_bytes(server_frame(answer)) + seq![] =~= frame_bytes(server_frame(answer)));
}

/// A client that starts with any other message, or with none, or that cannot be read or answered,
/// is sent the refusal and the connection is closed. The refusal reaches the client as one that
/// does not accept the connection.
pub proof fn law_handshake_is_refused(event: FirstEventModel)
    requires
        event matches FirstEventModel::Received(Some(message)) ==> message.content !is Connect,
    ensures
        event matches FirstEventModel::Received(first) ==> server_answer(first) is Err,
        first_reply(event) == (refusal(), true),
        client_decodes(frame_bytes(server_frame(refusal()))) == Some(
            Ok::<MessageModel<FromServerModel>, ErrorModel>(refusal()),
        ),
        !is_accepted(Some(refusal())),
{
    law_server_message_arrives(refusal(), seq![]);
    assert(frame_bytes(server_frame(refusal())) + seq![] =~= frame_bytes(
        server_frame(refusal()),
    ));
}

/// The time reaches the client as it was sent, whatever its text.
pub proof fn law_clock_arrives(now: Seq<char>, rest: Seq<u8>)
    ensures
        client_decodes(frame_bytes(server_frame(clock(now))) + rest) == Some(
            Ok::<MessageModel<FromServerModel>, ErrorModel>(clock(now)),
        ),
{
    lemma_header_keys();
    reveal_with_fuel(header_value, 2);
    law_server_message_arrives(clock(now), rest);
}

/* Commands */

/// A text with its ASCII letters in lower case.
pub open spec fn lower_case(text: Seq<char>) -> Seq<char> {
    text.map_values(
        |c: char|
            if 'A' <= c <= 'Z' {
                (c as u32 + 32) as char
            } else {
                c
            },
    )
}

/// A frame with a command of a client is the same message with the command in lower case. A
/// command that is none in lower case is none at all.
pub proof fn law_client_command_in_lower_case(frame: FrameModel)
    ensures
        client_command(frame.command) is Some ==> client_message(
            FrameModel { command: lower_case(frame.command), ..frame },
        ) == client_message(frame),
        client_command(lower_case(frame.command)) is None ==> client_message(frame) == Err::<
            MessageModel<ToServerModel>,
            ErrorModel,
        >(ErrorModel::UnrecognizedFrame(frame.command)),
{
    lemma_client_commands();
    reveal_strlit("STOMP");
    reveal_strlit("stomp");
    reveal_strlit("CONNECT");
    reveal_strlit("connect");
    reveal_strlit("DISCONNECT");
    reveal_strlit("disconnect");
    reveal_strlit("SEND");
    reveal_strlit("send");
    reveal_strlit("SUBSCRIBE");
    reveal_strlit("subscribe");
    reveal_strlit("UNSUBSCRIBE");
    reveal_strlit("unsubscribe");
    reveal_strlit("ACK");
    reveal_strlit("ack");
    reveal_strlit("NACK");
    reveal_strlit("nack");
    reveal_strlit("BEGIN");
    reveal_strlit("begin");
    reveal_strlit("COMMIT");
    reveal_strlit("commit");
    reveal_strlit("ABORT");
    reveal_strlit("abort");
    assert(lower_case("STOMP"@) =~= "stomp"@);
    assert(lower_case("stomp"@) =~= "stomp"@);
    assert(lower_case("CONNECT"@) =~= "connect"@);
    assert(lower_case("connect"@) =~= "connect"@);
    assert(lower_case("DISCONNECT"@) =~= "disconnect"@);
    assert(lower_case("disconnect"@) =~= "disconnect"@);
    assert(lower_case("SEND"@) =~= "send"@);
    assert(lower_case("send"@) =~= "send"@);
    assert(lower_case("SUBSCRIBE"@) =~= "subscribe"@);
    assert(lower_case("subscribe"@) =~= "subscribe"@);
    assert(lower_case("UNSUBSCRIBE"@) =~= "unsubscribe"@);
    assert(lower_case("unsubscribe"@) =~= "unsubscribe"@);
    assert(lower_case("ACK"@) =~= "ack"@);
    assert(lower_case("ack"@) =~= "ack"@);
    assert(lower_case("NACK"@) =~= "nack"@);
    assert(lower_case("nack"@) =~= "nack"@);
    assert(lower_case("BEGIN"@) =~= "begin"@);
    assert(lower_case("begin"@) =~= "begin"@);
    assert(lower_case("COMMIT"@) =~= "commit"@);
    assert(lower_case("commit"@) =~= "commit"@);
    assert(lower_case("ABORT"@) =~= "abort"@);
    assert(lower_case("abort"@) =~= "abort"@);
}

/// A frame with a command of a server is the same message with the command in lower case. A
/// command that is none in lower case is none at all.
pub proof fn law_server_command_in_lower_case(frame: FrameModel)
    ensures
        server_command(frame.command) is Some ==> server_message(
            FrameModel { command: lower_case(frame.command), ..frame },
        ) == server_message(frame),
        server_command(lower_case(frame.command)) is None ==> server_message(frame) == Err::<
            MessageModel<FromServerModel>,
            ErrorModel,
        >(ErrorModel::UnrecognizedFrame(frame.command)),
{
    lemma_server_commands();
    reveal_strlit("CONNECTED");
    reveal_strlit("connected");
    reveal_strlit("MESSAGE");
    reveal_strlit("message");
    reveal_strlit("RECEIPT");
    reveal_strlit("receipt");
    reveal_strlit("ERROR");
    reveal_strlit("error");
    assert(lower_case("CONNECTED"@) =~= "connected"@);
    assert(lower_case("connected"@) =~= "connected"@);
    assert(lower_case("MESSAGE"@) =~= "message"@);
    assert(lower_case("message"@) =~= "message"@);
    assert(lower_case("RECEIPT"@) =~= "receipt"@);
    assert(lower_case("receipt"@) =~= "receipt"@);
    assert(lower_case("ERROR"@) =~= "error"@);
    assert(lower_case("error"@) =~= "error"@);
}

} // verus!
