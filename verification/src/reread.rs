//! Steps towards the laws: what holds of every frame and of every message that was read.
use crate::delivery::{client_command_of, client_survives, server_command_of, server_survives};
use crate::error::ErrorModel;
use crate::escape::{unescape_bytes, unescape_text};
use crate::frame::headers_beyond;
use crate::from_server::{server_command, server_keys, server_message};
use crate::grammar::{
    content_length, header_at, headers_at, lemma_header_at, line_ending, parse, FrameModel,
    HeaderModel, Parsed,
};
use crate::message::{FromServerModel, MessageModel, ToServerModel};
use crate::roundtrip::{keys_present, lemma_content_length_range};
use crate::scan::{find_from, lemma_find_from, Stop, NUL};
use crate::to_server::{client_command, client_keys, client_message};
use vstd::prelude::*;
use vstd::utf8::*;

verus! {

/// An escaped text that is not empty stands for a text that is not empty.
proof fn lemma_unescape_nonempty(s: Seq<u8>)
    requires
        s.len() > 0,
    ensures
        unescape_text(s) matches Some(text) ==> text.len() > 0,
{
    if let Some(text) = unescape_text(s) {
        let bytes = unescape_bytes(s)->0;
        assert(bytes.len() > 0);
        decode_utf8_encode_utf8(bytes);
    }
}

/// Every header that was read has a key, and the header lines lie in the input.
proof fn lemma_headers_at(s: Seq<u8>, at: int)
    requires
        0 <= at <= s.len(),
    ensures
        keys_present(headers_at(s, at).0),
        at <= headers_at(s, at).1 <= s.len(),
    decreases s.len() - at,
{
    lemma_header_at(s, at);
    if let Some((header, next)) = header_at(s, at) {
        let colon = find_from(s, at, Stop::KeyEnd);
        lemma_unescape_nonempty(s.subrange(at, colon));
        lemma_headers_at(s, next);
        let others = headers_at(s, next).0;
        let headers = headers_at(s, at).0;
        assert forall|i: int| 0 <= i < headers.len() implies (#[trigger] headers[i]).0.len()
            > 0 by {
            if i > 0 {
                assert(headers[i] == others[i - 1]);
            }
        }
    }
}

/// A body that was read is one that the headers allow for.
pub open spec fn body_agrees(frame: FrameModel) -> bool {
    match content_length(frame.headers) {
        Some(length) => frame.body matches Some(body) && body.len() == length,
        None => frame.body matches Some(body) ==> body.len() > 0 && !body.contains(NUL),
    }
}

/// Every frame that was read has headers with keys and a body that agrees with them.
#[verifier::rlimit(40)]
pub proof fn lemma_parsed(s: Seq<u8>)
    ensures
        parse(s) matches Parsed::Complete { frame, used } ==> {
            &&& keys_present(frame.headers)
            &&& body_agrees(frame)
            &&& frame.body matches Some(body) ==> body.len() <= s.len()
        },
{
    if parse(s) is Complete {
        let start = line_ending(s, 0);
        let command_end = find_from(s, start, Stop::NotAlphabetic);
        lemma_find_from(s, start, Stop::NotAlphabetic);
        let lines = command_end + line_ending(s, command_end);
        lemma_headers_at(s, lines);
        let (headers, head_end) = headers_at(s, lines);
        let at = head_end + line_ending(s, head_end);
        lemma_content_length_range(headers);
        lemma_find_from(s, at, Stop::Nul);
        if content_length(headers) is None {
            let end = find_from(s, at, Stop::Nul);
            let body = s.subrange(at, end);
            assert forall|i: int| 0 <= i < body.len() implies #[trigger] body[i] != NUL by {
                assert(!Stop::Nul.has(s[at + i]));
            }
        }
    }
}

/// The extra headers have keys, none of them among `keys`.
proof fn lemma_beyond_keys(headers: Seq<HeaderModel>, keys: Seq<Seq<char>>)
    requires
        keys_present(headers),
    ensures
        keys_present(headers_beyond(headers, keys)),
        forall|i: int|
            0 <= i < headers_beyond(headers, keys).len() ==> !keys.contains(
                (#[trigger] headers_beyond(headers, keys)[i]).0,
            ),
    decreases headers.len(),
{
    reveal(headers_beyond);
    reveal(Seq::filter);
    if headers.len() > 0 {
        lemma_beyond_keys(headers.drop_last(), keys);
    }
}

/// A message that was read from a client can be sent on, if its extra headers announce no body.
pub proof fn lemma_client_read_survives(
    s: Seq<u8>,
    frame: FrameModel,
    used: int,
    message: MessageModel<ToServerModel>,
)
    requires
        s.len() <= usize::MAX,
        parse(s) == (Parsed::Complete { frame, used }),
        client_message(frame) == Ok::<MessageModel<ToServerModel>, ErrorModel>(message),
        content_length(message.extra_headers) matches Some(length) ==> length == 0,
    ensures
        client_survives(message),
{
    let command = client_command(frame.command)->0;
    lemma_parsed(s);
    lemma_beyond_keys(frame.headers, client_keys(command));
    assert(client_command_of(message.content) == command);
}

/// A message that was read from a server can be sent on, if its extra headers announce no body.
pub proof fn lemma_server_read_survives(
    s: Seq<u8>,
    frame: FrameModel,
    used: int,
    message: MessageModel<FromServerModel>,
)
    requires
        s.len() <= usize::MAX,
        parse(s) == (Parsed::Complete { frame, used }),
        server_message(frame) == Ok::<MessageModel<FromServerModel>, ErrorModel>(message),
        content_length(message.extra_headers) matches Some(length) ==> length == 0,
    ensures
        server_survives(message),
{
    let command = server_command(frame.command)->0;
    lemma_parsed(s);
    lemma_beyond_keys(frame.headers, server_keys(command));
    assert(server_command_of(message.content) == command);
}

} // verus!
