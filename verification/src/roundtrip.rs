//! Steps towards the laws: what the reader finds in what the writer wrote.
use crate::error::IntegerError;
use crate::escape::{escape, escape_byte, unescape_bytes, unescape_text};
use crate::grammar::{
    content_length, content_length_line, empty_line_at, frame_bytes, header_at, header_bytes,
    header_value, headers_at, headers_bytes, lemma_header_at, lemma_headers_bytes_push, line_ending,
    parse, parse_body, FrameModel, HeaderModel, Parsed,
};
use crate::heartbeat::lemma_decimal_digits;
use crate::scan::{
    decimal, is_alphabetic, is_digit, lemma_find_from_is, read_digits, read_integer, Stop,
    BACKSLASH, COLON, CR, LF, NUL,
};
use crate::text::lemma_ascii_valid_utf8;
use vstd::prelude::*;
use vstd::utf8::*;

verus! {

/* Escaping */

/// An escaped text holds no colon, carriage return or line feed, and is not shorter.
pub proof fn lemma_escape_clean(s: Seq<u8>)
    ensures
        escape(s).len() >= s.len(),
        forall|i: int| 0 <= i < escape(s).len() ==> !Stop::KeyEnd.has(#[trigger] escape(s)[i]),
    decreases s.len(),
{
    if s.len() > 0 {
        lemma_escape_clean(s.skip(1));
        let first = escape_byte(s[0]);
        let rest = escape(s.skip(1));
        assert forall|i: int| 0 <= i < escape(s).len() implies !Stop::KeyEnd.has(
            #[trigger] escape(s)[i],
        ) by {
            if i >= first.len() {
                assert(escape(s)[i] == rest[i - first.len()]);
            } else {
                assert(escape(s)[i] == first[i]);
            }
        }
    }
}

/// Reading an escaped text gives the text back.
pub proof fn lemma_unescape_escape(s: Seq<u8>)
    ensures
        unescape_bytes(escape(s)) == Some(s),
    decreases s.len(),
{
    if s.len() == 0 {
        assert(s =~= seq![]);
    } else {
        lemma_unescape_escape(s.skip(1));
        let first = escape_byte(s[0]);
        let rest = escape(s.skip(1));
        let all = escape(s);
        assert(all == first + rest);
        assert(seq![s[0]] + s.skip(1) =~= s);
        if first.len() == 1 {
            assert(all.skip(1) =~= rest);
        } else {
            assert(all.skip(2) =~= rest);
        }
    }
}

/// Reading an escaped text gives the text back.
pub proof fn lemma_unescape_text(text: Seq<char>)
    ensures
        unescape_text(escape(encode_utf8(text))) == Some(text),
{
    lemma_unescape_escape(encode_utf8(text));
    encode_utf8_valid_utf8(text);
    encode_utf8_decode_utf8(text);
}

/// A text that is not empty has bytes.
pub proof fn lemma_encode_nonempty(text: Seq<char>)
    requires
        text.len() > 0,
    ensures
        encode_utf8(text).len() > 0,
{
}

/* Numbers */

/// Reading digits goes from left to right.
proof fn lemma_read_digits_push(digits: Seq<u8>, last: u8, value: int, max: int)
    ensures
        read_digits(digits.push(last), value, max) == match read_digits(digits, value, max) {
            Ok(so_far) => read_digits(seq![last], so_far, max),
            Err(e) => Err(e),
        },
    decreases digits.len(),
{
    if digits.len() == 0 {
        assert(digits.push(last) =~= seq![last]);
    } else {
        assert(digits.push(last).skip(1) =~= digits.skip(1).push(last));
        assert(digits.push(last)[0] == digits[0]);
        lemma_read_digits_push(digits.skip(1), last, 10 * value + (digits[0] - 48), max);
    }
}

proof fn lemma_read_digits_decimal(n: nat, max: int)
    requires
        n <= max,
    ensures
        read_digits(decimal(n), 0, max) == Ok::<int, IntegerError>(n as int),
    decreases n,
{
    reveal_with_fuel(read_digits, 2);
    if n >= 10 {
        lemma_read_digits_decimal(n / 10, max);
        lemma_read_digits_push(decimal(n / 10), (48 + n % 10) as u8, 0, max);
    }
}

/// Reading the decimal digits of a number gives the number.
pub proof fn lemma_read_decimal(n: nat, max: int)
    requires
        n <= max,
    ensures
        read_integer(decimal(n), max) == Ok::<int, IntegerError>(n as int),
{
    lemma_decimal_digits(n);
    lemma_read_digits_decimal(n, max);
    assert(48 <= decimal(n)[0]);
}

proof fn lemma_read_digits_range(digits: Seq<u8>, value: int, max: int)
    requires
        0 <= value <= max,
    ensures
        read_digits(digits, value, max) matches Ok(n) ==> 0 <= n <= max,
    decreases digits.len(),
{
    if digits.len() > 0 && is_digit(digits[0]) && 10 * value + (digits[0] - 48) <= max {
        lemma_read_digits_range(digits.skip(1), 10 * value + (digits[0] - 48), max);
    }
}

/// A length that headers announce is a number that the machine can count to.
pub proof fn lemma_content_length_range(headers: Seq<HeaderModel>)
    ensures
        content_length(headers) matches Some(n) ==> 0 <= n <= usize::MAX,
{
    if let Some(value) = header_value(headers, "content-length"@) {
        let text = encode_utf8(value);
        lemma_read_digits_range(text, 0, usize::MAX as int);
        lemma_read_digits_range(text.skip(1), 0, usize::MAX as int);
    }
}

/* Header lines */

/// The header line of `header`, with the line ending `eol`.
pub open spec fn header_line(header: HeaderModel, eol: Seq<u8>) -> Seq<u8> {
    escape(encode_utf8(header.0)) + seq![COLON] + escape(encode_utf8(header.1)) + eol
}

/// Reading a header line gives the header, whichever line ending it has.
pub proof fn lemma_header_line(pre: Seq<u8>, header: HeaderModel, eol: Seq<u8>, rest: Seq<u8>)
    requires
        header.0.len() > 0,
        eol == seq![LF] || eol == seq![CR, LF],
    ensures
        header_at(pre + header_line(header, eol) + rest, pre.len() as int) == Some(
            (header, (pre.len() + header_line(header, eol).len()) as int),
        ),
{
    let s = pre + header_line(header, eol) + rest;
    let key = escape(encode_utf8(header.0));
    let value = escape(encode_utf8(header.1));
    let at = pre.len() as int;
    let colon = at + key.len();
    let end = colon + 1 + value.len();
    lemma_encode_nonempty(header.0);
    lemma_escape_clean(encode_utf8(header.0));
    lemma_escape_clean(encode_utf8(header.1));
    assert(s.subrange(at, colon) =~= key);
    assert(s.subrange(colon + 1, end) =~= value);
    assert(s[colon] == COLON);
    assert(s[end] == eol[0]);
    assert(eol.len() == 2 ==> s[end + 1] == eol[1]);
    assert forall|j: int| at <= j < colon implies !Stop::KeyEnd.has(#[trigger] s[j]) by {
        assert(s[j] == key[j - at]);
    }
    assert forall|j: int| colon + 1 <= j < end implies !Stop::LineEnd.has(#[trigger] s[j]) by {
        assert(s[j] == value[j - colon - 1]);
    }
    lemma_find_from_is(s, at, Stop::KeyEnd, colon);
    lemma_find_from_is(s, colon + 1, Stop::LineEnd, end);
    lemma_unescape_text(header.0);
    lemma_unescape_text(header.1);
}

/// Every header has a key.
pub open spec fn keys_present(headers: Seq<HeaderModel>) -> bool {
    forall|i: int| 0 <= i < headers.len() ==> (#[trigger] headers[i]).0.len() > 0
}

/// Reading written header lines gives the headers, if a line ending follows.
pub proof fn lemma_headers_at_written(pre: Seq<u8>, headers: Seq<HeaderModel>, rest: Seq<u8>)
    requires
        keys_present(headers),
        rest.len() > 0,
        rest[0] == LF,
    ensures
        headers_at(pre + headers_bytes(headers) + rest, pre.len() as int) == (
            headers,
            (pre.len() + headers_bytes(headers).len()) as int,
        ),
    decreases headers.len(),
{
    let s = pre + headers_bytes(headers) + rest;
    let at = pre.len() as int;
    if headers.len() == 0 {
        assert(s[at] == LF);
        assert(headers =~= seq![]);
    } else {
        let first = header_bytes(headers[0]);
        let others = headers.skip(1);
        assert(keys_present(others)) by {
            assert forall|i: int| 0 <= i < others.len() implies (#[trigger] others[i]).0.len()
                > 0 by {
                assert(others[i] == headers[i + 1]);
            }
        }
        lemma_header_line(pre, headers[0], seq![LF], headers_bytes(others) + rest);
        assert(pre + first + (headers_bytes(others) + rest) =~= s);
        lemma_headers_at_written(pre + first, others, rest);
        assert(pre + first + headers_bytes(others) + rest =~= s);
        assert(seq![headers[0]] + others =~= headers);
        lemma_header_at(s, at);
    }
}

/// A text without special bytes is written as it is.
pub proof fn lemma_escape_plain(s: Seq<u8>)
    requires
        forall|i: int|
            0 <= i < s.len() ==> !Stop::KeyEnd.has(#[trigger] s[i]) && s[i] != BACKSLASH,
    ensures
        escape(s) == s,
    decreases s.len(),
{
    if s.len() > 0 {
        assert forall|i: int| 0 <= i < s.skip(1).len() implies !Stop::KeyEnd.has(
            #[trigger] s.skip(1)[i],
        ) && s.skip(1)[i] != BACKSLASH by {
            assert(s.skip(1)[i] == s[i + 1]);
        }
        lemma_escape_plain(s.skip(1));
        assert(seq![s[0]] + s.skip(1) =~= s);
    } else {
        assert(s =~= seq![]);
    }
}

/// A number as text.
pub open spec fn decimal_text(n: nat) -> Seq<char> {
    decode_utf8(decimal(n))
}

/// The header that announces a body of `length` bytes.
pub open spec fn content_length_header(length: nat) -> HeaderModel {
    ("content-length"@, decimal_text(length))
}

/// The text of a number has the digits of the number.
pub proof fn lemma_decimal_text(n: nat)
    ensures
        encode_utf8(decimal_text(n)) == decimal(n),
{
    lemma_decimal_digits(n);
    lemma_ascii_valid_utf8(decimal(n));
    decode_utf8_encode_utf8(decimal(n));
}

/// The line that announces the length of a body is a header line.
pub proof fn lemma_content_length_line(length: nat)
    ensures
        content_length_line(length) == header_bytes(content_length_header(length)),
        encode_utf8("content-length:"@) == encode_utf8("content-length"@) + seq![COLON],
{
    let key = "content-length"@;
    let key_colon = "content-length:"@;
    reveal_strlit("content-length");
    reveal_strlit("content-length:");
    is_ascii_chars_encode_utf8(key);
    is_ascii_chars_encode_utf8(key_colon);
    assert(encode_utf8(key_colon) =~= encode_utf8(key) + seq![COLON]) by {
        assert forall|i: int| 0 <= i < key.len() implies encode_utf8(key)[i] == encode_utf8(
            key_colon,
        )[i] by {
            assert(key[i] == key_colon[i]);
        }
        assert(key_colon[14] as u8 == COLON);
    }
    assert forall|i: int| 0 <= i < encode_utf8(key).len() implies !Stop::KeyEnd.has(
        #[trigger] encode_utf8(key)[i],
    ) && encode_utf8(key)[i] != BACKSLASH by {
        assert(key[i] as u8 == encode_utf8(key)[i]);
    }
    lemma_escape_plain(encode_utf8(key));
    lemma_decimal_digits(length);
    lemma_decimal_text(length);
    lemma_escape_plain(decimal(length));
    assert(content_length_line(length) =~= header_bytes(content_length_header(length)));
}

/* Frames */

/// The frame that arrives when `frame` is sent. One with a body announces its length; one without
/// arrives with an empty body if its headers announce that.
pub open spec fn received(frame: FrameModel) -> FrameModel {
    match frame.body {
        Some(body) => FrameModel {
            headers: frame.headers.push(content_length_header(body.len())),
            ..frame
        },
        None => if content_length(frame.headers) == Some(0int) {
            FrameModel { body: Some(seq![]), ..frame }
        } else {
            frame
        },
    }
}

/// The command and the header lines, with the line endings behind them.
pub open spec fn head_bytes(frame: FrameModel) -> Seq<u8> {
    encode_utf8(frame.command) + seq![LF] + headers_bytes(frame.headers) + seq![LF]
}

/// The bytes of the body.
pub open spec fn payload(frame: FrameModel) -> Seq<u8> {
    match frame.body {
        Some(body) => body,
        None => seq![],
    }
}

/// A frame is its head, its body and a NUL byte.
pub proof fn lemma_frame_bytes(frame: FrameModel)
    ensures
        frame_bytes(frame) == head_bytes(received(frame)) + payload(frame) + seq![NUL],
{
    if let Some(body) = frame.body {
        lemma_content_length_line(body.len());
        lemma_headers_bytes_push(frame.headers, content_length_header(body.len()));
    }
    assert(frame_bytes(frame) =~= head_bytes(received(frame)) + payload(frame) + seq![NUL]);
}

/// The command is made of ASCII letters.
pub open spec fn is_command(command: Seq<char>) -> bool {
    command.len() > 0 && forall|i: int|
        0 <= i < command.len() ==> ('A' <= #[trigger] command[i] <= 'Z' || 'a' <= command[i]
            <= 'z')
}

/// A frame that can be read back: the command is made of letters, every header has a key, and
/// the body is one that the headers allow for.
pub open spec fn is_readable(frame: FrameModel) -> bool {
    &&& is_command(frame.command)
    &&& keys_present(frame.headers)
    &&& match (content_length(received(frame).headers), frame.body) {
        (Some(length), Some(body)) => length == body.len(),
        (Some(length), None) => length == 0,
        (None, Some(body)) => body.len() > 0 && !body.contains(NUL),
        (None, None) => true,
    }
}

/// A command is written in letters.
pub proof fn lemma_command_bytes(command: Seq<char>)
    requires
        is_command(command),
    ensures
        encode_utf8(command).len() > 0,
        forall|i: int|
            0 <= i < encode_utf8(command).len() ==> is_alphabetic(
                #[trigger] encode_utf8(command)[i],
            ),
        decode_utf8(encode_utf8(command)) == command,
{
    encode_utf8_decode_utf8(command);
    is_ascii_chars_encode_utf8(command);
    assert forall|i: int| 0 <= i < encode_utf8(command).len() implies is_alphabetic(
        #[trigger] encode_utf8(command)[i],
    ) by {
        assert(command[i] as u8 == encode_utf8(command)[i]);
    }
}

/// A frame that can be read back arrives with a head that can be read back.
pub proof fn lemma_received_keys(frame: FrameModel)
    requires
        keys_present(frame.headers),
    ensures
        keys_present(received(frame).headers),
{
    reveal_strlit("content-length");
}

/// The reader finds command and headers in a head.
#[verifier::rlimit(40)]
pub proof fn lemma_parse_head(frame: FrameModel, rest: Seq<u8>)
    requires
        is_command(frame.command),
        keys_present(frame.headers),
    ensures
        parse(head_bytes(frame) + rest) == parse_body(
            head_bytes(frame) + rest,
            head_bytes(frame).len() as int,
            frame.command,
            frame.headers,
        ),
{
    let command = encode_utf8(frame.command);
    let s = head_bytes(frame) + rest;
    let lines = headers_bytes(frame.headers);
    let command_end = command.len() as int;
    let head_end = command_end + 1 + lines.len();
    lemma_command_bytes(frame.command);
    assert(s[0] == command[0]);
    assert(is_alphabetic(command[0]));
    assert(s[command_end] == LF);
    assert(s[head_end] == LF);
    assert forall|j: int| 0 <= j < command_end implies !Stop::NotAlphabetic.has(
        #[trigger] s[j],
    ) by {
        assert(s[j] == command[j]);
    }
    lemma_find_from_is(s, 0, Stop::NotAlphabetic, command_end);
    assert(s.subrange(0, command_end) =~= command);
    let pre = command + seq![LF];
    lemma_headers_at_written(pre, frame.headers, seq![LF] + rest);
    assert(pre + lines + (seq![LF] + rest) =~= s);
    assert(s[head_end - 1] == LF) by {
        if frame.headers.len() > 0 {
            lemma_headers_bytes_last(frame.headers);
            assert(s[head_end - 1] == lines.last());
        }
    }
    assert(empty_line_at(s, head_end - 1));
}

/// Header lines end with a line feed.
proof fn lemma_headers_bytes_last(headers: Seq<HeaderModel>)
    requires
        headers.len() > 0,
    ensures
        headers_bytes(headers).len() > 0,
        headers_bytes(headers).last() == LF,
    decreases headers.len(),
{
    reveal_with_fuel(headers_bytes, 2);
    if headers.len() > 1 {
        lemma_headers_bytes_last(headers.skip(1));
    }
}

/// The reader finds a frame that can be read back in what was written of it.
#[verifier::rlimit(40)]
pub proof fn lemma_parse_written(frame: FrameModel, rest: Seq<u8>)
    requires
        is_readable(frame),
    ensures
        parse(frame_bytes(frame) + rest) == (Parsed::Complete {
            frame: received(frame),
            used: frame_bytes(frame).len() + line_ending(rest, 0),
        }),
{
    let arrived = received(frame);
    let head = head_bytes(arrived);
    let body = payload(frame);
    let s = frame_bytes(frame) + rest;
    let at = head.len() as int;
    let end = at + body.len();
    lemma_frame_bytes(frame);
    lemma_received_keys(frame);
    lemma_parse_head(arrived, body + seq![NUL] + rest);
    assert(head + (body + seq![NUL] + rest) =~= s);
    assert(s[end] == NUL);
    assert(s.subrange(at, end) =~= body);
    if content_length(arrived.headers) is None {
        assert forall|j: int| at <= j < end implies !Stop::Nul.has(#[trigger] s[j]) by {
            assert(s[j] == body[j - at]);
        }
        lemma_find_from_is(s, at, Stop::Nul, end);
    }
    assert(line_ending(s, end + 1) == line_ending(rest, 0)) by {
        if rest.len() > 0 {
            assert(s[end + 1] == rest[0]);
        }
        if rest.len() > 1 {
            assert(s[end + 2] == rest[1]);
        }
    }
    assert(body =~= payload(arrived));
}

} // verus!
