//! The grammar of frames: what a frame is, how it is written, and which frame, if any, an input
//! starts with.
use crate::error::Expected;
use crate::escape::{escape, unescape_text};
use crate::scan::{decimal, find_from, lemma_find_from, read_integer, Stop, COLON, CR, LF, NUL};
use vstd::prelude::*;
use vstd::utf8::*;

verus! {

/// A header: its key and its value.
pub type HeaderModel = (Seq<char>, Seq<char>);

/// The value of a frame.
pub struct FrameModel {
    pub command: Seq<char>,
    pub headers: Seq<HeaderModel>,
    pub body: Option<Seq<u8>>,
}

/// The value of the first header with this key.
pub open spec fn header_value(headers: Seq<HeaderModel>, key: Seq<char>) -> Option<Seq<char>>
    decreases headers.len(),
{
    if headers.len() == 0 {
        None
    } else if headers[0].0 == key {
        Some(headers[0].1)
    } else {
        header_value(headers.skip(1), key)
    }
}

/// The length that the first `content-length` header announces, if it is a number.
pub open spec fn content_length(headers: Seq<HeaderModel>) -> Option<int> {
    match header_value(headers, "content-length"@) {
        Some(value) => match read_integer(encode_utf8(value), usize::MAX as int) {
            Ok(length) => Some(length),
            Err(_) => None,
        },
        None => None,
    }
}

/* How a frame is written */

/// A header line.
pub open spec fn header_bytes(header: HeaderModel) -> Seq<u8> {
    escape(encode_utf8(header.0)) + seq![COLON] + escape(encode_utf8(header.1)) + seq![LF]
}

/// All header lines.
pub open spec fn headers_bytes(headers: Seq<HeaderModel>) -> Seq<u8>
    decreases headers.len(),
{
    if headers.len() == 0 {
        seq![]
    } else {
        header_bytes(headers[0]) + headers_bytes(headers.skip(1))
    }
}

/// Header lines are written one behind the other.
pub proof fn lemma_headers_bytes_push(headers: Seq<HeaderModel>, header: HeaderModel)
    ensures
        headers_bytes(headers.push(header)) == headers_bytes(headers) + header_bytes(header),
    decreases headers.len(),
{
    if headers.len() == 0 {
        reveal_with_fuel(headers_bytes, 2);
        assert(headers.push(header).skip(1) =~= headers);
        assert(headers_bytes(headers.push(header)) =~= headers_bytes(headers) + header_bytes(
            header,
        ));
    } else {
        lemma_headers_bytes_push(headers.skip(1), header);
        assert(headers.push(header).skip(1) =~= headers.skip(1).push(header));
        assert(headers_bytes(headers.push(header)) =~= headers_bytes(headers) + header_bytes(
            header,
        ));
    }
}

/// The header line that announces a body of `length` bytes.
pub open spec fn content_length_line(length: nat) -> Seq<u8> {
    encode_utf8("content-length:"@) + decimal(length) + seq![LF]
}

/// What stands between the header lines and the closing NUL byte.
pub open spec fn body_bytes(body: Option<Seq<u8>>) -> Seq<u8> {
    match body {
        Some(bytes) => content_length_line(bytes.len()) + seq![LF] + bytes,
        None => seq![LF],
    }
}

/// A frame: the command, the header lines, an empty line, the body, a NUL byte. A frame with a
/// body has one more header line, which announces its length.
pub open spec fn frame_bytes(frame: FrameModel) -> Seq<u8> {
    encode_utf8(frame.command) + seq![LF] + headers_bytes(frame.headers) + body_bytes(frame.body)
        + seq![NUL]
}

/* Which frame an input starts with */

/// The length of the line ending at `at`: line feed, or carriage return and line feed. It is 0 if
/// there is none.
pub open spec fn line_ending(s: Seq<u8>, at: int) -> int {
    if 0 <= at < s.len() && s[at] == LF {
        1
    } else if 0 <= at < s.len() - 1 && s[at] == CR && s[at + 1] == LF {
        2
    } else {
        0
    }
}

/// Two line endings follow one another at `at`.
pub open spec fn empty_line_at(s: Seq<u8>, at: int) -> bool {
    line_ending(s, at) > 0 && line_ending(s, at + line_ending(s, at)) > 0
}

/// The input holds the whole head of a frame.
pub open spec fn has_empty_line(s: Seq<u8>) -> bool {
    exists|at: int| #[trigger] empty_line_at(s, at)
}

/// The header whose line starts at `at`, and where the next line starts: a key that is not
/// empty, a colon, a value, a line ending. The key ends at the first colon.
pub open spec fn header_at(s: Seq<u8>, at: int) -> Option<(HeaderModel, int)> {
    let colon = find_from(s, at, Stop::KeyEnd);
    let end = find_from(s, colon + 1, Stop::LineEnd);
    if at < colon < s.len() && s[colon] == COLON && line_ending(s, end) > 0 {
        match (
            unescape_text(s.subrange(at, colon)),
            unescape_text(s.subrange(colon + 1, end)),
        ) {
            (Some(key), Some(value)) => Some(((key, value), end + line_ending(s, end))),
            _ => None,
        }
    } else {
        None
    }
}

/// A header line moves the reader on.
pub proof fn lemma_header_at(s: Seq<u8>, at: int)
    requires
        0 <= at <= s.len(),
    ensures
        header_at(s, at) matches Some((_, next)) ==> at + 2 < next <= s.len(),
{
    lemma_find_from(s, at, Stop::KeyEnd);
    let colon = find_from(s, at, Stop::KeyEnd);
    if colon < s.len() {
        lemma_find_from(s, colon + 1, Stop::LineEnd);
    }
}

/// The headers whose lines start at `at`, and where the first line starts that is no header.
pub open spec fn headers_at(s: Seq<u8>, at: int) -> (Seq<HeaderModel>, int)
    decreases s.len() - at,
    when 0 <= at <= s.len()
{
    proof {
        lemma_header_at(s, at);
    }
    match header_at(s, at) {
        Some((header, next)) => {
            let (headers, end) = headers_at(s, next);
            (seq![header] + headers, end)
        },
        None => (seq![], at),
    }
}

/// What an input starts with.
pub enum Parsed {
    /// A frame, which takes up the first `used` bytes.
    Complete { frame: FrameModel, used: int },
    /// Maybe the first part of a frame.
    Incomplete,
    /// Not a frame, as the byte at `offset` shows.
    Invalid { offset: int, expected: Expected },
}

/// The end of a frame, behind a body that ends at `end`: a NUL byte and maybe a line ending.
pub open spec fn parse_end(s: Seq<u8>, end: int, frame: FrameModel) -> Parsed {
    if end >= s.len() {
        Parsed::Incomplete
    } else if s[end] != NUL {
        Parsed::Invalid { offset: end, expected: Expected::Nul }
    } else {
        Parsed::Complete { frame, used: end + 1 + line_ending(s, end + 1) }
    }
}

/// The frame with this command and these headers whose body starts at `at`. A body of announced
/// length has that length. Any other reaches to the first NUL byte, and is absent if it is empty.
pub open spec fn parse_body(
    s: Seq<u8>,
    at: int,
    command: Seq<char>,
    headers: Seq<HeaderModel>,
) -> Parsed {
    match content_length(headers) {
        Some(length) => if at + length > s.len() {
            Parsed::Incomplete
        } else {
            let body = Some(s.subrange(at, at + length));
            parse_end(s, at + length, FrameModel { command, headers, body })
        },
        None => {
            let end = find_from(s, at, Stop::Nul);
            let body = if end == at {
                None
            } else {
                Some(s.subrange(at, end))
            };
            parse_end(s, end, FrameModel { command, headers, body })
        },
    }
}

/// The frame that `s` starts with: maybe a line ending, the letters of the command, a line
/// ending, header lines, a line ending, the body, a NUL byte, maybe a line ending. Nothing is
/// read before the input holds two line endings in a row.
pub open spec fn parse(s: Seq<u8>) -> Parsed {
    let start = line_ending(s, 0);
    let command_end = find_from(s, start, Stop::NotAlphabetic);
    let command = decode_utf8(s.subrange(start, command_end));
    let (headers, head_end) = headers_at(s, command_end + line_ending(s, command_end));
    if !has_empty_line(s) {
        Parsed::Incomplete
    } else if command_end == start {
        Parsed::Invalid { offset: start, expected: Expected::Alphabetic }
    } else if line_ending(s, command_end) == 0 {
        Parsed::Invalid { offset: command_end, expected: Expected::LineEnding }
    } else if line_ending(s, head_end) == 0 {
        Parsed::Invalid { offset: head_end, expected: Expected::LineEnding }
    } else {
        parse_body(s, head_end + line_ending(s, head_end), command, headers)
    }
}

} // verus!
