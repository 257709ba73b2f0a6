//! Frames in memory: building, writing and reading them, and looking up their headers.
use crate::buffer::{as_slice, contents, most_contents, put_slice, put_u8};
use crate::error::{error_text, ErrorModel, Expected, ParseError, StompError};
use crate::escape::{add_escaped_len, unescape, write_escaped_text};
use crate::grammar::{
    body_bytes, content_length, content_length_line, empty_line_at, frame_bytes, has_empty_line,
    header_at, header_bytes, header_value, headers_at, headers_bytes, lemma_header_at,
    lemma_headers_bytes_push, line_ending, parse, FrameModel, HeaderModel, Parsed,
};
use crate::message::text_of;
use crate::scan::{
    decimal_digits, find, is_alphabetic, lemma_find_from, parse_integer, same_text, Stop, COLON, CR,
    LF, NUL,
};
use crate::text::{lemma_ascii_valid_utf8, lossy_text};
use bytes::BytesMut;
use std::borrow::Cow;
use vstd::prelude::*;
use vstd::slice::{slice_subrange, slice_to_vec};
use vstd::utf8::*;

verus! {

/// A frame: a command, headers in order, and maybe a body.
#[derive(Debug)]
pub struct Frame<'a> {
    pub command: Cow<'a, str>,
    pub headers: Vec<(String, String)>,
    pub body: Option<&'a [u8]>,
}

impl<'a> View for Frame<'a> {
    type V = FrameModel;

    open spec fn view(&self) -> FrameModel {
        FrameModel {
            command: self.command@,
            headers: self.headers.deep_view(),
            body: match self.body {
                Some(bytes) => Some(bytes@),
                None => None,
            },
        }
    }
}

/// The headers that have a value.
pub open spec fn present(headers: Seq<(Seq<char>, Option<Seq<char>>)>) -> Seq<HeaderModel>
    decreases headers.len(),
{
    if headers.len() == 0 {
        seq![]
    } else {
        let rest = present(headers.skip(1));
        match headers[0].1 {
            Some(value) => seq![(headers[0].0, value)] + rest,
            None => rest,
        }
    }
}

proof fn lemma_present_push(
    headers: Seq<(Seq<char>, Option<Seq<char>>)>,
    header: (Seq<char>, Option<Seq<char>>),
)
    ensures
        present(headers.push(header)) == match header.1 {
            Some(value) => present(headers).push((header.0, value)),
            None => present(headers),
        },
    decreases headers.len(),
{
    if headers.len() == 0 {
        reveal_with_fuel(present, 2);
        assert(headers.push(header).skip(1) =~= headers);
        if let Some(value) = header.1 {
            assert(present(headers.push(header)) =~= present(headers).push((header.0, value)));
        }
    } else {
        lemma_present_push(headers.skip(1), header);
        assert(headers.push(header).skip(1) =~= headers.skip(1).push(header));
        if let Some(value) = header.1 {
            assert(present(headers.push(header)) =~= present(headers).push((header.0, value)));
        }
    }
}

impl<'a> Frame<'a> {
    /// Builds a frame from the headers that have a value, followed by the extra ones.
    pub fn new(
        command: &'a str,
        headers: Vec<(&str, Option<&String>)>,
        body: Option<&'a [u8]>,
        extra_headers: &Vec<(String, String)>,
    ) -> (frame: Frame<'a>)
        ensures
            frame@ == (FrameModel {
                command: command@,
                headers: present(headers.deep_view()) + extra_headers.deep_view(),
                body: match body {
                    Some(bytes) => Some(bytes@),
                    None => None,
                },
            }),
    {
        let mut all: Vec<(String, String)> = Vec::new();
        let mut i: usize = 0;
        assert(all.deep_view() =~= present(headers.deep_view().take(0)));
        while i < headers.len()
            invariant
                i <= headers@.len(),
                all.deep_view() == present(headers.deep_view().take(i as int)),
            decreases headers@.len() - i,
        {
            let (key, value) = headers[i];
            let ghost before = all.deep_view();
            let ghost h = headers.deep_view()[i as int];
            proof {
                lemma_present_push(headers.deep_view().take(i as int), h);
                assert(headers.deep_view().take(i + 1) =~= headers.deep_view().take(i as int).push(
                    h,
                ));
            }
            if let Some(value) = value {
                all.push((key.to_owned(), value.clone()));
                assert(all.deep_view() =~= before.push((h.0, value@)));
            }
            i = i + 1;
        }
        assert(headers.deep_view().take(i as int) =~= headers.deep_view());
        let ghost own = all.deep_view();
        let mut j: usize = 0;
        assert(own + extra_headers.deep_view().take(0) =~= own);
        while j < extra_headers.len()
            invariant
                j <= extra_headers@.len(),
                all.deep_view() == own + extra_headers.deep_view().take(j as int),
            decreases extra_headers@.len() - j,
        {
            let ghost before = all.deep_view();
            all.push((extra_headers[j].0.clone(), extra_headers[j].1.clone()));
            assert(all.deep_view() =~= before.push(extra_headers.deep_view()[j as int]));
            j = j + 1;
            assert(all.deep_view() =~= own + extra_headers.deep_view().take(j as int));
        }
        assert(extra_headers.deep_view().take(j as int) =~= extra_headers.deep_view());
        Frame { command: Cow::Borrowed(command), headers: all, body }
    }

    /// The command of the frame.
    pub fn command_text(&self) -> (text: &str)
        ensures
            text@ == self@.command,
    {
        match &self.command {
            Cow::Borrowed(text) => text,
            Cow::Owned(text) => text.as_str(),
        }
    }

    /// Whether `buffer` can take the frame: whether no more bytes would be in it then than a
    /// buffer may hold.
    pub fn fits(&self, buffer: &BytesMut) -> (r: bool)
        ensures
            r == (contents(*buffer).len() + frame_bytes(self@).len() <= most_contents()),
    {
        let limit: usize = (isize::MAX / 4) as usize;
        let ghost headers = self.headers.deep_view();
        let command_len = self.command_text().as_bytes().len();
        let held = as_slice(buffer).len();
        // The line ending of the command, the empty line and the NUL byte.
        if held > limit || command_len > limit - held || 3 > limit - held - command_len {
            return false;
        }
        let mut total: usize = held + command_len + 3;
        if let Some(body) = self.body {
            let line = get_content_length_header(body);
            if line.len() > limit - total || body.len() > limit - total - line.len() {
                return false;
            }
            total = total + line.len() + body.len();
        }
        let ghost start = total;
        let mut i: usize = 0;
        assert(headers.take(0) =~= Seq::<HeaderModel>::empty());
        while i < self.headers.len()
            invariant
                i <= self.headers@.len(),
                headers == self.headers.deep_view(),
                limit == most_contents(),
                start + headers_bytes(headers).len() == contents(*buffer).len() + frame_bytes(
                    self@,
                ).len(),
                total == start + headers_bytes(headers.take(i as int)).len(),
                total <= limit,
            decreases self.headers@.len() - i,
        {
            proof {
                lemma_headers_bytes_len(headers, i as int);
                lemma_headers_bytes_push(headers.take(i as int), headers[i as int]);
                assert(headers.take(i + 1) =~= headers.take(i as int).push(headers[i as int]));
            }
            match add_escaped_len(self.headers[i].0.as_str(), total, limit) {
                Some(sum) => match add_escaped_len(self.headers[i].1.as_str(), sum, limit) {
                    Some(sum) => {
                        // The colon and the line ending.
                        if 2 > limit - sum {
                            return false;
                        }
                        total = sum + 2;
                    },
                    None => return false,
                },
                None => return false,
            }
            i = i + 1;
        }
        assert(headers.take(i as int) =~= headers);
        true
    }

    /// Writes the frame at the end of `buffer`.
    pub fn serialize(&self, buffer: &mut BytesMut)
        requires
            contents(*old(buffer)).len() + frame_bytes(self@).len() <= most_contents(),
        ensures
            contents(*final(buffer)) == contents(*old(buffer)) + frame_bytes(self@),
    {
        let ghost start = contents(*buffer);
        let ghost headers = self.headers.deep_view();
        put_slice(buffer, self.command_text().as_bytes());
        put_u8(buffer, LF);
        let ghost head = contents(*buffer);
        let mut i: usize = 0;
        assert(head + headers_bytes(headers.take(0)) =~= head);
        while i < self.headers.len()
            invariant
                i <= self.headers@.len(),
                headers == self.headers.deep_view(),
                head.len() + headers_bytes(headers).len() <= most_contents(),
                contents(*buffer) == head + headers_bytes(headers.take(i as int)),
            decreases self.headers@.len() - i,
        {
            let ghost before = contents(*buffer);
            proof {
                lemma_headers_bytes_len(headers, i as int);
                lemma_headers_bytes_push(headers.take(i as int), headers[i as int]);
                assert(headers.take(i + 1) =~= headers.take(i as int).push(headers[i as int]));
            }
            write_escaped_text(self.headers[i].0.as_str(), buffer);
            put_u8(buffer, COLON);
            write_escaped_text(self.headers[i].1.as_str(), buffer);
            put_u8(buffer, LF);
            assert(contents(*buffer) =~= before + header_bytes(headers[i as int]));
            i = i + 1;
            assert(contents(*buffer) =~= head + headers_bytes(headers.take(i as int)));
        }
        assert(headers.take(i as int) =~= headers);
        let ghost before = contents(*buffer);
        if let Some(body) = self.body {
            let line = get_content_length_header(body);
            put_slice(buffer, line.as_slice());
            put_u8(buffer, LF);
            put_slice(buffer, body);
        } else {
            put_u8(buffer, LF);
        }
        assert(contents(*buffer) =~= before + body_bytes(self@.body));
        put_u8(buffer, NUL);
        assert(contents(*buffer) =~= start + frame_bytes(self@));
    }
}

proof fn lemma_headers_bytes_len(headers: Seq<HeaderModel>, n: int)
    requires
        0 <= n <= headers.len(),
    ensures
        headers_bytes(headers.take(n)).len() <= headers_bytes(headers).len(),
        n < headers.len() ==> headers_bytes(headers.take(n)).len() + header_bytes(
            headers[n],
        ).len() <= headers_bytes(headers).len(),
    decreases headers.len() - n,
{
    if n == headers.len() {
        assert(headers.take(n) =~= headers);
    } else {
        assert(headers.take(n + 1) =~= headers.take(n).push(headers[n]));
        lemma_headers_bytes_push(headers.take(n), headers[n]);
        lemma_headers_bytes_len(headers, n + 1);
    }
}

/// The header line that announces the length of `body`.
pub fn get_content_length_header(body: &[u8]) -> (line: Vec<u8>)
    ensures
        line@ == content_length_line(body@.len()),
{
    let mut line = slice_to_vec("content-length:".as_bytes());
    let mut digits = decimal_digits(body.len() as u64);
    line.append(&mut digits);
    line.push(LF);
    assert(line@ =~= content_length_line(body@.len()));
    line
}

/// The length that the first `content-length` header announces, if it is a number.
pub fn get_content_length(headers: &Vec<(String, String)>) -> (length: Option<usize>)
    ensures
        match length {
            Some(n) => content_length(headers.deep_view()) == Some(n as int),
            None => content_length(headers.deep_view()) is None,
        },
{
    match fetch_header(headers, "content-length") {
        Some(value) => match parse_integer(value.as_str().as_bytes(), usize::MAX as u64) {
            Ok(n) => Some(n as usize),
            Err(_) => None,
        },
        None => None,
    }
}

/// A body that is not empty.
pub fn is_empty_slice(s: &[u8]) -> (r: Option<&[u8]>)
    ensures
        match r {
            Some(bytes) => s@.len() > 0 && bytes@ == s@,
            None => s@.len() == 0,
        },
{
    if s.is_empty() {
        None
    } else {
        Some(s)
    }
}

/// The value of the first header with this key.
pub fn fetch_header(headers: &Vec<(String, String)>, key: &str) -> (value: Option<String>)
    ensures
        text_of(value) == header_value(headers.deep_view(), key@),
{
    let ghost all = headers.deep_view();
    let mut i: usize = 0;
    assert(all.skip(0) =~= all);
    while i < headers.len()
        invariant
            i <= headers@.len(),
            all == headers.deep_view(),
            header_value(all, key@) == header_value(all.skip(i as int), key@),
        decreases headers@.len() - i,
    {
        assert(all.skip(i as int)[0] == (headers@[i as int].0@, headers@[i as int].1@));
        assert(all.skip(i as int).skip(1) =~= all.skip(i + 1));
        if same_text(headers[i].0.as_str(), key) {
            return Some(headers[i].1.clone());
        }
        i = i + 1;
    }
    None
}

/// The value of the first header with this key, which has to be there.
pub fn expect_header(headers: &Vec<(String, String)>, key: &str) -> (r: Result<String, StompError>)
    ensures
        match header_value(headers.deep_view(), key@) {
            Some(value) => r matches Ok(text) && text@ == value,
            None => r matches Err(e) && e@ == ErrorModel::MissingHeader(key@)
                && (forall|detail: Seq<char>| #[trigger]
                error_text(e@, detail) == "Expected header '"@ + key@ + "' missing"@),
        },
{
    match fetch_header(headers, key) {
        Some(value) => Ok(value),
        None => Err(StompError::MissingHeader(key.to_owned())),
    }
}

/// The headers whose key is none of `keys`, in their order.
#[verifier::opaque]
pub open spec fn headers_beyond(
    headers: Seq<HeaderModel>,
    keys: Seq<Seq<char>>,
) -> Seq<HeaderModel> {
    headers.filter(|header: HeaderModel| !keys.contains(header.0))
}

/// Whether a text is one of `keys`.
fn is_one_of(text: &str, keys: &[&str]) -> (r: bool)
    ensures
        r == keys.deep_view().contains(text@),
{
    let mut i: usize = 0;
    while i < keys.len()
        invariant
            i <= keys@.len(),
            forall|j: int| 0 <= j < i ==> keys.deep_view()[j] != text@,
        decreases keys@.len() - i,
    {
        if same_text(keys[i], text) {
            assert(keys.deep_view()[i as int] == text@);
            return true;
        }
        i = i + 1;
    }
    false
}

/// The headers whose key is none of `expect_keys`, in their order.
pub fn extra_headers(h: &Vec<(String, String)>, expect_keys: &[&str]) -> (r: Vec<(String, String)>)
    ensures
        r.deep_view() == headers_beyond(h.deep_view(), expect_keys.deep_view()),
{
    let ghost keys = expect_keys.deep_view();
    let mut r: Vec<(String, String)> = Vec::new();
    let mut i: usize = 0;
    assert(h.deep_view().take(0) =~= Seq::<HeaderModel>::empty());
    assert(r.deep_view() =~= headers_beyond(h.deep_view().take(0), keys)) by {
        reveal(headers_beyond);
        reveal(Seq::filter);
    }
    while i < h.len()
        invariant
            i <= h@.len(),
            keys == expect_keys.deep_view(),
            r.deep_view() == headers_beyond(h.deep_view().take(i as int), keys),
        decreases h@.len() - i,
    {
        let ghost before = r.deep_view();
        let ghost header = h.deep_view()[i as int];
        proof {
            let part = h.deep_view().take(i + 1);
            assert(part.drop_last() =~= h.deep_view().take(i as int));
            assert(part.last() == header);
            reveal(headers_beyond);
            reveal(Seq::filter);
        }
        if !is_one_of(h[i].0.as_str(), expect_keys) {
            r.push((h[i].0.clone(), h[i].1.clone()));
            assert(r.deep_view() =~= before.push(header));
        }
        i = i + 1;
    }
    assert(h.deep_view().take(i as int) =~= h.deep_view());
    r
}

/// The length of the line ending at `at`, or 0.
fn line_ending_len(input: &[u8], at: usize) -> (len: usize)
    requires
        at <= input@.len(),
    ensures
        len == line_ending(input@, at as int),
        at + len <= input@.len(),
{
    if at < input.len() && input[at] == LF {
        1
    } else if at < input.len() && input.len() - at > 1 && input[at] == CR && input[at + 1] == LF {
        2
    } else {
        0
    }
}

/// Whether the input holds two line endings in a row.
fn holds_empty_line(input: &[u8]) -> (r: bool)
    ensures
        r == has_empty_line(input@),
{
    let mut at: usize = 0;
    while at < input.len()
        invariant
            at <= input@.len(),
            forall|j: int| 0 <= j < at ==> !#[trigger] empty_line_at(input@, j),
        decreases input@.len() - at,
    {
        let len = line_ending_len(input, at);
        if len > 0 && line_ending_len(input, at + len) > 0 {
            assert(empty_line_at(input@, at as int));
            return true;
        }
        at = at + 1;
    }
    false
}

/// Reads the header line at `at`: the header, and where the next line starts.
fn parse_header(input: &[u8], at: usize) -> (r: Option<((String, String), usize)>)
    requires
        at <= input@.len(),
    ensures
        match r {
            Some((header, next)) => next <= input@.len() && header_at(input@, at as int) == Some(
                ((header.0@, header.1@), next as int),
            ),
            None => header_at(input@, at as int) is None,
        },
{
    let colon = find(input, at, Stop::KeyEnd);
    if colon == at || colon == input.len() || input[colon] != COLON {
        return None;
    }
    let end = find(input, colon + 1, Stop::LineEnd);
    let len = line_ending_len(input, end);
    if len == 0 {
        return None;
    }
    match (
        unescape(slice_subrange(input, at, colon)),
        unescape(slice_subrange(input, colon + 1, end)),
    ) {
        (Some(key), Some(value)) => Some(((key, value), end + len)),
        _ => None,
    }
}

/// Reads the header lines from `at` on: the headers, and where the first line starts that is
/// no header.
fn parse_headers(input: &[u8], at: usize) -> (r: (Vec<(String, String)>, usize))
    requires
        at <= input@.len(),
    ensures
        r.1 <= input@.len(),
        (r.0.deep_view(), r.1 as int) == headers_at(input@, at as int),
{
    let mut headers: Vec<(String, String)> = Vec::new();
    let mut next: usize = at;
    assert(headers.deep_view() + headers_at(input@, at as int).0 =~= headers_at(
        input@,
        at as int,
    ).0);
    loop
        invariant
            at <= next <= input@.len(),
            headers_at(input@, at as int) == (
                headers.deep_view() + headers_at(input@, next as int).0,
                headers_at(input@, next as int).1,
            ),
        decreases input@.len() - next,
    {
        proof {
            lemma_header_at(input@, next as int);
        }
        match parse_header(input, next) {
            Some((header, after)) => {
                let ghost before = headers.deep_view();
                let ghost model = (header.0@, header.1@);
                let ghost rest = headers_at(input@, after as int).0;
                headers.push(header);
                assert(headers.deep_view() =~= before.push(model));
                assert(before + (seq![model] + rest) =~= headers.deep_view() + rest);
                next = after;
            },
            None => {
                assert(headers.deep_view() + Seq::<HeaderModel>::empty() =~= headers.deep_view());
                return (headers, next);
            },
        }
    }
}

/// Letters are valid UTF-8.
proof fn lemma_letters(s: Seq<u8>, start: int, end: int)
    requires
        0 <= start <= end <= s.len(),
        forall|j: int| start <= j < end ==> is_alphabetic(#[trigger] s[j]),
    ensures
        valid_utf8(s.subrange(start, end)),
{
    let letters = s.subrange(start, end);
    assert forall|i: int| 0 <= i < letters.len() implies #[trigger] letters[i] < 128 by {
        assert(is_alphabetic(s[start + i]));
    }
    lemma_ascii_valid_utf8(letters);
}

/// Reads the frame that `input` starts with: the rest of the input, and the frame.
pub fn parse_frame<'a>(input: &'a [u8]) -> (r: Result<(&'a [u8], Frame<'a>), ParseError>)
    ensures
        match r {
            Ok((rest, frame)) => parse(input@) matches Parsed::Complete { frame: model, used }
                && frame@ == model && 0 < used <= input@.len() && rest@ == input@.skip(used),
            Err(ParseError::Incomplete) => parse(input@) == Parsed::Incomplete,
            Err(ParseError::Invalid { offset, expected }) => parse(input@) == (Parsed::Invalid {
                offset: offset as int,
                expected,
            }),
        },
{
    let total: usize = input.len();
    if !holds_empty_line(input) {
        return Err(ParseError::Incomplete);
    }
    let start = line_ending_len(input, 0);
    let command_end = find(input, start, Stop::NotAlphabetic);
    if command_end == start {
        return Err(ParseError::Invalid { offset: start, expected: Expected::Alphabetic });
    }
    let line_end = line_ending_len(input, command_end);
    if line_end == 0 {
        return Err(ParseError::Invalid { offset: command_end, expected: Expected::LineEnding });
    }
    let letters = slice_subrange(input, start, command_end);
    proof {
        lemma_find_from(input@, start as int, Stop::NotAlphabetic);
        lemma_letters(input@, start as int, command_end as int);
    }
    let command = lossy_text(letters);
    proof {
        encode_utf8_decode_utf8(command@);
    }
    let (headers, head_end) = parse_headers(input, command_end + line_end);
    let head_line_end = line_ending_len(input, head_end);
    if head_line_end == 0 {
        return Err(ParseError::Invalid { offset: head_end, expected: Expected::LineEnding });
    }
    let at: usize = head_end + head_line_end;
    let (body, end): (Option<&'a [u8]>, usize) = match get_content_length(&headers) {
        None => {
            let end = find(input, at, Stop::Nul);
            (is_empty_slice(slice_subrange(input, at, end)), end)
        },
        Some(length) => {
            if length > total - at {
                return Err(ParseError::Incomplete);
            }
            (Some(slice_subrange(input, at, at + length)), at + length)
        },
    };
    if end == total {
        return Err(ParseError::Incomplete);
    }
    if input[end] != NUL {
        return Err(ParseError::Invalid { offset: end, expected: Expected::Nul });
    }
    let used: usize = end + 1 + line_ending_len(input, end + 1);
    let rest = slice_subrange(input, used, total);
    assert(rest@ =~= input@.skip(used as int));
    let frame = Frame { command, headers, body };
    assert(parse(input@) == (Parsed::Complete { frame: frame@, used: used as int }));
    Ok((rest, frame))
}

} // verus!
