//! Frames on the wire, byte by byte: which inputs are frames, which may become frames and which
//! are not, in terms of the lines that they are made of.
use crate::error::Expected;
use crate::escape::unescape_text;
use crate::grammar::{
    content_length, empty_line_at, has_empty_line, header_at, headers_at, lemma_header_at,
    line_ending, parse, parse_body, FrameModel, HeaderModel, Parsed,
};
use crate::roundtrip::lemma_content_length_range;
use crate::scan::{find_from, lemma_find_from, lemma_find_from_is, Stop};
use crate::text::lemma_ascii_valid_utf8;
use vstd::prelude::*;
use vstd::utf8::*;

verus! {

/* The words of the grammar */

/// A line ending: line feed, or carriage return and line feed.
pub open spec fn is_eol(e: Seq<u8>) -> bool {
    e == seq![10u8] || e == seq![13u8, 10u8]
}

/// How many bytes the line ending takes up that `s` starts with, or 0.
pub open spec fn eol_len(s: Seq<u8>) -> nat {
    if s.len() >= 1 && s[0] == 10 {
        1
    } else if s.len() >= 2 && s[0] == 13 && s[1] == 10 {
        2
    } else {
        0
    }
}

/// ASCII letters, at least one.
pub open spec fn is_word(c: Seq<u8>) -> bool {
    c.len() > 0 && forall|i: int|
        0 <= i < c.len() ==> (65 <= #[trigger] c[i] <= 90 || 97 <= c[i] <= 122)
}

/// The text of ASCII letters.
pub open spec fn word_text(c: Seq<u8>) -> Seq<char> {
    Seq::new(c.len(), |i: int| c[i] as char)
}

/// A header line: key, colon, value, line ending.
pub struct Line {
    pub key: Seq<u8>,
    pub value: Seq<u8>,
    pub eol: Seq<u8>,
}

impl Line {
    pub open spec fn bytes(self) -> Seq<u8> {
        self.key + seq![58u8] + self.value + self.eol
    }

    /// The key is not empty and ends at the colon, the value ends at the line ending, and both
    /// stand for texts.
    pub open spec fn is_valid(self) -> bool {
        &&& self.key.len() > 0
        &&& forall|i: int|
            0 <= i < self.key.len() ==> #[trigger] self.key[i] != 58 && self.key[i] != 13
                && self.key[i] != 10
        &&& forall|i: int|
            0 <= i < self.value.len() ==> #[trigger] self.value[i] != 13 && self.value[i] != 10
        &&& is_eol(self.eol)
        &&& unescape_text(self.key) is Some
        &&& unescape_text(self.value) is Some
    }

    pub open spec fn header(self) -> HeaderModel {
        (unescape_text(self.key)->0, unescape_text(self.value)->0)
    }
}

/// Lines one behind the other.
pub open spec fn lines_bytes(lines: Seq<Line>) -> Seq<u8>
    decreases lines.len(),
{
    if lines.len() == 0 {
        seq![]
    } else {
        lines[0].bytes() + lines_bytes(lines.skip(1))
    }
}

/// Every line is a header line.
pub open spec fn lines_valid(lines: Seq<Line>) -> bool {
    forall|i: int| 0 <= i < lines.len() ==> (#[trigger] lines[i]).is_valid()
}

/// The headers of lines.
pub open spec fn lines_headers(lines: Seq<Line>) -> Seq<HeaderModel> {
    Seq::new(lines.len(), |i: int| lines[i].header())
}

/// What a frame starts with: maybe a line ending, a command, a line ending, header lines, a line
/// ending.
pub struct Head {
    pub lead: Seq<u8>,
    pub command: Seq<u8>,
    pub eol: Seq<u8>,
    pub lines: Seq<Line>,
    pub end: Seq<u8>,
}

impl Head {
    pub open spec fn bytes(self) -> Seq<u8> {
        self.lead + self.command + self.eol + lines_bytes(self.lines) + self.end
    }

    pub open spec fn is_valid(self) -> bool {
        &&& self.lead.len() == 0 || is_eol(self.lead)
        &&& is_word(self.command)
        &&& is_eol(self.eol)
        &&& lines_valid(self.lines)
        &&& is_eol(self.end)
    }

    /// The length of the body that the headers announce.
    pub open spec fn announced(self) -> Option<int> {
        content_length(lines_headers(self.lines))
    }

    /// The frame with this head and this body.
    pub open spec fn frame(self, body: Seq<u8>) -> FrameModel {
        FrameModel {
            command: word_text(self.command),
            headers: lines_headers(self.lines),
            body: if self.announced() is None && body.len() == 0 {
                None
            } else {
                Some(body)
            },
        }
    }

    /// The body ends where the frame ends: it has the announced length, or holds no NUL byte.
    pub open spec fn allows(self, body: Seq<u8>) -> bool {
        match self.announced() {
            Some(length) => body.len() == length,
            None => forall|i: int| 0 <= i < body.len() ==> #[trigger] body[i] != 0,
        }
    }
}

/* Reading a head */

proof fn lemma_eol(s: Seq<u8>, at: int)
    requires
        0 <= at <= s.len(),
    ensures
        line_ending(s, at) == eol_len(s.skip(at)),
        at + line_ending(s, at) <= s.len(),
        line_ending(s, at) > 0 ==> is_eol(s.subrange(at, at + line_ending(s, at))),
{
    if line_ending(s, at) == 1 {
        assert(s.subrange(at, at + 1) =~= seq![10u8]);
    } else if line_ending(s, at) == 2 {
        assert(s.subrange(at, at + 2) =~= seq![13u8, 10u8]);
    }
}

proof fn lemma_eol_at(pre: Seq<u8>, eol: Seq<u8>, rest: Seq<u8>)
    requires
        is_eol(eol),
    ensures
        line_ending(pre + eol + rest, pre.len() as int) == eol.len(),
        0 < eol.len(),
{
    let s = pre + eol + rest;
    assert(s[pre.len() as int] == eol[0]);
    if eol.len() == 2 {
        assert(s[(pre.len() + 1) as int] == eol[1]);
    }
}

/// A header line is read as such.
proof fn lemma_line_at(pre: Seq<u8>, line: Line, rest: Seq<u8>)
    requires
        line.is_valid(),
    ensures
        header_at(pre + line.bytes() + rest, pre.len() as int) == Some(
            (line.header(), (pre.len() + line.bytes().len()) as int),
        ),
{
    let s = pre + line.bytes() + rest;
    let at = pre.len() as int;
    let colon = at + line.key.len();
    let end = colon + 1 + line.value.len();
    assert(s.subrange(at, colon) =~= line.key);
    assert(s.subrange(colon + 1, end) =~= line.value);
    assert(s[colon] == 58);
    assert forall|j: int| at <= j < colon implies !Stop::KeyEnd.has(#[trigger] s[j]) by {
        assert(s[j] == line.key[j - at]);
    }
    assert forall|j: int| colon + 1 <= j < end implies !Stop::LineEnd.has(#[trigger] s[j]) by {
        assert(s[j] == line.value[j - colon - 1]);
    }
    let before = pre + line.key + seq![58u8] + line.value;
    assert(s =~= before + line.eol + rest);
    lemma_eol_at(before, line.eol, rest);
    assert(s[end] == line.eol[0]);
    lemma_find_from_is(s, at, Stop::KeyEnd, colon);
    lemma_find_from_is(s, colon + 1, Stop::LineEnd, end);
}

/// Header lines in front of a line ending are read as such.
proof fn lemma_lines_at(pre: Seq<u8>, lines: Seq<Line>, end: Seq<u8>, rest: Seq<u8>)
    requires
        lines_valid(lines),
        is_eol(end),
    ensures
        headers_at(pre + lines_bytes(lines) + end + rest, pre.len() as int) == (
            lines_headers(lines),
            (pre.len() + lines_bytes(lines).len()) as int,
        ),
    decreases lines.len(),
{
    let s = pre + lines_bytes(lines) + end + rest;
    let at = pre.len() as int;
    if lines.len() == 0 {
        assert(s[at] == end[0]);
        assert(lines_headers(lines) =~= seq![]);
    } else {
        let others = lines.skip(1);
        let first = lines[0];
        assert forall|i: int| 0 <= i < others.len() implies (#[trigger] others[i]).is_valid() by {
            assert(others[i] == lines[i + 1]);
        }
        assert(first.is_valid());
        lemma_line_at(pre, first, lines_bytes(others) + end + rest);
        assert(s =~= pre + first.bytes() + (lines_bytes(others) + end + rest));
        lemma_lines_at(pre + first.bytes(), others, end, rest);
        assert(s =~= pre + first.bytes() + lines_bytes(others) + end + rest);
        lemma_header_at(s, at);
        assert(lines_headers(lines) =~= seq![first.header()] + lines_headers(others));
    }
}

/// Lines end in a line ending.
proof fn lemma_lines_last(lines: Seq<Line>)
    requires
        lines_valid(lines),
        lines.len() > 0,
    ensures
        ({
            let last = lines.last().eol;
            let before = lines_bytes(lines).take(lines_bytes(lines).len() - last.len());
            lines_bytes(lines).len() >= last.len() && lines_bytes(lines) == before + last && is_eol(
                last,
            )
        }),
    decreases lines.len(),
{
    let s = lines_bytes(lines);
    let last = lines.last().eol;
    assert(lines.last().is_valid());
    reveal_with_fuel(lines_bytes, 2);
    if lines.len() == 1 {
        assert(s =~= lines[0].bytes());
    } else {
        let others = lines.skip(1);
        assert forall|i: int| 0 <= i < others.len() implies (#[trigger] others[i]).is_valid() by {
            assert(others[i] == lines[i + 1]);
        }
        lemma_lines_last(others);
        assert(others.last() == lines.last());
        let t = lines_bytes(others);
        assert(t == t.take(t.len() - last.len()) + last);
    }
    assert(s =~= s.take(s.len() - last.len()) + last);
}

proof fn lemma_two_eols(pre: Seq<u8>, a: Seq<u8>, b: Seq<u8>, rest: Seq<u8>)
    requires
        is_eol(a),
        is_eol(b),
    ensures
        has_empty_line(pre + a + b + rest),
{
    let s = pre + a + b + rest;
    assert(s =~= pre + a + (b + rest));
    lemma_eol_at(pre, a, b + rest);
    lemma_eol_at(pre + a, b, rest);
    assert(empty_line_at(s, pre.len() as int));
}

/// The command of a head is read as such.
proof fn lemma_head_command(lead: Seq<u8>, command: Seq<u8>, eol: Seq<u8>, rest: Seq<u8>)
    requires
        lead.len() == 0 || is_eol(lead),
        is_word(command),
        is_eol(eol),
    ensures
        ({
            let s = lead + command + eol + rest;
            let end = (lead.len() + command.len()) as int;
            &&& line_ending(s, 0) == lead.len()
            &&& find_from(s, lead.len() as int, Stop::NotAlphabetic) == end
            &&& decode_utf8(s.subrange(lead.len() as int, end)) == word_text(command)
            &&& line_ending(s, end) == eol.len()
        }),
{
    let s = lead + command + eol + rest;
    let start = lead.len() as int;
    let end = start + command.len();
    if start > 0 {
        assert(s =~= Seq::<u8>::empty() + lead + (command + eol + rest));
        lemma_eol_at(seq![], lead, command + eol + rest);
    } else {
        assert(s[0] == command[0]);
    }
    assert forall|j: int| start <= j < end implies !Stop::NotAlphabetic.has(#[trigger] s[j]) by {
        assert(s[j] == command[j - start]);
    }
    assert(s[end] == eol[0]);
    lemma_find_from_is(s, start, Stop::NotAlphabetic, end);
    assert(s.subrange(start, end) =~= command);
    lemma_ascii_valid_utf8(command);
    assert(decode_utf8(command) =~= word_text(command));
    lemma_eol_at(lead + command, eol, rest);
}

/// A head ends in two line endings.
proof fn lemma_head_ends(head: Head, rest: Seq<u8>)
    requires
        head.is_valid(),
    ensures
        has_empty_line(head.bytes() + rest),
{
    let s = head.bytes() + rest;
    let lines = lines_bytes(head.lines);
    if head.lines.len() == 0 {
        assert(s =~= (head.lead + head.command) + head.eol + head.end + rest);
        lemma_two_eols(head.lead + head.command, head.eol, head.end, rest);
    } else {
        lemma_lines_last(head.lines);
        let last = head.lines.last().eol;
        let before = head.lead + head.command + head.eol + lines.take(lines.len() - last.len());
        assert(s =~= before + last + head.end + rest);
        lemma_two_eols(before, last, head.end, rest);
    }
}

/// A head is read as such, whatever follows.
#[verifier::rlimit(40)]
proof fn lemma_head_read(head: Head, rest: Seq<u8>)
    requires
        head.is_valid(),
    ensures
        parse(head.bytes() + rest) == parse_body(
            head.bytes() + rest,
            head.bytes().len() as int,
            word_text(head.command),
            lines_headers(head.lines),
        ),
{
    let s = head.bytes() + rest;
    let lines = lines_bytes(head.lines);
    let pre = head.lead + head.command + head.eol;
    assert(s =~= pre + (lines + head.end + rest));
    lemma_head_command(head.lead, head.command, head.eol, lines + head.end + rest);
    assert(s =~= pre + lines + head.end + rest);
    lemma_lines_at(pre, head.lines, head.end, rest);
    lemma_eol_at(pre + lines, head.end, rest);
    lemma_head_ends(head, rest);
}

/* Finding a head */

/// The header lines at `at`.
spec fn lines_at(s: Seq<u8>, at: int) -> Seq<Line>
    decreases s.len() - at,
    when 0 <= at <= s.len()
{
    proof {
        lemma_header_at(s, at);
    }
    match header_at(s, at) {
        Some((_, next)) => seq![line_at(s, at, next)] + lines_at(s, next),
        None => seq![],
    }
}

/// The header line from `at` to `next`.
spec fn line_at(s: Seq<u8>, at: int, next: int) -> Line {
    let colon = find_from(s, at, Stop::KeyEnd);
    let end = find_from(s, colon + 1, Stop::LineEnd);
    Line {
        key: s.subrange(at, colon),
        value: s.subrange(colon + 1, end),
        eol: s.subrange(end, next),
    }
}

/// What is read as a header line is one.
proof fn lemma_line_found(s: Seq<u8>, at: int)
    requires
        0 <= at <= s.len(),
    ensures
        header_at(s, at) matches Some((header, next)) ==> {
            let line = line_at(s, at, next);
            &&& line.is_valid()
            &&& line.bytes() == s.subrange(at, next)
            &&& line.header() == header
            &&& at < next <= s.len()
        },
{
    if let Some((header, next)) = header_at(s, at) {
        let colon = find_from(s, at, Stop::KeyEnd);
        let end = find_from(s, colon + 1, Stop::LineEnd);
        let line = line_at(s, at, next);
        lemma_find_from(s, at, Stop::KeyEnd);
        lemma_find_from(s, colon + 1, Stop::LineEnd);
        lemma_eol(s, end);
        assert forall|i: int| 0 <= i < line.key.len() implies #[trigger] line.key[i] != 58
            && line.key[i] != 13 && line.key[i] != 10 by {
            assert(!Stop::KeyEnd.has(s[at + i]));
        }
        assert forall|i: int| 0 <= i < line.value.len() implies #[trigger] line.value[i] != 13
            && line.value[i] != 10 by {
            assert(!Stop::LineEnd.has(s[colon + 1 + i]));
        }
        assert(line.bytes() =~= s.subrange(at, next));
    }
}

/// What is read as header lines are header lines.
proof fn lemma_lines_found(s: Seq<u8>, at: int)
    requires
        0 <= at <= s.len(),
    ensures
        ({
            let (headers, end) = headers_at(s, at);
            &&& lines_valid(lines_at(s, at))
            &&& at <= end <= s.len()
            &&& lines_bytes(lines_at(s, at)) == s.subrange(at, end)
            &&& lines_headers(lines_at(s, at)) == headers
            &&& header_at(s, end) is None
        }),
    decreases s.len() - at,
{
    lemma_header_at(s, at);
    lemma_line_found(s, at);
    let lines = lines_at(s, at);
    if let Some((header, next)) = header_at(s, at) {
        lemma_lines_found(s, next);
        let others = lines_at(s, next);
        let end = headers_at(s, at).1;
        assert(lines.skip(1) =~= others);
        assert forall|i: int| 0 <= i < lines.len() implies (#[trigger] lines[i]).is_valid() by {
            if i > 0 {
                assert(lines[i] == others[i - 1]);
            }
        }
        assert(s.subrange(at, next) + s.subrange(next, end) =~= s.subrange(at, end));
        assert(lines_headers(lines) =~= seq![header] + lines_headers(others));
    } else {
        assert(s.subrange(at, at) =~= seq![]);
        assert(lines_headers(lines) =~= seq![]);
    }
}

/// What is read as a command is one.
proof fn lemma_command_found(s: Seq<u8>)
    ensures
        ({
            let start = line_ending(s, 0);
            let end = find_from(s, start, Stop::NotAlphabetic);
            let command = s.subrange(start, end);
            &&& start == eol_len(s)
            &&& start == 0 || is_eol(s.take(start))
            &&& 0 <= start <= end <= s.len()
            &&& end > start ==> is_word(command) && decode_utf8(command) == word_text(command)
            &&& end < s.len() ==> !(65 <= s[end] <= 90 || 97 <= s[end] <= 122)
        }),
{
    let start = line_ending(s, 0);
    lemma_eol(s, 0);
    assert(s.skip(0) =~= s);
    assert(s.subrange(0, start) =~= s.take(start));
    let end = find_from(s, start, Stop::NotAlphabetic);
    lemma_find_from(s, start, Stop::NotAlphabetic);
    let command = s.subrange(start, end);
    if end > start {
        assert forall|i: int| 0 <= i < command.len() implies (65 <= #[trigger] command[i] <= 90
            || 97 <= command[i] <= 122) by {
            assert(!Stop::NotAlphabetic.has(s[start + i]));
        }
        lemma_ascii_valid_utf8(command);
        assert(decode_utf8(command) =~= word_text(command));
    }
}

/// The head that an input starts with, if it starts with one.
spec fn head_in(s: Seq<u8>) -> Head {
    let start = line_ending(s, 0);
    let command_end = find_from(s, start, Stop::NotAlphabetic);
    let lines_start = command_end + line_ending(s, command_end);
    let head_end = headers_at(s, lines_start).1;
    Head {
        lead: s.take(start),
        command: s.subrange(start, command_end),
        eol: s.subrange(command_end, lines_start),
        lines: lines_at(s, lines_start),
        end: s.subrange(head_end, head_end + line_ending(s, head_end)),
    }
}

/// The head is in the input up to its header lines.
proof fn lemma_lines_in(s: Seq<u8>)
    requires
        ({
            let start = line_ending(s, 0);
            let command_end = find_from(s, start, Stop::NotAlphabetic);
            command_end > start && line_ending(s, command_end) > 0
        }),
    ensures
        ({
            let h = head_in(s);
            let command_end = find_from(s, line_ending(s, 0), Stop::NotAlphabetic);
            let (headers, head_end) = headers_at(s, command_end + line_ending(s, command_end));
            &&& h.lead.len() == 0 || is_eol(h.lead)
            &&& is_word(h.command)
            &&& is_eol(h.eol)
            &&& lines_valid(h.lines)
            &&& 0 <= head_end <= s.len()
            &&& s.take(head_end) == h.lead + h.command + h.eol + lines_bytes(h.lines)
            &&& lines_headers(h.lines) == headers
            &&& header_at(s, head_end) is None
        }),
{
    let start = line_ending(s, 0);
    let command_end = find_from(s, start, Stop::NotAlphabetic);
    let lines_start = command_end + line_ending(s, command_end);
    lemma_command_found(s);
    lemma_eol(s, command_end);
    lemma_lines_found(s, lines_start);
    let head_end = headers_at(s, lines_start).1;
    let h = head_in(s);
    assert(s.take(head_end) =~= h.lead + h.command + h.eol + lines_bytes(h.lines));
}

/// If an input is read up to its body, it starts with a head.
proof fn lemma_head_in(s: Seq<u8>)
    requires
        ({
            let start = line_ending(s, 0);
            let command_end = find_from(s, start, Stop::NotAlphabetic);
            let head_end = headers_at(s, command_end + line_ending(s, command_end)).1;
            command_end > start && line_ending(s, command_end) > 0 && line_ending(s, head_end) > 0
        }),
    ensures
        head_in(s).is_valid(),
        head_in(s).bytes().len() <= s.len(),
        s == head_in(s).bytes() + s.skip(head_in(s).bytes().len() as int),
{
    let h = head_in(s);
    let command_end = find_from(s, line_ending(s, 0), Stop::NotAlphabetic);
    let head_end = headers_at(s, command_end + line_ending(s, command_end)).1;
    lemma_lines_in(s);
    lemma_eol(s, head_end);
    let at = head_end + line_ending(s, head_end);
    assert(s.take(at) =~= s.take(head_end) + h.end);
    assert(s.take(at) =~= h.bytes());
    assert(s =~= h.bytes() + s.skip(at));
}

/// What is read of an input, once its head is read.
spec fn body_in(head: Head, part: Seq<u8>) -> Parsed {
    parse_body(
        head.bytes() + part,
        head.bytes().len() as int,
        word_text(head.command),
        lines_headers(head.lines),
    )
}

/// The input is read up to its body.
spec fn reaches_body(s: Seq<u8>) -> bool {
    let start = line_ending(s, 0);
    let command_end = find_from(s, start, Stop::NotAlphabetic);
    let head_end = headers_at(s, command_end + line_ending(s, command_end)).1;
    has_empty_line(s) && command_end > start && line_ending(s, command_end) > 0 && line_ending(
        s,
        head_end,
    ) > 0
}

/// An input is read up to its body unless it has no two line endings in a row, or lacks a letter
/// or a line ending.
#[verifier::rlimit(40)]
proof fn lemma_reaches_body(s: Seq<u8>)
    ensures
        parse(s) is Complete ==> reaches_body(s),
        parse(s) == Parsed::Incomplete && has_empty_line(s) ==> reaches_body(s),
        parse(s) is Invalid && parse(s)->expected == Expected::Nul ==> reaches_body(s),
{
    lemma_command_found(s);
}

/// An input that is read up to its body starts with a head.
#[verifier::rlimit(40)]
proof fn lemma_body_in(s: Seq<u8>)
    requires
        reaches_body(s),
    ensures
        ({
            let head = head_in(s);
            let part = s.skip(head.bytes().len() as int);
            &&& head.is_valid()
            &&& s == head.bytes() + part
            &&& parse(s) == body_in(head, part)
        }),
{
    lemma_head_in(s);
    lemma_head_read(head_in(s), s.skip(head_in(s).bytes().len() as int));
}

/// Where the body ends that is read behind a head.
spec fn body_len(head: Head, part: Seq<u8>) -> int {
    match head.announced() {
        Some(length) => length,
        None => find_from(part, 0, Stop::Nul),
    }
}

/// The body is read up to the announced length, or up to the NUL byte.
#[verifier::rlimit(40)]
proof fn lemma_body_found(head: Head, part: Seq<u8>)
    ensures
        ({
            let n = body_len(head, part);
            let at = head.bytes().len() as int;
            &&& n >= 0
            &&& match body_in(head, part) {
                Parsed::Complete { frame, used } => n < part.len() && head.allows(part.take(n))
                    && part[n] == 0,
                Parsed::Incomplete => part.len() <= n,
                Parsed::Invalid { offset, expected } => n < part.len() && part[n] != 0 && offset
                    == at + n && expected == Expected::Nul && head.announced() == Some(n),
            }
            &&& head.announced() is None ==> n <= part.len() && forall|i: int|
                0 <= i < n ==> #[trigger] part[i] != 0
        }),
{
    let s = head.bytes() + part;
    let at = head.bytes().len() as int;
    let n = body_len(head, part);
    lemma_content_length_range(lines_headers(head.lines));
    lemma_find_from(part, 0, Stop::Nul);
    if head.announced() is None {
        assert forall|i: int| 0 <= i < n implies #[trigger] part[i] != 0 by {
            assert(!Stop::Nul.has(part[i]));
        }
        assert forall|j: int| at <= j < at + n implies !Stop::Nul.has(#[trigger] s[j]) by {
            assert(s[j] == part[j - at]);
        }
        assert(n < part.len() ==> s[at + n] == part[n]);
        lemma_find_from_is(s, at, Stop::Nul, at + n);
    } else if n < part.len() {
        assert(s[at + n] == part[n]);
    }
}

/* The laws */

/// The input is a head, a body that the head allows, a NUL byte, and a rest.
pub open spec fn is_frame(s: Seq<u8>, head: Head, body: Seq<u8>, rest: Seq<u8>) -> bool {
    head.is_valid() && head.allows(body) && s == head.bytes() + body + seq![0u8] + rest
}

/// A body that the head allows is read whole.
proof fn lemma_body_read(head: Head, body: Seq<u8>, rest: Seq<u8>)
    requires
        head.allows(body),
    ensures
        body_in(head, body + seq![0u8] + rest) == (Parsed::Complete {
            frame: head.frame(body),
            used: (head.bytes().len() + body.len() + 1 + eol_len(rest)) as int,
        }),
{
    let s = head.bytes() + (body + seq![0u8] + rest);
    let at = head.bytes().len() as int;
    let end = at + body.len();
    assert(s.subrange(at, end) =~= body);
    assert(s[end] == 0);
    if head.announced() is None {
        assert forall|j: int| at <= j < end implies !Stop::Nul.has(#[trigger] s[j]) by {
            assert(s[j] == body[j - at]);
        }
        lemma_find_from_is(s, at, Stop::Nul, end);
    }
    lemma_eol(s, end + 1);
    assert(s.skip(end + 1) =~= rest);
}

/// A head, a body and a NUL byte are read as a frame, whatever follows. The body is all of the
/// bytes between the head and that NUL byte: as many as the headers announce, or those up to the
/// first NUL byte. A line ending behind the NUL byte is taken with it.
#[verifier::rlimit(40)]
pub proof fn law_frame_is_found(s: Seq<u8>, head: Head, body: Seq<u8>, rest: Seq<u8>)
    requires
        is_frame(s, head, body, rest),
    ensures
        parse(s) == (Parsed::Complete {
            frame: head.frame(body),
            used: (head.bytes().len() + body.len() + 1 + eol_len(rest)) as int,
        }),
{
    let after = body + seq![0u8] + rest;
    assert(s =~= head.bytes() + after);
    lemma_head_read(head, after);
    lemma_body_read(head, body, rest);
}

/// A body that no header announces and that holds no NUL byte is read whole, whatever its length,
/// and an empty one is none.
pub proof fn law_unannounced_body_is_read_whole(head: Head, body: Seq<u8>, rest: Seq<u8>)
    requires
        head.is_valid(),
        head.announced() is None,
        forall|i: int| 0 <= i < body.len() ==> #[trigger] body[i] != 0,
    ensures
        parse(head.bytes() + body + seq![0u8] + rest) matches Parsed::Complete { frame, used }
            && frame.body == (if body.len() == 0 {
            None
        } else {
            Some(body)
        }) && used == head.bytes().len() + body.len() + 1 + eol_len(rest),
{
    law_frame_is_found(head.bytes() + body + seq![0u8] + rest, head, body, rest);
}

/// A body of announced length is read whole, whatever bytes it is made of.
pub proof fn law_announced_body_is_read_whole(head: Head, body: Seq<u8>, rest: Seq<u8>)
    requires
        head.is_valid(),
        head.announced() == Some(body.len() as int),
    ensures
        parse(head.bytes() + body + seq![0u8] + rest) matches Parsed::Complete { frame, used }
            && frame.body == Some(body) && used == head.bytes().len() + body.len() + 1 + eol_len(
            rest,
        ),
{
    law_frame_is_found(head.bytes() + body + seq![0u8] + rest, head, body, rest);
}

/// Behind a head with which a frame was read stand its body and a NUL byte.
proof fn lemma_frame_split(s: Seq<u8>, head: Head, part: Seq<u8>)
    requires
        head.is_valid(),
        s == head.bytes() + part,
        body_in(head, part) is Complete,
    ensures
        ({
            let n = body_len(head, part);
            is_frame(s, head, part.take(n), part.skip(n + 1))
        }),
{
    let n = body_len(head, part);
    lemma_body_found(head, part);
    assert(part =~= part.take(n) + seq![0u8] + part.skip(n + 1));
    assert(s =~= head.bytes() + part.take(n) + seq![0u8] + part.skip(n + 1));
}

/// Nothing else is read as a frame: what is, is a head, a body that the head allows, and a NUL
/// byte, and has the command, the headers and the body that stand there.
#[verifier::rlimit(40)]
pub proof fn law_found_frame_is_there(s: Seq<u8>, frame: FrameModel, used: int)
    requires
        parse(s) == (Parsed::Complete { frame, used }),
    ensures
        exists|head: Head, body: Seq<u8>, rest: Seq<u8>| #[trigger]
            is_frame(s, head, body, rest) && frame == head.frame(body) && used
                == head.bytes().len() + body.len() + 1 + eol_len(rest),
{
    lemma_reaches_body(s);
    lemma_body_in(s);
    let head = head_in(s);
    let part = s.skip(head.bytes().len() as int);
    let n = body_len(head, part);
    lemma_frame_split(s, head, part);
    law_frame_is_found(s, head, part.take(n), part.skip(n + 1));
}

/// Two line endings follow one another.
pub open spec fn is_blank(
    s: Seq<u8>,
    before: Seq<u8>,
    a: Seq<u8>,
    b: Seq<u8>,
    after: Seq<u8>,
) -> bool {
    is_eol(a) && is_eol(b) && s == before + a + b + after
}

/// Somewhere two line endings follow one another.
pub open spec fn has_blank(s: Seq<u8>) -> bool {
    exists|before: Seq<u8>, a: Seq<u8>, b: Seq<u8>, after: Seq<u8>| #[trigger]
        is_blank(s, before, a, b, after)
}

proof fn lemma_has_blank(s: Seq<u8>)
    ensures
        has_blank(s) == has_empty_line(s),
{
    if has_blank(s) {
        let (before, a, b, after) = choose|
            before: Seq<u8>,
            a: Seq<u8>,
            b: Seq<u8>,
            after: Seq<u8>,
        | #[trigger]
            is_blank(s, before, a, b, after);
        lemma_two_eols(before, a, b, after);
    }
    if has_empty_line(s) {
        let at = choose|at: int| #[trigger] empty_line_at(s, at);
        let next = at + line_ending(s, at);
        let end = next + line_ending(s, next);
        lemma_eol(s, at);
        lemma_eol(s, next);
        let (a, b) = (s.subrange(at, next), s.subrange(next, end));
        assert(s =~= s.take(at) + a + b + s.skip(end));
        assert(is_blank(s, s.take(at), a, b, s.skip(end)));
    }
}

/// The input is a head and a part of a body that the head allows, without the NUL byte.
pub open spec fn is_part(s: Seq<u8>, head: Head, part: Seq<u8>) -> bool {
    &&& head.is_valid()
    &&& s == head.bytes() + part
    &&& match head.announced() {
        Some(length) => part.len() <= length,
        None => forall|i: int| 0 <= i < part.len() ==> #[trigger] part[i] != 0,
    }
}

proof fn lemma_part_waits(s: Seq<u8>, head: Head, part: Seq<u8>)
    requires
        is_part(s, head, part),
    ensures
        parse(s) == Parsed::Incomplete,
{
    lemma_head_read(head, part);
    lemma_body_found(head, part);
}

/// The reader waits exactly as long as two line endings in a row are missing, or the body or its
/// NUL byte are.
#[verifier::rlimit(40)]
pub proof fn law_reader_waits(s: Seq<u8>)
    ensures
        parse(s) == Parsed::Incomplete <==> !has_blank(s) || exists|head: Head, part: Seq<u8>|
            #[trigger]
            is_part(s, head, part),
{
    lemma_has_blank(s);
    if exists|head: Head, part: Seq<u8>| #[trigger] is_part(s, head, part) {
        let (head, part) = choose|head: Head, part: Seq<u8>| #[trigger] is_part(s, head, part);
        lemma_part_waits(s, head, part);
    }
    if parse(s) == Parsed::Incomplete && has_blank(s) {
        lemma_reaches_body(s);
        lemma_body_in(s);
        let head = head_in(s);
        let part = s.skip(head.bytes().len() as int);
        lemma_body_found(head, part);
        assert(is_part(s, head, part));
    }
}

/// The command should start at the start of `rest`, and there is no letter.
pub open spec fn lacks_command(s: Seq<u8>, lead: Seq<u8>, rest: Seq<u8>) -> bool {
    &&& s == lead + rest
    &&& lead.len() == eol_len(s)
    &&& rest.len() > 0 ==> !(65 <= rest[0] <= 90 || 97 <= rest[0] <= 122)
}

/// The line of the command should end at the start of `rest`, and does not.
pub open spec fn lacks_command_end(
    s: Seq<u8>,
    lead: Seq<u8>,
    command: Seq<u8>,
    rest: Seq<u8>,
) -> bool {
    &&& s == lead + command + rest
    &&& lead.len() == 0 || is_eol(lead)
    &&& is_word(command)
    &&& rest.len() > 0 ==> !(65 <= rest[0] <= 90 || 97 <= rest[0] <= 122)
    &&& eol_len(rest) == 0
}

/// A header line or a line ending should start at the start of `rest`, and neither does.
pub open spec fn lacks_head_end(s: Seq<u8>, head: Head, rest: Seq<u8>) -> bool {
    &&& s == head.lead + head.command + head.eol + lines_bytes(head.lines) + rest
    &&& head.lead.len() == 0 || is_eol(head.lead)
    &&& is_word(head.command)
    &&& is_eol(head.eol)
    &&& lines_valid(head.lines)
    &&& eol_len(rest) == 0
    &&& forall|line: Line, after: Seq<u8>|
        #![trigger line.bytes() + after]
        line.is_valid() ==> rest != line.bytes() + after
}

/// The NUL byte should stand behind the body, and another byte does.
pub open spec fn lacks_nul(s: Seq<u8>, head: Head, body: Seq<u8>, rest: Seq<u8>) -> bool {
    &&& head.is_valid()
    &&& head.announced() == Some(body.len() as int)
    &&& s == head.bytes() + body + rest
    &&& rest.len() > 0
    &&& rest[0] != 0
}

/// What is refused before its body lacks a letter or a line ending.
#[verifier::rlimit(40)]
proof fn lemma_head_refused(s: Seq<u8>)
    requires
        parse(s) is Invalid,
        !reaches_body(s),
    ensures
        ({
            let offset = parse(s)->offset;
            let start = line_ending(s, 0);
            let command_end = find_from(s, start, Stop::NotAlphabetic);
            let head_end = headers_at(s, command_end + line_ending(s, command_end)).1;
            let lead = s.take(start);
            let command = s.subrange(start, command_end);
            ||| parse(s)->expected == Expected::Alphabetic && offset == start && lead.len()
                == start && lacks_command(s, lead, s.skip(start))
            ||| parse(s)->expected == Expected::LineEnding && offset == command_end && lead.len()
                + command.len() == command_end && lacks_command_end(
                s,
                lead,
                command,
                s.skip(command_end),
            )
            ||| parse(s)->expected == Expected::LineEnding && offset == head_end && s.len()
                - s.skip(head_end).len() == head_end && lacks_head_end(
                s,
                head_in(s),
                s.skip(head_end),
            )
        }),
{
    lemma_command_found(s);
    let start = line_ending(s, 0);
    let command_end = find_from(s, start, Stop::NotAlphabetic);
    let lead = s.take(start);
    let command = s.subrange(start, command_end);
    if command_end == start {
        assert(s =~= lead + s.skip(start));
    } else if line_ending(s, command_end) == 0 {
        lemma_eol(s, command_end);
        assert(s =~= lead + command + s.skip(command_end));
    } else {
        let head_end = headers_at(s, command_end + line_ending(s, command_end)).1;
        lemma_lines_in(s);
        lemma_eol(s, head_end);
        lemma_no_line(s, head_end);
        assert(s =~= s.take(head_end) + s.skip(head_end));
    }
}

proof fn lemma_no_line(s: Seq<u8>, at: int)
    requires
        0 <= at <= s.len(),
        header_at(s, at) is None,
    ensures
        forall|line: Line, after: Seq<u8>|
            #![trigger line.bytes() + after]
            line.is_valid() ==> s.skip(at) != line.bytes() + after,
{
    assert forall|line: Line, after: Seq<u8>|
        #![trigger line.bytes() + after]
        line.is_valid() implies s.skip(at) != line.bytes() + after by {
        if s.skip(at) == line.bytes() + after {
            lemma_line_at(s.take(at), line, after);
            assert(s =~= s.take(at) + s.skip(at));
            assert(s =~= s.take(at) + line.bytes() + after);
        }
    }
}

/// What is refused has two line endings in a row, and lacks something at the offset that is
/// reported.
#[verifier::rlimit(40)]
pub proof fn law_refusal_has_a_reason(s: Seq<u8>, offset: int, expected: Expected)
    requires
        parse(s) == (Parsed::Invalid { offset, expected }),
    ensures
        has_blank(s),
        match expected {
            Expected::Alphabetic => exists|lead: Seq<u8>, rest: Seq<u8>| #[trigger]
                lacks_command(s, lead, rest) && offset == lead.len(),
            Expected::LineEnding => (exists|lead: Seq<u8>, command: Seq<u8>, rest: Seq<u8>|
             #[trigger]
                lacks_command_end(s, lead, command, rest) && offset == lead.len() + command.len())
                || (exists|head: Head, rest: Seq<u8>| #[trigger]
                lacks_head_end(s, head, rest) && offset == s.len() - rest.len()),
            Expected::Nul => exists|head: Head, body: Seq<u8>, rest: Seq<u8>| #[trigger]
                lacks_nul(s, head, body, rest) && offset == head.bytes().len() + body.len(),
        },
{
    lemma_has_blank(s);
    lemma_reaches_body(s);
    if reaches_body(s) {
        lemma_body_in(s);
        let head = head_in(s);
        let part = s.skip(head.bytes().len() as int);
        let n = body_len(head, part);
        lemma_body_found(head, part);
        assert(s =~= head.bytes() + part.take(n) + part.skip(n));
        assert(lacks_nul(s, head, part.take(n), part.skip(n)));
    } else {
        lemma_head_refused(s);
    }
}

} // verus!
