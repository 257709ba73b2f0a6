//! Steps towards the laws: what the reader finds in a part of a frame, and in more than a frame.
use crate::escape::escape;
use crate::grammar::{
    content_length, empty_line_at, frame_bytes, has_empty_line, header_at, header_bytes, headers_at,
    headers_bytes, lemma_header_at, line_ending, parse, parse_body, FrameModel, HeaderModel, Parsed,
};
use crate::roundtrip::{
    head_bytes, is_command, is_readable, keys_present, lemma_command_bytes,
    lemma_content_length_range, lemma_encode_nonempty, lemma_escape_clean, lemma_frame_bytes,
    lemma_parse_head, lemma_parse_written, lemma_received_keys, payload, received,
};
use crate::scan::{
    find_from, is_alphabetic, lemma_find_from, lemma_find_from_is, Stop, COLON, CR, LF, NUL,
};
use vstd::prelude::*;
use vstd::utf8::*;

verus! {

/* Parts of frames */

/// Lines without carriage returns, none of them empty.
spec fn is_full_lines(s: Seq<u8>) -> bool {
    &&& s.len() > 0 ==> s[0] != LF
    &&& forall|i: int| 0 <= i < s.len() ==> #[trigger] s[i] != CR
    &&& forall|i: int| 0 < i < s.len() && s[i] == LF ==> #[trigger] s[i - 1] != LF
}

proof fn lemma_header_line_full(header: HeaderModel)
    requires
        header.0.len() > 0,
    ensures
        is_full_lines(header_bytes(header)),
        header_bytes(header).len() > 0,
{
    let s = header_bytes(header);
    let key = escape(encode_utf8(header.0));
    let value = escape(encode_utf8(header.1));
    lemma_encode_nonempty(header.0);
    lemma_escape_clean(encode_utf8(header.0));
    lemma_escape_clean(encode_utf8(header.1));
    assert forall|i: int| 0 <= i < s.len() implies #[trigger] s[i] != CR && (i < s.len() - 1
        ==> s[i] != LF) by {
        if i < key.len() {
            assert(s[i] == key[i]);
        } else if key.len() < i < s.len() - 1 {
            assert(s[i] == value[i - key.len() - 1]);
        }
    }
}

proof fn lemma_header_lines_full(headers: Seq<HeaderModel>)
    requires
        keys_present(headers),
    ensures
        is_full_lines(headers_bytes(headers)),
    decreases headers.len(),
{
    if headers.len() > 0 {
        let first = header_bytes(headers[0]);
        let others = headers.skip(1);
        let rest = headers_bytes(others);
        assert forall|i: int| 0 <= i < others.len() implies (#[trigger] others[i]).0.len()
            > 0 by {
            assert(others[i] == headers[i + 1]);
        }
        lemma_header_line_full(headers[0]);
        lemma_header_lines_full(others);
        let s = headers_bytes(headers);
        assert(s == first + rest);
        assert forall|i: int| 0 <= i < s.len() implies #[trigger] s[i] != CR by {
            if i < first.len() {
                assert(s[i] == first[i]);
            } else {
                assert(s[i] == rest[i - first.len()]);
            }
        }
        assert forall|i: int| 0 < i < s.len() && s[i] == LF implies #[trigger] s[i - 1] != LF by {
            if i < first.len() {
                assert(s[i - 1] == first[i - 1]);
            } else {
                assert(s[i] == rest[i - first.len()]);
                if i > first.len() {
                    assert(s[i - 1] == rest[i - first.len() - 1]);
                }
            }
        }
    }
}

/// No part of a head holds an empty line.
proof fn lemma_head_part(frame: FrameModel, n: int)
    requires
        is_command(frame.command),
        keys_present(frame.headers),
        0 <= n < head_bytes(frame).len(),
    ensures
        !has_empty_line(head_bytes(frame).take(n)),
{
    let head = head_bytes(frame);
    let command = encode_utf8(frame.command);
    let lines = headers_bytes(frame.headers);
    let s = head.take(n);
    lemma_command_bytes(frame.command);
    lemma_header_lines_full(frame.headers);
    assert forall|at: int| !#[trigger] empty_line_at(s, at) by {
        if empty_line_at(s, at) {
            assert forall|i: int| 0 <= i < s.len() implies #[trigger] s[i] != CR by {
                if i < command.len() {
                    assert(is_alphabetic(command[i]));
                    assert(s[i] == command[i]);
                } else if i > command.len() {
                    assert(s[i] == lines[i - command.len() - 1]);
                }
            }
            assert(s[at] == LF && s[at + 1] == LF);
            if at < command.len() {
                assert(is_alphabetic(command[at]));
                assert(s[at] == command[at]);
            } else {
                let k = at - command.len();
                assert(s[at + 1] == lines[k]);
                if k > 0 {
                    assert(s[at] == lines[k - 1]);
                }
            }
        }
    }
}

/// A part of a frame that can be read back may be the first part of a frame.
#[verifier::rlimit(40)]
pub proof fn lemma_parse_part(frame: FrameModel, n: int)
    requires
        is_readable(frame),
        0 <= n < frame_bytes(frame).len(),
    ensures
        parse(frame_bytes(frame).take(n)) == Parsed::Incomplete,
{
    let arrived = received(frame);
    let head = head_bytes(arrived);
    let body = payload(frame);
    let s = frame_bytes(frame).take(n);
    let at = head.len() as int;
    lemma_frame_bytes(frame);
    lemma_received_keys(frame);
    if n < at {
        lemma_head_part(arrived, n);
        assert(s =~= head.take(n));
    } else {
        let part = (body + seq![NUL]).take(n - at);
        lemma_parse_head(arrived, part);
        assert(head + part =~= s);
        if content_length(arrived.headers) is None {
            assert forall|j: int| at <= j < n implies !Stop::Nul.has(#[trigger] s[j]) by {
                assert(s[j] == body[j - at]);
            }
            lemma_find_from_is(s, at, Stop::Nul, n);
        }
    }
}

/* More than a frame */

/// A search that ends within `s` is not changed by more bytes.
proof fn lemma_find_from_extend(s: Seq<u8>, more: Seq<u8>, at: int, stop: Stop)
    requires
        0 <= at <= s.len(),
        find_from(s, at, stop) < s.len(),
    ensures
        find_from(s + more, at, stop) == find_from(s, at, stop),
{
    let end = find_from(s, at, stop);
    lemma_find_from(s, at, stop);
    assert forall|j: int| at <= j < end implies !stop.has(#[trigger] (s + more)[j]) by {
        assert((s + more)[j] == s[j]);
    }
    lemma_find_from_is(s + more, at, stop, end);
}

/// A search from before a byte of `stop` ends at that byte or before it.
proof fn lemma_find_from_before(s: Seq<u8>, at: int, stop: Stop, end: int)
    requires
        0 <= at <= end < s.len(),
        stop.has(s[end]),
    ensures
        at <= find_from(s, at, stop) <= end,
{
    lemma_find_from(s, at, stop);
}

/// A header line before the second line ending of an empty line is read alike whatever follows,
/// and ends there at the latest.
proof fn lemma_header_at_extend(s: Seq<u8>, more: Seq<u8>, at: int, empty: int)
    requires
        empty_line_at(s, empty),
        0 <= at <= empty + line_ending(s, empty),
    ensures
        header_at(s + more, at) == header_at(s, at),
        header_at(s, at) matches Some((_, next)) ==> at < next <= empty + line_ending(s, empty),
{
    let t = s + more;
    let last = empty + line_ending(s, empty);
    lemma_header_at(s, at);
    lemma_find_from_before(s, at, Stop::KeyEnd, last);
    lemma_find_from_extend(s, more, at, Stop::KeyEnd);
    let colon = find_from(s, at, Stop::KeyEnd);
    lemma_find_from(s, at, Stop::KeyEnd);
    assert(t[colon] == s[colon]);
    if at < colon && s[colon] == COLON {
        assert(colon < last);
        lemma_find_from_before(s, colon + 1, Stop::LineEnd, last);
        lemma_find_from_extend(s, more, colon + 1, Stop::LineEnd);
        let end = find_from(s, colon + 1, Stop::LineEnd);
        lemma_find_from(s, colon + 1, Stop::LineEnd);
        assert(end < last) by {
            if colon < empty {
                lemma_find_from_before(s, colon + 1, Stop::LineEnd, empty);
            } else {
                if at <= empty {
                    lemma_find_from_before(s, at, Stop::KeyEnd, empty);
                } else {
                    lemma_find_from_before(s, at, Stop::KeyEnd, last - 1);
                }
            }
        }
        assert(line_ending(t, end) == line_ending(s, end));
        assert(t.subrange(at, colon) =~= s.subrange(at, colon));
        assert(t.subrange(colon + 1, end) =~= s.subrange(colon + 1, end));
    }
}

/// Header lines before the second line ending of an empty line are read alike whatever follows.
proof fn lemma_headers_at_extend(s: Seq<u8>, more: Seq<u8>, at: int, empty: int)
    requires
        empty_line_at(s, empty),
        0 <= at <= empty + line_ending(s, empty),
    ensures
        headers_at(s + more, at) == headers_at(s, at),
        at <= headers_at(s, at).1 <= empty + line_ending(s, empty),
    decreases s.len() - at,
{
    lemma_header_at_extend(s, more, at, empty);
    lemma_header_at(s, at);
    lemma_header_at(s + more, at);
    if let Some((_, next)) = header_at(s, at) {
        lemma_headers_at_extend(s, more, next, empty);
    }
}

/// How many bytes `s`, which starts with a frame, and `more` together give to that frame: the
/// line ending behind a frame may still be on its way.
pub open spec fn used_with_more(s: Seq<u8>, used: int, more: Seq<u8>) -> int {
    if s[used - 1] == NUL {
        used + line_ending(s + more, used)
    } else {
        used
    }
}

/// The body and what follows are read alike whatever comes later, once they are there.
proof fn lemma_parse_body_extend(
    s: Seq<u8>,
    more: Seq<u8>,
    at: int,
    command: Seq<char>,
    headers: Seq<HeaderModel>,
)
    requires
        0 <= at <= s.len(),
    ensures
        match parse_body(s, at, command, headers) {
            Parsed::Complete { frame, used } => 0 < used <= s.len() && parse_body(
                s + more,
                at,
                command,
                headers,
            ) == (Parsed::Complete { frame, used: used_with_more(s, used, more) }),
            Parsed::Incomplete => true,
            Parsed::Invalid { offset, expected } => 0 <= offset < s.len() && parse_body(
                s + more,
                at,
                command,
                headers,
            ) == parse_body(s, at, command, headers),
        },
{
    let t = s + more;
    match content_length(headers) {
        Some(length) => {
            lemma_content_length_range(headers);
            if at + length < s.len() {
                assert(t.subrange(at, at + length) =~= s.subrange(at, at + length));
                lemma_end_extend(s, more, at + length);
            }
        },
        None => {
            let end = find_from(s, at, Stop::Nul);
            lemma_find_from(s, at, Stop::Nul);
            if end < s.len() {
                lemma_find_from_extend(s, more, at, Stop::Nul);
                assert(t.subrange(at, end) =~= s.subrange(at, end));
                lemma_end_extend(s, more, end);
            }
        },
    }
}

proof fn lemma_end_extend(s: Seq<u8>, more: Seq<u8>, end: int)
    requires
        0 <= end < s.len(),
    ensures
        (s + more)[end] == s[end],
        s[end] == NUL ==> end + 1 + line_ending(s + more, end + 1) == used_with_more(
            s,
            end + 1 + line_ending(s, end + 1),
            more,
        ),
{
}

/// What is read of an input that holds a whole head is read alike whatever follows.
#[verifier::rlimit(40)]
pub proof fn lemma_parse_extend(s: Seq<u8>, more: Seq<u8>)
    ensures
        match parse(s) {
            Parsed::Complete { frame, used } => 0 < used <= s.len() && parse(s + more) == (
            Parsed::Complete { frame, used: used_with_more(s, used, more) }),
            Parsed::Incomplete => true,
            Parsed::Invalid { offset, expected } => 0 <= offset < s.len() && parse(s + more)
                == parse(s),
        },
{
    if has_empty_line(s) {
        let t = s + more;
        let empty = choose|at: int| #[trigger] empty_line_at(s, at);
        let last = empty + line_ending(s, empty);
        assert(line_ending(t, empty) == line_ending(s, empty));
        assert(empty_line_at(t, empty));
        let start = line_ending(s, 0);
        assert(line_ending(t, 0) == start);
        assert(start <= last);
        lemma_find_from_before(s, start, Stop::NotAlphabetic, last);
        lemma_find_from_extend(s, more, start, Stop::NotAlphabetic);
        lemma_find_from(s, start, Stop::NotAlphabetic);
        let command_end = find_from(s, start, Stop::NotAlphabetic);
        if command_end > start {
            assert(command_end < last) by {
                if start <= empty {
                    lemma_find_from_before(s, start, Stop::NotAlphabetic, empty);
                }
            }
            assert(line_ending(t, command_end) == line_ending(s, command_end));
            assert(t.subrange(start, command_end) =~= s.subrange(start, command_end));
            if line_ending(s, command_end) > 0 {
                let lines = command_end + line_ending(s, command_end);
                assert(lines <= last);
                lemma_headers_at_extend(s, more, lines, empty);
                let (headers, head_end) = headers_at(s, lines);
                assert(line_ending(t, head_end) == line_ending(s, head_end));
                if line_ending(s, head_end) > 0 {
                    lemma_parse_body_extend(
                        s,
                        more,
                        head_end + line_ending(s, head_end),
                        decode_utf8(s.subrange(start, command_end)),
                        headers,
                    );
                }
            }
        }
    }
}

/* Many frames */

/// Frames one behind the other.
pub open spec fn frames_bytes(frames: Seq<FrameModel>) -> Seq<u8>
    decreases frames.len(),
{
    if frames.len() == 0 {
        seq![]
    } else {
        frame_bytes(frames[0]) + frames_bytes(frames.skip(1))
    }
}

/// The frames that a reader takes from the front of `s`, one after the other, and the bytes that
/// stay.
pub open spec fn frames_in(s: Seq<u8>) -> (Seq<FrameModel>, Seq<u8>)
    decreases s.len(),
{
    match parse(s) {
        Parsed::Complete { frame, used } => if 0 < used <= s.len() {
            let (frames, left) = frames_in(s.skip(used));
            (seq![frame] + frames, left)
        } else {
            (seq![], s)
        },
        _ => (seq![], s),
    }
}

/// The frames that arrive when `frames` are sent.
pub open spec fn all_received(frames: Seq<FrameModel>) -> Seq<FrameModel> {
    frames.map_values(|frame: FrameModel| received(frame))
}

/// Every frame can be read back.
pub open spec fn all_readable(frames: Seq<FrameModel>) -> bool {
    forall|i: int| 0 <= i < frames.len() ==> is_readable(#[trigger] frames[i])
}

/// A part of what is written of frames does not start with a line ending.
proof fn lemma_frames_start(frames: Seq<FrameModel>, n: int)
    requires
        all_readable(frames),
        0 <= n <= frames_bytes(frames).len(),
    ensures
        line_ending(frames_bytes(frames).take(n), 0) == 0,
{
    if frames.len() > 0 && n > 0 {
        let command = encode_utf8(frames[0].command);
        assert(is_readable(frames[0]));
        lemma_command_bytes(frames[0].command);
        assert(is_alphabetic(command[0]));
        assert(frames_bytes(frames).take(n)[0] == command[0]);
    }
}

/// A frame that can be read back is read first, and then what follows it.
#[verifier::rlimit(40)]
proof fn lemma_frame_first(frame: FrameModel, rest: Seq<u8>)
    requires
        is_readable(frame),
        line_ending(rest, 0) == 0,
    ensures
        frames_in(frame_bytes(frame) + rest) == (
            seq![received(frame)] + frames_in(rest).0,
            frames_in(rest).1,
        ),
{
    let s = frame_bytes(frame) + rest;
    lemma_parse_written(frame, rest);
    lemma_parse_extend(s, seq![]);
    assert(s.skip(frame_bytes(frame).len() as int) =~= rest);
}

/// The first frame is read, and the rest stays, if all of the first frame is there.
#[verifier::rlimit(40)]
proof fn lemma_frames_first(frames: Seq<FrameModel>, n: int)
    requires
        all_readable(frames),
        frames.len() > 0,
        frame_bytes(frames[0]).len() <= n <= frames_bytes(frames).len(),
    ensures
        ({
            let first = frame_bytes(frames[0]).len() as int;
            let others = frames.skip(1);
            let (read, left) = frames_in(frames_bytes(others).take(n - first));
            &&& all_readable(others)
            &&& frames_bytes(others).len() == frames_bytes(frames).len() - first
            &&& frames_bytes(others).skip(n - first) == frames_bytes(frames).skip(n)
            &&& frames_in(frames_bytes(frames).take(n)) == (
                seq![received(frames[0])] + read,
                left,
            )
        }),
{
    let frame = frames[0];
    let others = frames.skip(1);
    let s = frames_bytes(frames).take(n);
    let first = frame_bytes(frame).len() as int;
    let rest = frames_bytes(others).take(n - first);
    assert(is_readable(frame));
    assert(all_readable(others)) by {
        assert forall|i: int| 0 <= i < others.len() implies is_readable(#[trigger] others[i]) by {
            assert(others[i] == frames[i + 1]);
        }
    }
    assert(s =~= frame_bytes(frame) + rest);
    lemma_frames_start(others, n - first);
    lemma_frame_first(frame, rest);
    assert(frames_bytes(others).skip(n - first) =~= frames_bytes(frames).skip(n));
}

/// There is no frame in no bytes.
proof fn lemma_parse_empty()
    ensures
        parse(Seq::<u8>::empty()) == Parsed::Incomplete,
{
}

/// What a reader leaves does not start with a frame.
#[verifier::rlimit(40)]
proof fn lemma_frames_in_left(s: Seq<u8>)
    ensures
        parse(frames_in(s).1) !is Complete,
    decreases s.len(),
{
    lemma_parse_extend(s, seq![]);
    if let Parsed::Complete { frame, used } = parse(s) {
        lemma_frames_in_left(s.skip(used));
    }
}

/// From a part of what is written of frames, a reader takes the first frames, and leaves what
/// the others start with.
#[verifier::rlimit(40)]
proof fn lemma_frames_in_part(frames: Seq<FrameModel>, n: int)
    requires
        all_readable(frames),
        0 <= n <= frames_bytes(frames).len(),
    ensures
        ({
            let (read, left) = frames_in(frames_bytes(frames).take(n));
            let k = read.len() as int;
            &&& k <= frames.len()
            &&& read == all_received(frames.take(k))
            &&& left + frames_bytes(frames).skip(n) == frames_bytes(frames.skip(k))
        }),
    decreases frames.len(),
{
    let s = frames_bytes(frames);
    if frames.len() > 0 && n >= frame_bytes(frames[0]).len() {
        let others = frames.skip(1);
        let cut = n - frame_bytes(frames[0]).len();
        lemma_frames_first(frames, n);
        lemma_frames_in_part(others, cut);
        let k = frames_in(frames_bytes(others).take(cut)).0.len() as int;
        assert(all_received(frames.take(k + 1)) =~= seq![received(frames[0])] + all_received(
            others.take(k),
        ));
        assert(frames.skip(k + 1) =~= others.skip(k));
    } else {
        if frames.len() > 0 {
            assert(is_readable(frames[0]));
            lemma_parse_part(frames[0], n);
            assert(s.take(n) =~= frame_bytes(frames[0]).take(n));
        } else {
            lemma_parse_empty();
            assert(s.take(n) =~= seq![]);
        }
        assert(s.take(n) + s.skip(n) =~= s);
        assert(frames.skip(0) =~= frames);
        assert(all_received(frames.take(0)) =~= seq![]);
    }
}

/// The frames that a reader takes, to which the bytes come in pieces and which has kept `left`,
/// and the bytes that stay.
pub open spec fn frames_in_pieces(left: Seq<u8>, pieces: Seq<Seq<u8>>) -> (
    Seq<FrameModel>,
    Seq<u8>,
)
    decreases pieces.len(),
{
    if pieces.len() == 0 {
        (seq![], left)
    } else {
        let (first, kept) = frames_in(left + pieces[0]);
        let (others, end) = frames_in_pieces(kept, pieces.skip(1));
        (first + others, end)
    }
}

/// Only of no frames at all is what is written not the start of a frame.
#[verifier::rlimit(40)]
proof fn lemma_no_frames(frames: Seq<FrameModel>)
    requires
        all_readable(frames),
        parse(frames_bytes(frames)) !is Complete,
    ensures
        frames.len() == 0,
{
    if frames.len() > 0 {
        assert(is_readable(frames[0]));
        lemma_parse_written(frames[0], frames_bytes(frames.skip(1)));
    }
}

/// The next piece of what is written of frames.
proof fn lemma_next_piece(frames: Seq<FrameModel>, start: Seq<u8>, rest: Seq<u8>)
    requires
        all_readable(frames),
        start + rest == frames_bytes(frames),
    ensures
        ({
            let (read, kept) = frames_in(start);
            let k = read.len() as int;
            &&& k <= frames.len()
            &&& all_readable(frames.skip(k))
            &&& read + all_received(frames.skip(k)) == all_received(frames)
            &&& kept + rest == frames_bytes(frames.skip(k))
            &&& parse(kept) !is Complete
        }),
{
    let n = start.len() as int;
    let s = frames_bytes(frames);
    assert(s.take(n) =~= start);
    assert(s.skip(n) =~= rest);
    lemma_frames_in_part(frames, n);
    lemma_frames_in_left(start);
    let k = frames_in(start).0.len() as int;
    let later = frames.skip(k);
    assert forall|i: int| 0 <= i < later.len() implies is_readable(#[trigger] later[i]) by {
        assert(later[i] == frames[i + k]);
    }
    assert(all_received(frames) =~= all_received(frames.take(k)) + all_received(later));
}

/// A reader takes from what is written of frames these frames, whatever pieces it comes in.
pub proof fn lemma_frames_in_pieces(
    frames: Seq<FrameModel>,
    left: Seq<u8>,
    pieces: Seq<Seq<u8>>,
)
    requires
        all_readable(frames),
        left + pieces.flatten() == frames_bytes(frames),
        parse(left) !is Complete,
    ensures
        frames_in_pieces(left, pieces) == (all_received(frames), Seq::<u8>::empty()),
    decreases pieces.len(),
{
    if pieces.len() == 0 {
        assert(left =~= frames_bytes(frames));
        lemma_no_frames(frames);
        assert(all_received(frames) =~= seq![]);
    } else {
        let others = pieces.skip(1);
        let start = left + pieces[0];
        assert(pieces.drop_first() =~= others);
        assert(frames_bytes(frames) =~= start + others.flatten());
        lemma_next_piece(frames, start, others.flatten());
        let (read, kept) = frames_in(start);
        lemma_frames_in_pieces(frames.skip(read.len() as int), kept, others);
    }
}

} // verus!
