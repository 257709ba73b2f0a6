//! Laws of the notation: how texts, numbers and headers are spelled, and how a frame is spelled
//! with them.
use crate::buffer::most_contents;
use crate::error::{ErrorModel, IntegerError};
use crate::escape::{escape, lemma_escape_push, unescape_bytes, unescape_text};
use crate::frame::{headers_beyond, present};
use crate::grammar::{
    content_length, content_length_line, frame_bytes, header_bytes, header_value, headers_bytes,
    FrameModel, HeaderModel,
};
use crate::heartbeat::{heartbeat_of, heartbeat_text, lemma_decimal_digits, lemma_heartbeat_text};
use crate::roundtrip::lemma_content_length_line;
use crate::scan::{
    decimal, lemma_find_from, lemma_find_from_is, read_digits, read_integer, Stop,
};
use crate::wire::{lines_bytes, Line};
use vstd::prelude::*;
use vstd::utf8::*;

verus! {

/* Texts */

/// Carriage return, line feed, colon and backslash are spelled as a backslash and `r`, `n`, `c` or
/// a backslash; every other byte is spelled as it is.
pub proof fn law_escape_of_a_byte(b: u8)
    ensures
        escape(seq![b]) == (if b == 13 {
            seq![92u8, 114u8]
        } else if b == 10 {
            seq![92u8, 110u8]
        } else if b == 58 {
            seq![92u8, 99u8]
        } else if b == 92 {
            seq![92u8, 92u8]
        } else {
            seq![b]
        }),
{
    lemma_escape_push(seq![], b);
    assert(Seq::<u8>::empty().push(b) =~= seq![b]);
}

/// Texts are spelled byte by byte.
pub proof fn law_escape_joins(a: Seq<u8>, b: Seq<u8>)
    ensures
        escape(a + b) == escape(a) + escape(b),
    decreases a.len(),
{
    if a.len() == 0 {
        assert(a + b =~= b);
        assert(escape(a) + escape(b) =~= escape(b));
    } else {
        law_escape_joins(a.skip(1), b);
        assert((a + b).skip(1) =~= a.skip(1) + b);
        assert(escape(a + b) =~= escape(a) + escape(b));
    }
}

/// A byte in front of an optional text.
pub open spec fn behind(b: u8, s: Option<Seq<u8>>) -> Option<Seq<u8>> {
    match s {
        Some(rest) => Some(seq![b] + rest),
        None => None,
    }
}

/// A byte other than a backslash stands for itself, a backslash and one of four letters for one
/// byte, and a backslash before anything else, or before nothing, for nothing.
pub proof fn law_unescape(b: u8, s: Seq<u8>)
    ensures
        unescape_bytes(Seq::<u8>::empty()) == Some(Seq::<u8>::empty()),
        b != 92 ==> unescape_bytes(seq![b] + s) == behind(b, unescape_bytes(s)),
        unescape_bytes(seq![92u8, 92u8] + s) == behind(92, unescape_bytes(s)),
        unescape_bytes(seq![92u8, 114u8] + s) == behind(13, unescape_bytes(s)),
        unescape_bytes(seq![92u8, 110u8] + s) == behind(10, unescape_bytes(s)),
        unescape_bytes(seq![92u8, 99u8] + s) == behind(58, unescape_bytes(s)),
        b != 92 && b != 114 && b != 110 && b != 99 ==> unescape_bytes(seq![92u8, b] + s) is None,
        unescape_bytes(seq![92u8]) is None,
{
    assert((seq![b] + s).skip(1) =~= s);
    assert((seq![92u8, 92u8] + s).skip(2) =~= s);
    assert((seq![92u8, 114u8] + s).skip(2) =~= s);
    assert((seq![92u8, 110u8] + s).skip(2) =~= s);
    assert((seq![92u8, 99u8] + s).skip(2) =~= s);
    assert((seq![92u8, b] + s).skip(2) =~= s);
}

/// A spelling stands for the text whose UTF-8 bytes it stands for.
pub proof fn law_unescape_gives_utf8(s: Seq<u8>, text: Seq<char>)
    ensures
        unescape_text(s) == Some(text) <==> unescape_bytes(s) == Some(encode_utf8(text)),
        unescape_text(s) is None <==> (unescape_bytes(s) matches Some(bytes) ==> !valid_utf8(
            bytes,
        )),
{
    encode_utf8_valid_utf8(text);
    encode_utf8_decode_utf8(text);
    if let Some(bytes) = unescape_bytes(s) {
        if valid_utf8(bytes) {
            decode_utf8_encode_utf8(bytes);
        }
    }
}

/* Numbers */

/// ASCII digits.
pub open spec fn all_digits(d: Seq<u8>) -> bool {
    forall|i: int| 0 <= i < d.len() ==> 48 <= #[trigger] d[i] <= 57
}

/// The number that digits denote.
pub open spec fn digits_value(d: Seq<u8>) -> int
    decreases d.len(),
{
    if d.len() == 0 {
        0
    } else {
        10 * digits_value(d.drop_last()) + (d.last() - 48)
    }
}

/// The first digits of a number denote no larger number.
proof fn lemma_prefix(d: Seq<u8>, i: int, j: int)
    requires
        0 <= i <= j <= d.len(),
        all_digits(d.take(j)),
    ensures
        all_digits(d.take(i)),
        0 <= digits_value(d.take(i)) <= digits_value(d.take(j)),
    decreases j,
{
    assert forall|k: int| 0 <= k < i implies 48 <= #[trigger] d.take(i)[k] <= 57 by {
        assert(d.take(i)[k] == d.take(j)[k]);
    }
    if j > 0 {
        assert(d.take(j).drop_last() =~= d.take(j - 1));
        assert(d.take(j).last() == d.take(j)[j - 1]);
        if i < j {
            assert(all_digits(d.take(j - 1))) by {
                assert forall|k: int| 0 <= k < j - 1 implies 48 <= #[trigger] d.take(j - 1)[k]
                    <= 57 by {
                    assert(d.take(j - 1)[k] == d.take(j)[k]);
                }
            }
            lemma_prefix(d, i, j - 1);
        } else {
            lemma_prefix(d, j - 1, j - 1);
        }
    }
}

/// The first `k` digits denote a number that is too large.
pub open spec fn too_large(d: Seq<u8>, k: int, max: int) -> bool {
    0 < k <= d.len() && all_digits(d.take(k)) && digits_value(d.take(k)) > max
}

proof fn lemma_read_digits(d: Seq<u8>, i: int, max: int)
    requires
        0 <= i <= d.len(),
        all_digits(d.take(i)),
        digits_value(d.take(i)) <= max,
    ensures
        match read_digits(d.skip(i), digits_value(d.take(i)), max) {
            Ok(n) => all_digits(d) && n == digits_value(d) && n <= max,
            Err(IntegerError::InvalidDigit) => exists|k: int|
                0 <= k < d.len() && !(48 <= #[trigger] d[k] <= 57) && all_digits(d.take(k))
                    && digits_value(d.take(k)) <= max,
            Err(IntegerError::TooLarge) => exists|k: int| #[trigger] too_large(d, k, max),
            Err(IntegerError::Empty) => false,
        },
    decreases d.len() - i,
{
    if i == d.len() {
        assert(d.take(i) =~= d);
    } else {
        assert(d.skip(i)[0] == d[i]);
        if 48 <= d[i] <= 57 {
            let next = d.take(i + 1);
            assert(next.drop_last() =~= d.take(i));
            assert(next.last() == d[i]);
            assert forall|k: int| 0 <= k < next.len() implies 48 <= #[trigger] next[k] <= 57 by {
                if k < i {
                    assert(next[k] == d.take(i)[k]);
                }
            }
            assert(digits_value(next) == 10 * digits_value(d.take(i)) + (d[i] - 48));
            if digits_value(next) > max {
                assert(too_large(d, i + 1, max));
            } else {
                assert(d.skip(i).skip(1) =~= d.skip(i + 1));
                lemma_read_digits(d, i + 1, max);
            }
        }
    }
}

/// What stands behind the sign of a number.
pub open spec fn unsigned(text: Seq<u8>) -> Seq<u8> {
    if text.len() > 1 && text[0] == 43 {
        text.skip(1)
    } else {
        text
    }
}

/// A text is a number if it is made of digits, at least one, maybe behind a plus sign, and is not
/// larger than `max`. It is too large as soon as the first of its digits are; otherwise it is
/// empty, or holds something else than digits.
pub proof fn law_numbers(text: Seq<u8>, max: int, n: int)
    requires
        0 <= max,
    ensures
        read_integer(text, max) == Ok::<int, IntegerError>(n) <==> text.len() > 0 && all_digits(
            unsigned(text),
        ) && n == digits_value(unsigned(text)) && n <= max,
        read_integer(text, max) == Err::<int, IntegerError>(IntegerError::Empty) <==> text.len()
            == 0,
        read_integer(text, max) == Err::<int, IntegerError>(IntegerError::TooLarge) <==> exists|
            k: int,
        | #[trigger]
            too_large(unsigned(text), k, max),
{
    let d = unsigned(text);
    assert(d.take(0) =~= seq![]);
    assert(d.skip(0) =~= d);
    assert(d.take(d.len() as int) =~= d);
    lemma_read_digits(d, 0, max);
    if exists|k: int| #[trigger] too_large(d, k, max) {
        let k = choose|k: int| #[trigger] too_large(d, k, max);
        if all_digits(d) {
            lemma_prefix(d, k, d.len() as int);
        }
        if read_digits(d, 0, max) == Err::<int, IntegerError>(IntegerError::InvalidDigit) {
            let bad = choose|bad: int|
                0 <= bad < d.len() && !(48 <= #[trigger] d[bad] <= 57) && all_digits(d.take(bad))
                    && digits_value(d.take(bad)) <= max;
            if bad < k {
                assert(d.take(k)[bad] == d[bad]);
            } else {
                lemma_prefix(d, k, bad);
            }
        }
    }
    if all_digits(d) && digits_value(d) <= max {
        assert forall|k: int| !#[trigger] too_large(d, k, max) by {
            if 0 < k <= d.len() {
                lemma_prefix(d, k, d.len() as int);
            }
        }
    }
}

/// A number is written in digits that denote it, without a zero in front.
pub proof fn law_decimal_digits(n: nat)
    ensures
        all_digits(decimal(n)),
        digits_value(decimal(n)) == n,
        decimal(n).len() > 0,
        decimal(n)[0] == 48 ==> n == 0 && decimal(n) == seq![48u8],
    decreases n,
{
    lemma_decimal_digits(n);
    reveal_with_fuel(digits_value, 2);
    if n >= 10 {
        law_decimal_digits(n / 10);
        assert(decimal(n).drop_last() =~= decimal(n / 10));
        assert(decimal(n)[0] == decimal(n / 10)[0]);
    } else {
        assert(decimal(n) =~= seq![(48 + n) as u8]);
    }
}

/// A heart-beat is written as two numbers with a comma between them.
pub proof fn law_heartbeat_is_written(heartbeat: (u32, u32))
    ensures
        encode_utf8(heartbeat_text(heartbeat)) == decimal(heartbeat.0 as nat) + seq![44u8]
            + decimal(heartbeat.1 as nat),
{
    lemma_heartbeat_text(heartbeat);
}

/// A heart-beat is read as the numbers before and behind its first comma; without a comma it is
/// none.
pub proof fn law_heartbeat_is_read(text: Seq<char>, left: Seq<u8>, right: Seq<u8>)
    ensures
        (forall|i: int| 0 <= i < encode_utf8(text).len() ==> #[trigger] encode_utf8(text)[i] != 44)
            ==> heartbeat_of(text) == Err::<(u32, u32), ErrorModel>(ErrorModel::BadHeartbeat),
        encode_utf8(text) == left + seq![44u8] + right && (forall|i: int|
            0 <= i < left.len() ==> #[trigger] left[i] != 44) ==> heartbeat_of(text) == match (
            read_integer(left, 4294967295),
            read_integer(right, 4294967295),
        ) {
            (Ok(a), Ok(b)) => Ok((a as u32, b as u32)),
            (Err(why), _) => Err(ErrorModel::InvalidInteger(why)),
            (_, Err(why)) => Err(ErrorModel::InvalidInteger(why)),
        },
{
    let bytes = encode_utf8(text);
    lemma_find_from(bytes, 0, Stop::Comma);
    if bytes == left + seq![44u8] + right && (forall|i: int|
        0 <= i < left.len() ==> #[trigger] left[i] != 44) {
        let comma = left.len() as int;
        assert(bytes[comma] == 44);
        assert forall|j: int| 0 <= j < comma implies !Stop::Comma.has(#[trigger] bytes[j]) by {
            assert(bytes[j] == left[j]);
        }
        lemma_find_from_is(bytes, 0, Stop::Comma, comma);
        assert(bytes.take(comma) =~= left);
        assert(bytes.skip(comma + 1) =~= right);
    }
}

/* Headers */

/// The header at `i` is the first with this key.
pub open spec fn is_first(headers: Seq<HeaderModel>, i: int, key: Seq<char>) -> bool {
    &&& 0 <= i < headers.len()
    &&& headers[i].0 == key
    &&& forall|j: int| 0 <= j < i ==> (#[trigger] headers[j]).0 != key
}

/// No header has this key.
pub open spec fn has_none(headers: Seq<HeaderModel>, key: Seq<char>) -> bool {
    forall|j: int| 0 <= j < headers.len() ==> (#[trigger] headers[j]).0 != key
}

/// A header is found wherever it stands: the value found is that of the first header with the key,
/// and none is found only if no header has the key.
pub proof fn law_header_is_found(headers: Seq<HeaderModel>, key: Seq<char>)
    ensures
        has_none(headers, key) <==> header_value(headers, key) is None,
        forall|i: int| #[trigger]
            is_first(headers, i, key) ==> header_value(headers, key) == Some(headers[i].1),
    decreases headers.len(),
{
    if headers.len() > 0 {
        let rest = headers.skip(1);
        law_header_is_found(rest, key);
        assert forall|j: int| 0 <= j < rest.len() implies #[trigger] rest[j] == headers[j + 1] by {}
        if headers[0].0 != key {
            assert(has_none(headers, key) <==> has_none(rest, key)) by {
                if has_none(rest, key) {
                    assert forall|j: int| 0 <= j < headers.len() implies (
                    #[trigger] headers[j]).0 != key by {
                        if j > 0 {
                            assert(rest[j - 1] == headers[j]);
                        }
                    }
                }
                if has_none(headers, key) {
                    assert forall|j: int| 0 <= j < rest.len() implies (#[trigger] rest[j]).0
                        != key by {
                        assert(rest[j] == headers[j + 1]);
                    }
                }
            }
        }
        assert forall|i: int| #[trigger] is_first(headers, i, key) implies header_value(
            headers,
            key,
        ) == Some(headers[i].1) by {
            if i > 0 {
                assert(headers[0].0 != key);
                assert(rest[i - 1] == headers[i]);
                assert forall|j: int| 0 <= j < i - 1 implies (#[trigger] rest[j]).0 != key by {
                    assert(rest[j] == headers[j + 1]);
                }
                assert(is_first(rest, i - 1, key));
            }
        }
    }
}

/// Headers whose keys are listed are left out, one by one, and all others stay in their order.
pub proof fn law_extra_headers(
    headers: Seq<HeaderModel>,
    header: HeaderModel,
    keys: Seq<Seq<char>>,
)
    ensures
        headers_beyond(seq![], keys) == Seq::<HeaderModel>::empty(),
        headers_beyond(headers.push(header), keys) == (if keys.contains(header.0) {
            headers_beyond(headers, keys)
        } else {
            headers_beyond(headers, keys).push(header)
        }),
{
    reveal(headers_beyond);
    reveal(Seq::filter);
    assert(headers.push(header).drop_last() =~= headers);
}

/// Of the headers that a frame is built from, exactly those with a value are taken, in their order.
pub proof fn law_headers_with_a_value(
    headers: Seq<(Seq<char>, Option<Seq<char>>)>,
    key: Seq<char>,
    value: Seq<char>,
)
    ensures
        present(seq![]) == Seq::<HeaderModel>::empty(),
        present(seq![(key, Some(value))] + headers) == seq![(key, value)] + present(headers),
        present(seq![(key, None)] + headers) == present(headers),
{
    assert((seq![(key, Some(value))] + headers).skip(1) =~= headers);
    let none: Option<Seq<char>> = None;
    assert((seq![(key, none)] + headers).skip(1) =~= headers);
}

/// The announced length of a body is the number in the first `content-length` header, as far as
/// the machine can count.
pub proof fn law_announced_length(headers: Seq<HeaderModel>, i: int)
    ensures
        has_none(headers, "content-length"@) ==> content_length(headers) is None,
        is_first(headers, i, "content-length"@) ==> content_length(headers) == match read_integer(
            encode_utf8(headers[i].1),
            usize::MAX as int,
        ) {
            Ok(n) => Some(n),
            Err(_) => None,
        },
{
    law_header_is_found(headers, "content-length"@);
}

/* Frames */

/// The lines of headers, each text spelled as it is in header lines.
pub open spec fn header_lines(headers: Seq<HeaderModel>) -> Seq<Line> {
    Seq::new(
        headers.len(),
        |i: int|
            Line {
                key: escape(encode_utf8(headers[i].0)),
                value: escape(encode_utf8(headers[i].1)),
                eol: seq![10u8],
            },
    )
}

proof fn lemma_header_lines(headers: Seq<HeaderModel>)
    ensures
        lines_bytes(header_lines(headers)) == headers_bytes(headers),
    decreases headers.len(),
{
    if headers.len() > 0 {
        lemma_header_lines(headers.skip(1));
        assert(header_lines(headers).skip(1) =~= header_lines(headers.skip(1)));
        assert(header_lines(headers)[0].bytes() =~= header_bytes(headers[0]));
    }
}

/// A frame is written as its command, its header lines, an empty line, its body and a NUL byte.
/// A frame with a body has one more header line, which tells the length of the body.
pub proof fn law_frame_is_written(frame: FrameModel)
    ensures
        frame.body is None ==> frame_bytes(frame) == encode_utf8(frame.command) + seq![10u8]
            + lines_bytes(header_lines(frame.headers)) + seq![10u8, 0u8],
        frame.body matches Some(body) ==> frame_bytes(frame) == encode_utf8(frame.command)
            + seq![10u8] + lines_bytes(header_lines(frame.headers)) + encode_utf8(
            "content-length"@,
        ) + seq![58u8] + decimal(body.len()) + seq![10u8, 10u8] + body + seq![0u8],
{
    lemma_header_lines(frame.headers);
    if let Some(body) = frame.body {
        lemma_content_length_line(body.len());
        assert(frame_bytes(frame) =~= encode_utf8(frame.command) + seq![10u8] + lines_bytes(
            header_lines(frame.headers),
        ) + encode_utf8("content-length"@) + seq![58u8] + decimal(body.len()) + seq![10u8, 10u8]
            + body + seq![0u8]);
    } else {
        assert(frame_bytes(frame) =~= encode_utf8(frame.command) + seq![10u8] + lines_bytes(
            header_lines(frame.headers),
        ) + seq![10u8, 0u8]);
    }
}

/// The line that tells the length of a body is a header line with that number.
pub proof fn law_length_line_is_written(length: nat)
    ensures
        content_length_line(length) == encode_utf8("content-length"@) + seq![58u8] + decimal(length)
            + seq![10u8],
{
    lemma_content_length_line(length);
    assert(content_length_line(length) =~= encode_utf8("content-length"@) + seq![58u8] + decimal(
        length,
    ) + seq![10u8]);
}

/// A buffer may hold a quarter of the largest allocation, so a frame fits that does not exceed it.
pub proof fn law_room_of_a_buffer(held: nat, frame: FrameModel)
    ensures
        held + frame_bytes(frame).len() <= most_contents() <==> 4 * (held + frame_bytes(
            frame,
        ).len()) <= isize::MAX,
{
}

} // verus!
