//! Escaping in header lines: carriage return, line feed, colon and backslash are written as a
//! backslash and a letter, so that none of the first three stands in an escaped text.
use crate::buffer::{contents, most_contents, put_u8};
use crate::scan::{BACKSLASH, COLON, CR, LF};
use crate::text::utf8_text;
use bytes::BytesMut;
use vstd::prelude::*;
use vstd::utf8::*;

verus! {

/// `r`, which stands for a carriage return behind a backslash.
pub const LETTER_R: u8 = 114;

/// `n`, which stands for a line feed behind a backslash.
pub const LETTER_N: u8 = 110;

/// `c`, which stands for a colon behind a backslash.
pub const LETTER_C: u8 = 99;

/// How a byte is written in a header line.
pub open spec fn escape_byte(byte: u8) -> Seq<u8> {
    if byte == CR {
        seq![BACKSLASH, LETTER_R]
    } else if byte == LF {
        seq![BACKSLASH, LETTER_N]
    } else if byte == COLON {
        seq![BACKSLASH, LETTER_C]
    } else if byte == BACKSLASH {
        seq![BACKSLASH, BACKSLASH]
    } else {
        seq![byte]
    }
}

/// How a sequence of bytes is written in a header line.
pub open spec fn escape(s: Seq<u8>) -> Seq<u8>
    decreases s.len(),
{
    if s.len() == 0 {
        seq![]
    } else {
        escape_byte(s[0]) + escape(s.skip(1))
    }
}

/// The byte that a backslash and `letter` stand for.
pub open spec fn escaped_byte(letter: u8) -> Option<u8> {
    if letter == BACKSLASH {
        Some(BACKSLASH)
    } else if letter == LETTER_R {
        Some(CR)
    } else if letter == LETTER_N {
        Some(LF)
    } else if letter == LETTER_C {
        Some(COLON)
    } else {
        None
    }
}

/// The bytes that `s` stands for: each backslash has to be followed by one of the four letters.
pub open spec fn unescape_bytes(s: Seq<u8>) -> Option<Seq<u8>>
    decreases s.len(),
{
    if s.len() == 0 {
        Some(seq![])
    } else if s[0] != BACKSLASH {
        match unescape_bytes(s.skip(1)) {
            Some(rest) => Some(seq![s[0]] + rest),
            None => None,
        }
    } else if s.len() == 1 {
        None
    } else {
        match (escaped_byte(s[1]), unescape_bytes(s.skip(2))) {
            (Some(byte), Some(rest)) => Some(seq![byte] + rest),
            _ => None,
        }
    }
}

/// The text that an escaped text stands for, if it is well escaped and valid UTF-8.
pub open spec fn unescape_text(s: Seq<u8>) -> Option<Seq<char>> {
    match unescape_bytes(s) {
        Some(bytes) => if valid_utf8(bytes) {
            Some(decode_utf8(bytes))
        } else {
            None
        },
        None => None,
    }
}

/// Escaping works byte by byte.
pub proof fn lemma_escape_push(s: Seq<u8>, byte: u8)
    ensures
        escape(s.push(byte)) == escape(s) + escape_byte(byte),
    decreases s.len(),
{
    if s.len() == 0 {
        reveal_with_fuel(escape, 2);
        assert(escape(s.push(byte)) =~= escape(s) + escape_byte(byte));
    } else {
        lemma_escape_push(s.skip(1), byte);
        assert(s.push(byte).skip(1) =~= s.skip(1).push(byte));
        assert(escape(s.push(byte)) =~= escape(s) + escape_byte(byte));
    }
}

/// Escaping a part adds at most as many bytes as escaping the whole.
pub proof fn lemma_escape_len(s: Seq<u8>, n: int)
    requires
        0 <= n <= s.len(),
    ensures
        escape(s.take(n)).len() <= escape(s).len(),
        n < s.len() ==> escape(s.take(n)).len() + escape_byte(s[n]).len() <= escape(s).len(),
    decreases s.len() - n,
{
    if n == s.len() {
        assert(s.take(n) =~= s);
    } else {
        assert(s.take(n + 1) =~= s.take(n).push(s[n]));
        lemma_escape_push(s.take(n), s[n]);
        lemma_escape_len(s, n + 1);
    }
}

/// Writes one byte of a header line.
fn write_escaped(byte: u8, buffer: &mut BytesMut)
    requires
        contents(*old(buffer)).len() + escape_byte(byte).len() <= most_contents(),
    ensures
        contents(*final(buffer)) == contents(*old(buffer)) + escape_byte(byte),
{
    if byte == CR {
        put_u8(buffer, BACKSLASH);
        put_u8(buffer, LETTER_R);
    } else if byte == LF {
        put_u8(buffer, BACKSLASH);
        put_u8(buffer, LETTER_N);
    } else if byte == COLON {
        put_u8(buffer, BACKSLASH);
        put_u8(buffer, LETTER_C);
    } else if byte == BACKSLASH {
        put_u8(buffer, BACKSLASH);
        put_u8(buffer, BACKSLASH);
    } else {
        put_u8(buffer, byte);
    }
    assert(contents(*buffer) =~= contents(*old(buffer)) + escape_byte(byte));
}

/// Writes a text of a header line.
pub(crate) fn write_escaped_text(text: &str, buffer: &mut BytesMut)
    requires
        contents(*old(buffer)).len() + escape(encode_utf8(text@)).len() <= most_contents(),
    ensures
        contents(*final(buffer)) == contents(*old(buffer)) + escape(encode_utf8(text@)),
{
    let bytes = text.as_bytes();
    let mut i: usize = 0;
    assert(contents(*buffer) =~= contents(*old(buffer)) + escape(bytes@.take(0)));
    while i < bytes.len()
        invariant
            i <= bytes@.len(),
            contents(*old(buffer)).len() + escape(bytes@).len() <= most_contents(),
            contents(*buffer) == contents(*old(buffer)) + escape(bytes@.take(i as int)),
        decreases bytes@.len() - i,
    {
        proof {
            lemma_escape_len(bytes@, i as int);
            lemma_escape_push(bytes@.take(i as int), bytes@[i as int]);
            assert(bytes@.take(i + 1) =~= bytes@.take(i as int).push(bytes@[i as int]));
        }
        write_escaped(bytes[i], buffer);
        i = i + 1;
        assert(contents(*buffer) =~= contents(*old(buffer)) + escape(bytes@.take(i as int)));
    }
    assert(bytes@.take(i as int) =~= bytes@);
}

/// Adds the number of bytes that `text` takes up in a header line to `total`, unless the sum is
/// above `limit`.
pub(crate) fn add_escaped_len(text: &str, total: usize, limit: usize) -> (r: Option<usize>)
    requires
        total <= limit,
    ensures
        match r {
            Some(sum) => sum == total + escape(encode_utf8(text@)).len() && sum <= limit,
            None => total + escape(encode_utf8(text@)).len() > limit,
        },
{
    let bytes = text.as_bytes();
    let mut sum: usize = total;
    let mut i: usize = 0;
    assert(bytes@.take(0) =~= Seq::<u8>::empty());
    while i < bytes.len()
        invariant
            i <= bytes@.len(),
            bytes@ == encode_utf8(text@),
            sum == total + escape(bytes@.take(i as int)).len(),
            sum <= limit,
        decreases bytes@.len() - i,
    {
        proof {
            lemma_escape_len(bytes@, i as int);
            lemma_escape_push(bytes@.take(i as int), bytes@[i as int]);
            assert(bytes@.take(i + 1) =~= bytes@.take(i as int).push(bytes@[i as int]));
        }
        let byte: u8 = bytes[i];
        let len: usize = if byte == CR || byte == LF || byte == COLON || byte == BACKSLASH {
            2
        } else {
            1
        };
        if len > limit - sum {
            return None;
        }
        sum = sum + len;
        i = i + 1;
    }
    assert(bytes@.take(i as int) =~= bytes@);
    Some(sum)
}

/// Reads a text of a header line.
pub(crate) fn unescape(input: &[u8]) -> (r: Option<String>)
    ensures
        match r {
            Some(text) => unescape_text(input@) == Some(text@),
            None => unescape_text(input@) is None,
        },
{
    let mut bytes: Vec<u8> = Vec::new();
    let mut i: usize = 0;
    assert(input@.skip(0) =~= input@);
    while i < input.len()
        invariant
            i <= input@.len(),
            match unescape_bytes(input@.skip(i as int)) {
                Some(rest) => unescape_bytes(input@) == Some(bytes@ + rest),
                None => unescape_bytes(input@) is None,
            },
        decreases input@.len() - i,
    {
        let ghost tail = input@.skip(i as int);
        let ghost before = bytes@;
        assert(tail.skip(1) =~= input@.skip(i + 1));
        if input[i] != BACKSLASH {
            bytes.push(input[i]);
            i = i + 1;
            proof {
                if let Some(rest) = unescape_bytes(input@.skip(i as int)) {
                    assert(bytes@ + rest =~= before + (seq![tail[0]] + rest));
                }
            }
        } else if input.len() - i == 1 {
            return None;
        } else {
            let letter: u8 = input[i + 1];
            assert(tail.skip(2) =~= input@.skip(i + 2));
            let byte: u8 = if letter == BACKSLASH {
                BACKSLASH
            } else if letter == LETTER_R {
                CR
            } else if letter == LETTER_N {
                LF
            } else if letter == LETTER_C {
                COLON
            } else {
                return None;
            };
            bytes.push(byte);
            i = i + 2;
            proof {
                if let Some(rest) = unescape_bytes(input@.skip(i as int)) {
                    assert(bytes@ + rest =~= before + (seq![byte] + rest));
                }
            }
        }
    }
    proof {
        assert(unescape_bytes(input@.skip(i as int)) == Some(Seq::<u8>::empty()));
        assert(bytes@ + Seq::<u8>::empty() =~= bytes@);
    }
    let text = utf8_text(bytes);
    proof {
        if text is Some {
            encode_utf8_decode_utf8(text->0@);
        }
    }
    text
}

} // verus!
