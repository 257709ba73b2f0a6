//! Searching, comparing and reading numbers at the level of bytes.
use crate::error::IntegerError;
use vstd::prelude::*;
use vstd::utf8::*;

verus! {

/// Line feed.
pub const LF: u8 = 10;

/// Carriage return.
pub const CR: u8 = 13;

/// `:`
pub const COLON: u8 = 58;

/// `\`
pub const BACKSLASH: u8 = 92;

/// `+`
pub const PLUS: u8 = 43;

/// `,`
pub const COMMA: u8 = 44;

/// The byte that ends a frame.
pub const NUL: u8 = 0;

/// The sets of bytes at which the grammar stops reading.
#[derive(Clone, Copy, PartialEq, Eq, Structural)]
pub enum Stop {
    /// `,`
    Comma,
    /// The NUL byte.
    Nul,
    /// Carriage return or line feed.
    LineEnd,
    /// `:`, carriage return or line feed.
    KeyEnd,
    /// Every byte but an ASCII letter.
    NotAlphabetic,
}

/// Whether `byte` is an ASCII letter.
pub open spec fn is_alphabetic(byte: u8) -> bool {
    65 <= byte <= 90 || 97 <= byte <= 122
}

impl Stop {
    /// Whether `byte` belongs to the set.
    pub open spec fn has(self, byte: u8) -> bool {
        match self {
            Stop::Comma => byte == COMMA,
            Stop::Nul => byte == NUL,
            Stop::LineEnd => byte == CR || byte == LF,
            Stop::KeyEnd => byte == COLON || byte == CR || byte == LF,
            Stop::NotAlphabetic => !is_alphabetic(byte),
        }
    }

    fn contains(self, byte: u8) -> (r: bool)
        ensures
            r == self.has(byte),
    {
        match self {
            Stop::Comma => byte == COMMA,
            Stop::Nul => byte == NUL,
            Stop::LineEnd => byte == CR || byte == LF,
            Stop::KeyEnd => byte == COLON || byte == CR || byte == LF,
            Stop::NotAlphabetic => !((65 <= byte && byte <= 90) || (97 <= byte && byte <= 122)),
        }
    }
}

/// The first position from `at` on that holds a byte of `stop`, or the length of `s`.
pub open spec fn find_from(s: Seq<u8>, at: int, stop: Stop) -> int
    decreases s.len() - at,
{
    if at >= s.len() {
        s.len() as int
    } else if stop.has(s[at]) {
        at
    } else {
        find_from(s, at + 1, stop)
    }
}

/// `find_from` is the least position with a byte of `stop`, and the end of `s` if there is none.
pub proof fn lemma_find_from(s: Seq<u8>, at: int, stop: Stop)
    requires
        0 <= at <= s.len(),
    ensures
        at <= find_from(s, at, stop) <= s.len(),
        find_from(s, at, stop) < s.len() ==> stop.has(s[find_from(s, at, stop)]),
        forall|j: int| at <= j < find_from(s, at, stop) ==> !stop.has(#[trigger] s[j]),
    decreases s.len() - at,
{
    if at < s.len() && !stop.has(s[at]) {
        lemma_find_from(s, at + 1, stop);
    }
}

/// A position is `find_from` if it holds a byte of `stop`, or is the end, and no earlier one does.
pub proof fn lemma_find_from_is(s: Seq<u8>, at: int, stop: Stop, end: int)
    requires
        0 <= at <= end <= s.len(),
        end < s.len() ==> stop.has(s[end]),
        forall|j: int| at <= j < end ==> !stop.has(#[trigger] s[j]),
    ensures
        find_from(s, at, stop) == end,
    decreases s.len() - at,
{
    if at < end {
        lemma_find_from_is(s, at + 1, stop, end);
    }
}

/// Finds the first byte of `stop` from `at` on.
pub(crate) fn find(input: &[u8], at: usize, stop: Stop) -> (end: usize)
    requires
        at <= input@.len(),
    ensures
        end == find_from(input@, at as int, stop),
        at <= end <= input@.len(),
{
    let mut end: usize = at;
    while end < input.len() && !stop.contains(input[end])
        invariant
            at <= end <= input@.len(),
            forall|j: int| at <= j < end ==> !stop.has(#[trigger] input@[j]),
        decreases input@.len() - end,
    {
        end = end + 1;
    }
    proof {
        lemma_find_from_is(input@, at as int, stop, end as int);
    }
    end
}

/// Texts with the same UTF-8 bytes are the same text.
pub proof fn lemma_encode_utf8_injective(a: Seq<char>, b: Seq<char>)
    requires
        encode_utf8(a) == encode_utf8(b),
    ensures
        a == b,
{
    encode_utf8_decode_utf8(a);
    encode_utf8_decode_utf8(b);
}

/// Whether two texts are equal.
pub(crate) fn same_text(a: &str, b: &str) -> (r: bool)
    ensures
        r == (a@ == b@),
{
    let x = a.as_bytes();
    let y = b.as_bytes();
    if x.len() != y.len() {
        return false;
    }
    let mut i: usize = 0;
    while i < x.len()
        invariant
            i <= x@.len() == y@.len(),
            x@ == encode_utf8(a@),
            y@ == encode_utf8(b@),
            forall|j: int| 0 <= j < i ==> x@[j] == y@[j],
        decreases x@.len() - i,
    {
        if x[i] != y[i] {
            return false;
        }
        i = i + 1;
    }
    proof {
        assert(x@ =~= y@);
        lemma_encode_utf8_injective(a@, b@);
    }
    true
}

/// Whether `byte` is an ASCII digit.
pub open spec fn is_digit(byte: u8) -> bool {
    48 <= byte <= 57
}

/// The number whose decimal digits are those of `value` followed by `digits`, provided that
/// none of the numbers read on the way exceeds `max`.
pub open spec fn read_digits(digits: Seq<u8>, value: int, max: int) -> Result<int, IntegerError>
    decreases digits.len(),
{
    if digits.len() == 0 {
        Ok(value)
    } else if !is_digit(digits[0]) {
        Err(IntegerError::InvalidDigit)
    } else if 10 * value + (digits[0] - 48) > max {
        Err(IntegerError::TooLarge)
    } else {
        read_digits(digits.skip(1), 10 * value + (digits[0] - 48), max)
    }
}

/// The number not above `max` that a text denotes: an optional `+`, then at least one digit
/// and nothing else.
pub open spec fn read_integer(text: Seq<u8>, max: int) -> Result<int, IntegerError> {
    if text.len() == 0 {
        Err(IntegerError::Empty)
    } else if text[0] == PLUS && text.len() > 1 {
        read_digits(text.skip(1), 0, max)
    } else {
        read_digits(text, 0, max)
    }
}

/// Reads a decimal number not above `max`.
pub(crate) fn parse_integer(text: &[u8], max: u64) -> (r: Result<u64, IntegerError>)
    ensures
        match r {
            Ok(n) => read_integer(text@, max as int) == Ok::<int, IntegerError>(n as int) && n
                <= max,
            Err(why) => read_integer(text@, max as int) == Err::<int, IntegerError>(why),
        },
{
    if text.len() == 0 {
        return Err(IntegerError::Empty);
    }
    let mut i: usize = if text[0] == PLUS && text.len() > 1 {
        1
    } else {
        0
    };
    let mut value: u64 = 0;
    assert(text@.skip(0) =~= text@);
    while i < text.len()
        invariant
            i <= text@.len(),
            value <= max,
            read_integer(text@, max as int) == read_digits(
                text@.skip(i as int),
                value as int,
                max as int,
            ),
        decreases text@.len() - i,
    {
        let byte: u8 = text[i];
        assert(text@.skip(i as int)[0] == byte);
        assert(text@.skip(i as int).skip(1) =~= text@.skip(i + 1));
        if byte < 48 || byte > 57 {
            return Err(IntegerError::InvalidDigit);
        }
        let next: u128 = value as u128 * 10 + (byte - 48) as u128;
        if next > max as u128 {
            return Err(IntegerError::TooLarge);
        }
        value = next as u64;
        i = i + 1;
    }
    Ok(value)
}

/// The decimal digits of `n`, without leading zeros.
pub open spec fn decimal(n: nat) -> Seq<u8>
    decreases n,
{
    if n < 10 {
        seq![(48 + n) as u8]
    } else {
        decimal(n / 10).push((48 + n % 10) as u8)
    }
}

/// Writes a number in decimal.
pub(crate) fn decimal_digits(n: u64) -> (r: Vec<u8>)
    ensures
        r@ == decimal(n as nat),
    decreases n,
{
    if n < 10 {
        let mut digits: Vec<u8> = Vec::new();
        digits.push(48 + n as u8);
        assert(digits@ =~= decimal(n as nat));
        digits
    } else {
        let mut digits = decimal_digits(n / 10);
        digits.push(48 + (n % 10) as u8);
        digits
    }
}

} // verus!
