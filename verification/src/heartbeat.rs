//! The `heart-beat` header: two numbers and a comma.
use crate::error::{ErrorModel, StompError};
use crate::scan::{
    decimal, decimal_digits, find, find_from, parse_integer, read_integer, Stop, COMMA,
};
use crate::text::{lemma_ascii_valid_utf8, utf8_text};
use vstd::prelude::*;
use vstd::slice::slice_subrange;
use vstd::utf8::*;

verus! {

/// The two numbers of a `heart-beat` header, separated by a comma.
pub open spec fn heartbeat_of(text: Seq<char>) -> Result<(u32, u32), ErrorModel> {
    let bytes = encode_utf8(text);
    let comma = find_from(bytes, 0, Stop::Comma);
    if comma == bytes.len() {
        Err(ErrorModel::BadHeartbeat)
    } else {
        match (
            read_integer(bytes.take(comma), u32::MAX as int),
            read_integer(bytes.skip(comma + 1), u32::MAX as int),
        ) {
            (Ok(left), Ok(right)) => Ok((left as u32, right as u32)),
            (Err(why), _) => Err(ErrorModel::InvalidInteger(why)),
            (_, Err(why)) => Err(ErrorModel::InvalidInteger(why)),
        }
    }
}

/// Reads a `heart-beat` header.
pub fn parse_heartbeat(hb: &str) -> (r: Result<(u32, u32), StompError>)
    ensures
        match r {
            Ok(pair) => heartbeat_of(hb@) == Ok::<(u32, u32), ErrorModel>(pair),
            Err(e) => heartbeat_of(hb@) == Err::<(u32, u32), ErrorModel>(e@),
        },
{
    let bytes = hb.as_bytes();
    let comma = find(bytes, 0, Stop::Comma);
    if comma == bytes.len() {
        return Err(StompError::BadHeartbeat);
    }
    let left = slice_subrange(bytes, 0, comma);
    let right = slice_subrange(bytes, comma + 1, bytes.len());
    assert(left@ =~= bytes@.take(comma as int));
    assert(right@ =~= bytes@.skip(comma + 1));
    match (parse_integer(left, u32::MAX as u64), parse_integer(right, u32::MAX as u64)) {
        (Ok(l), Ok(r)) => Ok((l as u32, r as u32)),
        (Err(why), _) => Err(StompError::InvalidInteger(why)),
        (_, Err(why)) => Err(StompError::InvalidInteger(why)),
    }
}

/// The bytes of a `heart-beat` header with these numbers.
pub open spec fn heartbeat_bytes(heartbeat: (u32, u32)) -> Seq<u8> {
    decimal(heartbeat.0 as nat) + seq![COMMA] + decimal(heartbeat.1 as nat)
}

/// The text of a `heart-beat` header with these numbers.
pub open spec fn heartbeat_text(heartbeat: (u32, u32)) -> Seq<char> {
    decode_utf8(heartbeat_bytes(heartbeat))
}

/// Decimal digits are digits.
pub proof fn lemma_decimal_digits(n: nat)
    ensures
        decimal(n).len() > 0,
        forall|i: int| 0 <= i < decimal(n).len() ==> 48 <= #[trigger] decimal(n)[i] <= 57,
    decreases n,
{
    if n >= 10 {
        lemma_decimal_digits(n / 10);
    }
}

/// The text of a heart-beat has the bytes of the heart-beat.
pub proof fn lemma_heartbeat_text(heartbeat: (u32, u32))
    ensures
        valid_utf8(heartbeat_bytes(heartbeat)),
        encode_utf8(heartbeat_text(heartbeat)) == heartbeat_bytes(heartbeat),
{
    lemma_decimal_digits(heartbeat.0 as nat);
    lemma_decimal_digits(heartbeat.1 as nat);
    lemma_ascii_valid_utf8(heartbeat_bytes(heartbeat));
    decode_utf8_encode_utf8(heartbeat_bytes(heartbeat));
}

/// Writes a `heart-beat` header.
pub(crate) fn format_heartbeat(heartbeat: (u32, u32)) -> (text: String)
    ensures
        text@ == heartbeat_text(heartbeat),
{
    let mut bytes = decimal_digits(heartbeat.0 as u64);
    bytes.push(COMMA);
    let mut right = decimal_digits(heartbeat.1 as u64);
    bytes.append(&mut right);
    assert(bytes@ =~= heartbeat_bytes(heartbeat));
    proof {
        lemma_heartbeat_text(heartbeat);
    }
    let text = utf8_text(bytes);
    proof {
        encode_utf8_decode_utf8(text->0@);
    }
    text.unwrap()
}

} // verus!
