//! The parts of a message as parts of a frame.
use crate::error::{ErrorModel, StompError};
use crate::frame::{fetch_header, present};
use crate::grammar::{header_value, FrameModel, HeaderModel};
use crate::heartbeat::{format_heartbeat, heartbeat_of, heartbeat_text, parse_heartbeat};
use crate::message::{body_of, text_of};
use vstd::prelude::*;
use vstd::slice::slice_to_vec;

verus! {

/// The value of a mandatory header.
pub open spec fn required(headers: Seq<HeaderModel>, key: Seq<char>) -> Result<
    Seq<char>,
    ErrorModel,
> {
    match header_value(headers, key) {
        Some(value) => Ok(value),
        None => Err(ErrorModel::MissingHeader(key)),
    }
}

/// The heart-beat of a frame with these headers.
pub open spec fn heartbeat_in(headers: Seq<HeaderModel>) -> Result<Option<(u32, u32)>, ErrorModel> {
    match header_value(headers, "heart-beat"@) {
        Some(text) => match heartbeat_of(text) {
            Ok(pair) => Ok(Some(pair)),
            Err(e) => Err(e),
        },
        None => Ok(None),
    }
}

/// Reads the `heart-beat` header, if there is one.
pub(crate) fn fetch_heartbeat(headers: &Vec<(String, String)>) -> (r: Result<
    Option<(u32, u32)>,
    StompError,
>)
    ensures
        match r {
            Ok(heartbeat) => heartbeat_in(headers.deep_view()) == Ok::<
                Option<(u32, u32)>,
                ErrorModel,
            >(heartbeat),
            Err(e) => heartbeat_in(headers.deep_view()) == Err::<Option<(u32, u32)>, ErrorModel>(
                e@,
            ),
        },
{
    match fetch_header(headers, "heart-beat") {
        Some(text) => match parse_heartbeat(text.as_str()) {
            Ok(pair) => Ok(Some(pair)),
            Err(e) => Err(e),
        },
        None => Ok(None),
    }
}

/// Copies the body of a frame.
pub(crate) fn fetch_body(body: Option<&[u8]>) -> (r: Option<Vec<u8>>)
    ensures
        body_of(r) == match body {
            Some(bytes) => Some(bytes@),
            None => None,
        },
{
    match body {
        Some(bytes) => Some(slice_to_vec(bytes)),
        None => None,
    }
}

/// The frame with this command, those of these headers that have a value, and the extra ones.
pub open spec fn frame_of(
    command: Seq<char>,
    headers: Seq<(Seq<char>, Option<Seq<char>>)>,
    body: Option<Seq<u8>>,
    extra_headers: Seq<HeaderModel>,
) -> FrameModel {
    FrameModel { command, headers: present(headers) + extra_headers, body }
}

/// The text of a heart-beat that may be absent.
pub open spec fn heartbeat_header(heartbeat: Option<(u32, u32)>) -> Option<Seq<char>> {
    match heartbeat {
        Some(pair) => Some(heartbeat_text(pair)),
        None => None,
    }
}

/// Writes a `heart-beat` header that may be absent.
pub(crate) fn format_heartbeat_header(heartbeat: Option<(u32, u32)>) -> (r: Option<String>)
    ensures
        text_of(r) == heartbeat_header(heartbeat),
{
    match heartbeat {
        Some(pair) => Some(format_heartbeat(pair)),
        None => None,
    }
}

/// The bytes of a body that may be absent.
pub(crate) fn body_slice(body: &Option<Vec<u8>>) -> (r: Option<&[u8]>)
    ensures
        body_of(*body) == match r {
            Some(bytes) => Some(bytes@),
            None => None,
        },
{
    match body {
        Some(bytes) => Some(bytes.as_slice()),
        None => None,
    }
}

} // verus!
