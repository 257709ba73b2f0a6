use nom::branch::alt;
use nom::bytes::{complete, streaming};
use nom::character::streaming::{alpha1, line_ending, not_line_ending};
use nom::combinator::{complete as to_the_end, map_res, opt, value};
use nom::error::ErrorKind;
use nom::multi::{count, many0, many_till};
use nom::sequence::{delimited, separated_pair, terminated, tuple};
use nom::{IResult, Parser};
use std::num::IntErrorKind;
use tokio_stomp::error::{Expected, ParseError};
use tokio_stomp::frame::{get_content_length, parse_frame};
use tokio_stomp::heartbeat::parse_heartbeat;
use tokio_stomp::{IntegerError, StompError};

// The grammar of frames, spelled with combinators.

fn text(input: &[u8]) -> IResult<&[u8], String> {
    let letters = alt((
        value(&b"\\"[..], complete::tag("\\")),
        value(&b"\r"[..], complete::tag("r")),
        value(&b"\n"[..], complete::tag("n")),
        value(&b":"[..], complete::tag("c")),
    ));
    let plain = complete::take_while_m_n(1, 1, |c| c != b'\\');
    map_res(complete::escaped_transform(plain, '\\', letters), String::from_utf8)(input)
}

fn header(input: &[u8]) -> IResult<&[u8], (String, String)> {
    let key = streaming::is_not(":\r\n").and_then(text);
    let content = terminated(not_line_ending, line_ending).and_then(text);
    to_the_end(separated_pair(key, streaming::tag(":"), content))(input)
}

type Found<'a> = (String, Vec<(String, String)>, Option<&'a [u8]>);

fn frame(input: &[u8]) -> IResult<&[u8], Found<'_>> {
    many_till(streaming::take(1_usize).map(drop), count(line_ending, 2))(input)?;
    let command = delimited(opt(to_the_end(line_ending)), alpha1, line_ending);
    let headers = terminated(many0(header), line_ending);
    let (input, (command, headers)) = tuple((command, headers))(input)?;
    let length = headers
        .iter()
        .find(|(key, _)| key == "content-length")
        .and_then(|(_, length)| length.parse::<usize>().ok());
    let (input, body) = match length {
        Some(length) => streaming::take(length).map(Some).parse(input)?,
        None => streaming::take_until("\0")
            .map(|body: &[u8]| Some(body).filter(|body| !body.is_empty()))
            .parse(input)?,
    };
    let (input, _) = tuple((streaming::tag("\0"), opt(to_the_end(line_ending))))(input)?;
    Ok((input, (String::from_utf8_lossy(command).into_owned(), headers, body)))
}

fn agree(input: &[u8]) {
    match (parse_frame(input), frame(input)) {
        (Ok((rest, read)), Ok((other_rest, (command, headers, body)))) => {
            assert_eq!(rest, other_rest, "{:?}", input);
            assert_eq!(read.command_text(), command, "{:?}", input);
            assert_eq!(read.headers, headers, "{:?}", input);
            assert_eq!(read.body, body, "{:?}", input);
        }
        (Err(ParseError::Incomplete), Err(nom::Err::Incomplete(_))) => {}
        (Err(ParseError::Invalid { offset, expected }), Err(nom::Err::Error(e))) => {
            assert_eq!(&input[offset..], e.input, "{:?}", input);
            let code = match expected {
                Expected::Alphabetic => ErrorKind::Alpha,
                Expected::LineEnding => ErrorKind::CrLf,
                Expected::Nul => ErrorKind::Tag,
            };
            assert_eq!(code, e.code, "{:?}", input);
        }
        (one, other) => panic!("{:?}: {:?} and {:?}", input, one, other),
    }
}

/// Calls `f` on `start` followed by every text of at most `n` of the bytes.
fn each_text(start: &mut Vec<u8>, bytes: &[u8], n: usize, f: &mut dyn FnMut(&[u8])) {
    f(start);
    if n > 0 {
        for byte in bytes {
            start.push(*byte);
            each_text(start, bytes, n - 1, f);
            start.pop();
        }
    }
}

#[test]
fn short_inputs_are_read_as_the_grammar_says() {
    each_text(&mut vec![], b"Az\n\r:\\c\0\xc3", 5, &mut agree);
}

#[test]
fn heads_are_read_as_the_grammar_says() {
    for start in [&b"A\n"[..], b"\nA\r\n", b"A\nk:v\n", b"A\r\nk:v\r\n"] {
        each_text(&mut start.to_vec(), b"z\n\r:\\\0", 5, &mut agree);
    }
}

#[test]
fn texts_are_read_as_the_grammar_says() {
    let mut f = |text: &[u8]| {
        for (start, end) in [
            (&b"A\n"[..], &b":v\n\n\0"[..]),
            (b"A\nk:", b"\n\n\0"),
            (b"A\nk:", b"\r\n\r\nbody\0\n"),
        ] {
            let mut input = start.to_vec();
            input.extend_from_slice(text);
            input.extend_from_slice(end);
            agree(&input);
        }
    };
    each_text(&mut vec![], b"a\\rnc:\xc3\xa9", 5, &mut f);
}

#[test]
fn bodies_are_read_as_the_grammar_says() {
    for length in ["", "0", "1", "2", "3", "+2", "02", "-1", "x", "99999999999999999999"] {
        let mut f = |body: &[u8]| {
            let mut input = format!("A\ncontent-length:{}\n\n", length).into_bytes();
            input.extend_from_slice(body);
            agree(&input);
        };
        each_text(&mut vec![], b"a\n\r\0", 5, &mut f);
    }
}

#[test]
fn numbers_are_read_as_std_reads_them() {
    let mut f = |text: &[u8]| {
        let text = String::from_utf8(text.to_vec()).unwrap();
        let headers = vec![("content-length".to_string(), text.clone())];
        assert_eq!(get_content_length(&headers), text.parse::<usize>().ok(), "{:?}", text);
        let read = parse_heartbeat(&format!("{},7", text));
        match (read, text.parse::<u32>()) {
            (Ok(pair), Ok(n)) => assert_eq!(pair, (n, 7)),
            (Err(StompError::InvalidInteger(why)), Err(e)) => {
                let kind = match why {
                    IntegerError::Empty => IntErrorKind::Empty,
                    IntegerError::InvalidDigit => IntErrorKind::InvalidDigit,
                    IntegerError::TooLarge => IntErrorKind::PosOverflow,
                };
                assert_eq!(e.kind(), &kind, "{:?}", text);
            }
            (one, other) => panic!("{:?}: {:?} and {:?}", text, one, other),
        }
    };
    each_text(&mut vec![], b"019+-x \0", 4, &mut f);
    for text in [
        "4294967295",
        "4294967296",
        "+4294967295",
        "004294967295",
        "42949672950",
        "99999999999x",
        "9x999999999",
        "18446744073709551615",
        "18446744073709551616",
        "+18446744073709551616x",
    ] {
        f(text.as_bytes());
    }
}
