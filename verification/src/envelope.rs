//! Steps towards the laws: what arrives of the headers that a message is sent with.
use crate::fields::frame_of;
use crate::frame::{headers_beyond, present};
use crate::grammar::{content_length, header_value, FrameModel, HeaderModel};
use crate::roundtrip::{
    content_length_header, is_command, is_readable, keys_present, lemma_decimal_text,
    lemma_read_decimal, received,
};
use vstd::prelude::*;

verus! {

/// Headers of a message, some of them without a value.
pub type Fields = Seq<(Seq<char>, Option<Seq<char>>)>;

/// A key is one of those of the fields.
pub open spec fn is_field(fields: Fields, key: Seq<char>) -> bool {
    exists|i: int| 0 <= i < fields.len() && (#[trigger] fields[i]).0 == key
}

/// The fields have keys, and no two have the same.
pub open spec fn fields_distinct(fields: Fields) -> bool {
    &&& forall|i: int| 0 <= i < fields.len() ==> (#[trigger] fields[i]).0.len() > 0
    &&& forall|i: int, j: int|
        0 <= i < j < fields.len() ==> (#[trigger] fields[i]).0 != (#[trigger] fields[j]).0
}

/// The fields have keys among `keys`, no two the same, and `content-length` is none of them.
pub open spec fn fields_within(fields: Fields, keys: Seq<Seq<char>>) -> bool {
    &&& fields_distinct(fields)
    &&& forall|i: int| 0 <= i < fields.len() ==> keys.contains((#[trigger] fields[i]).0)
    &&& !is_field(fields, "content-length"@)
}

/// Of headers with the same key only the first counts.
pub proof fn lemma_header_value_add(a: Seq<HeaderModel>, b: Seq<HeaderModel>, key: Seq<char>)
    ensures
        header_value(a + b, key) == match header_value(a, key) {
            Some(value) => Some(value),
            None => header_value(b, key),
        },
    decreases a.len(),
{
    if a.len() == 0 {
        assert(a + b =~= b);
    } else {
        lemma_header_value_add(a.skip(1), b, key);
        assert((a + b).skip(1) =~= a.skip(1) + b);
        assert((a + b)[0] == a[0]);
    }
}

/// No header has a key that is no field's.
proof fn lemma_present_absent(fields: Fields, key: Seq<char>)
    requires
        !is_field(fields, key),
    ensures
        header_value(present(fields), key) is None,
    decreases fields.len(),
{
    if fields.len() > 0 {
        let rest = fields.skip(1);
        assert(!is_field(rest, key)) by {
            assert forall|i: int| 0 <= i < rest.len() implies (#[trigger] rest[i]).0 != key by {
                assert(rest[i] == fields[i + 1]);
            }
        }
        lemma_present_absent(rest, key);
        assert(fields[0].0 != key);
        if let Some(value) = fields[0].1 {
            lemma_header_value_add(seq![(fields[0].0, value)], present(rest), key);
            reveal_with_fuel(header_value, 2);
        }
    }
}

/// A field's header has the field's value.
proof fn lemma_present_field(fields: Fields, i: int)
    requires
        fields_distinct(fields),
        0 <= i < fields.len(),
    ensures
        header_value(present(fields), fields[i].0) == fields[i].1,
    decreases fields.len(),
{
    let key = fields[i].0;
    let rest = fields.skip(1);
    reveal_with_fuel(header_value, 2);
    if i == 0 {
        assert(!is_field(rest, key)) by {
            assert forall|j: int| 0 <= j < rest.len() implies (#[trigger] rest[j]).0 != key by {
                assert(rest[j] == fields[j + 1]);
            }
        }
        lemma_present_absent(rest, key);
    } else {
        assert(fields_distinct(rest)) by {
            assert forall|j: int| 0 <= j < rest.len() implies (#[trigger] rest[j]).0.len()
                > 0 by {
                assert(rest[j] == fields[j + 1]);
            }
            assert forall|j: int, k: int| 0 <= j < k < rest.len() implies (#[trigger] rest[j]).0
                != (#[trigger] rest[k]).0 by {
                assert(rest[j] == fields[j + 1]);
                assert(rest[k] == fields[k + 1]);
            }
        }
        lemma_present_field(rest, i - 1);
        assert(rest[i - 1] == fields[i]);
    }
    if let Some(value) = fields[0].1 {
        lemma_header_value_add(seq![(fields[0].0, value)], present(rest), key);
    }
}

/// The headers of fields have the keys of fields.
proof fn lemma_present_keys(fields: Fields)
    ensures
        forall|i: int|
            0 <= i < present(fields).len() ==> is_field(fields, (#[trigger] present(fields)[i]).0),
    decreases fields.len(),
{
    if fields.len() > 0 {
        let rest = fields.skip(1);
        lemma_present_keys(rest);
        assert forall|i: int| 0 <= i < present(fields).len() implies is_field(
            fields,
            (#[trigger] present(fields)[i]).0,
        ) by {
            let key = present(fields)[i].0;
            let shift: int = if fields[0].1 is Some {
                1
            } else {
                0
            };
            if i < shift {
                assert(fields[0].0 == key);
            } else {
                assert(present(fields)[i] == present(rest)[i - shift]);
                assert(is_field(rest, key));
                let j = choose|j: int| 0 <= j < rest.len() && (#[trigger] rest[j]).0 == key;
                assert(fields[j + 1].0 == key);
            }
        }
    }
}

/// Headers whose keys are all among `keys` go, headers whose keys are not stay.
proof fn lemma_beyond(a: Seq<HeaderModel>, b: Seq<HeaderModel>, keys: Seq<Seq<char>>)
    requires
        forall|i: int| 0 <= i < a.len() ==> keys.contains((#[trigger] a[i]).0),
        forall|i: int| 0 <= i < b.len() ==> !keys.contains((#[trigger] b[i]).0),
    ensures
        headers_beyond(a + b, keys) == b,
{
    let keep = |header: HeaderModel| !keys.contains(header.0);
    reveal(headers_beyond);
    lemma_filter_none(a, keep);
    lemma_filter_all(b, keep);
    Seq::filter_distributes_over_add(a, b, keep);
    assert(a.filter(keep) + b.filter(keep) =~= b);
}

proof fn lemma_filter_none(s: Seq<HeaderModel>, keep: spec_fn(HeaderModel) -> bool)
    requires
        forall|i: int| 0 <= i < s.len() ==> !keep(#[trigger] s[i]),
    ensures
        s.filter(keep) =~= Seq::empty(),
    decreases s.len(),
{
    reveal(Seq::filter);
    if s.len() > 0 {
        lemma_filter_none(s.drop_last(), keep);
    }
}

proof fn lemma_filter_all(s: Seq<HeaderModel>, keep: spec_fn(HeaderModel) -> bool)
    requires
        forall|i: int| 0 <= i < s.len() ==> keep(#[trigger] s[i]),
    ensures
        s.filter(keep) =~= s,
    decreases s.len(),
{
    reveal(Seq::filter);
    if s.len() > 0 {
        lemma_filter_all(s.drop_last(), keep);
        assert(s.drop_last().push(s.last()) =~= s);
    }
}

/// No extra header has a key that the content accounts for.
pub open spec fn extras_apart(extra: Seq<HeaderModel>, keys: Seq<Seq<char>>) -> bool {
    forall|i: int| 0 <= i < extra.len() ==> !keys.contains((#[trigger] extra[i]).0)
}

/// The extra headers of a message that arrive as they were sent: they have keys, none of which
/// the content accounts for, and announce no length of a body but 0.
pub open spec fn extras_survive(extra: Seq<HeaderModel>, keys: Seq<Seq<char>>) -> bool {
    &&& keys_present(extra)
    &&& extras_apart(extra, keys)
    &&& content_length(extra) matches Some(length) ==> length == 0
}

/// No header is found under a key that none has.
proof fn lemma_header_value_absent(headers: Seq<HeaderModel>, key: Seq<char>)
    requires
        forall|i: int| 0 <= i < headers.len() ==> (#[trigger] headers[i]).0 != key,
    ensures
        header_value(headers, key) is None,
    decreases headers.len(),
{
    if headers.len() > 0 {
        let rest = headers.skip(1);
        assert forall|i: int| 0 <= i < rest.len() implies (#[trigger] rest[i]).0 != key by {
            assert(rest[i] == headers[i + 1]);
        }
        lemma_header_value_absent(rest, key);
        assert(headers[0].0 != key);
    }
}

/// The header that announces the length of the body is found under no other key.
pub proof fn lemma_received_value(frame: FrameModel, key: Seq<char>)
    requires
        key != "content-length"@,
    ensures
        header_value(received(frame).headers, key) == header_value(frame.headers, key),
{
    if let Some(body) = frame.body {
        let header = content_length_header(body.len());
        assert(received(frame).headers =~= frame.headers + seq![header]);
        lemma_header_value_add(frame.headers, seq![header], key);
        lemma_header_value_absent(seq![header], key);
    }
}

/// A frame arrives with the length of its body, unless its own headers announce another.
proof fn lemma_received_length(frame: FrameModel)
    requires
        header_value(frame.headers, "content-length"@) is None,
        frame.body matches Some(body) && body.len() <= usize::MAX,
    ensures
        content_length(received(frame).headers) == Some(frame.body->0.len() as int),
{
    let n = frame.body->0.len();
    let header = content_length_header(n);
    assert(received(frame).headers =~= frame.headers + seq![header]);
    lemma_header_value_add(frame.headers, seq![header], header.0);
    assert(header_value(seq![header], header.0) == Some(header.1));
    lemma_decimal_text(n);
    lemma_read_decimal(n, usize::MAX as int);
}

/// The header that announces the length of the body is not among the extra ones.
pub proof fn lemma_received_beyond(frame: FrameModel, keys: Seq<Seq<char>>)
    requires
        frame.body is Some ==> keys.contains("content-length"@),
    ensures
        headers_beyond(received(frame).headers, keys) == headers_beyond(frame.headers, keys),
{
    if let Some(body) = frame.body {
        let header = content_length_header(body.len());
        let keep = |h: HeaderModel| !keys.contains(h.0);
        reveal(headers_beyond);
        assert(received(frame).headers =~= frame.headers + seq![header]);
        Seq::filter_distributes_over_add(frame.headers, seq![header], keep);
        lemma_filter_none(seq![header], keep);
        assert(headers_beyond(received(frame).headers, keys) =~= headers_beyond(
            frame.headers,
            keys,
        ));
    }
}

/// The headers of fields have keys, all among `keys`, if the fields have.
proof fn lemma_present_within(fields: Fields, keys: Seq<Seq<char>>)
    requires
        fields_distinct(fields),
        forall|i: int| 0 <= i < fields.len() ==> keys.contains((#[trigger] fields[i]).0),
    ensures
        keys_present(present(fields)),
        forall|i: int|
            0 <= i < present(fields).len() ==> keys.contains((#[trigger] present(fields)[i]).0),
{
    let own = present(fields);
    lemma_present_keys(fields);
    assert forall|i: int| 0 <= i < own.len() implies keys.contains((#[trigger] own[i]).0)
        && own[i].0.len() > 0 by {
        assert(is_field(fields, own[i].0));
        let j = choose|j: int| 0 <= j < fields.len() && (#[trigger] fields[j]).0 == own[i].0;
        assert(keys.contains(fields[j].0));
    }
}

proof fn lemma_keys_present_add(a: Seq<HeaderModel>, b: Seq<HeaderModel>)
    requires
        keys_present(a),
        keys_present(b),
    ensures
        keys_present(a + b),
{
    assert forall|i: int| 0 <= i < (a + b).len() implies (#[trigger] (a + b)[i]).0.len() > 0 by {
        if i < a.len() {
            assert((a + b)[i] == a[i]);
        } else {
            assert((a + b)[i] == b[i - a.len()]);
        }
    }
}

/// No extra header is found under a key that the content accounts for.
proof fn lemma_extra_value(extra: Seq<HeaderModel>, keys: Seq<Seq<char>>, key: Seq<char>)
    requires
        extras_apart(extra, keys),
        keys.contains(key),
    ensures
        header_value(extra, key) is None,
{
    lemma_header_value_absent(extra, key);
}

/// A message's frame can be read back, and arrives with the body that it was sent with.
pub proof fn lemma_frame_survives(
    command: Seq<char>,
    fields: Fields,
    body: Option<Seq<u8>>,
    extra: Seq<HeaderModel>,
    keys: Seq<Seq<char>>,
)
    requires
        is_command(command),
        fields_within(fields, keys),
        extras_survive(extra, keys),
        body matches Some(bytes) ==> keys.contains("content-length"@) && bytes.len() <= usize::MAX,
    ensures
        is_readable(frame_of(command, fields, body, extra)),
        keys.contains("content-length"@) ==> received(
            frame_of(command, fields, body, extra),
        ).body == body,
{
    let frame = frame_of(command, fields, body, extra);
    let own = present(fields);
    let length_key = "content-length"@;
    lemma_present_within(fields, keys);
    lemma_keys_present_add(own, extra);
    lemma_present_absent(fields, length_key);
    lemma_header_value_add(own, extra, length_key);
    assert(content_length(frame.headers) == content_length(extra));
    if keys.contains(length_key) {
        lemma_extra_value(extra, keys, length_key);
    }
    if body is Some {
        lemma_received_length(frame);
    }
}

/// A message's frame holds the fields and the extra headers of the message.
pub proof fn lemma_frame_fields(
    command: Seq<char>,
    fields: Fields,
    body: Option<Seq<u8>>,
    extra: Seq<HeaderModel>,
    keys: Seq<Seq<char>>,
)
    requires
        fields_within(fields, keys),
        extras_apart(extra, keys),
    ensures
        forall|i: int|
            0 <= i < fields.len() ==> header_value(
                frame_of(command, fields, body, extra).headers,
                (#[trigger] fields[i]).0,
            ) == fields[i].1,
        headers_beyond(frame_of(command, fields, body, extra).headers, keys) == extra,
{
    let own = present(fields);
    assert(headers_beyond(own + extra, keys) == extra) by {
        lemma_present_within(fields, keys);
        lemma_beyond(own, extra, keys);
    }
    assert forall|i: int| 0 <= i < fields.len() implies header_value(
        own + extra,
        (#[trigger] fields[i]).0,
    ) == fields[i].1 by {
        let key = fields[i].0;
        assert(keys.contains(key));
        lemma_present_field(fields, i);
        lemma_header_value_add(own, extra, key);
        lemma_extra_value(extra, keys, key);
    }
}

} // verus!
