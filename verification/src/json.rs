//! JSON rendering of events: string literals come from `serde_json`, the
//! framing of records and arrays is written out here.

use crate::event::{Field, FieldModel, FieldValue, LogEvent, ValueModel};
use crate::text::{append_bytes, append_joined, boolean_bytes, byte_rows, integer_bytes, joined};
use crate::text::{push_boolean_bytes, push_integer_bytes};
use vstd::prelude::*;

verus! {

/// The JSON string literal that `serde_json` writes for a string: the
/// quoted and escaped text, in UTF-8.
pub uninterp spec fn json_string_text(s: Seq<char>) -> Seq<u8>;

/// `serde_json::to_vec` on a string slice. The result is the JSON string
/// literal of `s`. Serialising a string into a `Vec` has no failure path:
/// the writer is a `Vec` and a string slice always serialises.
#[verifier::external_body]
fn json_string(s: &str) -> (out: Vec<u8>)
    ensures
        out@ == json_string_text(s@),
{
    match serde_json::to_vec(s) {
        Ok(bytes) => bytes,
        Err(_) => Vec::new(),
    }
}

/// The JSON text of a value.
pub open spec fn value_json(v: ValueModel) -> Seq<u8> {
    match v {
        ValueModel::Text(s) => json_string_text(s),
        ValueModel::Integer(i) => integer_bytes(i),
        ValueModel::Boolean(b) => boolean_bytes(b),
        ValueModel::Null => seq![110u8, 117u8, 108u8, 108u8],
    }
}

/// The member of a JSON object that a name and a value make, both already
/// in JSON text: the name, a colon, the value.
pub open spec fn member_text(name: Seq<u8>, value: Seq<u8>) -> Seq<u8> {
    name + seq![58u8] + value
}

/// The JSON object members of a list of fields, in order.
pub open spec fn members_json(fields: Seq<FieldModel>) -> Seq<Seq<u8>> {
    Seq::new(fields.len(), |i: int| member_text(json_string_text(fields[i].name), value_json(fields[i].value)))
}

/// `items` between the bytes `open` and `close`, with commas between each
/// two neighbours.
pub open spec fn framed(open: u8, items: Seq<Seq<u8>>, close: u8) -> Seq<u8> {
    seq![open] + joined(items, seq![44u8]) + seq![close]
}

/// The JSON object of a list of fields.
pub open spec fn record_json(fields: Seq<FieldModel>) -> Seq<u8> {
    framed(123u8, members_json(fields), 125u8)
}

/// The JSON array whose elements are `items`, each already in JSON text.
pub open spec fn array_json(items: Seq<Seq<u8>>) -> Seq<u8> {
    framed(91u8, items, 93u8)
}

/// Writes `items` between `open` and `close`, separated by commas.
pub fn frame(open: u8, items: &Vec<Vec<u8>>, close: u8) -> (out: Vec<u8>)
    ensures
        out@ == framed(open, byte_rows(items@), close),
{
    let mut out: Vec<u8> = Vec::new();
    out.push(open);
    append_joined(&mut out, items, Some(44u8));
    out.push(close);
    assert(out@ =~= framed(open, byte_rows(items@), close));
    out
}

/// Writes a member of a JSON object from its name and value in JSON text.
pub fn member_bytes(name: &[u8], value: &[u8]) -> (out: Vec<u8>)
    ensures
        out@ == member_text(name@, value@),
{
    let mut out: Vec<u8> = Vec::new();
    append_bytes(&mut out, name);
    out.push(58u8);
    append_bytes(&mut out, value);
    assert(out@ =~= member_text(name@, value@));
    out
}

/// The JSON text of a value.
pub fn value_bytes(value: &FieldValue) -> (out: Vec<u8>)
    ensures
        out@ == value_json(value@),
{
    match value {
        FieldValue::Text(s) => json_string(s.as_str()),
        FieldValue::Integer(i) => {
            let mut out: Vec<u8> = Vec::new();
            push_integer_bytes(&mut out, *i);
            assert(out@ =~= integer_bytes(*i as int));
            out
        },
        FieldValue::Boolean(b) => {
            let mut out: Vec<u8> = Vec::new();
            push_boolean_bytes(&mut out, *b);
            assert(out@ =~= boolean_bytes(*b));
            out
        },
        FieldValue::Null => {
            let mut out: Vec<u8> = Vec::new();
            out.push(110u8);
            out.push(117u8);
            out.push(108u8);
            out.push(108u8);
            assert(out@ =~= value_json(value@));
            out
        },
    }
}

/// The JSON object member of a field.
pub fn field_bytes(field: &Field) -> (out: Vec<u8>)
    ensures
        out@ == member_text(json_string_text(field@.name), value_json(field@.value)),
{
    let name = json_string(field.name.as_str());
    let value = value_bytes(&field.value);
    member_bytes(name.as_slice(), value.as_slice())
}

/// The JSON object of a well-formed event's fields, in their order. No
/// two fields share a name, so the object holds each member once.
pub fn record_bytes(event: &LogEvent) -> (out: Vec<u8>)
    requires
        event.wf(),
    ensures
        out@ == record_json(event@.fields),
{
    let mut members: Vec<Vec<u8>> = Vec::new();
    let mut i: usize = 0;
    while i < event.fields.len()
        invariant
            i <= event.fields.len(),
            members.len() == i,
            byte_rows(members@) == members_json(event@.fields.subrange(0, i as int)),
        decreases event.fields.len() - i,
    {
        let ghost before = members@;
        let member = field_bytes(&event.fields[i]);
        members.push(member);
        proof {
            let short = event@.fields.subrange(0, i as int);
            let long = event@.fields.subrange(0, i + 1);
            assert forall|j: int| 0 <= j < i + 1 implies byte_rows(members@)[j] == members_json(
                long,
            )[j] by {
                if j < i {
                    assert(byte_rows(before)[j] == members_json(short)[j]);
                    assert(short[j] == long[j]);
                } else {
                    assert(long[j] == event.fields[i as int]@);
                }
            }
            assert(byte_rows(members@) =~= members_json(long));
        }
        i += 1;
    }
    assert(event@.fields.subrange(0, i as int) =~= event@.fields);
    frame(123u8, &members, 125u8)
}

} // verus!
