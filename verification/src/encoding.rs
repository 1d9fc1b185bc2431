//! Encoding strategies: how an event becomes a payload fragment and which
//! partition it belongs to.

use crate::event::{lookup, project, renamed, EventModel, FieldModel, FieldValue, LogEvent, ValueModel};
use crate::event::{distinct_names, lemma_project_distinct, lemma_renamed_distinct, names_of};
use crate::json::{record_bytes, record_json};
use crate::text::{append_bytes, boolean_bytes, integer_bytes, push_boolean_bytes, push_integer_bytes};
use vstd::prelude::*;

verus! {

/// The wire encoding, chosen once when the strategy is built.
#[derive(Clone, Copy, Debug, PartialEq, Eq)]
pub enum Encoding {
    /// Each event is a JSON record; a batch is a JSON array.
    Structured,
    /// Each event is a line of text; a batch is the lines one after another.
    Flat,
}

/// Which fields of an event are sent.
#[derive(Clone, Debug, PartialEq, Eq)]
pub struct FieldRules {
    /// Where set, only fields with these names are kept.
    pub only_fields: Option<Vec<String>>,
    /// Where set, fields with these names are dropped.
    pub except_fields: Option<Vec<String>>,
}

/// The names under which events carry their message, time stamp and host.
#[derive(Clone, Debug, PartialEq, Eq)]
pub struct LogSchema {
    pub message_key: String,
    pub timestamp_key: String,
    pub host_key: String,
}

/// A payload unit together with the partition it belongs to.
#[derive(Clone, Debug, PartialEq, Eq)]
pub struct EncodedFragment {
    pub key: String,
    pub payload: Vec<u8>,
    /// The acknowledgement token of the event; zero until the engine has
    /// admitted the event.
    pub token: u64,
}

/// Mathematical model of an [`EncodedFragment`].
pub struct FragmentModel {
    pub key: Seq<char>,
    pub payload: Seq<u8>,
    pub token: u64,
}

impl View for EncodedFragment {
    type V = FragmentModel;

    open spec fn view(&self) -> FragmentModel {
        FragmentModel { key: self.key@, payload: self.payload@, token: self.token }
    }
}

/// An encoding with its field rules, its schema and the API key used for
/// events that carry none.
#[derive(Clone, Debug, PartialEq, Eq)]
pub struct EncodingStrategy {
    pub kind: Encoding,
    pub default_key: String,
    pub rules: FieldRules,
    pub schema: LogSchema,
}

/// The text of a value in a flat line: a string as it is, an integer in
/// decimal, a boolean as `true` or `false`, null as nothing.
pub open spec fn flat_text(v: ValueModel) -> Seq<u8> {
    match v {
        ValueModel::Text(s) => vstd::utf8::encode_utf8(s),
        ValueModel::Integer(i) => integer_bytes(i),
        ValueModel::Boolean(b) => boolean_bytes(b),
        ValueModel::Null => Seq::empty(),
    }
}

/// The partition key of an event: its own API key, else `default_key`.
pub open spec fn partition_key(event: EventModel, default_key: Seq<char>) -> Seq<char> {
    match event.api_key {
        Some(k) => k,
        None => default_key,
    }
}

impl FieldRules {
    /// Rules that keep every field.
    pub fn none() -> (r: FieldRules)
        ensures
            r.only_fields is None,
            r.except_fields is None,
    {
        FieldRules { only_fields: None, except_fields: None }
    }

    /// The fields that the rules let through, in their order.
    pub open spec fn applied(&self, fields: Seq<FieldModel>) -> Seq<FieldModel> {
        let kept = match self.only_fields {
            Some(names) => project(fields, names_of(names@), true),
            None => fields,
        };
        match self.except_fields {
            Some(names) => project(kept, names_of(names@), false),
            None => kept,
        }
    }

    /// Drops from `event` the fields that the rules do not let through.
    pub fn apply(&self, event: &mut LogEvent)
        ensures
            final(event)@.fields == self.applied(old(event)@.fields),
            final(event)@.api_key == old(event)@.api_key,
            old(event).wf() ==> final(event).wf(),
    {
        match &self.only_fields {
            Some(names) => {
                event.project(names, true);
            },
            None => {},
        }
        match &self.except_fields {
            Some(names) => {
                event.project(names, false);
            },
            None => {},
        }
    }
}

impl LogSchema {
    /// The usual names: `message`, `timestamp`, `host`.
    pub fn standard() -> (s: LogSchema)
        ensures
            s.message_key@ == "message"@,
            s.timestamp_key@ == "timestamp"@,
            s.host_key@ == "host"@,
    {
        LogSchema {
            message_key: "message".to_owned(),
            timestamp_key: "timestamp".to_owned(),
            host_key: "host".to_owned(),
        }
    }
}

/// Writes the text of a value as it stands in a flat line.
pub fn flat_bytes(value: &FieldValue) -> (out: Vec<u8>)
    ensures
        out@ == flat_text(value@),
{
    let mut out: Vec<u8> = Vec::new();
    match value {
        FieldValue::Text(s) => {
            append_bytes(&mut out, s.as_str().as_bytes());
        },
        FieldValue::Integer(i) => {
            push_integer_bytes(&mut out, *i);
        },
        FieldValue::Boolean(b) => {
            push_boolean_bytes(&mut out, *b);
        },
        FieldValue::Null => {},
    }
    assert(out@ =~= flat_text(value@));
    out
}

impl EncodingStrategy {
    /// A strategy with the standard schema and no field rules.
    pub fn new(kind: Encoding, default_key: String) -> (s: EncodingStrategy)
        ensures
            s.kind == kind,
            s.default_key == default_key,
            s.rules.only_fields is None,
            s.rules.except_fields is None,
            s.schema.message_key@ == "message"@,
            s.schema.timestamp_key@ == "timestamp"@,
            s.schema.host_key@ == "host"@,
    {
        EncodingStrategy { kind, default_key, rules: FieldRules::none(), schema: LogSchema::standard() }
    }

    /// The fields of a structured record: message, time stamp and host
    /// under the intake's names `message`, `date` and `host`, then the
    /// field rules.
    pub open spec fn structured_fields(&self, fields: Seq<FieldModel>) -> Seq<FieldModel> {
        let a = renamed(fields, self.schema.message_key@, "message"@);
        let b = renamed(a, self.schema.timestamp_key@, "date"@);
        let c = renamed(b, self.schema.host_key@, "host"@);
        self.rules.applied(c)
    }

    /// The text of a flat line, before its newline: the message field that
    /// the field rules let through, or nothing.
    pub open spec fn flat_line(&self, fields: Seq<FieldModel>) -> Seq<u8> {
        match lookup(self.rules.applied(fields), self.schema.message_key@) {
            Some(v) => flat_text(v),
            None => Seq::empty(),
        }
    }

    /// What `encode` makes of an event: a function of the strategy and the
    /// event alone.
    pub open spec fn encoded(&self, event: EventModel) -> Option<FragmentModel> {
        let key = partition_key(event, self.default_key@);
        match self.kind {
            Encoding::Structured => Some(
                FragmentModel {
                    key,
                    payload: record_json(self.structured_fields(event.fields)),
                    token: 0,
                },
            ),
            Encoding::Flat => {
                let line = self.flat_line(event.fields);
                if line.len() == 0 {
                    None
                } else {
                    Some(FragmentModel { key, payload: line.push(10u8), token: 0 })
                }
            },
        }
    }

    /// The fields of a structured record have distinct names, so that
    /// the record holds each member once.
    pub proof fn lemma_structured_distinct(&self, fields: Seq<FieldModel>)
        requires
            distinct_names(fields),
        ensures
            distinct_names(self.structured_fields(fields)),
    {
        let a = renamed(fields, self.schema.message_key@, "message"@);
        let b = renamed(a, self.schema.timestamp_key@, "date"@);
        let c = renamed(b, self.schema.host_key@, "host"@);
        lemma_renamed_distinct(fields, self.schema.message_key@, "message"@);
        lemma_renamed_distinct(a, self.schema.timestamp_key@, "date"@);
        lemma_renamed_distinct(b, self.schema.host_key@, "host"@);
        match self.rules.only_fields {
            Some(names) => {
                lemma_project_distinct(c, names_of(names@), true);
            },
            None => {},
        }
        match self.rules.except_fields {
            Some(names) => {
                let kept = match self.rules.only_fields {
                    Some(only) => project(c, names_of(only@), true),
                    None => c,
                };
                lemma_project_distinct(kept, names_of(names@), false);
            },
            None => {},
        }
    }

    /// Encodes one event. The partition key is the event's own API key, or
    /// the strategy's default. A structured event always encodes, and its
    /// record holds each member once; a flat event whose line would be
    /// empty is skipped. The event must be well formed: no two of its
    /// fields share a name.
    pub fn encode(&self, event: LogEvent) -> (r: Option<EncodedFragment>)
        requires
            event.wf(),
        ensures
            self.kind is Structured ==> distinct_names(self.structured_fields(event@.fields)),
            match r {
                Some(f) => self.encoded(event@) == Some(f@),
                None => self.encoded(event@) is None,
            },
    {
        proof {
            self.lemma_structured_distinct(event@.fields);
        }
        let mut ev = event;
        let key = match &ev.api_key {
            Some(k) => k.clone(),
            None => self.default_key.clone(),
        };
        match self.kind {
            Encoding::Structured => {
                ev.rename(self.schema.message_key.as_str(), "message");
                ev.rename(self.schema.timestamp_key.as_str(), "date");
                ev.rename(self.schema.host_key.as_str(), "host");
                self.rules.apply(&mut ev);
                let payload = record_bytes(&ev);
                Some(EncodedFragment { key, payload, token: 0 })
            },
            Encoding::Flat => {
                self.rules.apply(&mut ev);
                let mut line = match ev.get(self.schema.message_key.as_str()) {
                    Some(v) => flat_bytes(v),
                    None => Vec::new(),
                };
                if line.len() == 0 {
                    None
                } else {
                    line.push(10u8);
                    Some(EncodedFragment { key, payload: line, token: 0 })
                }
            },
        }
    }
}

} // verus!
