//! GELF messages: strict validation of a parsed message and the log record
//! it becomes.
use vstd::prelude::*;
use vstd::string::*;
use crate::event::Timestamp;

verus! {

/// The only GELF version accepted.
pub const GELF_VERSION: &'static str = "1.1";

/// The JSON kind of an additional field's value.
#[derive(Debug, Clone, Copy, PartialEq, Eq, Structural)]
pub enum JsonKind {
    Null,
    Boolean,
    Number,
    Str,
    Array,
    Object,
}

/// An additional field's value: strings are kept as text, numbers as the
/// decimal text they were written with.
#[derive(Debug, Clone)]
pub enum GelfValue {
    Null,
    Bool(bool),
    Number(String),
    Str(String),
    Array,
    Object,
}

/// A GELF message as parsed from its JSON text. `timestamp` holds whole
/// seconds since the epoch; `line` holds the decimal text of the number.
#[derive(Debug, Clone)]
pub struct GelfMessage {
    pub version: String,
    pub host: String,
    pub short_message: String,
    pub full_message: Option<String>,
    pub timestamp: Option<i64>,
    pub level: Option<u8>,
    pub facility: Option<String>,
    pub line: Option<String>,
    pub file: Option<String>,
    pub additional_fields: Vec<(String, GelfValue)>,
}

/// Why a message was refused; `index` is the position of the offending
/// additional field.
#[derive(Debug, Clone, Copy, PartialEq, Eq, Structural)]
pub enum GelfError {
    VersionMismatch,
    NotPrefixed { index: usize },
    InvalidCharacters { index: usize },
    InvalidValueType { index: usize, kind: JsonKind },
}

/// A value of the resulting log record.
#[derive(Debug, Clone)]
pub enum FieldValue {
    Text(String),
    Integer(u64),
    Number(String),
    Time(Timestamp),
}

/// The mathematical value of a `FieldValue`.
pub enum FieldSpec {
    Text(Seq<char>),
    Integer(u64),
    Number(Seq<char>),
    Time(Timestamp),
}

pub open spec fn field_spec(v: FieldValue) -> FieldSpec {
    match v {
        FieldValue::Text(s) => FieldSpec::Text(s@),
        FieldValue::Integer(n) => FieldSpec::Integer(n),
        FieldValue::Number(s) => FieldSpec::Number(s@),
        FieldValue::Time(t) => FieldSpec::Time(t),
    }
}

pub open spec fn record_view(fields: Seq<(String, FieldValue)>) -> Seq<(Seq<char>, FieldSpec)> {
    Seq::new(fields.len(), |i: int| (fields[i].0@, field_spec(fields[i].1)))
}

/// Letters and digits (ASCII), underscore, dash and dot.
pub open spec fn is_field_char(c: char) -> bool {
    ('a' <= c && c <= 'z') || ('A' <= c && c <= 'Z') || ('0' <= c && c <= '9') || c == '_' || c == '-' || c == '.'
}

pub open spec fn kind_of(v: GelfValue) -> JsonKind {
    match v {
        GelfValue::Null => JsonKind::Null,
        GelfValue::Bool(_) => JsonKind::Boolean,
        GelfValue::Number(_) => JsonKind::Number,
        GelfValue::Str(_) => JsonKind::Str,
        GelfValue::Array => JsonKind::Array,
        GelfValue::Object => JsonKind::Object,
    }
}

/// What one additional field becomes: `Ok(None)` for the dropped `_id`,
/// `Ok(Some(..))` for a kept field, an error for an invalid one.
pub open spec fn additional_spec(key: Seq<char>, v: GelfValue, index: usize) -> Result<Option<(Seq<char>, FieldSpec)>, GelfError> {
    if key == "_id"@ {
        Ok(None)
    } else if key.len() == 0 || key[0] != '_' {
        Err(GelfError::NotPrefixed { index })
    } else if !(forall|i: int| 0 <= i < key.len() ==> is_field_char(#[trigger] key[i])) {
        Err(GelfError::InvalidCharacters { index })
    } else {
        match v {
            GelfValue::Str(s) => Ok(Some((key, FieldSpec::Text(s@)))),
            GelfValue::Number(s) => Ok(Some((key, FieldSpec::Number(s@)))),
            _ => Err(GelfError::InvalidValueType { index, kind: kind_of(v) }),
        }
    }
}

/// The additional fields of a message, in order, or the first error.
pub open spec fn additional_all(fs: Seq<(String, GelfValue)>) -> Result<Seq<(Seq<char>, FieldSpec)>, GelfError>
    decreases fs.len(),
{
    if fs.len() == 0 {
        Ok(Seq::empty())
    } else {
        match additional_all(fs.drop_last()) {
            Err(e) => Err(e),
            Ok(pre) => match additional_spec(fs.last().0@, fs.last().1, (fs.len() - 1) as usize) {
                Err(e) => Err(e),
                Ok(None) => Ok(pre),
                Ok(Some(f)) => Ok(pre.push(f)),
            },
        }
    }
}

pub open spec fn opt_text(key: Seq<char>, v: Option<String>) -> Seq<(Seq<char>, FieldSpec)> {
    match v {
        Some(s) => seq![(key, FieldSpec::Text(s@))],
        None => Seq::empty(),
    }
}

/// The fields every valid message yields, before its additional fields.
pub open spec fn base_fields(m: GelfMessage, now: Timestamp) -> Seq<(Seq<char>, FieldSpec)> {
    seq![
        ("message"@, FieldSpec::Text(m.short_message@)),
        ("version"@, FieldSpec::Text(m.version@)),
        ("host"@, FieldSpec::Text(m.host@)),
    ] + opt_text("full_message"@, m.full_message) + seq![
        ("timestamp"@, FieldSpec::Time(
            match m.timestamp {
                Some(s) => Timestamp { secs: s, nanos: 0 },
                None => now,
            },
        )),
    ] + match m.level {
        Some(l) => seq![("level"@, FieldSpec::Integer(l as u64))],
        None => Seq::empty(),
    } + opt_text("facility"@, m.facility) + match m.line {
        Some(s) => seq![("line"@, FieldSpec::Number(s@))],
        None => Seq::empty(),
    } + opt_text("file"@, m.file)
}

/// The log record of a message, or why it is refused.
pub open spec fn gelf_record(m: GelfMessage, now: Timestamp) -> Result<Seq<(Seq<char>, FieldSpec)>, GelfError> {
    if m.version@ != GELF_VERSION@ {
        Err(GelfError::VersionMismatch)
    } else {
        match additional_all(m.additional_fields@) {
            Err(e) => Err(e),
            Ok(extra) => Ok(base_fields(m, now) + extra),
        }
    }
}

/// Builds a `GelfDeserializer`.
#[derive(Debug, Clone, Copy, PartialEq, Eq, Structural)]
pub struct GelfDeserializerConfig;

/// Turns parsed GELF messages into log records.
#[derive(Debug, Clone, Copy, PartialEq, Eq, Structural)]
pub struct GelfDeserializer;

/// The kind of event a decoder produces.
#[derive(Debug, Clone, Copy, PartialEq, Eq, Structural)]
pub enum DataType {
    Log,
    Metric,
    Trace,
}

impl GelfDeserializerConfig {
    /// Return the type of event built by this deserializer.
    pub fn output_type(&self) -> (r: DataType)
        ensures
            r == DataType::Log,
    {
        DataType::Log
    }

    /// Build the `GelfDeserializer` from this configuration.
    pub fn build(&self) -> (r: GelfDeserializer)
        ensures
            r == GelfDeserializer,
    {
        GelfDeserializer::new()
    }
}

fn key_chars_ok(key: &String) -> (r: bool)
    ensures
        r == forall|i: int| 0 <= i < key@.len() ==> is_field_char(#[trigger] key@[i]),
{
    let s = key.as_str();
    let n = s.unicode_len();
    let mut i: usize = 0;
    while i < n
        invariant
            i <= n,
            n == key@.len(),
            s@ == key@,
            forall|j: int| 0 <= j < i ==> is_field_char(#[trigger] key@[j]),
        decreases n - i,
    {
        let c = s.get_char(i);
        if !(('a' <= c && c <= 'z') || ('A' <= c && c <= 'Z') || ('0' <= c && c <= '9') || c == '_' || c == '-' || c == '.') {
            return false;
        }
        i = i + 1;
    }
    true
}

fn text(s: &'static str) -> (r: String)
    ensures
        r@ == s@,
{
    String::from_str(s)
}

fn push_text(out: &mut Vec<(String, FieldValue)>, key: &'static str, v: &Option<String>)
    ensures
        record_view(final(out)@) == record_view(old(out)@) + opt_text(key@, *v),
{
    let ghost o = out@;
    match v {
        Some(s) => {
            out.push((text(key), FieldValue::Text(s.clone())));
        },
        None => {},
    }
    assert(record_view(out@) =~= record_view(o) + opt_text(key@, *v));
}

impl GelfDeserializer {
    /// Create a new GelfDeserializer
    pub fn new() -> (r: GelfDeserializer)
        ensures
            r == GelfDeserializer,
    {
        GelfDeserializer
    }

    /// What one additional field becomes; see `additional_spec`.
    pub fn additional_field(&self, key: &String, v: &GelfValue, index: usize) -> (r: Result<Option<(String, FieldValue)>, GelfError>)
        ensures
            match (r, additional_spec(key@, *v, index)) {
                (Ok(None), Ok(None)) => true,
                (Ok(Some((k, x))), Ok(Some(f))) => (k@, field_spec(x)) == f,
                (Err(e), Err(f)) => e == f,
                _ => false,
            },
    {
        proof { reveal_strlit("_id"); }
        let s = key.as_str();
        let n = s.unicode_len();
        if n == 3 && s.get_char(0) == '_' && s.get_char(1) == 'i' && s.get_char(2) == 'd' {
            assert(key@ =~= "_id"@);
            return Ok(None);
        }
        assert(key@ != "_id"@);
        if n == 0 || s.get_char(0) != '_' {
            return Err(GelfError::NotPrefixed { index });
        }
        if !key_chars_ok(key) {
            return Err(GelfError::InvalidCharacters { index });
        }
        match v {
            GelfValue::Str(t) => Ok(Some((key.clone(), FieldValue::Text(t.clone())))),
            GelfValue::Number(t) => Ok(Some((key.clone(), FieldValue::Number(t.clone())))),
            GelfValue::Null => Err(GelfError::InvalidValueType { index, kind: JsonKind::Null }),
            GelfValue::Bool(_) => Err(GelfError::InvalidValueType { index, kind: JsonKind::Boolean }),
            GelfValue::Array => Err(GelfError::InvalidValueType { index, kind: JsonKind::Array }),
            GelfValue::Object => Err(GelfError::InvalidValueType { index, kind: JsonKind::Object }),
        }
    }

    /// Builds the log record of a parsed message, strictly by the GELF
    /// standard: the version must be 1.1, additional field names must start
    /// with `_` and use only letters, digits, `_`, `-` and `.`, their values
    /// must be strings or numbers, and `_id` is dropped. A message without a
    /// timestamp gets `now`.
    pub fn message_to_event(&self, parsed: &GelfMessage, now: Timestamp) -> (r: Result<Vec<(String, FieldValue)>, GelfError>)
        ensures
            match (r, gelf_record(*parsed, now)) {
                (Ok(fields), Ok(v)) => record_view(fields@) == v,
                (Err(e), Err(f)) => e == f,
                _ => false,
            },
    {
        if parsed.version != text(GELF_VERSION) {
            return Err(GelfError::VersionMismatch);
        }
        let mut out: Vec<(String, FieldValue)> = Vec::new();
        out.push((text("message"), FieldValue::Text(parsed.short_message.clone())));
        out.push((text("version"), FieldValue::Text(parsed.version.clone())));
        out.push((text("host"), FieldValue::Text(parsed.host.clone())));
        push_text(&mut out, "full_message", &parsed.full_message);
        let ts = match parsed.timestamp {
            Some(s) => Timestamp { secs: s, nanos: 0 },
            None => now,
        };
        let ghost o = out@;
        out.push((text("timestamp"), FieldValue::Time(ts)));
        match parsed.level {
            Some(l) => out.push((text("level"), FieldValue::Integer(l as u64))),
            None => {},
        }
        assert(record_view(out@) =~= record_view(o) + seq![("timestamp"@, FieldSpec::Time(ts))] + match parsed.level {
            Some(l) => seq![("level"@, FieldSpec::Integer(l as u64))],
            None => Seq::empty(),
        });
        push_text(&mut out, "facility", &parsed.facility);
        let ghost o2 = out@;
        match &parsed.line {
            Some(s) => out.push((text("line"), FieldValue::Number(s.clone()))),
            None => {},
        }
        assert(record_view(out@) =~= record_view(o2) + match parsed.line {
            Some(s) => seq![("line"@, FieldSpec::Number(s@))],
            None => Seq::<(Seq<char>, FieldSpec)>::empty(),
        });
        push_text(&mut out, "file", &parsed.file);
        let ghost base = out@;
        assert(record_view(base) =~= base_fields(*parsed, now));
        let fs = &parsed.additional_fields;
        let n = fs.len();
        let mut i: usize = 0;
        while i < n
            invariant
                i <= n,
                n == fs@.len(),
                fs@ == parsed.additional_fields@,
                parsed.version@ == GELF_VERSION@,
                additional_all(fs@.subrange(0, i as int)) matches Ok(extra) && record_view(out@) == record_view(base) + extra,
            decreases n - i,
        {
            let ghost pre = out@;
            assert(fs@.subrange(0, i + 1).drop_last() =~= fs@.subrange(0, i as int));
            assert(fs@.subrange(0, i + 1).last() == fs@[i as int]);
            match self.additional_field(&fs[i].0, &fs[i].1, i) {
                Err(e) => {
                    assert(additional_all(fs@.subrange(0, i + 1)) == Err::<Seq<(Seq<char>, FieldSpec)>, GelfError>(e));
                    proof { lemma_additional_err_extends(fs@, i as int + 1); }

                    return Err(e);
                },
                Ok(None) => {},
                Ok(Some(f)) => {
                    out.push(f);
                    assert(record_view(out@) =~= record_view(pre).push((out@.last().0@, field_spec(out@.last().1))));
                },
            }
            i = i + 1;
        }
        assert(fs@.subrange(0, n as int) =~= fs@);
        Ok(out)
    }
}

proof fn lemma_additional_err_extends(fs: Seq<(String, GelfValue)>, k: int)
    requires
        0 <= k <= fs.len(),
        additional_all(fs.subrange(0, k)) is Err,
    ensures
        additional_all(fs) == additional_all(fs.subrange(0, k)),
    decreases fs.len() - k,
{
    if k < fs.len() {
        assert(fs.subrange(0, k + 1).drop_last() =~= fs.subrange(0, k));
        lemma_additional_err_extends(fs, k + 1);
    } else {
        assert(fs.subrange(0, k) =~= fs);
    }
}

} // verus!
