//! Records and where they come from.
//!
//! A record is a JSON object as serde_json decodes it. The verifier sees
//! nothing inside serde_json's types: what this crate relies on is named
//! here, and stated in the contracts of the few functions that call
//! serde_json. Those contracts are believed, not proved.

use crate::error::RunError;
use vstd::prelude::*;

verus! {

/// One input record: a JSON object, from field name to value.
///
/// A name occurs once. Where the text of an object gives a name twice, the
/// value given last is the one that the record holds.
pub type Record = serde_json::Map<String, serde_json::Value>;

/// A stream of records that serde_json decodes from bytes held in memory.
pub type RecordStream<'a> = serde_json::StreamDeserializer<
    'a,
    serde_json::de::SliceRead<'a>,
    Record,
>;

/// serde_json's map.
#[verifier::external_type_specification]
#[verifier::external_body]
#[verifier::reject_recursive_types(K)]
#[verifier::reject_recursive_types(V)]
pub struct ExJsonMap<K, V>(serde_json::Map<K, V>);

/// serde_json's value of any kind.
#[verifier::external_type_specification]
#[verifier::external_body]
pub struct ExJsonValue(serde_json::Value);

/// serde_json's error.
#[verifier::external_type_specification]
#[verifier::external_body]
pub struct ExJsonError(serde_json::Error);

/// serde_json's iterator over the values of a text.
#[verifier::external_type_specification]
#[verifier::external_body]
#[verifier::reject_recursive_types(R)]
#[verifier::reject_recursive_types(T)]
pub struct ExJsonStream<'de, R, T>(serde_json::StreamDeserializer<'de, R, T>);

/// serde_json's reader of a text held in memory.
#[verifier::external_type_specification]
#[verifier::external_body]
pub struct ExSliceRead<'a>(serde_json::de::SliceRead<'a>);

/// The fields of a record as pairs of name and value, in the order in which
/// the record hands them out.
pub uninterp spec fn record_entries(record: Record) -> Seq<(Seq<char>, serde_json::Value)>;

/// The compact JSON text of a value.
pub uninterp spec fn json_text(value: serde_json::Value) -> Seq<char>;

/// The characters of a JSON string value; `None` for a value of any other kind.
pub uninterp spec fn json_string(value: serde_json::Value) -> Option<Seq<char>>;

/// The message of a decoding error.
pub uninterp spec fn decode_error_text(error: serde_json::Error) -> Seq<char>;

/// What decoding `input` yields, value by value: the result of each call of
/// `next` on a stream over `input`, up to the call that reports the end.
pub uninterp spec fn decoded_items(input: Seq<u8>) -> Seq<Result<Record, serde_json::Error>>;

/// What a stream has yet to yield, value by value: the result of each call
/// of `next` from here on, up to the call that reports the end.
pub uninterp spec fn stream_items(stream: RecordStream<'_>) -> Seq<
    Result<Record, serde_json::Error>,
>;

/// A stream of records over `input`:
/// `serde_json::Deserializer::from_slice(input).into_iter()`.
///
/// The contract names what the stream will yield. The stream reads bytes
/// held in memory, so that depends on nothing but the bytes.
#[verifier::external_body]
fn open_stream<'a>(input: &'a [u8]) -> (stream: RecordStream<'a>)
    ensures
        stream_items(stream) == decoded_items(input@),
{
    serde_json::Deserializer::from_slice(input).into_iter::<Record>()
}

/// The next value of the stream: `serde_json::StreamDeserializer::next`.
///
/// The contract says that it is the first of what the stream had yet to
/// yield, that the rest is still to come, and that `None` comes where
/// nothing was left, and leaves nothing. (Every value takes at least one
/// byte of the input, so the end does come.)
#[verifier::external_body]
fn stream_next<'a>(stream: &mut RecordStream<'a>) -> (item: Option<
    Result<Record, serde_json::Error>,
>)
    ensures
        match item {
            Some(item) => stream_items(*old(stream)).len() > 0 && item == stream_items(
                *old(stream),
            )[0] && stream_items(*final(stream)) == stream_items(*old(stream)).skip(1),
            None => stream_items(*old(stream)).len() == 0 && stream_items(*final(stream)).len()
                == 0,
        },
{
    stream.next()
}

/// The message of a decoding error: `serde_json::Error`'s `to_string`.
#[verifier::external_body]
fn decode_error_message(error: &serde_json::Error) -> (message: String)
    ensures
        message@ == decode_error_text(*error),
{
    error.to_string()
}

/// The compact JSON text of `value`: `serde_json::Value`'s `to_string`.
#[verifier::external_body]
pub(crate) fn value_text(value: &serde_json::Value) -> (text: String)
    ensures
        text@ == json_text(*value),
{
    value.to_string()
}

/// Takes the string out of a `serde_json::Value::String`, and hands any other
/// value back as it came.
#[verifier::external_body]
fn string_content(value: serde_json::Value) -> (content: Result<String, serde_json::Value>)
    ensures
        match content {
            Ok(s) => json_string(value) == Some(s@),
            Err(other) => json_string(value) is None && other == value,
        },
{
    match value {
        serde_json::Value::String(s) => Ok(s),
        other => Err(other),
    }
}

/// The field names of `record` in its own order: `serde_json::Map::keys`,
/// each name copied.
///
/// Beside naming the result, the contract says that no name comes twice: a
/// map holds each key once.
#[verifier::external_body]
pub(crate) fn field_names(record: &Record) -> (names: Vec<String>)
    ensures
        names.deep_view() == entry_keys(record_entries(*record)),
        names.deep_view().no_duplicates(),
{
    record.keys().cloned().collect()
}

/// Removes the field called `key`: `serde_json::Map::remove`.
///
/// The contract says that the value of that field comes back, if there is
/// one, that the field is gone from the record, and that every other name
/// has the value it had. It says nothing of the order of the fields that
/// stay.
#[verifier::external_body]
pub(crate) fn take_field(record: &mut Record, key: &str) -> (value: Option<serde_json::Value>)
    ensures
        value == lookup(record_entries(*old(record)), key@),
        forall|name: Seq<char>| #[trigger]
            lookup(record_entries(*final(record)), name) == if name == key@ {
                None
            } else {
                lookup(record_entries(*old(record)), name)
            },
{
    record.remove(key)
}

/// The names of `entries`, in order.
pub open spec fn entry_keys<V>(entries: Seq<(Seq<char>, V)>) -> Seq<Seq<char>> {
    Seq::new(entries.len(), |i: int| entries[i].0)
}

/// The value of the first of `entries` that is called `key`.
pub open spec fn lookup<V>(entries: Seq<(Seq<char>, V)>, key: Seq<char>) -> Option<V>
    decreases entries.len(),
{
    if entries.len() == 0 {
        None
    } else if entries[0].0 == key {
        Some(entries[0].1)
    } else {
        lookup(entries.skip(1), key)
    }
}

/// What goes into the output for `value`: a string's own characters, and the
/// JSON text of anything else.
pub open spec fn cell_text(value: serde_json::Value) -> Seq<char> {
    match json_string(value) {
        Some(s) => s,
        None => json_text(value),
    }
}

/// Renders a value for its cell: a string as it is, without quotes or
/// escapes, and any other value as compact JSON.
pub fn json_value_to_string(value: serde_json::Value) -> (text: String)
    ensures
        text@ == cell_text(value),
{
    match string_content(value) {
        Ok(s) => s,
        Err(other) => value_text(&other),
    }
}

/// The records at the front of `items`: those before the first error.
pub open spec fn leading_records(items: Seq<Result<Record, serde_json::Error>>) -> Seq<Record>
    decreases items.len(),
{
    if items.len() == 0 {
        Seq::empty()
    } else {
        match items[0] {
            Ok(record) => seq![record] + leading_records(items.skip(1)),
            Err(_) => Seq::empty(),
        }
    }
}

/// The message of the first error in `items`, if there is one.
pub open spec fn first_failure(items: Seq<Result<Record, serde_json::Error>>) -> Option<
    Seq<char>,
>
    decreases items.len(),
{
    if items.len() == 0 {
        None
    } else {
        match items[0] {
            Ok(_) => first_failure(items.skip(1)),
            Err(error) => Some(decode_error_text(error)),
        }
    }
}

/// The records that decoding `input` yields, in order, up to the end of the
/// input or to the first malformed value.
pub open spec fn stream_records(input: Seq<u8>) -> Seq<Record> {
    leading_records(decoded_items(input))
}

/// The message of the malformed value that ends `input`'s records, if one
/// does.
pub open spec fn stream_failure(input: Seq<u8>) -> Option<Seq<char>> {
    first_failure(decoded_items(input))
}

/// A source of records: a cursor over JSON text held in memory.
///
/// The text is a run of JSON objects with any whitespace between them. A
/// value that is malformed, or is no object, ends the run: the reader reports
/// it once and is then exhausted, since nothing tells where the next value
/// would begin. The message of the error gives the line and column in the
/// text.
pub struct JsonReader<'a> {
    stream: RecordStream<'a>,
    failed: bool,
}

impl<'a> JsonReader<'a> {
    /// The records that `next` has yet to hand out.
    pub closed spec fn pending(self) -> Seq<Record> {
        if self.failed {
            Seq::empty()
        } else {
            leading_records(stream_items(self.stream))
        }
    }

    /// The error that `next` will report after the pending records, if any.
    pub closed spec fn failure(self) -> Option<Seq<char>> {
        if self.failed {
            None
        } else {
            first_failure(stream_items(self.stream))
        }
    }

    /// A reader at the start of `input`.
    pub fn new(input: &'a [u8]) -> (reader: JsonReader<'a>)
        ensures
            reader.pending() == stream_records(input@),
            reader.failure() == stream_failure(input@),
    {
        JsonReader { stream: open_stream(input), failed: false }
    }

    /// Decodes the next record.
    ///
    /// Hands out the pending records one by one, then the failure if there
    /// is one, then `None`.
    pub fn next(&mut self) -> (item: Option<Result<Record, RunError>>)
        ensures
            match item {
                Some(Ok(record)) => {
                    &&& old(self).pending().len() > 0
                    &&& record == old(self).pending()[0]
                    &&& final(self).pending() == old(self).pending().skip(1)
                    &&& final(self).failure() == old(self).failure()
                },
                Some(Err(error)) => {
                    &&& old(self).pending().len() == 0
                    &&& old(self).failure() == Some(error@)
                    &&& final(self).pending().len() == 0
                    &&& final(self).failure() is None
                },
                None => {
                    &&& old(self).pending().len() == 0
                    &&& old(self).failure() is None
                    &&& final(self).pending().len() == 0
                    &&& final(self).failure() is None
                },
            },
    {
        if self.failed {
            return None;
        }
        let ghost items = stream_items(self.stream);
        match stream_next(&mut self.stream) {
            None => None,
            Some(Ok(record)) => {
                Some(Ok(record))
            },
            Some(Err(error)) => {
                self.failed = true;
                Some(Err(RunError::new(decode_error_message(&error))))
            },
        }
    }
}

} // verus!
