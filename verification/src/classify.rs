//! The record classifier: from a decoded JSON record to a typed record.
//!
//! A record of a known kind is a mapping with one entry, whose key names
//! the kind and whose value has that kind's fields. Any other mapping with
//! at least one entry is taken as a named event: its first key is the
//! event's name, the value under it the event's details.

use crate::json::{
    entry_views, field, into_entries, json_bool, json_entries, json_field, json_i64, json_str,
};
use crate::record::{
    AntithesisAssert, AntithesisSdk, AntithesisSetup, AssertType, AssertView, InputView, Location,
    LocationView, SDKInput, SdkView, SetupView,
};
use crate::text::same_text;
use serde_json::Value;
use vstd::prelude::*;

verus! {

/// Why a decoded record cannot be classified.
#[derive(Debug, Clone, Copy, PartialEq, Eq, Structural)]
pub enum ClassifyError {
    /// The record is not a mapping.
    NotAMapping,
    /// The record is a mapping without entries.
    EmptyMapping,
}

/// The string under `key` in `body`.
pub open spec fn str_field(body: Value, key: Seq<char>) -> Option<Seq<char>> {
    match json_field(body, key) {
        Some(v) => json_str(v),
        None => None,
    }
}

/// The boolean under `key` in `body`.
pub open spec fn bool_field(body: Value, key: Seq<char>) -> Option<bool> {
    match json_field(body, key) {
        Some(v) => json_bool(v),
        None => None,
    }
}

/// `n` as an `i32`, where an `i32` can hold it.
pub open spec fn narrowed(n: i64) -> Option<i32> {
    if i32::MIN <= n <= i32::MAX {
        Some(n as i32)
    } else {
        None
    }
}

/// The integer under `key` in `body`, where an `i32` can hold it.
pub open spec fn i32_field(body: Value, key: Seq<char>) -> Option<i32> {
    match json_field(body, key) {
        Some(v) => match json_i64(v) {
            Some(n) => narrowed(n),
            None => None,
        },
        None => None,
    }
}

/// The kind of assertion under `key` in `body`.
pub open spec fn assert_type_field(body: Value, key: Seq<char>) -> Option<AssertType> {
    match str_field(body, key) {
        Some(name) => AssertType::named(name),
        None => None,
    }
}

/// The location that `body` holds, where it has all of a location's fields.
pub open spec fn location_from(body: Value) -> Option<LocationView> {
    let begin_column = i32_field(body, "begin_column"@);
    let begin_line = i32_field(body, "begin_line"@);
    let class = str_field(body, "class"@);
    let file = str_field(body, "file"@);
    let function = str_field(body, "function"@);
    if begin_column is Some && begin_line is Some && class is Some && file is Some
        && function is Some {
        Some(
            LocationView {
                begin_column: begin_column->0,
                begin_line: begin_line->0,
                class: class->0,
                file: file->0,
                function: function->0,
            },
        )
    } else {
        None
    }
}

/// The location under `key` in `body`.
pub open spec fn location_field(body: Value, key: Seq<char>) -> Option<LocationView> {
    match json_field(body, key) {
        Some(v) => location_from(v),
        None => None,
    }
}

/// The assertion record that `body` holds, where it has all of its fields.
pub open spec fn assert_from(body: Value) -> Option<AssertView> {
    let assert_type = assert_type_field(body, "assert_type"@);
    let condition = bool_field(body, "condition"@);
    let display_type = str_field(body, "display_type"@);
    let hit = bool_field(body, "hit"@);
    let must_hit = bool_field(body, "must_hit"@);
    let id = str_field(body, "id"@);
    let message = str_field(body, "message"@);
    let location = location_field(body, "location"@);
    let details = json_field(body, "details"@);
    if assert_type is Some && condition is Some && display_type is Some && hit is Some
        && must_hit is Some && id is Some && message is Some && location is Some
        && details is Some {
        Some(
            AssertView {
                assert_type: assert_type->0,
                condition: condition->0,
                display_type: display_type->0,
                hit: hit->0,
                must_hit: must_hit->0,
                id: id->0,
                message: message->0,
                location: location->0,
                details: details->0,
            },
        )
    } else {
        None
    }
}

/// The descriptor that `body` holds, where it has all of its fields.
pub open spec fn sdk_from(body: Value) -> Option<SdkView> {
    let language = str_field(body, "language"@);
    let version = str_field(body, "version"@);
    if language is Some && version is Some {
        Some(SdkView { language: language->0, version: version->0 })
    } else {
        None
    }
}

/// The setup record that `body` holds, where it has all of its fields.
pub open spec fn setup_from(body: Value) -> Option<SetupView> {
    let status = str_field(body, "status"@);
    let details = json_field(body, "details"@);
    if status is Some && details is Some {
        Some(SetupView { status: status->0, details: details->0 })
    } else {
        None
    }
}

/// The event that `body` holds, where it has an event's name and details.
pub open spec fn event_from(body: Value) -> Option<InputView> {
    let event_name = str_field(body, "event_name"@);
    let details = json_field(body, "details"@);
    if event_name is Some && details is Some {
        Some(InputView::SendEvent { event_name: event_name->0, details: details->0 })
    } else {
        None
    }
}

/// The record of a known kind that the entry `tag`, `body` spells, if it
/// spells one.
pub open spec fn tagged(tag: Seq<char>, body: Value) -> Option<InputView> {
    if tag == "antithesis_sdk"@ {
        match sdk_from(body) {
            Some(sdk) => Some(InputView::AntithesisSdk(sdk)),
            None => None,
        }
    } else if tag == "antithesis_assert"@ {
        match assert_from(body) {
            Some(a) => Some(InputView::AntithesisAssert(a)),
            None => None,
        }
    } else if tag == "antithesis_setup"@ {
        match setup_from(body) {
            Some(setup) => Some(InputView::AntithesisSetup(setup)),
            None => None,
        }
    } else if tag == "send_event"@ {
        event_from(body)
    } else {
        None
    }
}

/// The record that a mapping with the entries `entries` is: the record of a
/// known kind that its one entry spells, and else the event named by its
/// first key.
pub open spec fn classified_entries(entries: Seq<(Seq<char>, Value)>) -> Result<
    InputView,
    ClassifyError,
> {
    if entries.len() == 0 {
        Err(ClassifyError::EmptyMapping)
    } else {
        let known = if entries.len() == 1 {
            tagged(entries[0].0, entries[0].1)
        } else {
            None
        };
        match known {
            Some(input) => Ok(input),
            None => Ok(InputView::SendEvent { event_name: entries[0].0, details: entries[0].1 }),
        }
    }
}

/// The classification of a decoded record.
pub open spec fn classified(record: Value) -> Result<InputView, ClassifyError> {
    match json_entries(record) {
        Some(entries) => classified_entries(entries),
        None => Err(ClassifyError::NotAMapping),
    }
}

fn str_at(body: &Value, key: &str) -> (r: Option<String>)
    ensures
        match r {
            Some(s) => str_field(*body, key@) == Some(s@),
            None => str_field(*body, key@) is None,
        },
{
    let text = field(body, key)?.as_str()?;
    Some(text.to_owned())
}

fn bool_at(body: &Value, key: &str) -> (r: Option<bool>)
    ensures
        r == bool_field(*body, key@),
{
    field(body, key)?.as_bool()
}

/// Narrows a number of a log to the width of a line or column number.
pub fn narrow(n: i64) -> (r: Option<i32>)
    ensures
        r == narrowed(n),
{
    if -2147483648 <= n && n <= 2147483647 {
        Some(n as i32)
    } else {
        None
    }
}

fn i32_at(body: &Value, key: &str) -> (r: Option<i32>)
    ensures
        r == i32_field(*body, key@),
{
    narrow(field(body, key)?.as_i64()?)
}

fn assert_type_at(body: &Value, key: &str) -> (r: Option<AssertType>)
    ensures
        r == assert_type_field(*body, key@),
{
    AssertType::from_name(field(body, key)?.as_str()?)
}

fn decode_location(body: &Value) -> (r: Option<Location>)
    ensures
        match r {
            Some(location) => location_from(*body) == Some(location@),
            None => location_from(*body) is None,
        },
{
    let begin_column = i32_at(body, "begin_column")?;
    let begin_line = i32_at(body, "begin_line")?;
    let class = str_at(body, "class")?;
    let file = str_at(body, "file")?;
    let function = str_at(body, "function")?;
    Some(Location { begin_column, begin_line, class, file, function })
}

fn decode_assert(body: &Value) -> (r: Option<AntithesisAssert>)
    ensures
        match r {
            Some(a) => assert_from(*body) == Some(a@),
            None => assert_from(*body) is None,
        },
{
    let assert_type = assert_type_at(body, "assert_type")?;
    let condition = bool_at(body, "condition")?;
    let display_type = str_at(body, "display_type")?;
    let hit = bool_at(body, "hit")?;
    let must_hit = bool_at(body, "must_hit")?;
    let id = str_at(body, "id")?;
    let message = str_at(body, "message")?;
    let location = decode_location(field(body, "location")?)?;
    let details = field(body, "details")?.clone();
    Some(
        AntithesisAssert {
            assert_type,
            condition,
            display_type,
            hit,
            must_hit,
            id,
            message,
            location,
            details,
        },
    )
}

fn decode_sdk(body: &Value) -> (r: Option<AntithesisSdk>)
    ensures
        match r {
            Some(sdk) => sdk_from(*body) == Some(sdk@),
            None => sdk_from(*body) is None,
        },
{
    let language = str_at(body, "language")?;
    let version = str_at(body, "version")?;
    Some(AntithesisSdk { language, version })
}

fn decode_setup(body: &Value) -> (r: Option<AntithesisSetup>)
    ensures
        match r {
            Some(setup) => setup_from(*body) == Some(setup@),
            None => setup_from(*body) is None,
        },
{
    let status = str_at(body, "status")?;
    let details = field(body, "details")?.clone();
    Some(AntithesisSetup { status, details })
}

fn decode_event(body: &Value) -> (r: Option<SDKInput>)
    ensures
        match r {
            Some(input) => event_from(*body) == Some(input@),
            None => event_from(*body) is None,
        },
{
    let event_name = str_at(body, "event_name")?;
    let details = field(body, "details")?.clone();
    Some(SDKInput::SendEvent { event_name, details })
}

/// Reads a record of a known kind from the one entry of a mapping: `tag`
/// names the kind, `body` holds the fields. The result is `None` where
/// `tag` names no kind, or `body` lacks a field of that kind or holds a
/// value of another type in it; fields that the kind does not have are
/// passed over.
pub fn decode_tagged(tag: &str, body: &Value) -> (r: Option<SDKInput>)
    ensures
        match r {
            Some(input) => tagged(tag@, *body) == Some(input@),
            None => tagged(tag@, *body) is None,
        },
{
    if same_text(tag, "antithesis_sdk") {
        Some(SDKInput::AntithesisSdk(decode_sdk(body)?))
    } else if same_text(tag, "antithesis_assert") {
        Some(SDKInput::AntithesisAssert(decode_assert(body)?))
    } else if same_text(tag, "antithesis_setup") {
        Some(SDKInput::AntithesisSetup(decode_setup(body)?))
    } else if same_text(tag, "send_event") {
        decode_event(body)
    } else {
        None
    }
}

/// Classifies a mapping, given by its entries in the mapping's own order.
///
/// One entry that spells a record of a known kind becomes that record.
/// Otherwise the first entry becomes an event: its key is the event's name,
/// its value the details. A mapping without entries is refused.
pub fn classify_entries(entries: Vec<(String, Value)>) -> (r: Result<SDKInput, ClassifyError>)
    ensures
        match classified_entries(entry_views(entries@)) {
            Ok(input) => r matches Ok(x) && x@ == input,
            Err(e) => r == Err::<SDKInput, ClassifyError>(e),
        },
{
    let mut entries = entries;
    let count = entries.len();
    if count == 0 {
        return Err(ClassifyError::EmptyMapping);
    }
    let (event_name, details) = entries.swap_remove(0);
    if count == 1 {
        match decode_tagged(event_name.as_str(), &details) {
            Some(input) => { return Ok(input); },
            None => {},
        }
    }
    Ok(SDKInput::SendEvent { event_name, details })
}

/// Classifies one decoded record.
///
/// A mapping is classified by its entries. What is no mapping is refused.
pub fn classify(record: Value) -> (r: Result<SDKInput, ClassifyError>)
    ensures
        match classified(record) {
            Ok(input) => r matches Ok(x) && x@ == input,
            Err(e) => r == Err::<SDKInput, ClassifyError>(e),
        },
{
    match into_entries(record) {
        Some(entries) => classify_entries(entries),
        None => Err(ClassifyError::NotAMapping),
    }
}

} // verus!
