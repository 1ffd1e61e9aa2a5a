//! Where a base backup starts: the timeline and LSN of the first
//! `WAL-Ranges` entry of the `backup_manifest` that `pg_basebackup` writes.

use vstd::prelude::*;
use crate::wal::{lsn_text_value, parse_lsn, LsnError};

verus! {

/// A JSON value as far as the manifest is read: numbers are kept as the
/// unsigned 64-bit value they hold, if they hold one.
#[derive(Debug)]
pub enum JsonValue {
    Null,
    Bool(bool),
    Number(Option<u64>),
    Str(String),
    Array(Vec<JsonValue>),
    Object(Vec<(String, JsonValue)>),
}

/// The JSON document serde_json reads from `text`
/// (`serde_json::from_str::<Value>`), or `None` where `text` is not JSON.
pub uninterp spec fn json_document(text: Seq<char>) -> Option<JsonValue>;

/// serde_json's JSON value, carried through opaquely.
#[verifier::external_type_specification]
#[verifier::external_body]
pub struct ExJsonValue(serde_json::Value);

/// The library's form of a serde_json value: each variant carried over, a
/// number as its `as_u64`.
#[verifier::external_body]
fn json_from_value(v: serde_json::Value) -> JsonValue {
    match v {
        serde_json::Value::Null => JsonValue::Null,
        serde_json::Value::Bool(b) => JsonValue::Bool(b),
        serde_json::Value::Number(n) => JsonValue::Number(n.as_u64()),
        serde_json::Value::String(s) => JsonValue::Str(s),
        serde_json::Value::Array(a) => JsonValue::Array(a.into_iter().map(json_from_value).collect()),
        serde_json::Value::Object(m) => JsonValue::Object(m.into_iter().map(|(k, x)| (k, json_from_value(x))).collect()),
    }
}

/// Reads `text` as JSON with serde_json (`serde_json::from_str::<Value>`).
///
/// Claims only that the result is a function of `text`.
#[verifier::external_body]
fn read_json(text: &str) -> (r: Option<JsonValue>)
    ensures
        r == json_document(text@),
{
    serde_json::from_str::<serde_json::Value>(text).ok().map(json_from_value)
}

/// The value of the first member called `key`.
pub open spec fn member(entries: Seq<(String, JsonValue)>, key: Seq<char>) -> Option<JsonValue>
    decreases entries.len(),
{
    if entries.len() == 0 {
        None
    } else if entries[0].0@ == key {
        Some(entries[0].1)
    } else {
        member(entries.drop_first(), key)
    }
}

/// `value.get(key)`: the member of an object, nothing for anything else.
pub open spec fn json_get(value: JsonValue, key: Seq<char>) -> Option<JsonValue> {
    match value {
        JsonValue::Object(entries) => member(entries@, key),
        _ => None,
    }
}

/// `value.get(0)`: the first element of a non-empty array.
pub open spec fn json_first(value: JsonValue) -> Option<JsonValue> {
    match value {
        JsonValue::Array(items) => if items@.len() > 0 {
            Some(items@[0])
        } else {
            None
        },
        _ => None,
    }
}

/// Why a manifest gave no start.
#[derive(Clone, Debug, PartialEq, Eq)]
pub enum ManifestError {
    /// The manifest is not JSON.
    InvalidJson,
    /// There is no first `WAL-Ranges` entry.
    MissingWalRanges,
    /// The entry has no unsigned `Timeline`.
    MissingTimeline,
    /// The entry has no string `Start-LSN`.
    MissingStartLsn,
    /// The `Start-LSN` is not an LSN.
    InvalidLsn(LsnError),
}

/// (timeline, start LSN) of the first `WAL-Ranges` entry of a manifest; the
/// timeline keeps the low 32 bits of the number.
pub open spec fn manifest_start_value(text: Seq<char>) -> Result<(u32, u64), ManifestError> {
    match json_document(text) {
        None => Err(ManifestError::InvalidJson),
        Some(doc) => match json_get(doc, "WAL-Ranges"@) {
            None => Err(ManifestError::MissingWalRanges),
            Some(ranges) => match json_first(ranges) {
                None => Err(ManifestError::MissingWalRanges),
                Some(range) => match json_get(range, "Timeline"@) {
                    Some(JsonValue::Number(Some(t))) => match json_get(range, "Start-LSN"@) {
                        Some(JsonValue::Str(lsn)) => match lsn_text_value(lsn@) {
                            Ok(v) => Ok((t as u32, v)),
                            Err(e) => Err(ManifestError::InvalidLsn(e)),
                        },
                        _ => Err(ManifestError::MissingStartLsn),
                    },
                    _ => Err(ManifestError::MissingTimeline),
                },
            },
        },
    }
}

fn get_member<'a>(value: &'a JsonValue, key: &str) -> (r: Option<&'a JsonValue>)
    ensures
        match r {
            Some(v) => json_get(*value, key@) == Some(*v),
            None => json_get(*value, key@) is None,
        },
{
    match value {
        JsonValue::Object(entries) => {
            let n: usize = entries.len();
            let mut i: usize = 0;
            assert(entries@.skip(0) =~= entries@);
            assert(json_get(*value, key@) == member(entries@, key@));
            while i < n
                invariant
                    n == entries@.len(),
                    i <= n,
                    json_get(*value, key@) == member(entries@, key@),
                    member(entries@, key@) == member(entries@.skip(i as int), key@),
                decreases n - i,
            {
                let ghost rest = entries@.skip(i as int);
                assert(rest[0] == entries@[i as int]);
                if crate::text::str_eq(entries[i].0.as_str(), key) {
                    return Some(&entries[i].1);
                }
                assert(rest.drop_first() =~= entries@.skip(i + 1));
                i = i + 1;
            }
            None
        },
        _ => None,
    }
}

fn first_item(value: &JsonValue) -> (r: Option<&JsonValue>)
    ensures
        match r {
            Some(v) => json_first(*value) == Some(*v),
            None => json_first(*value) is None,
        },
{
    match value {
        JsonValue::Array(items) => {
            if items.len() > 0 {
                Some(&items[0])
            } else {
                None
            }
        },
        _ => None,
    }
}

/// Returns (timeline, start LSN) from the first `WAL-Ranges` entry of a
/// backup manifest.
pub fn parse_manifest_start(manifest: &str) -> (r: Result<(u32, u64), ManifestError>)
    ensures
        r == manifest_start_value(manifest@),
{
    let doc = match read_json(manifest) {
        Some(d) => d,
        None => return Err(ManifestError::InvalidJson),
    };
    let ranges = match get_member(&doc, "WAL-Ranges") {
        Some(r) => r,
        None => return Err(ManifestError::MissingWalRanges),
    };
    let range = match first_item(ranges) {
        Some(r) => r,
        None => return Err(ManifestError::MissingWalRanges),
    };
    let timeline: u32 = match get_member(range, "Timeline") {
        Some(JsonValue::Number(Some(t))) => *t as u32,
        _ => return Err(ManifestError::MissingTimeline),
    };
    let lsn = match get_member(range, "Start-LSN") {
        Some(JsonValue::Str(s)) => s,
        _ => return Err(ManifestError::MissingStartLsn),
    };
    match parse_lsn(lsn.as_str()) {
        Ok(v) => Ok((timeline, v)),
        Err(e) => Err(ManifestError::InvalidLsn(e)),
    }
}

} // verus!
