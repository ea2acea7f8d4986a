//! Persisted JSON files: which bytes read from disk are kept as text and
//! which are moved aside, and the names of the temporary and backup files.

use vstd::prelude::*;
use vstd::utf8::{decode_utf8, valid_utf8};

use crate::text::{decimal, push_decimal};

verus! {

broadcast use vstd::string::group_string_axioms;

/// Whether `serde_json` parses a text as a JSON value.
pub uninterp spec fn json_value_parses(text: Seq<char>) -> bool;

/// Parses a text with `serde_json::from_str::<serde_json::Value>`.
/// Claimed: it succeeds exactly when `json_value_parses(text@)`.
#[verifier::external_body]
fn parses_as_json(text: &str) -> (ok: bool)
    ensures
        ok == json_value_parses(text@),
{
    serde_json::from_str::<serde_json::Value>(text).is_ok()
}

/// Decodes bytes as text with `String::from_utf8`, keeping the text on
/// success. Claimed, as std documents it: the call succeeds exactly when the
/// bytes are valid UTF-8, and the text is then the characters they encode.
#[verifier::external_body]
fn utf8_text(bytes: Vec<u8>) -> (r: Option<String>)
    ensures
        r is Some <==> valid_utf8(bytes@),
        r matches Some(t) ==> t@ == decode_utf8(bytes@),
{
    String::from_utf8(bytes).ok()
}

/// Whether bytes read from a persisted file are a JSON document: UTF-8 text
/// that parses as a JSON value.
pub open spec fn is_json_document(bytes: Seq<u8>) -> bool {
    valid_utf8(bytes) && json_value_parses(decode_utf8(bytes))
}

/// What reading a persisted file gave.
pub enum StoredRead {
    /// The file's bytes.
    Contents(Vec<u8>),
    /// There is no such file.
    Missing,
    /// Reading failed otherwise; the error's text.
    Failed(String),
}

/// What becomes of a persisted JSON file that was read.
pub enum StoredJson {
    /// Hand this text to the caller (empty for a missing file).
    Ready(String),
    /// The bytes are not a JSON document: move the file aside, then treat
    /// it as missing.
    Quarantine,
    /// Reading failed: report this message.
    ReadError(String),
}

/// The message for a file that could not be read.
pub open spec fn read_error_message(path: Seq<char>, error: Seq<char>) -> Seq<char> {
    "failed to read "@ + path + ": "@ + error
}

/// What becomes of the text of a persisted file, given whether it parses
/// as JSON: parsed text is kept, anything else is quarantined.
pub fn stored_text(text: String, parses: bool) -> (r: StoredJson)
    ensures
        if parses {
            r matches StoredJson::Ready(t) && t@ == text@
        } else {
            r is Quarantine
        },
{
    if parses {
        StoredJson::Ready(text)
    } else {
        StoredJson::Quarantine
    }
}

/// Decides what a read of the persisted file at `path` comes to: a valid
/// JSON document is kept as text, anything else that was read (invalid
/// JSON, or bytes that are not UTF-8) is quarantined, a missing file reads
/// as empty, and other failures are reported.
pub fn stored_json(read: StoredRead, path: &str) -> (r: StoredJson)
    ensures
        match read {
            StoredRead::Contents(b) => if is_json_document(b@) {
                r matches StoredJson::Ready(t) && t@ == decode_utf8(b@)
            } else {
                r is Quarantine
            },
            StoredRead::Missing => r matches StoredJson::Ready(t) && t@ == Seq::<char>::empty(),
            StoredRead::Failed(e) => r matches StoredJson::ReadError(m) && m@
                == read_error_message(path@, e@),
        },
{
    match read {
        StoredRead::Contents(b) => match utf8_text(b) {
            Some(t) => {
                let parses = parses_as_json(t.as_str());
                stored_text(t, parses)
            },
            None => StoredJson::Quarantine,
        },
        StoredRead::Missing => StoredJson::Ready(String::new()),
        StoredRead::Failed(e) => {
            let mut m = "failed to read ".to_string();
            m.append(path);
            m.append(": ");
            m.append(e.as_str());
            StoredJson::ReadError(m)
        },
    }
}

/// The name of the temporary sibling a file is written through:
/// `<name>.tmp<pid>`.
pub fn tmp_file_name(file_name: &str, pid: u32) -> (r: String)
    ensures
        r@ == file_name@ + ".tmp"@ + decimal(pid as nat),
{
    let mut r = file_name.to_string();
    r.append(".tmp");
    push_decimal(&mut r, pid as u64);
    r
}

/// The name a damaged file is moved aside to: `<name>.corrupt-<seconds>`.
pub fn corrupt_backup_name(file_name: &str, timestamp_secs: u64) -> (r: String)
    ensures
        r@ == file_name@ + ".corrupt-"@ + decimal(timestamp_secs as nat),
{
    let mut r = file_name.to_string();
    r.append(".corrupt-");
    push_decimal(&mut r, timestamp_secs);
    r
}

} // verus!
