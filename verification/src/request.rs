//! The hash request: a UTF-16LE text holding a JSON document whose `files`
//! member lists the paths to hash.

use vstd::prelude::*;
use encoding_rs::UTF_16LE;

verus! {

/// A parsed JSON document, holding what the request logic reads: numbers
/// are kept only as being numbers.
#[derive(Debug)]
pub enum JsonValue {
    Null,
    Bool(bool),
    Number,
    Str(String),
    Array(Vec<JsonValue>),
    Object(Vec<(String, JsonValue)>),
}

/// Names the text and the error flag that decoding bytes as UTF-16LE
/// yields (after byte-order-mark sniffing).
pub uninterp spec fn utf16le_decoding(bytes: Seq<u8>) -> (Seq<char>, bool);

/// Calls `encoding_rs::UTF_16LE.decode`. Claims only that the text and the
/// malformed-input flag are those named by `utf16le_decoding` for the bytes;
/// the decoding itself is not spelled out.
#[verifier::external_body]
fn utf16le_decode(bytes: &[u8]) -> (res: (String, bool))
    ensures
        (res.0@, res.1) == utf16le_decoding(bytes@),
{
    let (text, _, had_errors) = UTF_16LE.decode(bytes);
    (text.into_owned(), had_errors)
}

/// Decodes the raw bytes of a request file, written as UTF-16LE, into
/// text; the flag tells whether malformed input was replaced.
pub fn decode_utf16le(bytes: &[u8]) -> (res: (String, bool))
    ensures
        (res.0@, res.1) == utf16le_decoding(bytes@),
{
    utf16le_decode(bytes)
}

/// serde_json's document type, carried only into the conversion below.
#[verifier::external_type_specification]
#[verifier::external_body]
pub struct ExSerdeValue(serde_json::Value);

/// Names what parsing a text as JSON yields: the document, or the text of
/// the parse error.
pub uninterp spec fn json_parsing(text: Seq<char>) -> Result<JsonValue, Seq<char>>;

/// Converts a serde_json document into the library's model, variant by
/// variant (numbers keep only that they are numbers).
#[verifier::external_body]
fn serde_to_json(v: serde_json::Value) -> JsonValue {
    match v {
        serde_json::Value::Null => JsonValue::Null,
        serde_json::Value::Bool(b) => JsonValue::Bool(b),
        serde_json::Value::Number(_) => JsonValue::Number,
        serde_json::Value::String(s) => JsonValue::Str(s),
        serde_json::Value::Array(a) => JsonValue::Array(a.into_iter().map(serde_to_json).collect()),
        serde_json::Value::Object(m) => JsonValue::Object(
            m.into_iter().map(|(k, v)| (k, serde_to_json(v))).collect(),
        ),
    }
}

/// Calls `serde_json::from_str::<serde_json::Value>`. Claims that the
/// document, or the error's display text, is the one named by
/// `json_parsing` for the text; the JSON grammar is not spelled out.
#[verifier::external_body]
fn json_from_str(text: &str) -> (res: Result<JsonValue, String>)
    ensures
        match res {
            Ok(d) => json_parsing(text@) == Ok::<JsonValue, Seq<char>>(d),
            Err(e) => json_parsing(text@) == Err::<JsonValue, Seq<char>>(e@),
        },
{
    match serde_json::from_str::<serde_json::Value>(text) {
        Ok(v) => Ok(serde_to_json(v)),
        Err(e) => Err(format!("{}", e)),
    }
}

pub open spec fn files_key() -> Seq<char> {
    seq!['f', 'i', 'l', 'e', 's']
}

/// The member `key` of an object: the value of its first entry with that
/// key; `None` for a non-object or a missing key.
pub open spec fn member(doc: JsonValue, key: Seq<char>) -> Option<JsonValue> {
    match doc {
        JsonValue::Object(entries) => {
            if exists|i: int| 0 <= i < entries@.len() && (#[trigger] entries@[i]).0@ == key {
                let i = choose|i: int|
                    0 <= i < entries@.len() && (#[trigger] entries@[i]).0@ == key && forall|j: int|
                        0 <= j < i ==> (#[trigger] entries@[j]).0@ != key;
                Some(entries@[i].1)
            } else {
                None
            }
        },
        _ => None,
    }
}

/// The strings of an array, in order, skipping its other elements.
pub open spec fn string_elements(items: Seq<JsonValue>) -> Seq<Seq<char>>
    decreases items.len(),
{
    if items.len() == 0 {
        seq![]
    } else {
        let rest = string_elements(items.drop_last());
        match items.last() {
            JsonValue::Str(s) => rest.push(s@),
            _ => rest,
        }
    }
}

pub open spec fn files_error_message() -> Seq<char> {
    "Expected 'files' to be an array of strings"@
}

/// The file list a request names: `Ok` with the strings of the `files`
/// array when `files` is an array, otherwise the error message.
pub open spec fn requested_files(doc: JsonValue) -> Result<Seq<Seq<char>>, Seq<char>> {
    match member(doc, files_key()) {
        Some(JsonValue::Array(items)) => Ok(string_elements(items@)),
        _ => Err(files_error_message()),
    }
}

fn is_files_key(k: &String) -> (res: bool)
    ensures
        res == (k@ == files_key()),
{
    let n = k.as_str().unicode_len();
    if n != 5 {
        return false;
    }
    let s = k.as_str();
    let r = s.get_char(0) == 'f' && s.get_char(1) == 'i' && s.get_char(2) == 'l' && s.get_char(3)
        == 'e' && s.get_char(4) == 's';
    assert(r ==> k@ =~= files_key());
    r
}

/// Extracts the list of file paths from a request document.
pub fn parse_json_files(doc: &JsonValue) -> (res: Result<Vec<String>, String>)
    ensures
        match res {
            Ok(files) => requested_files(*doc) == Ok::<Seq<Seq<char>>, Seq<char>>(
                files@.map_values(|f: String| f@),
            ),
            Err(e) => requested_files(*doc) == Err::<Seq<Seq<char>>, Seq<char>>(e@),
        },
{
    let mut found: Option<&JsonValue> = None;
    if let JsonValue::Object(entries) = doc {
        let mut i: usize = 0;
        while i < entries.len()
            invariant_except_break
                i <= entries@.len(),
                found.is_none(),
                forall|j: int| 0 <= j < i ==> (#[trigger] entries@[j]).0@ != files_key(),
            invariant
                *doc == JsonValue::Object(*entries),
            ensures
                match found {
                    Some(v) => member(*doc, files_key()) == Some(*v),
                    None => forall|j: int|
                        0 <= j < entries@.len() ==> (#[trigger] entries@[j]).0@ != files_key(),
                },
            decreases entries@.len() - i,
        {
            if is_files_key(&entries[i].0) {
                proof {
                    let w = choose|w: int|
                        0 <= w < entries@.len() && (#[trigger] entries@[w]).0@ == files_key()
                            && forall|j: int| 0 <= j < w ==> (#[trigger] entries@[j]).0@ != files_key();
                    assert(0 <= i < entries@.len() && entries@[i as int].0@ == files_key()
                        && forall|j: int| 0 <= j < i ==> (#[trigger] entries@[j]).0@ != files_key());
                    if w < i {
                        assert(entries@[w].0@ != files_key());
                    }
                    if w > i {
                        assert(entries@[i as int].0@ != files_key());
                    }
                    assert(w == i);
                    assert(*doc == JsonValue::Object(*entries));
                    assert(member(*doc, files_key()) == Some(entries@[i as int].1));
                }
                found = Some(&entries[i].1);
                break;
            }
            i = i + 1;
        }
    }
    let items = match found {
        Some(JsonValue::Array(items)) => items,
        _ => {
            return Err(String::from_str("Expected 'files' to be an array of strings"));
        },
    };
    let mut files: Vec<String> = Vec::new();
    let mut i: usize = 0;
    while i < items.len()
        invariant
            i <= items@.len(),
            files@.map_values(|f: String| f@) == string_elements(items@.take(i as int)),
        decreases items@.len() - i,
    {
        assert(items@.take(i + 1).drop_last() =~= items@.take(i as int));
        if let JsonValue::Str(s) = &items[i] {
            files.push(s.clone());
        }
        assert(files@.map_values(|f: String| f@) =~= string_elements(items@.take(i + 1)));
        i = i + 1;
    }
    assert(items@.take(items@.len() as int) =~= items@);
    Ok(files)
}

/// The outcome of a request text: the parse error, prefixed, when the text
/// is not JSON; otherwise the file list of the document.
pub open spec fn request_result(text: Seq<char>) -> Result<Seq<Seq<char>>, Seq<char>> {
    match json_parsing(text) {
        Ok(doc) => requested_files(doc),
        Err(e) => Err("Failed to parse JSON: "@ + e),
    }
}

/// Parses a decoded request text and extracts the file paths it lists.
pub fn parse_request(content: &str) -> (res: Result<Vec<String>, String>)
    ensures
        match res {
            Ok(files) => request_result(content@) == Ok::<Seq<Seq<char>>, Seq<char>>(
                files@.map_values(|f: String| f@),
            ),
            Err(e) => request_result(content@) == Err::<Seq<Seq<char>>, Seq<char>>(e@),
        },
{
    match json_from_str(content) {
        Ok(doc) => parse_json_files(&doc),
        Err(e) => {
            let mut msg = String::from_str("Failed to parse JSON: ");
            msg.append(e.as_str());
            Err(msg)
        },
    }
}

/// The text of a string item, and nothing for any other item.
pub open spec fn string_text(v: JsonValue) -> Option<Seq<char>> {
    match v {
        JsonValue::Str(s) => Some(s@),
        _ => None,
    }
}

/// The file list of an array holds every string item, in order, and
/// nothing else: it is the array with its non-string items filtered out.
pub proof fn every_string_item_is_listed(items: Seq<JsonValue>)
    ensures
        string_elements(items) == items.filter_map(|v: JsonValue| string_text(v)),
    decreases items.len(),
{
    if items.len() > 0 {
        every_string_item_is_listed(items.drop_last());
        match items.last() {
            JsonValue::Str(t) => {
                assert(string_elements(items) =~= items.filter_map(|v: JsonValue| string_text(v)));
            },
            _ => {},
        }
    }
}

} // verus!
