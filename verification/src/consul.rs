//! Envelopes of the consul key-value store, and the conditional deletes
//! sent back to it.
//!
//! The store serves each entry as an envelope whose `Value` is a base64
//! string, or null for a tombstone. Decoding goes through the `base64`
//! crate and the standard UTF-8 check; both are trusted, named results.

use vstd::prelude::*;

use base64::Engine;

use crate::json::{
    json_as_obj, json_as_str, json_as_u64, obj_get, obj_get_v, parse_document, parse_json_str,
    JsonV, JsonValue,
};
use crate::text::chars_to_string;

verus! {

/// What the `base64` crate decodes out of a piece of text: a function of
/// the text alone, `None` where the text is not valid base64.
pub uninterp spec fn b64_of(s: Seq<char>) -> Option<Seq<u8>>;

/// Relies on `base64`'s standard-alphabet engine: decoding is a function
/// of the input text alone.
#[verifier::external_body]
fn b64_decode(s: &str) -> (r: Option<Vec<u8>>)
    ensures
        match r {
            Some(b) => b64_of(s@) == Some(b@),
            None => b64_of(s@) is None,
        },
{
    base64::engine::general_purpose::STANDARD.decode(s).ok()
}

/// What the standard UTF-8 check reads out of bytes: a function of the
/// bytes alone, `None` where they are not UTF-8.
pub uninterp spec fn utf8_of(b: Seq<u8>) -> Option<Seq<char>>;

/// Relies on `String::from_utf8`: decoding is a function of the bytes
/// alone.
#[verifier::external_body]
fn utf8_string(b: Vec<u8>) -> (r: Option<String>)
    ensures
        match r {
            Some(t) => utf8_of(b@) == Some(t@),
            None => utf8_of(b@) is None,
        },
{
    String::from_utf8(b).ok()
}

/// The value of one KV envelope.
pub enum ConsulValue {
    /// A tombstone or directory marker.
    Null,
    /// The raw base64 text, as served.
    String(String),
    /// The decoded document.
    Parsed(JsonValue),
}

impl ConsulValue {
    /// Whether this value is a tombstone.
    pub fn is_null(&self) -> (r: bool)
        ensures
            r == (self is Null),
    {
        match self {
            ConsulValue::Null => true,
            _ => false,
        }
    }
}

/// One envelope of the KV store.
pub struct ConsulPair {
    pub lock_index: u64,
    pub key: String,
    pub flags: u64,
    pub value: ConsulValue,
    pub create_index: u64,
    pub modify_index: u64,
}

/// What decoding a raw value yields: base64, then UTF-8, then JSON.
pub open spec fn decoded_value(raw: Seq<char>) -> Option<JsonV> {
    match b64_of(raw) {
        None => None,
        Some(bytes) => match utf8_of(bytes) {
            None => None,
            Some(text) => parse_document(text),
        },
    }
}

/// What a document denotes as a KV envelope. The value is null or raw
/// text; unknown members are ignored.
pub open spec fn pair_of_jv(j: JsonV) -> Option<(u64, Seq<char>, u64, Option<Seq<char>>, u64, u64)> {
    match j {
        JsonV::Obj(o) => {
            let li = match obj_get_v(o, "LockIndex"@) {
                Some(JsonV::Num(lx)) => crate::json::lex_u64(lx),
                _ => None,
            };
            let key = obj_get_v(o, "Key"@);
            let fl = match obj_get_v(o, "Flags"@) {
                Some(JsonV::Num(lx)) => crate::json::lex_u64(lx),
                _ => None,
            };
            let val = match obj_get_v(o, "Value"@) {
                Some(JsonV::Null) => Some(None),
                Some(JsonV::Str(t)) => Some(Some(t)),
                _ => None,
            };
            let ci = match obj_get_v(o, "CreateIndex"@) {
                Some(JsonV::Num(lx)) => crate::json::lex_u64(lx),
                _ => None,
            };
            let mi = match obj_get_v(o, "ModifyIndex"@) {
                Some(JsonV::Num(lx)) => crate::json::lex_u64(lx),
                _ => None,
            };
            if li is Some && (key matches Some(JsonV::Str(_))) && fl is Some && val is Some && ci
                is Some && mi is Some {
                Some(
                    (
                        li.unwrap(),
                        key->Some_0->Str_0,
                        fl.unwrap(),
                        val.unwrap(),
                        ci.unwrap(),
                        mi.unwrap(),
                    ),
                )
            } else {
                None
            }
        },
        _ => None,
    }
}

impl ConsulPair {
    /// The envelope's raw value text, in specification land: the text if
    /// raw, nothing if null or already parsed.
    pub open spec fn raw_text(self) -> Option<Seq<char>> {
        match self.value {
            ConsulValue::String(t) => Some(t@),
            _ => None,
        }
    }

    /// Reads an envelope out of a document.
    pub fn from_json(j: &JsonValue) -> (r: Option<ConsulPair>)
        ensures
            match r {
                Some(p) => pair_of_jv(j.deep_view()) == Some(
                    (
                        p.lock_index,
                        p.key@,
                        p.flags,
                        match p.value {
                            ConsulValue::Null => None::<Seq<char>>,
                            ConsulValue::String(t) => Some(t@),
                            ConsulValue::Parsed(_) => None::<Seq<char>>,
                        },
                        p.create_index,
                        p.modify_index,
                    ),
                ) && !(p.value is Parsed),
                None => pair_of_jv(j.deep_view()) is None,
            },
    {
        let o = match json_as_obj(j) {
            Some(o) => o,
            None => {
                return None;
            },
        };
        let lock_index = match obj_get(o, "LockIndex") {
            Some(v) => match json_as_u64(v) {
                Some(n) => n,
                None => {
                    return None;
                },
            },
            None => {
                return None;
            },
        };
        let key = match obj_get(o, "Key") {
            Some(v) => match json_as_str(v) {
                Some(t) => t.clone(),
                None => {
                    return None;
                },
            },
            None => {
                return None;
            },
        };
        let flags = match obj_get(o, "Flags") {
            Some(v) => match json_as_u64(v) {
                Some(n) => n,
                None => {
                    return None;
                },
            },
            None => {
                return None;
            },
        };
        let value = match obj_get(o, "Value") {
            Some(v) => match v {
                JsonValue::Null => ConsulValue::Null,
                JsonValue::Str(t) => ConsulValue::String(t.clone()),
                _ => {
                    return None;
                },
            },
            None => {
                return None;
            },
        };
        let create_index = match obj_get(o, "CreateIndex") {
            Some(v) => match json_as_u64(v) {
                Some(n) => n,
                None => {
                    return None;
                },
            },
            None => {
                return None;
            },
        };
        let modify_index = match obj_get(o, "ModifyIndex") {
            Some(v) => match json_as_u64(v) {
                Some(n) => n,
                None => {
                    return None;
                },
            },
            None => {
                return None;
            },
        };
        Some(ConsulPair { lock_index, key, flags, value, create_index, modify_index })
    }

    /// Decodes a raw value in place: base64, then UTF-8, then JSON. A
    /// null or already-decoded value is left as it stands; a raw value
    /// that does not decode is an error, with a description.
    pub fn parse_value(self) -> (r: Result<ConsulPair, String>)
        ensures
            match r {
                Ok(p) => {
                    &&& p.lock_index == self.lock_index
                    &&& p.key@ == self.key@
                    &&& p.flags == self.flags
                    &&& p.create_index == self.create_index
                    &&& p.modify_index == self.modify_index
                    &&& match self.value {
                        ConsulValue::String(t) => decoded_value(t@) is Some && (
                        p.value matches ConsulValue::Parsed(v) && v.deep_view() == decoded_value(
                            t@,
                        ).unwrap()),
                        _ => p.value == self.value,
                    }
                },
                Err(_) => self.raw_text() matches Some(t) && decoded_value(t) is None,
            },
    {
        match self.value {
            ConsulValue::Null => Ok(self),
            ConsulValue::Parsed(v) => Ok(
                ConsulPair {
                    lock_index: self.lock_index,
                    key: self.key,
                    flags: self.flags,
                    value: ConsulValue::Parsed(v),
                    create_index: self.create_index,
                    modify_index: self.modify_index,
                },
            ),
            ConsulValue::String(t) => {
                let bytes = match b64_decode(t.as_str()) {
                    Some(b) => b,
                    None => {
                        return Err("expected value to be base64".to_owned());
                    },
                };
                let text = match utf8_string(bytes) {
                    Some(s) => s,
                    None => {
                        return Err("expected value to be UTF-8 text".to_owned());
                    },
                };
                let doc = match parse_json_str(text.as_str()) {
                    Some(d) => d,
                    None => {
                        return Err("expected value to be JSON".to_owned());
                    },
                };
                Ok(
                    ConsulPair {
                        lock_index: self.lock_index,
                        key: self.key,
                        flags: self.flags,
                        value: ConsulValue::Parsed(doc),
                        create_index: self.create_index,
                        modify_index: self.modify_index,
                    },
                )
            },
        }
    }

    /// The decoded document of the envelope: `None` for a tombstone, the
    /// document otherwise; an error where the raw value does not decode.
    pub fn parsed_value(self) -> (r: Result<Option<JsonValue>, String>)
        ensures
            match r {
                Ok(opt) => match self.value {
                    ConsulValue::Null => opt is None,
                    ConsulValue::String(t) => decoded_value(t@) is Some && (
                    opt matches Some(v) && v.deep_view() == decoded_value(t@).unwrap()),
                    ConsulValue::Parsed(v0) => opt matches Some(v) && v == v0,
                },
                Err(_) => self.raw_text() matches Some(t) && decoded_value(t) is None,
            },
    {
        match self.parse_value() {
            Err(e) => Err(e),
            Ok(p) => match p.value {
                ConsulValue::Null => Ok(None),
                ConsulValue::Parsed(v) => Ok(Some(v)),
                ConsulValue::String(_) => Err("undecoded value".to_owned()),
            },
        }
    }
}

/// Decodes an envelope's document without consuming the envelope:
/// `None` for a tombstone, the decoded document otherwise; an error
/// where the raw value does not decode.
pub fn decode_doc(p: &ConsulPair) -> (r: Result<Option<JsonValue>, String>)
    ensures
        match r {
            Ok(opt) => match p.value {
                ConsulValue::Null => opt is None,
                ConsulValue::String(t) => decoded_value(t@) is Some && (opt matches Some(v)
                    && v.deep_view() == decoded_value(t@).unwrap()),
                ConsulValue::Parsed(v0) => opt matches Some(v) && v.deep_view()
                    == v0.deep_view(),
            },
            Err(_) => p.raw_text() matches Some(t) && decoded_value(t) is None,
        },
{
    match &p.value {
        ConsulValue::Null => Ok(None),
        ConsulValue::Parsed(v) => Ok(Some(crate::json::json_copy(v))),
        ConsulValue::String(t) => {
            let bytes = match b64_decode(t.as_str()) {
                Some(b) => b,
                None => {
                    return Err("expected value to be base64".to_owned());
                },
            };
            let text = match utf8_string(bytes) {
                Some(s) => s,
                None => {
                    return Err("expected value to be UTF-8 text".to_owned());
                },
            };
            match parse_json_str(text.as_str()) {
                Some(d) => Ok(Some(d)),
                None => Err("expected value to be JSON".to_owned()),
            }
        },
    }
}

/// One conditional delete of a release: a key and the index the delete
/// is conditioned on.
pub struct CasDelete {
    pub key: String,
    pub index: u64,
}

/// The token views of a delete list.
pub open spec fn deep_deletes(s: Seq<CasDelete>) -> Seq<(Seq<char>, u64)>
    decreases s.len(),
{
    if s.len() == 0 {
        Seq::empty()
    } else {
        deep_deletes(s.drop_last()).push((s.last().key@, s.last().index))
    }
}

/// The store path of one conditional delete:
/// `v1/kv/<key>?cas=<index>`. The delete succeeds only while the entry
/// still stands at that index, so a re-reserved address is left alone.
pub fn delete_path(key: &str, index: u64) -> (r: String)
    ensures
        r@ == "v1/kv/"@ + key@ + "?cas="@ + crate::text::dec_chars(index as nat),
{
    let mut s: String = "v1/kv/".to_owned();
    s.append(key);
    s.append("?cas=");
    let mut cs: Vec<char> = Vec::new();
    crate::text::push_u64_digits(index, &mut cs);
    s.append(chars_to_string(&cs).as_str());
    s
}

} // verus!
