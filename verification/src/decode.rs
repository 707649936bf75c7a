//! The message decoder: from one textual payload to one observation.
//!
//! A message is a JSON document whose price field holds a number written as
//! text. The document is read by `serde_json`; the text is turned into a
//! binary64 bit pattern by a parser that the caller supplies. Each way in
//! which a message can fail to be a price has its own error, and none of them
//! is more than a value.

use crate::observation::{finite_bits, Observation};
use serde_json::Value;
use vstd::prelude::*;
use vstd::string::StringExecFns;

verus! {

/// Why a message yielded no observation. Every variant is recoverable: a
/// message that fails to decode is skipped, and the session goes on.
#[derive(Clone, Copy, Debug, PartialEq, Eq, Structural)]
pub enum DecodeError {
    /// The payload is not a structured document.
    NotStructuredData,
    /// The document has no price field.
    FieldMissing,
    /// The price field is present, but its value is not a text.
    FieldNotTextNumber,
    /// The text of the price field is not a finite number.
    NumberParseFailed,
}

impl DecodeError {
    /// What is said of the error where it is reported.
    pub open spec fn message_of(self) -> Seq<char> {
        match self {
            DecodeError::NotStructuredData => "Message is not a JSON document"@,
            DecodeError::FieldMissing => "No price found in message"@,
            DecodeError::FieldNotTextNumber => "Price field is not a text"@,
            DecodeError::NumberParseFailed => "Price field is not a valid number"@,
        }
    }

    /// The words in which the error is reported.
    pub fn message(&self) -> (words: &'static str)
        ensures
            words@ == self.message_of(),
    {
        match self {
            DecodeError::NotStructuredData => "Message is not a JSON document",
            DecodeError::FieldMissing => "No price found in message",
            DecodeError::FieldNotTextNumber => "Price field is not a text",
            DecodeError::NumberParseFailed => "Price field is not a valid number",
        }
    }
}

/// `serde_json::Value`, a parsed JSON value. The library hands such values
/// on and never looks inside.
#[verifier::external_type_specification]
#[verifier::external_body]
pub struct ExValue(serde_json::Value);

/// `serde_json::Error`, the reason why a text is not a JSON document.
#[verifier::external_type_specification]
#[verifier::external_body]
pub struct ExError(serde_json::Error);

/// The value that `serde_json::from_str` reads from `text`, or `None` where
/// it reports an error.
pub uninterp spec fn json_document(text: Seq<char>) -> Option<Value>;

/// The member that `serde_json::Value::get` finds in `document` under the
/// text `key`, or `None` where it finds none.
pub uninterp spec fn json_member(document: Value, key: Seq<char>) -> Option<Value>;

/// The text that `serde_json::Value::as_str` finds in `value`, or `None`
/// where `value` is not a JSON string.
pub uninterp spec fn json_text(value: Value) -> Option<Seq<char>>;

/// Calls `serde_json::from_str` for a `Value`. The contract only gives the
/// outcome its name: what is read from a text depends on that text alone.
#[verifier::external_body]
fn parse_document(text: &str) -> (parsed: Result<Value, serde_json::Error>)
    ensures
        match parsed {
            Ok(document) => json_document(text@) == Some(document),
            Err(_) => json_document(text@) is None,
        },
{
    serde_json::from_str::<Value>(text)
}

/// Calls `serde_json::Value::get` with a text as the index. The contract only
/// gives the outcome its name: what is found depends on the value and the
/// key alone.
#[verifier::external_body]
fn member<'a>(document: &'a Value, key: &str) -> (found: Option<&'a Value>)
    ensures
        match found {
            Some(value) => json_member(*document, key@) == Some(*value),
            None => json_member(*document, key@) is None,
        },
{
    document.get(key)
}

/// `serde_json::Value::as_str` returns the text of a JSON string and `None`
/// for every other value. The contract only gives the outcome its name.
pub assume_specification<'a>[ serde_json::Value::as_str ](value: &'a Value) -> (text: Option<
    &'a str,
>)
    ensures
        match text {
            Some(t) => json_text(*value) == Some(t@),
            None => json_text(*value) is None,
        },
;

/// The name of the field that holds the price.
pub open spec fn price_field() -> Seq<char> {
    "p"@
}

/// The text held by the member `key` of `document`.
pub open spec fn text_member(document: Value, key: Seq<char>) -> Result<Seq<char>, DecodeError> {
    match json_member(document, key) {
        None => Err(DecodeError::FieldMissing),
        Some(value) => match json_text(value) {
            None => Err(DecodeError::FieldNotTextNumber),
            Some(text) => Ok(text),
        },
    }
}

/// The text of the price field of the document that `payload` is.
pub open spec fn price_text_of(payload: Seq<char>) -> Result<Seq<char>, DecodeError> {
    match json_document(payload) {
        None => Err(DecodeError::NotStructuredData),
        Some(document) => text_member(document, price_field()),
    }
}

/// What a parsed number is worth: a finite bit pattern is a price, and
/// anything else, an infinity and a NaN included, is not.
pub open spec fn price_bits_of(parsed: Option<u64>) -> Result<u64, DecodeError> {
    match parsed {
        Some(bits) => if finite_bits(bits) {
            Ok(bits)
        } else {
            Err(DecodeError::NumberParseFailed)
        },
        None => Err(DecodeError::NumberParseFailed),
    }
}

/// The bit pattern of a decoded observation, or the error in its place.
pub open spec fn bits_of(decoded: Result<Observation, DecodeError>) -> Result<u64, DecodeError> {
    match decoded {
        Ok(observation) => Ok(observation@),
        Err(e) => Err(e),
    }
}

/// Looks up the member `key` of `document` and returns its text.
pub fn text_field<'a>(document: &'a Value, key: &str) -> (text: Result<&'a str, DecodeError>)
    ensures
        match text {
            Ok(t) => text_member(*document, key@) == Ok::<Seq<char>, DecodeError>(t@),
            Err(e) => text_member(*document, key@) == Err::<Seq<char>, DecodeError>(e),
        },
{
    match member(document, key) {
        None => Err(DecodeError::FieldMissing),
        Some(value) => match value.as_str() {
            None => Err(DecodeError::FieldNotTextNumber),
            Some(t) => Ok(t),
        },
    }
}

/// Reads `payload` as a document and returns the text of its price field.
pub fn price_text(payload: &str) -> (text: Result<String, DecodeError>)
    ensures
        match text {
            Ok(t) => price_text_of(payload@) == Ok::<Seq<char>, DecodeError>(t@),
            Err(e) => price_text_of(payload@) == Err::<Seq<char>, DecodeError>(e),
        },
{
    match parse_document(payload) {
        Err(_) => Err(DecodeError::NotStructuredData),
        Ok(document) => match text_field(&document, "p") {
            Err(e) => Err(e),
            Ok(t) => Ok(String::from_str(t)),
        },
    }
}

/// Turns the outcome of parsing the price text into an observation: `parsed`
/// is the bit pattern of the number that the text denotes, or `None` where
/// the text denotes none.
pub fn observe(parsed: Option<u64>) -> (decoded: Result<Observation, DecodeError>)
    ensures
        bits_of(decoded) == price_bits_of(parsed),
{
    match parsed {
        None => Err(DecodeError::NumberParseFailed),
        Some(bits) => match Observation::from_bits(bits) {
            None => Err(DecodeError::NumberParseFailed),
            Some(observation) => Ok(observation),
        },
    }
}

/// Whether `decoded` is what decoding `payload` gives, with `parse_number` as
/// the parser of the price text.
///
/// A payload without a price text has the error that says why, and the parser
/// has no part in it. Otherwise `decoded` is what the parser's answer on the
/// price text is worth: the observation with the bit pattern that the parser
/// returned, if that is finite, and `NumberParseFailed` if it is not or the
/// parser returned none.
pub open spec fn decodes_to<P: Fn(&str) -> Option<u64>>(
    payload: Seq<char>,
    parse_number: P,
    decoded: Result<Observation, DecodeError>,
) -> bool {
    match price_text_of(payload) {
        Err(e) => decoded == Err::<Observation, DecodeError>(e),
        Ok(price) => exists|text: &str, parsed: Option<u64>|
            text@ == price && #[trigger] parse_number.ensures((text,), parsed) && bits_of(decoded)
                == price_bits_of(parsed),
    }
}

/// Decodes one message.
///
/// `parse_number` turns a text into the bit pattern of the binary64 number it
/// denotes. It is called once, on the text of the price field, and only if
/// the message has one.
pub fn decode<P: Fn(&str) -> Option<u64>>(payload: &str, parse_number: P) -> (decoded: Result<
    Observation,
    DecodeError,
>)
    requires
        forall|text: &str| parse_number.requires((text,)),
    ensures
        decodes_to(payload@, parse_number, decoded),
{
    match price_text(payload) {
        Err(e) => Err(e),
        Ok(price) => {
            let parsed = parse_number(price.as_str());
            observe(parsed)
        },
    }
}

/// Whatever the payload and the parser, a decoded observation is finite, and
/// a message that has a price text fails in one way only.
pub proof fn lemma_decoded_is_finite_or_fails<P: Fn(&str) -> Option<u64>>(
    payload: Seq<char>,
    parse_number: P,
    decoded: Result<Observation, DecodeError>,
)
    requires
        decodes_to(payload, parse_number, decoded),
    ensures
        decoded matches Ok(observation) ==> observation.is_finite() && price_text_of(payload) is Ok,
        price_text_of(payload) is Ok ==> decoded is Ok || decoded == Err::<
            Observation,
            DecodeError,
        >(DecodeError::NumberParseFailed),
        price_text_of(payload) matches Err(e) ==> e != DecodeError::NumberParseFailed && decoded
            == Err::<Observation, DecodeError>(e),
{
}

} // verus!
