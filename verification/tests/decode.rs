use price_sampler::decode::{decode, observe, price_text, text_field, DecodeError};
use price_sampler::observation::Observation;

fn parse_number(text: &str) -> Option<u64> {
    text.parse::<f64>().ok().map(f64::to_bits)
}

fn price(value: f64) -> Observation {
    Observation::from_bits(value.to_bits()).unwrap()
}

#[test]
fn decodes_a_trade_message() {
    let message = r#"{"e":"trade","E":1700000000000,"s":"BTCUSDT","t":12345,"p":"67321.45000000","q":"0.00100000","m":true}"#;
    assert_eq!(decode(message, parse_number), Ok(price(67321.45)));
}

#[test]
fn decodes_the_smallest_message() {
    assert_eq!(decode(r#"{"p":"100.0"}"#, parse_number), Ok(price(100.0)));
    assert_eq!(decode(r#" { "p" : "101.5" } "#, parse_number), Ok(price(101.5)));
    assert_eq!(decode(r#"{"p":"-0"}"#, parse_number), Ok(price(-0.0)));
    assert_eq!(decode(r#"{"p":"1e3"}"#, parse_number), Ok(price(1000.0)));
}

#[test]
fn a_payload_that_is_no_document_is_not_structured_data() {
    for payload in ["", "not json", "{", r#"{"p":"1.0""#, r#"{"p":"1.0"} trailing"#, "{'p':'1.0'}"] {
        assert_eq!(decode(payload, parse_number), Err(DecodeError::NotStructuredData), "{payload}");
    }
}

#[test]
fn a_document_without_the_price_field_misses_it() {
    for payload in [r#"{}"#, r#"{"q":"1.0"}"#, r#"{"P":"1.0"}"#, r#"{"price":"1.0"}"#] {
        assert_eq!(decode(payload, parse_number), Err(DecodeError::FieldMissing), "{payload}");
    }
}

#[test]
fn a_document_that_is_no_object_has_no_price_field() {
    for payload in ["[]", r#"["p"]"#, "1.5", r#""p""#, "null", "true"] {
        assert_eq!(decode(payload, parse_number), Err(DecodeError::FieldMissing), "{payload}");
    }
}

#[test]
fn a_price_that_is_not_a_text_is_rejected() {
    for payload in [
        r#"{"p":100.0}"#,
        r#"{"p":100}"#,
        r#"{"p":null}"#,
        r#"{"p":true}"#,
        r#"{"p":["100.0"]}"#,
        r#"{"p":{"p":"100.0"}}"#,
    ] {
        assert_eq!(decode(payload, parse_number), Err(DecodeError::FieldNotTextNumber), "{payload}");
    }
}

#[test]
fn a_text_that_is_no_number_fails_to_parse() {
    for payload in [
        r#"{"p":""}"#,
        r#"{"p":"abc"}"#,
        r#"{"p":" 1.0"}"#,
        r#"{"p":"1.0 "}"#,
        r#"{"p":"1,5"}"#,
        r#"{"p":"0x10"}"#,
    ] {
        assert_eq!(decode(payload, parse_number), Err(DecodeError::NumberParseFailed), "{payload}");
    }
}

#[test]
fn infinities_and_nans_written_as_text_fail_to_parse() {
    for payload in [
        r#"{"p":"NaN"}"#,
        r#"{"p":"nan"}"#,
        r#"{"p":"inf"}"#,
        r#"{"p":"-inf"}"#,
        r#"{"p":"Infinity"}"#,
        r#"{"p":"+infinity"}"#,
        r#"{"p":"1e999"}"#,
        r#"{"p":"-1e999"}"#,
    ] {
        assert_eq!(decode(payload, parse_number), Err(DecodeError::NumberParseFailed), "{payload}");
    }
}

#[test]
fn the_last_of_repeated_price_fields_counts() {
    assert_eq!(decode(r#"{"p":"1.0","p":"2.0"}"#, parse_number), Ok(price(2.0)));
    assert_eq!(
        decode(r#"{"p":"1.0","p":2.0}"#, parse_number),
        Err(DecodeError::FieldNotTextNumber)
    );
}

#[test]
fn the_parser_sees_the_price_text_once_and_only_a_price_text() {
    let calls = std::cell::Cell::new(0_u32);
    let seen = std::cell::RefCell::new(String::new());
    let spy = |text: &str| {
        calls.set(calls.get() + 1);
        seen.borrow_mut().push_str(text);
        parse_number(text)
    };
    assert_eq!(decode(r#"{"q":"7","p":"99.25"}"#, &spy), Ok(price(99.25)));
    assert_eq!(calls.get(), 1);
    assert_eq!(seen.borrow().as_str(), "99.25");
    assert_eq!(decode("nonsense", &spy), Err(DecodeError::NotStructuredData));
    assert_eq!(decode(r#"{"q":"7"}"#, &spy), Err(DecodeError::FieldMissing));
    assert_eq!(decode(r#"{"p":7}"#, &spy), Err(DecodeError::FieldNotTextNumber));
    assert_eq!(calls.get(), 1);
}

#[test]
fn the_result_depends_on_what_the_parser_returns() {
    assert_eq!(decode(r#"{"p":"1.0"}"#, |_: &str| None), Err(DecodeError::NumberParseFailed));
    assert_eq!(
        decode(r#"{"p":"1.0"}"#, |_: &str| Some(f64::INFINITY.to_bits())),
        Err(DecodeError::NumberParseFailed)
    );
    assert_eq!(decode(r#"{"p":"x"}"#, |_: &str| Some(7.0_f64.to_bits())), Ok(price(7.0)));
}

#[test]
fn price_text_returns_the_text_of_the_price_field() {
    assert_eq!(price_text(r#"{"p":"67321.45000000"}"#), Ok(String::from("67321.45000000")));
    assert_eq!(price_text(r#"{"p":"not a number"}"#), Ok(String::from("not a number")));
    assert_eq!(price_text(r#"{"p":"café \"x\""}"#), Ok(String::from("café \"x\"")));
    assert_eq!(price_text(r#"{"p":""}"#), Ok(String::new()));
    assert_eq!(price_text("p"), Err(DecodeError::NotStructuredData));
    assert_eq!(price_text(r#"{"x":"1"}"#), Err(DecodeError::FieldMissing));
    assert_eq!(price_text(r#"{"p":1}"#), Err(DecodeError::FieldNotTextNumber));
}

#[test]
fn text_field_looks_up_the_member_it_is_asked_for() {
    let document: serde_json::Value =
        serde_json::from_str(r#"{"p":"1.5","q":"0.25","n":3,"o":{"p":"9"}}"#).unwrap();
    assert_eq!(text_field(&document, "p"), Ok("1.5"));
    assert_eq!(text_field(&document, "q"), Ok("0.25"));
    assert_eq!(text_field(&document, "n"), Err(DecodeError::FieldNotTextNumber));
    assert_eq!(text_field(&document, "o"), Err(DecodeError::FieldNotTextNumber));
    assert_eq!(text_field(&document, "missing"), Err(DecodeError::FieldMissing));
    let array: serde_json::Value = serde_json::from_str(r#"["p","q"]"#).unwrap();
    assert_eq!(text_field(&array, "0"), Err(DecodeError::FieldMissing));
}

#[test]
fn observe_accepts_finite_numbers_only() {
    assert_eq!(observe(Some(100.25_f64.to_bits())), Ok(price(100.25)));
    assert_eq!(observe(Some(0)), Ok(price(0.0)));
    assert_eq!(observe(None), Err(DecodeError::NumberParseFailed));
    assert_eq!(observe(Some(f64::NAN.to_bits())), Err(DecodeError::NumberParseFailed));
    assert_eq!(observe(Some(f64::INFINITY.to_bits())), Err(DecodeError::NumberParseFailed));
    assert_eq!(observe(Some(f64::NEG_INFINITY.to_bits())), Err(DecodeError::NumberParseFailed));
}

#[test]
fn every_error_is_reported_in_its_own_words() {
    assert_eq!(DecodeError::NotStructuredData.message(), "Message is not a JSON document");
    assert_eq!(DecodeError::FieldMissing.message(), "No price found in message");
    assert_eq!(DecodeError::FieldNotTextNumber.message(), "Price field is not a text");
    assert_eq!(DecodeError::NumberParseFailed.message(), "Price field is not a valid number");
}
