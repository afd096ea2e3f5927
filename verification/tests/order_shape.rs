use sql_anonymizer::codec::MySqlString;
use sql_anonymizer::order::OrderError;
use sql_anonymizer::rewrite::{anonymize_bytes, Capture, RewriteError};
use sql_anonymizer::synth::RngHandle;

fn run(input: &[u8], captures: Vec<Capture>) -> Result<Vec<u8>, RewriteError> {
    let mut rng = RngHandle::new();
    anonymize_bytes(&input.to_vec(), &captures, &mut rng)
}

fn order_cap(start: usize, end: usize) -> Capture {
    Capture { label: "order".to_owned(), start, end }
}

/// Builds an input of `prefix + literal(payload) + suffix` and returns it
/// with the literal's byte range.
fn with_literal(prefix: &[u8], payload: &[u8], suffix: &[u8]) -> (Vec<u8>, usize, usize) {
    let lit = MySqlString(payload.to_vec()).encode();
    let mut input = prefix.to_vec();
    let start = input.len();
    input.extend_from_slice(&lit);
    let end = input.len();
    input.extend_from_slice(suffix);
    (input, start, end)
}

#[test]
fn order_rewrites_customer_details_and_keeps_the_rest() {
    let payload = br#"{"customerDetails":{"name":"old","age":44},"other":1}"#;
    let (input, start, end) = with_literal(b"VALUES (", payload, b");");
    let out = run(&input, vec![order_cap(start, end)]).unwrap();

    assert_eq!(&out[..start], b"VALUES (");
    assert_eq!(&out[out.len() - 2..], b");");

    let middle = out[start..out.len() - 2].to_vec();
    let decoded = MySqlString::decode(&middle).expect("span is a literal again").0;
    let value: serde_json::Value = serde_json::from_slice(&decoded).expect("span decodes to JSON");
    let obj = value.as_object().expect("top level is an object");
    assert_eq!(obj.len(), 2);
    assert_eq!(obj.get("other"), Some(&serde_json::Value::from(1u32)));

    let details = obj.get("customerDetails").unwrap().as_object().unwrap();
    let mut keys: Vec<&str> = details.keys().map(|k| k.as_str()).collect();
    keys.sort_unstable();
    assert_eq!(
        keys,
        vec!["birthDate", "email", "firstName", "gender", "height", "lastName", "weight"]
    );
    let gender = details.get("gender").unwrap().as_str().unwrap();
    assert!(gender == "male" || gender == "female");
    assert!(details.get("height").unwrap().as_u64().is_some());
    assert!(details.get("weight").unwrap().as_u64().is_some());
    assert!(details.get("firstName").unwrap().is_string());
    assert!(details.get("lastName").unwrap().is_string());
    assert!(details.get("email").unwrap().is_string());
    assert!(details.get("birthDate").unwrap().is_string());
    assert_ne!(details.get("firstName").unwrap().as_str(), Some("old"));
}

#[test]
fn address_rewrite_is_a_six_key_json_object() {
    let input = b"VALUES ('x');".to_vec();
    let mut rng = RngHandle::new();
    let out = anonymize_bytes(
        &input,
        &vec![Capture { label: "address".to_owned(), start: 8, end: 11 }],
        &mut rng,
    )
    .unwrap();

    assert_eq!(&out[..8], b"VALUES (");
    assert_eq!(&out[out.len() - 2..], b");");
    let middle = out[8..out.len() - 2].to_vec();
    let decoded = MySqlString::decode(&middle).expect("span is a literal").0;
    let value: serde_json::Value = serde_json::from_slice(&decoded).expect("literal holds JSON");
    let obj = value.as_object().expect("top level is an object");
    let mut keys: Vec<&str> = obj.keys().map(|k| k.as_str()).collect();
    keys.sort_unstable();
    assert_eq!(
        keys,
        vec!["city", "country", "state", "street_details", "street_name", "zip_code"]
    );
    for key in keys {
        assert!(obj.get(key).unwrap().is_string(), "field {key} is a JSON string");
    }
}

#[test]
fn order_span_that_is_no_literal_fails() {
    let input = b"xx123yy".to_vec();
    let r = run(&input, vec![order_cap(2, 5)]);
    assert!(matches!(r, Err(RewriteError::Payload(OrderError::BadLiteral))));
}

#[test]
fn order_literal_that_is_no_json_fails() {
    let (input, start, end) = with_literal(b"(", b"not json", b")");
    let r = run(&input, vec![order_cap(start, end)]);
    assert!(matches!(r, Err(RewriteError::Payload(OrderError::BadJson))));
}

#[test]
fn order_json_that_is_no_object_fails() {
    let (input, start, end) = with_literal(b"(", b"[1,2,3]", b")");
    let r = run(&input, vec![order_cap(start, end)]);
    assert!(matches!(r, Err(RewriteError::Payload(OrderError::NotAnObject))));
}

#[test]
fn order_object_without_customer_details_fails() {
    let (input, start, end) = with_literal(b"(", br#"{"other":1}"#, b")");
    let r = run(&input, vec![order_cap(start, end)]);
    assert!(matches!(
        r,
        Err(RewriteError::Payload(OrderError::MissingCustomerDetails))
    ));
}
