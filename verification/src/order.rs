//! The Order directive: the one handler that reads its matched span.
//!
//! The span decodes to a string literal whose content is a JSON document.
//! The document must be an object with a `customerDetails` field; that field
//! is replaced wholesale by a freshly generated profile, and the document is
//! re-serialized and re-encoded as a literal.
//!
//! What serde_json computes is deterministic in its arguments, so its
//! results are given names: `parsed_json` for what a byte sequence parses
//! to, `value_bytes` for a value's compact serialization, `object_entries`
//! for the entries of an object document, `map_obj` for what a JSON object
//! holds, and `string_value_bytes` for the serialization of a string value.
//! Each name is applied only in the trusted wrappers' contracts; everything
//! downstream is proved from them.

use vstd::prelude::*;

use crate::codec::{decode_spec, encode_spec, MySqlString};
use crate::replace::decimal_spec;
use crate::synth::{
    fake_bool, fake_date_time, fake_email, fake_first_name, fake_last_name, next_u32, RngHandle,
};

verus! {

broadcast use vstd::string::group_string_axioms;

#[verifier::external_type_specification]
#[verifier::external_body]
pub struct ExValue(serde_json::Value);

#[verifier::external_type_specification]
#[verifier::external_body]
#[verifier::reject_recursive_types(K)]
#[verifier::reject_recursive_types(V)]
pub struct ExJsonMap<K, V>(serde_json::Map<K, V>);

#[verifier::external_type_specification]
#[verifier::external_body]
pub struct ExJsonError(serde_json::Error);

/// The compact serialization of a JSON value, as serde_json's Display
/// writes it. A value's observable content is determined by it.
pub uninterp spec fn value_bytes(v: serde_json::Value) -> Seq<u8>;

/// The compact serialization of the JSON document that the bytes denote;
/// None where serde_json does not accept the bytes as one document
/// (invalid UTF-8, invalid JSON, or past its nesting limit).
pub uninterp spec fn parsed_json(bytes: Seq<u8>) -> Option<Seq<u8>>;

/// The entries of the JSON object whose compact serialization is `doc`,
/// each key mapped to the compact serialization of its value; None where
/// that document is not an object.
pub uninterp spec fn object_entries(doc: Seq<u8>) -> Option<Map<Seq<char>, Seq<u8>>>;

/// What a JSON object holds: each key mapped to the compact serialization
/// of its value.
pub uninterp spec fn map_obj(m: serde_json::Map<String, serde_json::Value>) -> Map<
    Seq<char>,
    Seq<u8>,
>;

/// The compact serialization of the JSON string value for the given text.
pub uninterp spec fn string_value_bytes(s: Seq<char>) -> Seq<u8>;

/// Why an Order span could not be rewritten.
#[derive(Clone, Copy, PartialEq, Eq, Structural, Debug)]
pub enum OrderError {
    /// The span is not a well-formed string literal.
    BadLiteral,
    /// The literal's content is not a JSON document.
    BadJson,
    /// The document is not a JSON object.
    NotAnObject,
    /// The object has no `customerDetails` field.
    MissingCustomerDetails,
}

/// Relies on serde_json::from_slice: parses bytes as a JSON document,
/// succeeding exactly on what serde_json accepts as one.
#[verifier::external_body]
fn json_parse(bytes: &Vec<u8>) -> (r: Result<serde_json::Value, serde_json::Error>)
    ensures
        r matches Ok(v) <==> parsed_json(bytes@) is Some,
        r matches Ok(v) ==> Some(value_bytes(v)) == parsed_json(bytes@),
{
    serde_json::from_slice(bytes.as_slice())
}

/// Relies on serde_json::Value: tells the object variant from the rest,
/// handing back the object's entries exactly when the value is an object.
#[verifier::external_body]
fn value_into_object(v: serde_json::Value) -> (r: Option<
    serde_json::Map<String, serde_json::Value>,
>)
    ensures
        r matches Some(m) <==> object_entries(value_bytes(v)) is Some,
        r matches Some(m) ==> Some(map_obj(m)) == object_entries(value_bytes(v)),
{
    match v {
        serde_json::Value::Object(m) => Some(m),
        _ => None,
    }
}

/// The contents of an object with no entries.
pub open spec fn empty_obj() -> Map<Seq<char>, Seq<u8>> {
    Map::empty()
}

/// Relies on serde_json::Map::new: the empty JSON object.
#[verifier::external_body]
pub(crate) fn json_map_new() -> (r: serde_json::Map<String, serde_json::Value>)
    ensures
        map_obj(r) == empty_obj(),
{
    serde_json::Map::new()
}

/// Relies on serde_json::Map::insert: binds the key to the value and hands
/// back what the key was bound to before, if anything.
#[verifier::external_body]
pub(crate) fn json_map_insert(
    m: &mut serde_json::Map<String, serde_json::Value>,
    k: String,
    v: serde_json::Value,
) -> (r: Option<serde_json::Value>)
    ensures
        map_obj(*final(m)) == map_obj(*old(m)).insert(k@, value_bytes(v)),
        r matches Some(_) <==> map_obj(*old(m)).contains_key(k@),
        r matches Some(prev) ==> value_bytes(prev) == map_obj(*old(m))[k@],
{
    m.insert(k, v)
}

/// Relies on serde_json's From<String>: a JSON string value.
#[verifier::external_body]
pub(crate) fn json_string(s: String) -> (r: serde_json::Value)
    ensures
        value_bytes(r) == string_value_bytes(s@),
{
    serde_json::Value::from(s)
}

/// Relies on serde_json's From<u32> and its number serialization: a JSON
/// number value whose compact serialization is the decimal digits of `n`.
#[verifier::external_body]
pub(crate) fn json_u32(n: u32) -> (r: serde_json::Value)
    ensures
        value_bytes(r) == decimal_spec(n),
{
    serde_json::Value::from(n)
}

/// Relies on serde_json's From<Map>: a JSON object value whose entries are
/// exactly the map's.
#[verifier::external_body]
pub(crate) fn json_object(m: serde_json::Map<String, serde_json::Value>) -> (r:
    serde_json::Value)
    ensures
        object_entries(value_bytes(r)) == Some(map_obj(m)),
{
    serde_json::Value::from(m)
}

/// Relies on serde_json's Display for Value: the document's compact
/// serialization.
#[verifier::external_body]
pub(crate) fn json_to_bytes(v: &serde_json::Value) -> (r: Vec<u8>)
    ensures
        r@ == value_bytes(*v),
{
    v.to_string().into_bytes()
}

/// The serialization of a freshly generated customer profile: a JSON object
/// with exactly the keys firstName, lastName, email, gender, height,
/// weight, birthDate; the names, email and birth date are JSON strings,
/// gender is the string "male" or "female", and height and weight are
/// non-negative integers that fit in 32 bits.
pub open spec fn profile_ok(pv: Seq<u8>) -> bool {
    match object_entries(pv) {
        Some(p) => {
            &&& p.dom() == profile_keys()
            &&& (exists|s: Seq<char>| p["firstName"@] == string_value_bytes(s))
            &&& (exists|s: Seq<char>| p["lastName"@] == string_value_bytes(s))
            &&& (exists|s: Seq<char>| p["email"@] == string_value_bytes(s))
            &&& (p["gender"@] == string_value_bytes("male"@) || p["gender"@]
                == string_value_bytes("female"@))
            &&& (exists|n: u32| p["height"@] == decimal_spec(n))
            &&& (exists|n: u32| p["weight"@] == decimal_spec(n))
            &&& (exists|s: Seq<char>| p["birthDate"@] == string_value_bytes(s))
        },
        None => false,
    }
}

pub open spec fn profile_keys() -> Set<Seq<char>> {
    set![
        "firstName"@,
        "lastName"@,
        "email"@,
        "gender"@,
        "height"@,
        "weight"@,
        "birthDate"@,
    ]
}

proof fn lemma_profile_keys_distinct()
    ensures
        "firstName"@ != "lastName"@,
        "firstName"@ != "email"@,
        "firstName"@ != "gender"@,
        "firstName"@ != "height"@,
        "firstName"@ != "weight"@,
        "firstName"@ != "birthDate"@,
        "lastName"@ != "email"@,
        "lastName"@ != "gender"@,
        "lastName"@ != "height"@,
        "lastName"@ != "weight"@,
        "lastName"@ != "birthDate"@,
        "email"@ != "gender"@,
        "email"@ != "height"@,
        "email"@ != "weight"@,
        "email"@ != "birthDate"@,
        "gender"@ != "height"@,
        "gender"@ != "weight"@,
        "gender"@ != "birthDate"@,
        "height"@ != "weight"@,
        "height"@ != "birthDate"@,
        "weight"@ != "birthDate"@,
{
    reveal_strlit("firstName");
    reveal_strlit("lastName");
    reveal_strlit("email");
    reveal_strlit("gender");
    reveal_strlit("height");
    reveal_strlit("weight");
    reveal_strlit("birthDate");
    assert("firstName"@.len() == 9);
    assert("lastName"@.len() == 8);
    assert("email"@.len() == 5);
    assert("gender"@.len() == 6);
    assert("height"@.len() == 6);
    assert("weight"@.len() == 6);
    assert("birthDate"@.len() == 9);
    assert("firstName"@[0] == 'f' && "birthDate"@[0] == 'b');
    assert("gender"@[0] == 'g' && "height"@[0] == 'h' && "weight"@[0] == 'w');
}

/// A freshly generated replacement for the `customerDetails` object.
fn fresh_customer_details(h: &mut RngHandle) -> (r: serde_json::Value)
    ensures
        profile_ok(value_bytes(r)),
{
    let mut m = json_map_new();
    let first_name = fake_first_name(h);
    let ghost b_first = string_value_bytes(first_name@);
    let _ = json_map_insert(&mut m, "firstName".to_owned(), json_string(first_name));
    let last_name = fake_last_name(h);
    let ghost b_last = string_value_bytes(last_name@);
    let _ = json_map_insert(&mut m, "lastName".to_owned(), json_string(last_name));
    let email = fake_email(h);
    let ghost b_email = string_value_bytes(email@);
    let _ = json_map_insert(&mut m, "email".to_owned(), json_string(email));
    let gender = if fake_bool(h) {
        "male"
    } else {
        "female"
    };
    let ghost b_gender = string_value_bytes(gender@);
    let _ = json_map_insert(&mut m, "gender".to_owned(), json_string(gender.to_owned()));
    let height = next_u32(h);
    let _ = json_map_insert(&mut m, "height".to_owned(), json_u32(height));
    let weight = next_u32(h);
    let _ = json_map_insert(&mut m, "weight".to_owned(), json_u32(weight));
    let birth_date = fake_date_time(h);
    let ghost b_birth = string_value_bytes(birth_date@);
    let _ = json_map_insert(&mut m, "birthDate".to_owned(), json_string(birth_date));
    let r = json_object(m);
    proof {
        lemma_profile_keys_distinct();
        let p = map_obj(m);
        assert(object_entries(value_bytes(r)) == Some(p));
        assert(p.dom() =~= profile_keys());
        assert(p["firstName"@] == b_first);
        assert(p["lastName"@] == b_last);
        assert(p["email"@] == b_email);
        assert(p["gender"@] == b_gender);
        assert(gender@ == "male"@ || gender@ == "female"@);
        assert(p["height"@] == decimal_spec(height));
        assert(p["weight"@] == decimal_spec(weight));
        assert(p["birthDate"@] == b_birth);
        assert(profile_ok(value_bytes(r)));
    }
    r
}

/// Rewrites one Order span: decodes it, swaps `customerDetails` for a fresh
/// profile, and re-encodes the document as a string literal.
///
/// The run succeeds exactly when the span decodes to a literal whose
/// content parses as a JSON object containing `customerDetails`; each error
/// names the first stage that failed. On success the output is the literal
/// encoding of a document whose entries are the input's with
/// `customerDetails` rebound to a fresh profile and nothing else changed.
pub fn order_replacement(span: &Vec<u8>, h: &mut RngHandle) -> (r: Result<Vec<u8>, OrderError>)
    ensures
        r == Err::<Vec<u8>, OrderError>(OrderError::BadLiteral) <==> decode_spec(span@) is None,
        r == Err::<Vec<u8>, OrderError>(OrderError::BadJson) <==> (decode_spec(span@) matches Some(
            d,
        ) && parsed_json(d) is None),
        r == Err::<Vec<u8>, OrderError>(OrderError::NotAnObject) <==> (decode_spec(span@) matches
            Some(d) && parsed_json(d) matches Some(doc) && object_entries(doc) is None),
        r == Err::<Vec<u8>, OrderError>(OrderError::MissingCustomerDetails) <==> (decode_spec(
            span@,
        ) matches Some(d) && parsed_json(d) matches Some(doc) && object_entries(doc) matches Some(
            e,
        ) && !e.contains_key("customerDetails"@)),
        r matches Ok(_) <==> (decode_spec(span@) matches Some(d) && parsed_json(d) matches Some(
            doc,
        ) && object_entries(doc) matches Some(e) && e.contains_key("customerDetails"@)),
        r matches Ok(out) ==> (decode_spec(span@) matches Some(d) && parsed_json(d) matches Some(
            doc,
        ) && object_entries(doc) matches Some(e) && exists|pv: Seq<u8>, doc2: Seq<u8>|
            #![all_triggers]
            {
                &&& out@ == encode_spec(doc2)
                &&& object_entries(doc2) == Some(e.insert("customerDetails"@, pv))
                &&& profile_ok(pv)
            }),
        r matches Ok(out) ==> exists|s: Seq<u8>| out@ == encode_spec(s),
{
    let lit = match MySqlString::decode(span) {
        Ok(l) => l,
        Err(_) => {
            return Err(OrderError::BadLiteral);
        },
    };
    let parsed = match json_parse(&lit.0) {
        Ok(v) => v,
        Err(_) => {
            return Err(OrderError::BadJson);
        },
    };
    let mut obj = match value_into_object(parsed) {
        Some(m) => m,
        None => {
            return Err(OrderError::NotAnObject);
        },
    };
    let ghost entries = map_obj(obj);
    let details = fresh_customer_details(h);
    let ghost profile = value_bytes(details);
    match json_map_insert(&mut obj, "customerDetails".to_owned(), details) {
        Some(_) => {},
        None => {
            return Err(OrderError::MissingCustomerDetails);
        },
    }
    let rebuilt = json_object(obj);
    let out = json_to_bytes(&rebuilt);
    let encoded = crate::codec::encode_bytes(&out);
    proof {
        assert(map_obj(obj) == entries.insert("customerDetails"@, profile));
        assert(object_entries(out@) == Some(map_obj(obj)));
        assert(encoded@ == encode_spec(out@));
        assert(profile_ok(profile));
    }
    Ok(encoded)
}

} // verus!
