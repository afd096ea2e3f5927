//! Replacement content for each directive: what is written in place of a
//! matched span, and the shape that output is proved to have.

use vstd::prelude::*;
use vstd::string::StrSliceExecFns;
use vstd::string::StringSliceAdditionalSpecFns;

use crate::codec::{encode_bytes, encode_spec};
use crate::directive::Directive;
use crate::order::{
    json_map_insert, json_map_new, json_object, json_string, json_to_bytes, object_entries,
    order_replacement, string_value_bytes, OrderError,
};
use crate::synth::{
    fake_bic, fake_bool, fake_city, fake_country, fake_date, fake_email, fake_first_name,
    fake_last_name, fake_name, fake_phone_number, fake_state, fake_street_details,
    fake_street_name, fake_zip_code, next_u32, RngHandle,
};

verus! {

/// Decimal digits of an unsigned 32-bit integer, most significant first.
pub open spec fn decimal_spec(n: u32) -> Seq<u8>
    decreases n,
{
    if n < 10 {
        seq![(48 + n) as u8]
    } else {
        decimal_spec(n / 10).push((48 + n % 10) as u8)
    }
}

/// Renders an unsigned 32-bit integer in decimal.
pub fn decimal_bytes(n: u32) -> (r: Vec<u8>)
    ensures
        r@ == decimal_spec(n),
    decreases n,
{
    if n < 10 {
        let mut v: Vec<u8> = Vec::new();
        v.push(48 + (n as u8));
        proof {
            assert(v@ =~= decimal_spec(n));
        }
        v
    } else {
        let mut v = decimal_bytes(n / 10);
        v.push(48 + ((n % 10) as u8));
        v
    }
}

/// The serialization of a generated postal address: a JSON object with
/// exactly the keys street_name, street_details, zip_code, city, country,
/// state, each a JSON string.
pub open spec fn address_ok(doc: Seq<u8>) -> bool {
    match object_entries(doc) {
        Some(p) => {
            &&& p.dom() == address_keys()
            &&& (exists|s: Seq<char>| p["street_name"@] == string_value_bytes(s))
            &&& (exists|s: Seq<char>| p["street_details"@] == string_value_bytes(s))
            &&& (exists|s: Seq<char>| p["zip_code"@] == string_value_bytes(s))
            &&& (exists|s: Seq<char>| p["city"@] == string_value_bytes(s))
            &&& (exists|s: Seq<char>| p["country"@] == string_value_bytes(s))
            &&& (exists|s: Seq<char>| p["state"@] == string_value_bytes(s))
        },
        None => false,
    }
}

pub open spec fn address_keys() -> Set<Seq<char>> {
    set![
        "street_name"@,
        "street_details"@,
        "zip_code"@,
        "city"@,
        "country"@,
        "state"@,
    ]
}

proof fn lemma_address_keys_distinct()
    ensures
        "street_name"@ != "street_details"@,
        "street_name"@ != "zip_code"@,
        "street_name"@ != "city"@,
        "street_name"@ != "country"@,
        "street_name"@ != "state"@,
        "street_details"@ != "zip_code"@,
        "street_details"@ != "city"@,
        "street_details"@ != "country"@,
        "street_details"@ != "state"@,
        "zip_code"@ != "city"@,
        "zip_code"@ != "country"@,
        "zip_code"@ != "state"@,
        "city"@ != "country"@,
        "city"@ != "state"@,
        "country"@ != "state"@,
{
    reveal_strlit("street_name");
    reveal_strlit("street_details");
    reveal_strlit("zip_code");
    reveal_strlit("city");
    reveal_strlit("country");
    reveal_strlit("state");
    assert("street_name"@.len() == 11);
    assert("street_details"@.len() == 14);
    assert("zip_code"@.len() == 8);
    assert("city"@.len() == 4);
    assert("country"@.len() == 7);
    assert("state"@.len() == 5);
}

/// The shape every directive's replacement output is proved to have.
///
/// The three fixed directives produce one exact literal each; Address
/// produces the encoding of a six-key JSON address object; Order the
/// encoding of some document; U32 the decimal digits of some 32-bit
/// integer; the remaining directives the encoding of the UTF-8 bytes of
/// some generated string.
pub open spec fn rep_ok(d: Directive, rep: Seq<u8>) -> bool {
    match d {
        Directive::Iban => rep == encode_spec("AT01234567890123456789".spec_bytes()),
        Directive::Password => rep == encode_spec(
            "$2y$10$xOGO.s9/T06bIuCydNED7up5JWlXWp/kK7C8DC76kWyYrB5s9rnAu".spec_bytes(),
        ),
        Directive::VatNo => rep == encode_spec("AT01234567".spec_bytes()),
        Directive::BiologicalSex => rep == encode_spec("Male".spec_bytes()) || rep == encode_spec(
            "Female".spec_bytes(),
        ),
        Directive::U32 => exists|n: u32| rep == decimal_spec(n),
        Directive::Address => exists|doc: Seq<u8>|
            #![all_triggers]
            rep == encode_spec(doc) && address_ok(doc),
        Directive::Order => exists|s: Seq<u8>| rep == encode_spec(s),
        _ => exists|s: Seq<char>| rep == encode_spec(vstd::utf8::encode_utf8(s)),
    }
}

/// Encodes a fixed text as a literal of the dialect.
fn fixed_literal(s: &str) -> (r: Vec<u8>)
    ensures
        r@ == encode_spec(s.spec_bytes()),
{
    let v = s.as_bytes_vec();
    encode_bytes(&v)
}

/// Encodes a generated string as a literal of the dialect.
fn generated_literal(s: String) -> (r: Vec<u8>)
    ensures
        r@ == encode_spec(vstd::utf8::encode_utf8(s@)),
        exists|t: Seq<char>| r@ == encode_spec(vstd::utf8::encode_utf8(t)),
{
    let v = s.as_str().as_bytes_vec();
    let r = encode_bytes(&v);
    proof {
        assert(exists|t: Seq<char>| r@ == encode_spec(vstd::utf8::encode_utf8(t))) by {
            assert(r@ == encode_spec(vstd::utf8::encode_utf8(s@)));
        }
    }
    r
}

/// A generated postal address as an encoded JSON object literal, with the
/// fields street_name, street_details, zip_code, city, country, state.
fn address_literal(h: &mut RngHandle) -> (r: Vec<u8>)
    ensures
        exists|doc: Seq<u8>| #![all_triggers] r@ == encode_spec(doc) && address_ok(doc),
{
    let mut m = json_map_new();
    let street_name = fake_street_name(h);
    let ghost b_street = string_value_bytes(street_name@);
    let _ = json_map_insert(&mut m, "street_name".to_owned(), json_string(street_name));
    let street_details = fake_street_details(h);
    let ghost b_details = string_value_bytes(street_details@);
    let _ = json_map_insert(&mut m, "street_details".to_owned(), json_string(street_details));
    let zip_code = fake_zip_code(h);
    let ghost b_zip = string_value_bytes(zip_code@);
    let _ = json_map_insert(&mut m, "zip_code".to_owned(), json_string(zip_code));
    let city = fake_city(h);
    let ghost b_city = string_value_bytes(city@);
    let _ = json_map_insert(&mut m, "city".to_owned(), json_string(city));
    let country = fake_country(h);
    let ghost b_country = string_value_bytes(country@);
    let _ = json_map_insert(&mut m, "country".to_owned(), json_string(country));
    let state = fake_state(h);
    let ghost b_state = string_value_bytes(state@);
    let _ = json_map_insert(&mut m, "state".to_owned(), json_string(state));
    let rebuilt = json_object(m);
    let out = json_to_bytes(&rebuilt);
    let r = encode_bytes(&out);
    proof {
        lemma_address_keys_distinct();
        let p = crate::order::map_obj(m);
        assert(object_entries(out@) == Some(p));
        assert(p.dom() =~= address_keys());
        assert(p["street_name"@] == b_street);
        assert(p["street_details"@] == b_details);
        assert(p["zip_code"@] == b_zip);
        assert(p["city"@] == b_city);
        assert(p["country"@] == b_country);
        assert(p["state"@] == b_state);
        assert(address_ok(out@));
        assert(r@ == encode_spec(out@));
    }
    r
}

/// Produces the replacement bytes for one matched span.
///
/// `span` is the span's original content; only the Order directive reads
/// it. Every directive but Order succeeds on any input.
pub fn replacement(d: Directive, span: &Vec<u8>, h: &mut RngHandle) -> (r: Result<
    Vec<u8>,
    OrderError,
>)
    ensures
        r matches Ok(v) ==> rep_ok(d, v@),
        !(d is Order) ==> r matches Ok(_),
{
    match d {
        Directive::Address => Ok(address_literal(h)),
        Directive::BiologicalSex => {
            if fake_bool(h) {
                Ok(fixed_literal("Male"))
            } else {
                Ok(fixed_literal("Female"))
            }
        },
        Directive::Bic => Ok(generated_literal(fake_bic(h))),
        Directive::Date => Ok(generated_literal(fake_date(h))),
        Directive::Email => Ok(generated_literal(fake_email(h))),
        Directive::FirstName => Ok(generated_literal(fake_first_name(h))),
        Directive::Iban => Ok(fixed_literal("AT01234567890123456789")),
        Directive::LastName => Ok(generated_literal(fake_last_name(h))),
        Directive::Name => Ok(generated_literal(fake_name(h))),
        Directive::Order => order_replacement(span, h),
        Directive::Password => Ok(
            fixed_literal("$2y$10$xOGO.s9/T06bIuCydNED7up5JWlXWp/kK7C8DC76kWyYrB5s9rnAu"),
        ),
        Directive::PhoneNumber => Ok(generated_literal(fake_phone_number(h))),
        Directive::U32 => {
            let n = next_u32(h);
            let v = decimal_bytes(n);
            proof {
                assert(exists|m: u32| v@ == decimal_spec(m)) by {
                    assert(v@ == decimal_spec(n));
                }
            }
            Ok(v)
        },
        Directive::VatNo => Ok(fixed_literal("AT01234567")),
    }
}

} // verus!
