//! Sources of synthetic content: a sequential random generator handle and
//! the generators for names, addresses, and the other fabricated values.
//!
//! Every generated value depends on the generator's hidden state, so nothing
//! is promised about the values themselves; the callers state what holds of
//! their output whatever came back.

use vstd::prelude::*;

use fake::Fake;
use fake::faker::address::en::{
    CityName, CountryName, SecondaryAddress, StateName, StreetName, ZipCode,
};
use fake::faker::finance::en::Bic;
use fake::faker::internet::en::SafeEmail;
use fake::faker::name::en::{FirstName, LastName, Name};
use fake::faker::phone_number::en::PhoneNumber;
use fake::faker::time::en::{Date, DateTime};

verus! {

#[verifier::external_type_specification]
#[verifier::external_body]
pub struct ExThreadRng(rand::rngs::ThreadRng);

/// Relies on rand::thread_rng: a handle to the thread-local generator.
#[verifier::external_body]
fn fresh_thread_rng() -> rand::rngs::ThreadRng {
    rand::thread_rng()
}

/// The single sequential source of randomness, threaded through every
/// directive invocation.
pub struct RngHandle {
    rng: rand::rngs::ThreadRng,
}

impl RngHandle {
    pub fn new() -> RngHandle {
        RngHandle { rng: fresh_thread_rng() }
    }
}

/// Relies on rand::RngCore::next_u32: a random 32-bit integer.
#[verifier::external_body]
pub(crate) fn next_u32(h: &mut RngHandle) -> u32 {
    rand::RngCore::next_u32(&mut h.rng)
}

/// Relies on fake's Faker: a random boolean.
#[verifier::external_body]
pub(crate) fn fake_bool(h: &mut RngHandle) -> bool {
    fake::Faker.fake_with_rng::<bool, _>(&mut h.rng)
}

/// Relies on fake's FirstName faker: a synthetic given name.
#[verifier::external_body]
pub(crate) fn fake_first_name(h: &mut RngHandle) -> String {
    FirstName().fake_with_rng::<String, _>(&mut h.rng)
}

/// Relies on fake's LastName faker: a synthetic family name.
#[verifier::external_body]
pub(crate) fn fake_last_name(h: &mut RngHandle) -> String {
    LastName().fake_with_rng::<String, _>(&mut h.rng)
}

/// Relies on fake's Name faker: a synthetic full name.
#[verifier::external_body]
pub(crate) fn fake_name(h: &mut RngHandle) -> String {
    Name().fake_with_rng::<String, _>(&mut h.rng)
}

/// Relies on fake's SafeEmail faker: a synthetic email address.
#[verifier::external_body]
pub(crate) fn fake_email(h: &mut RngHandle) -> String {
    SafeEmail().fake_with_rng::<String, _>(&mut h.rng)
}

/// Relies on fake's StreetName faker: a synthetic street name.
#[verifier::external_body]
pub(crate) fn fake_street_name(h: &mut RngHandle) -> String {
    StreetName().fake_with_rng::<String, _>(&mut h.rng)
}

/// Relies on fake's SecondaryAddress faker: a synthetic unit designation.
#[verifier::external_body]
pub(crate) fn fake_street_details(h: &mut RngHandle) -> String {
    SecondaryAddress().fake_with_rng::<String, _>(&mut h.rng)
}

/// Relies on fake's ZipCode faker: a synthetic postal code.
#[verifier::external_body]
pub(crate) fn fake_zip_code(h: &mut RngHandle) -> String {
    ZipCode().fake_with_rng::<String, _>(&mut h.rng)
}

/// Relies on fake's CityName faker: a synthetic city name.
#[verifier::external_body]
pub(crate) fn fake_city(h: &mut RngHandle) -> String {
    CityName().fake_with_rng::<String, _>(&mut h.rng)
}

/// Relies on fake's CountryName faker: a synthetic country name.
#[verifier::external_body]
pub(crate) fn fake_country(h: &mut RngHandle) -> String {
    CountryName().fake_with_rng::<String, _>(&mut h.rng)
}

/// Relies on fake's StateName faker: a synthetic state name.
#[verifier::external_body]
pub(crate) fn fake_state(h: &mut RngHandle) -> String {
    StateName().fake_with_rng::<String, _>(&mut h.rng)
}

/// Relies on fake's Bic faker: a synthetic bank identifier code.
#[verifier::external_body]
pub(crate) fn fake_bic(h: &mut RngHandle) -> String {
    Bic().fake_with_rng::<String, _>(&mut h.rng)
}

/// Relies on fake's Date faker: a synthetic calendar date.
#[verifier::external_body]
pub(crate) fn fake_date(h: &mut RngHandle) -> String {
    Date().fake_with_rng::<String, _>(&mut h.rng)
}

/// Relies on fake's DateTime faker: a synthetic timestamp.
#[verifier::external_body]
pub(crate) fn fake_date_time(h: &mut RngHandle) -> String {
    DateTime().fake_with_rng::<String, _>(&mut h.rng)
}

/// Relies on fake's PhoneNumber faker: a synthetic phone number.
#[verifier::external_body]
pub(crate) fn fake_phone_number(h: &mut RngHandle) -> String {
    PhoneNumber().fake_with_rng::<String, _>(&mut h.rng)
}

} // verus!
