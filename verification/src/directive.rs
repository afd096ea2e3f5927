//! The closed set of anonymization directives.
//!
//! A capture label from the user-supplied tree query is parsed against this
//! set; a label that names no directive is silently inert, and its span is
//! copied through unchanged.

use vstd::prelude::*;

verus! {

/// One named anonymization operation.
#[derive(Clone, Copy, PartialEq, Eq, Structural, Debug)]
pub enum Directive {
    Address,
    BiologicalSex,
    Bic,
    Date,
    Email,
    FirstName,
    Iban,
    LastName,
    Name,
    Order,
    Password,
    PhoneNumber,
    U32,
    VatNo,
}

/// The label names no directive of the closed set.
#[derive(Clone, Copy, Debug)]
pub struct DirectiveError;

/// Which directive, if any, a capture label selects.
pub open spec fn directive_of(label: Seq<char>) -> Option<Directive> {
    if label == "address"@ {
        Some(Directive::Address)
    } else if label == "biological_sex"@ {
        Some(Directive::BiologicalSex)
    } else if label == "bic"@ {
        Some(Directive::Bic)
    } else if label == "date"@ {
        Some(Directive::Date)
    } else if label == "email"@ {
        Some(Directive::Email)
    } else if label == "first_name"@ {
        Some(Directive::FirstName)
    } else if label == "iban"@ {
        Some(Directive::Iban)
    } else if label == "last_name"@ {
        Some(Directive::LastName)
    } else if label == "name"@ {
        Some(Directive::Name)
    } else if label == "order"@ {
        Some(Directive::Order)
    } else if label == "password"@ {
        Some(Directive::Password)
    } else if label == "phone_number"@ {
        Some(Directive::PhoneNumber)
    } else if label == "u32"@ {
        Some(Directive::U32)
    } else if label == "vat_no"@ {
        Some(Directive::VatNo)
    } else {
        None
    }
}

impl Directive {
    /// Parses a capture label into a directive.
    pub fn from_str(s: &str) -> (r: Result<Directive, DirectiveError>)
        ensures
            match r {
                Ok(d) => directive_of(s@) == Some(d),
                Err(_) => directive_of(s@) is None,
            },
    {
        let o = s.to_owned();
        if o == "address".to_owned() {
            Ok(Directive::Address)
        } else if o == "biological_sex".to_owned() {
            Ok(Directive::BiologicalSex)
        } else if o == "bic".to_owned() {
            Ok(Directive::Bic)
        } else if o == "date".to_owned() {
            Ok(Directive::Date)
        } else if o == "email".to_owned() {
            Ok(Directive::Email)
        } else if o == "first_name".to_owned() {
            Ok(Directive::FirstName)
        } else if o == "iban".to_owned() {
            Ok(Directive::Iban)
        } else if o == "last_name".to_owned() {
            Ok(Directive::LastName)
        } else if o == "name".to_owned() {
            Ok(Directive::Name)
        } else if o == "order".to_owned() {
            Ok(Directive::Order)
        } else if o == "password".to_owned() {
            Ok(Directive::Password)
        } else if o == "phone_number".to_owned() {
            Ok(Directive::PhoneNumber)
        } else if o == "u32".to_owned() {
            Ok(Directive::U32)
        } else if o == "vat_no".to_owned() {
            Ok(Directive::VatNo)
        } else {
            Err(DirectiveError)
        }
    }

    /// Whether the handler reads and consumes the matched span's bytes.
    /// Every other directive replaces the span without looking at it.
    pub fn consumes_span(&self) -> (r: bool)
        ensures
            r == (*self is Order),
    {
        match self {
            Directive::Order => true,
            _ => false,
        }
    }
}

} // verus!
