use sql_anonymizer::directive::Directive;

#[test]
fn every_label_parses_to_its_directive() {
    let cases = [
        ("address", Directive::Address),
        ("biological_sex", Directive::BiologicalSex),
        ("bic", Directive::Bic),
        ("date", Directive::Date),
        ("email", Directive::Email),
        ("first_name", Directive::FirstName),
        ("iban", Directive::Iban),
        ("last_name", Directive::LastName),
        ("name", Directive::Name),
        ("order", Directive::Order),
        ("password", Directive::Password),
        ("phone_number", Directive::PhoneNumber),
        ("u32", Directive::U32),
        ("vat_no", Directive::VatNo),
    ];
    for (label, expected) in cases {
        assert_eq!(Directive::from_str(label).unwrap(), expected, "label {label}");
    }
}

#[test]
fn unknown_labels_are_rejected() {
    for label in ["", "unknown_directive", "Email", "EMAIL", "emails", "e mail", "_"] {
        assert!(Directive::from_str(label).is_err(), "label {label:?}");
    }
}

#[test]
fn only_order_consumes_its_span() {
    assert!(Directive::Order.consumes_span());
    for d in [
        Directive::Address,
        Directive::BiologicalSex,
        Directive::Bic,
        Directive::Date,
        Directive::Email,
        Directive::FirstName,
        Directive::Iban,
        Directive::LastName,
        Directive::Name,
        Directive::Password,
        Directive::PhoneNumber,
        Directive::U32,
        Directive::VatNo,
    ] {
        assert!(!d.consumes_span());
    }
}
