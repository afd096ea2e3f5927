use sql_anonymizer::codec::MySqlString;

fn enc(bytes: &[u8]) -> Vec<u8> {
    MySqlString(bytes.to_vec()).encode()
}

fn dec(raw: &[u8]) -> Result<Vec<u8>, ()> {
    match MySqlString::decode(&raw.to_vec()) {
        Ok(m) => Ok(m.0),
        Err(_) => Err(()),
    }
}

#[test]
fn encode_plain_text() {
    assert_eq!(enc(b"abc"), b"'abc'".to_vec());
    assert_eq!(enc(b""), b"''".to_vec());
    assert_eq!(enc(b"AT01234567"), b"'AT01234567'".to_vec());
}

#[test]
fn encode_escapes_specials() {
    assert_eq!(enc(b"a'b"), b"'a\\'b'".to_vec());
    assert_eq!(enc(b"a\\b"), b"'a\\\\b'".to_vec());
    assert_eq!(enc(b"a\"b"), b"'a\\\"b'".to_vec());
    assert_eq!(enc(b"a\tb\nc\rd"), b"'a\\tb\\nc\\rd'".to_vec());
}

#[test]
fn encode_escapes_non_printable_as_hex() {
    assert_eq!(enc(&[0x00]), b"'\\x00'".to_vec());
    assert_eq!(enc(&[0x80]), b"'\\x80'".to_vec());
    assert_eq!(enc(&[0xff]), b"'\\xff'".to_vec());
    assert_eq!(enc(&[0x1b]), b"'\\x1b'".to_vec());
}

#[test]
fn encode_output_is_printable_ascii() {
    let all: Vec<u8> = (0u8..=255).collect();
    let out = enc(&all);
    for &b in &out {
        assert!((0x20..=0x7e).contains(&b), "byte {b:#x} not printable");
    }
}

#[test]
fn decode_plain_literal() {
    assert_eq!(dec(b"'abc'"), Ok(b"abc".to_vec()));
    assert_eq!(dec(b"''"), Ok(b"".to_vec()));
}

#[test]
fn decode_doubled_quote() {
    assert_eq!(dec(b"'a''b'"), Ok(b"a'b".to_vec()));
    assert_eq!(dec(b"''''"), Ok(b"'".to_vec()));
}

#[test]
fn decode_backslash_escapes() {
    assert_eq!(dec(b"'a\\'b'"), Ok(b"a'b".to_vec()));
    assert_eq!(dec(b"'a\\tb'"), Ok(b"a\tb".to_vec()));
    assert_eq!(dec(b"'a\\nb'"), Ok(b"a\nb".to_vec()));
    assert_eq!(dec(b"'a\\rb'"), Ok(b"a\rb".to_vec()));
    assert_eq!(dec(b"'a\\0b'"), Ok(b"a\x00b".to_vec()));
    assert_eq!(dec(b"'\\x41\\xff'"), Ok(vec![0x41, 0xff]));
    // A backslash before any other byte yields that byte.
    assert_eq!(dec(b"'a\\zb'"), Ok(b"azb".to_vec()));
}

#[test]
fn decode_rejects_malformed_literals() {
    assert!(dec(b"").is_err());
    assert!(dec(b"'").is_err());
    assert!(dec(b"abc").is_err());
    assert!(dec(b"'abc").is_err());
    assert!(dec(b"abc'").is_err());
    // lone quote inside the body
    assert!(dec(b"'a'b'").is_err());
    // trailing backslash
    assert!(dec(b"'a\\'").is_err());
    // bad hex digits
    assert!(dec(b"'\\xg1'").is_err());
    assert!(dec(b"'\\x4'").is_err());
}

#[test]
fn round_trip_all_byte_values() {
    let all: Vec<u8> = (0u8..=255).collect();
    assert_eq!(dec(&enc(&all)), Ok(all));
}

#[test]
fn round_trip_mixed_content() {
    let samples: [&[u8]; 5] = [
        b"",
        b"hello world",
        b"it's a \"test\" with\\slashes",
        b"\x00\x01\x7f\x80\xfe\xff",
        b"line\nbreak\tand\rreturn",
    ];
    for s in samples {
        assert_eq!(dec(&enc(s)), Ok(s.to_vec()));
    }
}

#[test]
fn from_str_decodes_literals() {
    let m = MySqlString::from_str("'abc'").expect("well-formed literal");
    assert_eq!(m.0, b"abc".to_vec());
    assert!(MySqlString::from_str("abc").is_err());
}
