use sql_anonymizer::rewrite::{anonymize_bytes, plan_gap, Capture, RewriteError};
use sql_anonymizer::synth::RngHandle;

fn cap(label: &str, start: usize, end: usize) -> Capture {
    Capture { label: label.to_owned(), start, end }
}

fn run(input: &[u8], captures: Vec<Capture>) -> Result<Vec<u8>, RewriteError> {
    let mut rng = RngHandle::new();
    anonymize_bytes(&input.to_vec(), &captures, &mut rng)
}

#[test]
fn identity_on_empty_query() {
    let input = b"INSERT INTO t (a) VALUES (1);".to_vec();
    let out = run(&input, vec![]).unwrap();
    assert_eq!(out, input);
}

#[test]
fn identity_on_empty_input() {
    let out = run(b"", vec![]).unwrap();
    assert_eq!(out, b"".to_vec());
}

#[test]
fn unrecognized_label_leaves_span_unchanged() {
    let input = b"INSERT INTO t (a) VALUES ('x');".to_vec();
    let out = run(&input, vec![cap("unknown_directive", 26, 29)]).unwrap();
    assert_eq!(out, input);
}

#[test]
fn fixed_directives_give_exact_output() {
    let input = b"AAAAABBBBBCCCCC";
    let out = run(input, vec![cap("iban", 5, 10)]).unwrap();
    assert_eq!(out, b"AAAAA'AT01234567890123456789'CCCCC".to_vec());

    let out = run(input, vec![cap("vat_no", 5, 10)]).unwrap();
    assert_eq!(out, b"AAAAA'AT01234567'CCCCC".to_vec());

    let out = run(input, vec![cap("password", 0, 15)]).unwrap();
    assert_eq!(
        out,
        b"'$2y$10$xOGO.s9/T06bIuCydNED7up5JWlXWp/kK7C8DC76kWyYrB5s9rnAu'".to_vec()
    );
}

#[test]
fn adjacent_spans_partition_the_input() {
    // Two replaced spans back to back, plus verbatim head and tail: the
    // output is head + rep1 + rep2 + tail with nothing dropped or doubled.
    let input = b"hhXXXYYYtt";
    let out = run(input, vec![cap("iban", 2, 5), cap("vat_no", 5, 8)]).unwrap();
    assert_eq!(out, b"hh'AT01234567890123456789''AT01234567'tt".to_vec());
}

#[test]
fn span_at_input_edges() {
    let input = b"XXXXX";
    let out = run(input, vec![cap("vat_no", 0, 5)]).unwrap();
    assert_eq!(out, b"'AT01234567'".to_vec());
}

#[test]
fn biological_sex_is_one_of_two_literals() {
    let input = b"____";
    for _ in 0..16 {
        let out = run(input, vec![cap("biological_sex", 1, 3)]).unwrap();
        assert!(
            out == b"_'Male'_".to_vec() || out == b"_'Female'_".to_vec(),
            "unexpected output {:?}",
            String::from_utf8_lossy(&out)
        );
    }
}

#[test]
fn u32_directive_writes_decimal_digits() {
    let input = b"(42)";
    let out = run(input, vec![cap("u32", 1, 3)]).unwrap();
    assert_eq!(out[0], b'(');
    assert_eq!(out[out.len() - 1], b')');
    let digits = &out[1..out.len() - 1];
    assert!(!digits.is_empty());
    assert!(digits.iter().all(|b| b.is_ascii_digit()));
    let text = std::str::from_utf8(digits).unwrap();
    assert!(text == "0" || !text.starts_with('0'));
    text.parse::<u32>().expect("fits in a u32");
}

#[test]
fn out_of_order_captures_abort_the_run() {
    let input = vec![b'a'; 100];
    let r = run(&input, vec![cap("iban", 50, 55), cap("iban", 30, 35)]);
    assert!(matches!(r, Err(RewriteError::OutOfOrder { start: 30, pos: 55 })));
}

#[test]
fn overlapping_captures_abort_the_run() {
    let input = vec![b'a'; 20];
    let r = run(&input, vec![cap("iban", 0, 10), cap("iban", 5, 15)]);
    assert!(matches!(r, Err(RewriteError::OutOfOrder { .. })));
}

#[test]
fn inert_labels_do_not_trip_ordering() {
    // The second capture is unrecognized and out of order; it is inert,
    // so the run succeeds.
    let input = vec![b'a'; 100];
    let out = run(&input, vec![cap("vat_no", 50, 55), cap("nonsense", 30, 35)]).unwrap();
    let mut expected = Vec::new();
    expected.extend_from_slice(&input[..50]);
    expected.extend_from_slice(b"'AT01234567'");
    expected.extend_from_slice(&input[55..]);
    assert_eq!(out, expected);
}

#[test]
fn end_to_end_email_rewrite() {
    let input = b"INSERT INTO t (email) VALUES ('old@example.com');".to_vec();
    let text = std::str::from_utf8(&input).unwrap();
    let start = text.find("'old@example.com'").unwrap();
    let end = start + "'old@example.com'".len();
    let out = run(&input, vec![cap("email", start, end)]).unwrap();

    // Everything outside the quoted literal is byte-identical.
    assert_eq!(&out[..start], &input[..start]);
    let suffix = &input[end..];
    assert_eq!(&out[out.len() - suffix.len()..], suffix);

    // The span itself is a quoted literal again.
    let middle = &out[start..out.len() - suffix.len()];
    assert!(middle.len() >= 2);
    assert_eq!(middle[0], b'\'');
    assert_eq!(middle[middle.len() - 1], b'\'');
    // And it is not the original address.
    assert_ne!(middle, b"'old@example.com'");
}

#[test]
fn structure_is_deterministic_across_runs() {
    // Two runs with the same input and captures: the bytes outside the
    // replaced spans are identical; only the replacements may differ.
    let input = b"head['X']mid['Y']tail".to_vec();
    let caps = || vec![cap("first_name", 5, 8), cap("last_name", 13, 16)];
    let out1 = run(&input, caps()).unwrap();
    let out2 = run(&input, caps()).unwrap();
    for out in [&out1, &out2] {
        assert_eq!(&out[..5], b"head[");
        let after_first = out.windows(5).position(|w| w == b"]mid[").unwrap();
        let tail = &out[out.len() - 6..];
        assert_eq!(tail, b"']tail");
        assert!(after_first > 5);
    }
}

#[test]
fn zero_length_span_inserts_without_removing() {
    let input = b"abcd";
    let out = run(input, vec![cap("vat_no", 2, 2)]).unwrap();
    assert_eq!(out, b"ab'AT01234567'cd".to_vec());
}

#[test]
fn span_reaching_the_input_end() {
    let input = b"abcd";
    let out = run(input, vec![cap("vat_no", 2, 4)]).unwrap();
    assert_eq!(out, b"ab'AT01234567'".to_vec());
}

#[test]
fn plan_gap_measures_the_verbatim_stretch() {
    assert_eq!(plan_gap(0, 10), Some(10));
    assert_eq!(plan_gap(10, 10), Some(0));
    assert_eq!(plan_gap(11, 10), None);
}
