//! Tests of the pipeline's individual stages: the record reader, the row
//! validator, and the fingerprint computer.
use processor::fingerprint;
use sha2::Digest;
use processor::reader::{ParseFault, RecordOutcome};
use processor::read_records;
use processor::validate;

fn chars(s: &str) -> Vec<char> {
    s.chars().collect()
}

fn rows(vals: &[&str]) -> Vec<Vec<char>> {
    vals.iter().map(|v| chars(v)).collect()
}

fn text(v: &[char]) -> String {
    v.iter().collect()
}

#[test]
fn fingerprint_of_empty_value_matches_the_known_vector() {
    let h = fingerprint(&rows(&[""]));
    assert_eq!(
        text(&h),
        "e3b0c44298fc1c149afbf4c8996fb92427ae41e4649b934ca495991b7852b855"
    );
}

#[test]
fn fingerprint_joins_values_with_single_commas() {
    let h = fingerprint(&rows(&["a", "b", "c"]));
    let mut hasher_input = String::new();
    hasher_input.push_str("a,b,c");
    let digest = sha2::Sha256::digest(hasher_input.as_bytes());
    let mut expected = String::new();
    for byte in digest {
        expected.push_str(&format!("{:02x}", byte));
    }
    assert_eq!(text(&h), expected);
}

#[test]
fn fingerprint_of_abc_matches_the_known_vector() {
    let h = fingerprint(&rows(&["abc"]));
    assert_eq!(
        text(&h),
        "ba7816bf8f01cfea414140de5dae2223b00361a396177a9cb410ff61f20015ad"
    );
}

#[test]
fn reader_splits_simple_records() {
    let outs = read_records(&chars("a,b\nc,d\n"));
    assert_eq!(outs.len(), 2);
    match &outs[0] {
        RecordOutcome::Fields(vals) => {
            assert_eq!(vals.len(), 2);
            assert_eq!(text(&vals[0]), "a");
            assert_eq!(text(&vals[1]), "b");
        },
        RecordOutcome::Malformed(_) => panic!("first record should parse"),
    }
    match &outs[1] {
        RecordOutcome::Fields(vals) => {
            assert_eq!(text(&vals[0]), "c");
            assert_eq!(text(&vals[1]), "d");
        },
        RecordOutcome::Malformed(_) => panic!("second record should parse"),
    }
}

#[test]
fn reader_takes_final_record_without_trailing_newline() {
    let outs = read_records(&chars("a,b\nc"));
    assert_eq!(outs.len(), 2);
    match &outs[1] {
        RecordOutcome::Fields(vals) => {
            assert_eq!(vals.len(), 1);
            assert_eq!(text(&vals[0]), "c");
        },
        RecordOutcome::Malformed(_) => panic!("record should parse"),
    }
}

#[test]
fn reader_reports_unterminated_quote_and_resumes() {
    let outs = read_records(&chars("\"open\nnext\n"));
    assert_eq!(outs.len(), 2);
    assert!(matches!(&outs[0], RecordOutcome::Malformed(ParseFault::UnterminatedQuote)));
    match &outs[1] {
        RecordOutcome::Fields(vals) => assert_eq!(text(&vals[0]), "next"),
        RecordOutcome::Malformed(_) => panic!("later record should parse"),
    }
}

#[test]
fn reader_reports_stray_text_after_closing_quote() {
    let outs = read_records(&chars("\"ok\"x\n"));
    assert_eq!(outs.len(), 1);
    assert!(matches!(&outs[0], RecordOutcome::Malformed(ParseFault::StrayAfterQuote)));
}

#[test]
fn validator_pairs_in_header_order_and_joins_raw_values() {
    let header = rows(&["name", "age"]);
    let record = rows(&[" Alice ", "30"]);
    let (pairs, valid, joined) = validate(&header, &record);
    assert!(valid);
    assert_eq!(pairs.len(), 2);
    assert_eq!(text(&pairs[0].0), "name");
    assert_eq!(text(&pairs[0].1), " Alice ");
    assert_eq!(text(&pairs[1].0), "age");
    assert_eq!(text(&pairs[1].1), "30");
    assert_eq!(text(&joined), " Alice ,30");
}

#[test]
fn validator_rejects_whitespace_only_values() {
    let header = rows(&["a", "b"]);
    let record = rows(&["x", " \t "]);
    let (_, valid, _) = validate(&header, &record);
    assert!(!valid);
}

#[test]
fn validator_stops_at_the_shorter_sequence() {
    let header = rows(&["a", "b", "c"]);
    let record = rows(&["1", ""]);
    let (pairs, valid, joined) = validate(&header, &record);
    assert_eq!(pairs.len(), 2);
    assert!(!valid);
    assert_eq!(text(&joined), "1,");
}
