//! End-to-end tests of `process_csv_data`: the scenarios from the design,
//! the error cases, and the exact output documents.
use processor::process_csv_data;

fn count_arrays(json: &str) -> (usize, usize) {
    let doc: serde_json::Value = serde_json::from_str(json).unwrap();
    let processed = doc["processed_rows"].as_array().unwrap().len();
    let errors = doc["errors"].as_array().unwrap().len();
    (processed, errors)
}

#[test]
fn empty_input_yields_empty_report() {
    assert_eq!(process_csv_data(""), "{\"processed_rows\":[],\"errors\":[]}");
}

#[test]
fn header_only_yields_empty_report() {
    assert_eq!(process_csv_data("a,b\n"), "{\"processed_rows\":[],\"errors\":[]}");
}

#[test]
fn one_accepted_one_rejected() {
    let out = process_csv_data("name,age\nAlice,30\nBob,\n");
    let expected = "{\"processed_rows\":[{\"line\":2,\"data\":{\"name\":\"Alice\",\"age\":\"30\"},\"hash\":\"82c789210523e20e1e37f13b5cc2e325df4bec8aa82f87836d3230fed9e58565\"}],\"errors\":[{\"line\":3,\"error\":\"Row contains empty fields.\",\"data\":{\"name\":\"Bob\",\"age\":\"\"}}]}";
    assert_eq!(out, expected);
}

#[test]
fn processing_is_idempotent() {
    let input = "name,age\nAlice,30\nBob,\n\"oops\nx,y\n";
    let first = process_csv_data(input);
    let second = process_csv_data(input);
    assert_eq!(first, second);
}

#[test]
fn every_data_row_lands_in_exactly_one_bucket() {
    let input = "h1,h2\na,b\n\"bad\nc, \nd,e\n";
    let out = process_csv_data(input);
    let (processed, errors) = count_arrays(&out);
    assert_eq!(processed + errors, 4);
}

#[test]
fn identical_rows_get_identical_hashes() {
    let out = process_csv_data("h1,h2\nv1,v2\nv1,v2\n");
    let doc: serde_json::Value = serde_json::from_str(&out).unwrap();
    let rows = doc["processed_rows"].as_array().unwrap();
    assert_eq!(rows.len(), 2);
    assert_eq!(rows[0]["hash"], rows[1]["hash"]);
    assert_ne!(rows[0]["line"], rows[1]["line"]);
}

#[test]
fn changing_one_character_changes_the_hash() {
    let out = process_csv_data("name,age\nAlice,30\nAlice,31\n");
    let doc: serde_json::Value = serde_json::from_str(&out).unwrap();
    let rows = doc["processed_rows"].as_array().unwrap();
    assert_eq!(
        rows[0]["hash"],
        "82c789210523e20e1e37f13b5cc2e325df4bec8aa82f87836d3230fed9e58565"
    );
    assert_eq!(
        rows[1]["hash"],
        "f48cd1b641b96d71ea152b61a822131a525620bf36a9c5cbcee795807d5fd667"
    );
}

#[test]
fn whitespace_only_field_is_rejected() {
    let out = process_csv_data("a,b\n  ,keep\n");
    let doc: serde_json::Value = serde_json::from_str(&out).unwrap();
    let errors = doc["errors"].as_array().unwrap();
    assert_eq!(errors.len(), 1);
    assert_eq!(errors[0]["error"], "Row contains empty fields.");
    assert_eq!(errors[0]["data"]["a"], "  ");
    assert_eq!(errors[0]["data"]["b"], "keep");
    assert!(doc["processed_rows"].as_array().unwrap().is_empty());
}

#[test]
fn tab_only_field_is_rejected_regardless_of_others() {
    let out = process_csv_data("a,b,c\ngood,\t,fine\n");
    let doc: serde_json::Value = serde_json::from_str(&out).unwrap();
    let errors = doc["errors"].as_array().unwrap();
    assert_eq!(errors.len(), 1);
    assert_eq!(errors[0]["error"], "Row contains empty fields.");
}

#[test]
fn unterminated_quote_rejects_one_row_and_later_rows_still_process() {
    let out = process_csv_data("h1,h2\n\"unterminated\nok1,ok2\n");
    let doc: serde_json::Value = serde_json::from_str(&out).unwrap();
    let errors = doc["errors"].as_array().unwrap();
    assert_eq!(errors.len(), 1);
    assert_eq!(errors[0]["line"], 2);
    assert!(errors[0]["data"].is_null());
    let msg = errors[0]["error"].as_str().unwrap();
    assert!(msg.starts_with("Failed to parse row: "));
    let rows = doc["processed_rows"].as_array().unwrap();
    assert_eq!(rows.len(), 1);
    assert_eq!(rows[0]["line"], 3);
    assert_eq!(rows[0]["data"]["h1"], "ok1");
    assert_eq!(rows[0]["data"]["h2"], "ok2");
    assert_eq!(
        rows[0]["hash"],
        "bcb90658ee8700b728c328469a045e30b472e9edb0ad9c8aeabb65d8ddb063d0"
    );
}

#[test]
fn quoted_fields_carry_commas_and_escaped_quotes() {
    let out = process_csv_data("h1,h2\n\"a,b\",\"c\"\"d\"\n");
    let doc: serde_json::Value = serde_json::from_str(&out).unwrap();
    let rows = doc["processed_rows"].as_array().unwrap();
    assert_eq!(rows.len(), 1);
    assert_eq!(rows[0]["data"]["h1"], "a,b");
    assert_eq!(rows[0]["data"]["h2"], "c\"d");
    assert_eq!(
        rows[0]["hash"],
        "8ab956c1d7ad6d98a173ec48ef4ba1b65805996f22d53ece9f34af6caf65ce01"
    );
}

#[test]
fn quoted_field_carries_line_breaks() {
    let out = process_csv_data("h1,h2\n\"two\nlines\",x\n");
    let doc: serde_json::Value = serde_json::from_str(&out).unwrap();
    let rows = doc["processed_rows"].as_array().unwrap();
    assert_eq!(rows.len(), 1);
    assert_eq!(rows[0]["data"]["h1"], "two\nlines");
    assert_eq!(rows[0]["data"]["h2"], "x");
}

#[test]
fn stray_text_after_closing_quote_is_rejected() {
    let out = process_csv_data("h1\n\"ok\"stray\nfine\n");
    let doc: serde_json::Value = serde_json::from_str(&out).unwrap();
    let errors = doc["errors"].as_array().unwrap();
    assert_eq!(errors.len(), 1);
    assert_eq!(errors[0]["line"], 2);
    assert!(errors[0]["data"].is_null());
    let rows = doc["processed_rows"].as_array().unwrap();
    assert_eq!(rows.len(), 1);
    assert_eq!(rows[0]["data"]["h1"], "fine");
}

#[test]
fn ragged_row_pairs_to_the_shorter_length() {
    let out = process_csv_data("a,b,c\n1,2\n");
    let doc: serde_json::Value = serde_json::from_str(&out).unwrap();
    let rows = doc["processed_rows"].as_array().unwrap();
    assert_eq!(rows.len(), 1);
    assert_eq!(rows[0]["data"]["a"], "1");
    assert_eq!(rows[0]["data"]["b"], "2");
    assert!(rows[0]["data"].get("c").is_none());
    assert_eq!(
        rows[0]["hash"],
        "17f8af97ad4a7f7639a4c9171d5185cbafb85462877a4746c21bdb0a4f940ca0"
    );
}

#[test]
fn extra_values_beyond_the_header_are_dropped() {
    let out = process_csv_data("a\n1,2\n");
    let doc: serde_json::Value = serde_json::from_str(&out).unwrap();
    let rows = doc["processed_rows"].as_array().unwrap();
    assert_eq!(rows.len(), 1);
    assert_eq!(rows[0]["data"]["a"], "1");
    assert_eq!(rows[0]["data"].as_object().unwrap().len(), 1);
}

#[test]
fn crlf_line_endings_are_accepted() {
    let out = process_csv_data("a,b\r\n1,2\r\n");
    let doc: serde_json::Value = serde_json::from_str(&out).unwrap();
    let rows = doc["processed_rows"].as_array().unwrap();
    assert_eq!(rows.len(), 1);
    assert_eq!(rows[0]["data"]["a"], "1");
    assert_eq!(rows[0]["data"]["b"], "2");
    assert_eq!(
        rows[0]["hash"],
        "17f8af97ad4a7f7639a4c9171d5185cbafb85462877a4746c21bdb0a4f940ca0"
    );
}

#[test]
fn blank_lines_produce_no_record() {
    let out = process_csv_data("a,b\n\n1,2\n");
    let doc: serde_json::Value = serde_json::from_str(&out).unwrap();
    let rows = doc["processed_rows"].as_array().unwrap();
    let errors = doc["errors"].as_array().unwrap();
    assert_eq!(rows.len(), 1);
    assert!(errors.is_empty());
    assert_eq!(rows[0]["line"], 2);
}

#[test]
fn special_characters_are_escaped_as_json_strings() {
    let out = process_csv_data("h1\n\"quote\"\" back\\slash tab\tnewline\nend\"\n");
    let doc: serde_json::Value = serde_json::from_str(&out).unwrap();
    let rows = doc["processed_rows"].as_array().unwrap();
    assert_eq!(rows.len(), 1);
    assert_eq!(rows[0]["data"]["h1"], "quote\" back\\slash tab\tnewline\nend");
    assert!(out.contains("quote\\\" back\\\\slash tab\\tnewline\\nend"));
}

#[test]
fn control_characters_get_unicode_escapes() {
    let out = process_csv_data("h\n\"a\u{1}b\"\n");
    assert!(out.contains("a\\u0001b"));
    let doc: serde_json::Value = serde_json::from_str(&out).unwrap();
    let rows = doc["processed_rows"].as_array().unwrap();
    assert_eq!(rows[0]["data"]["h"], "a\u{1}b");
}

#[test]
fn non_breaking_space_only_field_is_rejected() {
    let out = process_csv_data("a,b\n\u{a0},x\n");
    let doc: serde_json::Value = serde_json::from_str(&out).unwrap();
    let errors = doc["errors"].as_array().unwrap();
    assert_eq!(errors.len(), 1);
    assert_eq!(errors[0]["error"], "Row contains empty fields.");
}
