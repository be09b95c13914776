//! Row-by-row CSV processing: parse comma-delimited text with RFC-4180-style
//! quoting, validate each data row for empty fields, fingerprint accepted rows
//! with SHA-256, and render the partitioned report as a JSON document.
use vstd::prelude::*;

pub mod text;
pub mod reader;
pub mod validate;
pub mod digest;
pub mod report;
pub mod json;

pub use crate::digest::fingerprint;
pub use crate::reader::read_records;
pub use crate::report::{aggregate, ProcessedRow, ProcessingResult, ValidationError};
pub use crate::json::render_json;
pub use crate::validate::validate;

use crate::json::json_report;
use crate::reader::{parse_all, RecOut};
use crate::report::{build_report, data_of, report_of};
use crate::text::{chars_of, string_from_chars};

verus! {

/// The JSON document that processing a whole input text produces.
pub open spec fn spec_process(input: Seq<char>) -> Seq<char> {
    json_report(report_of(input))
}

/// Processes comma-delimited text: the first record is the header, every
/// later record is a data row. Each data row is accepted (with its SHA-256
/// fingerprint) or rejected (with a reason), and the report is returned as
/// a JSON document with the two top-level keys `processed_rows` and
/// `errors`. Always returns a document: no input is an error.
pub fn process_csv_data(csv_content: &str) -> (r: String)
    ensures
        r@ == spec_process(csv_content@),
{
    let chars = chars_of(csv_content);
    let outs = read_records(&chars);
    let result = aggregate(&outs);
    let out = render_json(&result);
    string_from_chars(&out)
}

/// Every data row lands in exactly one bucket: over any data-row outcomes,
/// the accepted and rejected rows together number exactly the rows given.
pub proof fn lemma_report_partitions(header: Seq<Seq<char>>, data: Seq<RecOut>, line0: int)
    ensures
        build_report(header, data, line0).accepted.len() + build_report(
            header,
            data,
            line0,
        ).rejected.len() == data.len(),
    decreases data.len(),
{
    if data.len() > 0 {
        lemma_report_partitions(header, data.drop_first(), line0 + 1);
    }
}

/// For any input text, the lengths of `processed_rows` and `errors` add up
/// to the number of data rows the text holds — malformed rows included.
pub proof fn lemma_rows_partition(input: Seq<char>)
    ensures
        report_of(input).accepted.len() + report_of(input).rejected.len() == data_of(
            parse_all(input, 0),
        ).len(),
{
    let outs = parse_all(input, 0);
    lemma_report_partitions(crate::report::header_of(outs), data_of(outs), 2);
}

/// Processing is idempotent: the document is a function of the input text
/// alone, so two runs on identical input yield identical output.
pub proof fn lemma_process_deterministic(a: Seq<char>, b: Seq<char>)
    requires
        a == b,
    ensures
        spec_process(a) == spec_process(b),
{
}

/// Fingerprints are deterministic: two rows with identical raw field values,
/// in order and content, carry identical fingerprints.
pub proof fn lemma_fingerprint_deterministic(a: Seq<Seq<char>>, b: Seq<Seq<char>>)
    requires
        a == b,
    ensures
        crate::digest::fingerprint_of(crate::text::comma_join(a))
            == crate::digest::fingerprint_of(crate::text::comma_join(b)),
{
}

/// Every row of a report carries a line number no smaller than the line of
/// the first outcome it was built from.
pub proof fn lemma_report_lines_bounded(header: Seq<Seq<char>>, data: Seq<RecOut>, line0: int)
    ensures
        forall|m: int| 0 <= m < build_report(header, data, line0).accepted.len()
            ==> #[trigger] build_report(header, data, line0).accepted[m].line >= line0,
        forall|m: int| 0 <= m < build_report(header, data, line0).rejected.len()
            ==> #[trigger] build_report(header, data, line0).rejected[m].line >= line0,
    decreases data.len(),
{
    if data.len() > 0 {
        lemma_report_lines_bounded(header, data.drop_first(), line0 + 1);
    }
}

/// Input order is preserved within each bucket: inside `accepted` and inside
/// `rejected`, line numbers grow strictly.
pub proof fn lemma_buckets_monotonic(header: Seq<Seq<char>>, data: Seq<RecOut>, line0: int)
    ensures
        forall|m: int, m2: int|
            0 <= m < m2 < build_report(header, data, line0).accepted.len()
                ==> #[trigger] build_report(header, data, line0).accepted[m].line
                < #[trigger] build_report(header, data, line0).accepted[m2].line,
        forall|m: int, m2: int|
            0 <= m < m2 < build_report(header, data, line0).rejected.len()
                ==> #[trigger] build_report(header, data, line0).rejected[m].line
                < #[trigger] build_report(header, data, line0).rejected[m2].line,
    decreases data.len(),
{
    if data.len() > 0 {
        lemma_buckets_monotonic(header, data.drop_first(), line0 + 1);
        lemma_report_lines_bounded(header, data.drop_first(), line0 + 1);
    }
}

/// Where each data row lands. A row that did not parse is rejected with the
/// parse-fault reason and no data; a parsed row with some empty-after-trim
/// paired value is rejected with the fixed empty-fields reason and its
/// pairs; any other parsed row is accepted with its pairs and fingerprint.
/// The row keeps its line number, `line0` plus its position.
pub proof fn lemma_row_buckets(header: Seq<Seq<char>>, data: Seq<RecOut>, line0: int, j: int)
    requires
        0 <= j < data.len(),
    ensures
        data[j] matches RecOut::Malformed { fault } ==> build_report(
            header,
            data,
            line0,
        ).rejected.contains(
            crate::report::RejRow {
                line: line0 + j,
                msg: crate::report::parse_fault_msg(fault),
                pairs: None,
            },
        ),
        data[j] matches RecOut::Fields { vals } ==> (!crate::validate::row_valid(header, vals)
            ==> build_report(header, data, line0).rejected.contains(
            crate::report::RejRow {
                line: line0 + j,
                msg: crate::report::empty_fields_msg(),
                pairs: Some(crate::validate::pairs_of(header, vals)),
            },
        )),
        data[j] matches RecOut::Fields { vals } ==> (crate::validate::row_valid(header, vals)
            ==> build_report(header, data, line0).accepted.contains(
            crate::report::AccRow {
                line: line0 + j,
                pairs: crate::validate::pairs_of(header, vals),
                hash: crate::digest::fingerprint_of(crate::validate::joined_of(header, vals)),
            },
        )),
    decreases data.len(),
{
    let rep = build_report(header, data, line0);
    let rest = build_report(header, data.drop_first(), line0 + 1);
    if j == 0 {
        match data[0] {
            RecOut::Malformed { fault } => {
                assert(rep.rejected[0] == (crate::report::RejRow {
                    line: line0,
                    msg: crate::report::parse_fault_msg(fault),
                    pairs: None,
                }));
            },
            RecOut::Fields { vals } => {
                if crate::validate::row_valid(header, vals) {
                    assert(rep.accepted[0] == (crate::report::AccRow {
                        line: line0,
                        pairs: crate::validate::pairs_of(header, vals),
                        hash: crate::digest::fingerprint_of(
                            crate::validate::joined_of(header, vals),
                        ),
                    }));
                } else {
                    assert(rep.rejected[0] == (crate::report::RejRow {
                        line: line0,
                        msg: crate::report::empty_fields_msg(),
                        pairs: Some(crate::validate::pairs_of(header, vals)),
                    }));
                }
            },
        }
    } else {
        lemma_row_buckets(header, data.drop_first(), line0 + 1, j - 1);
        assert(data.drop_first()[j - 1] == data[j]);
        match data[j] {
            RecOut::Malformed { fault } => {
                let e = crate::report::RejRow {
                    line: line0 + j,
                    msg: crate::report::parse_fault_msg(fault),
                    pairs: None,
                };
                let m = choose|m: int| 0 <= m < rest.rejected.len() && rest.rejected[m] == e;
                match data[0] {
                    RecOut::Malformed { fault: f0 } => {
                        assert(rep.rejected[m + 1] == e);
                    },
                    RecOut::Fields { vals: v0 } => {
                        if crate::validate::row_valid(header, v0) {
                            assert(rep.rejected[m] == e);
                        } else {
                            assert(rep.rejected[m + 1] == e);
                        }
                    },
                }
            },
            RecOut::Fields { vals } => {
                if crate::validate::row_valid(header, vals) {
                    let e = crate::report::AccRow {
                        line: line0 + j,
                        pairs: crate::validate::pairs_of(header, vals),
                        hash: crate::digest::fingerprint_of(
                            crate::validate::joined_of(header, vals),
                        ),
                    };
                    let m = choose|m: int| 0 <= m < rest.accepted.len() && rest.accepted[m] == e;
                    match data[0] {
                        RecOut::Malformed { fault: f0 } => {
                            assert(rep.accepted[m] == e);
                        },
                        RecOut::Fields { vals: v0 } => {
                            if crate::validate::row_valid(header, v0) {
                                assert(rep.accepted[m + 1] == e);
                            } else {
                                assert(rep.accepted[m] == e);
                            }
                        },
                    }
                } else {
                    let e = crate::report::RejRow {
                        line: line0 + j,
                        msg: crate::report::empty_fields_msg(),
                        pairs: Some(crate::validate::pairs_of(header, vals)),
                    };
                    let m = choose|m: int| 0 <= m < rest.rejected.len() && rest.rejected[m] == e;
                    match data[0] {
                        RecOut::Malformed { fault: f0 } => {
                            assert(rep.rejected[m + 1] == e);
                        },
                        RecOut::Fields { vals: v0 } => {
                            if crate::validate::row_valid(header, v0) {
                                assert(rep.rejected[m] == e);
                            } else {
                                assert(rep.rejected[m + 1] == e);
                            }
                        },
                    }
                }
            },
        }
    }
}

} // verus!
