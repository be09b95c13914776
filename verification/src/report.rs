//! The result aggregator: runs every record outcome through validation and
//! fingerprinting and partitions the rows into the accepted and rejected
//! buckets of a single report, preserving input order within each bucket.
use vstd::prelude::*;
use crate::digest::{fingerprint_joined, fingerprint_of};
use crate::reader::{ParseFault, RecOut, RecordOutcome, outs_view, parse_all};
use crate::text::{chars_of, push_str, vals_view};
use crate::validate::{joined_of, pairs_of, pairs_view, row_valid, validate};

verus! {

/// The mathematical content of an accepted row: its line number, its
/// field-name/value pairs in header order, and its fingerprint.
pub struct AccRow {
    pub line: int,
    pub pairs: Seq<(Seq<char>, Seq<char>)>,
    pub hash: Seq<char>,
}

/// The mathematical content of a rejected row: its line number, the reason,
/// and its field pairs — absent when the row could not be parsed at all.
pub struct RejRow {
    pub line: int,
    pub msg: Seq<char>,
    pub pairs: Option<Seq<(Seq<char>, Seq<char>)>>,
}

/// The mathematical content of a whole report: every data row falls in
/// exactly one of the two buckets.
pub struct Report {
    pub accepted: Seq<AccRow>,
    pub rejected: Seq<RejRow>,
}

/// The reason given for a row with one or more empty fields.
pub open spec fn empty_fields_msg() -> Seq<char> {
    "Row contains empty fields."@
}

/// The reader's own words for a parse fault.
pub open spec fn parse_fault_text(f: ParseFault) -> Seq<char> {
    match f {
        ParseFault::UnterminatedQuote => "unterminated quoted field"@,
        ParseFault::StrayAfterQuote => "unexpected character after quoted field"@,
    }
}

/// The reason given for a row that could not be parsed.
pub open spec fn parse_fault_msg(f: ParseFault) -> Seq<char> {
    "Failed to parse row: "@ + parse_fault_text(f)
}

/// The report built from the data-row outcomes, the first of which sits on
/// line `line0`. Each outcome contributes exactly one row to exactly one
/// bucket, and line numbers grow by one per outcome.
pub open spec fn build_report(header: Seq<Seq<char>>, data: Seq<RecOut>, line0: int) -> Report
    decreases data.len(),
{
    if data.len() == 0 {
        Report { accepted: Seq::empty(), rejected: Seq::empty() }
    } else {
        let rest = build_report(header, data.drop_first(), line0 + 1);
        match data[0] {
            RecOut::Malformed { fault } => Report {
                accepted: rest.accepted,
                rejected: seq![
                    RejRow { line: line0, msg: parse_fault_msg(fault), pairs: None },
                ] + rest.rejected,
            },
            RecOut::Fields { vals } => {
                if row_valid(header, vals) {
                    Report {
                        accepted: seq![
                            AccRow {
                                line: line0,
                                pairs: pairs_of(header, vals),
                                hash: fingerprint_of(joined_of(header, vals)),
                            },
                        ] + rest.accepted,
                        rejected: rest.rejected,
                    }
                } else {
                    Report {
                        accepted: rest.accepted,
                        rejected: seq![
                            RejRow {
                                line: line0,
                                msg: empty_fields_msg(),
                                pairs: Some(pairs_of(header, vals)),
                            },
                        ] + rest.rejected,
                    }
                }
            },
        }
    }
}

/// The header of a parsed text: the first record when it parsed, the empty
/// sequence otherwise (or when the text is empty).
pub open spec fn header_of(outs: Seq<RecOut>) -> Seq<Seq<char>> {
    if outs.len() > 0 && outs[0] is Fields {
        outs[0]->Fields_vals
    } else {
        Seq::empty()
    }
}

/// The data-row outcomes of a parsed text: everything after the header
/// record. The first data row sits on line 2.
pub open spec fn data_of(outs: Seq<RecOut>) -> Seq<RecOut> {
    if outs.len() > 0 {
        outs.drop_first()
    } else {
        Seq::empty()
    }
}

/// The report of a whole input text.
pub open spec fn report_of(input: Seq<char>) -> Report {
    let outs = parse_all(input, 0);
    build_report(header_of(outs), data_of(outs), 2)
}

/// A row that was accepted: its 1-based source line, its field mapping in
/// header order, and its SHA-256 fingerprint.
pub struct ProcessedRow {
    pub line: u64,
    pub data: Vec<(Vec<char>, Vec<char>)>,
    pub hash: Vec<char>,
}

impl View for ProcessedRow {
    type V = AccRow;

    open spec fn view(&self) -> AccRow {
        AccRow { line: self.line as int, pairs: pairs_view(self.data@), hash: self.hash@ }
    }
}

/// A row that was rejected: its 1-based source line, the reason, and the
/// field mapping — `None` when the row could not be parsed at all.
pub struct ValidationError {
    pub line: u64,
    pub error: Vec<char>,
    pub data: Option<Vec<(Vec<char>, Vec<char>)>>,
}

impl View for ValidationError {
    type V = RejRow;

    open spec fn view(&self) -> RejRow {
        RejRow {
            line: self.line as int,
            msg: self.error@,
            pairs: match self.data {
                Some(d) => Some(pairs_view(d@)),
                None => None,
            },
        }
    }
}

/// The final report: the accepted rows and the rejected rows, each in input
/// order.
pub struct ProcessingResult {
    pub processed_rows: Vec<ProcessedRow>,
    pub errors: Vec<ValidationError>,
}

impl View for ProcessingResult {
    type V = Report;

    open spec fn view(&self) -> Report {
        Report {
            accepted: Seq::new(self.processed_rows@.len(), |i: int| self.processed_rows@[i]@),
            rejected: Seq::new(self.errors@.len(), |i: int| self.errors@[i]@),
        }
    }
}

fn copy_rows(v: &Vec<Vec<char>>) -> (r: Vec<Vec<char>>)
    ensures
        vals_view(r@) == vals_view(v@),
{
    let mut r: Vec<Vec<char>> = Vec::new();
    let mut i: usize = 0;
    while i < v.len()
        invariant
            0 <= i <= v@.len(),
            r@.len() == i,
            forall|j: int| 0 <= j < i ==> r@[j]@ == v@[j]@,
        decreases v@.len() - i,
    {
        let mut row: Vec<char> = Vec::new();
        let mut k: usize = 0;
        while k < v[i].len()
            invariant
                0 <= i < v@.len(),
                0 <= k <= v@[i as int]@.len(),
                row@ == v@[i as int]@.take(k as int),
            decreases v@[i as int]@.len() - k,
        {
            row.push(v[i][k]);
            assert(row@ =~= v@[i as int]@.take(k + 1));
            k += 1;
        }
        assert(row@ =~= v@[i as int]@);
        r.push(row);
        i += 1;
    }
    assert(vals_view(r@) =~= vals_view(v@));
    r
}

/// The message for a rejected row that could not be parsed.
fn parse_fault_message(f: &ParseFault) -> (r: Vec<char>)
    ensures
        r@ == parse_fault_msg(*f),
{
    let mut msg = chars_of("Failed to parse row: ");
    match f {
        ParseFault::UnterminatedQuote => push_str(&mut msg, "unterminated quoted field"),
        ParseFault::StrayAfterQuote => push_str(
            &mut msg,
            "unexpected character after quoted field",
        ),
    }
    msg
}

/// Builds the report from the record outcomes of a whole text: the first
/// outcome is the header slot, every later one is a data row, on line 2
/// plus its position. Each data row lands in exactly one bucket.
pub fn aggregate(outs: &Vec<RecordOutcome>) -> (result: ProcessingResult)
    ensures
        result@ == build_report(header_of(outs_view(outs@)), data_of(outs_view(outs@)), 2),
{
    let ghost all = outs_view(outs@);
    let mut header: Vec<Vec<char>> = Vec::new();
    if outs.len() > 0 {
        match &outs[0] {
            RecordOutcome::Fields(vals) => {
                header = copy_rows(vals);
            },
            RecordOutcome::Malformed(_) => {},
        }
    }
    assert(vals_view(header@) =~~= header_of(all));
    let ghost h = header_of(all);
    let ghost data = data_of(all);
    let mut processed_rows: Vec<ProcessedRow> = Vec::new();
    let mut errors: Vec<ValidationError> = Vec::new();
    let mut i: usize = 1;
    if outs.len() == 0 {
        let result = ProcessingResult { processed_rows, errors };
        assert(result@.accepted =~= build_report(h, data, 2).accepted);
        assert(result@.rejected =~= build_report(h, data, 2).rejected);
        return result;
    }
    proof {
        assert(data.skip(0) =~= data);
        assert(Seq::new(processed_rows@.len(), |k: int| processed_rows@[k]@) + build_report(
            h,
            data,
            2,
        ).accepted =~= build_report(h, data, 2).accepted);
        assert(Seq::new(errors@.len(), |k: int| errors@[k]@) + build_report(h, data, 2).rejected
            =~= build_report(h, data, 2).rejected);
    }
    while i < outs.len()
        invariant
            1 <= i <= outs@.len(),
            all == outs_view(outs@),
            h == header_of(all),
            data == data_of(all),
            vals_view(header@) == h,
            data.len() == outs@.len() - 1,
            forall|j: int| 0 <= j < data.len() ==> data[j] == all[j + 1],
            build_report(h, data, 2).accepted == Seq::new(
                processed_rows@.len(),
                |k: int| processed_rows@[k]@,
            ) + build_report(h, data.skip(i - 1), i + 1).accepted,
            build_report(h, data, 2).rejected == Seq::new(errors@.len(), |k: int| errors@[k]@)
                + build_report(h, data.skip(i - 1), i + 1).rejected,
        decreases outs@.len() - i,
    {
        let ghost tail = data.skip(i - 1);
        proof {
            assert(tail[0] == data[i - 1]);
            assert(data[i - 1] == all[i as int]);
            assert(tail.drop_first() =~= data.skip(i as int));
        }
        let line_num = (i + 1) as u64;
        assert(line_num as int == i + 1);
        match &outs[i] {
            RecordOutcome::Malformed(fault) => {
                let msg = parse_fault_message(fault);
                let entry = ValidationError { line: line_num, error: msg, data: None };
                proof {
                    let rest = build_report(h, data.skip(i as int), i + 2);
                    assert(build_report(h, tail, i + 1).rejected == seq![entry@]
                        + rest.rejected);
                    assert(Seq::new(errors@.push(entry).len(), |k: int| errors@.push(entry)[k]@)
                        =~= Seq::new(errors@.len(), |k: int| errors@[k]@) + seq![entry@]);
                    assert((Seq::new(errors@.len(), |k: int| errors@[k]@) + seq![entry@])
                        + rest.rejected =~= Seq::new(errors@.len(), |k: int| errors@[k]@) + (
                    seq![entry@] + rest.rejected));
                }
                errors.push(entry);
            },
            RecordOutcome::Fields(vals) => {
                let (pairs, valid, joined) = validate(&header, vals);
                if valid {
                    let hash = fingerprint_joined(&joined);
                    let entry = ProcessedRow { line: line_num, data: pairs, hash };
                    proof {
                        let rest = build_report(h, data.skip(i as int), i + 2);
                        assert(build_report(h, tail, i + 1).accepted == seq![entry@]
                            + rest.accepted);
                        assert(Seq::new(
                            processed_rows@.push(entry).len(),
                            |k: int| processed_rows@.push(entry)[k]@,
                        ) =~= Seq::new(processed_rows@.len(), |k: int| processed_rows@[k]@)
                            + seq![entry@]);
                        assert((Seq::new(processed_rows@.len(), |k: int| processed_rows@[k]@)
                            + seq![entry@]) + rest.accepted =~= Seq::new(
                            processed_rows@.len(),
                            |k: int| processed_rows@[k]@,
                        ) + (seq![entry@] + rest.accepted));
                    }
                    processed_rows.push(entry);
                } else {
                    let msg = chars_of("Row contains empty fields.");
                    let entry = ValidationError { line: line_num, error: msg, data: Some(pairs) };
                    proof {
                        let rest = build_report(h, data.skip(i as int), i + 2);
                        assert(build_report(h, tail, i + 1).rejected == seq![entry@]
                            + rest.rejected);
                        assert(Seq::new(
                            errors@.push(entry).len(),
                            |k: int| errors@.push(entry)[k]@,
                        ) =~= Seq::new(errors@.len(), |k: int| errors@[k]@) + seq![entry@]);
                        assert((Seq::new(errors@.len(), |k: int| errors@[k]@) + seq![entry@])
                            + rest.rejected =~= Seq::new(errors@.len(), |k: int| errors@[k]@)
                            + (seq![entry@] + rest.rejected));
                    }
                    errors.push(entry);
                }
            },
        }
        i += 1;
    }
    proof {
        assert(data.skip(outs@.len() - 1) =~= Seq::<RecOut>::empty());
        let done = build_report(h, data.skip(outs@.len() - 1), outs@.len() as int + 1);
        assert(done.accepted =~= Seq::<AccRow>::empty());
        assert(done.rejected =~= Seq::<RejRow>::empty());
    }
    let result = ProcessingResult { processed_rows, errors };
    proof {
        assert(result@.accepted =~= build_report(h, data, 2).accepted);
        assert(result@.rejected =~= build_report(h, data, 2).rejected);
    }
    result
}

} // verus!
