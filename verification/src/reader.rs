//! The record reader: splits raw text into records of comma-separated
//! fields, honoring RFC-4180-style double-quote enclosure. A field that
//! begins with `"` runs to the matching closing quote, with `""` standing
//! for one literal quote and commas and line breaks taken literally inside.
//! A malformed record (an unterminated quote, or stray text after a closing
//! quote) is surfaced as a fault and the reader resynchronizes at the next
//! line boundary. Records are separated by `\n` or `\r\n`; blank lines
//! produce no record.
use vstd::prelude::*;
use crate::text::vals_view;

verus! {

/// The two ways a record can be syntactically malformed.
pub enum ParseFault {
    /// A quoted field whose closing quote never comes.
    UnterminatedQuote,
    /// A character other than a comma or a line break right after a
    /// closing quote.
    StrayAfterQuote,
}

/// The mathematical outcome of reading one record: its field values, or the
/// fault that made it unreadable.
pub enum RecOut {
    Fields { vals: Seq<Seq<char>> },
    Malformed { fault: ParseFault },
}

/// The index of the first `'\n'` at or after `j`, or `s.len()` if none.
pub open spec fn find_nl(s: Seq<char>, j: int) -> int
    decreases s.len() - j,
{
    if j >= s.len() {
        s.len() as int
    } else if s[j] == '\n' {
        j
    } else {
        find_nl(s, j + 1)
    }
}

pub proof fn lemma_find_nl(s: Seq<char>, j: int)
    requires
        0 <= j <= s.len(),
    ensures
        j <= find_nl(s, j) <= s.len(),
    decreases s.len() - j,
{
    if j < s.len() && s[j] != '\n' {
        lemma_find_nl(s, j + 1);
    }
}

/// Where reading continues after a malformed record: just past the next
/// line break at or after `j`, or the end of the text.
pub open spec fn next_line(s: Seq<char>, j: int) -> int {
    if find_nl(s, j) < s.len() {
        find_nl(s, j) + 1
    } else {
        s.len() as int
    }
}

/// Scans the inside of a quoted field, `j` pointing just past the opening
/// quote. Yields the field's content and the index just past the closing
/// quote, or `None` when the quote is never closed. `""` stands for one
/// literal quote; every other character, line breaks included, is content.
pub open spec fn scan_quoted(s: Seq<char>, j: int) -> Option<(Seq<char>, int)>
    decreases s.len() - j,
{
    if j >= s.len() {
        None
    } else if s[j] == '"' {
        if j + 1 < s.len() && s[j + 1] == '"' {
            match scan_quoted(s, j + 2) {
                Some((c, k)) => Some((seq!['"'] + c, k)),
                None => None,
            }
        } else {
            Some((Seq::empty(), j + 1))
        }
    } else {
        match scan_quoted(s, j + 1) {
            Some((c, k)) => Some((seq![s[j]] + c, k)),
            None => None,
        }
    }
}

pub proof fn lemma_scan_quoted_bounds(s: Seq<char>, j: int)
    requires
        0 <= j,
    ensures
        scan_quoted(s, j) matches Some((c, k)) ==> j < k <= s.len(),
    decreases s.len() - j,
{
    if j < s.len() {
        if s[j] == '"' {
            if j + 1 < s.len() && s[j + 1] == '"' {
                lemma_scan_quoted_bounds(s, j + 2);
            }
        } else {
            lemma_scan_quoted_bounds(s, j + 1);
        }
    }
}

/// Scans an unquoted field starting at `j`: its raw content and the index
/// of the terminator (a comma, a line break, or the end of the text).
pub open spec fn scan_raw(s: Seq<char>, j: int) -> (Seq<char>, int)
    decreases s.len() - j,
{
    if j >= s.len() {
        (Seq::empty(), s.len() as int)
    } else if s[j] == ',' || s[j] == '\n' {
        (Seq::empty(), j)
    } else {
        let (c, k) = scan_raw(s, j + 1);
        (seq![s[j]] + c, k)
    }
}

pub proof fn lemma_scan_raw_bounds(s: Seq<char>, j: int)
    requires
        0 <= j <= s.len(),
    ensures
        j <= scan_raw(s, j).1 <= s.len(),
    decreases s.len() - j,
{
    if j < s.len() && s[j] != ',' && s[j] != '\n' {
        lemma_scan_raw_bounds(s, j + 1);
    }
}

/// Prepends one field value to a record outcome; a fault swallows the
/// fields read before it, as the whole record is rejected.
pub open spec fn prepend_field(c: Seq<char>, r: RecOut) -> RecOut {
    match r {
        RecOut::Fields { vals } => RecOut::Fields { vals: seq![c] + vals },
        RecOut::Malformed { fault } => RecOut::Malformed { fault },
    }
}

/// Reads the record starting at `i` (which must not sit on a line break):
/// the outcome, and the index where the next record starts. An unquoted
/// field terminated by `\r\n` sheds the `\r`.
pub open spec fn parse_fields(s: Seq<char>, i: int) -> (RecOut, int)
    decreases s.len() - i,
    when 0 <= i
{
    if i >= s.len() {
        (RecOut::Fields { vals: seq![Seq::empty()] }, s.len() as int)
    } else if s[i] == '"' {
        match scan_quoted(s, i + 1) {
            None => (
                RecOut::Malformed { fault: ParseFault::UnterminatedQuote },
                next_line(s, i + 1),
            ),
            Some((c, k)) => {
                if k >= s.len() {
                    (RecOut::Fields { vals: seq![c] }, s.len() as int)
                } else if s[k] == ',' {
                    proof {
                        lemma_scan_quoted_bounds(s, i + 1);
                    }
                    let (rest, e) = parse_fields(s, k + 1);
                    (prepend_field(c, rest), e)
                } else if s[k] == '\n' {
                    (RecOut::Fields { vals: seq![c] }, k + 1)
                } else if s[k] == '\r' && k + 1 < s.len() && s[k + 1] == '\n' {
                    (RecOut::Fields { vals: seq![c] }, k + 2)
                } else {
                    (
                        RecOut::Malformed { fault: ParseFault::StrayAfterQuote },
                        next_line(s, k),
                    )
                }
            },
        }
    } else {
        let (c, k) = scan_raw(s, i);
        if k >= s.len() {
            (RecOut::Fields { vals: seq![c] }, s.len() as int)
        } else if s[k] == ',' {
            proof {
                lemma_scan_raw_bounds(s, i);
            }
            let (rest, e) = parse_fields(s, k + 1);
            (prepend_field(c, rest), e)
        } else {
            let c2 = if c.len() > 0 && c.last() == '\r' {
                c.drop_last()
            } else {
                c
            };
            (RecOut::Fields { vals: seq![c2] }, k + 1)
        }
    }
}

pub proof fn lemma_parse_fields_bounds(s: Seq<char>, i: int)
    requires
        0 <= i <= s.len(),
    ensures
        i < parse_fields(s, i).1 <= s.len() || (i == s.len() && parse_fields(s, i).1 == s.len()),
    decreases s.len() - i,
{
    if i >= s.len() {
    } else if s[i] == '"' {
        match scan_quoted(s, i + 1) {
            None => {
                lemma_find_nl(s, i + 1);
            },
            Some((c, k)) => {
                lemma_scan_quoted_bounds(s, i + 1);
                if k >= s.len() {
                } else if s[k] == ',' {
                    lemma_parse_fields_bounds(s, k + 1);
                } else if s[k] == '\n' {
                } else if s[k] == '\r' && k + 1 < s.len() && s[k + 1] == '\n' {
                } else {
                    lemma_find_nl(s, k);
                }
            },
        }
    } else {
        let (c, k) = scan_raw(s, i);
        lemma_scan_raw_bounds(s, i);
        if k >= s.len() {
        } else if s[k] == ',' {
            lemma_parse_fields_bounds(s, k + 1);
        } else {
        }
    }
}

/// All record outcomes of the text from `i` on, in order: one per record,
/// none for blank lines.
pub open spec fn parse_all(s: Seq<char>, i: int) -> Seq<RecOut>
    decreases s.len() - i,
    when 0 <= i
{
    if i >= s.len() {
        Seq::empty()
    } else if s[i] == '\n' {
        parse_all(s, i + 1)
    } else if s[i] == '\r' && i + 1 < s.len() && s[i + 1] == '\n' {
        parse_all(s, i + 2)
    } else {
        proof {
            lemma_parse_fields_bounds(s, i);
        }
        let (r, e) = parse_fields(s, i);
        seq![r] + parse_all(s, e)
    }
}

/// The outcome of reading one record, as the pipeline carries it.
pub enum RecordOutcome {
    Fields(Vec<Vec<char>>),
    Malformed(ParseFault),
}

impl View for RecordOutcome {
    type V = RecOut;

    open spec fn view(&self) -> RecOut {
        match self {
            RecordOutcome::Fields(vals) => RecOut::Fields { vals: vals_view(vals@) },
            RecordOutcome::Malformed(fault) => RecOut::Malformed { fault: *fault },
        }
    }
}

/// The outcomes of a vector of records, as the reader's mathematical model
/// sees them.
pub open spec fn outs_view(v: Seq<RecordOutcome>) -> Seq<RecOut> {
    Seq::new(v.len(), |i: int| v[i]@)
}

fn find_nl_exec(s: &Vec<char>, j: usize) -> (r: usize)
    requires
        j <= s@.len(),
    ensures
        r as int == find_nl(s@, j as int),
{
    let mut k = j;
    while k < s.len()
        invariant
            j <= k <= s@.len(),
            find_nl(s@, j as int) == find_nl(s@, k as int),
        decreases s@.len() - k,
    {
        if s[k] == '\n' {
            return k;
        }
        k += 1;
    }
    k
}

fn next_line_exec(s: &Vec<char>, j: usize) -> (r: usize)
    requires
        j <= s@.len(),
    ensures
        r as int == next_line(s@, j as int),
{
    let nl = find_nl_exec(s, j);
    proof {
        lemma_find_nl(s@, j as int);
    }
    if nl < s.len() {
        nl + 1
    } else {
        nl
    }
}

/// Prepends accumulated content to an optional scan result.
spec fn opt_prepend(c: Seq<char>, r: Option<(Seq<char>, int)>) -> Option<(Seq<char>, int)> {
    match r {
        Some((d, k)) => Some((c + d, k)),
        None => None,
    }
}

fn scan_quoted_exec(s: &Vec<char>, j: usize) -> (r: Option<(Vec<char>, usize)>)
    requires
        j <= s@.len(),
    ensures
        match r {
            Some((c, k)) => scan_quoted(s@, j as int) == Some((c@, k as int)) && j < k
                <= s@.len(),
            None => scan_quoted(s@, j as int) is None,
        },
{
    let mut content: Vec<char> = Vec::new();
    let mut k = j;
    loop
        invariant
            j <= k <= s@.len(),
            scan_quoted(s@, j as int) == opt_prepend(content@, scan_quoted(s@, k as int)),
        decreases s@.len() - k,
    {
        if k >= s.len() {
            return None;
        }
        let c = s[k];
        if c == '"' {
            if k + 1 < s.len() && s[k + 1] == '"' {
                proof {
                    let r2 = scan_quoted(s@, k as int + 2);
                    if r2 is Some {
                        let (d, e) = r2.unwrap();
                        assert(content@ + (seq!['"'] + d) =~= content@.push('"') + d);
                    }
                }
                content.push('"');
                k = k + 2;
            } else {
                proof {
                    assert(content@ + Seq::<char>::empty() =~= content@);
                }
                return Some((content, k + 1));
            }
        } else {
            proof {
                let r2 = scan_quoted(s@, k as int + 1);
                if r2 is Some {
                    let (d, e) = r2.unwrap();
                    assert(content@ + (seq![s@[k as int]] + d) =~= content@.push(s@[k as int])
                        + d);
                }
            }
            content.push(c);
            k = k + 1;
        }
    }
}

fn scan_raw_exec(s: &Vec<char>, j: usize) -> (r: (Vec<char>, usize))
    requires
        j <= s@.len(),
    ensures
        scan_raw(s@, j as int) == (r.0@, r.1 as int),
        j <= r.1 <= s@.len(),
{
    let mut content: Vec<char> = Vec::new();
    let mut k = j;
    loop
        invariant
            j <= k <= s@.len(),
            scan_raw(s@, j as int) == (content@ + scan_raw(s@, k as int).0, scan_raw(
                s@,
                k as int,
            ).1),
        decreases s@.len() - k,
    {
        if k >= s.len() {
            proof {
                assert(content@ + Seq::<char>::empty() =~= content@);
            }
            return (content, k);
        }
        let c = s[k];
        if c == ',' || c == '\n' {
            proof {
                assert(content@ + Seq::<char>::empty() =~= content@);
            }
            return (content, k);
        }
        proof {
            let (d, e) = scan_raw(s@, k as int + 1);
            assert(content@ + (seq![s@[k as int]] + d) =~= content@.push(s@[k as int]) + d);
        }
        content.push(c);
        k = k + 1;
    }
}

/// Prepends accumulated field values to a record outcome and its
/// continuation index.
spec fn rec_prepend(vs: Seq<Seq<char>>, r: (RecOut, int)) -> (RecOut, int) {
    (
        match r.0 {
            RecOut::Fields { vals } => RecOut::Fields { vals: vs + vals },
            RecOut::Malformed { fault } => RecOut::Malformed { fault },
        },
        r.1,
    )
}

/// Reads the one record starting at `i`, which must not sit on a line
/// break, and says where the next record starts.
pub fn parse_record(s: &Vec<char>, i: usize) -> (r: (RecordOutcome, usize))
    requires
        i < s@.len(),
        s@[i as int] != '\n',
        !(s@[i as int] == '\r' && i + 1 < s@.len() && s@[i as int + 1] == '\n'),
    ensures
        r.0@ == parse_fields(s@, i as int).0,
        r.1 as int == parse_fields(s@, i as int).1,
        i < r.1 <= s@.len(),
{
    proof {
        lemma_parse_fields_bounds(s@, i as int);
    }
    let mut vals: Vec<Vec<char>> = Vec::new();
    let mut k = i;
    loop
        invariant
            i <= k <= s@.len(),
            parse_fields(s@, i as int) == rec_prepend(vals_view(vals@), parse_fields(s@, k as int)),
            i < parse_fields(s@, i as int).1 <= s@.len(),
        decreases s@.len() - k,
    {
        proof {
            lemma_parse_fields_bounds(s@, k as int);
        }
        if k >= s.len() {
            let empty_field: Vec<char> = Vec::new();
            proof {
                assert(vals_view(vals@.push(empty_field)) =~= vals_view(vals@) + seq![
                    Seq::<char>::empty(),
                ]);
            }
            vals.push(empty_field);
            return (RecordOutcome::Fields(vals), s.len());
        }
        if s[k] == '"' {
            match scan_quoted_exec(s, k + 1) {
                None => {
                    let e = next_line_exec(s, k + 1);
                    proof {
                        lemma_find_nl(s@, k as int + 1);
                    }
                    return (RecordOutcome::Malformed(ParseFault::UnterminatedQuote), e);
                },
                Some((c, q)) => {
                    proof {
                        lemma_scan_quoted_bounds(s@, k as int + 1);
                    }
                    if q >= s.len() {
                        proof {
                            assert(vals_view(vals@.push(c)) =~= vals_view(vals@) + seq![c@]);
                        }
                        vals.push(c);
                        return (RecordOutcome::Fields(vals), s.len());
                    } else if s[q] == ',' {
                        proof {
                            let rest = parse_fields(s@, q as int + 1);
                            assert(vals_view(vals@.push(c)) =~= vals_view(vals@) + seq![c@]);
                            if rest.0 is Fields {
                                let rv = rest.0->Fields_vals;
                                assert((vals_view(vals@) + seq![c@]) + rv =~= vals_view(vals@)
                                    + (seq![c@] + rv));
                            }
                        }
                        vals.push(c);
                        k = q + 1;
                    } else if s[q] == '\n' {
                        proof {
                            assert(vals_view(vals@.push(c)) =~= vals_view(vals@) + seq![c@]);
                        }
                        vals.push(c);
                        return (RecordOutcome::Fields(vals), q + 1);
                    } else if s[q] == '\r' && q + 1 < s.len() && s[q + 1] == '\n' {
                        proof {
                            assert(vals_view(vals@.push(c)) =~= vals_view(vals@) + seq![c@]);
                        }
                        vals.push(c);
                        return (RecordOutcome::Fields(vals), q + 2);
                    } else {
                        let e = next_line_exec(s, q);
                        proof {
                            lemma_find_nl(s@, q as int);
                        }
                        return (RecordOutcome::Malformed(ParseFault::StrayAfterQuote), e);
                    }
                },
            }
        } else {
            let (mut c, e2) = scan_raw_exec(s, k);
            if e2 >= s.len() {
                proof {
                    assert(vals_view(vals@.push(c)) =~= vals_view(vals@) + seq![c@]);
                }
                vals.push(c);
                return (RecordOutcome::Fields(vals), s.len());
            } else if s[e2] == ',' {
                proof {
                    let rest = parse_fields(s@, e2 as int + 1);
                    assert(vals_view(vals@.push(c)) =~= vals_view(vals@) + seq![c@]);
                    if rest.0 is Fields {
                        let rv = rest.0->Fields_vals;
                        assert((vals_view(vals@) + seq![c@]) + rv =~= vals_view(vals@) + (
                        seq![c@] + rv));
                    }
                }
                vals.push(c);
                k = e2 + 1;
            } else {
                if c.len() > 0 && c[c.len() - 1] == '\r' {
                    c.pop();
                    assert(c@ =~= parse_fields(s@, k as int).0->Fields_vals[0]);
                }
                proof {
                    assert(vals_view(vals@.push(c)) =~= vals_view(vals@) + seq![c@]);
                }
                vals.push(c);
                return (RecordOutcome::Fields(vals), e2 + 1);
            }
        }
    }
}

/// Splits the whole text into record outcomes, one per record, in order.
/// Blank lines produce no record; a malformed record is reported as its
/// fault and reading resumes at the next line boundary.
pub fn read_records(s: &Vec<char>) -> (outs: Vec<RecordOutcome>)
    ensures
        outs_view(outs@) == parse_all(s@, 0),
{
    let mut outs: Vec<RecordOutcome> = Vec::new();
    let mut i: usize = 0;
    while i < s.len()
        invariant
            0 <= i <= s@.len(),
            parse_all(s@, 0) == outs_view(outs@) + parse_all(s@, i as int),
        decreases s@.len() - i,
    {
        if s[i] == '\n' {
            i += 1;
        } else if s[i] == '\r' && i + 1 < s.len() && s[i + 1] == '\n' {
            i += 2;
        } else {
            let (r, e) = parse_record(s, i);
            proof {
                let tail = parse_all(s@, e as int);
                assert(outs_view(outs@.push(r)) =~= outs_view(outs@) + seq![r@]);
                assert((outs_view(outs@) + seq![r@]) + tail =~= outs_view(outs@) + (seq![r@]
                    + tail));
            }
            outs.push(r);
            i = e;
        }
    }
    proof {
        assert(parse_all(s@, s@.len() as int) =~= Seq::<RecOut>::empty());
        assert(outs_view(outs@) + Seq::<RecOut>::empty() =~= outs_view(outs@));
    }
    outs
}

} // verus!
