//! Rendering the report as a JSON document with exactly two top-level keys,
//! `processed_rows` and `errors`. Strings are escaped the standard way:
//! `\"` and `\\`, the short escapes `\b \t \n \f \r`, and `\u00XX` with
//! lowercase hex digits for the remaining control characters.
use vstd::prelude::*;
use crate::report::{AccRow, ProcessedRow, ProcessingResult, RejRow, Report, ValidationError};
use crate::text::{comma_join, dec_of, hex_digit, hex_digit_char, lemma_comma_join_push,
    push_chars, push_str, u64_chars};
use crate::validate::pairs_view;

verus! {

/// What one character becomes inside a JSON string literal.
pub open spec fn esc_char(c: char) -> Seq<char> {
    if c == '"' {
        seq!['\\', '"']
    } else if c == '\\' {
        seq!['\\', '\\']
    } else if c == '\u{8}' {
        seq!['\\', 'b']
    } else if c == '\t' {
        seq!['\\', 't']
    } else if c == '\n' {
        seq!['\\', 'n']
    } else if c == '\u{c}' {
        seq!['\\', 'f']
    } else if c == '\r' {
        seq!['\\', 'r']
    } else if (c as u32) < 0x20 {
        seq![
            '\\',
            'u',
            '0',
            '0',
            hex_digit(((c as u32) / 16) as nat),
            hex_digit(((c as u32) % 16) as nat),
        ]
    } else {
        seq![c]
    }
}

/// A whole character sequence escaped for a JSON string literal.
pub open spec fn esc(s: Seq<char>) -> Seq<char>
    decreases s.len(),
{
    if s.len() == 0 {
        Seq::empty()
    } else {
        esc_char(s[0]) + esc(s.drop_first())
    }
}

proof fn lemma_esc_push(a: Seq<char>, c: char)
    ensures
        esc(a.push(c)) == esc(a) + esc_char(c),
    decreases a.len(),
{
    if a.len() == 0 {
        assert(a.push(c).drop_first() =~= Seq::<char>::empty());
        assert(a.push(c)[0] == c);
        assert(a =~= Seq::<char>::empty());
        assert(esc(a) == Seq::<char>::empty());
        assert(esc(a.push(c)) == esc_char(c) + esc(a.push(c).drop_first()));
        assert(esc(a.push(c)) =~= esc(a) + esc_char(c));
    } else {
        lemma_esc_push(a.drop_first(), c);
        assert(a.push(c).drop_first() =~= a.drop_first().push(c));
        assert(a.push(c)[0] == a[0]);
        assert(esc(a.push(c)) == esc_char(a[0]) + esc(a.drop_first().push(c)));
        assert(esc(a.push(c)) =~= esc(a) + esc_char(c));
    }
}

/// A JSON string literal: the escaped characters between double quotes.
pub open spec fn json_string(s: Seq<char>) -> Seq<char> {
    seq!['"'] + esc(s) + seq!['"']
}

fn esc_char_push(out: &mut Vec<char>, c: char)
    ensures
        final(out)@ == old(out)@ + esc_char(c),
{
    if c == '"' {
        out.push('\\');
        out.push('"');
        assert(out@ =~= old(out)@ + esc_char(c));
    } else if c == '\\' {
        out.push('\\');
        out.push('\\');
        assert(out@ =~= old(out)@ + esc_char(c));
    } else if c == '\u{8}' {
        out.push('\\');
        out.push('b');
        assert(out@ =~= old(out)@ + esc_char(c));
    } else if c == '\t' {
        out.push('\\');
        out.push('t');
        assert(out@ =~= old(out)@ + esc_char(c));
    } else if c == '\n' {
        out.push('\\');
        out.push('n');
        assert(out@ =~= old(out)@ + esc_char(c));
    } else if c == '\u{c}' {
        out.push('\\');
        out.push('f');
        assert(out@ =~= old(out)@ + esc_char(c));
    } else if c == '\r' {
        out.push('\\');
        out.push('r');
        assert(out@ =~= old(out)@ + esc_char(c));
    } else if (c as u32) < 0x20 {
        let code = c as u32;
        out.push('\\');
        out.push('u');
        out.push('0');
        out.push('0');
        out.push(hex_digit_char((code / 16) as u8));
        out.push(hex_digit_char((code % 16) as u8));
        assert(out@ =~= old(out)@ + esc_char(c));
    } else {
        out.push(c);
        assert(out@ =~= old(out)@ + esc_char(c));
    }
}

/// Appends the JSON string literal for `s`.
fn json_string_push(out: &mut Vec<char>, s: &Vec<char>)
    ensures
        final(out)@ == old(out)@ + json_string(s@),
{
    out.push('"');
    let mut i: usize = 0;
    while i < s.len()
        invariant
            0 <= i <= s@.len(),
            out@ == old(out)@ + seq!['"'] + esc(s@.take(i as int)),
        decreases s@.len() - i,
    {
        esc_char_push(out, s[i]);
        proof {
            lemma_esc_push(s@.take(i as int), s@[i as int]);
            assert(s@.take(i as int).push(s@[i as int]) =~= s@.take(i + 1));
            assert(old(out)@ + seq!['"'] + esc(s@.take(i as int)) + esc_char(s@[i as int]) =~= old(
                out,
            )@ + seq!['"'] + esc(s@.take(i + 1)));
        }
        i += 1;
    }
    out.push('"');
    proof {
        assert(s@.take(s@.len() as int) =~= s@);
        assert(old(out)@ + seq!['"'] + esc(s@) + seq!['"'] =~= old(out)@ + json_string(s@));
    }
}

/// The text of one `"name":"value"` member of a data object.
pub open spec fn pair_text(p: (Seq<char>, Seq<char>)) -> Seq<char> {
    json_string(p.0) + seq![':'] + json_string(p.1)
}

/// A row's data object: its members in pair order, between braces.
pub open spec fn json_object(ps: Seq<(Seq<char>, Seq<char>)>) -> Seq<char> {
    seq!['{'] + comma_join(ps.map_values(|p: (Seq<char>, Seq<char>)| pair_text(p))) + seq!['}']
}

/// Appends the JSON object for a row's field pairs.
fn json_object_push(out: &mut Vec<char>, pairs: &Vec<(Vec<char>, Vec<char>)>)
    ensures
        final(out)@ == old(out)@ + json_object(pairs_view(pairs@)),
{
    let ghost pv = pairs_view(pairs@);
    let ghost texts = pv.map_values(|p: (Seq<char>, Seq<char>)| pair_text(p));
    out.push('{');
    let mut i: usize = 0;
    while i < pairs.len()
        invariant
            0 <= i <= pairs@.len(),
            pv == pairs_view(pairs@),
            texts == pv.map_values(|p: (Seq<char>, Seq<char>)| pair_text(p)),
            texts.len() == pairs@.len(),
            out@ == old(out)@ + seq!['{'] + comma_join(texts.take(i as int)),
        decreases pairs@.len() - i,
    {
        if i > 0 {
            out.push(',');
        }
        json_string_push(out, &pairs[i].0);
        out.push(':');
        json_string_push(out, &pairs[i].1);
        proof {
            assert(texts[i as int] == pair_text((pairs@[i as int].0@, pairs@[i as int].1@)));
            if i == 0 {
                assert(texts.take(1) =~= seq![texts[0]]);
                assert(comma_join(seq![texts[0]]) == texts[0]);
                assert(out@ =~= old(out)@ + seq!['{'] + comma_join(texts.take(1)));
            } else {
                lemma_comma_join_push(texts.take(i as int), texts[i as int]);
                assert(texts.take(i as int).push(texts[i as int]) =~= texts.take(i + 1));
                assert(out@ =~= old(out)@ + seq!['{'] + comma_join(texts.take(i + 1)));
            }
        }
        i += 1;
    }
    out.push('}');
    proof {
        assert(texts.take(pairs@.len() as int) =~= texts);
        assert(out@ =~= old(out)@ + json_object(pv));
    }
}

/// The document text of one accepted row.
pub open spec fn json_acc(a: AccRow) -> Seq<char> {
    "{\"line\":"@ + dec_of(a.line as nat) + ",\"data\":"@ + json_object(a.pairs) + ",\"hash\":"@
        + json_string(a.hash) + seq!['}']
}

/// The document text of one rejected row; `data` is the literal `null` when
/// the row could not be parsed.
pub open spec fn json_rej(r: RejRow) -> Seq<char> {
    "{\"line\":"@ + dec_of(r.line as nat) + ",\"error\":"@ + json_string(r.msg) + ",\"data\":"@ + (
    match r.pairs {
        Some(ps) => json_object(ps),
        None => "null"@,
    }) + seq!['}']
}

/// The whole document: the two top-level arrays in their fixed order.
pub open spec fn json_report(rep: Report) -> Seq<char> {
    "{\"processed_rows\":["@ + comma_join(rep.accepted.map_values(|a: AccRow| json_acc(a)))
        + "],\"errors\":["@ + comma_join(rep.rejected.map_values(|r: RejRow| json_rej(r))) + seq![
        ']',
        '}',
    ]
}

fn acc_push(out: &mut Vec<char>, row: &ProcessedRow)
    ensures
        final(out)@ == old(out)@ + json_acc(row@),
{
    push_str(out, "{\"line\":");
    let d = u64_chars(row.line);
    push_chars(out, &d);
    push_str(out, ",\"data\":");
    json_object_push(out, &row.data);
    push_str(out, ",\"hash\":");
    json_string_push(out, &row.hash);
    out.push('}');
    assert(out@ =~= old(out)@ + json_acc(row@));
}

fn rej_push(out: &mut Vec<char>, row: &ValidationError)
    ensures
        final(out)@ == old(out)@ + json_rej(row@),
{
    push_str(out, "{\"line\":");
    let d = u64_chars(row.line);
    push_chars(out, &d);
    push_str(out, ",\"error\":");
    json_string_push(out, &row.error);
    push_str(out, ",\"data\":");
    match &row.data {
        Some(pairs) => json_object_push(out, pairs),
        None => push_str(out, "null"),
    }
    out.push('}');
    assert(out@ =~= old(out)@ + json_rej(row@));
}

/// Renders the report as its JSON document. Total: every in-memory report
/// has a rendering, so no serialization failure can arise.
pub fn render_json(result: &ProcessingResult) -> (out: Vec<char>)
    ensures
        out@ == json_report(result@),
{
    let ghost accs = result@.accepted.map_values(|a: AccRow| json_acc(a));
    let ghost rejs = result@.rejected.map_values(|r: RejRow| json_rej(r));
    let mut out: Vec<char> = Vec::new();
    push_str(&mut out, "{\"processed_rows\":[");
    let mut i: usize = 0;
    while i < result.processed_rows.len()
        invariant
            0 <= i <= result.processed_rows@.len(),
            accs == result@.accepted.map_values(|a: AccRow| json_acc(a)),
            accs.len() == result.processed_rows@.len(),
            out@ == "{\"processed_rows\":["@ + comma_join(accs.take(i as int)),
        decreases result.processed_rows@.len() - i,
    {
        if i > 0 {
            out.push(',');
        }
        acc_push(&mut out, &result.processed_rows[i]);
        proof {
            assert(accs[i as int] == json_acc(result.processed_rows@[i as int]@));
            if i == 0 {
                assert(accs.take(1) =~= seq![accs[0]]);
                assert(comma_join(seq![accs[0]]) == accs[0]);
                assert(out@ =~= "{\"processed_rows\":["@ + comma_join(accs.take(1)));
            } else {
                lemma_comma_join_push(accs.take(i as int), accs[i as int]);
                assert(accs.take(i as int).push(accs[i as int]) =~= accs.take(i + 1));
                assert(out@ =~= "{\"processed_rows\":["@ + comma_join(accs.take(i + 1)));
            }
        }
        i += 1;
    }
    proof {
        assert(accs.take(result.processed_rows@.len() as int) =~= accs);
    }
    push_str(&mut out, "],\"errors\":[");
    let ghost mid = "{\"processed_rows\":["@ + comma_join(accs) + "],\"errors\":["@;
    proof {
        assert(out@ =~= mid);
    }
    let mut k: usize = 0;
    while k < result.errors.len()
        invariant
            0 <= k <= result.errors@.len(),
            rejs == result@.rejected.map_values(|r: RejRow| json_rej(r)),
            rejs.len() == result.errors@.len(),
            mid == "{\"processed_rows\":["@ + comma_join(accs) + "],\"errors\":["@,
            out@ == mid + comma_join(rejs.take(k as int)),
        decreases result.errors@.len() - k,
    {
        if k > 0 {
            out.push(',');
        }
        rej_push(&mut out, &result.errors[k]);
        proof {
            assert(rejs[k as int] == json_rej(result.errors@[k as int]@));
            if k == 0 {
                assert(rejs.take(1) =~= seq![rejs[0]]);
                assert(comma_join(seq![rejs[0]]) == rejs[0]);
                assert(out@ =~= mid + comma_join(rejs.take(1)));
            } else {
                lemma_comma_join_push(rejs.take(k as int), rejs[k as int]);
                assert(rejs.take(k as int).push(rejs[k as int]) =~= rejs.take(k + 1));
                assert(out@ =~= mid + comma_join(rejs.take(k + 1)));
            }
        }
        k += 1;
    }
    out.push(']');
    out.push('}');
    proof {
        assert(rejs.take(result.errors@.len() as int) =~= rejs);
        assert(out@ =~= json_report(result@));
    }
    out
}

} // verus!
