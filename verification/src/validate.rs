//! The row validator: pairs header names with record values positionally,
//! stopping at the shorter of the two sequences, flags the row invalid when
//! any paired value is empty after trimming, and produces the comma-joined
//! raw values that the fingerprint is taken over.
use vstd::prelude::*;
use crate::text::{all_ws, comma_join, field_is_blank, lemma_comma_join_push, push_chars};
use crate::text::vals_view;

verus! {

/// How many header/value pairs a row yields: the shorter of the two lengths.
pub open spec fn zip_len(header: Seq<Seq<char>>, vals: Seq<Seq<char>>) -> int {
    if header.len() <= vals.len() {
        header.len() as int
    } else {
        vals.len() as int
    }
}

/// The field-name/value pairs of a row, in header order, truncated to the
/// shorter of the two sequences.
pub open spec fn pairs_of(header: Seq<Seq<char>>, vals: Seq<Seq<char>>) -> Seq<
    (Seq<char>, Seq<char>),
> {
    Seq::new(zip_len(header, vals) as nat, |i: int| (header[i], vals[i]))
}

/// A row is valid when none of its paired values is empty after trimming.
pub open spec fn row_valid(header: Seq<Seq<char>>, vals: Seq<Seq<char>>) -> bool {
    forall|i: int| 0 <= i < zip_len(header, vals) ==> !all_ws(vals[i])
}

/// The canonical text of a row: its paired raw values, comma-joined.
pub open spec fn joined_of(header: Seq<Seq<char>>, vals: Seq<Seq<char>>) -> Seq<char> {
    comma_join(vals.take(zip_len(header, vals)))
}

/// The pairs of a vector of header/value pairs, as sequences.
pub open spec fn pairs_view(v: Seq<(Vec<char>, Vec<char>)>) -> Seq<(Seq<char>, Seq<char>)> {
    Seq::new(v.len(), |i: int| (v[i].0@, v[i].1@))
}

fn copy_chars(s: &Vec<char>) -> (r: Vec<char>)
    ensures
        r@ == s@,
{
    let mut r: Vec<char> = Vec::new();
    let mut i: usize = 0;
    while i < s.len()
        invariant
            0 <= i <= s@.len(),
            r@ == s@.take(i as int),
        decreases s@.len() - i,
    {
        r.push(s[i]);
        assert(r@ =~= s@.take(i + 1));
        i += 1;
    }
    assert(r@ =~= s@);
    r
}

/// Zips header names with record values, stopping at the shorter sequence.
/// Yields the pairs, whether every paired value is non-empty after trimming,
/// and the comma-joined raw paired values.
pub fn validate(header: &Vec<Vec<char>>, record: &Vec<Vec<char>>) -> (r: (
    Vec<(Vec<char>, Vec<char>)>,
    bool,
    Vec<char>,
))
    ensures
        pairs_view(r.0@) == pairs_of(vals_view(header@), vals_view(record@)),
        r.1 == row_valid(vals_view(header@), vals_view(record@)),
        r.2@ == joined_of(vals_view(header@), vals_view(record@)),
{
    let ghost h = vals_view(header@);
    let ghost v = vals_view(record@);
    let n = if header.len() <= record.len() {
        header.len()
    } else {
        record.len()
    };
    assert(n as int == zip_len(h, v));
    let mut pairs: Vec<(Vec<char>, Vec<char>)> = Vec::new();
    let mut valid = true;
    let mut joined: Vec<char> = Vec::new();
    let mut i: usize = 0;
    while i < n
        invariant
            0 <= i <= n,
            n as int == zip_len(h, v),
            n <= header@.len(),
            n <= record@.len(),
            h == vals_view(header@),
            v == vals_view(record@),
            pairs_view(pairs@) == pairs_of(h, v).take(i as int),
            valid == (forall|j: int| 0 <= j < i ==> !all_ws(v[j])),
            joined@ == comma_join(v.take(i as int)),
        decreases n - i,
    {
        let name = copy_chars(&header[i]);
        let value = copy_chars(&record[i]);
        if field_is_blank(&value) {
            valid = false;
        }
        if i > 0 {
            joined.push(',');
        }
        push_chars(&mut joined, &value);
        proof {
            let x = (name, value);
            assert(pairs_view(pairs@).len() == pairs@.len());
            assert(pairs_of(h, v).take(i as int).len() == i as int);
            assert(pairs@.len() == i);
            assert forall|j: int| 0 <= j < i + 1 implies pairs_view(pairs@.push(x))[j]
                == pairs_of(h, v).take(i + 1)[j] by {
                if j < i {
                    assert(pairs_view(pairs@.push(x))[j] == (pairs@[j].0@, pairs@[j].1@));
                    assert(pairs_view(pairs@)[j] == (pairs@[j].0@, pairs@[j].1@));
                    assert(pairs_view(pairs@)[j] == pairs_of(h, v).take(i as int)[j]);
                } else {
                    assert(pairs@.push(x)[j] == x);
                    assert(name@ == h[j]);
                    assert(value@ == v[j]);
                }
            }
            assert(pairs_view(pairs@.push((name, value))) =~= pairs_of(h, v).take(i + 1));
            if i == 0 {
                assert(v.take(1) =~= seq![v[0]]);
                assert(comma_join(seq![v[0]]) == v[0]);
                assert(joined@ =~= comma_join(v.take(1)));
            } else {
                lemma_comma_join_push(v.take(i as int), v[i as int]);
                assert(v.take(i as int).push(v[i as int]) =~= v.take(i + 1));
                assert(joined@ =~= comma_join(v.take(i as int)) + seq![','] + v[i as int]);
            }
        }
        pairs.push((name, value));
        i += 1;
    }
    proof {
        assert(pairs_of(h, v).take(n as int) =~~= pairs_of(h, v));
        assert(v.take(zip_len(h, v)) == v.take(n as int));
    }
    (pairs, valid, joined)
}

} // verus!
