//! Character-level utilities shared by the pipeline: whitespace trimming
//! checks, conversions between `&str`/`String` and `Vec<char>`, comma
//! joining, decimal rendering and lowercase hexadecimal rendering.
use vstd::prelude::*;

verus! {

/// True of a character that counts as whitespace when a field value is
/// trimmed: the Unicode `White_Space` set.
pub open spec fn is_ws(c: char) -> bool {
    c == ' ' || c == '\t' || c == '\n' || c == '\u{b}' || c == '\u{c}' || c == '\r'
        || c == '\u{85}' || c == '\u{a0}' || c == '\u{1680}'
        || ('\u{2000}' <= c && c <= '\u{200a}')
        || c == '\u{2028}' || c == '\u{2029}' || c == '\u{202f}' || c == '\u{205f}'
        || c == '\u{3000}'
}

/// True when every character of `s` is whitespace, that is, when `s` trims to
/// the empty string. A field with such a value makes its row invalid.
pub open spec fn all_ws(s: Seq<char>) -> bool {
    forall|i: int| 0 <= i < s.len() ==> is_ws(s[i])
}

/// Whether one field value is empty after trimming.
pub fn field_is_blank(s: &Vec<char>) -> (r: bool)
    ensures
        r == all_ws(s@),
{
    let mut i: usize = 0;
    while i < s.len()
        invariant
            0 <= i <= s@.len(),
            forall|j: int| 0 <= j < i ==> is_ws(s@[j]),
        decreases s@.len() - i,
    {
        let c = s[i];
        let ws = c == ' ' || c == '\t' || c == '\n' || c == '\u{b}' || c == '\u{c}'
            || c == '\r' || c == '\u{85}' || c == '\u{a0}' || c == '\u{1680}'
            || ('\u{2000}' <= c && c <= '\u{200a}') || c == '\u{2028}' || c == '\u{2029}'
            || c == '\u{202f}' || c == '\u{205f}' || c == '\u{3000}';
        if !ws {
            assert(!is_ws(s@[i as int]));
            return false;
        }
        i += 1;
    }
    true
}

/// The characters of `s`, one by one.
pub fn chars_of(s: &str) -> (r: Vec<char>)
    ensures
        r@ == s@,
{
    let n = s.unicode_len();
    let mut r: Vec<char> = Vec::new();
    let mut i: usize = 0;
    while i < n
        invariant
            n == s@.len(),
            0 <= i <= n,
            r@ == s@.take(i as int),
        decreases n - i,
    {
        r.push(s.get_char(i));
        assert(r@ =~= s@.take(i + 1));
        i += 1;
    }
    assert(r@ =~= s@);
    r
}

/// Appends the characters of `s` to `out`.
pub fn push_str(out: &mut Vec<char>, s: &str)
    ensures
        final(out)@ == old(out)@ + s@,
{
    let n = s.unicode_len();
    let mut i: usize = 0;
    while i < n
        invariant
            n == s@.len(),
            0 <= i <= n,
            out@ == old(out)@ + s@.take(i as int),
        decreases n - i,
    {
        out.push(s.get_char(i));
        assert(out@ =~= old(out)@ + s@.take(i + 1));
        i += 1;
    }
    assert(out@ =~= old(out)@ + s@);
}

/// Appends the characters of `s` to `out`.
pub fn push_chars(out: &mut Vec<char>, s: &Vec<char>)
    ensures
        final(out)@ == old(out)@ + s@,
{
    let n = s.len();
    let mut i: usize = 0;
    while i < n
        invariant
            n == s@.len(),
            0 <= i <= n,
            out@ == old(out)@ + s@.take(i as int),
        decreases n - i,
    {
        out.push(s[i]);
        assert(out@ =~= old(out)@ + s@.take(i + 1));
        i += 1;
    }
    assert(out@ =~= old(out)@ + s@);
}

/// Relies on `String::from_iter` over `char`: the returned string consists of
/// exactly the given characters, in order.
#[verifier::external_body]
pub fn string_from_chars(v: &Vec<char>) -> (r: String)
    ensures
        r@ == v@,
{
    v.iter().collect()
}

/// The field values of a sequence of field vectors, as sequences.
pub open spec fn vals_view(v: Seq<Vec<char>>) -> Seq<Seq<char>> {
    Seq::new(v.len(), |i: int| v[i]@)
}

/// The field values joined with a single comma separator, in order, with no
/// trailing separator. The canonical text a row's fingerprint is taken over.
pub open spec fn comma_join(vs: Seq<Seq<char>>) -> Seq<char>
    decreases vs.len(),
{
    if vs.len() == 0 {
        Seq::empty()
    } else if vs.len() == 1 {
        vs[0]
    } else {
        vs[0] + seq![','] + comma_join(vs.drop_first())
    }
}

pub proof fn lemma_comma_join_push(vs: Seq<Seq<char>>, v: Seq<char>)
    requires
        vs.len() > 0,
    ensures
        comma_join(vs.push(v)) == comma_join(vs) + seq![','] + v,
    decreases vs.len(),
{
    if vs.len() == 1 {
        assert(vs.push(v).drop_first() =~= seq![v]);
        assert(comma_join(seq![v]) == v);
        assert(vs.push(v)[0] == vs[0]);
        assert(comma_join(vs.push(v)) == vs[0] + seq![','] + v);
    } else {
        lemma_comma_join_push(vs.drop_first(), v);
        assert(vs.push(v).drop_first() =~= vs.drop_first().push(v));
        assert(vs.push(v)[0] == vs[0]);
        assert(comma_join(vs.push(v)) == vs[0] + seq![','] + (comma_join(vs.drop_first())
            + seq![','] + v));
        assert(vs[0] + seq![','] + (comma_join(vs.drop_first()) + seq![','] + v) =~= (vs[0]
            + seq![','] + comma_join(vs.drop_first())) + seq![','] + v);
    }
}

pub proof fn lemma_hex_of_len(bytes: Seq<u8>)
    ensures
        hex_of(bytes).len() == 2 * bytes.len(),
    decreases bytes.len(),
{
    if bytes.len() > 0 {
        lemma_hex_of_len(bytes.drop_first());
    }
}

/// The field values joined with single commas, in order.
pub fn join_commas(vs: &Vec<Vec<char>>) -> (r: Vec<char>)
    ensures
        r@ == comma_join(vals_view(vs@)),
{
    let ghost v = vals_view(vs@);
    let mut joined: Vec<char> = Vec::new();
    let mut i: usize = 0;
    while i < vs.len()
        invariant
            0 <= i <= vs@.len(),
            v == vals_view(vs@),
            joined@ == comma_join(v.take(i as int)),
        decreases vs@.len() - i,
    {
        if i > 0 {
            joined.push(',');
        }
        push_chars(&mut joined, &vs[i]);
        proof {
            if i == 0 {
                assert(v.take(1) =~= seq![v[0]]);
                assert(comma_join(seq![v[0]]) == v[0]);
                assert(joined@ =~= comma_join(v.take(1)));
            } else {
                lemma_comma_join_push(v.take(i as int), v[i as int]);
                assert(v.take(i as int).push(v[i as int]) =~= v.take(i + 1));
                assert(joined@ =~= comma_join(v.take(i as int)) + seq![','] + v[i as int]);
            }
        }
        i += 1;
    }
    proof {
        assert(v.take(vs@.len() as int) =~= v);
    }
    joined
}

/// The decimal digits of `n`, most significant first, with no sign and no
/// leading zeros (a single `'0'` for zero).
pub open spec fn dec_of(n: nat) -> Seq<char>
    decreases n,
{
    let d = dec_digit(n % 10);
    if n < 10 {
        seq![d]
    } else {
        dec_of(n / 10) + seq![d]
    }
}

/// The character for one decimal digit.
pub open spec fn dec_digit(n: nat) -> char {
    if n == 0 { '0' } else if n == 1 { '1' } else if n == 2 { '2' } else if n == 3 { '3' }
    else if n == 4 { '4' } else if n == 5 { '5' } else if n == 6 { '6' } else if n == 7 { '7' }
    else if n == 8 { '8' } else { '9' }
}

/// The decimal rendering of `n`.
pub fn u64_chars(n: u64) -> (r: Vec<char>)
    ensures
        r@ == dec_of(n as nat),
    decreases n,
{
    let d = match n % 10 {
        0 => '0', 1 => '1', 2 => '2', 3 => '3', 4 => '4',
        5 => '5', 6 => '6', 7 => '7', 8 => '8', _ => '9',
    };
    assert(d == dec_digit(n as nat % 10));
    if n < 10 {
        let mut r: Vec<char> = Vec::new();
        r.push(d);
        assert(r@ =~= dec_of(n as nat));
        r
    } else {
        let mut r = u64_chars(n / 10);
        r.push(d);
        assert(r@ =~= dec_of(n as nat));
        r
    }
}

/// The character for one hexadecimal digit, lowercase.
pub open spec fn hex_digit(n: nat) -> char {
    if n == 0 { '0' } else if n == 1 { '1' } else if n == 2 { '2' } else if n == 3 { '3' }
    else if n == 4 { '4' } else if n == 5 { '5' } else if n == 6 { '6' } else if n == 7 { '7' }
    else if n == 8 { '8' } else if n == 9 { '9' } else if n == 10 { 'a' } else if n == 11 { 'b' }
    else if n == 12 { 'c' } else if n == 13 { 'd' } else if n == 14 { 'e' } else { 'f' }
}

/// The lowercase hexadecimal rendering of a byte sequence: two digits per
/// byte, high nibble first.
pub open spec fn hex_of(bytes: Seq<u8>) -> Seq<char>
    decreases bytes.len(),
{
    if bytes.len() == 0 {
        Seq::empty()
    } else {
        seq![
            hex_digit((bytes[0] / 16) as nat),
            hex_digit((bytes[0] % 16) as nat),
        ] + hex_of(bytes.drop_first())
    }
}

proof fn lemma_hex_of_append(a: Seq<u8>, b: u8)
    ensures
        hex_of(a.push(b)) == hex_of(a) + seq![
            hex_digit((b / 16) as nat),
            hex_digit((b % 16) as nat),
        ],
    decreases a.len(),
{
    if a.len() == 0 {
        reveal_with_fuel(hex_of, 3);
        assert(a.push(b).drop_first() =~= Seq::<u8>::empty());
        assert(a.push(b)[0] == b);
        assert(a =~= Seq::<u8>::empty());
        assert(hex_of(a) == Seq::<char>::empty());
        assert(hex_of(a.push(b)) == seq![
            hex_digit((b / 16) as nat),
            hex_digit((b % 16) as nat),
        ] + hex_of(a.push(b).drop_first()));
        assert(hex_of(a.push(b)) =~= hex_of(a) + seq![
            hex_digit((b / 16) as nat),
            hex_digit((b % 16) as nat),
        ]);
    } else {
        lemma_hex_of_append(a.drop_first(), b);
        assert(a.push(b).drop_first() =~= a.drop_first().push(b));
        assert(a.push(b)[0] == a[0]);
        assert(hex_of(a.push(b)) == seq![
            hex_digit((a[0] / 16) as nat),
            hex_digit((a[0] % 16) as nat),
        ] + hex_of(a.drop_first().push(b)));
        assert(hex_of(a.push(b)) =~= hex_of(a) + seq![
            hex_digit((b / 16) as nat),
            hex_digit((b % 16) as nat),
        ]);
    }
}

pub fn hex_digit_char(n: u8) -> (c: char)
    requires
        n < 16,
    ensures
        c == hex_digit(n as nat),
{
    match n {
        0 => '0', 1 => '1', 2 => '2', 3 => '3', 4 => '4', 5 => '5', 6 => '6', 7 => '7',
        8 => '8', 9 => '9', 10 => 'a', 11 => 'b', 12 => 'c', 13 => 'd', 14 => 'e', _ => 'f',
    }
}

/// The lowercase hexadecimal rendering of `bytes`.
pub fn to_hex(bytes: &Vec<u8>) -> (r: Vec<char>)
    ensures
        r@ == hex_of(bytes@),
{
    let mut r: Vec<char> = Vec::new();
    let mut i: usize = 0;
    while i < bytes.len()
        invariant
            0 <= i <= bytes@.len(),
            r@ == hex_of(bytes@.take(i as int)),
        decreases bytes@.len() - i,
    {
        let b = bytes[i];
        r.push(hex_digit_char(b / 16));
        r.push(hex_digit_char(b % 16));
        proof {
            lemma_hex_of_append(bytes@.take(i as int), bytes@[i as int]);
            assert(bytes@.take(i as int).push(bytes@[i as int]) =~= bytes@.take(i + 1));
        }
        i += 1;
    }
    assert(bytes@.take(bytes@.len() as int) =~= bytes@);
    r
}

} // verus!
