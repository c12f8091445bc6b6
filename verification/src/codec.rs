use vstd::prelude::*;

use crate::reading_list::{ReadingList, RecView, views};
use crate::errors::StoreError;
use vstd::string::StrSliceExecFns;
use vstd::string::StringExecFns;

verus! {

// ---------------------------------------------------------------------------
// The on-disk schema of the store: one header line, then one row per record,
// columns `id,url,read,weight`. The string columns are always quoted, with
// inner quotes doubled, so any id or url round-trips; `read` is a bare
// boolean literal and `weight` a bare decimal integer.
// ---------------------------------------------------------------------------

/// A record the schema can carry: the weight fits the stored integer width.
pub open spec fn rec_valid(r: RecView) -> bool {
    i32::MIN <= r.weight <= i32::MAX
}

pub open spec fn seq_valid(s: Seq<RecView>) -> bool {
    forall|i: int| 0 <= i < s.len() ==> rec_valid(#[trigger] s[i])
}

/// A string column's content with every inner quote doubled.
pub open spec fn esc(s: Seq<char>) -> Seq<char>
    decreases s.len(),
{
    if s.len() == 0 {
        Seq::empty()
    } else if s[0] == '"' {
        seq!['"', '"'] + esc(s.drop_first())
    } else {
        seq![s[0]] + esc(s.drop_first())
    }
}

/// A quoted string column.
pub open spec fn enc_str(s: Seq<char>) -> Seq<char> {
    seq!['"'] + esc(s) + seq!['"']
}

pub open spec fn enc_bool(b: bool) -> Seq<char> {
    if b {
        seq!['t', 'r', 'u', 'e']
    } else {
        seq!['f', 'a', 'l', 's', 'e']
    }
}

pub open spec fn digit_char(d: int) -> char {
    (48 + d) as char
}

pub open spec fn is_digit(c: char) -> bool {
    48 <= c as int <= 57
}

pub open spec fn dval(c: char) -> int {
    c as int - 48
}

/// Decimal digits of `n`, most significant first, no sign, no leading zeros.
pub open spec fn spec_digits(n: nat) -> Seq<char>
    decreases n,
{
    if n < 10 {
        seq![digit_char(n as int)]
    } else {
        spec_digits(n / 10) + seq![digit_char((n % 10) as int)]
    }
}

/// The weight column: an optional minus sign, then decimal digits.
pub open spec fn enc_weight(w: int) -> Seq<char> {
    if w < 0 {
        seq!['-'] + spec_digits((-w) as nat)
    } else {
        spec_digits(w as nat)
    }
}

pub open spec fn enc_row(r: RecView) -> Seq<char> {
    enc_str(r.id) + seq![','] + enc_str(r.url) + seq![','] + enc_bool(r.read) + seq![',']
        + enc_weight(r.weight) + seq!['\n']
}

pub open spec fn enc_rows(s: Seq<RecView>) -> Seq<char>
    decreases s.len(),
{
    if s.len() == 0 {
        Seq::empty()
    } else {
        enc_row(s[0]) + enc_rows(s.drop_first())
    }
}

pub open spec fn header() -> Seq<char> {
    seq!['i', 'd', ',', 'u', 'r', 'l', ',', 'r', 'e', 'a', 'd', ',', 'w', 'e', 'i', 'g', 'h', 't', '\n']
}

/// The persisted file for a record set: the header line, then the rows.
pub open spec fn enc_file(s: Seq<RecView>) -> Seq<char> {
    header() + enc_rows(s)
}

// ---------------------------------------------------------------------------
// The parsing side: front-consuming functions from the remaining content to
// the parsed value and the content after it.
// ---------------------------------------------------------------------------

/// The body of a quoted column, entered after its opening quote: the column
/// content (doubled quotes collapsed) and what follows the closing quote.
pub open spec fn parse_qbody(s: Seq<char>) -> Option<(Seq<char>, Seq<char>)>
    decreases s.len(),
{
    if s.len() == 0 {
        None
    } else if s[0] == '"' {
        if s.len() >= 2 && s[1] == '"' {
            match parse_qbody(s.skip(2)) {
                Option::None => None,
                Option::Some((f, r)) => Some((seq!['"'] + f, r)),
            }
        } else {
            Some((Seq::empty(), s.skip(1)))
        }
    } else {
        match parse_qbody(s.skip(1)) {
            Option::None => None,
            Option::Some((f, r)) => Some((seq![s[0]] + f, r)),
        }
    }
}

/// A whole quoted column, opening quote included.
pub open spec fn parse_qfield(s: Seq<char>) -> Option<(Seq<char>, Seq<char>)> {
    if s.len() > 0 && s[0] == '"' {
        parse_qbody(s.skip(1))
    } else {
        None
    }
}

pub open spec fn parse_comma(s: Seq<char>) -> Option<Seq<char>> {
    if s.len() > 0 && s[0] == ',' {
        Some(s.skip(1))
    } else {
        None
    }
}

pub open spec fn parse_newline(s: Seq<char>) -> Option<Seq<char>> {
    if s.len() > 0 && s[0] == '\n' {
        Some(s.skip(1))
    } else {
        None
    }
}

pub open spec fn parse_bool(s: Seq<char>) -> Option<(bool, Seq<char>)> {
    if s.len() >= 4 && s[0] == 't' && s[1] == 'r' && s[2] == 'u' && s[3] == 'e' {
        Some((true, s.skip(4)))
    } else if s.len() >= 5 && s[0] == 'f' && s[1] == 'a' && s[2] == 'l' && s[3] == 's' && s[4]
        == 'e' {
        Some((false, s.skip(5)))
    } else {
        None
    }
}

/// Consume leading digits, folding them onto `acc`.
pub open spec fn parse_digits(s: Seq<char>, acc: nat) -> (nat, Seq<char>)
    decreases s.len(),
{
    if s.len() > 0 && is_digit(s[0]) {
        parse_digits(s.skip(1), acc * 10 + dval(s[0]) as nat)
    } else {
        (acc, s)
    }
}

/// The weight column: an optional minus sign, at least one digit, and a
/// value that fits the stored integer width.
pub open spec fn parse_weight(s: Seq<char>) -> Option<(int, Seq<char>)> {
    if s.len() >= 2 && s[0] == '-' && is_digit(s[1]) {
        let (v, r) = parse_digits(s.skip(1), 0);
        if -(v as int) >= i32::MIN {
            Some((-(v as int), r))
        } else {
            None
        }
    } else if s.len() >= 1 && is_digit(s[0]) {
        let (v, r) = parse_digits(s, 0);
        if v <= i32::MAX {
            Some((v as int, r))
        } else {
            None
        }
    } else {
        None
    }
}

/// One data row against the schema: four columns and the terminating
/// line break.
pub open spec fn parse_row(s: Seq<char>) -> Option<(RecView, Seq<char>)> {
    match parse_qfield(s) {
        Option::None => None,
        Option::Some((id, s1)) => match parse_comma(s1) {
            Option::None => None,
            Option::Some(s2) => match parse_qfield(s2) {
                Option::None => None,
                Option::Some((url, s3)) => match parse_comma(s3) {
                    Option::None => None,
                    Option::Some(s4) => match parse_bool(s4) {
                        Option::None => None,
                        Option::Some((b, s5)) => match parse_comma(s5) {
                            Option::None => None,
                            Option::Some(s6) => match parse_weight(s6) {
                                Option::None => None,
                                Option::Some((w, s7)) => match parse_newline(s7) {
                                    Option::None => None,
                                    Option::Some(s8) => Some(
                                        (RecView { id, url, read: b, weight: w }, s8),
                                    ),
                                },
                            },
                        },
                    },
                },
            },
        },
    }
}

/// All data rows. `Err(k)` says the k-th data row (0-based) is malformed.
pub open spec fn parse_rows(s: Seq<char>) -> Result<Seq<RecView>, int>
    decreases s.len(),
{
    if s.len() == 0 {
        Ok(Seq::empty())
    } else {
        match parse_row(s) {
            Option::None => Err(0),
            Option::Some((r, rest)) => if rest.len() < s.len() {
                match parse_rows(rest) {
                    Result::Ok(t) => Ok(seq![r] + t),
                    Result::Err(k) => Err(k + 1),
                }
            } else {
                Err(0)
            },
        }
    }
}

/// A whole store file. `Err(0)` names the header line, `Err(k)` with k >= 1
/// the k-th data row.
pub open spec fn parse_file(s: Seq<char>) -> Result<Seq<RecView>, int> {
    if s.len() >= header().len() && s.take(header().len() as int) == header() {
        match parse_rows(s.skip(header().len() as int)) {
            Result::Ok(t) => Ok(t),
            Result::Err(k) => Err(k + 1),
        }
    } else {
        Err(0)
    }
}

// ---------------------------------------------------------------------------
// Round trip: parsing what the encoder wrote yields the record set back.
// ---------------------------------------------------------------------------

pub open spec fn pow10(k: nat) -> nat
    decreases k,
{
    if k == 0 {
        1
    } else {
        10 * pow10((k - 1) as nat)
    }
}

proof fn lemma_qbody_of_esc(f: Seq<char>, rest: Seq<char>)
    requires
        rest.len() == 0 || rest[0] != '"',
    ensures
        parse_qbody(esc(f) + seq!['"'] + rest) == Some((f, rest)),
    decreases f.len(),
{
    let s = esc(f) + seq!['"'] + rest;
    if f.len() == 0 {
        assert(esc(f) =~= Seq::<char>::empty());
        assert(s =~= seq!['"'] + rest);
        assert(s[0] == '"');
        if s.len() >= 2 {
            assert(s[1] == rest[0]);
        }
        assert(s.skip(1) =~= rest);
        assert(parse_qbody(s) == Some((Seq::<char>::empty(), rest)));
        assert(Seq::<char>::empty() =~= f);
    } else if f[0] == '"' {
        let f1 = f.drop_first();
        assert(esc(f) =~= seq!['"', '"'] + esc(f1));
        assert(s[0] == '"' && s[1] == '"');
        assert(s.skip(2) =~= esc(f1) + seq!['"'] + rest);
        lemma_qbody_of_esc(f1, rest);
        assert(seq!['"'] + f1 =~= f);
    } else {
        let f1 = f.drop_first();
        assert(esc(f) =~= seq![f[0]] + esc(f1));
        assert(s[0] == f[0]);
        assert(s.skip(1) =~= esc(f1) + seq!['"'] + rest);
        lemma_qbody_of_esc(f1, rest);
        assert(seq![f[0]] + f1 =~= f);
    }
}

proof fn lemma_digits_first(n: nat)
    ensures
        spec_digits(n).len() >= 1,
        is_digit(spec_digits(n)[0]),
    decreases n,
{
    if n < 10 {
        assert(digit_char(n as int) as int == 48 + n);
    } else {
        lemma_digits_first(n / 10);
        assert(spec_digits(n)[0] == spec_digits(n / 10)[0]);
    }
}

proof fn lemma_parse_digits_of_enc(m: nat, rest: Seq<char>, a: nat)
    ensures
        parse_digits(spec_digits(m) + rest, a) == parse_digits(
            rest,
            a * pow10(spec_digits(m).len()) + m,
        ),
    decreases m,
{
    let s = spec_digits(m) + rest;
    if m < 10 {
        assert(spec_digits(m) =~= seq![digit_char(m as int)]);
        assert(s[0] == digit_char(m as int));
        assert(digit_char(m as int) as int == 48 + m);
        assert(is_digit(s[0]));
        assert(dval(s[0]) == m);
        assert(s.skip(1) =~= rest);
        assert(pow10(1) == 10 * pow10(0));
        assert(a * 10 + m == a * pow10(spec_digits(m).len()) + m);
    } else {
        let hi = spec_digits(m / 10);
        let lo = seq![digit_char((m % 10) as int)];
        assert(spec_digits(m) == hi + lo);
        assert(s =~= hi + (lo + rest));
        lemma_parse_digits_of_enc(m / 10, lo + rest, a);
        let a2 = a * pow10(hi.len()) + m / 10;
        assert((lo + rest)[0] == digit_char((m % 10) as int));
        assert(digit_char((m % 10) as int) as int == 48 + (m % 10));
        assert(is_digit((lo + rest)[0]));
        assert(dval((lo + rest)[0]) == m % 10);
        assert((lo + rest).skip(1) =~= rest);
        assert(parse_digits(lo + rest, a2) == parse_digits(rest, a2 * 10 + (m % 10)));
        assert(spec_digits(m).len() == hi.len() + 1);
        assert(pow10(hi.len() + 1) == 10 * pow10(hi.len()));
        assert(a2 * 10 + (m % 10) == a * pow10(hi.len() + 1) + m) by (nonlinear_arith)
            requires
                a2 == a * pow10(hi.len()) + m / 10,
                pow10(hi.len() + 1) == 10 * pow10(hi.len()),
                m >= 10,
        ;
    }
}

proof fn lemma_weight_round_trip(w: int, rest: Seq<char>)
    requires
        i32::MIN <= w <= i32::MAX,
        rest.len() > 0,
        !is_digit(rest[0]),
    ensures
        parse_weight(enc_weight(w) + rest) == Some((w, rest)),
{
    let s = enc_weight(w) + rest;
    if w < 0 {
        let m = (-w) as nat;
        lemma_digits_first(m);
        assert(s[0] == '-');
        assert(s.skip(1) =~= spec_digits(m) + rest);
        assert(s[1] == spec_digits(m)[0]);
        assert(is_digit(s[1]));
        lemma_parse_digits_of_enc(m, rest, 0);
        assert(0 * pow10(spec_digits(m).len()) + m == m);
        assert(parse_digits(rest, m) == (m, rest));
        assert(parse_digits(s.skip(1), 0) == (m, rest));
        assert(-(m as int) == w);
    } else {
        let m = w as nat;
        lemma_digits_first(m);
        assert(s[0] == spec_digits(m)[0]);
        assert(is_digit(s[0]));
        assert('-' as int == 45);
        assert(s[0] != '-');
        lemma_parse_digits_of_enc(m, rest, 0);
        assert(0 * pow10(spec_digits(m).len()) + m == m);
        assert(parse_digits(rest, m) == (m, rest));
        assert(parse_digits(s, 0) == (m, rest)) by {
            assert(s =~= spec_digits(m) + rest);
        }
    }
}

proof fn lemma_bool_round_trip(b: bool, rest: Seq<char>)
    ensures
        parse_bool(enc_bool(b) + rest) == Some((b, rest)),
{
    let s = enc_bool(b) + rest;
    if b {
        assert(s[0] == 't' && s[1] == 'r' && s[2] == 'u' && s[3] == 'e');
        assert(s.skip(4) =~= rest);
    } else {
        assert(s[0] == 'f' && s[1] == 'a' && s[2] == 'l' && s[3] == 's' && s[4] == 'e');
        assert(s.skip(5) =~= rest);
    }
}

proof fn lemma_row_round_trip(r: RecView, rest: Seq<char>)
    requires
        rec_valid(r),
    ensures
        parse_row(enc_row(r) + rest) == Some((r, rest)),
{
    let s = enc_row(r) + rest;
    let t8 = rest;
    let t7 = seq!['\n'] + t8;
    let t6 = enc_weight(r.weight) + t7;
    let t5 = seq![','] + t6;
    let t4 = enc_bool(r.read) + t5;
    let t3 = seq![','] + t4;
    let t2 = enc_str(r.url) + t3;
    let t1 = seq![','] + t2;

    assert(s =~= seq!['"'] + (esc(r.id) + seq!['"'] + t1));
    assert(s[0] == '"');
    assert(s.skip(1) =~= esc(r.id) + seq!['"'] + t1);
    assert(t1[0] == ',');
    lemma_qbody_of_esc(r.id, t1);
    assert(parse_qfield(s) == Some((r.id, t1)));

    assert(t1.skip(1) =~= t2);
    assert(parse_comma(t1) == Some(t2));

    assert(t2 =~= seq!['"'] + (esc(r.url) + seq!['"'] + t3));
    assert(t2[0] == '"');
    assert(t2.skip(1) =~= esc(r.url) + seq!['"'] + t3);
    assert(t3[0] == ',');
    lemma_qbody_of_esc(r.url, t3);
    assert(parse_qfield(t2) == Some((r.url, t3)));

    assert(t3.skip(1) =~= t4);
    assert(parse_comma(t3) == Some(t4));

    lemma_bool_round_trip(r.read, t5);
    assert(parse_bool(t4) == Some((r.read, t5)));

    assert(t5.skip(1) =~= t6);
    assert(parse_comma(t5) == Some(t6));

    assert(t7[0] == '\n');
    assert('\n' as int == 10);
    assert(!is_digit(t7[0]));
    lemma_weight_round_trip(r.weight, t7);
    assert(parse_weight(t6) == Some((r.weight, t7)));

    assert(t7.skip(1) =~= t8);
    assert(parse_newline(t7) == Some(t8));

    assert(RecView { id: r.id, url: r.url, read: r.read, weight: r.weight } == r);
}

proof fn lemma_rows_round_trip(s: Seq<RecView>)
    requires
        seq_valid(s),
    ensures
        parse_rows(enc_rows(s)) == Ok::<Seq<RecView>, int>(s),
    decreases s.len(),
{
    if s.len() == 0 {
        assert(enc_rows(s).len() == 0);
        assert(parse_rows(enc_rows(s)) == Ok::<Seq<RecView>, int>(Seq::<RecView>::empty()));
        assert(Seq::<RecView>::empty() =~= s);
    } else {
        let r0 = s[0];
        let tail = s.drop_first();
        assert(rec_valid(r0));
        lemma_row_round_trip(r0, enc_rows(tail));
        assert(enc_row(r0).len() >= 1);
        assert(enc_rows(s) == enc_row(r0) + enc_rows(tail));
        assert(enc_rows(s).len() >= 1);
        assert(enc_rows(tail).len() < enc_rows(s).len());
        assert forall|k: int| 0 <= k < tail.len() implies rec_valid(#[trigger] tail[k]) by {
            assert(tail[k] == s[k + 1]);
        }
        lemma_rows_round_trip(tail);
        assert(seq![r0] + tail =~= s);
    }
}

// ---------------------------------------------------------------------------
// The executable encoder.
// ---------------------------------------------------------------------------

proof fn lemma_esc_push(t: Seq<char>, c: char)
    ensures
        esc(t.push(c)) == esc(t) + (if c == '"' {
            seq!['"', '"']
        } else {
            seq![c]
        }),
    decreases t.len(),
{
    let u = t.push(c);
    let suffix = if c == '"' {
        seq!['"', '"']
    } else {
        seq![c]
    };
    if t.len() == 0 {
        assert(u.len() == 1 && u[0] == c);
        assert(u.drop_first() =~= Seq::<char>::empty());
        assert(esc(u.drop_first()) == Seq::<char>::empty());
        if c == '"' {
            assert(esc(u) == seq!['"', '"'] + esc(u.drop_first()));
        } else {
            assert(esc(u) == seq![c] + esc(u.drop_first()));
        }
        assert(esc(t) == Seq::<char>::empty());
        assert(esc(u) =~= esc(t) + suffix);
    } else {
        assert(u[0] == t[0]);
        assert(u.drop_first() =~= t.drop_first().push(c));
        lemma_esc_push(t.drop_first(), c);
        assert(esc(u.drop_first()) == esc(t.drop_first()) + suffix);
        if t[0] == '"' {
            assert(esc(u) == seq!['"', '"'] + esc(u.drop_first()));
            assert(esc(t) == seq!['"', '"'] + esc(t.drop_first()));
        } else {
            assert(esc(u) == seq![u[0]] + esc(u.drop_first()));
            assert(esc(t) == seq![t[0]] + esc(t.drop_first()));
        }
        assert(esc(u) =~= esc(t) + suffix);
    }
}

pub(crate) fn digit_str(d: u64) -> (r: &'static str)
    requires
        d < 10,
    ensures
        r@ == seq![digit_char(d as int)],
{
    proof {
        reveal_strlit("0");
        reveal_strlit("1");
        reveal_strlit("2");
        reveal_strlit("3");
        reveal_strlit("4");
        reveal_strlit("5");
        reveal_strlit("6");
        reveal_strlit("7");
        reveal_strlit("8");
        reveal_strlit("9");
    }
    match d {
        0 => "0",
        1 => "1",
        2 => "2",
        3 => "3",
        4 => "4",
        5 => "5",
        6 => "6",
        7 => "7",
        8 => "8",
        _ => "9",
    }
}

pub(crate) fn push_digits(out: &mut String, n: u64)
    ensures
        final(out)@ == old(out)@ + spec_digits(n as nat),
    decreases n,
{
    if n < 10 {
        let d = digit_str(n);
        out.append(d);
        assert(out@ =~= old(out)@ + spec_digits(n as nat));
    } else {
        push_digits(out, n / 10);
        let d = digit_str(n % 10);
        out.append(d);
        assert((n / 10) as nat == (n as nat) / 10);
        assert((n % 10) as nat == (n as nat) % 10);
        assert(out@ =~= old(out)@ + spec_digits(n as nat));
    }
}

fn push_escaped(out: &mut String, s: &str)
    ensures
        final(out)@ == old(out)@ + esc(s@),
{
    let n = s.unicode_len();
    let mut i: usize = 0;
    while i < n
        invariant
            i <= n,
            n == s@.len(),
            out@ == old(out)@ + esc(s@.take(i as int)),
        decreases n - i,
    {
        let c = s.get_char(i);
        proof {
            lemma_esc_push(s@.take(i as int), c);
            assert(s@.take(i as int).push(c) =~= s@.take(i as int + 1));
        }
        if c == '"' {
            out.append("\"\"");
            proof {
                reveal_strlit("\"\"");
                assert("\"\""@ =~= seq!['"', '"']);
                assert(out@ =~= old(out)@ + esc(s@.take(i as int + 1)));
            }
        } else {
            let piece = s.substring_char(i, i + 1);
            out.append(piece);
            proof {
                assert(piece@ =~= seq![s@[i as int]]);
                assert(out@ =~= old(out)@ + esc(s@.take(i as int + 1)));
            }
        }
        i = i + 1;
    }
    proof {
        assert(s@.take(n as int) =~= s@);
    }
}

fn push_quoted(out: &mut String, s: &str)
    ensures
        final(out)@ == old(out)@ + enc_str(s@),
{
    out.append("\"");
    push_escaped(out, s);
    out.append("\"");
    proof {
        reveal_strlit("\"");
        assert("\""@ =~= seq!['"']);
        assert(out@ =~= old(out)@ + enc_str(s@));
    }
}

fn push_weight(out: &mut String, w: i32)
    ensures
        final(out)@ == old(out)@ + enc_weight(w as int),
{
    if w < 0 {
        out.append("-");
        let m: u64 = (-(w as i64)) as u64;
        push_digits(out, m);
        proof {
            reveal_strlit("-");
            assert("-"@ =~= seq!['-']);
            assert(m as nat == (-(w as int)) as nat);
            assert(out@ =~= old(out)@ + enc_weight(w as int));
        }
    } else {
        let m: u64 = w as u64;
        push_digits(out, m);
        proof {
            assert(m as nat == (w as int) as nat);
        }
    }
}

fn push_row(out: &mut String, r: &ReadingList)
    ensures
        final(out)@ == old(out)@ + enc_row(r@),
{
    proof {
        reveal_strlit(",");
        reveal_strlit("true");
        reveal_strlit("false");
        reveal_strlit("\n");
    }
    push_quoted(out, r.id.as_str());
    out.append(",");
    push_quoted(out, r.url.as_str());
    out.append(",");
    if r.did_i_read_it {
        out.append("true");
        assert("true"@ =~= enc_bool(true));
    } else {
        out.append("false");
        assert("false"@ =~= enc_bool(false));
    }
    out.append(",");
    push_weight(out, r.priority);
    out.append("\n");
    proof {
        assert(","@ =~= seq![',']);
        assert("\n"@ =~= seq!['\n']);
        assert(out@ =~= old(out)@ + enc_row(r@));
    }
}

proof fn lemma_enc_rows_push(t: Seq<RecView>, r: RecView)
    ensures
        enc_rows(t.push(r)) == enc_rows(t) + enc_row(r),
    decreases t.len(),
{
    let u = t.push(r);
    if t.len() == 0 {
        assert(u[0] == r);
        assert(u.drop_first() =~= Seq::<RecView>::empty());
        assert(enc_rows(u.drop_first()) == Seq::<char>::empty());
        assert(enc_rows(u) == enc_row(r) + enc_rows(u.drop_first()));
        assert(enc_rows(t) == Seq::<char>::empty());
        assert(enc_rows(u) =~= enc_rows(t) + enc_row(r));
    } else {
        assert(u[0] == t[0]);
        assert(u.drop_first() =~= t.drop_first().push(r));
        lemma_enc_rows_push(t.drop_first(), r);
        assert(enc_rows(u.drop_first()) == enc_rows(t.drop_first()) + enc_row(r));
        assert(enc_rows(u) == enc_row(t[0]) + enc_rows(u.drop_first()));
        assert(enc_rows(t) == enc_row(t[0]) + enc_rows(t.drop_first()));
        assert(enc_rows(u) =~= enc_rows(t) + enc_row(r));
    }
}

/// Serialize the whole record set as the store file's content.
pub fn save_to_string(records: &Vec<ReadingList>) -> (out: String)
    ensures
        out@ == enc_file(views(records@)),
{
    let ghost vs: Seq<RecView> = views(records@);
    let mut out = String::new();
    out.append("id,url,read,weight\n");
    proof {
        reveal_strlit("id,url,read,weight\n");
        assert(out@ =~= header());
        assert(vs.take(0) =~= Seq::<RecView>::empty());
    }
    let n = records.len();
    let mut i: usize = 0;
    while i < n
        invariant
            i <= n,
            n == records@.len(),
            vs == views(records@),
            out@ == header() + enc_rows(vs.take(i as int)),
        decreases n - i,
    {
        push_row(&mut out, &records[i]);
        proof {
            lemma_enc_rows_push(vs.take(i as int), vs[i as int]);
            assert(vs.take(i as int).push(vs[i as int]) =~= vs.take(i as int + 1));
            assert(out@ =~= header() + enc_rows(vs.take(i as int + 1)));
        }
        i = i + 1;
    }
    proof {
        assert(vs.take(n as int) =~= vs);
    }
    out
}

/// Law (round trip): parsing what the encoder wrote for any schema-valid
/// record set yields exactly that record set back.
pub proof fn lemma_save_load_round_trip(s: Seq<RecView>)
    requires
        seq_valid(s),
    ensures
        parse_file(enc_file(s)) == Ok::<Seq<RecView>, int>(s),
{
    let c = enc_file(s);
    assert(c.len() >= header().len());
    assert(c.take(header().len() as int) =~= header());
    assert(c.skip(header().len() as int) =~= enc_rows(s));
    lemma_rows_round_trip(s);
}

// ---------------------------------------------------------------------------
// The executable parser. Each piece works at a character position of the
// input and mirrors the front-consuming specification on the rest of the
// view from that position.
// ---------------------------------------------------------------------------

/// What the whole quoted-body parse yields once `done` has been consumed
/// and `rest` remains.
spec fn qbody_step(done: Seq<char>, rest: Seq<char>) -> Option<(Seq<char>, Seq<char>)> {
    match parse_qbody(rest) {
        Option::None => None,
        Option::Some((f, r)) => Some((done + f, r)),
    }
}

fn parse_qbody_exec(s: &str, pos: usize) -> (r: Option<(String, usize)>)
    requires
        pos <= s@.len(),
    ensures
        ({
            let sp = parse_qbody(s@.skip(pos as int));
            match r {
                Option::Some(fp) => sp is Some && fp.0@ == sp->Some_0.0 && pos <= fp.1 <= s@.len()
                    && s@.skip(fp.1 as int) == sp->Some_0.1,
                Option::None => sp is None,
            }
        }),
{
    let ghost target: Option<(Seq<char>, Seq<char>)> = parse_qbody(s@.skip(pos as int));
    let n = s.unicode_len();
    let mut out = String::new();
    let mut i: usize = pos;
    proof {
        if target is Some {
            assert(out@ + target->Some_0.0 =~= target->Some_0.0);
        }
    }
    while i < n
        invariant
            pos <= i <= n,
            n == s@.len(),
            target == parse_qbody(s@.skip(pos as int)),
            qbody_step(out@, s@.skip(i as int)) == target,
        decreases n - i,
    {
        let ghost out0: Seq<char> = out@;
        let c = s.get_char(i);
        proof {
            assert(s@.skip(i as int)[0] == s@[i as int]);
            assert(s@.skip(i as int).skip(1) =~= s@.skip(i as int + 1));
        }
        if c == '"' {
            if i + 1 < n && s.get_char(i + 1) == '"' {
                proof {
                    assert(s@.skip(i as int)[1] == s@[i as int + 1]);
                    assert(s@.skip(i as int).skip(2) =~= s@.skip(i as int + 2));
                }
                out.append("\"");
                proof {
                    reveal_strlit("\"");
                    assert("\""@ =~= seq!['"']);
                    match parse_qbody(s@.skip(i as int + 2)) {
                        Option::None => {
                            assert(parse_qbody(s@.skip(i as int)) is None);
                        }
                        Option::Some((f, r)) => {
                            assert(parse_qbody(s@.skip(i as int)) == Some((seq!['"'] + f, r)));
                            assert(out0 + (seq!['"'] + f) =~= (out0 + seq!['"']) + f);
                        }
                    }
                }
                i = i + 2;
            } else {
                proof {
                    if i + 1 < n {
                        assert(s@.skip(i as int)[1] == s@[i as int + 1]);
                    }
                    assert(parse_qbody(s@.skip(i as int)) == Some(
                        (Seq::<char>::empty(), s@.skip(i as int + 1)),
                    ));
                    assert(out0 + Seq::<char>::empty() =~= out0);
                }
                return Some((out, i + 1));
            }
        } else {
            let piece = s.substring_char(i, i + 1);
            out.append(piece);
            proof {
                assert(piece@ =~= seq![s@[i as int]]);
                match parse_qbody(s@.skip(i as int + 1)) {
                    Option::None => {
                        assert(parse_qbody(s@.skip(i as int)) is None);
                    }
                    Option::Some((f, r)) => {
                        assert(parse_qbody(s@.skip(i as int)) == Some((seq![s@[i as int]] + f, r)));
                        assert(out0 + (seq![s@[i as int]] + f) =~= (out0 + seq![s@[i as int]]) + f);
                    }
                }
            }
            i = i + 1;
        }
    }
    proof {
        assert(s@.skip(n as int) =~= Seq::<char>::empty());
        assert(parse_qbody(s@.skip(n as int)) is None);
    }
    None
}

fn parse_qfield_exec(s: &str, pos: usize) -> (r: Option<(String, usize)>)
    requires
        pos <= s@.len(),
    ensures
        ({
            let sp = parse_qfield(s@.skip(pos as int));
            match r {
                Option::Some(fp) => sp is Some && fp.0@ == sp->Some_0.0 && pos <= fp.1 <= s@.len()
                    && s@.skip(fp.1 as int) == sp->Some_0.1,
                Option::None => sp is None,
            }
        }),
{
    let n = s.unicode_len();
    if pos < n && s.get_char(pos) == '"' {
        proof {
            assert(s@.skip(pos as int)[0] == s@[pos as int]);
            assert(s@.skip(pos as int).skip(1) =~= s@.skip(pos as int + 1));
        }
        parse_qbody_exec(s, pos + 1)
    } else {
        proof {
            if pos < n {
                assert(s@.skip(pos as int)[0] == s@[pos as int]);
            }
        }
        None
    }
}

fn parse_bool_exec(s: &str, pos: usize) -> (r: Option<(bool, usize)>)
    requires
        pos <= s@.len(),
    ensures
        ({
            let sp = parse_bool(s@.skip(pos as int));
            match r {
                Option::Some(bp) => sp is Some && bp.0 == sp->Some_0.0 && pos <= bp.1 <= s@.len()
                    && s@.skip(bp.1 as int) == sp->Some_0.1,
                Option::None => sp is None,
            }
        }),
{
    let n = s.unicode_len();
    proof {
        let rest = s@.skip(pos as int);
        assert(rest.len() == n - pos);
        assert forall|k: int| 0 <= k < rest.len() implies rest[k] == s@[pos + k] by {}
    }
    if n - pos >= 4 && s.get_char(pos) == 't' && s.get_char(pos + 1) == 'r' && s.get_char(pos + 2)
        == 'u' && s.get_char(pos + 3) == 'e' {
        proof {
            assert(s@.skip(pos as int).skip(4) =~= s@.skip(pos as int + 4));
        }
        Some((true, pos + 4))
    } else if n - pos >= 5 && s.get_char(pos) == 'f' && s.get_char(pos + 1) == 'a' && s.get_char(
        pos + 2,
    ) == 'l' && s.get_char(pos + 3) == 's' && s.get_char(pos + 4) == 'e' {
        proof {
            assert(s@.skip(pos as int).skip(5) =~= s@.skip(pos as int + 5));
        }
        Some((false, pos + 5))
    } else {
        None
    }
}

/// Consume the run of digits at `pos`, tracking the folded value exactly
/// while it stays small and only the fact that it is too large afterwards.
fn scan_digits(s: &str, pos: usize) -> (t: (bool, u64, usize))
    requires
        pos <= s@.len(),
    ensures
        ({
            let (v, rest) = parse_digits(s@.skip(pos as int), 0);
            &&& pos <= t.2 <= s@.len()
            &&& s@.skip(t.2 as int) == rest
            &&& (!t.0 ==> t.1 as int == v && v <= 0x8000_0000)
            &&& (t.0 ==> v > 0x8000_0000)
        }),
{
    let n = s.unicode_len();
    let mut over: bool = false;
    let mut acc: u64 = 0;
    let mut i: usize = pos;
    let ghost mut ghost_acc: nat = 0nat;
    loop
        invariant
            pos <= i <= n,
            n == s@.len(),
            parse_digits(s@.skip(pos as int), 0) == parse_digits(s@.skip(i as int), ghost_acc),
            !over ==> acc as int == ghost_acc && ghost_acc <= 0x8000_0000,
            over ==> ghost_acc > 0x8000_0000,
        ensures
            pos <= i <= n,
            n == s@.len(),
            parse_digits(s@.skip(pos as int), 0) == (ghost_acc, s@.skip(i as int)),
            !over ==> acc as int == ghost_acc && ghost_acc <= 0x8000_0000,
            over ==> ghost_acc > 0x8000_0000,
        decreases n - i,
    {
        proof {
            if i < n {
                assert(s@.skip(i as int)[0] == s@[i as int]);
            } else {
                assert(s@.skip(i as int).len() == 0);
            }
        }
        if i == n {
            break;
        }
        let c = s.get_char(i);
        let cv = c as u32;
        if cv < 48 || cv > 57 {
            proof {
                assert(!is_digit(s@[i as int]));
            }
            break;
        }
        let d: u64 = (cv - 48) as u64;
        proof {
            assert(is_digit(s@[i as int]));
            assert(dval(s@[i as int]) == d as int);
            assert(s@.skip(i as int).skip(1) =~= s@.skip(i as int + 1));
            assert(parse_digits(s@.skip(i as int), ghost_acc) == parse_digits(
                s@.skip(i as int + 1),
                ghost_acc * 10 + dval(s@[i as int]) as nat,
            ));
        }
        if over {
            proof {
                let ga2 = ghost_acc * 10 + d as nat;
                assert(ga2 >= ghost_acc * 10);
                assert(ghost_acc * 10 > 0x8000_0000) by (nonlinear_arith)
                    requires
                        ghost_acc > 0x8000_0000,
                ;
                ghost_acc = ga2;
            }
        } else {
            let tmp: u64 = acc * 10 + d;
            proof {
                ghost_acc = ghost_acc * 10 + d as nat;
            }
            if tmp > 0x8000_0000 {
                over = true;
            } else {
                acc = tmp;
            }
        }
        i = i + 1;
    }
    (over, acc, i)
}

fn parse_weight_exec(s: &str, pos: usize) -> (r: Option<(i32, usize)>)
    requires
        pos <= s@.len(),
    ensures
        ({
            let sp = parse_weight(s@.skip(pos as int));
            match r {
                Option::Some(wp) => sp is Some && wp.0 as int == sp->Some_0.0 && pos <= wp.1
                    <= s@.len() && s@.skip(wp.1 as int) == sp->Some_0.1,
                Option::None => sp is None,
            }
        }),
{
    let n = s.unicode_len();
    let ghost rest0: Seq<char> = s@.skip(pos as int);
    proof {
        if pos < n {
            assert(rest0[0] == s@[pos as int]);
        }
        if pos + 1 < n {
            assert(rest0[1] == s@[pos as int + 1]);
        }
    }
    if n - pos >= 2 && s.get_char(pos) == '-' && {
        let c1 = s.get_char(pos + 1) as u32;
        48 <= c1 && c1 <= 57
    } {
        proof {
            assert(is_digit(rest0[1]));
            assert(rest0.skip(1) =~= s@.skip(pos as int + 1));
        }
        let (over, acc, end) = scan_digits(s, pos + 1);
        if over {
            proof {
                let (v, _rr) = parse_digits(s@.skip(pos as int + 1), 0);
                assert(-(v as int) < i32::MIN);
            }
            None
        } else {
            let w: i32 = (0i64 - acc as i64) as i32;
            proof {
                let (v, _rr) = parse_digits(s@.skip(pos as int + 1), 0);
                assert(v == acc as int);
                assert(-(v as int) >= i32::MIN);
                assert(w as int == -(v as int));
            }
            Some((w, end))
        }
    } else if n - pos >= 1 && {
        let c0 = s.get_char(pos) as u32;
        48 <= c0 && c0 <= 57
    } {
        proof {
            assert(is_digit(rest0[0]));
            assert(rest0.skip(0) =~= rest0);
        }
        let (over, acc, end) = scan_digits(s, pos);
        if over || acc > 0x7fff_ffff {
            proof {
                let (v, _rr) = parse_digits(rest0, 0);
                assert(v > i32::MAX);
            }
            None
        } else {
            let w: i32 = acc as i32;
            proof {
                let (v, _rr) = parse_digits(rest0, 0);
                assert(v <= i32::MAX);
                assert(w as int == v);
            }
            Some((w, end))
        }
    } else {
        proof {
            if pos < n {
                assert(!(rest0.len() >= 2 && rest0[0] == '-' && is_digit(rest0[1])));
                assert(!(rest0.len() >= 1 && is_digit(rest0[0])));
            }
        }
        None
    }
}

fn parse_row_exec(s: &str, pos: usize) -> (r: Option<(ReadingList, usize)>)
    requires
        pos <= s@.len(),
    ensures
        ({
            let sp = parse_row(s@.skip(pos as int));
            match r {
                Option::Some(rp) => sp is Some && rp.0@ == sp->Some_0.0 && pos < rp.1 <= s@.len()
                    && s@.skip(rp.1 as int) == sp->Some_0.1,
                Option::None => sp is None,
            }
        }),
{
    let ghost rest0: Seq<char> = s@.skip(pos as int);
    let n = s.unicode_len();

    let idr = parse_qfield_exec(s, pos);
    if idr.is_none() {
        return None;
    }
    let (id, p1) = idr.unwrap();
    let ghost s1: Seq<char> = s@.skip(p1 as int);

    proof {
        if p1 < n {
            assert(s1[0] == s@[p1 as int]);
        }
    }
    if !(p1 < n && s.get_char(p1) == ',') {
        proof {
            assert(parse_comma(s1) is None);
        }
        return None;
    }
    proof {
        assert(s1.skip(1) =~= s@.skip(p1 as int + 1));
    }

    let urlr = parse_qfield_exec(s, p1 + 1);
    if urlr.is_none() {
        return None;
    }
    let (url, p3) = urlr.unwrap();
    let ghost s3: Seq<char> = s@.skip(p3 as int);

    proof {
        if p3 < n {
            assert(s3[0] == s@[p3 as int]);
        }
    }
    if !(p3 < n && s.get_char(p3) == ',') {
        proof {
            assert(parse_comma(s3) is None);
        }
        return None;
    }
    proof {
        assert(s3.skip(1) =~= s@.skip(p3 as int + 1));
    }

    let br = parse_bool_exec(s, p3 + 1);
    if br.is_none() {
        return None;
    }
    let (b, p5) = br.unwrap();
    let ghost s5: Seq<char> = s@.skip(p5 as int);

    proof {
        if p5 < n {
            assert(s5[0] == s@[p5 as int]);
        }
    }
    if !(p5 < n && s.get_char(p5) == ',') {
        proof {
            assert(parse_comma(s5) is None);
        }
        return None;
    }
    proof {
        assert(s5.skip(1) =~= s@.skip(p5 as int + 1));
    }

    let wr = parse_weight_exec(s, p5 + 1);
    if wr.is_none() {
        return None;
    }
    let (w, p7) = wr.unwrap();
    let ghost s7: Seq<char> = s@.skip(p7 as int);

    proof {
        if p7 < n {
            assert(s7[0] == s@[p7 as int]);
        }
    }
    if !(p7 < n && s.get_char(p7) == '\n') {
        proof {
            assert(parse_newline(s7) is None);
        }
        return None;
    }
    proof {
        assert(s7.skip(1) =~= s@.skip(p7 as int + 1));
    }

    let rec = ReadingList { id, url, did_i_read_it: b, priority: w };
    Some((rec, p7 + 1))
}

/// What the whole row parse yields once the rows in `done` have been
/// consumed and `rest` remains, `cnt` rows in.
spec fn rows_step(done: Seq<RecView>, cnt: int, rest: Seq<char>) -> Result<Seq<RecView>, int> {
    match parse_rows(rest) {
        Result::Ok(t) => Ok(done + t),
        Result::Err(k) => Err(cnt + k),
    }
}

/// Parse a whole store file. Fails with `MalformedRecord` naming the first
/// row that does not match the schema (row 0 is the header line), and never
/// silently drops a row.
pub fn load_from_string(s: &str) -> (r: Result<Vec<ReadingList>, StoreError>)
    ensures
        ({
            let pf = parse_file(s@);
            match r {
                Result::Ok(v) => pf is Ok && views(v@) == pf->Ok_0,
                Result::Err(e) => pf is Err && (e matches StoreError::MalformedRecord { row }
                    && row as int == pf->Err_0),
            }
        }),
{
    let n = s.unicode_len();
    proof {
        assert(header().len() == 19);
    }
    if n < 19 {
        return Err(StoreError::MalformedRecord { row: 0 });
    }
    let hs = s.substring_char(0, 19).to_owned();
    let hd = "id,url,read,weight\n".to_owned();
    proof {
        reveal_strlit("id,url,read,weight\n");
        assert(hd@ =~= header());
        assert(s@.take(19) =~= s@.subrange(0, 19));
    }
    if !(hs == hd) {
        return Err(StoreError::MalformedRecord { row: 0 });
    }
    assert(s@.take(header().len() as int) == header());
    let mut out: Vec<ReadingList> = Vec::new();
    let mut pos: usize = 19;
    let mut count: usize = 0;
    proof {
        assert(views(out@) =~= Seq::<RecView>::empty());
        match parse_rows(s@.skip(19)) {
            Result::Ok(t) => {
                assert(views(out@) + t =~= t);
            }
            Result::Err(_k) => {}
        }
    }
    while pos < n
        invariant
            19 <= pos <= n,
            n == s@.len(),
            count <= pos,
            s@.take(header().len() as int) == header(),
            rows_step(views(out@), count as int, s@.skip(pos as int)) == parse_rows(s@.skip(19)),
        decreases n - pos,
    {
        let rr = parse_row_exec(s, pos);
        match rr {
            Option::None => {
                proof {
                    assert(s@.skip(pos as int).len() > 0);
                    assert(parse_rows(s@.skip(pos as int)) == Err::<Seq<RecView>, int>(0));
                }
                return Err(StoreError::MalformedRecord { row: count + 1 });
            }
            Option::Some((rec, p2)) => {
                let ghost vbefore: Seq<RecView> = views(out@);
                proof {
                    let cur = s@.skip(pos as int);
                    let rest = s@.skip(p2 as int);
                    assert(cur.len() > 0);
                    assert(rest.len() < cur.len());
                    match parse_rows(rest) {
                        Result::Ok(t) => {
                            assert(parse_rows(cur) == Ok::<Seq<RecView>, int>(seq![rec@] + t));
                            assert(vbefore + (seq![rec@] + t) =~= (vbefore + seq![rec@]) + t);
                        }
                        Result::Err(k) => {
                            assert(parse_rows(cur) == Err::<Seq<RecView>, int>(k + 1));
                        }
                    }
                }
                out.push(rec);
                proof {
                    assert(views(out@) =~= vbefore + seq![rec@]);
                }
                pos = p2;
                count = count + 1;
            }
        }
    }
    proof {
        assert(s@.skip(n as int) =~= Seq::<char>::empty());
        assert(parse_rows(s@.skip(n as int)) == Ok::<Seq<RecView>, int>(Seq::<RecView>::empty()));
        assert(views(out@) + Seq::<RecView>::empty() =~= views(out@));
    }
    Ok(out)
}

} // verus!
