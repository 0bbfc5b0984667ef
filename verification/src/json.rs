//! The textual encoding used for cached collections, error bodies and token
//! payloads: a compact object/array notation over ASCII bytes, with string
//! escaping for quote and backslash.
//!
//! Serializers are defined first as spec functions over sequences of bytes;
//! the executable functions produce exactly those sequences. Parsers consume
//! a byte sequence from the front and return the parsed value together with
//! the unconsumed remainder, so that round-trip lemmas compose piecewise.
use vstd::prelude::*;

verus! {

pub const QUOTE: u8 = 34;
pub const BACKSLASH: u8 = 92;

pub open spec fn is_digit_byte(b: u8) -> bool {
    48 <= b <= 57
}

/// Decimal digits of `n`, most significant first.
pub open spec fn dec_digits(n: nat) -> Seq<u8>
    decreases n,
{
    if n < 10 {
        seq![(48 + n) as u8]
    } else {
        dec_digits(n / 10).push((48 + n % 10) as u8)
    }
}

pub proof fn lemma_dec_digits_are_digits(n: nat)
    ensures
        dec_digits(n).len() >= 1,
        forall|i: int| 0 <= i < dec_digits(n).len() ==> is_digit_byte(#[trigger] dec_digits(n)[i]),
    decreases n,
{
    if n >= 10 {
        lemma_dec_digits_are_digits(n / 10);
    }
}

/// Greedy decimal parse: consume leading digit bytes, folding them into `acc`;
/// the result pairs the accumulated value with the unconsumed remainder.
pub open spec fn parse_digits_acc(s: Seq<u8>, acc: nat) -> (nat, Seq<u8>)
    decreases s.len(),
{
    if s.len() > 0 && is_digit_byte(s[0]) {
        parse_digits_acc(s.skip(1), acc * 10 + (s[0] - 48) as nat)
    } else {
        (acc, s)
    }
}

/// The accumulated value never decreases as digits are consumed.
pub proof fn lemma_parse_digits_acc_monotone(s: Seq<u8>, acc: nat)
    ensures
        parse_digits_acc(s, acc).0 >= acc,
    decreases s.len(),
{
    if s.len() > 0 && is_digit_byte(s[0]) {
        lemma_parse_digits_acc_monotone(s.skip(1), acc * 10 + (s[0] - 48) as nat);
    }
}

/// Folding a run of digit bytes: parsing `ds + tail` where every byte of `ds`
/// is a digit and `tail` does not begin with one folds exactly `ds` into the
/// accumulator and leaves `tail`.
pub proof fn lemma_parse_digit_run(ds: Seq<u8>, tail: Seq<u8>, acc: nat)
    requires
        forall|i: int| 0 <= i < ds.len() ==> is_digit_byte(#[trigger] ds[i]),
        tail.len() == 0 || !is_digit_byte(tail[0]),
    ensures
        parse_digits_acc(ds + tail, acc) == (fold_digits(ds, acc), tail),
    decreases ds.len(),
{
    if ds.len() == 0 {
        assert(ds + tail =~= tail);
    } else {
        let s = ds + tail;
        assert(s[0] == ds[0]);
        assert(s.skip(1) =~= ds.skip(1) + tail);
        lemma_parse_digit_run(ds.skip(1), tail, acc * 10 + (ds[0] - 48) as nat);
    }
}

/// Left fold of digit bytes into a value.
pub open spec fn fold_digits(ds: Seq<u8>, acc: nat) -> nat
    decreases ds.len(),
{
    if ds.len() == 0 {
        acc
    } else {
        fold_digits(ds.skip(1), acc * 10 + (ds[0] - 48) as nat)
    }
}

pub proof fn lemma_fold_digits_push(ds: Seq<u8>, d: u8, acc: nat)
    requires
        is_digit_byte(d),
    ensures
        fold_digits(ds.push(d), acc) == fold_digits(ds, acc) * 10 + (d - 48),
    decreases ds.len(),
{
    if ds.len() == 0 {
        assert(ds.push(d)[0] == d);
        assert(ds.push(d).skip(1) =~= Seq::<u8>::empty());
        assert(fold_digits(Seq::<u8>::empty(), acc * 10 + (d - 48) as nat) == acc * 10 + (d
            - 48) as nat);
    } else {
        assert(ds.push(d)[0] == ds[0]);
        assert(ds.push(d).skip(1) =~= ds.skip(1).push(d));
        lemma_fold_digits_push(ds.skip(1), d, acc * 10 + (ds[0] - 48) as nat);
    }
}

/// The digits of `n` fold back to `n`.
pub proof fn lemma_fold_dec_digits(n: nat)
    ensures
        fold_digits(dec_digits(n), 0) == n,
    decreases n,
{
    if n < 10 {
        assert(dec_digits(n)[0] == (48 + n) as u8);
        assert(dec_digits(n).skip(1) =~= Seq::<u8>::empty());
        assert(fold_digits(Seq::<u8>::empty(), n) == n);
    } else {
        lemma_fold_dec_digits(n / 10);
        lemma_fold_digits_push(dec_digits(n / 10), (48 + n % 10) as u8, 0);
    }
}

/// Round trip for an unsigned decimal rendering followed by a non-digit.
pub proof fn lemma_parse_dec_digits(n: nat, tail: Seq<u8>)
    requires
        tail.len() == 0 || !is_digit_byte(tail[0]),
    ensures
        parse_digits_acc(dec_digits(n) + tail, 0) == (n, tail),
{
    lemma_dec_digits_are_digits(n);
    lemma_parse_digit_run(dec_digits(n), tail, 0);
    lemma_fold_dec_digits(n);
}

/// Append the decimal digits of `n` to `out`.
pub fn push_dec_u64(out: &mut Vec<u8>, n: u64)
    ensures
        final(out)@ == old(out)@ + dec_digits(n as nat),
    decreases n,
{
    if n < 10 {
        out.push((48 + n) as u8);
        assert(out@ =~= old(out)@ + dec_digits(n as nat));
    } else {
        push_dec_u64(out, n / 10);
        out.push((48 + n % 10) as u8);
        assert(out@ =~= old(out)@ + dec_digits(n as nat));
    }
}


/// Characters a text field may hold: printable ASCII. Quote and backslash are
/// representable through escaping.
pub open spec fn stringable_char(c: char) -> bool {
    32 <= c as u32 <= 126
}

pub open spec fn stringable(s: Seq<char>) -> bool {
    forall|i: int| 0 <= i < s.len() ==> stringable_char(#[trigger] s[i])
}

/// Encoding of one character inside a quoted string.
pub open spec fn esc_char(c: char) -> Seq<u8> {
    if c == '"' {
        seq![BACKSLASH, QUOTE]
    } else if c == '\\' {
        seq![BACKSLASH, BACKSLASH]
    } else {
        seq![c as u8]
    }
}

pub open spec fn ser_str_body(s: Seq<char>) -> Seq<u8>
    decreases s.len(),
{
    if s.len() == 0 {
        Seq::empty()
    } else {
        esc_char(s[0]) + ser_str_body(s.skip(1))
    }
}

/// A quoted, escaped string.
pub open spec fn ser_string(s: Seq<char>) -> Seq<u8> {
    seq![QUOTE] + ser_str_body(s) + seq![QUOTE]
}

pub proof fn lemma_ser_body_push(s: Seq<char>, c: char)
    ensures
        ser_str_body(s.push(c)) == ser_str_body(s) + esc_char(c),
    decreases s.len(),
{
    if s.len() == 0 {
        assert(s =~= Seq::<char>::empty());
        assert(s.push(c)[0] == c);
        assert(s.push(c).skip(1) =~= Seq::<char>::empty());
        assert(ser_str_body(s.push(c)) =~= ser_str_body(s) + esc_char(c));
    } else {
        assert(s.push(c)[0] == s[0]);
        assert(s.push(c).skip(1) =~= s.skip(1).push(c));
        lemma_ser_body_push(s.skip(1), c);
        assert(ser_str_body(s.push(c)) =~= ser_str_body(s) + esc_char(c));
    }
}

/// Parse the interior of a quoted string up to and including the closing
/// quote; yields the decoded characters and the remainder after the quote.
pub open spec fn parse_str_body(s: Seq<u8>) -> Option<(Seq<char>, Seq<u8>)>
    decreases s.len(),
{
    if s.len() == 0 {
        None
    } else if s[0] == QUOTE {
        Some((Seq::empty(), s.skip(1)))
    } else if s[0] == BACKSLASH {
        if s.len() >= 2 && (s[1] == QUOTE || s[1] == BACKSLASH) {
            match parse_str_body(s.skip(2)) {
                Some((t, r)) => Some((seq![s[1] as char] + t, r)),
                None => None,
            }
        } else {
            None
        }
    } else if 32 <= s[0] <= 126 {
        match parse_str_body(s.skip(1)) {
            Some((t, r)) => Some((seq![s[0] as char] + t, r)),
            None => None,
        }
    } else {
        None
    }
}

pub open spec fn parse_string(s: Seq<u8>) -> Option<(Seq<char>, Seq<u8>)> {
    if s.len() > 0 && s[0] == QUOTE {
        parse_str_body(s.skip(1))
    } else {
        None
    }
}

/// A plain printable character is encoded as its own code point.
proof fn lemma_esc_plain_char(c: char)
    requires
        stringable_char(c),
        c != '"',
        c != '\\',
    ensures
        esc_char(c) == seq![c as u8],
        32 <= c as u8 <= 126,
        c as u8 != QUOTE,
        c as u8 != BACKSLASH,
        ((c as u8) as char) == c,
{
}

pub proof fn lemma_parse_ser_body(s: Seq<char>, tail: Seq<u8>)
    requires
        stringable(s),
    ensures
        (parse_str_body(ser_str_body(s) + seq![QUOTE] + tail) == Some((s, tail))),
    decreases s.len(),
{
    let whole = ser_str_body(s) + seq![QUOTE] + tail;
    if s.len() == 0 {
        assert(whole =~= seq![QUOTE] + tail);
        assert(whole[0] == QUOTE);
        assert(whole.skip(1) =~= tail);
    } else {
        let c = s[0];
        let rest = s.skip(1);
        lemma_parse_ser_body(rest, tail);
        assert(whole =~= esc_char(c) + (ser_str_body(rest) + seq![QUOTE] + tail));
        let inner = ser_str_body(rest) + seq![QUOTE] + tail;
        if c == '"' {
            assert(whole[0] == BACKSLASH && whole[1] == QUOTE);
            assert(whole.skip(2) =~= inner);
            assert(seq![whole[1] as char] + rest =~= s);
        } else if c == '\\' {
            assert(whole[0] == BACKSLASH && whole[1] == BACKSLASH);
            assert(whole.skip(2) =~= inner);
            assert((BACKSLASH as char) == '\\');
            assert(seq![whole[1] as char] + rest =~= s);
        } else {
            assert(stringable_char(c));
            lemma_esc_plain_char(c);
            assert(whole =~= seq![c as u8] + inner);
            assert(whole[0] == c as u8);
            assert(whole.skip(1) =~= inner);
            assert(seq![whole[0] as char] + rest =~= s);
        }
    }
}

/// Round trip for a quoted string: serializing then parsing returns the
/// same characters and leaves exactly the trailing input.
pub proof fn lemma_parse_ser_string(s: Seq<char>, tail: Seq<u8>)
    requires
        stringable(s),
    ensures
        parse_string(ser_string(s) + tail) == (Some((s, tail))),
{
    let whole = ser_string(s) + tail;
    assert(whole[0] == QUOTE);
    assert(whole.skip(1) =~= ser_str_body(s) + seq![QUOTE] + tail);
    lemma_parse_ser_body(s, tail);
}

/// A printable character is in the ASCII range.
proof fn lemma_printable_char_ascii(c: char)
    requires
        stringable_char(c),
    ensures
        '\0' <= c <= '\u{7f}',
{
}

/// Printable ASCII text is in particular ASCII.
pub proof fn lemma_stringable_is_ascii(s: Seq<char>)
    requires
        stringable(s),
    ensures
        vstd::utf8::is_ascii_chars(s),
{
    assert forall|i: int| 0 <= i < s.len() implies '\0' <= #[trigger] s[i] <= '\u{7f}' by {
        assert(stringable_char(s[i]));
        lemma_printable_char_ascii(s[i]);
    }
}

/// The characters a byte sequence stands for, one character per byte.
pub open spec fn chars_of(bs: Seq<u8>) -> Seq<char> {
    bs.map_values(|b: u8| b as char)
}

/// Relies on String::from_utf8: a sequence of bytes below 128 decodes to one
/// character per byte, each the byte's own code point.
#[verifier::external_body]
pub(crate) fn ascii_to_string(b: Vec<u8>) -> (r: String)
    requires
        forall|k: int| 0 <= k < b@.len() ==> b@[k] < 128,
    ensures
        r@ == chars_of(b@),
        r.is_ascii(),
{
    match String::from_utf8(b) {
        Ok(s) => s,
        Err(_) => String::new(),
    }
}

/// Append the quoted, escaped form of `s` to `out`.
pub fn push_json_string(out: &mut Vec<u8>, s: &str)
    requires
        stringable(s@),
    ensures
        final(out)@ == old(out)@ + ser_string(s@),
{
    proof {
        lemma_stringable_is_ascii(s@);
        assert(s.is_ascii());
    }
    out.push(QUOTE);
    let n = s.unicode_len();
    let mut i: usize = 0;
    while i < n
        invariant
            n == s@.len(),
            0 <= i <= n,
            s.is_ascii(),
            stringable(s@),
            out@ == old(out)@ + seq![QUOTE] + ser_str_body(s@.take(i as int)),
        decreases n - i,
    {
        let b = s.get_ascii(i);
        proof {
            assert(stringable_char(s@[i as int]));
            lemma_ser_body_push(s@.take(i as int), s@[i as int]);
            assert(s@.take(i as int).push(s@[i as int]) =~= s@.take(i + 1 as int));
        }
        if b == QUOTE || b == BACKSLASH {
            out.push(BACKSLASH);
            out.push(b);
            proof {
                let c = s@[i as int];
                assert(c as u8 == b);
                if b == QUOTE {
                    assert(c == '"');
                } else {
                    assert(c == '\\');
                }
                assert(out@ =~= old(out)@ + seq![QUOTE] + ser_str_body(s@.take(i + 1 as int)));
            }
        } else {
            out.push(b);
            proof {
                let c = s@[i as int];
                assert(c as u8 == b);
                assert(c != '"' && c != '\\');
                lemma_esc_plain_char(c);
                assert(out@ =~= old(out)@ + seq![QUOTE] + ser_str_body(s@.take(i + 1 as int)));
            }
        }
        i = i + 1;
    }
    out.push(QUOTE);
    proof {
        assert(s@.take(n as int) =~= s@);
        assert(out@ =~= old(out)@ + ser_string(s@));
    }
}

/// Parse a quoted string at position `i` of `v`; on success, the decoded text
/// and the position after the closing quote.
pub fn parse_json_string(v: &Vec<u8>, i: usize) -> (r: Option<(String, usize)>)
    requires
        i <= v@.len(),
    ensures
        match r {
            Some((st, j)) => {
                &&& i < j <= v@.len()
                &&& (parse_string(v@.skip(i as int)) == Some((st@, v@.skip(j as int))))
                &&& stringable(st@)
                &&& st.is_ascii()
            },
            None => parse_string(v@.skip(i as int)) is None,
        },
{
    if i >= v.len() || v[i] != QUOTE {
        return None;
    }
    let ghost s0 = v@.skip(i + 1 as int);
    proof {
        assert(v@.skip(i as int)[0] == QUOTE);
        assert(v@.skip(i as int).skip(1) =~= s0);
    }
    let mut j: usize = i + 1;
    let mut acc: Vec<u8> = Vec::new();
    loop
        invariant
            i + 1 <= j <= v@.len(),
            forall|k: int| 0 <= k < acc@.len() ==> 32 <= #[trigger] acc@[k] <= 126,
            parse_str_body(s0) == (match parse_str_body(v@.skip(j as int)) {
                Some((t, r)) => Some((chars_of(acc@) + t, r)),
                None => None::<(Seq<char>, Seq<u8>)>,
            }),
            s0 == v@.skip(i + 1 as int),
            i < v@.len(),
            (parse_string(v@.skip(i as int)) == parse_str_body(s0)),
        decreases v@.len() - j,
    {
        if j >= v.len() {
            proof {
                assert(v@.skip(j as int) =~= Seq::<u8>::empty());
            }
            return None;
        }
        let b = v[j];
        proof {
            assert(v@.skip(j as int)[0] == b);
        }
        if b == QUOTE {
            proof {
                assert(v@.skip(j as int).skip(1) =~= v@.skip(j + 1 as int));
                assert(chars_of(acc@) + Seq::<char>::empty() =~= chars_of(acc@));
                assert(forall|k: int|
                    0 <= k < chars_of(acc@).len() ==> stringable_char(#[trigger] chars_of(acc@)[k]));
            }
            let st = ascii_to_string(acc);
            return Some((st, j + 1));
        } else if b == BACKSLASH {
            if j + 1 >= v.len() {
                return None;
            }
            let e = v[j + 1];
            proof {
                assert(v@.skip(j as int)[1] == e);
            }
            if e == QUOTE || e == BACKSLASH {
                proof {
                    let sj = v@.skip(j as int);
                    assert(sj.skip(2) =~= v@.skip(j + 2 as int));
                    assert(chars_of(acc@.push(e)) =~= chars_of(acc@).push(e as char));
                    if parse_str_body(v@.skip(j + 2 as int)) is Some {
                        let (t, r) = parse_str_body(v@.skip(j + 2 as int))->Some_0;
                        assert(chars_of(acc@) + (seq![e as char] + t) =~= chars_of(acc@.push(e)) + t);
                    }
                }
                acc.push(e);
                j = j + 2;
            } else {
                return None;
            }
        } else if 32 <= b && b <= 126 {
            proof {
                let sj = v@.skip(j as int);
                assert(sj.skip(1) =~= v@.skip(j + 1 as int));
                assert(chars_of(acc@.push(b)) =~= chars_of(acc@).push(b as char));
                if parse_str_body(v@.skip(j + 1 as int)) is Some {
                    let (t, r) = parse_str_body(v@.skip(j + 1 as int))->Some_0;
                    assert(chars_of(acc@) + (seq![b as char] + t) =~= chars_of(acc@.push(b)) + t);
                }
            }
            acc.push(b);
            j = j + 1;
        } else {
            return None;
        }
    }
}


/// Unsigned decimal number at the head of `s`, bounded by what a `u64` holds.
pub open spec fn parse_u64(s: Seq<u8>) -> Option<(u64, Seq<u8>)> {
    if s.len() > 0 && is_digit_byte(s[0]) {
        let (n, rest) = parse_digits_acc(s, 0);
        if n <= u64::MAX {
            Some((n as u64, rest))
        } else {
            None
        }
    } else {
        None
    }
}

/// Signed decimal number at the head of `s`, unbounded.
pub open spec fn parse_int(s: Seq<u8>) -> Option<(int, Seq<u8>)> {
    if s.len() >= 2 && s[0] == 45 && is_digit_byte(s[1]) {
        let (n, rest) = parse_digits_acc(s.skip(1), 0);
        Some((-(n as int), rest))
    } else if s.len() > 0 && is_digit_byte(s[0]) {
        let (n, rest) = parse_digits_acc(s, 0);
        Some((n as int, rest))
    } else {
        None
    }
}

/// Signed decimal number that fits an `i32`.
pub open spec fn parse_i32(s: Seq<u8>) -> Option<(i32, Seq<u8>)> {
    match parse_int(s) {
        Some((n, rest)) => if i32::MIN <= n <= i32::MAX {
            Some((n as i32, rest))
        } else {
            None
        },
        None => None,
    }
}

/// Decimal rendering of an integer, with a leading minus sign when negative.
pub open spec fn ser_int(i: int) -> Seq<u8> {
    if i < 0 {
        seq![45u8] + dec_digits((-i) as nat)
    } else {
        dec_digits(i as nat)
    }
}

/// Round trip for a decimal integer followed by a non-digit.
pub proof fn lemma_parse_ser_int(i: int, tail: Seq<u8>)
    requires
        i32::MIN <= i <= i32::MAX,
        tail.len() == 0 || !is_digit_byte(tail[0]),
    ensures
        (parse_i32(ser_int(i) + tail) == Some((i as i32, tail))),
{
    let whole = ser_int(i) + tail;
    if i < 0 {
        lemma_dec_digits_are_digits((-i) as nat);
        assert(whole[0] == 45);
        assert(whole[1] == dec_digits((-i) as nat)[0]);
        assert(whole.skip(1) =~= dec_digits((-i) as nat) + tail);
        lemma_parse_dec_digits((-i) as nat, tail);
    } else {
        lemma_dec_digits_are_digits(i as nat);
        assert(whole[0] == dec_digits(i as nat)[0]);
        assert(is_digit_byte(whole[0]));
        assert(whole[0] != 45);
        assert(whole =~= dec_digits(i as nat) + tail);
        lemma_parse_dec_digits(i as nat, tail);
    }
}

/// Parse an unsigned decimal at position `i` of `v`.
pub fn parse_json_u64(v: &Vec<u8>, i: usize) -> (r: Option<(u64, usize)>)
    requires
        i <= v@.len(),
    ensures
        match r {
            Some((n, j)) => {
                &&& i < j <= v@.len()
                &&& (parse_u64(v@.skip(i as int)) == Some((n, v@.skip(j as int))))
            },
            None => parse_u64(v@.skip(i as int)) is None,
        },
{
    if i >= v.len() || !(48 <= v[i] && v[i] <= 57) {
        proof {
            if i < v@.len() {
                assert(v@.skip(i as int)[0] == v@[i as int]);
            }
        }
        return None;
    }
    proof {
        assert(v@.skip(i as int)[0] == v@[i as int]);
    }
    let mut j: usize = i;
    let mut acc: u64 = 0;
    loop
        invariant
            i <= j <= v@.len(),
            i < v@.len(),
            is_digit_byte(v@[i as int]),
            (v@.skip(i as int)[0] == v@[i as int]),
            (parse_digits_acc(v@.skip(i as int), 0) == parse_digits_acc(v@.skip(j as int), acc as nat)),
        decreases v@.len() - j,
    {
        if j >= v.len() || !(48 <= v[j] && v[j] <= 57) {
            proof {
                if j < v@.len() {
                    assert(v@.skip(j as int)[0] == v@[j as int]);
                } else {
                    assert(v@.skip(j as int) =~= Seq::<u8>::empty());
                }
            }
            return Some((acc, j));
        }
        let d: u8 = v[j] - 48;
        proof {
            assert(v@.skip(j as int)[0] == v@[j as int]);
            assert(v@.skip(j as int).skip(1) =~= v@.skip(j + 1 as int));
        }
        if acc > (u64::MAX - d as u64) / 10 {
            proof {
                lemma_parse_digits_acc_monotone(
                    v@.skip(j + 1 as int),
                    (acc * 10 + d) as nat,
                );
            }
            return None;
        }
        acc = acc * 10 + d as u64;
        j = j + 1;
    }
}

/// Parse a signed decimal at position `i` of `v` into an `i32`.
pub fn parse_json_i32(v: &Vec<u8>, i: usize) -> (r: Option<(i32, usize)>)
    requires
        i <= v@.len(),
    ensures
        match r {
            Some((n, j)) => {
                &&& i < j <= v@.len()
                &&& (parse_i32(v@.skip(i as int)) == Some((n, v@.skip(j as int))))
            },
            None => parse_i32(v@.skip(i as int)) is None,
        },
{
    let ghost s = v@.skip(i as int);
    if i < v.len() && v[i] == 45 {
        proof {
            assert(s[0] == 45);
            assert(s.skip(1) =~= v@.skip(i + 1 as int));
        }
        match parse_json_u64(v, i + 1) {
            Some((n, j)) => {
                proof {
                    let s1 = v@.skip(i + 1 as int);
                    assert(s1.len() > 0 && is_digit_byte(s1[0]));
                    assert(s[1] == s1[0]);
                }
                if n <= 2147483648 {
                    let m: i64 = -(n as i64);
                    Some((m as i32, j))
                } else {
                    None
                }
            },
            None => {
                proof {
                    let s1 = v@.skip(i + 1 as int);
                    if s1.len() > 0 && is_digit_byte(s1[0]) {
                        assert(s[1] == s1[0]);
                        assert(parse_digits_acc(s1, 0).0 > u64::MAX);
                    }
                }
                None
            },
        }
    } else {
        proof {
            if i < v@.len() {
                assert(s[0] == v@[i as int]);
            }
        }
        match parse_json_u64(v, i) {
            Some((n, j)) => {
                if n <= 2147483647 {
                    Some((n as i32, j))
                } else {
                    None
                }
            },
            None => {
                proof {
                    if s.len() > 0 && is_digit_byte(s[0]) {
                        assert(parse_digits_acc(s, 0).0 > u64::MAX);
                    }
                }
                None
            },
        }
    }
}

/// Append the signed decimal rendering of `n` to `out`.
pub fn push_dec_i32(out: &mut Vec<u8>, n: i32)
    ensures
        final(out)@ == old(out)@ + ser_int(n as int),
{
    if n < 0 {
        out.push(45);
        let m: u64 = (-(n as i64)) as u64;
        push_dec_u64(out, m);
        proof {
            assert(out@ =~= old(out)@ + ser_int(n as int));
        }
    } else {
        push_dec_u64(out, n as u64);
    }
}

/// The bytes a literal stands for, one byte per character.
pub open spec fn lit_bytes(s: Seq<char>) -> Seq<u8> {
    s.map_values(|c: char| c as u8)
}

/// Match a fixed byte sequence at the head of `s`.
pub open spec fn expect(s: Seq<u8>, lit: Seq<u8>) -> Option<Seq<u8>> {
    if s.len() >= lit.len() && s.subrange(0, lit.len() as int) == lit {
        Some(s.skip(lit.len() as int))
    } else {
        None
    }
}

pub proof fn lemma_expect_lit(lit: Seq<u8>, tail: Seq<u8>)
    ensures
        (expect(lit + tail, lit) == Some(tail)),
{
    assert((lit + tail).subrange(0, lit.len() as int) =~= lit);
    assert((lit + tail).skip(lit.len() as int) =~= tail);
}

/// Append the bytes of a literal to `out`.
pub fn push_lit(out: &mut Vec<u8>, lit: &str)
    requires
        stringable(lit@),
    ensures
        final(out)@ == old(out)@ + lit_bytes(lit@),
{
    proof {
        lemma_stringable_is_ascii(lit@);
        assert(lit.is_ascii());
    }
    let n = lit.unicode_len();
    let mut k: usize = 0;
    while k < n
        invariant
            n == lit@.len(),
            0 <= k <= n,
            lit.is_ascii(),
            out@ == old(out)@ + lit_bytes(lit@.take(k as int)),
        decreases n - k,
    {
        let b = lit.get_ascii(k);
        out.push(b);
        proof {
            assert(lit@.take(k + 1 as int) =~= lit@.take(k as int).push(lit@[k as int]));
            assert(lit_bytes(lit@.take(k + 1 as int)) =~= lit_bytes(lit@.take(k as int)).push(
                lit@[k as int] as u8,
            ));
            assert(out@ =~= old(out)@ + lit_bytes(lit@.take(k + 1 as int)));
        }
        k = k + 1;
    }
    proof {
        assert(lit@.take(n as int) =~= lit@);
    }
}

/// Match the bytes of a literal at position `i` of `v`.
pub fn expect_lit(v: &Vec<u8>, i: usize, lit: &str) -> (r: Option<usize>)
    requires
        i <= v@.len(),
        stringable(lit@),
    ensures
        match r {
            Some(j) => {
                &&& i <= j <= v@.len()
                &&& (expect(v@.skip(i as int), lit_bytes(lit@)) == Some(v@.skip(j as int)))
            },
            None => expect(v@.skip(i as int), lit_bytes(lit@)) is None,
        },
{
    proof {
        lemma_stringable_is_ascii(lit@);
        assert(lit.is_ascii());
    }
    let n = lit.unicode_len();
    let vl = v.len();
    if vl - i < n {
        return None;
    }
    let mut k: usize = 0;
    while k < n
        invariant
            n == lit@.len(),
            0 <= k <= n,
            vl == v@.len(),
            i + n <= vl,
            lit.is_ascii(),
            forall|t: int| 0 <= t < k ==> v@.skip(i as int)[t] == lit_bytes(lit@)[t],
        decreases n - k,
    {
        let b = lit.get_ascii(k);
        proof {
            assert(v@.skip(i as int)[k as int] == v@[i + k]);
            assert(lit_bytes(lit@)[k as int] == lit@[k as int] as u8);
        }
        if v[i + k] != b {
            proof {
                let sub = v@.skip(i as int).subrange(0, n as int);
                assert(sub[k as int] == v@[i + k]);
                assert(sub[k as int] != lit_bytes(lit@)[k as int]);
            }
            return None;
        }
        k = k + 1;
    }
    proof {
        assert(v@.skip(i as int).subrange(0, n as int) =~= lit_bytes(lit@));
        assert(v@.skip(i as int).skip(n as int) =~= v@.skip(i + n));
    }
    Some(i + n)
}

} // verus!
