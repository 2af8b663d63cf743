//! Encoding and parsing of the protocol's wire texts.
//!
//! Every datagram and relay message is a JSON object in one canonical form:
//! fixed field order, no extra whitespace, strings escaped with `\"` and
//! `\\` only. The encoder produces exactly that form and the parser accepts
//! exactly that form; anything else is malformed and dropped by the caller.

use vstd::prelude::*;
use crate::protocol::{MapMode, Message, MessageV, PointerEvent};

verus! {

/// The ten decimal digit characters.
pub open spec fn is_digit(c: char) -> bool {
    c == '0' || c == '1' || c == '2' || c == '3' || c == '4' || c == '5' || c == '6' || c == '7'
        || c == '8' || c == '9'
}

/// Numeric value of a decimal digit character.
pub open spec fn char_digit(c: char) -> nat {
    if c == '0' {
        0
    } else if c == '1' {
        1
    } else if c == '2' {
        2
    } else if c == '3' {
        3
    } else if c == '4' {
        4
    } else if c == '5' {
        5
    } else if c == '6' {
        6
    } else if c == '7' {
        7
    } else if c == '8' {
        8
    } else {
        9
    }
}

/// Decimal digit character of a value below ten.
pub open spec fn digit_char(d: nat) -> char {
    if d == 0 {
        '0'
    } else if d == 1 {
        '1'
    } else if d == 2 {
        '2'
    } else if d == 3 {
        '3'
    } else if d == 4 {
        '4'
    } else if d == 5 {
        '5'
    } else if d == 6 {
        '6'
    } else if d == 7 {
        '7'
    } else if d == 8 {
        '8'
    } else {
        '9'
    }
}

/// The canonical decimal digit string of `n`: no sign, no leading zero
/// except for `n == 0` itself.
pub open spec fn dec_digits(n: nat) -> Seq<char>
    decreases n,
{
    if n < 10 {
        seq![digit_char(n)]
    } else {
        dec_digits(n / 10).push(digit_char(n % 10))
    }
}

/// The canonical decimal string of an integer, with a leading `-` when
/// negative.
pub open spec fn sint_digits(n: int) -> Seq<char> {
    if n < 0 {
        seq!['-'] + dec_digits((-n) as nat)
    } else {
        dec_digits(n as nat)
    }
}

/// Value of a run of decimal digit characters, most significant first.
pub open spec fn val_of(run: Seq<char>) -> nat
    decreases run.len(),
{
    if run.len() == 0 {
        0
    } else {
        val_of(run.drop_last()) * 10 + char_digit(run.last())
    }
}

/// Ten to the `k`.
pub open spec fn pow10(k: nat) -> nat
    decreases k,
{
    if k == 0 {
        1
    } else {
        10 * pow10((k - 1) as nat)
    }
}

/// Split `t` into its longest prefix of decimal digits and the remainder.
pub open spec fn sp_digit_split(t: Seq<char>) -> (Seq<char>, Seq<char>)
    decreases t.len(),
{
    if t.len() == 0 || !is_digit(t.first()) {
        (Seq::empty(), t)
    } else {
        let (run, rest) = sp_digit_split(t.drop_first());
        (seq![t.first()] + run, rest)
    }
}

/// Read a decimal number from the front of `t`: its longest digit prefix,
/// of one to ten digits, and the remaining text.
pub open spec fn sp_scan_num(t: Seq<char>) -> Option<(nat, Seq<char>)> {
    let (run, rest) = sp_digit_split(t);
    if 1 <= run.len() && run.len() <= 10 {
        Some((val_of(run), rest))
    } else {
        None
    }
}

/// Read an optionally `-`-signed decimal number from the front of `t`.
pub open spec fn sp_scan_int(t: Seq<char>) -> Option<(int, Seq<char>)> {
    if t.len() > 0 && t.first() == '-' {
        match sp_scan_num(t.drop_first()) {
            None => None,
            Some((v, rest)) => Some((-(v as int), rest)),
        }
    } else {
        match sp_scan_num(t) {
            None => None,
            Some((v, rest)) => Some((v as int, rest)),
        }
    }
}

/// A one-character string slice for each decimal digit value.
fn digit_str(d: u8) -> (r: &'static str)
    requires
        d < 10,
    ensures
        r@ == seq![digit_char(d as nat)],
{
    proof {
        reveal_strlit("0");
        reveal_strlit("1");
        reveal_strlit("2");
        reveal_strlit("3");
        reveal_strlit("4");
        reveal_strlit("5");
        reveal_strlit("6");
        reveal_strlit("7");
        reveal_strlit("8");
        reveal_strlit("9");
    }
    if d == 0 {
        "0"
    } else if d == 1 {
        "1"
    } else if d == 2 {
        "2"
    } else if d == 3 {
        "3"
    } else if d == 4 {
        "4"
    } else if d == 5 {
        "5"
    } else if d == 6 {
        "6"
    } else if d == 7 {
        "7"
    } else if d == 8 {
        "8"
    } else {
        "9"
    }
}

/// The canonical decimal text of `n`.
pub fn encode_u64(n: u64) -> (r: String)
    ensures
        r@ == dec_digits(n as nat),
    decreases n,
{
    if n < 10 {
        let mut s = String::new();
        s.append(digit_str(n as u8));
        proof {
            assert(s@ =~= dec_digits(n as nat));
        }
        s
    } else {
        let mut s = encode_u64(n / 10);
        s.append(digit_str((n % 10) as u8));
        proof {
            assert(s@ =~= dec_digits(n as nat));
        }
        s
    }
}

/// The canonical decimal text of a signed 32-bit value.
pub fn encode_i32(n: i32) -> (r: String)
    ensures
        r@ == sint_digits(n as int),
{
    if n >= 0 {
        encode_u64(n as u64)
    } else {
        let mag: u64 = (-(n as i64)) as u64;
        let mut s = String::new();
        s.append("-");
        let digits = encode_u64(mag);
        s.append(digits.as_str());
        proof {
            reveal_strlit("-");
            assert(s@ =~= sint_digits(n as int));
        }
        s
    }
}

/// Every character of a canonical digit string is a digit.
proof fn lemma_dec_digits_are_digits(n: nat)
    ensures
        forall|i: int| 0 <= i < dec_digits(n).len() ==> is_digit(#[trigger] dec_digits(n)[i]),
    decreases n,
{
    if n < 10 {
        assert forall|i: int| 0 <= i < dec_digits(n).len() implies is_digit(
            #[trigger] dec_digits(n)[i],
        ) by {
            assert(dec_digits(n)[i] == digit_char(n));
        }
    } else {
        lemma_dec_digits_are_digits(n / 10);
        assert forall|i: int| 0 <= i < dec_digits(n).len() implies is_digit(
            #[trigger] dec_digits(n)[i],
        ) by {
            if i < dec_digits(n).len() - 1 {
                assert(dec_digits(n)[i] == dec_digits(n / 10)[i]);
            } else {
                assert(dec_digits(n)[i] == digit_char(n % 10));
            }
        }
    }
}

/// A value below ten to the `k` prints in at most `k` digits.
proof fn lemma_dec_digits_len(n: nat, k: nat)
    requires
        1 <= k,
        n < pow10(k),
    ensures
        1 <= dec_digits(n).len() <= k,
    decreases n,
{
    if n >= 10 {
        assert(pow10(k) == 10 * pow10((k - 1) as nat));
        assert(n == 10 * (n / 10) + n % 10);
        assert(n / 10 < pow10((k - 1) as nat));
        lemma_dec_digits_len(n / 10, (k - 1) as nat);
    }
}

/// Reading back the canonical digit string of `n` gives `n`.
proof fn lemma_val_of_dec_digits(n: nat)
    ensures
        val_of(dec_digits(n)) == n,
    decreases n,
{
    if n < 10 {
        let s1 = seq![digit_char(n)];
        assert(dec_digits(n) == s1);
        assert(s1.drop_last() =~= Seq::<char>::empty());
        assert(val_of(Seq::<char>::empty()) == 0);
        assert(s1.last() == digit_char(n));
        assert(val_of(s1) == val_of(s1.drop_last()) * 10 + char_digit(s1.last()));
        assert(char_digit(digit_char(n)) == n);
    } else {
        lemma_val_of_dec_digits(n / 10);
        assert(dec_digits(n).drop_last() =~= dec_digits(n / 10));
        assert(dec_digits(n).last() == digit_char(n % 10));
        assert(char_digit(digit_char(n % 10)) == n % 10);
        assert(n == (n / 10) * 10 + n % 10);
    }
}

/// Digit values stay below ten to the count of digits.
proof fn lemma_val_of_bound(run: Seq<char>)
    ensures
        val_of(run) < pow10(run.len() as nat),
    decreases run.len(),
{
    if run.len() > 0 {
        lemma_val_of_bound(run.drop_last());
        assert(val_of(run.drop_last()) * 10 + 9 < 10 * pow10((run.len() - 1) as nat))
            by (nonlinear_arith)
            requires
                val_of(run.drop_last()) < pow10((run.len() - 1) as nat);
        assert(char_digit(run.last()) <= 9);
    }
}

/// `sp_digit_split` splits exactly at the first non-digit.
proof fn lemma_digit_split_at(t: Seq<char>, l: int)
    requires
        0 <= l <= t.len(),
        forall|m: int| 0 <= m < l ==> is_digit(#[trigger] t[m]),
        l == t.len() || !is_digit(t[l]),
    ensures
        sp_digit_split(t) == (t.take(l), t.skip(l)),
    decreases l,
{
    if l == 0 {
        assert(t.take(0) =~= Seq::<char>::empty());
        assert(t.skip(0) =~= t);
        if t.len() > 0 {
            assert(!is_digit(t.first()));
        }
    } else {
        assert(is_digit(t.first()));
        assert(forall|m: int|
            0 <= m < l - 1 ==> is_digit(#[trigger] t.drop_first()[m]) == is_digit(t[m + 1]));
        lemma_digit_split_at(t.drop_first(), l - 1);
        assert(seq![t.first()] + t.drop_first().take(l - 1) =~= t.take(l));
        assert(t.drop_first().skip(l - 1) =~= t.skip(l));
    }
}

/// If the first `l` characters are digits, the digit run is at least that
/// long.
proof fn lemma_digit_run_min(t: Seq<char>, l: int)
    requires
        0 <= l <= t.len(),
        forall|m: int| 0 <= m < l ==> is_digit(#[trigger] t[m]),
    ensures
        sp_digit_split(t).0.len() >= l,
    decreases l,
{
    if l > 0 {
        assert(forall|m: int|
            0 <= m < l - 1 ==> is_digit(#[trigger] t.drop_first()[m]) == is_digit(t[m + 1]));
        lemma_digit_run_min(t.drop_first(), l - 1);
    }
}

/// Decimal digit value of a character, if it is one.
fn digit_val(c: char) -> (r: Option<u8>)
    ensures
        is_digit(c) ==> r == Some((char_digit(c) as u8)),
        !is_digit(c) ==> r is None,
{
    if c == '0' {
        Some(0)
    } else if c == '1' {
        Some(1)
    } else if c == '2' {
        Some(2)
    } else if c == '3' {
        Some(3)
    } else if c == '4' {
        Some(4)
    } else if c == '5' {
        Some(5)
    } else if c == '6' {
        Some(6)
    } else if c == '7' {
        Some(7)
    } else if c == '8' {
        Some(8)
    } else if c == '9' {
        Some(9)
    } else {
        None
    }
}

/// Read a decimal number out of `s` starting at character position `j`,
/// as [`sp_scan_num`] describes on the remaining text.
fn scan_u64(s: &str, j: usize) -> (r: Option<(u64, usize)>)
    requires
        j <= s@.len(),
    ensures
        match r {
            Some(p) => j <= p.1 <= s@.len() && sp_scan_num(s@.skip(j as int)) == Some(
                (p.0 as nat, s@.skip(p.1 as int)),
            ),
            None => sp_scan_num(s@.skip(j as int)) is None,
        },
{
    let n = s.unicode_len();
    let ghost t = s@.skip(j as int);
    let mut k: usize = j;
    let mut v: u64 = 0;
    loop
        invariant
            j <= k <= n,
            n == s@.len(),
            t == s@.skip(j as int),
            k - j <= 10,
            v as nat == val_of(s@.subrange(j as int, k as int)),
            (v as nat) < pow10((k - j) as nat),
            forall|m: int| j <= m < k ==> is_digit(#[trigger] s@[m]),
        ensures
            j <= k <= n,
            k - j <= 10,
            v as nat == val_of(s@.subrange(j as int, k as int)),
            forall|m: int| j <= m < k ==> is_digit(#[trigger] s@[m]),
            k == n || !is_digit(s@[k as int]),
        decreases n - k,
    {
        if k == n {
            break ;
        }
        let c = s.get_char(k);
        match digit_val(c) {
            None => {
                break ;
            },
            Some(d) => {
                if k - j == 10 {
                    // an eleventh digit: the run is too long to be one of
                    // this protocol's numbers
                    proof {
                        assert(forall|m: int|
                            0 <= m < 11 ==> is_digit(#[trigger] t[m]) == is_digit(s@[j + m]));
                        lemma_digit_run_min(t, 11);
                    }
                    return None;
                }
                proof {
                    reveal_with_fuel(pow10, 12);
                    assert(pow10(10) == 10000000000);
                    assert(pow10((k - j) as nat) <= pow10(9)) by {
                        assert(((k - j) as nat) <= 9);
                        lemma_pow10_mono((k - j) as nat, 9);
                    }
                    assert(v * 10 + d < 10 * pow10((k - j) as nat)) by (nonlinear_arith)
                        requires
                            (v as nat) < pow10((k - j) as nat),
                            d < 10;
                }
                let w: u64 = v * 10 + (d as u64);
                proof {
                    assert(s@.subrange(j as int, k + 1 as int).drop_last() =~= s@.subrange(
                        j as int,
                        k as int,
                    ));
                    assert(s@.subrange(j as int, k + 1 as int).last() == s@[k as int]);
                }
                v = w;
                k = k + 1;
            },
        }
    }
    // the run ends at k: either the end of the text or a non-digit
    proof {
        assert(forall|m: int|
            0 <= m < k - j ==> is_digit(#[trigger] t[m]) == is_digit(s@[j + m]));
        if k < n {
            assert(!is_digit(t[k - j]));
        }
        lemma_digit_split_at(t, k - j);
        assert(t.take(k - j) =~= s@.subrange(j as int, k as int));
        assert(t.skip(k - j) =~= s@.skip(k as int));
    }
    if k == j {
        None
    } else {
        Some((v, k))
    }
}

/// Ten to the `k` grows with `k`.
proof fn lemma_pow10_mono(a: nat, b: nat)
    requires
        a <= b,
    ensures
        pow10(a) <= pow10(b),
    decreases b,
{
    if a < b {
        lemma_pow10_mono(a, (b - 1) as nat);
        assert(pow10(b) == 10 * pow10((b - 1) as nat));
    }
}

/// Read an optionally signed decimal number out of `s` starting at
/// character position `j`, as [`sp_scan_int`] describes.
fn scan_i64(s: &str, j: usize) -> (r: Option<(i64, usize)>)
    requires
        j <= s@.len(),
    ensures
        match r {
            Some(p) => j <= p.1 <= s@.len() && sp_scan_int(s@.skip(j as int)) == Some(
                (p.0 as int, s@.skip(p.1 as int)),
            ),
            None => sp_scan_int(s@.skip(j as int)) is None,
        },
{
    let n = s.unicode_len();
    let ghost t = s@.skip(j as int);
    if j < n && s.get_char(j) == '-' {
        proof {
            assert(t.first() == s@[j as int]);
            assert(t.drop_first() =~= s@.skip(j + 1 as int));
        }
        match scan_u64(s, j + 1) {
            None => None,
            Some((v, k)) => {
                proof {
                    let run = sp_digit_split(s@.skip(j + 1 as int)).0;
                    lemma_val_of_bound(run);
                    reveal_with_fuel(pow10, 12);
                    assert(pow10(10) == 10000000000);
                }
                Some(((-(v as i64)), k))
            },
        }
    } else {
        proof {
            if t.len() > 0 {
                assert(t.first() == s@[j as int]);
            }
            if j < n {
            } else {
                assert(t.len() == 0);
            }
        }
        match scan_u64(s, j) {
            None => None,
            Some((v, k)) => {
                proof {
                    let run = sp_digit_split(t).0;
                    lemma_val_of_bound(run);
                    reveal_with_fuel(pow10, 12);
                    assert(pow10(10) == 10000000000);
                }
                Some(((v as i64), k))
            },
        }
    }
}

/// Consume `lit` from the front of `t`, or fail.
pub open spec fn sp_expect(lit: Seq<char>, t: Seq<char>) -> Option<Seq<char>> {
    if lit.len() <= t.len() && t.take(lit.len() as int) == lit {
        Some(t.skip(lit.len() as int))
    } else {
        None
    }
}

/// The escaped form of one character inside a quoted string.
pub open spec fn esc_char(c: char) -> Seq<char> {
    if c == '"' {
        seq!['\\', '"']
    } else if c == '\\' {
        seq!['\\', '\\']
    } else {
        seq![c]
    }
}

/// The escaped form of a whole string body.
pub open spec fn sp_escape(s: Seq<char>) -> Seq<char>
    decreases s.len(),
{
    if s.len() == 0 {
        Seq::empty()
    } else {
        esc_char(s.first()) + sp_escape(s.drop_first())
    }
}

/// Prefix the string part of a scan result.
pub open spec fn opt_prepend(a: Seq<char>, o: Option<(Seq<char>, Seq<char>)>) -> Option<
    (Seq<char>, Seq<char>),
> {
    match o {
        None => None,
        Some((b, rest)) => Some((a + b, rest)),
    }
}

/// Read a quoted string body from the front of `t` (the opening quote is
/// already consumed): unescape `\"` and `\\`, stop at the closing quote,
/// and also give the text after it. Fails on a lone backslash, an unknown
/// escape, or a missing closing quote.
pub open spec fn sp_scan_str(t: Seq<char>) -> Option<(Seq<char>, Seq<char>)>
    decreases t.len(),
{
    if t.len() == 0 {
        None
    } else if t.first() == '"' {
        Some((Seq::empty(), t.drop_first()))
    } else if t.first() == '\\' {
        if t.len() >= 2 && (t[1] == '"' || t[1] == '\\') {
            opt_prepend(seq![t[1]], sp_scan_str(t.skip(2)))
        } else {
            None
        }
    } else {
        opt_prepend(seq![t.first()], sp_scan_str(t.drop_first()))
    }
}

/// Escaping distributes over concatenation.
proof fn lemma_escape_concat(a: Seq<char>, b: Seq<char>)
    ensures
        sp_escape(a + b) == sp_escape(a) + sp_escape(b),
    decreases a.len(),
{
    if a.len() == 0 {
        assert(a + b =~= b);
        assert(sp_escape(a) + sp_escape(b) =~= sp_escape(b));
    } else {
        assert((a + b).first() == a.first());
        assert((a + b).drop_first() =~= a.drop_first() + b);
        lemma_escape_concat(a.drop_first(), b);
        assert(sp_escape(a + b) =~= sp_escape(a) + sp_escape(b));
    }
}

/// Check that the characters of `s` from position `j` on start with `lit`,
/// and give the position just past it.
fn expect_lit(s: &str, j: usize, lit: &str) -> (r: Option<usize>)
    requires
        j <= s@.len(),
    ensures
        match r {
            Some(k) => j <= k <= s@.len() && k == j + lit@.len() && sp_expect(
                lit@,
                s@.skip(j as int),
            ) == Some(s@.skip(k as int)),
            None => sp_expect(lit@, s@.skip(j as int)) is None,
        },
{
    let n = s.unicode_len();
    let ll = lit.unicode_len();
    let ghost t = s@.skip(j as int);
    if n - j < ll {
        return None;
    }
    let mut i: usize = 0;
    loop
        invariant
            0 <= i <= ll,
            j + ll <= n,
            n == s@.len(),
            ll == lit@.len(),
            t == s@.skip(j as int),
            forall|m: int| 0 <= m < i ==> s@[j + m] == lit@[m],
        ensures
            i == ll,
            forall|m: int| 0 <= m < ll ==> s@[j + m] == lit@[m],
        decreases ll - i,
    {
        if i == ll {
            break ;
        }
        let cs = s.get_char(j + i);
        let cl = lit.get_char(i);
        if cs != cl {
            proof {
                assert(t.take(ll as int)[i as int] == s@[j + i]);
                assert(t.take(ll as int) != lit@);
            }
            return None;
        }
        i = i + 1;
    }
    proof {
        assert(t.take(ll as int) =~= lit@);
        assert(t.skip(ll as int) =~= s@.skip((j + ll) as int));
    }
    Some(j + ll)
}

/// Append the escaped form of `s` to `out`.
fn append_escaped(out: &mut String, s: &str)
    ensures
        final(out)@ == old(out)@ + sp_escape(s@),
{
    let n = s.unicode_len();
    let mut i: usize = 0;
    proof {
        assert(s@.subrange(0, 0) =~= Seq::<char>::empty());
        assert(out@ =~= old(out)@ + sp_escape(s@.subrange(0, 0)));
    }
    loop
        invariant
            0 <= i <= n,
            n == s@.len(),
            out@ == old(out)@ + sp_escape(s@.subrange(0, i as int)),
        ensures
            final(out)@ == old(out)@ + sp_escape(s@),
        decreases n - i,
    {
        if i == n {
            proof {
                assert(s@.subrange(0, n as int) =~= s@);
            }
            break ;
        }
        let c = s.get_char(i);
        proof {
            reveal_strlit("\\\"");
            reveal_strlit("\\\\");
            assert(s@.subrange(0, i + 1 as int) =~= s@.subrange(0, i as int) + seq![s@[i as int]]);
            lemma_escape_concat(s@.subrange(0, i as int), seq![s@[i as int]]);
            let one = seq![s@[i as int]];
            assert(one.len() == 1);
            assert(one.first() == s@[i as int]);
            assert(one.drop_first() =~= Seq::<char>::empty());
            assert(sp_escape(one) == esc_char(one.first()) + sp_escape(one.drop_first()));
            assert(sp_escape(Seq::<char>::empty()) =~= Seq::<char>::empty());
            assert(esc_char(s@[i as int]) + Seq::<char>::empty() =~= esc_char(s@[i as int]));
            assert(sp_escape(one) =~= esc_char(s@[i as int]));
        }
        if c == '"' {
            out.append("\\\"");
        } else if c == '\\' {
            out.append("\\\\");
        } else {
            let piece = s.substring_char(i, i + 1);
            proof {
                assert(piece@ =~= seq![s@[i as int]]);
            }
            out.append(piece);
        }
        proof {
            assert(out@ =~= old(out)@ + sp_escape(s@.subrange(0, i + 1 as int)));
        }
        i = i + 1;
    }
}

/// Read a quoted string body out of `s` starting at character position `j`
/// (just past the opening quote), as [`sp_scan_str`] describes.
fn scan_string(s: &str, j: usize) -> (r: Option<(String, usize)>)
    requires
        j <= s@.len(),
    ensures
        match r {
            Some(p) => j <= p.1 <= s@.len() && sp_scan_str(s@.skip(j as int)) == Some(
                (p.0@, s@.skip(p.1 as int)),
            ),
            None => sp_scan_str(s@.skip(j as int)) is None,
        },
{
    let n = s.unicode_len();
    let ghost t = s@.skip(j as int);
    let mut out = String::new();
    let mut k: usize = j;
    proof {
        assert(opt_prepend(Seq::empty(), sp_scan_str(t)) == sp_scan_str(t)) by {
            match sp_scan_str(t) {
                None => {},
                Some((b, rest)) => {
                    assert(Seq::empty() + b =~= b);
                },
            }
        }
    }
    loop
        invariant
            j <= k <= n,
            n == s@.len(),
            t == s@.skip(j as int),
            opt_prepend(out@, sp_scan_str(s@.skip(k as int))) == sp_scan_str(t),
        decreases n - k,
    {
        let ghost tk = s@.skip(k as int);
        if k == n {
            proof {
                assert(tk.len() == 0);
            }
            return None;
        }
        proof {
            assert(tk.first() == s@[k as int]);
            assert(tk.drop_first() =~= s@.skip(k + 1 as int));
        }
        let c = s.get_char(k);
        if c == '"' {
            proof {
                assert(sp_scan_str(tk) == Some((Seq::<char>::empty(), s@.skip(k + 1 as int))));
                assert(out@ + Seq::<char>::empty() =~= out@);
            }
            return Some((out, k + 1));
        } else if c == '\\' {
            if k + 1 == n {
                proof {
                    assert(tk.len() == 1);
                    assert(sp_scan_str(tk) is None);
                }
                return None;
            }
            let c2 = s.get_char(k + 1);
            proof {
                assert(tk[1] == s@[k + 1]);
                assert(tk.skip(2) =~= s@.skip(k + 2 as int));
            }
            if c2 == '"' {
                let ghost pre = out@;
                out.append("\"");
                proof {
                    reveal_strlit("\"");
                    assert(out@ =~= pre + seq![c2]);
                    lemma_opt_prepend_assoc(pre, seq![c2], sp_scan_str(s@.skip(k + 2 as int)));
                }
                k = k + 2;
            } else if c2 == '\\' {
                let ghost pre = out@;
                out.append("\\");
                proof {
                    reveal_strlit("\\");
                    assert(out@ =~= pre + seq![c2]);
                    lemma_opt_prepend_assoc(pre, seq![c2], sp_scan_str(s@.skip(k + 2 as int)));
                }
                k = k + 2;
            } else {
                proof {
                    assert(sp_scan_str(tk) is None);
                }
                return None;
            }
        } else {
            let piece = s.substring_char(k, k + 1);
            let ghost pre = out@;
            proof {
                assert(piece@ =~= seq![s@[k as int]]);
            }
            out.append(piece);
            proof {
                assert(out@ =~= pre + seq![c]);
                lemma_opt_prepend_assoc(pre, seq![c], sp_scan_str(s@.skip(k + 1 as int)));
            }
            k = k + 1;
        }
    }
}

/// The canonical text of a discovery datagram.
pub open spec fn sp_encode_msg(m: MessageV) -> Seq<char> {
    match m {
        MessageV::Beacon { instance_id, name, ip, ws_port, version } => "{\"type\":\"beacon\",\"instance_id\":\""@
            + sp_escape(instance_id) + "\",\"name\":\""@ + sp_escape(name) + "\",\"ip\":\""@
            + sp_escape(ip) + "\",\"ws_port\":"@ + dec_digits(ws_port as nat) + ",\"version\":"@
            + dec_digits(version as nat) + "}"@,
        MessageV::RequestControl { from, to, name, ws_host, ws_port, options } => {
            let to_part = match to {
                None => "null"@,
                Some(t) => "\""@ + sp_escape(t) + "\""@,
            };
            let mode_part = match options {
                MapMode::Relative => "relative"@,
                MapMode::Absolute => "absolute"@,
            };
            "{\"type\":\"request_control\",\"from\":\""@ + sp_escape(from) + "\",\"to\":"@
                + to_part + ",\"name\":\""@ + sp_escape(name) + "\",\"ws_host\":\""@ + sp_escape(
                ws_host,
            ) + "\",\"ws_port\":"@ + dec_digits(ws_port as nat) + ",\"options\":{\"map\":\""@
                + mode_part + "\"}}"@
        },
        MessageV::ResponseControl { from, accepted } => {
            let acc_part = if accepted {
                "true}"@
            } else {
                "false}"@
            };
            "{\"type\":\"response_control\",\"from\":\""@ + sp_escape(from) + "\",\"accepted\":"@
                + acc_part
        },
    }
}

/// Parse the tail of a beacon datagram, after its tag and the opening quote
/// of `instance_id`.
pub open spec fn sp_parse_beacon_tail(t: Seq<char>) -> Option<MessageV> {
    match sp_scan_str(t) {
        None => None,
        Some((instance_id, t1)) => match sp_expect(",\"name\":\""@, t1) {
            None => None,
            Some(t2) => match sp_scan_str(t2) {
                None => None,
                Some((name, t3)) => match sp_expect(",\"ip\":\""@, t3) {
                    None => None,
                    Some(t4) => match sp_scan_str(t4) {
                        None => None,
                        Some((ip, t5)) => match sp_expect(",\"ws_port\":"@, t5) {
                            None => None,
                            Some(t6) => match sp_scan_num(t6) {
                                None => None,
                                Some((port, t7)) => if port > 65535 {
                                    None
                                } else {
                                    match sp_expect(",\"version\":"@, t7) {
                                        None => None,
                                        Some(t8) => match sp_scan_num(t8) {
                                            None => None,
                                            Some((version, t9)) => if version > 0xffff_ffff {
                                                None
                                            } else {
                                                match sp_expect("}"@, t9) {
                                                    None => None,
                                                    Some(t10) => if t10.len() == 0 {
                                                        Some(
                                                            MessageV::Beacon {
                                                                instance_id,
                                                                name,
                                                                ip,
                                                                ws_port: port as u16,
                                                                version: version as u32,
                                                            },
                                                        )
                                                    } else {
                                                        None
                                                    },
                                                }
                                            },
                                        },
                                    }
                                },
                            },
                        },
                    },
                },
            },
        },
    }
}

/// Parse the tail of a control request after its `to` field.
pub open spec fn sp_parse_request_tail(t: Seq<char>, from: Seq<char>, to: Option<Seq<char>>) -> Option<
    MessageV,
> {
    match sp_scan_str(t) {
        None => None,
        Some((name, t1)) => match sp_expect(",\"ws_host\":\""@, t1) {
            None => None,
            Some(t2) => match sp_scan_str(t2) {
                None => None,
                Some((ws_host, t3)) => match sp_expect(",\"ws_port\":"@, t3) {
                    None => None,
                    Some(t4) => match sp_scan_num(t4) {
                        None => None,
                        Some((port, t5)) => if port > 65535 {
                            None
                        } else {
                            match sp_expect(",\"options\":{\"map\":\""@, t5) {
                                None => None,
                                Some(t6) => {
                                    let options = match sp_expect("relative\"}}"@, t6) {
                                        Some(t7) => Some((MapMode::Relative, t7)),
                                        None => match sp_expect("absolute\"}}"@, t6) {
                                            Some(t7) => Some((MapMode::Absolute, t7)),
                                            None => None,
                                        },
                                    };
                                    match options {
                                        None => None,
                                        Some((mode, t7)) => if t7.len() == 0 {
                                            Some(
                                                MessageV::RequestControl {
                                                    from,
                                                    to,
                                                    name,
                                                    ws_host,
                                                    ws_port: port as u16,
                                                    options: mode,
                                                },
                                            )
                                        } else {
                                            None
                                        },
                                    }
                                },
                            }
                        },
                    },
                },
            },
        },
    }
}

/// Parse the tail of a control request, after its tag and the opening quote
/// of `from`.
pub open spec fn sp_parse_request(t: Seq<char>) -> Option<MessageV> {
    match sp_scan_str(t) {
        None => None,
        Some((from, t1)) => match sp_expect(",\"to\":"@, t1) {
            None => None,
            Some(t2) => match sp_expect("null,\"name\":\""@, t2) {
                Some(t3) => sp_parse_request_tail(t3, from, None),
                None => match sp_expect("\""@, t2) {
                    None => None,
                    Some(t3) => match sp_scan_str(t3) {
                        None => None,
                        Some((to, t4)) => match sp_expect(",\"name\":\""@, t4) {
                            None => None,
                            Some(t5) => sp_parse_request_tail(t5, from, Some(to)),
                        },
                    },
                },
            },
        },
    }
}

/// Parse the tail of a control response, after its tag and the opening
/// quote of `from`.
pub open spec fn sp_parse_response(t: Seq<char>) -> Option<MessageV> {
    match sp_scan_str(t) {
        None => None,
        Some((from, t1)) => match sp_expect(",\"accepted\":"@, t1) {
            None => None,
            Some(t2) => match sp_expect("true}"@, t2) {
                Some(t3) => if t3.len() == 0 {
                    Some(MessageV::ResponseControl { from, accepted: true })
                } else {
                    None
                },
                None => match sp_expect("false}"@, t2) {
                    Some(t3) => if t3.len() == 0 {
                        Some(MessageV::ResponseControl { from, accepted: false })
                    } else {
                        None
                    },
                    None => None,
                },
            },
        },
    }
}

/// Parse a whole discovery datagram in canonical form. Anything else,
/// trailing text included, is malformed.
pub open spec fn sp_parse_msg(t: Seq<char>) -> Option<MessageV> {
    match sp_expect("{\"type\":\""@, t) {
        None => None,
        Some(t1) => match sp_expect("beacon\",\"instance_id\":\""@, t1) {
            Some(t2) => sp_parse_beacon_tail(t2),
            None => match sp_expect("request_control\",\"from\":\""@, t1) {
                Some(t2) => sp_parse_request(t2),
                None => match sp_expect("response_control\",\"from\":\""@, t1) {
                    Some(t2) => sp_parse_response(t2),
                    None => None,
                },
            },
        },
    }
}

/// The canonical text of a relay pointer-move message.
pub open spec fn sp_encode_ptr(e: PointerEvent) -> Seq<char> {
    "{\"type\":\"mouse_move\",\"x\":"@ + sint_digits(e.x as int) + ",\"y\":"@ + sint_digits(
        e.y as int,
    ) + "}"@
}

/// Parse a relay message; only a canonical pointer-move message is
/// recognized.
pub open spec fn sp_parse_ptr(t: Seq<char>) -> Option<PointerEvent> {
    match sp_expect("{\"type\":\"mouse_move\",\"x\":"@, t) {
        None => None,
        Some(t1) => match sp_scan_int(t1) {
            None => None,
            Some((x, t2)) => match sp_expect(",\"y\":"@, t2) {
                None => None,
                Some(t3) => match sp_scan_int(t3) {
                    None => None,
                    Some((y, t4)) => match sp_expect("}"@, t4) {
                        None => None,
                        Some(t5) => if t5.len() == 0 && -2147483648 <= x <= 2147483647
                            && -2147483648 <= y <= 2147483647 {
                            Some(PointerEvent { x: x as i32, y: y as i32 })
                        } else {
                            None
                        },
                    },
                },
            },
        },
    }
}

/// Prefixing twice is prefixing the concatenation.
proof fn lemma_opt_prepend_assoc(a: Seq<char>, b: Seq<char>, o: Option<(Seq<char>, Seq<char>)>)
    ensures
        opt_prepend(a, opt_prepend(b, o)) == opt_prepend(a + b, o),
{
    match o {
        None => {},
        Some((c, rest)) => {
            assert(a + (b + c) =~= (a + b) + c);
        },
    }
}

/// View of an optional string.
pub open spec fn opt_str_view(o: Option<String>) -> Option<Seq<char>> {
    match o {
        None => None,
        Some(s) => Some(s@),
    }
}

/// The canonical text of a discovery datagram.
pub fn encode_message(m: &Message) -> (r: String)
    ensures
        r@ == sp_encode_msg(m@),
{
    match m {
        Message::Beacon { instance_id, name, ip, ws_port, version } => {
            let mut out = String::new();
            out.append("{\"type\":\"beacon\",\"instance_id\":\"");
            append_escaped(&mut out, instance_id.as_str());
            out.append("\",\"name\":\"");
            append_escaped(&mut out, name.as_str());
            out.append("\",\"ip\":\"");
            append_escaped(&mut out, ip.as_str());
            out.append("\",\"ws_port\":");
            let p = encode_u64(*ws_port as u64);
            out.append(p.as_str());
            out.append(",\"version\":");
            let v = encode_u64(*version as u64);
            out.append(v.as_str());
            out.append("}");
            proof {
                assert(out@ =~= sp_encode_msg(m@));
            }
            out
        },
        Message::RequestControl { from, to, name, ws_host, ws_port, options } => {
            let mut out = String::new();
            out.append("{\"type\":\"request_control\",\"from\":\"");
            append_escaped(&mut out, from.as_str());
            out.append("\",\"to\":");
            match to {
                None => {
                    out.append("null");
                },
                Some(t) => {
                    out.append("\"");
                    append_escaped(&mut out, t.as_str());
                    out.append("\"");
                },
            }
            out.append(",\"name\":\"");
            append_escaped(&mut out, name.as_str());
            out.append("\",\"ws_host\":\"");
            append_escaped(&mut out, ws_host.as_str());
            out.append("\",\"ws_port\":");
            let p = encode_u64(*ws_port as u64);
            out.append(p.as_str());
            out.append(",\"options\":{\"map\":\"");
            match options {
                MapMode::Relative => {
                    out.append("relative");
                },
                MapMode::Absolute => {
                    out.append("absolute");
                },
            }
            out.append("\"}}");
            proof {
                assert(out@ =~= sp_encode_msg(m@));
            }
            out
        },
        Message::ResponseControl { from, accepted } => {
            let mut out = String::new();
            out.append("{\"type\":\"response_control\",\"from\":\"");
            append_escaped(&mut out, from.as_str());
            out.append("\",\"accepted\":");
            if *accepted {
                out.append("true}");
            } else {
                out.append("false}");
            }
            proof {
                assert(out@ =~= sp_encode_msg(m@));
            }
            out
        },
    }
}

/// Parse the fields of a beacon, from just past the opening quote of
/// `instance_id`.
fn parse_beacon_tail(s: &str, j: usize) -> (r: Option<Message>)
    requires
        j <= s@.len(),
    ensures
        match r {
            Some(m) => sp_parse_beacon_tail(s@.skip(j as int)) == Some(m@),
            None => sp_parse_beacon_tail(s@.skip(j as int)) is None,
        },
{
    let n = s.unicode_len();
    let (instance_id, j1) = match scan_string(s, j) {
        None => {
            return None;
        },
        Some(p) => p,
    };
    let j2 = match expect_lit(s, j1, ",\"name\":\"") {
        None => {
            return None;
        },
        Some(k) => k,
    };
    let (name, j3) = match scan_string(s, j2) {
        None => {
            return None;
        },
        Some(p) => p,
    };
    let j4 = match expect_lit(s, j3, ",\"ip\":\"") {
        None => {
            return None;
        },
        Some(k) => k,
    };
    let (ip, j5) = match scan_string(s, j4) {
        None => {
            return None;
        },
        Some(p) => p,
    };
    let j6 = match expect_lit(s, j5, ",\"ws_port\":") {
        None => {
            return None;
        },
        Some(k) => k,
    };
    let (port, j7) = match scan_u64(s, j6) {
        None => {
            return None;
        },
        Some(p) => p,
    };
    if port > 65535 {
        return None;
    }
    let j8 = match expect_lit(s, j7, ",\"version\":") {
        None => {
            return None;
        },
        Some(k) => k,
    };
    let (version, j9) = match scan_u64(s, j8) {
        None => {
            return None;
        },
        Some(p) => p,
    };
    if version > 0xffff_ffff {
        return None;
    }
    let j10 = match expect_lit(s, j9, "}") {
        None => {
            return None;
        },
        Some(k) => k,
    };
    if j10 != n {
        return None;
    }
    Some(
        Message::Beacon {
            instance_id,
            name,
            ip,
            ws_port: port as u16,
            version: version as u32,
        },
    )
}

/// Parse the fields of a control request after its `to` field.
fn parse_request_tail(s: &str, j: usize, from: String, to: Option<String>) -> (r: Option<Message>)
    requires
        j <= s@.len(),
    ensures
        match r {
            Some(m) => sp_parse_request_tail(s@.skip(j as int), from@, opt_str_view(to)) == Some(
                m@,
            ),
            None => sp_parse_request_tail(s@.skip(j as int), from@, opt_str_view(to)) is None,
        },
{
    let n = s.unicode_len();
    let (name, j1) = match scan_string(s, j) {
        None => {
            return None;
        },
        Some(p) => p,
    };
    let j2 = match expect_lit(s, j1, ",\"ws_host\":\"") {
        None => {
            return None;
        },
        Some(k) => k,
    };
    let (ws_host, j3) = match scan_string(s, j2) {
        None => {
            return None;
        },
        Some(p) => p,
    };
    let j4 = match expect_lit(s, j3, ",\"ws_port\":") {
        None => {
            return None;
        },
        Some(k) => k,
    };
    let (port, j5) = match scan_u64(s, j4) {
        None => {
            return None;
        },
        Some(p) => p,
    };
    if port > 65535 {
        return None;
    }
    let j6 = match expect_lit(s, j5, ",\"options\":{\"map\":\"") {
        None => {
            return None;
        },
        Some(k) => k,
    };
    let (mode, j7) = match expect_lit(s, j6, "relative\"}}") {
        Some(k) => (MapMode::Relative, k),
        None => match expect_lit(s, j6, "absolute\"}}") {
            Some(k) => (MapMode::Absolute, k),
            None => {
                return None;
            },
        },
    };
    if j7 != n {
        return None;
    }
    Some(
        Message::RequestControl {
            from,
            to,
            name,
            ws_host,
            ws_port: port as u16,
            options: mode,
        },
    )
}

/// Parse a whole discovery datagram, as [`sp_parse_msg`] describes.
pub fn parse_message(s: &str) -> (r: Option<Message>)
    ensures
        match r {
            Some(m) => sp_parse_msg(s@) == Some(m@),
            None => sp_parse_msg(s@) is None,
        },
{
    let n = s.unicode_len();
    proof {
        assert(s@.skip(0) =~= s@);
    }
    let j1 = match expect_lit(s, 0, "{\"type\":\"") {
        None => {
            return None;
        },
        Some(k) => k,
    };
    match expect_lit(s, j1, "beacon\",\"instance_id\":\"") {
        Some(j2) => parse_beacon_tail(s, j2),
        None => match expect_lit(s, j1, "request_control\",\"from\":\"") {
            Some(j2) => {
                let (from, j3) = match scan_string(s, j2) {
                    None => {
                        return None;
                    },
                    Some(p) => p,
                };
                let j4 = match expect_lit(s, j3, ",\"to\":") {
                    None => {
                        return None;
                    },
                    Some(k) => k,
                };
                match expect_lit(s, j4, "null,\"name\":\"") {
                    Some(j5) => parse_request_tail(s, j5, from, None),
                    None => {
                        let j5 = match expect_lit(s, j4, "\"") {
                            None => {
                                return None;
                            },
                            Some(k) => k,
                        };
                        let (to, j6) = match scan_string(s, j5) {
                            None => {
                                return None;
                            },
                            Some(p) => p,
                        };
                        let j7 = match expect_lit(s, j6, ",\"name\":\"") {
                            None => {
                                return None;
                            },
                            Some(k) => k,
                        };
                        parse_request_tail(s, j7, from, Some(to))
                    },
                }
            },
            None => match expect_lit(s, j1, "response_control\",\"from\":\"") {
                Some(j2) => {
                    let (from, j3) = match scan_string(s, j2) {
                        None => {
                            return None;
                        },
                        Some(p) => p,
                    };
                    let j4 = match expect_lit(s, j3, ",\"accepted\":") {
                        None => {
                            return None;
                        },
                        Some(k) => k,
                    };
                    match expect_lit(s, j4, "true}") {
                        Some(j5) => {
                            if j5 != n {
                                return None;
                            }
                            Some(Message::ResponseControl { from, accepted: true })
                        },
                        None => match expect_lit(s, j4, "false}") {
                            Some(j5) => {
                                if j5 != n {
                                    return None;
                                }
                                Some(Message::ResponseControl { from, accepted: false })
                            },
                            None => None,
                        },
                    }
                },
                None => None,
            },
        },
    }
}

/// The canonical text of a relay pointer-move message.
pub fn encode_pointer_event(e: PointerEvent) -> (r: String)
    ensures
        r@ == sp_encode_ptr(e),
{
    let mut out = String::new();
    out.append("{\"type\":\"mouse_move\",\"x\":");
    let xs = encode_i32(e.x);
    out.append(xs.as_str());
    out.append(",\"y\":");
    let ys = encode_i32(e.y);
    out.append(ys.as_str());
    out.append("}");
    proof {
        assert(out@ =~= sp_encode_ptr(e));
    }
    out
}

/// Parse a relay message, as [`sp_parse_ptr`] describes.
pub fn parse_pointer_event(s: &str) -> (r: Option<PointerEvent>)
    ensures
        match r {
            Some(e) => sp_parse_ptr(s@) == Some(e),
            None => sp_parse_ptr(s@) is None,
        },
{
    let n = s.unicode_len();
    proof {
        assert(s@.skip(0) =~= s@);
    }
    let j1 = match expect_lit(s, 0, "{\"type\":\"mouse_move\",\"x\":") {
        None => {
            return None;
        },
        Some(k) => k,
    };
    let (x, j2) = match scan_i64(s, j1) {
        None => {
            return None;
        },
        Some(p) => p,
    };
    let j3 = match expect_lit(s, j2, ",\"y\":") {
        None => {
            return None;
        },
        Some(k) => k,
    };
    let (y, j4) = match scan_i64(s, j3) {
        None => {
            return None;
        },
        Some(p) => p,
    };
    let j5 = match expect_lit(s, j4, "}") {
        None => {
            return None;
        },
        Some(k) => k,
    };
    if j5 != n {
        return None;
    }
    if x < -2147483648 || x > 2147483647 || y < -2147483648 || y > 2147483647 {
        return None;
    }
    Some(PointerEvent { x: x as i32, y: y as i32 })
}

/// A literal at the front of a text is consumed exactly.
proof fn lemma_expect_prefix(lit: Seq<char>, rest: Seq<char>)
    ensures
        sp_expect(lit, lit + rest) == Some(rest),
{
    assert((lit + rest).take(lit.len() as int) =~= lit);
    assert((lit + rest).skip(lit.len() as int) =~= rest);
}

/// A canonical digit string followed by a non-digit scans back to its value.
proof fn lemma_scan_num_digits(n: nat, rest: Seq<char>)
    requires
        n < pow10(10),
        rest.len() == 0 || !is_digit(rest.first()),
    ensures
        sp_scan_num(dec_digits(n) + rest) == Some((n, rest)),
{
    let dd = dec_digits(n);
    let t = dd + rest;
    lemma_dec_digits_are_digits(n);
    lemma_dec_digits_len(n, 10);
    assert(forall|m: int| 0 <= m < dd.len() ==> #[trigger] t[m] == dd[m]);
    if rest.len() > 0 {
        assert(t[dd.len() as int] == rest.first());
    }
    lemma_digit_split_at(t, dd.len() as int);
    assert(t.take(dd.len() as int) =~= dd);
    assert(t.skip(dd.len() as int) =~= rest);
    lemma_val_of_dec_digits(n);
}

/// A canonical signed decimal followed by a non-digit scans back to its
/// value.
proof fn lemma_scan_int_sint(n: int, rest: Seq<char>)
    requires
        -pow10(10) < n < pow10(10),
        rest.len() == 0 || !is_digit(rest.first()),
    ensures
        sp_scan_int(sint_digits(n) + rest) == Some((n, rest)),
{
    if n >= 0 {
        let t = dec_digits(n as nat) + rest;
        lemma_dec_digits_are_digits(n as nat);
        assert(t.first() == dec_digits(n as nat)[0]);
        assert(is_digit(t.first()));
        assert(t.first() != '-');
        lemma_scan_num_digits(n as nat, rest);
    } else {
        let m = (-n) as nat;
        let t = sint_digits(n) + rest;
        assert(t.first() == '-');
        assert(t.drop_first() =~= dec_digits(m) + rest);
        lemma_scan_num_digits(m, rest);
    }
}

/// An escaped string body followed by its closing quote scans back to the
/// body.
proof fn lemma_scan_escaped(body: Seq<char>, rest: Seq<char>)
    ensures
        sp_scan_str(sp_escape(body) + seq!['"'] + rest) == Some((body, rest)),
    decreases body.len(),
{
    let t = sp_escape(body) + seq!['"'] + rest;
    if body.len() == 0 {
        assert(t =~= seq!['"'] + rest);
        assert(t.first() == '"');
        assert(t.drop_first() =~= rest);
    } else {
        let c = body.first();
        let body1 = body.drop_first();
        assert(sp_escape(body) == esc_char(c) + sp_escape(body1));
        lemma_scan_escaped(body1, rest);
        let t1 = sp_escape(body1) + seq!['"'] + rest;
        if c == '"' || c == '\\' {
            assert(esc_char(c) == seq!['\\', c]);
            assert(t.len() >= 2);
            assert(t[0] == '\\');
            assert(t[1] == c);
            assert(t.skip(2) =~= t1);
            assert(sp_scan_str(t) == opt_prepend(seq![c], sp_scan_str(t1)));
            assert(seq![c] + body1 =~= body);
        } else {
            assert(esc_char(c) == seq![c]);
            assert(t.first() == c);
            assert(t.drop_first() =~= t1);
            assert(sp_scan_str(t) == opt_prepend(seq![c], sp_scan_str(t1)));
            assert(seq![c] + body1 =~= body);
        }
    }
}

/// A literal fails on a text that differs from it at some position.
proof fn lemma_expect_mismatch(lit: Seq<char>, t: Seq<char>, k: int)
    requires
        0 <= k < lit.len(),
        k < t.len(),
        t[k] != lit[k],
    ensures
        sp_expect(lit, t) is None,
{
    if lit.len() <= t.len() && t.take(lit.len() as int) == lit {
        assert(t.take(lit.len() as int)[k] == t[k]);
    }
}

/// Parsing the canonical text of a beacon gives the beacon back.
#[verifier::rlimit(60)]
proof fn lemma_rt_beacon(id: Seq<char>, name: Seq<char>, ip: Seq<char>, port: u16, ver: u32)
    ensures
        sp_parse_msg(
            sp_encode_msg(
                MessageV::Beacon { instance_id: id, name, ip, ws_port: port, version: ver },
            ),
        ) == Some(MessageV::Beacon { instance_id: id, name, ip, ws_port: port, version: ver }),
{
    let m = MessageV::Beacon { instance_id: id, name, ip, ws_port: port, version: ver };
    let enc = sp_encode_msg(m);
    reveal_strlit("{\"type\":\"");
    reveal_strlit("beacon\",\"instance_id\":\"");
    reveal_strlit("{\"type\":\"beacon\",\"instance_id\":\"");
    reveal_strlit("\",\"name\":\"");
    reveal_strlit(",\"name\":\"");
    reveal_strlit("\",\"ip\":\"");
    reveal_strlit(",\"ip\":\"");
    reveal_strlit("\",\"ws_port\":");
    reveal_strlit(",\"ws_port\":");
    reveal_strlit(",\"version\":");
    reveal_strlit("}");
    reveal_with_fuel(pow10, 12);
    assert(pow10(10) == 10000000000);
    let t0 = "{\"type\":\""@;
    let tb = "beacon\",\"instance_id\":\""@;
    let pn = ",\"name\":\""@;
    let pi = ",\"ip\":\""@;
    let pp = ",\"ws_port\":"@;
    let pv = ",\"version\":"@;
    let pe = "}"@;
    let a5 = dec_digits(ver as nat) + pe;
    let a4 = dec_digits(port as nat) + (pv + a5);
    let a3 = sp_escape(ip) + seq!['"'] + (pp + a4);
    let a2 = sp_escape(name) + seq!['"'] + (pi + a3);
    let a1 = sp_escape(id) + seq!['"'] + (pn + a2);
    assert("{\"type\":\"beacon\",\"instance_id\":\""@ =~= t0 + tb);
    assert("\",\"name\":\""@ =~= seq!['"'] + pn);
    assert("\",\"ip\":\""@ =~= seq!['"'] + pi);
    assert("\",\"ws_port\":"@ =~= seq!['"'] + pp);
    assert(enc =~= t0 + (tb + a1));
    lemma_expect_prefix(t0, tb + a1);
    lemma_expect_prefix(tb, a1);
    assert((tb + a1).skip(tb.len() as int) =~= a1);
    lemma_scan_escaped(id, pn + a2);
    lemma_expect_prefix(pn, a2);
    lemma_scan_escaped(name, pi + a3);
    lemma_expect_prefix(pi, a3);
    lemma_scan_escaped(ip, pp + a4);
    lemma_expect_prefix(pp, a4);
    assert((pv + a5).first() == ',');
    lemma_scan_num_digits(port as nat, pv + a5);
    lemma_expect_prefix(pv, a5);
    assert(pe.first() == '}');
    lemma_scan_num_digits(ver as nat, pe);
    assert(pe =~= pe + Seq::<char>::empty());
    lemma_expect_prefix(pe, Seq::<char>::empty());
    assert(sp_expect(pe, pe) == Some(Seq::<char>::empty()));
    assert(sp_parse_beacon_tail(a1) == Some(m));
}

/// The canonical text of a control request from its `name` field on.
spec fn req_tail_text(name: Seq<char>, ws_host: Seq<char>, port: u16, options: MapMode) -> Seq<
    char,
> {
    let mode_part = match options {
        MapMode::Relative => "relative"@,
        MapMode::Absolute => "absolute"@,
    };
    sp_escape(name) + seq!['"'] + (",\"ws_host\":\""@ + (sp_escape(ws_host) + seq!['"'] + (
    ",\"ws_port\":"@ + (dec_digits(port as nat) + (",\"options\":{\"map\":\""@ + (mode_part
        + "\"}}"@))))))
}

/// Parsing the canonical tail of a control request gives its fields back.
#[verifier::rlimit(60)]
proof fn lemma_rt_request_tail(
    from: Seq<char>,
    to: Option<Seq<char>>,
    name: Seq<char>,
    ws_host: Seq<char>,
    port: u16,
    options: MapMode,
)
    ensures
        sp_parse_request_tail(req_tail_text(name, ws_host, port, options), from, to) == Some(
            MessageV::RequestControl { from, to, name, ws_host, ws_port: port, options },
        ),
{
    reveal_strlit(",\"ws_host\":\"");
    reveal_strlit(",\"ws_port\":");
    reveal_strlit(",\"options\":{\"map\":\"");
    reveal_strlit("relative");
    reveal_strlit("absolute");
    reveal_strlit("relative\"}}");
    reveal_strlit("absolute\"}}");
    reveal_strlit("\"}}");
    reveal_with_fuel(pow10, 12);
    assert(pow10(10) == 10000000000);
    let ph = ",\"ws_host\":\""@;
    let pp = ",\"ws_port\":"@;
    let po = ",\"options\":{\"map\":\""@;
    let mode_part = match options {
        MapMode::Relative => "relative"@,
        MapMode::Absolute => "absolute"@,
    };
    let a_end = mode_part + "\"}}"@;
    let a4 = dec_digits(port as nat) + (po + a_end);
    let a3 = sp_escape(ws_host) + seq!['"'] + (pp + a4);
    let a2 = req_tail_text(name, ws_host, port, options);
    assert(a2 =~= sp_escape(name) + seq!['"'] + (ph + a3));
    lemma_scan_escaped(name, ph + a3);
    lemma_expect_prefix(ph, a3);
    lemma_scan_escaped(ws_host, pp + a4);
    lemma_expect_prefix(pp, a4);
    assert((po + a_end).first() == ',');
    lemma_scan_num_digits(port as nat, po + a_end);
    lemma_expect_prefix(po, a_end);
    match options {
        MapMode::Relative => {
            assert(a_end =~= "relative\"}}"@ + Seq::<char>::empty());
            lemma_expect_prefix("relative\"}}"@, Seq::<char>::empty());
        },
        MapMode::Absolute => {
            assert(a_end[0] == 'a');
            assert("relative\"}}"@[0] == 'r');
            lemma_expect_mismatch("relative\"}}"@, a_end, 0);
            assert(a_end =~= "absolute\"}}"@ + Seq::<char>::empty());
            lemma_expect_prefix("absolute\"}}"@, Seq::<char>::empty());
        },
    }
}

/// The canonical text of a control request, re-grouped as the parser
/// consumes it.
#[verifier::rlimit(100)]
proof fn lemma_req_shape(
    from: Seq<char>,
    to: Option<Seq<char>>,
    name: Seq<char>,
    ws_host: Seq<char>,
    port: u16,
    options: MapMode,
)
    ensures
        sp_encode_msg(
            MessageV::RequestControl { from, to, name, ws_host, ws_port: port, options },
        ) == "{\"type\":\""@ + ("request_control\",\"from\":\""@ + (sp_escape(from)
            + seq!['"'] + (",\"to\":"@ + ((match to {
            None => "null"@,
            Some(t) => seq!['"'] + (sp_escape(t) + seq!['"']),
        }) + (",\"name\":\""@ + req_tail_text(name, ws_host, port, options)))))),
{
    reveal_strlit("{\"type\":\"");
    reveal_strlit("request_control\",\"from\":\"");
    reveal_strlit("{\"type\":\"request_control\",\"from\":\"");
    reveal_strlit("\",\"to\":");
    reveal_strlit(",\"to\":");
    reveal_strlit("null");
    reveal_strlit("\"");
    reveal_strlit("\",\"name\":\"");
    reveal_strlit(",\"name\":\"");
    reveal_strlit("\",\"ws_host\":\"");
    reveal_strlit(",\"ws_host\":\"");
    reveal_strlit("\",\"ws_port\":");
    reveal_strlit(",\"ws_port\":");
    reveal_strlit(",\"options\":{\"map\":\"");
    reveal_strlit("relative");
    reveal_strlit("absolute");
    reveal_strlit("\"}}");
    let m = MessageV::RequestControl { from, to, name, ws_host, ws_port: port, options };
    let to_part = match to {
        None => "null"@,
        Some(t) => seq!['"'] + (sp_escape(t) + seq!['"']),
    };
    let rhs = "{\"type\":\""@ + ("request_control\",\"from\":\""@ + (sp_escape(from)
        + seq!['"'] + (",\"to\":"@ + (to_part + (",\"name\":\""@ + req_tail_text(
        name,
        ws_host,
        port,
        options,
    ))))));
    match to {
        None => {
            assert(sp_encode_msg(m) =~= rhs);
        },
        Some(t) => {
            assert("\""@ + sp_escape(t) + "\""@ =~= seq!['"'] + (sp_escape(t) + seq!['"']));
            assert(sp_encode_msg(m) =~= rhs);
        },
    }
}

/// Parsing the canonical text of a control request gives it back.
#[verifier::rlimit(100)]
proof fn lemma_rt_request(
    from: Seq<char>,
    to: Option<Seq<char>>,
    name: Seq<char>,
    ws_host: Seq<char>,
    port: u16,
    options: MapMode,
)
    ensures
        sp_parse_msg(
            sp_encode_msg(
                MessageV::RequestControl { from, to, name, ws_host, ws_port: port, options },
            ),
        ) == Some(MessageV::RequestControl { from, to, name, ws_host, ws_port: port, options }),
{
    let m = MessageV::RequestControl { from, to, name, ws_host, ws_port: port, options };
    let enc = sp_encode_msg(m);
    reveal_strlit("{\"type\":\"");
    reveal_strlit("beacon\",\"instance_id\":\"");
    reveal_strlit("request_control\",\"from\":\"");
    reveal_strlit("{\"type\":\"request_control\",\"from\":\"");
    reveal_strlit("\",\"to\":");
    reveal_strlit(",\"to\":");
    reveal_strlit("null");
    reveal_strlit("null,\"name\":\"");
    reveal_strlit("\"");
    reveal_strlit("\",\"name\":\"");
    reveal_strlit(",\"name\":\"");
    reveal_strlit("\",\"ws_host\":\"");
    reveal_strlit(",\"ws_host\":\"");
    reveal_strlit("\",\"ws_port\":");
    reveal_strlit(",\"ws_port\":");
    reveal_strlit(",\"options\":{\"map\":\"");
    reveal_strlit("relative");
    reveal_strlit("absolute");
    reveal_strlit("\"}}");
    let t0 = "{\"type\":\""@;
    let tb = "beacon\",\"instance_id\":\""@;
    let tr = "request_control\",\"from\":\""@;
    let pt = ",\"to\":"@;
    let pn = ",\"name\":\""@;
    let a2 = req_tail_text(name, ws_host, port, options);
    let to_part = match to {
        None => "null"@,
        Some(t) => seq!['"'] + (sp_escape(t) + seq!['"']),
    };
    let a1 = sp_escape(from) + seq!['"'] + (pt + (to_part + (pn + a2)));
    lemma_req_shape(from, to, name, ws_host, port, options);
    assert(enc =~= t0 + (tr + a1));
    lemma_expect_prefix(t0, tr + a1);
    // the beacon tag does not match a request: the texts differ at once
    assert((tr + a1)[0] == 'r');
    assert(tb[0] == 'b');
    lemma_expect_mismatch(tb, tr + a1, 0);
    lemma_expect_prefix(tr, a1);
    lemma_scan_escaped(from, pt + (to_part + (pn + a2)));
    lemma_expect_prefix(pt, to_part + (pn + a2));
    lemma_rt_request_tail(from, to, name, ws_host, port, options);
    // the tail after "to" under both shapes of the field
    match to {
        None => {
            assert(to_part + (pn + a2) =~= "null,\"name\":\""@ + a2);
            lemma_expect_prefix("null,\"name\":\""@, a2);
        },
        Some(t) => {
            assert((to_part + (pn + a2))[0] == '"');
            assert("null,\"name\":\""@[0] == 'n');
            lemma_expect_mismatch("null,\"name\":\""@, to_part + (pn + a2), 0);
            assert(to_part + (pn + a2) =~= "\""@ + (sp_escape(t) + seq!['"'] + (pn + a2)));
            lemma_expect_prefix("\""@, sp_escape(t) + seq!['"'] + (pn + a2));
            lemma_scan_escaped(t, pn + a2);
            lemma_expect_prefix(pn, a2);
        },
    }
    assert(sp_parse_msg(enc) == Some(m));
}

/// Parsing the canonical text of a control response gives it back.
#[verifier::rlimit(60)]
proof fn lemma_rt_response(from: Seq<char>, accepted: bool)
    ensures
        sp_parse_msg(sp_encode_msg(MessageV::ResponseControl { from, accepted })) == Some(
            MessageV::ResponseControl { from, accepted },
        ),
{
    let m = MessageV::ResponseControl { from, accepted };
    let enc = sp_encode_msg(m);
    reveal_strlit("{\"type\":\"");
    reveal_strlit("beacon\",\"instance_id\":\"");
    reveal_strlit("request_control\",\"from\":\"");
    reveal_strlit("response_control\",\"from\":\"");
    reveal_strlit("{\"type\":\"response_control\",\"from\":\"");
    reveal_strlit("\",\"accepted\":");
    reveal_strlit(",\"accepted\":");
    reveal_strlit("true}");
    reveal_strlit("false}");
    let t0 = "{\"type\":\""@;
    let tb = "beacon\",\"instance_id\":\""@;
    let tq = "request_control\",\"from\":\""@;
    let ts = "response_control\",\"from\":\""@;
    let pa = ",\"accepted\":"@;
    let acc_part = if accepted {
        "true}"@
    } else {
        "false}"@
    };
    let a1 = sp_escape(from) + seq!['"'] + (pa + acc_part);
    assert("{\"type\":\"response_control\",\"from\":\""@ =~= t0 + ts);
    assert("\",\"accepted\":"@ =~= seq!['"'] + pa);
    assert(enc =~= t0 + (ts + a1));
    lemma_expect_prefix(t0, ts + a1);
    // neither the beacon tag nor the request tag matches a response
    assert((ts + a1)[0] == 'r');
    assert(tb[0] == 'b');
    lemma_expect_mismatch(tb, ts + a1, 0);
    assert((ts + a1)[2] == 's');
    assert(tq[2] == 'q');
    lemma_expect_mismatch(tq, ts + a1, 2);
    lemma_expect_prefix(ts, a1);
    lemma_scan_escaped(from, pa + acc_part);
    lemma_expect_prefix(pa, acc_part);
    if accepted {
        assert(acc_part =~= "true}"@ + Seq::<char>::empty());
        lemma_expect_prefix("true}"@, Seq::<char>::empty());
    } else {
        assert(acc_part[0] == 'f');
        assert("true}"@[0] == 't');
        lemma_expect_mismatch("true}"@, acc_part, 0);
        assert(acc_part =~= "false}"@ + Seq::<char>::empty());
        lemma_expect_prefix("false}"@, Seq::<char>::empty());
    }
    assert(sp_parse_msg(enc) == Some(m));
}

/// Serialization of discovery datagrams is lossless: parsing the canonical
/// text of any message gives that message back.
pub proof fn lemma_message_round_trip(m: MessageV)
    ensures
        sp_parse_msg(sp_encode_msg(m)) == Some(m),
{
    match m {
        MessageV::Beacon { instance_id, name, ip, ws_port, version } => {
            lemma_rt_beacon(instance_id, name, ip, ws_port, version);
        },
        MessageV::RequestControl { from, to, name, ws_host, ws_port, options } => {
            lemma_rt_request(from, to, name, ws_host, ws_port, options);
        },
        MessageV::ResponseControl { from, accepted } => {
            lemma_rt_response(from, accepted);
        },
    }
}

/// Serialization of a pointer event is lossless: parsing the canonical text
/// of any pointer event gives that event back, coordinates exact.
pub proof fn lemma_pointer_round_trip(e: PointerEvent)
    ensures
        sp_parse_ptr(sp_encode_ptr(e)) == Some(e),
{
    let l1 = "{\"type\":\"mouse_move\",\"x\":"@;
    let l2 = ",\"y\":"@;
    let l3 = "}"@;
    let sx = sint_digits(e.x as int);
    let sy = sint_digits(e.y as int);
    let enc = sp_encode_ptr(e);
    reveal_strlit(",\"y\":");
    reveal_strlit("}");
    reveal_with_fuel(pow10, 12);
    assert(pow10(10) == 10000000000);
    let r1 = sx + l2 + sy + l3;
    assert(enc =~= l1 + r1);
    lemma_expect_prefix(l1, r1);
    assert(sp_expect(l1, enc) == Some(r1));

    let r2 = l2 + sy + l3;
    assert(r1 =~= sx + r2);
    assert(r2.first() == ',');
    assert(!is_digit(','));
    lemma_scan_int_sint(e.x as int, r2);
    assert(sp_scan_int(r1) == Some((e.x as int, r2)));

    let r3 = sy + l3;
    assert(r2 =~= l2 + r3);
    lemma_expect_prefix(l2, r3);
    assert(sp_expect(l2, r2) == Some(r3));

    assert(l3.first() == '}');
    assert(!is_digit('}'));
    lemma_scan_int_sint(e.y as int, l3);
    assert(sp_scan_int(r3) == Some((e.y as int, l3)));

    assert(l3 =~= l3 + Seq::<char>::empty());
    lemma_expect_prefix(l3, Seq::<char>::empty());
    assert(sp_expect(l3, l3) == Some(Seq::<char>::empty()));
}

} // verus!
