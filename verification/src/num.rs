use vstd::prelude::*;

use crate::bytes::{copy_range, push_all};
verus! {

/// A numeric literal. An integral value that fits a 64-bit signed integer
/// is always held as `Integer`; every other decimal literal is held as
/// `Decimal`, a sign with the digits before and after the decimal point in
/// canonical form (see `wf_number`). Two well-formed numbers are equal as
/// mathematical values exactly when they are structurally equal.
#[derive(Debug, Clone, PartialEq, Eq)]
pub enum Number {
    Integer(i64),
    Decimal { neg: bool, whole: Vec<u8>, frac: Vec<u8> },
}

impl Number {
    /// The integer this number carries, when it is held as one.
    pub fn as_i64(&self) -> (r: Option<i64>)
        ensures
            match r {
                Some(v) => self matches Number::Integer(w) && v == w,
                None => !(self matches Number::Integer(_)),
            },
    {
        match self {
            Number::Integer(v) => Some(*v),
            Number::Decimal { .. } => None,
        }
    }
}

pub open spec fn is_digit(b: u8) -> bool {
    0x30 <= b && b <= 0x39
}

pub open spec fn all_digits(s: Seq<u8>) -> bool {
    forall|i: int| 0 <= i < s.len() ==> is_digit(#[trigger] s[i])
}

/// Base-ten value of a run of ASCII digits.
pub open spec fn digits_val(s: Seq<u8>) -> nat
    decreases s.len(),
{
    if s.len() == 0 {
        0
    } else {
        digits_val(s.drop_last()) * 10 + (s.last() - 0x30) as nat
    }
}

pub open spec fn pow10(k: nat) -> nat
    decreases k,
{
    if k == 0 {
        1
    } else {
        10 * pow10((k - 1) as nat)
    }
}

/// The largest magnitude an `i64` of the given sign can carry.
pub open spec fn i64_limit(neg: bool) -> nat {
    if neg {
        0x8000000000000000
    } else {
        0x7fffffffffffffff
    }
}

/// Canonical form: the whole part has no leading zero (except a lone zero),
/// the fraction has no trailing zero, and a number without a fraction is
/// only held as `Decimal` when its magnitude does not fit an `i64`.
pub open spec fn wf_number(n: Number) -> bool {
    match n {
        Number::Integer(_) => true,
        Number::Decimal { neg, whole, frac } => {
            &&& whole@.len() > 0
            &&& all_digits(whole@)
            &&& all_digits(frac@)
            &&& (whole@.len() > 1 ==> whole@[0] != 0x30)
            &&& (frac@.len() > 0 ==> frac@.last() != 0x30)
            &&& (frac@.len() == 0 ==> digits_val(whole@) > i64_limit(neg))
        },
    }
}

/// The signed digit string of a number, fraction digits included.
pub open spec fn num_mantissa(n: Number) -> int {
    match n {
        Number::Integer(i) => i as int,
        Number::Decimal { neg, whole, frac } => {
            let m = digits_val(whole@ + frac@) as int;
            if neg {
                -m
            } else {
                m
            }
        },
    }
}

/// How many digits of the mantissa lie behind the decimal point.
pub open spec fn num_scale(n: Number) -> nat {
    match n {
        Number::Integer(_) => 0,
        Number::Decimal { neg, whole, frac } => frac@.len(),
    }
}

/// Length of the sign prefix of a numeric token.
pub open spec fn sign_len(t: Seq<u8>) -> nat {
    if t.len() > 0 && (t[0] == 0x2b || t[0] == 0x2d) {
        1
    } else {
        0
    }
}

pub open spec fn num_token_neg(t: Seq<u8>) -> bool {
    t.len() > 0 && t[0] == 0x2d
}

pub open spec fn num_body(t: Seq<u8>) -> Seq<u8> {
    t.skip(sign_len(t) as int)
}

/// Length of the leading digit run.
pub open spec fn digits_len(s: Seq<u8>) -> nat
    decreases s.len(),
{
    if s.len() == 0 || !is_digit(s[0]) {
        0
    } else {
        (1 + digits_len(s.skip(1))) as nat
    }
}

/// The shape of a numeric token: an optional sign, then digits, then
/// optionally a point and more digits; at least one digit in all, and
/// nothing else. Exponent forms and the special float words are not
/// numbers here: the model holds exact decimals only, and such a token
/// reads as a bare word.
pub open spec fn is_number_token(t: Seq<u8>) -> bool {
    let b = num_body(t);
    let w = digits_len(b);
    if w == b.len() {
        w >= 1
    } else {
        &&& b[w as int] == 0x2e
        &&& all_digits(b.skip(w + 1 as int))
        &&& w + (b.len() - w - 1) >= 1
    }
}

/// The signed value of all digits of a numeric token, point removed.
pub open spec fn token_mantissa(t: Seq<u8>) -> int {
    let b = num_body(t);
    let w = digits_len(b);
    let m = if w == b.len() {
        digits_val(b)
    } else {
        digits_val(b.subrange(0, w as int) + b.skip(w + 1 as int))
    };
    if num_token_neg(t) {
        -(m as int)
    } else {
        m as int
    }
}

/// How many digits of a numeric token lie behind the decimal point.
pub open spec fn token_scale(t: Seq<u8>) -> nat {
    let b = num_body(t);
    let w = digits_len(b);
    if w == b.len() {
        0
    } else {
        (b.len() - w - 1) as nat
    }
}

/// `n` and the token `t` denote the same rational value.
pub open spec fn num_matches_token(n: Number, t: Seq<u8>) -> bool {
    num_mantissa(n) * pow10(token_scale(t)) == token_mantissa(t) * pow10(num_scale(n))
}

proof fn lemma_digits_val_push(s: Seq<u8>, d: u8)
    requires
        is_digit(d),
    ensures
        digits_val(s.push(d)) == digits_val(s) * 10 + (d - 0x30),
{
    assert(s.push(d).drop_last() =~= s);
    assert(s.push(d).last() == d);
}

proof fn lemma_digits_len_run(s: Seq<u8>, i: nat)
    requires
        i <= s.len(),
        forall|j: int| 0 <= j < i ==> is_digit(s[j]),
        i == s.len() || !is_digit(s[i as int]),
    ensures
        digits_len(s) == i,
    decreases i,
{
    if i == 0 {
    } else {
        assert(is_digit(s[0]));
        lemma_digits_len_run(s.skip(1), (i - 1) as nat);
    }
}

/// A leading zero does not change the value of a digit string.
proof fn lemma_digits_val_zero_prefix(s: Seq<u8>)
    ensures
        digits_val(seq![0x30u8] + s) == digits_val(s),
    decreases s.len(),
{
    if s.len() == 0 {
        assert(seq![0x30u8] + s =~= seq![0x30u8]);
        assert(digits_val(Seq::<u8>::empty()) == 0);
        assert(digits_val(seq![0x30u8]) == 0) by {
            assert(digits_val(Seq::<u8>::empty()) == 0);
            assert(seq![0x30u8].drop_last() =~= Seq::<u8>::empty());
            assert(seq![0x30u8].last() == 0x30);
        }
    } else {
        assert((seq![0x30u8] + s).drop_last() =~= seq![0x30u8] + s.drop_last());
        assert((seq![0x30u8] + s).last() == s.last());
        lemma_digits_val_zero_prefix(s.drop_last());
    }
}

/// Digit string with leading zeros removed; a lone zero stands for the
/// empty string and for all-zero strings.
pub open spec fn lz(s: Seq<u8>) -> Seq<u8>
    decreases s.len(),
{
    if s.len() == 0 {
        seq![0x30u8]
    } else if s.len() > 1 && s[0] == 0x30 {
        lz(s.skip(1))
    } else {
        s
    }
}

/// Digit string with trailing zeros removed.
pub open spec fn tz(s: Seq<u8>) -> Seq<u8>
    decreases s.len(),
{
    if s.len() > 0 && s.last() == 0x30 {
        tz(s.drop_last())
    } else {
        s
    }
}

proof fn lemma_digits_val_skip_zeros(s: Seq<u8>, i: nat)
    requires
        i <= s.len(),
        forall|j: int| 0 <= j < i ==> s[j] == 0x30,
    ensures
        digits_val(s.skip(i as int)) == digits_val(s),
    decreases i,
{
    if i > 0 {
        assert(s =~= seq![0x30u8] + s.skip(1));
        lemma_digits_val_zero_prefix(s.skip(1));
        assert(digits_val(s) == digits_val(s.skip(1)));
        assert(forall|j: int| 0 <= j < i - 1 ==> s.skip(1)[j] == 0x30) by {
            assert(forall|j: int| 0 <= j < i - 1 ==> s.skip(1)[j] == s[j + 1]);
        }
        lemma_digits_val_skip_zeros(s.skip(1), (i - 1) as nat);
        assert(s.skip(1).skip(i - 1) =~= s.skip(i as int));
    } else {
        assert(s.skip(0) =~= s);
    }
}

proof fn lemma_lz_run(s: Seq<u8>, i: nat)
    requires
        i < s.len(),
        forall|j: int| 0 <= j < i ==> s[j] == 0x30,
        i + 1 == s.len() || s[i as int] != 0x30,
    ensures
        lz(s) == s.skip(i as int),
        digits_val(lz(s)) == digits_val(s),
    decreases i,
{
    lemma_digits_val_skip_zeros(s, i);
    if i > 0 {
        lemma_lz_run(s.skip(1), (i - 1) as nat);
        assert(s.skip(1).skip(i - 1) =~= s.skip(i as int));
    } else {
        assert(s.skip(0) =~= s);
    }
}

proof fn lemma_tz_props(f: Seq<u8>)
    requires
        all_digits(f),
    ensures
        tz(f).len() <= f.len(),
        all_digits(tz(f)),
        tz(f).len() > 0 ==> tz(f).last() != 0x30,
        tz(f) == f.subrange(0, tz(f).len() as int),
    decreases f.len(),
{
    if f.len() > 0 && f.last() == 0x30 {
        lemma_tz_props(f.drop_last());
        assert(f.drop_last() =~= f.subrange(0, f.len() - 1));
        assert(tz(f) =~= f.subrange(0, tz(f).len() as int));
    } else {
        assert(tz(f) =~= f.subrange(0, tz(f).len() as int));
    }
}

/// Dropping trailing zeros of the fraction keeps the denoted value: the
/// mantissa and the scale shrink together.
proof fn lemma_tz_value(w: Seq<u8>, f: Seq<u8>)
    requires
        all_digits(f),
    ensures
        digits_val(w + tz(f)) * pow10(f.len()) == digits_val(w + f) * pow10(tz(f).len()),
    decreases f.len(),
{
    if f.len() > 0 && f.last() == 0x30 {
        let f2 = f.drop_last();
        assert(w + f =~= (w + f2).push(0x30));
        lemma_digits_val_push(w + f2, 0x30);
        assert(digits_val(w + f) == digits_val(w + f2) * 10);
        lemma_tz_value(w, f2);
        let a = digits_val(w + tz(f2)) as int;
        let b = pow10(f2.len()) as int;
        let c = digits_val(w + f2) as int;
        let d = pow10(tz(f2).len()) as int;
        assert(pow10(f.len()) == 10 * pow10(f2.len()));
        assert(a * (10 * b) == 10 * (a * b)) by (nonlinear_arith);
        assert((c * 10) * d == 10 * (c * d)) by (nonlinear_arith);
    } else {
        assert(tz(f) == f);
    }
}

/// Split a digit string at the point: the value of the whole string is the
/// whole part scaled up plus the fraction.
proof fn lemma_digits_val_concat(w: Seq<u8>, f: Seq<u8>)
    ensures
        digits_val(w + f) == digits_val(w) * pow10(f.len()) + digits_val(f),
    decreases f.len(),
{
    if f.len() == 0 {
        assert(w + f =~= w);
        assert(digits_val(f) == 0);
        assert(pow10(0) == 1);
    } else {
        let f2 = f.drop_last();
        let c = (f.last() - 0x30) as nat;
        assert(w + f =~= (w + f2).push(f.last()));
        assert((w + f).drop_last() =~= w + f2);
        assert((w + f).last() == f.last());
        assert(digits_val(w + f) == digits_val(w + f2) * 10 + c);
        assert(digits_val(f) == digits_val(f2) * 10 + c);
        lemma_digits_val_concat(w, f2);
        let a = digits_val(w) as int;
        let b = pow10(f2.len()) as int;
        let v = digits_val(f2) as int;
        assert(pow10(f.len()) == 10 * pow10(f2.len()));
        assert((a * b + v) * 10 + c == a * (10 * b) + (v * 10 + c)) by (nonlinear_arith);
    }
}

/// Leading zeros of the whole part do not change the value, with any digit
/// string appended.
proof fn lemma_lz_concat(w: Seq<u8>, x: Seq<u8>)
    ensures
        digits_val(lz(w) + x) == digits_val(w + x),
    decreases w.len(),
{
    if w.len() == 0 {
        assert(lz(w) + x =~= seq![0x30u8] + x);
        assert(w + x =~= x);
        lemma_digits_val_zero_prefix(x);
    } else if w.len() > 1 && w[0] == 0x30 {
        assert(w + x =~= seq![0x30u8] + (w.skip(1) + x));
        lemma_digits_val_zero_prefix(w.skip(1) + x);
        lemma_lz_concat(w.skip(1), x);
    }
}

fn digit_byte(b: u8) -> (r: bool)
    ensures
        r == is_digit(b),
{
    0x30 <= b && b <= 0x39
}

/// First position at or after `from` that does not hold a digit.
pub fn scan_digits(t: &[u8], from: usize) -> (r: usize)
    requires
        from <= t@.len(),
    ensures
        from <= r <= t@.len(),
        digits_len(t@.skip(from as int)) == r - from,
        forall|j: int| from <= j < r ==> is_digit(t@[j]),
        r == t@.len() || !is_digit(t@[r as int]),
{
    let len = t.len();
    let mut i = from;
    while i < len && digit_byte(t[i])
        invariant
            from <= i <= len,
            len == t@.len(),
            forall|j: int| from <= j < i ==> is_digit(t@[j]),
        decreases len - i,
    {
        i = i + 1;
    }
    proof {
        lemma_digits_len_run(t@.skip(from as int), (i - from) as nat);
    }
    i
}

/// Value of the digits in `t[from..to]`, or `None` when it exceeds `u64`.
pub fn digits_value_capped(t: &[u8], from: usize, to: usize) -> (r: Option<u64>)
    requires
        from <= to <= t@.len(),
        forall|j: int| from <= j < to ==> is_digit(t@[j]),
    ensures
        match r {
            Some(v) => v as nat == digits_val(t@.subrange(from as int, to as int)),
            None => digits_val(t@.subrange(from as int, to as int)) > u64::MAX,
        },
{
    let mut acc: u128 = 0;
    let mut big = false;
    let mut i = from;
    proof {
        assert(t@.subrange(from as int, from as int) =~= Seq::<u8>::empty());
    }
    while i < to
        invariant
            from <= i <= to <= t@.len(),
            forall|j: int| from <= j < to ==> is_digit(t@[j]),
            !big ==> acc as nat == digits_val(t@.subrange(from as int, i as int)) && acc <= u64::MAX,
            big ==> digits_val(t@.subrange(from as int, i as int)) > u64::MAX,
        decreases to - i,
    {
        let ghost pre = t@.subrange(from as int, i as int);
        proof {
            assert(t@.subrange(from as int, i + 1 as int) =~= pre.push(t@[i as int]));
            lemma_digits_val_push(pre, t@[i as int]);
        }
        if !big {
            acc = acc * 10 + ((t[i] - 0x30) as u128);
            if acc > 0xffff_ffff_ffff_ffff {
                big = true;
            }
        }
        i = i + 1;
    }
    if big {
        None
    } else {
        Some(acc as u64)
    }
}

/// Copy `t[from..to]` without leading zeros; all-zero and empty ranges give
/// a lone zero.
fn strip_leading_zeros(t: &[u8], from: usize, to: usize) -> (r: Vec<u8>)
    requires
        from <= to <= t@.len(),
        forall|j: int| from <= j < to ==> is_digit(t@[j]),
    ensures
        r@ == lz(t@.subrange(from as int, to as int)),
        digits_val(r@) == digits_val(t@.subrange(from as int, to as int)),
        r@.len() > 0,
        all_digits(r@),
        r@.len() > 1 ==> r@[0] != 0x30,
{
    let ghost s = t@.subrange(from as int, to as int);
    if from == to {
        let r: Vec<u8> = vec![0x30];
        proof {
            assert(s =~= Seq::<u8>::empty());
            assert(digits_val(Seq::<u8>::empty()) == 0);
            assert(r@ =~= seq![0x30u8]);
            assert(digits_val(seq![0x30u8]) == 0) by {
                assert(seq![0x30u8].drop_last() =~= Seq::<u8>::empty());
                assert(digits_val(Seq::<u8>::empty()) == 0);
            }
        }
        return r;
    }
    let mut i = from;
    while i + 1 < to && t[i] == 0x30
        invariant
            from <= i < to,
            forall|j: int| from <= j < i ==> t@[j] == 0x30,
            to <= t@.len(),
        decreases to - i,
    {
        i = i + 1;
    }
    proof {
        lemma_lz_run(s, (i - from) as nat);
        assert(s.skip(i - from) =~= t@.subrange(i as int, to as int));
    }
    copy_range(t, i, to)
}

/// Copy `t[from..to]` without trailing zeros.
fn strip_trailing_zeros(t: &[u8], from: usize, to: usize) -> (r: Vec<u8>)
    requires
        from <= to <= t@.len(),
        forall|j: int| from <= j < to ==> is_digit(t@[j]),
    ensures
        r@ == tz(t@.subrange(from as int, to as int)),
        all_digits(r@),
        r@.len() > 0 ==> r@.last() != 0x30,
{
    let ghost s = t@.subrange(from as int, to as int);
    let mut e = to;
    while e > from && t[e - 1] == 0x30
        invariant
            from <= e <= to <= t@.len(),
            tz(s) == tz(t@.subrange(from as int, e as int)),
        decreases e,
    {
        proof {
            let cur = t@.subrange(from as int, e as int);
            assert(cur.last() == 0x30);
            assert(cur.drop_last() =~= t@.subrange(from as int, e - 1));
        }
        e = e - 1;
    }
    proof {
        let cur = t@.subrange(from as int, e as int);
        assert(tz(cur) == cur);
        lemma_tz_props(s);
    }
    copy_range(t, from, e)
}

/// Turn a magnitude and a sign into an `Integer` when it fits.
fn fit_i64(mag: u64, neg: bool) -> (r: Option<i64>)
    ensures
        match r {
            Some(v) => {
                &&& v as int == if neg {
                    -(mag as int)
                } else {
                    mag as int
                }
                &&& mag as nat <= i64_limit(neg)
            },
            None => mag as nat > i64_limit(neg),
        },
{
    if neg {
        if mag > 0x8000000000000000 {
            None
        } else if mag == 0x8000000000000000 {
            Some(i64::MIN)
        } else {
            Some(-(mag as i64))
        }
    } else {
        if mag > 0x7fffffffffffffff {
            None
        } else {
            Some(mag as i64)
        }
    }
}

/// Parse a whole token as a number. Integer parse is attempted first; any
/// other token of numeric shape becomes a canonical decimal. The result,
/// when there is one, is well formed and denotes exactly the value the
/// token spells.
#[verifier::rlimit(80)]
pub fn parse_num_token(t: &[u8]) -> (r: Option<Number>)
    ensures
        match r {
            Some(n) => is_number_token(t@) && wf_number(n) && num_matches_token(n, t@),
            None => !is_number_token(t@),
        },
{
    let len = t.len();
    let mut pos: usize = 0;
    let mut neg = false;
    if len > 0 && (t[0] == 0x2b || t[0] == 0x2d) {
        neg = t[0] == 0x2d;
        pos = 1;
    }
    let ghost b = num_body(t@);
    proof {
        assert(t@.skip(pos as int) =~= b);
        assert(neg == num_token_neg(t@));
    }
    let ws = pos;
    let we = scan_digits(t, ws);
    let ghost w = digits_len(b);
    proof {
        assert(w == we - ws);
    }
    if we == len {
        if we == ws {
            return None;
        }
        proof {
            assert(b =~= t@.subrange(ws as int, we as int));
        }
        let mag = digits_value_capped(t, ws, we);
        let fit = match mag {
            Some(m) => fit_i64(m, neg),
            None => None,
        };
        match fit {
            Some(v) => Some(Number::Integer(v)),
            None => {
                let whole = strip_leading_zeros(t, ws, we);
                let frac: Vec<u8> = Vec::new();
                proof {
                    assert(u64::MAX >= i64_limit(neg));
                    assert(whole@ + frac@ =~= whole@);
                }
                Some(Number::Decimal { neg, whole, frac })
            },
        }
    } else {
        if t[we] != 0x2e {
            proof {
                assert(b[w as int] == t@[we as int]);
            }
            return None;
        }
        let fs = we + 1;
        let fe = scan_digits(t, fs);
        proof {
            assert(b[w as int] == t@[we as int]);
            assert(b.skip(w + 1 as int) =~= t@.skip(fs as int));
        }
        if fe != len {
            proof {
                assert(t@.skip(fs as int)[fe - fs] == t@[fe as int]);
            }
            return None;
        }
        if we == ws && fe == fs {
            return None;
        }
        let ghost ww = t@.subrange(ws as int, we as int);
        let ghost ff = t@.subrange(fs as int, fe as int);
        proof {
            assert(b.subrange(0, w as int) =~= ww);
            assert(b.skip(w + 1 as int) =~= ff);
            assert(all_digits(ff));
            lemma_tz_value(ww, ff);
            lemma_lz_concat(ww, tz(ff));
        }
        let whole = strip_leading_zeros(t, ws, we);
        let frac = strip_trailing_zeros(t, fs, fe);
        if frac.len() == 0 {
            proof {
                assert(ww + tz(ff) =~= ww);
                assert(whole@ + frac@ =~= whole@);
                assert(digits_val(ww) * pow10(ff.len()) == digits_val(ww + ff) * pow10(0));
                assert(pow10(0) == 1);
            }
            let mag = digits_value_capped(whole.as_slice(), 0, whole.len());
            proof {
                assert(whole@.subrange(0, whole@.len() as int) =~= whole@);
            }
            let fit = match mag {
                Some(m) => fit_i64(m, neg),
                None => None,
            };
            match fit {
                Some(v) => {
                    proof {
                        lemma_mag_equation(
                            digits_val(ww) as int,
                            digits_val(ww + ff) as int,
                            pow10(ff.len()) as int,
                            neg,
                        );
                    }
                    Some(Number::Integer(v))
                },
                None => {
                    proof {
                        assert(u64::MAX >= i64_limit(neg));
                        lemma_mag_equation(
                            digits_val(ww) as int,
                            digits_val(ww + ff) as int,
                            pow10(ff.len()) as int,
                            neg,
                        );
                    }
                    Some(Number::Decimal { neg, whole, frac })
                },
            }
        } else {
            proof {
                assert(whole@ + frac@ =~= lz(ww) + tz(ff));
                lemma_mag_equation2(
                    digits_val(lz(ww) + tz(ff)) as int,
                    digits_val(ww + ff) as int,
                    pow10(ff.len()) as int,
                    pow10(tz(ff).len()) as int,
                    neg,
                );
            }
            Some(Number::Decimal { neg, whole, frac })
        }
    }
}


/// The whole number a numeric token denotes, when its value is whole: the
/// mantissa with the fraction digits divided back out.
pub open spec fn token_int_value(t: Seq<u8>) -> Option<int> {
    if token_mantissa(t) % (pow10(token_scale(t)) as int) == 0 {
        Some(token_mantissa(t) / (pow10(token_scale(t)) as int))
    } else {
        None
    }
}

pub proof fn lemma_pow10_pos(k: nat)
    ensures
        pow10(k) >= 1,
    decreases k,
{
    if k > 0 {
        lemma_pow10_pos((k - 1) as nat);
    }
}

/// The last digit of a nonempty digit string is its value's remainder by
/// ten.
proof fn lemma_digits_val_last(s: Seq<u8>)
    requires
        s.len() > 0,
        all_digits(s),
    ensures
        digits_val(s) % 10 == s.last() - 0x30,
{
    let d = (s.last() - 0x30) as int;
    assert(digits_val(s) == digits_val(s.drop_last()) * 10 + d);
    vstd::arithmetic::div_mod::lemma_mod_multiples_vanish(digits_val(s.drop_last()) as int, d, 10);
    assert((10 * (digits_val(s.drop_last()) as int) + d) % 10 == d % 10);
    assert(digits_val(s.drop_last()) * 10 == 10 * digits_val(s.drop_last()));
}

/// What a well-formed number says about its token's whole value: an
/// `Integer` is that value; a `Decimal` with fraction digits denotes no
/// whole number; a `Decimal` without them denotes a whole number outside
/// the signed 64-bit range. The token and the number also agree in sign.
pub proof fn lemma_number_token_int_value(n: Number, t: Seq<u8>)
    requires
        wf_number(n),
        num_matches_token(n, t),
    ensures
        match n {
            Number::Integer(v) => token_int_value(t) == Some(v as int),
            Number::Decimal { neg, whole, frac } => if frac@.len() > 0 {
                token_int_value(t) is None
            } else {
                token_int_value(t) == Some(num_mantissa(n)) && (num_mantissa(n) < i64::MIN
                    || num_mantissa(n) > i64::MAX)
            },
        },
        (token_mantissa(t) < 0 <==> num_mantissa(n) < 0),
{
    let tm = token_mantissa(t);
    let ts = token_scale(t);
    let p = pow10(ts) as int;
    let m = num_mantissa(n);
    let k = num_scale(n);
    let q = pow10(k) as int;
    lemma_pow10_pos(ts);
    lemma_pow10_pos(k);
    assert(m * p == tm * q);
    assert(tm < 0 <==> m < 0) by (nonlinear_arith)
        requires
            m * p == tm * q,
            p >= 1,
            q >= 1,
    ;
    match n {
        Number::Integer(v) => {
            assert(q == 1) by {
                assert(pow10(0) == 1);
            }
            assert(tm == m * p);
            assert(tm == p * m) by (nonlinear_arith)
                requires
                    tm == m * p,
            ;
            vstd::arithmetic::div_mod::lemma_mod_multiples_basic(m, p);
            vstd::arithmetic::div_mod::lemma_div_multiples_vanish(m, p);
            assert(m * p == p * m) by (nonlinear_arith);
            assert(tm % p == 0);
            assert(tm / p == m);
        },
        Number::Decimal { neg, whole, frac } => {
            let dv = digits_val(whole@ + frac@) as int;
            if frac@.len() == 0 {
                assert(q == 1) by {
                    assert(pow10(0) == 1);
                }
                assert(tm == m * p);
                vstd::arithmetic::div_mod::lemma_mod_multiples_basic(m, p);
                vstd::arithmetic::div_mod::lemma_div_multiples_vanish(m, p);
                assert(m * p == p * m) by (nonlinear_arith);
                assert(tm % p == 0);
                assert(tm / p == m);
                assert(whole@ + frac@ =~= whole@);
                assert(digits_val(whole@) > i64_limit(neg));
                if neg {
                    assert(m == -dv);
                    assert(m < i64::MIN);
                } else {
                    assert(m == dv);
                    assert(m > i64::MAX);
                }
            } else {
                // the mantissa ends in a nonzero digit, so no power of ten
                // at or above the token's scale divides the token mantissa
                assert(k >= 1);
                let wf2 = whole@ + frac@;
                assert(wf2.len() > 0 && all_digits(wf2)) by {
                    assert(wf2.last() == frac@.last());
                    assert(forall|i: int| 0 <= i < wf2.len() ==> is_digit(#[trigger] wf2[i]));
                }
                lemma_digits_val_last(wf2);
                assert(wf2.last() == frac@.last());
                let d = (frac@.last() - 0x30) as int;
                assert(1 <= d <= 9);
                assert((digits_val(wf2) as int) % 10 == d);
                if tm % p == 0 {
                    let c = tm / p;
                    assert(tm == p * c + tm % p) by {
                        vstd::arithmetic::div_mod::lemma_fundamental_div_mod(tm, p);
                    }
                    assert(tm == p * c);
                    assert(m * p == p * c * q);
                    assert(m == c * q) by (nonlinear_arith)
                        requires
                            m * p == (p * c) * q,
                            p >= 1,
                    ;
                    assert(q == 10 * (pow10((k - 1) as nat) as int)) by {
                        assert(pow10(k) == 10 * pow10((k - 1) as nat));
                    }
                    let e = pow10((k - 1) as nat) as int;
                    assert(m == (c * e) * 10) by (nonlinear_arith)
                        requires
                            m == c * (10 * e),
                    ;
                    vstd::arithmetic::div_mod::lemma_mod_multiples_basic(c * e, 10);
                    assert(m % 10 == 0);
                    if neg {
                        assert(m == -dv);
                        assert(dv % 10 == d);
                        assert((-dv) % 10 == (10 - d) % 10) by {
                            vstd::arithmetic::div_mod::lemma_fundamental_div_mod(dv, 10);
                            let h = dv / 10;
                            assert(-dv == 10 * (-h - 1) + (10 - d));
                            vstd::arithmetic::div_mod::lemma_mod_multiples_vanish(
                                -h - 1,
                                10 - d,
                                10,
                            );
                            assert((10 - d) % 10 == 10 - d);
                        }
                        assert(m % 10 != 0);
                    } else {
                        assert(m == dv);
                        assert(m % 10 == d);
                        assert(m % 10 != 0);
                    }
                    assert(false);
                }
            }
        },
    }
}

/// Decimal text of a natural number.
pub open spec fn u_text(n: nat) -> Seq<u8>
    decreases n,
{
    if n < 10 {
        seq![(0x30 + n) as u8]
    } else {
        u_text(n / 10).push((0x30 + n % 10) as u8)
    }
}


/// The text of a natural number is nonempty and starts with a digit.
pub proof fn lemma_u_text_first(n: nat)
    ensures
        u_text(n).len() >= 1,
        is_digit(u_text(n)[0]),
    decreases n,
{
    if n >= 10 {
        lemma_u_text_first(n / 10);
        assert(u_text(n)[0] == u_text(n / 10)[0]);
    }
}

/// Decimal text of an integer: a minus sign for negative values, then the
/// digits of the magnitude.
pub open spec fn int_text(i: int) -> Seq<u8> {
    if i < 0 {
        seq![0x2du8] + u_text((-i) as nat)
    } else {
        u_text(i as nat)
    }
}

/// The textual form of a number: integers in plain decimal; decimals as
/// sign, whole digits, and the fraction digits behind a point when there
/// are any.
pub open spec fn spec_num_text(n: Number) -> Seq<u8> {
    match n {
        Number::Integer(i) => int_text(i as int),
        Number::Decimal { neg, whole, frac } => {
            let core = if frac@.len() == 0 {
                whole@
            } else {
                whole@ + seq![0x2eu8] + frac@
            };
            if neg {
                seq![0x2du8] + core
            } else {
                core
            }
        },
    }
}

pub fn u64_text(n: u64) -> (r: Vec<u8>)
    ensures
        r@ == u_text(n as nat),
    decreases n,
{
    if n < 10 {
        let r: Vec<u8> = vec![0x30 + n as u8];
        proof {
            assert(r@ =~= seq![(0x30 + n as nat) as u8]);
        }
        r
    } else {
        let mut v = u64_text(n / 10);
        v.push(0x30 + (n % 10) as u8);
        v
    }
}

/// Render a number as the text `parse_num_token` reads back.
pub fn num_to_text(n: &Number) -> (r: Vec<u8>)
    ensures
        r@ == spec_num_text(*n),
{
    match n {
        Number::Integer(i) => {
            let i = *i;
            if i < 0 {
                let mag: u64 = if i == i64::MIN {
                    0x8000000000000000
                } else {
                    (-i) as u64
                };
                let mut out: Vec<u8> = vec![0x2d];
                let digits = u64_text(mag);
                push_all(&mut out, digits.as_slice());
                proof {
                    assert(seq![0x2du8] =~= out@.subrange(0, 1).subrange(0, 1));
                }
                out
            } else {
                u64_text(i as u64)
            }
        },
        Number::Decimal { neg, whole, frac } => {
            let mut out: Vec<u8> = Vec::new();
            if *neg {
                out.push(0x2d);
            }
            push_all(&mut out, whole.as_slice());
            if frac.len() > 0 {
                out.push(0x2e);
                push_all(&mut out, frac.as_slice());
            }
            proof {
                if *neg {
                    if frac@.len() == 0 {
                        assert(out@ =~= seq![0x2du8] + whole@);
                    } else {
                        assert(out@ =~= seq![0x2du8] + (whole@ + seq![0x2eu8] + frac@));
                    }
                } else {
                    if frac@.len() == 0 {
                        assert(out@ =~= whole@);
                    } else {
                        assert(out@ =~= whole@ + seq![0x2eu8] + frac@);
                    }
                }
            }
            out
        },
    }
}

/// From `a * p == c`: the signed forms satisfy the token equation with
/// scale zero on the number's side.
proof fn lemma_mag_equation(a: int, c: int, p: int, neg: bool)
    requires
        a * p == c * 1,
    ensures
        (if neg {
            -a
        } else {
            a
        }) * p == (if neg {
            -c
        } else {
            c
        }) * 1,
{
    assert((-a) * p == -(a * p)) by (nonlinear_arith);
}

/// From `a * p == c * q`: the signed forms satisfy the same equation.
proof fn lemma_mag_equation2(a: int, c: int, p: int, q: int, neg: bool)
    requires
        a * p == c * q,
    ensures
        (if neg {
            -a
        } else {
            a
        }) * p == (if neg {
            -c
        } else {
            c
        }) * q,
{
    assert((-a) * p == -(a * p)) by (nonlinear_arith);
    assert((-c) * q == -(c * q)) by (nonlinear_arith);
}

} // verus!
