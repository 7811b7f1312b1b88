//! Decimal numbers as the instrument writes them (`-1`, `+7.0E+03`), read
//! exactly into a sign, an integer mantissa and a power of ten.
use vstd::arithmetic::power::{lemma_pow0, lemma_pow1, lemma_pow_adds, lemma_pow_positive, pow};
use vstd::prelude::*;

verus! {

pub open spec fn is_digit(b: u8) -> bool {
    48 <= b <= 57
}

/// Folds decimal digits into `acc`, most significant first.
pub open spec fn fold_digits(acc: int, s: Seq<u8>) -> int
    decreases s.len(),
{
    if s.len() == 0 {
        acc
    } else {
        fold_digits(acc * 10 + (s[0] - 48), s.drop_first())
    }
}

/// The index of the first byte at or after `i` that is not a digit.
pub open spec fn digit_run_end(s: Seq<u8>, i: int) -> int
    decreases s.len() - i,
{
    if 0 <= i < s.len() && is_digit(s[i]) {
        digit_run_end(s, i + 1)
    } else {
        i
    }
}

/// Length of a leading `+` or `-`.
pub open spec fn sign_len(s: Seq<u8>) -> int {
    if s.len() > 0 && (s[0] == 43 || s[0] == 45) {
        1
    } else {
        0
    }
}

/// An optional sign followed by one or more digits, and nothing else.
pub open spec fn integer_value(s: Seq<u8>) -> Option<int> {
    let b = sign_len(s);
    if b < s.len() && digit_run_end(s, b) == s.len() {
        let m = fold_digits(0, s.subrange(b, s.len() as int));
        Some(if b == 1 && s[0] == 45 { -m } else { m })
    } else {
        None
    }
}

/// An integer field: `integer_value` within the range of `i64`.
pub open spec fn integer_field(s: Seq<u8>) -> Option<i64> {
    match integer_value(s) {
        Some(v) => if i64::MIN <= v <= i64::MAX {
            Some(v as i64)
        } else {
            None
        },
        None => None,
    }
}

/// The grammar `[+-]? digits* ('.' digits*)? ([eE] [+-]? digits+)?` with at
/// least one mantissa digit. The result is the sign, the mantissa read as an
/// integer with the dot removed, the written exponent and the number of digits
/// after the dot.
pub open spec fn number_parts(s: Seq<u8>) -> Option<(bool, int, int, int)> {
    let b = sign_len(s);
    let neg = b == 1 && s[0] == 45;
    let int_end = digit_run_end(s, b);
    let has_dot = int_end < s.len() && s[int_end] == 46;
    let frac_start = if has_dot {
        int_end + 1
    } else {
        int_end
    };
    let frac_end = if has_dot {
        digit_run_end(s, int_end + 1)
    } else {
        int_end
    };
    let frac_len = frac_end - frac_start;
    let mant = fold_digits(fold_digits(0, s.subrange(b, int_end)), s.subrange(frac_start, frac_end));
    if (int_end - b) + frac_len == 0 {
        None
    } else if frac_end == s.len() {
        Some((neg, mant, 0, frac_len))
    } else if s[frac_end] == 101 || s[frac_end] == 69 {
        match integer_value(s.subrange(frac_end + 1, s.len() as int)) {
            Some(x) => Some((neg, mant, x, frac_len)),
            None => None,
        }
    } else {
        None
    }
}

/// A decimal number `(-1)^neg * mantissa * 10^exp`.
#[derive(Clone, Copy, Debug, PartialEq, Eq, Structural)]
pub struct Number {
    pub neg: bool,
    pub mantissa: u128,
    pub exp: i32,
}

/// A number field: `number_parts` whose mantissa fits in `u128`, whose
/// written exponent fits in `i64` and whose resulting exponent fits in `i32`.
pub open spec fn number_field(s: Seq<u8>) -> Option<Number> {
    match number_parts(s) {
        Some((neg, m, x, fl)) => if m <= u128::MAX && i64::MIN <= x <= i64::MAX && i32::MIN <= x
            - fl <= i32::MAX {
            Some(Number { neg, mantissa: m as u128, exp: (x - fl) as i32 })
        } else {
            None
        },
        None => None,
    }
}

/// The value below which a reading is a genuine measurement: 9.91e37.
pub open spec fn at_least_sentinel(n: Number) -> bool {
    &&& !n.neg || n.mantissa == 0
    &&& if n.exp >= 35 {
        n.mantissa * pow(10, (n.exp - 35) as nat) >= 991
    } else {
        n.mantissa >= 991 * pow(10, (35 - n.exp) as nat)
    }
}

pub proof fn lemma_fold_digits_ge(acc: int, s: Seq<u8>)
    requires
        acc >= 0,
        forall|i: int| 0 <= i < s.len() ==> is_digit(#[trigger] s[i]),
    ensures
        fold_digits(acc, s) >= acc,
    decreases s.len(),
{
    if s.len() > 0 {
        assert(is_digit(s[0]));
        let t = s.drop_first();
        assert forall|i: int| 0 <= i < t.len() implies is_digit(#[trigger] t[i]) by {
            assert(t[i] == s[i + 1]);
        }
        lemma_fold_digits_ge(acc * 10 + (s[0] - 48), t);
    }
}

/// The end of the run of digits that starts at `from`, in `buf[lo..hi]`.
fn run_end(buf: &[u8], lo: usize, hi: usize, from: usize) -> (r: usize)
    requires
        lo <= from <= hi <= buf@.len(),
    ensures
        from <= r <= hi,
        r - lo == digit_run_end(buf@.subrange(lo as int, hi as int), from - lo),
        forall|k: int| from <= k < r ==> is_digit(#[trigger] buf@[k]),
{
    let ghost s = buf@.subrange(lo as int, hi as int);
    let mut i = from;
    while i < hi && 48 <= buf[i] && buf[i] <= 57
        invariant
            lo <= from <= i <= hi <= buf@.len(),
            s == buf@.subrange(lo as int, hi as int),
            digit_run_end(s, i - lo) == digit_run_end(s, from - lo),
            forall|k: int| from <= k < i ==> is_digit(#[trigger] buf@[k]),
        decreases hi - i,
    {
        assert(s[i - lo] == buf@[i as int]);
        i = i + 1;
    }
    if i < hi {
        assert(s[i - lo] == buf@[i as int]);
    }
    i
}

/// Folds the digits of `buf[lo..hi]` into `acc`; `None` when the result
/// does not fit in `u128`.
fn accumulate_digits(buf: &[u8], lo: usize, hi: usize, acc: u128) -> (r: Option<u128>)
    requires
        lo <= hi <= buf@.len(),
        forall|k: int| lo <= k < hi ==> is_digit(#[trigger] buf@[k]),
    ensures
        r is Some ==> r->0 == fold_digits(acc as int, buf@.subrange(lo as int, hi as int)),
        r is None ==> fold_digits(acc as int, buf@.subrange(lo as int, hi as int)) > u128::MAX,
{
    let ghost total = fold_digits(acc as int, buf@.subrange(lo as int, hi as int));
    let mut v = acc;
    let mut i = lo;
    while i < hi
        invariant
            lo <= i <= hi <= buf@.len(),
            forall|k: int| lo <= k < hi ==> is_digit(#[trigger] buf@[k]),
            fold_digits(v as int, buf@.subrange(i as int, hi as int)) == total,
            total == fold_digits(acc as int, buf@.subrange(lo as int, hi as int)),
        decreases hi - i,
    {
        let ghost rest = buf@.subrange(i as int, hi as int);
        assert(rest[0] == buf@[i as int]);
        assert(rest.drop_first() =~= buf@.subrange(i + 1, hi as int));
        assert(is_digit(buf@[i as int]));
        let d = (buf[i] - 48) as u128;
        assert(fold_digits(v as int, rest) == fold_digits(
            v as int * 10 + (rest[0] - 48),
            rest.drop_first(),
        ));
        if v > (u128::MAX - d) / 10 {
            proof {
                let n = v as int * 10 + d as int;
                assert(n > u128::MAX) by (nonlinear_arith)
                    requires
                        v > (u128::MAX - d) / 10,
                        n == v * 10 + d,
                        d <= 9,
                ;
                let t = buf@.subrange(i + 1, hi as int);
                assert forall|j: int| 0 <= j < t.len() implies is_digit(#[trigger] t[j]) by {
                    assert(t[j] == buf@[i + 1 + j]);
                }
                lemma_fold_digits_ge(n, t);
                assert(n == v as int * 10 + (rest[0] - 48));
                assert(t =~= rest.drop_first());
                assert(fold_digits(v as int, rest) == fold_digits(n, t));
            }
            return None;
        }
        assert(v * 10 + d <= u128::MAX) by (nonlinear_arith)
            requires
                v <= (u128::MAX - d) / 10,
                d <= 9,
        ;
        v = v * 10 + d;
        i = i + 1;
    }
    assert(buf@.subrange(i as int, hi as int).len() == 0);
    Some(v)
}

/// Reads `buf[lo..hi]` as an integer field.
pub fn parse_integer(buf: &[u8], lo: usize, hi: usize) -> (r: Option<i64>)
    requires
        lo <= hi <= buf@.len(),
    ensures
        r == integer_field(buf@.subrange(lo as int, hi as int)),
{
    let ghost s = buf@.subrange(lo as int, hi as int);
    let mut p = lo;
    if p < hi && (buf[p] == 43 || buf[p] == 45) {
        p = p + 1;
    }
    assert(p - lo == sign_len(s));
    let e = run_end(buf, lo, hi, p);
    if !(p < hi && e == hi) {
        return None;
    }
    assert(s.subrange(p - lo, s.len() as int) =~= buf@.subrange(p as int, hi as int));
    let m = match accumulate_digits(buf, p, hi, 0) {
        Some(m) => m,
        None => {
            return None;
        },
    };
    if p > lo && buf[lo] == 45 {
        if m <= 9223372036854775808 {
            Some((0 - m as i128) as i64)
        } else {
            None
        }
    } else {
        if m <= 9223372036854775807 {
            Some(m as i64)
        } else {
            None
        }
    }
}

/// The digits of `buf[p..int_end]` and then of `buf[frac_start..frac_end]`
/// read as one integer; `None` when it does not fit in `u128`.
fn parse_mantissa(buf: &[u8], p: usize, int_end: usize, frac_start: usize, frac_end: usize) -> (r:
    Option<u128>)
    requires
        p <= int_end <= buf@.len(),
        frac_start <= frac_end <= buf@.len(),
        forall|k: int| p <= k < int_end ==> is_digit(#[trigger] buf@[k]),
        forall|k: int| frac_start <= k < frac_end ==> is_digit(#[trigger] buf@[k]),
    ensures
        ({
            let m = fold_digits(
                fold_digits(0, buf@.subrange(p as int, int_end as int)),
                buf@.subrange(frac_start as int, frac_end as int),
            );
            match r {
                Some(v) => v == m,
                None => m > u128::MAX,
            }
        }),
{
    let m1 = match accumulate_digits(buf, p, int_end, 0) {
        Some(m) => m,
        None => {
            proof {
                let t = buf@.subrange(frac_start as int, frac_end as int);
                assert forall|j: int| 0 <= j < t.len() implies is_digit(#[trigger] t[j]) by {
                    assert(t[j] == buf@[frac_start + j]);
                }
                lemma_fold_digits_ge(fold_digits(0, buf@.subrange(p as int, int_end as int)), t);
            }
            return None;
        },
    };
    accumulate_digits(buf, frac_start, frac_end, m1)
}

/// Reads `buf[lo..hi]` as a number field.
#[verifier::rlimit(40)]
pub fn parse_number(buf: &[u8], lo: usize, hi: usize) -> (r: Option<Number>)
    requires
        lo <= hi <= buf@.len(),
    ensures
        r == number_field(buf@.subrange(lo as int, hi as int)),
{
    let ghost s = buf@.subrange(lo as int, hi as int);
    let mut p = lo;
    let mut neg = false;
    if p < hi && (buf[p] == 43 || buf[p] == 45) {
        neg = buf[p] == 45;
        p = p + 1;
    }
    assert(p - lo == sign_len(s));
    let int_end = run_end(buf, lo, hi, p);
    let mut frac_start = int_end;
    let mut frac_end = int_end;
    if int_end < hi && buf[int_end] == 46 {
        frac_start = int_end + 1;
        frac_end = run_end(buf, lo, hi, frac_start);
    }
    assert(s.subrange(p - lo, int_end - lo) =~= buf@.subrange(p as int, int_end as int));
    assert(s.subrange(frac_start - lo, frac_end - lo) =~= buf@.subrange(
        frac_start as int,
        frac_end as int,
    ));
    if int_end - p == 0 && frac_end - frac_start == 0 {
        return None;
    }
    let m = match parse_mantissa(buf, p, int_end, frac_start, frac_end) {
        Some(m) => m,
        None => {
            return None;
        },
    };
    let frac_len = frac_end - frac_start;
    let x: i64;
    if frac_end == hi {
        x = 0;
    } else if buf[frac_end] == 101 || buf[frac_end] == 69 {
        assert(s.subrange(frac_end + 1 - lo, s.len() as int) =~= buf@.subrange(
            frac_end + 1,
            hi as int,
        ));
        match parse_integer(buf, frac_end + 1, hi) {
            Some(v) => {
                x = v;
            },
            None => {
                return None;
            },
        }
    } else {
        return None;
    }
    let e: i128 = x as i128 - frac_len as i128;
    if e < -2147483648 || e > 2147483647 {
        return None;
    }
    Some(Number { neg, mantissa: m, exp: e as i32 })
}

/// The decimal digits of `m`, most significant first, without leading zeros.
pub open spec fn decimal_digits(m: nat) -> Seq<u8>
    decreases m,
{
    if m < 10 {
        seq![(48 + m) as u8]
    } else {
        decimal_digits(m / 10).push((48 + m % 10) as u8)
    }
}

/// The wire form of a number: `[-]digits E [-]digits`, as in `-25E-3`.
pub open spec fn number_text_of(n: Number) -> Seq<u8> {
    let sign: Seq<u8> = if n.neg {
        seq![45u8]
    } else {
        Seq::empty()
    };
    let exp_sign: Seq<u8> = if n.exp < 0 {
        seq![45u8]
    } else {
        Seq::empty()
    };
    let exp_abs: nat = if n.exp < 0 {
        (-n.exp) as nat
    } else {
        n.exp as nat
    };
    sign + decimal_digits(n.mantissa as nat) + seq![69u8] + exp_sign + decimal_digits(exp_abs)
}

proof fn lemma_decimal_digits_are_digits(m: nat)
    ensures
        decimal_digits(m).len() >= 1,
        forall|i: int| 0 <= i < decimal_digits(m).len() ==> is_digit(#[trigger] decimal_digits(m)[i]),
    decreases m,
{
    if m >= 10 {
        lemma_decimal_digits_are_digits(m / 10);
    }
}

proof fn lemma_fold_digits_push(acc: int, s: Seq<u8>, d: u8)
    ensures
        fold_digits(acc, s.push(d)) == fold_digits(acc, s) * 10 + (d - 48),
    decreases s.len(),
{
    let a = acc * 10 + (s.push(d)[0] - 48);
    assert(fold_digits(acc, s.push(d)) == fold_digits(a, s.push(d).drop_first()));
    if s.len() == 0 {
        assert(s.push(d).drop_first() =~= Seq::<u8>::empty());
        assert(s.push(d)[0] == d);
        assert(fold_digits(a, Seq::<u8>::empty()) == a);
    } else {
        assert(s.push(d)[0] == s[0]);
        assert(s.push(d).drop_first() =~= s.drop_first().push(d));
        lemma_fold_digits_push(a, s.drop_first(), d);
        assert(fold_digits(acc, s) == fold_digits(a, s.drop_first()));
    }
}

proof fn lemma_fold_decimal_digits(m: nat)
    ensures
        fold_digits(0, decimal_digits(m)) == m,
    decreases m,
{
    if m < 10 {
        let s = seq![(48 + m) as u8];
        assert(s.drop_first() =~= Seq::<u8>::empty());
        assert(s[0] - 48 == m);
        assert(fold_digits(0, s) == fold_digits(0 * 10 + (s[0] - 48), s.drop_first()));
        assert(fold_digits(m as int, Seq::<u8>::empty()) == m);
    } else {
        lemma_fold_decimal_digits(m / 10);
        lemma_fold_digits_push(0, decimal_digits(m / 10), (48 + m % 10) as u8);
        assert((m / 10) * 10 + m % 10 == m);
    }
}

proof fn lemma_digit_run(s: Seq<u8>, i: int, j: int)
    requires
        0 <= i <= j <= s.len(),
        forall|k: int| i <= k < j ==> is_digit(#[trigger] s[k]),
        j == s.len() || !is_digit(s[j]),
    ensures
        digit_run_end(s, i) == j,
    decreases j - i,
{
    if i < j {
        lemma_digit_run(s, i + 1, j);
    }
}

/// The wire form of a number reads back as the same number.
pub proof fn lemma_number_text_reads_back(n: Number)
    ensures
        number_field(number_text_of(n)) == Some(n),
{
    let exp_abs: nat = if n.exp < 0 {
        (-n.exp) as nat
    } else {
        n.exp as nat
    };
    let sign: Seq<u8> = if n.neg {
        seq![45u8]
    } else {
        Seq::empty()
    };
    let exp_sign: Seq<u8> = if n.exp < 0 {
        seq![45u8]
    } else {
        Seq::empty()
    };
    let d = decimal_digits(n.mantissa as nat);
    let x = decimal_digits(exp_abs);
    let s = number_text_of(n);
    assert(s =~= sign + d + seq![69u8] + exp_sign + x);
    lemma_decimal_digits_are_digits(n.mantissa as nat);
    lemma_decimal_digits_are_digits(exp_abs);
    lemma_fold_decimal_digits(n.mantissa as nat);
    lemma_fold_decimal_digits(exp_abs);
    let b = sign.len() as int;
    let int_end = b + d.len();
    assert(s[0] == if n.neg {
        45u8
    } else {
        d[0]
    });
    assert(sign_len(s) == b);
    assert forall|k: int| b <= k < int_end implies is_digit(#[trigger] s[k]) by {
        assert(s[k] == d[k - b]);
    }
    assert(s[int_end] == 69u8);
    lemma_digit_run(s, b, int_end);
    assert(s.subrange(b, int_end) =~= d);
    assert(s.subrange(int_end, int_end) =~= Seq::<u8>::empty());
    let e = s.subrange(int_end + 1, s.len() as int);
    assert(e =~= exp_sign + x);
    let eb = exp_sign.len() as int;
    assert(e[0] == if n.exp < 0 {
        45u8
    } else {
        x[0]
    });
    assert(sign_len(e) == eb);
    assert forall|k: int| eb <= k < e.len() implies is_digit(#[trigger] e[k]) by {
        assert(e[k] == x[k - eb]);
    }
    lemma_digit_run(e, eb, e.len() as int);
    assert(e.subrange(eb, e.len() as int) =~= x);
}

fn push_digits(m: u128, out: &mut Vec<u8>)
    ensures
        final(out)@ == old(out)@ + decimal_digits(m as nat),
    decreases m,
{
    if m >= 10 {
        push_digits(m / 10, out);
    }
    out.push((48 + m % 10) as u8);
    proof {
        if m < 10 {
            assert(old(out)@.push((48 + m % 10) as u8) =~= old(out)@ + decimal_digits(m as nat));
        } else {
            assert((old(out)@ + decimal_digits((m / 10) as nat)).push((48 + m % 10) as u8)
                =~= old(out)@ + decimal_digits(m as nat));
        }
    }
}

/// Writes a number in its wire form.
pub fn number_text(n: &Number) -> (r: Vec<u8>)
    ensures
        r@ == number_text_of(*n),
{
    let mut out: Vec<u8> = Vec::new();
    if n.neg {
        out.push(45);
    }
    push_digits(n.mantissa, &mut out);
    out.push(69);
    let exp_abs: u128;
    if n.exp < 0 {
        out.push(45);
        exp_abs = (0 - n.exp as i64) as u128;
    } else {
        exp_abs = n.exp as u128;
    }
    push_digits(exp_abs, &mut out);
    proof {
        let sign: Seq<u8> = if n.neg {
            seq![45u8]
        } else {
            Seq::empty()
        };
        let exp_sign: Seq<u8> = if n.exp < 0 {
            seq![45u8]
        } else {
            Seq::empty()
        };
        assert(out@ =~= sign + decimal_digits(n.mantissa as nat) + seq![69u8] + exp_sign
            + decimal_digits(exp_abs as nat));
    }
    out
}

impl Number {
    /// Whether this reading stands for "no valid measurement": its value is
    /// at or above 9.91e37.
    pub fn is_sentinel(&self) -> (r: bool)
        ensures
            r == at_least_sentinel(*self),
    {
        let m = self.mantissa;
        if self.neg && m > 0 {
            return false;
        }
        if m == 0 {
            proof {
                if self.exp >= 35 {
                    assert(0 * pow(10, (self.exp - 35) as nat) == 0);
                } else {
                    lemma_pow_positive(10, (35 - self.exp) as nat);
                }
            }
            return false;
        }
        if self.exp >= 35 {
            let k: u32 = (self.exp - 35) as u32;
            if m >= 991 {
                proof {
                    lemma_pow_positive(10, k as nat);
                    assert(m * pow(10, k as nat) >= m) by (nonlinear_arith)
                        requires
                            pow(10, k as nat) >= 1,
                            m >= 0,
                    ;
                }
                return true;
            }
            proof {
                lemma_pow0(10);
            }
            let mut v: u128 = m;
            let mut j: u32 = 0;
            while j < k && v < 991
                invariant
                    j <= k,
                    k == self.exp - 35,
                    m == self.mantissa,
                    v == m * pow(10, j as nat),
                    v < 9910,
                    m > 0,
                decreases k - j,
            {
                proof {
                    lemma_pow_adds(10, j as nat, 1);
                    lemma_pow1(10);
                    assert(m * pow(10, (j + 1) as nat) == v * 10) by (nonlinear_arith)
                        requires
                            pow(10, (j + 1) as nat) == pow(10, j as nat) * 10,
                            v == m * pow(10, j as nat),
                    ;
                }
                v = v * 10;
                j = j + 1;
            }
            proof {
                let rest = (k - j) as nat;
                lemma_pow_adds(10, j as nat, rest);
                lemma_pow_positive(10, rest);
                assert(j as nat + rest == k as nat);
                assert(m * pow(10, k as nat) == v * pow(10, rest)) by (nonlinear_arith)
                    requires
                        pow(10, k as nat) == pow(10, j as nat) * pow(10, rest),
                        v == m * pow(10, j as nat),
                ;
                if v >= 991 {
                    assert(v * pow(10, rest) >= v) by (nonlinear_arith)
                        requires
                            pow(10, rest) >= 1,
                            v >= 0,
                    ;
                } else {
                    assert(rest == 0);
                    assert(pow(10, 0) == 1);
                }
            }
            v >= 991
        } else {
            let k: u32 = (35i64 - self.exp as i64) as u32;
            let mut t: u128 = 991;
            proof {
                lemma_pow0(10);
            }
            let mut j: u32 = 0;
            while j < k
                invariant
                    j <= k,
                    k == 35 - self.exp,
                    m == self.mantissa,
                    t == 991 * pow(10, j as nat),
                decreases k - j,
            {
                proof {
                    let rest = (k - j) as nat;
                    lemma_pow_adds(10, j as nat, rest);
                    lemma_pow_positive(10, rest);
                    assert(j as nat + rest == k as nat);
                    assert(991 * pow(10, k as nat) >= t) by (nonlinear_arith)
                        requires
                            pow(10, k as nat) == pow(10, j as nat) * pow(10, rest),
                            t == 991 * pow(10, j as nat),
                            pow(10, rest) >= 1,
                            t >= 0,
                    ;
                    lemma_pow_adds(10, j as nat, 1);
                    lemma_pow1(10);
                    lemma_pow_adds(10, (j + 1) as nat, (rest - 1) as nat);
                    lemma_pow_positive(10, (rest - 1) as nat);
                    assert(991 * pow(10, k as nat) >= t * 10) by (nonlinear_arith)
                        requires
                            pow(10, k as nat) == pow(10, (j + 1) as nat) * pow(10, (rest - 1) as nat),
                            pow(10, (j + 1) as nat) == pow(10, j as nat) * 10,
                            t == 991 * pow(10, j as nat),
                            pow(10, (rest - 1) as nat) >= 1,
                            t >= 0,
                    ;
                }
                if t > m || t > u128::MAX / 10 {
                    proof {
                        if t <= m {
                            assert(t * 10 > u128::MAX) by (nonlinear_arith)
                                requires
                                    t > u128::MAX / 10,
                            ;
                        }
                        assert(991 * pow(10, k as nat) > m);
                        assert((35 - self.exp) as nat == k as nat);
                    }
                    return false;
                }
                t = t * 10;
                j = j + 1;
            }
            m >= t
        }
    }
}

} // verus!
