//! Durations as whole seconds and nanoseconds, and their exchange with the
//! decimal seconds that travel on the wire.
use crate::number::Number;
use vstd::arithmetic::div_mod::{lemma_basic_div, lemma_div_denominator, lemma_div_is_ordered, lemma_div_pos_is_pos, lemma_fundamental_div_mod};
use vstd::arithmetic::power::{lemma_pow0, lemma_pow1, lemma_pow_adds, lemma_pow_increases, lemma_pow_positive, pow};
use vstd::prelude::*;

verus! {

pub const NANOS_PER_SEC: u32 = 1_000_000_000;

/// A length of time: `secs` seconds and `nanos` nanoseconds.
#[derive(Clone, Copy, Debug, PartialEq, Eq, Structural)]
pub struct Span {
    pub secs: u64,
    pub nanos: u32,
}

impl Span {
    pub open spec fn wf(self) -> bool {
        self.nanos < NANOS_PER_SEC
    }

    /// The whole length in nanoseconds.
    pub open spec fn total_nanos(self) -> int {
        self.secs * 1_000_000_000 + self.nanos
    }

    pub fn new(secs: u64, nanos: u32) -> (r: Span)
        requires
            nanos < NANOS_PER_SEC,
        ensures
            r == (Span { secs, nanos }),
            r.wf(),
    {
        Span { secs, nanos }
    }

    pub fn from_secs(secs: u64) -> (r: Span)
        ensures
            r == (Span { secs, nanos: 0 }),
            r.wf(),
    {
        Span { secs, nanos: 0 }
    }
}

/// `m * 10^k` rounded toward zero, for a `k` of either sign.
pub open spec fn scale_down(m: int, k: int) -> int {
    if k >= 0 {
        m * pow(10, k as nat)
    } else {
        m / pow(10, (-k) as nat)
    }
}

/// The nanoseconds in `n` seconds, rounded toward zero.
pub open spec fn nanos_in(n: Number) -> int {
    let t = scale_down(n.mantissa as int, n.exp + 9);
    if n.neg {
        -t
    } else {
        t
    }
}

/// The span that `n` seconds stand for: none when `n` is negative or the
/// whole seconds do not fit in `u64`.
pub open spec fn span_of(n: Number) -> Option<Span> {
    let t = nanos_in(n);
    if (n.neg && n.mantissa > 0) || t / 1_000_000_000 > u64::MAX {
        None
    } else {
        Some(Span { secs: (t / 1_000_000_000) as u64, nanos: (t % 1_000_000_000) as u32 })
    }
}

/// The seconds that a span stands for, exactly, as a number with nine digits
/// after the point.
pub open spec fn seconds_of(s: Span) -> Number {
    Number { neg: false, mantissa: s.total_nanos() as u128, exp: -9i32 }
}

proof fn lemma_nanos_in_nonneg(n: Number)
    requires
        !(n.neg && n.mantissa > 0),
    ensures
        nanos_in(n) >= 0,
        nanos_in(n) == scale_down(n.mantissa as int, n.exp + 9),
{
    let k = n.exp + 9;
    if k >= 0 {
        lemma_pow_positive(10, k as nat);
        assert(n.mantissa * pow(10, k as nat) >= 0) by (nonlinear_arith)
            requires
                pow(10, k as nat) > 0,
        ;
        if n.neg {
            assert(n.mantissa == 0);
            assert(0 * pow(10, k as nat) == 0);
        }
    } else {
        lemma_pow_positive(10, (-k) as nat);
        lemma_div_pos_is_pos(n.mantissa as int, pow(10, (-k) as nat));
        if n.neg {
            lemma_basic_div(0, pow(10, (-k) as nat));
        }
    }
}

proof fn lemma_pow_step(j: nat)
    ensures
        pow(10, j + 1) == pow(10, j) * 10,
        pow(10, j) >= 1,
{
    lemma_pow_adds(10, j, 1);
    lemma_pow1(10);
    lemma_pow_positive(10, j);
}

/// `m * 10^k`, or `None` once it reaches `limit`.
fn scale_up_below(m: u128, k: u32, limit: u128) -> (r: Option<u128>)
    requires
        limit <= u128::MAX / 10,
    ensures
        match r {
            Some(v) => v == m * pow(10, k as nat) && v < limit,
            None => m * pow(10, k as nat) >= limit,
        },
{
    proof {
        lemma_pow0(10);
    }
    let mut v = m;
    let mut j: u32 = 0;
    while j < k
        invariant
            j <= k,
            v == m * pow(10, j as nat),
            limit <= u128::MAX / 10,
        decreases k - j,
    {
        proof {
            lemma_pow_step(j as nat);
        }
        if v >= limit {
            proof {
                lemma_pow_adds(10, j as nat, (k - j) as nat);
                lemma_pow_positive(10, (k - j) as nat);
                assert(m * pow(10, k as nat) >= v) by (nonlinear_arith)
                    requires
                        pow(10, k as nat) == pow(10, j as nat) * pow(10, (k - j) as nat),
                        v == m * pow(10, j as nat),
                        pow(10, (k - j) as nat) >= 1,
                        v >= 0,
                ;
            }
            return None;
        }
        assert(m * pow(10, (j + 1) as nat) == v * 10) by (nonlinear_arith)
            requires
                pow(10, (j + 1) as nat) == pow(10, j as nat) * 10,
                v == m * pow(10, j as nat),
        ;
        v = v * 10;
        j = j + 1;
    }
    if v >= limit {
        return None;
    }
    Some(v)
}

/// `m / 10^k` rounded toward zero.
fn scale_down_exec(m: u128, k: u32) -> (r: u128)
    ensures
        r == m as int / pow(10, k as nat),
{
    proof {
        lemma_pow0(10);
    }
    let mut v = m;
    let mut j: u32 = 0;
    while j < k && v > 0
        invariant
            j <= k,
            v == m as int / pow(10, j as nat),
        decreases k - j,
    {
        proof {
            lemma_pow_step(j as nat);
            lemma_div_denominator(m as int, pow(10, j as nat), 10);
        }
        v = v / 10;
        j = j + 1;
    }
    proof {
        if j < k {
            lemma_pow_positive(10, j as nat);
            lemma_fundamental_div_mod(m as int, pow(10, j as nat));
            assert(m < pow(10, j as nat)) by (nonlinear_arith)
                requires
                    m as int / pow(10, j as nat) == 0,
                    m == pow(10, j as nat) * (m as int / pow(10, j as nat)) + m as int % pow(
                        10,
                        j as nat,
                    ),
                    m as int % pow(10, j as nat) < pow(10, j as nat),
            ;
            lemma_pow_increases(10, j as nat, k as nat);
            lemma_basic_div(m as int, pow(10, k as nat));
        }
    }
    v
}

/// The duration that `sec` seconds stand for, rounded toward zero to the
/// nanosecond; `None` for a negative `sec` or one whose whole seconds do not
/// fit in `u64`.
pub fn secs_as_dur(sec: &Number) -> (r: Option<Span>)
    ensures
        r == span_of(*sec),
        r matches Some(s) ==> s.wf(),
        sec.neg && sec.mantissa > 0 ==> r is None,
{
    if sec.neg && sec.mantissa > 0 {
        return None;
    }
    let limit: u128 = 18_446_744_073_709_551_616_000_000_000;
    let k: i64 = sec.exp as i64 + 9;
    let t: u128;
    if k >= 0 {
        match scale_up_below(sec.mantissa, k as u32, limit) {
            Some(v) => {
                t = v;
            },
            None => {
                proof {
                    lemma_nanos_in_nonneg(*sec);
                    assert((k as u32) as nat == (sec.exp + 9) as nat);
                    lemma_div_is_ordered(limit as int, nanos_in(*sec), 1_000_000_000);
                    assert(limit as int / 1_000_000_000 == 18_446_744_073_709_551_616);
                }
                return None;
            },
        }
        proof {
            assert((k as u32) as nat == (sec.exp + 9) as nat);
        }
    } else {
        t = scale_down_exec(sec.mantissa, (0 - k) as u32);
        proof {
            assert((-(sec.exp + 9)) as nat == (0 - k) as nat);
        }
    }
    proof {
        lemma_nanos_in_nonneg(*sec);
        assert(t == nanos_in(*sec));
    }
    let secs = t / 1_000_000_000;
    if secs > 18_446_744_073_709_551_615 {
        return None;
    }
    Some(Span { secs: secs as u64, nanos: (t % 1_000_000_000) as u32 })
}

/// The seconds that `dur` stands for, with nine digits after the point.
pub fn dur_as_secs(dur: Span) -> (r: Number)
    ensures
        r == seconds_of(dur),
{
    Number {
        neg: false,
        mantissa: dur.secs as u128 * 1_000_000_000 + dur.nanos as u128,
        exp: -9,
    }
}

/// Reading seconds into a duration and writing it back gives the same
/// number of whole nanoseconds: the round trip is exact to the nanosecond.
pub proof fn lemma_secs_round_trip(sec: Number)
    requires
        span_of(sec) is Some,
    ensures
        nanos_in(seconds_of(span_of(sec)->0)) == nanos_in(sec),
{
    let t = nanos_in(sec);
    let s = span_of(sec)->0;
    lemma_pow0(10);
    lemma_nanos_in_nonneg(sec);
    lemma_fundamental_div_mod(t, 1_000_000_000);
    assert(s.total_nanos() == t);
}

/// Writing a well-formed duration as seconds and reading it back gives the
/// same duration.
pub proof fn lemma_dur_round_trip(dur: Span)
    requires
        dur.wf(),
    ensures
        span_of(seconds_of(dur)) == Some(dur),
{
    let t = dur.total_nanos();
    lemma_pow0(10);
    assert(nanos_in(seconds_of(dur)) == t);
    assert(t / 1_000_000_000 == dur.secs && t % 1_000_000_000 == dur.nanos) by (nonlinear_arith)
        requires
            t == dur.secs * 1_000_000_000 + dur.nanos,
            0 <= dur.nanos < 1_000_000_000,
            dur.secs >= 0,
    ;
}

} // verus!
