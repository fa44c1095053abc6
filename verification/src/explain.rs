use vstd::arithmetic::power2::{
    lemma2_to64, lemma2_to64_rest, lemma_pow2_adds, lemma_pow2_pos, lemma_pow2_strictly_increases, lemma_pow2_unfold, pow2,
};

use vstd::prelude::*;

use crate::signal::Signal;
use crate::text::{
    decimal, digit_char, push_char, push_digit, push_signed, push_str, push_zero_padded, signed_decimal, zero_padded,
};

verus! {

/// Produces a human-readable explanation for an emitted signal.
///
/// A rule-based implementation, [`HeuristicExplainer`], ships with the
/// library; the trait leaves room for other explainers.
pub trait Explainer: Send + Sync {
    /// Explain a signal in one human-readable sentence.
    fn explain(&self, signal: &Signal) -> String;
}

/// A rule-based explainer that turns signal fields into prose.
#[derive(Debug, Default, Clone, Copy)]
pub struct HeuristicExplainer;

/// Description of the size and direction of a move of `bps` basis points.
pub open spec fn momentum_text(bps: int) -> Seq<char> {
    if bps >= 500 {
        "a strong upward move"@
    } else if bps >= 100 {
        "a moderate gain"@
    } else if bps > 0 {
        "a mild uptick"@
    } else if bps == 0 {
        "a flat session"@
    } else if bps > -100 {
        "a mild dip"@
    } else if bps > -500 {
        "a moderate decline"@
    } else {
        "a sharp sell-off"@
    }
}

/// Number of binary digits of `n` (none for zero).
pub open spec fn bit_len(n: nat) -> nat
    decreases n,
{
    if n == 0 {
        0
    } else {
        1 + bit_len(n / 2)
    }
}

/// `n / d` rounded to the nearest integer, ties to the even one.
pub open spec fn div_round_even(n: nat, d: nat) -> nat {
    let q = n / d;
    let r = n % d;
    if r + r > d || (r + r == d && q % 2 == 1) {
        q + 1
    } else {
        q
    }
}

/// The integer `a` rounded to the nearest `f64` (53 significant bits, ties
/// to even), as `as f64` converts it.
pub open spec fn nearest_f64_int(a: nat) -> nat {
    if bit_len(a) <= 53 {
        a
    } else {
        let d = pow2((bit_len(a) - 53) as nat);
        div_round_even(a, d) * d
    }
}

/// For `y >= 1`, the `f64` nearest to `y / 100` is `m * 2^-k` with a
/// 53-bit `m`, where `k` is this shift: `y / 100` lies in
/// `[2^(52 - k), 2^(53 - k))`.
pub open spec fn quotient_shift(y: nat) -> int {
    60 - bit_len(128 * y / 100)
}

/// Hundredths of the `f64` nearest to `y / 100` (round to nearest, ties to
/// even), rounded to two decimals with ties to even: what `{:.2}` prints of
/// `y as f64 / 100.0`, times 100.
pub open spec fn f64_hundredths(y: nat) -> nat {
    let k = quotient_shift(y);
    if k >= 0 {
        let m = div_round_even(y * pow2(k as nat), 100);
        div_round_even(m * 100, pow2(k as nat))
    } else {
        let d = 100 * pow2((-k) as nat);
        div_round_even(y, d) * d
    }
}

/// The hundredths `{:+.2}` prints of `bps as f64 / 100.0`, in magnitude.
pub open spec fn percent_hundredths(bps: int) -> nat {
    if bps == 0 {
        0
    } else {
        f64_hundredths(nearest_f64_int(if bps < 0 { (-bps) as nat } else { bps as nat }))
    }
}

/// A move of `bps` basis points as a signed percentage with two decimals,
/// as `format!("{:+.2}", bps as f64 / 100.0)` writes it: e.g. "+6.00" for
/// 600 and "-0.05" for -5.
pub open spec fn percent_text(bps: int) -> Seq<char> {
    let h = percent_hundredths(bps);
    seq![if bps < 0 { '-' } else { '+' }] + decimal(h / 100) + seq!['.'] + zero_padded(h % 100, 2)
}

/// The sentence [`HeuristicExplainer`] produces for a signal.
pub open spec fn explanation(signal: &Signal) -> Seq<char> {
    signal.rule_name@ + " triggered on "@ + signal.instrument@ + " at price "@ + signed_decimal(
        signal.last_price as int,
    ) + " ("@ + percent_text(signal.pct_change_bps as int) + "% from open) \u{2014} "@
        + momentum_text(signal.pct_change_bps as int) + "."@
}

impl HeuristicExplainer {
    /// Create a new explainer.
    pub fn new() -> (e: HeuristicExplainer) {
        HeuristicExplainer
    }

    /// Description of a move of `bps` basis points.
    pub fn momentum(bps: i64) -> (s: &'static str)
        ensures
            s@ == momentum_text(bps as int),
    {
        if bps >= 500 {
            "a strong upward move"
        } else if bps >= 100 {
            "a moderate gain"
        } else if bps > 0 {
            "a mild uptick"
        } else if bps == 0 {
            "a flat session"
        } else if bps > -100 {
            "a mild dip"
        } else if bps > -500 {
            "a moderate decline"
        } else {
            "a sharp sell-off"
        }
    }
}

/// A number below `2^j` has at most `j` binary digits.
proof fn lemma_bit_len_bound(n: nat, j: nat)
    requires
        n < pow2(j),
    ensures
        bit_len(n) <= j,
    decreases j,
{
    if j == 0 {
        assert(pow2(0) == 1) by {
            lemma2_to64();
        }
    } else if n > 0 {
        lemma_pow2_unfold(j);
        lemma_bit_len_bound(n / 2, (j - 1) as nat);
    }
}

/// The number of binary digits of `n`.
fn bit_length(n: u128) -> (b: u32)
    requires
        n < 0x1_0000_0000_0000_0000_0000,
    ensures
        b as nat == bit_len(n as nat),
        b <= 80,
{
    proof {
        lemma2_to64();
        lemma_pow2_adds(64, 16);
        lemma_bit_len_bound(n as nat, 80);
    }
    let mut m: u128 = n;
    let mut b: u32 = 0;
    while m > 0
        invariant
            b + bit_len(m as nat) == bit_len(n as nat),
            bit_len(n as nat) <= 80,
        decreases m,
    {
        m = m / 2;
        b = b + 1;
    }
    b
}

/// `2^k`.
fn power_of_two(k: u32) -> (p: u128)
    requires
        k <= 64,
    ensures
        p == pow2(k as nat),
{
    proof {
        lemma2_to64();
    }
    let mut p: u128 = 1;
    let mut i: u32 = 0;
    while i < k
        invariant
            i <= k <= 64,
            p == pow2(i as nat),
            pow2(64) == 0x1_0000_0000_0000_0000,
        decreases k - i,
    {
        proof {
            lemma_pow2_unfold((i + 1) as nat);
            if i + 1 < 64 {
                lemma_pow2_strictly_increases((i + 1) as nat, 64);
            }
        }
        p = p * 2;
        i = i + 1;
    }
    p
}

/// Rounded division, ties to even; the result times `d` exceeds `n` by at
/// most `d`.
fn round_even(n: u128, d: u128) -> (q: u128)
    requires
        d > 0,
    ensures
        q == div_round_even(n as nat, d as nat),
        q * d <= n + d,
{
    let q = n / d;
    let r = n % d;
    proof {
        assert(q * d + r == n && r < d) by (nonlinear_arith)
            requires
                d > 0,
                q == n / d,
                r == n % d,
        ;
    }
    if r > d - r || (r == d - r && q % 2 == 1) {
        proof {
            assert(d >= 2);
            assert(q <= n / 2) by (nonlinear_arith)
                requires
                    d >= 2,
                    q == n / d,
            ;
            assert((q + 1) * d == q * d + d) by (nonlinear_arith);
        }
        q + 1
    } else {
        q
    }
}

/// Appends the decimal notation of a wide `n`.
fn push_decimal_wide(s: &mut String, n: u128)
    ensures
        final(s)@ == old(s)@ + decimal(n as nat),
    decreases n,
{
    if n >= 10 {
        push_decimal_wide(s, n / 10);
    }
    push_digit(s, (n % 10) as u64);
    proof {
        if n >= 10 {
            assert(decimal(n as nat) == decimal((n / 10) as nat).push(digit_char((n % 10) as nat)));
        }
    }
    assert(final(s)@ == old(s)@ + decimal(n as nat));
}

/// The hundredths `{:+.2}` prints of `bps as f64 / 100.0`, in magnitude.
fn hundredths(bps: i64) -> (h: u128)
    ensures
        h == percent_hundredths(bps as int),
{
    if bps == 0 {
        return 0;
    }
    let a: u128 = if bps < 0 {
        ((-(bps as i128)) as u128)
    } else {
        bps as u128
    };
    proof {
        lemma2_to64();
        lemma2_to64_rest();
        assert(a <= 0x8000_0000_0000_0000);
        lemma_bit_len_bound(a as nat, 64);
    }
    let b = bit_length(a);
    let y: u128 = if b <= 53 {
        a
    } else {
        let d = power_of_two(b - 53);
        proof {
            lemma_pow2_strictly_increases((b - 53) as nat, 12);
            assert(pow2(12) == 4096);
            if (a as nat) < pow2(53) {
                lemma_bit_len_bound(a as nat, 53);
            }
            assert(a >= d);
        }
        let q = round_even(a, d);
        proof {
            assert(q >= 1) by (nonlinear_arith)
                requires
                    q == div_round_even(a as nat, d as nat),
                    a >= d,
                    d > 0,
            ;
            assert(q * d <= a + d);
            assert(q * d <= 0x8000_0000_0000_1000);
            assert(q * d >= 1) by (nonlinear_arith)
                requires
                    q >= 1,
                    d >= 1,
            ;
        }
        q * d
    };
    proof {
        assert(y == nearest_f64_int(a as nat));
        assert(1 <= y <= 0x8000_0000_0000_1000);
    }
    let t: u128 = 128 * y / 100;
    proof {
        assert(t >= 1);
        lemma_pow2_adds(64, 16);
        assert(t < 0x1_0000_0000_0000_0000_0000);
    }
    let bt = bit_length(t);
    proof {
        assert(bt >= 1);
        lemma_pow2_adds(64, 8);
        assert(pow2(64) * pow2(8) == 0x1_0000_0000_0000_0000_00);
        lemma_bit_len_bound(t as nat, 72);
        assert(bt <= 72);
    }
    if bt <= 60 {
        let k: u32 = 60 - bt;
        let pk = power_of_two(k);
        proof {
            lemma_pow2_pos(k as nat);
            if k < 59 {
                lemma_pow2_strictly_increases(k as nat, 59);
            }
            assert(pow2(59) == 0x800_0000_0000_0000);
            assert(y * pk <= 0x8000_0000_0000_1000 * 0x800_0000_0000_0000) by (nonlinear_arith)
                requires
                    y <= 0x8000_0000_0000_1000,
                    pk <= 0x800_0000_0000_0000,
            ;
        }
        let m = round_even(y * pk, 100);
        proof {
            assert(quotient_shift(y as nat) == k);
        }
        round_even(m * 100, pk)
    } else {
        let j: u32 = bt - 60;
        let pj = power_of_two(j);
        proof {
            if j < 12 {
                lemma_pow2_strictly_increases(j as nat, 12);
            }
            assert(pow2(12) == 4096);
            assert(quotient_shift(y as nat) == -(j as int));
        }
        let d = 100 * pj;
        let m = round_even(y, d);
        m * d
    }
}

/// Append `bps` as a signed percentage with two decimals, as
/// `{:+.2}` prints `bps as f64 / 100.0`.
fn push_percent(out: &mut String, bps: i64)
    ensures
        final(out)@ == old(out)@ + percent_text(bps as int),
{
    let h = hundredths(bps);
    if bps < 0 {
        push_char(out, '-');
    } else {
        push_char(out, '+');
    }
    push_decimal_wide(out, h / 100);
    push_char(out, '.');
    push_zero_padded(out, (h % 100) as u64, 2);
    assert(final(out)@ =~= old(out)@ + percent_text(bps as int));
}

impl Explainer for HeuristicExplainer {
    fn explain(&self, signal: &Signal) -> (s: String)
        ensures
            s@ == explanation(signal),
    {
        let mut s = String::new();
        push_str(&mut s, signal.rule_name.as_str());
        push_str(&mut s, " triggered on ");
        push_str(&mut s, signal.instrument.as_str());
        push_str(&mut s, " at price ");
        push_signed(&mut s, signal.last_price);
        push_str(&mut s, " (");
        push_percent(&mut s, signal.pct_change_bps);
        push_str(&mut s, "% from open) \u{2014} ");
        push_str(&mut s, Self::momentum(signal.pct_change_bps));
        push_str(&mut s, ".");
        assert(s@ =~= explanation(signal));
        s
    }
}

} // verus!
