//! Integer combinatorics for the passphrase search space: an overflow-checked
//! power and the order of magnitude (floor of the base-10 logarithm).

use vstd::prelude::*;
use vstd::arithmetic::power::pow;

verus! {

/// Floor of the base-10 logarithm of `n`, as a specification.
pub open spec fn log10(n: nat) -> nat
    decreases n,
{
    if n < 10 {
        0
    } else {
        1 + log10(n / 10)
    }
}

/// `10^log10(n) <= n < 10^(log10(n) + 1)` for every `n >= 1`: `log10` really
/// is the order of magnitude.
pub proof fn lemma_log10_bounds(n: nat)
    requires
        n >= 1,
    ensures
        pow(10, log10(n)) <= n < pow(10, log10(n) + 1),
    decreases n,
{
    if n < 10 {
        vstd::arithmetic::power::lemma_pow0(10);
        vstd::arithmetic::power::lemma_pow1(10);
    } else {
        let m = n / 10;
        lemma_log10_bounds(m);
        vstd::arithmetic::power::lemma_pow1(10);
        vstd::arithmetic::power::lemma_pow_adds(10, log10(m), 1);
        vstd::arithmetic::power::lemma_pow_adds(10, log10(m) + 1, 1);
        assert(pow(10, log10(m) + 1) == 10 * pow(10, log10(m)));
        assert(pow(10, log10(m) + 2) == 10 * pow(10, log10(m) + 1));
        assert(10 * pow(10, log10(m)) <= 10 * m) by (nonlinear_arith)
            requires pow(10, log10(m)) <= m,
        {}
        assert(10 * m <= n) by (nonlinear_arith)
            requires m == n / 10, n >= 10,
        {}
        assert(n < 10 * m + 10) by (nonlinear_arith)
            requires m == n / 10,
        {}
        assert(10 * m + 10 == 10 * (m + 1));
        assert(10 * (m + 1) <= 10 * pow(10, log10(m) + 1)) by (nonlinear_arith)
            requires m + 1 <= pow(10, log10(m) + 1),
        {}
    }
}

/// Floor of the base-10 logarithm, computed by repeated division.
pub fn ilog10(n: usize) -> (r: u32)
    requires
        n >= 1,
    ensures
        r == log10(n as nat),
{
    proof {
        lemma_log10_word_bound(n as nat);
    }
    let mut x: usize = n;
    let mut r: u32 = 0;
    while x >= 10
        invariant
            x >= 1,
            log10(n as nat) == r + log10(x as nat),
            log10(n as nat) <= 19,
        decreases x,
    {
        x = x / 10;
        r = r + 1;
    }
    r
}

/// `log10(n) <= 19` whenever `n` fits the machine word: the word is at most
/// 64 bits, and `10^20` exceeds every 64-bit value.
proof fn lemma_log10_word_bound(n: nat)
    requires
        n <= usize::MAX,
    ensures
        log10(n) <= 19,
{
    if n >= 1 {
        lemma_log10_bounds(n);
        assert(pow(10, 20) == 0x5_6bc7_5e2d_6310_0000) by {
            reveal_with_fuel(pow, 21);
        }
        if log10(n) >= 20 {
            vstd::arithmetic::power::lemma_pow_increases(10, 20, log10(n));
        }
    }
}

/// `base^exp` if it fits the machine word, `None` on overflow.
pub fn checked_pow(base: usize, exp: u32) -> (r: Option<usize>)
    ensures
        r is Some <==> pow(base as int, exp as nat) <= usize::MAX,
        r is Some ==> r->Some_0 == pow(base as int, exp as nat),
{
    proof {
        vstd::arithmetic::power::lemma_pow0(base as int);
    }
    if base == 0 {
        // 0^0 == 1; any positive exponent gives 0.
        if exp == 0 {
            return Some(1);
        }
        proof {
            vstd::arithmetic::power::lemma0_pow(exp as nat);
        }
        return Some(0);
    }
    let mut acc: usize = 1;
    let mut i: u32 = 0;
    while i < exp
        invariant
            base >= 1,
            i <= exp,
            acc == pow(base as int, i as nat),
            acc >= 1,
        decreases exp - i,
    {
        proof {
            vstd::arithmetic::power::lemma_pow_adds(base as int, i as nat, 1);
            vstd::arithmetic::power::lemma_pow1(base as int);
        }
        if acc > usize::MAX / base {
            proof {
                lemma_mul_exceeds(acc as nat, base as nat, usize::MAX as nat);
                vstd::arithmetic::power::lemma_pow_increases(base as nat, (i + 1) as nat, exp as nat);
            }
            return None;
        }
        proof {
            lemma_mul_within(acc as nat, base as nat, usize::MAX as nat);
            vstd::arithmetic::power::lemma_pow_positive(base as int, (i + 1) as nat);
        }
        acc = acc * base;
        i = i + 1;
    }
    Some(acc)
}

/// If `a` exceeds the floor quotient `m / b`, then `a * b` exceeds `m`.
proof fn lemma_mul_exceeds(a: nat, b: nat, m: nat)
    requires
        b >= 1,
        a > m / b,
    ensures
        a * b > m,
{
    assert(a * b > m) by (nonlinear_arith)
        requires b >= 1, a > m / b, m % b < b,
    {}
}

/// If `a` is at most the floor quotient `m / b`, then `a * b` is at most `m`.
proof fn lemma_mul_within(a: nat, b: nat, m: nat)
    requires
        b >= 1,
        a <= m / b,
    ensures
        a * b <= m,
{
    assert(a * b <= m) by (nonlinear_arith)
        requires b >= 1, a <= m / b, m % b < b, m >= 0,
    {}
}

} // verus!
