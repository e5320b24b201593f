use vstd::prelude::*;
use crate::error::SetupError;

verus! {

/// Two to the power `k`.
pub open spec fn two_pow(k: nat) -> nat
    decreases k,
{
    if k == 0 {
        1
    } else {
        2 * two_pow((k - 1) as nat)
    }
}

/// The least exponent `k` with `two_pow(k) >= n`.
pub open spec fn log2_ceil(n: nat) -> nat
    decreases n,
{
    if n <= 1 {
        0
    } else {
        1 + log2_ceil((n + 1) / 2)
    }
}

/// The evaluation-domain width for `n` points: the least power of two that
/// is at least `n`.
pub open spec fn domain_width_of(n: nat) -> nat {
    two_pow(log2_ceil(n))
}

/// Whether `w` is a power of two.
pub open spec fn is_power_of_two(w: nat) -> bool {
    exists|k: nat| two_pow(k) == w
}

/// Whether the domain width for `n` points is a machine-sized integer: `n`
/// is at most the largest power of two that a machine word holds.
pub open spec fn domain_fits(n: nat) -> bool {
    n <= usize::MAX / 2 + 1
}

/// Every exponent is below its power of two.
pub proof fn lemma_two_pow_grows(k: nat)
    ensures
        k < two_pow(k),
    decreases k,
{
    if k > 0 {
        lemma_two_pow_grows((k - 1) as nat);
    }
}

/// Powers of two grow with the exponent, doubling at least at each step.
pub proof fn lemma_two_pow_monotonic(a: nat, b: nat)
    requires
        a <= b,
    ensures
        two_pow(a) <= two_pow(b),
        a < b ==> 2 * two_pow(a) <= two_pow(b),
    decreases b,
{
    if a < b {
        lemma_two_pow_monotonic(a, (b - 1) as nat);
    }
}

/// `log2_ceil(n)` brackets `n` between two consecutive powers of two.
pub proof fn lemma_log2_ceil_bounds(n: nat)
    ensures
        n <= two_pow(log2_ceil(n)),
        n > 1 ==> log2_ceil(n) >= 1 && two_pow((log2_ceil(n) - 1) as nat) < n,
    decreases n,
{
    if n > 1 {
        let m = (n + 1) / 2;
        lemma_log2_ceil_bounds(m);
        assert(log2_ceil(n) == 1 + log2_ceil(m));
        if m > 1 {
            assert(two_pow(log2_ceil(m)) == 2 * two_pow((log2_ceil(m) - 1) as nat));
        }
    }
}

/// An exponent that brackets `n` is `log2_ceil(n)`.
pub proof fn lemma_log2_ceil_unique(n: nat, k: nat)
    requires
        n <= two_pow(k),
        k == 0 || two_pow((k - 1) as nat) < n,
    ensures
        log2_ceil(n) == k,
    decreases k,
{
    if k == 0 {
    } else {
        lemma_two_pow_monotonic(0, (k - 1) as nat);
        assert(n > 1);
        let m = (n + 1) / 2;
        if k >= 2 {
            assert(two_pow((k - 1) as nat) == 2 * two_pow((k - 2) as nat));
        }
        lemma_log2_ceil_unique(m, (k - 1) as nat);
    }
}

/// For every `n >= 1` the domain width is a power of two, covers `n`, and
/// half of it does not.
pub proof fn lemma_domain_width_is_least(n: nat)
    requires
        n >= 1,
    ensures
        is_power_of_two(domain_width_of(n)),
        domain_width_of(n) >= n,
        domain_width_of(n) / 2 < n,
{
    lemma_log2_ceil_bounds(n);
    assert(two_pow(log2_ceil(n)) == domain_width_of(n));
}

/// A power of two that covers `n` while its half does not is the domain
/// width of `n`.
pub proof fn lemma_domain_width_unique(n: nat, w: nat)
    requires
        n >= 1,
        is_power_of_two(w),
        w >= n,
        w / 2 < n,
    ensures
        w == domain_width_of(n),
{
    let k = choose|k: nat| two_pow(k) == w;
    if k > 0 {
        assert(two_pow(k) == 2 * two_pow((k - 1) as nat));
    }
    lemma_log2_ceil_unique(n, k);
}

/// The machine word holds exactly the numbers below two to the power of its
/// bit count.
pub proof fn lemma_word_is_power_of_two()
    ensures
        two_pow(usize::BITS as nat) == usize::MAX + 1,
        two_pow((usize::BITS - 1) as nat) == usize::MAX / 2 + 1,
{
    reveal_with_fuel(two_pow, 33);
    assert(two_pow(32) == 0x1_0000_0000);
    assert(two_pow(31) == 0x8000_0000);
    assert(two_pow(64) == 0x1_0000_0000 * two_pow(32));
    assert(two_pow(63) == 0x8000_0000 * two_pow(32));
}

/// The domain width of `n` is a machine-sized integer exactly where
/// `domain_fits(n)` holds.
pub proof fn lemma_domain_fits(n: nat)
    ensures
        domain_fits(n) <==> domain_width_of(n) <= usize::MAX,
{
    let l = log2_ceil(n);
    let top = (usize::BITS - 1) as nat;
    lemma_word_is_power_of_two();
    lemma_log2_ceil_bounds(n);
    if domain_fits(n) {
        if n > 1 && l > top {
            lemma_two_pow_monotonic(top, (l - 1) as nat);
        }
        if l <= top {
            lemma_two_pow_monotonic(l, top);
        }
    }
    if domain_width_of(n) <= usize::MAX {
        if l > top {
            lemma_two_pow_monotonic((top + 1) as nat, l);
        } else {
            lemma_two_pow_monotonic(l, top);
        }
    }
}

/// A power of two is its own domain width.
pub proof fn lemma_power_of_two_is_own_width(w: nat)
    requires
        is_power_of_two(w),
    ensures
        domain_width_of(w) == w,
        two_pow(log2_ceil(w)) == w,
{
    let k = choose|k: nat| two_pow(k) == w;
    if k > 0 {
        assert(two_pow(k) == 2 * two_pow((k - 1) as nat));
        lemma_two_pow_grows((k - 1) as nat);
    }
    lemma_log2_ceil_unique(w, k);
}

/// The least power of two that is at least `n`, with its exponent, or
/// `None` where that power does not fit in a machine word.
pub fn ceil_power_of_two(n: usize) -> (r: Option<(usize, usize)>)
    ensures
        r is Some <==> domain_fits(n as nat),
        match r {
            Some((w, k)) => k == log2_ceil(n as nat) && w == domain_width_of(n as nat),
            None => true,
        },
{
    proof {
        lemma_domain_fits(n as nat);
    }
    let mut w: usize = 1;
    let mut k: usize = 0;
    while w < n
        invariant
            w >= 1,
            w == two_pow(k as nat),
            k == 0 || two_pow((k - 1) as nat) < n,
        decreases (if w < n { n - w } else { 0 }),
    {
        proof {
            lemma_two_pow_grows(k as nat);
        }
        if w > usize::MAX / 2 {
            return None;
        }
        w = w * 2;
        k = k + 1;
    }
    proof {
        lemma_log2_ceil_unique(n as nat, k as nat);
    }
    Some((w, k))
}

/// The width of the evaluation domain for `n` points: `EmptyPointSet` for
/// no points, otherwise the least power of two that is at least `n`.
pub fn domain_width(n: usize) -> (r: Result<usize, SetupError>)
    requires
        domain_fits(n as nat),
    ensures
        n == 0 ==> r == Err::<usize, SetupError>(SetupError::EmptyPointSet),
        n > 0 ==> r == Ok::<usize, SetupError>(domain_width_of(n as nat) as usize),
{
    if n == 0 {
        return Err(SetupError::EmptyPointSet);
    }
    let sized = ceil_power_of_two(n);
    Ok(sized.unwrap().0)
}

} // verus!
