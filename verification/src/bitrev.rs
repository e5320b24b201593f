use vstd::prelude::*;
use crate::domain::{
    ceil_power_of_two,
    is_power_of_two,
    lemma_domain_fits,
    lemma_power_of_two_is_own_width,
    lemma_two_pow_monotonic,
    lemma_word_is_power_of_two,
    log2_ceil,
    two_pow,
};
use crate::error::SetupError;

verus! {

/// The number whose `b`-bit binary form is that of `i` read backwards: the
/// lowest bit of `i` becomes bit `b - 1`, and so on. Bits of `i` above the
/// lowest `b` are ignored.
pub open spec fn reverse_bits(i: nat, b: nat) -> nat
    decreases b,
{
    if b == 0 {
        0
    } else {
        (i % 2) * two_pow((b - 1) as nat) + reverse_bits(i / 2, (b - 1) as nat)
    }
}

pub proof fn lemma_reverse_bits_bound(i: nat, b: nat)
    ensures
        reverse_bits(i, b) < two_pow(b),
    decreases b,
{
    if b > 0 {
        lemma_reverse_bits_bound(i / 2, (b - 1) as nat);
        assert((i % 2) * two_pow((b - 1) as nat) <= two_pow((b - 1) as nat)) by (nonlinear_arith)
            requires
                i % 2 <= 1,
        ;
    }
}

/// Reversing `c * 2^(b-1) + y` moves the top bit `c` to the bottom.
proof fn lemma_reverse_bits_top(c: nat, y: nat, b: nat)
    requires
        b >= 1,
        c <= 1,
        y < two_pow((b - 1) as nat),
    ensures
        reverse_bits(c * two_pow((b - 1) as nat) + y, b) == 2 * reverse_bits(y, (b - 1) as nat) + c,
    decreases b,
{
    let h = two_pow((b - 1) as nat);
    let z = c * h + y;
    if b == 1 {
        assert(h == 1);
        assert(y == 0);
        assert(z == c) by (nonlinear_arith)
            requires
                z == c * h + y,
                h == 1,
                y == 0,
        ;
        assert(reverse_bits(z / 2, 0) == 0);
        assert(reverse_bits(y, 0) == 0);
    } else {
        let q = two_pow((b - 2) as nat);
        assert(h == 2 * q);
        assert(z == 2 * (c * q) + y) by (nonlinear_arith)
            requires
                z == c * h + y,
                h == 2 * q,
        ;
        assert(z % 2 == y % 2);
        assert(z / 2 == c * q + y / 2);
        lemma_reverse_bits_top(c, y / 2, (b - 1) as nat);
        assert(reverse_bits(z / 2, (b - 1) as nat) == 2 * reverse_bits(y / 2, (b - 2) as nat) + c);
        assert(reverse_bits(y, (b - 1) as nat) == (y % 2) * q + reverse_bits(y / 2, (b - 2) as nat));
        assert(reverse_bits(z, b) == (z % 2) * h + reverse_bits(z / 2, (b - 1) as nat));
        assert((y % 2) * h == 2 * ((y % 2) * q)) by (nonlinear_arith)
            requires
                h == 2 * q,
        ;
    }
}

/// Bit reversal over `b` bits undoes itself on every index below `2^b`.
pub proof fn lemma_reverse_bits_involution(i: nat, b: nat)
    requires
        i < two_pow(b),
    ensures
        reverse_bits(reverse_bits(i, b), b) == i,
    decreases b,
{
    if b > 0 {
        let h = two_pow((b - 1) as nat);
        let y = reverse_bits(i / 2, (b - 1) as nat);
        lemma_reverse_bits_bound(i / 2, (b - 1) as nat);
        lemma_reverse_bits_involution(i / 2, (b - 1) as nat);
        lemma_reverse_bits_top(i % 2, y, b);
    }
}

/// Reverses the lowest `bits` bits of `i`.
pub fn reverse_index(i: usize, bits: usize) -> (r: usize)
    requires
        bits < usize::BITS,
    ensures
        r == reverse_bits(i as nat, bits as nat),
{
    proof {
        lemma_word_is_power_of_two();
        lemma_two_pow_monotonic(bits as nat, (usize::BITS - 1) as nat);
    }
    let mut x: usize = i;
    let mut r: usize = 0;
    let mut j: usize = 0;
    while j < bits
        invariant
            j <= bits,
            two_pow(bits as nat) <= usize::MAX,
            r < two_pow(j as nat),
            reverse_bits(i as nat, bits as nat) == r * two_pow((bits - j) as nat) + reverse_bits(
                x as nat,
                (bits - j) as nat,
            ),
        decreases bits - j,
    {
        proof {
            let m = (bits - j) as nat;
            let p = two_pow((m - 1) as nat);
            lemma_two_pow_monotonic((j + 1) as nat, bits as nat);
            assert(two_pow((j + 1) as nat) == 2 * two_pow(j as nat));
            assert(two_pow(m) == 2 * p);
            assert(reverse_bits(x as nat, m) == (x as nat % 2) * p + reverse_bits(
                x as nat / 2,
                (m - 1) as nat,
            ));
            assert((2 * r + x % 2) * p == r * (2 * p) + (x as nat % 2) * p) by (nonlinear_arith);
        }
        r = 2 * r + x % 2;
        x = x / 2;
        j = j + 1;
    }
    proof {
        assert(two_pow(0) == 1);
        assert(reverse_bits(x as nat, 0) == 0);
        assert(r * two_pow(0) == r) by (nonlinear_arith)
            requires
                two_pow(0) == 1,
        ;
    }
    r
}

/// Whether bit reversal over `b` bits keeps every index below `n` below `n`.
pub open spec fn reversal_closed(n: nat, b: nat) -> bool {
    forall|i: nat| i < n ==> #[trigger] reverse_bits(i, b) < n
}

/// Whether `n` items can be put in bit-reversed order over a domain of
/// `width` slots: `width` is a power of two that covers `n`, and the
/// reversal of every index in use is an index in use.
pub open spec fn permutable(n: nat, width: nat) -> bool {
    &&& is_power_of_two(width)
    &&& n <= width
    &&& reversal_closed(n, log2_ceil(width))
}

/// The items of `s` in bit-reversed order over `b` bits: slot `i` holds the
/// item that `s` has at the reversal of `i`.
pub open spec fn bit_reversed<T>(s: Seq<T>, b: nat) -> Seq<T> {
    Seq::new(s.len(), |i: int| s[reverse_bits(i as nat, b) as int])
}

/// A full domain is closed under bit reversal.
pub proof fn lemma_full_domain_closed(b: nat)
    ensures
        reversal_closed(two_pow(b), b),
{
    assert forall|i: nat| i < two_pow(b) implies #[trigger] reverse_bits(i, b) < two_pow(b) by {
        lemma_reverse_bits_bound(i, b);
    }
}

/// Reordering twice over the same bits gives the sequence back, wherever the
/// indices in use are closed under the reversal. Every item of the input is
/// therefore an item of the output, and none occurs more often than before.
pub proof fn lemma_bit_reversed_twice<T>(s: Seq<T>, b: nat)
    requires
        s.len() <= two_pow(b),
        reversal_closed(s.len(), b),
    ensures
        bit_reversed(bit_reversed(s, b), b) == s,
{
    let once = bit_reversed(s, b);
    let twice = bit_reversed(once, b);
    assert forall|i: int| 0 <= i < s.len() implies twice[i] == s[i] by {
        let r = reverse_bits(i as nat, b);
        assert(r < s.len());
        lemma_reverse_bits_involution(i as nat, b);
        assert(twice[i] == once[r as int]);
        assert(once[r as int] == s[reverse_bits(r, b) as int]);
    }
    assert(twice =~= s);
}

/// Where the indices in use are closed under the reversal, it maps them one
/// to one onto themselves: two indices never share a reversal, and every
/// index is the reversal of one in use. The reordered sequence therefore
/// holds each item of the input exactly once.
pub proof fn lemma_reversal_is_bijection(n: nat, b: nat)
    requires
        n <= two_pow(b),
        reversal_closed(n, b),
    ensures
        forall|i: nat, j: nat|
            i < n && j < n && i != j ==> #[trigger] reverse_bits(i, b) != #[trigger] reverse_bits(
                j,
                b,
            ),
        forall|j: nat|
            j < n ==> reverse_bits(j, b) < n && reverse_bits(#[trigger] reverse_bits(j, b), b) == j,
{
    assert forall|j: nat| j < n implies reverse_bits(j, b) < n && reverse_bits(
        #[trigger] reverse_bits(j, b),
        b,
    ) == j by {
        lemma_reverse_bits_involution(j, b);
    }
    assert forall|i: nat, j: nat| i < n && j < n && i != j implies #[trigger] reverse_bits(i, b)
        != #[trigger] reverse_bits(j, b) by {
        lemma_reverse_bits_involution(i, b);
        lemma_reverse_bits_involution(j, b);
    }
}

/// On exactly `2^b` items, bit reversal over `b` bits is an involution.
pub proof fn lemma_bit_reversal_involution<T>(s: Seq<T>, b: nat)
    requires
        s.len() == two_pow(b),
    ensures
        bit_reversed(bit_reversed(s, b), b) == s,
{
    lemma_full_domain_closed(b);
    lemma_bit_reversed_twice(s, b);
}

/// Every count of points is permutable over a width equal to it, where that
/// count is a power of two.
pub proof fn lemma_exact_width_permutable(n: nat)
    requires
        is_power_of_two(n),
    ensures
        permutable(n, n),
{
    lemma_power_of_two_is_own_width(n);
    lemma_full_domain_closed(log2_ceil(n));
}

/// Puts `points` in bit-reversed order over a domain of `width` slots.
/// Fails with `PermutationWidthMismatch` exactly where `width` is no power
/// of two, is less than the number of points, or some index in use has its
/// reversal outside the indices in use.
pub fn bit_reversal_permutation<T: Copy>(points: &Vec<T>, width: usize) -> (r: Result<
    Vec<T>,
    SetupError,
>)
    ensures
        match r {
            Ok(out) => permutable(points@.len(), width as nat) && out@ == bit_reversed(
                points@,
                log2_ceil(width as nat),
            ),
            Err(e) => !permutable(points@.len(), width as nat) && e
                == SetupError::PermutationWidthMismatch,
        },
{
    let n = points.len();
    proof {
        lemma_domain_fits(width as nat);
        if is_power_of_two(width as nat) {
            lemma_power_of_two_is_own_width(width as nat);
        }
    }
    let bits: usize = match ceil_power_of_two(width) {
        Some((w, k)) => {
            if w != width {
                return Err(SetupError::PermutationWidthMismatch);
            }
            k
        },
        None => {
            return Err(SetupError::PermutationWidthMismatch);
        },
    };
    proof {
        lemma_word_is_power_of_two();
        if bits >= usize::BITS {
            lemma_two_pow_monotonic(usize::BITS as nat, bits as nat);
        }
    }
    if n > width {
        return Err(SetupError::PermutationWidthMismatch);
    }
    let mut out: Vec<T> = Vec::new();
    let mut i: usize = 0;
    while i < n
        invariant
            i <= n,
            n == points@.len(),
            bits == log2_ceil(width as nat),
            bits < usize::BITS,
            out@.len() == i,
            forall|j: nat|
                j < i ==> #[trigger] reverse_bits(j, bits as nat) < n && out@[j as int]
                    == points@[reverse_bits(j, bits as nat) as int],
        decreases n - i,
    {
        let r = reverse_index(i, bits);
        if r >= n {
            assert(!(reverse_bits(i as nat, bits as nat) < n));
            return Err(SetupError::PermutationWidthMismatch);
        }
        out.push(points[r]);
        i = i + 1;
    }
    proof {
        assert forall|j: int| 0 <= j < n implies out@[j] == bit_reversed(
            points@,
            bits as nat,
        )[j] by {
            assert(reverse_bits(j as nat, bits as nat) < n);
        }
        assert(out@ =~= bit_reversed(points@, bits as nat));
    }
    Ok(out)
}

} // verus!
