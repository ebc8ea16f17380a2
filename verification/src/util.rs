//! Alignment of unsigned integers against a power of two.
use vstd::prelude::*;
use vstd::arithmetic::div_mod::{lemma_fundamental_div_mod, lemma_fundamental_div_mod_converse};
use vstd::arithmetic::power::{lemma_pow_positive, pow};
use vstd::arithmetic::power2::{
    is_pow2, is_pow2_equiv, is_pow2_exists, lemma2_to64, lemma2_to64_rest,
    lemma_pow2_strictly_increases, pow2,
};
use vstd::bits::{lemma_u64_low_bits_mask_is_mod, lemma_u64_shl_is_mul, low_bits_mask};

verus! {

/// The greatest multiple of `n` that is not above `x`.
pub open spec fn align_down_spec(x: int, n: int) -> int {
    x - x % n
}

/// The least multiple of `n` that is not below `x`.
pub open spec fn align_up_spec(x: int, n: int) -> int {
    if x % n == 0 {
        x
    } else {
        x - x % n + n
    }
}

/// `x` lies on a multiple of `n`.
pub open spec fn is_aligned(x: int, n: int) -> bool {
    x % n == 0
}

/// Rounding down lands on a multiple of `n`, at most `n - 1` below `x`;
/// rounding up lands on the least multiple of `n` that is at least `x`.
pub proof fn lemma_align_bounds(x: int, n: int)
    requires
        0 <= x,
        0 < n,
    ensures
        is_aligned(align_down_spec(x, n), n),
        0 <= align_down_spec(x, n) <= x < align_down_spec(x, n) + n,
        is_aligned(align_up_spec(x, n), n),
        x <= align_up_spec(x, n) < x + n,
        forall|m: int| is_aligned(m, n) && x <= m ==> align_up_spec(x, n) <= m,
        forall|m: int| is_aligned(m, n) && m <= x ==> m <= align_down_spec(x, n),
{
    lemma_fundamental_div_mod(x, n);
    let q = x / n;
    let r = x % n;
    assert(n * q == q * n) by (nonlinear_arith);
    lemma_fundamental_div_mod_converse(x - r, n, q, 0);
    if r != 0 {
        assert((q + 1) * n == n * q + n) by (nonlinear_arith);
        lemma_fundamental_div_mod_converse(x - r + n, n, q + 1, 0);
    }
    assert forall|m: int| is_aligned(m, n) && x <= m implies align_up_spec(x, n) <= m by {
        lemma_fundamental_div_mod(m, n);
        let k = m / n;
        assert(k <= q ==> n * k <= n * q) by (nonlinear_arith)
            requires 0 < n;
        assert(k >= q + 1 ==> n * k >= n * (q + 1)) by (nonlinear_arith)
            requires 0 < n;
    }
    assert forall|m: int| is_aligned(m, n) && m <= x implies m <= align_down_spec(x, n) by {
        lemma_fundamental_div_mod(m, n);
        let k = m / n;
        assert(k >= q + 1 ==> n * k >= n * (q + 1)) by (nonlinear_arith)
            requires 0 < n;
        assert(k <= q ==> n * k <= n * q) by (nonlinear_arith)
            requires 0 < n;
        assert(n * (q + 1) == n * q + n) by (nonlinear_arith);
    }
}

/// Rounding `x + n - 1` down gives the same as rounding `x` up.
pub proof fn lemma_align_up_by_down(x: int, n: int)
    requires
        0 <= x,
        0 < n,
    ensures
        align_down_spec(x + n - 1, n) == align_up_spec(x, n),
{
    lemma_fundamental_div_mod(x, n);
    let q = x / n;
    let r = x % n;
    assert(n * q == q * n) by (nonlinear_arith);
    if r == 0 {
        lemma_fundamental_div_mod_converse(x + n - 1, n, q, n - 1);
    } else {
        assert((q + 1) * n == n * q + n) by (nonlinear_arith);
        lemma_fundamental_div_mod_converse(x + n - 1, n, q + 1, r - 1);
    }
}

/// Each `2^k` is a power of two.
pub proof fn lemma_pow2_is_pow2(k: nat)
    ensures
        is_pow2(pow2(k) as int),
{
    lemma_pow_positive(2, k);
    is_pow2_equiv(pow2(k) as int);
}

/// The alignments that pages use are powers of two.
pub proof fn lemma_page_alignments()
    ensures
        is_pow2(0x1000),
        is_pow2(0x20_0000),
        is_pow2(0x4000_0000),
{
    lemma2_to64();
    lemma_pow2_is_pow2(12);
    lemma_pow2_is_pow2(21);
    lemma_pow2_is_pow2(30);
}

/// A power of two that fits in 64 bits is `2^k` for some `k < 64`.
proof fn lemma_pow2_exponent(n: int) -> (k: nat)
    requires
        is_pow2(n),
        n <= u64::MAX,
    ensures
        k < 64,
        pow2(k) == n,
        low_bits_mask(k) == n - 1,
{
    is_pow2_equiv(n);
    let k = choose|i: nat| pow(2, i) == n;
    lemma_pow_positive(2, k);
    if k >= 64 {
        lemma2_to64_rest();
        if k > 64 {
            lemma_pow2_strictly_increases(64, k);
        }
    }
    k
}

/// A multiple of a power of two is a number whose bits below that power
/// are zero; a power of two has one bit.
pub proof fn lemma_aligned_by_mask(x: u64, n: u64)
    requires
        is_pow2(n as int),
    ensures
        n != 0,
        n & ((n - 1) as u64) == 0,
        (x % n == 0) <==> (x & ((n - 1) as u64) == 0),
{
    let k = lemma_pow2_exponent(n as int);
    lemma_u64_low_bits_mask_is_mod(x, k);
    lemma_u64_shl_is_mul(1, k as u64);
    let shift = k as u64;
    assert((1u64 << shift) & (((1u64 << shift) - 1) as u64) == 0) by (bit_vector)
        requires
            shift < 64,
    ;
}

/// Clearing the bits below a power of two rounds down to its multiple.
proof fn lemma_mask_u64(x: u64, n: u64)
    requires
        is_pow2(n as int),
    ensures
        n >= 1,
        (x & !((n - 1) as u64)) == align_down_spec(x as int, n as int),
{
    let k = lemma_pow2_exponent(n as int);
    lemma_u64_low_bits_mask_is_mod(x, k);
    let m = (n - 1) as u64;
    assert(x & !m == x - (x & m)) by (bit_vector);
}

/// `x` rounded down to a multiple of the power of two `to`.
pub fn align_down_u64(x: u64, to: u64) -> (r: u64)
    requires
        is_pow2(to as int),
    ensures
        r == align_down_spec(x as int, to as int),
{
    proof {
        lemma_mask_u64(x, to);
    }
    x & !(to - 1)
}

/// `x` rounded up to a multiple of the power of two `to`.
pub fn align_up_u64(x: u64, to: u64) -> (r: u64)
    requires
        is_pow2(to as int),
        x + to - 1 <= u64::MAX,
    ensures
        r == align_up_spec(x as int, to as int),
{
    proof {
        lemma_mask_u64(1, to);
        lemma_mask_u64((x + to - 1) as u64, to);
        lemma_align_up_by_down(x as int, to as int);
    }
    let align = to - 1;
    (x + align) & !align
}

/// Trait adding `align_up` and `align_down` methods to numbers.
pub trait Align: Sized + Copy {
    /// The number itself.
    spec fn number(self) -> nat;

    /// The largest number of the type.
    spec fn largest() -> nat;

    /// The least multiple of the power of two `to` that is not below the
    /// number.
    fn align_up(&self, to: Self) -> (r: Self)
        requires
            is_pow2(to.number() as int),
            self.number() + to.number() - 1 <= Self::largest(),
        ensures
            r.number() == align_up_spec(self.number() as int, to.number() as int),
    ;

    /// The greatest multiple of the power of two `to` that is not above the
    /// number.
    fn align_down(&self, to: Self) -> (r: Self)
        requires
            is_pow2(to.number() as int),
        ensures
            r.number() == align_down_spec(self.number() as int, to.number() as int),
    ;
}

/// A power of two is positive.
pub proof fn lemma_pow2_positive(n: int)
    requires
        is_pow2(n),
    ensures
        n > 0,
{
    reveal(is_pow2);
}

impl Align for u8 {
    open spec fn number(self) -> nat {
        self as nat
    }

    open spec fn largest() -> nat {
        u8::MAX as nat
    }

    fn align_up(&self, to: Self) -> (r: Self) {
        proof {
            lemma_pow2_positive(to as int);
            lemma_align_bounds(*self as int, to as int);
        }
        align_up_u64(*self as u64, to as u64) as u8
    }

    fn align_down(&self, to: Self) -> (r: Self) {
        proof {
            lemma_pow2_positive(to as int);
            lemma_align_bounds(*self as int, to as int);
        }
        align_down_u64(*self as u64, to as u64) as u8
    }
}

impl Align for u16 {
    open spec fn number(self) -> nat {
        self as nat
    }

    open spec fn largest() -> nat {
        u16::MAX as nat
    }

    fn align_up(&self, to: Self) -> (r: Self) {
        proof {
            lemma_pow2_positive(to as int);
            lemma_align_bounds(*self as int, to as int);
        }
        align_up_u64(*self as u64, to as u64) as u16
    }

    fn align_down(&self, to: Self) -> (r: Self) {
        proof {
            lemma_pow2_positive(to as int);
            lemma_align_bounds(*self as int, to as int);
        }
        align_down_u64(*self as u64, to as u64) as u16
    }
}

impl Align for u32 {
    open spec fn number(self) -> nat {
        self as nat
    }

    open spec fn largest() -> nat {
        u32::MAX as nat
    }

    fn align_up(&self, to: Self) -> (r: Self) {
        proof {
            lemma_pow2_positive(to as int);
            lemma_align_bounds(*self as int, to as int);
        }
        align_up_u64(*self as u64, to as u64) as u32
    }

    fn align_down(&self, to: Self) -> (r: Self) {
        proof {
            lemma_pow2_positive(to as int);
            lemma_align_bounds(*self as int, to as int);
        }
        align_down_u64(*self as u64, to as u64) as u32
    }
}

impl Align for u64 {
    open spec fn number(self) -> nat {
        self as nat
    }

    open spec fn largest() -> nat {
        u64::MAX as nat
    }

    fn align_up(&self, to: Self) -> (r: Self) {
        proof {
            lemma_pow2_positive(to as int);
            lemma_align_bounds(*self as int, to as int);
        }
        align_up_u64(*self, to)
    }

    fn align_down(&self, to: Self) -> (r: Self) {
        proof {
            lemma_pow2_positive(to as int);
            lemma_align_bounds(*self as int, to as int);
        }
        align_down_u64(*self, to)
    }
}

impl Align for usize {
    open spec fn number(self) -> nat {
        self as nat
    }

    open spec fn largest() -> nat {
        usize::MAX as nat
    }

    fn align_up(&self, to: Self) -> (r: Self) {
        proof {
            lemma_pow2_positive(to as int);
            lemma_align_bounds(*self as int, to as int);
        }
        align_up_u64(*self as u64, to as u64) as usize
    }

    fn align_down(&self, to: Self) -> (r: Self) {
        proof {
            lemma_pow2_positive(to as int);
            lemma_align_bounds(*self as int, to as int);
        }
        align_down_u64(*self as u64, to as u64) as usize
    }
}

} // verus!
