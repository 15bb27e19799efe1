//! Operation identifiers and the divisor search used for tiling.

use vstd::prelude::*;

verus! {

/// A sequence of machine words as mathematical integers.
pub open spec fn as_ints(s: Seq<usize>) -> Seq<int> {
    s.map_values(|n: usize| n as int)
}

/// Issues operation identifiers: 0 first, then 1, 2, ... in call order.
pub struct Tik {
    val: usize,
}

impl View for Tik {
    type V = nat;

    /// The identifier that the next call of `tik` hands out.
    closed spec fn view(&self) -> nat {
        self.val as nat
    }
}

impl Tik {
    pub fn new() -> (t: Tik)
        ensures
            t@ == 0,
    {
        Tik { val: 0 }
    }

    /// Hands out the current identifier and advances by one.
    pub fn tik(&mut self) -> (cur: usize)
        requires
            old(self)@ < usize::MAX,
        ensures
            cur == old(self)@,
            final(self)@ == old(self)@ + 1,
    {
        let cur = self.val;
        self.val += 1;
        cur
    }

    /// The identifier that the next call of `tik` hands out.
    pub fn peek(&self) -> (next: usize)
        ensures
            next == self@,
    {
        self.val
    }

    /// Returns the generator to its initial state.
    pub fn init(&mut self)
        ensures
            final(self)@ == 0,
    {
        self.val = 0;
    }
}

/// Whether `d` is a positive divisor of `value`.
pub open spec fn divides(d: int, value: int) -> bool {
    1 <= d && value % d == 0
}

/// The largest divisor of `value` that is at most `target`.
pub open spec fn divisor_below(value: int, target: int) -> int
    decreases target,
{
    if target <= 1 {
        1
    } else if value % target == 0 {
        target
    } else {
        divisor_below(value, target - 1)
    }
}

/// The smallest divisor of `value` that is at least `target`.
pub open spec fn divisor_above(value: int, target: int) -> int
    decreases value - target,
{
    if target >= value {
        value
    } else if target >= 1 && value % target == 0 {
        target
    } else {
        divisor_above(value, target + 1)
    }
}

/// The divisor of `value` nearest to `target`; of two equally near, the
/// lower.
pub open spec fn nearest_divisor(value: int, target: int) -> int {
    let low = divisor_below(value, target);
    let high = divisor_above(value, target);
    if target - low <= high - target {
        low
    } else {
        high
    }
}

/// Every positive number divides itself.
pub proof fn lemma_self_divides(value: int)
    requires
        1 <= value,
    ensures
        divides(value, value),
{
    assert(value % value == 0) by (nonlinear_arith)
        requires
            1 <= value,
    ;
}

/// `divisor_below` is a divisor within `1..=target`, and no larger number
/// up to `target` divides `value`.
pub proof fn lemma_divisor_below(value: int, target: int)
    requires
        1 <= target,
    ensures
        1 <= divisor_below(value, target) <= target,
        divides(divisor_below(value, target), value),
        forall|d: int| divisor_below(value, target) < d <= target ==> !#[trigger] divides(d, value),
    decreases target,
{
    if target > 1 && value % target != 0 {
        lemma_divisor_below(value, target - 1);
    }
}

/// `divisor_above` is a divisor within `target..=value`, and no smaller
/// number from `target` on divides `value`.
pub proof fn lemma_divisor_above(value: int, target: int)
    requires
        1 <= target <= value,
    ensures
        target <= divisor_above(value, target) <= value,
        divides(divisor_above(value, target), value),
        forall|d: int| target <= d < divisor_above(value, target) ==> !#[trigger] divides(d, value),
    decreases value - target,
{
    if target < value && value % target != 0 {
        lemma_divisor_above(value, target + 1);
    } else if target >= value {
        lemma_self_divides(value);
    }
}

/// Whatever the target, the nearest divisor divides `value` and lies
/// within `1..=value`.
pub proof fn lemma_nearest_divisor_divides(value: int, target: int)
    requires
        1 <= target <= value,
    ensures
        1 <= nearest_divisor(value, target) <= value,
        divides(nearest_divisor(value, target), value),
{
    lemma_divisor_below(value, target);
    lemma_divisor_above(value, target);
}

/// How far `a` is from `b`.
pub open spec fn distance(a: int, b: int) -> int {
    if a >= b {
        a - b
    } else {
        b - a
    }
}

/// No divisor of `value` is nearer to `target` than the nearest divisor,
/// and none that is as near is smaller.
pub proof fn lemma_nearest_divisor_is_nearest(value: int, target: int, d: int)
    requires
        1 <= target <= value,
        divides(d, value),
    ensures
        distance(nearest_divisor(value, target), target) <= distance(d, target),
        distance(nearest_divisor(value, target), target) == distance(d, target)
            ==> nearest_divisor(value, target) <= d,
{
    lemma_divisor_below(value, target);
    lemma_divisor_above(value, target);
    if d > value {
        // A divisor never exceeds a positive value.
        assert(value % d == value) by (nonlinear_arith)
            requires
                0 < value < d,
        ;
    }
}

/// The divisor of `value` nearest to `factor`: the largest divisor not
/// above `factor` or the smallest not below it, whichever is nearer, and
/// the lower of the two when both are equally near.
pub fn closest_factor(value: usize, factor: usize) -> (r: usize)
    requires
        1 <= factor <= value,
    ensures
        r == nearest_divisor(value as int, factor as int),
        1 <= r <= value,
        value % r == 0,
{
    let mut low = factor;
    while value % low != 0
        invariant
            1 <= low <= factor,
            divisor_below(value as int, low as int) == divisor_below(value as int, factor as int),
        decreases low,
    {
        low -= 1;
    }
    let mut high = factor;
    while value % high != 0
        invariant
            factor <= high <= value,
            1 <= factor,
            divisor_above(value as int, high as int) == divisor_above(value as int, factor as int),
        decreases value - high,
    {
        proof {
            lemma_self_divides(value as int);
        }
        high += 1;
    }
    proof {
        lemma_divisor_above(value as int, high as int);
    }
    if factor - low <= high - factor {
        low
    } else {
        high
    }
}

/// Whether `r` is the whole number nearest to the square root of `n`.
pub open spec fn is_rounded_sqrt(n: int, r: int) -> bool {
    0 <= r && r * (r - 1) < n <= r * (r + 1)
}

/// The whole number nearest to the square root of `n`, for `n >= 1`.
pub open spec fn rounded_sqrt_of(n: int) -> int {
    choose|r: int| is_rounded_sqrt(n, r)
}

/// At most one number is the rounded square root of `n`.
pub proof fn lemma_rounded_sqrt_unique(n: int, r1: int, r2: int)
    requires
        is_rounded_sqrt(n, r1),
        is_rounded_sqrt(n, r2),
    ensures
        r1 == r2,
{
    if r1 < r2 {
        assert(r1 * (r1 + 1) <= r2 * (r2 - 1)) by (nonlinear_arith)
            requires
                0 <= r1,
                r1 + 1 <= r2,
        ;
    } else if r2 < r1 {
        assert(r2 * (r2 + 1) <= r1 * (r1 - 1)) by (nonlinear_arith)
            requires
                0 <= r2,
                r2 + 1 <= r1,
        ;
    }
}

/// The rounded square root of a positive number lies within `1..=n`.
pub proof fn lemma_rounded_sqrt_range(n: int, r: int)
    requires
        1 <= n,
        is_rounded_sqrt(n, r),
    ensures
        1 <= r <= n,
{
    if r > n {
        assert(r * (r - 1) >= n) by (nonlinear_arith)
            requires
                r >= n + 1,
                n >= 1,
        ;
    }
    if r == 0 {
        assert(r * (r + 1) == 0) by (nonlinear_arith)
            requires
                r == 0,
        ;
    }
}

/// Whether `r * (r + 1) < n`, computed without overflow.
fn fits_below(r: usize, n: usize) -> (b: bool)
    ensures
        b == (r * (r + 1) < n),
{
    assert(r * (r + 1) <= 0xffff_ffff_ffff_ffff * 0x1_0000_0000_0000_0000) by (nonlinear_arith)
        requires
            0 <= r <= 0xffff_ffff_ffff_ffff,
    ;
    (r as u128) * (r as u128 + 1) < n as u128
}

/// The whole number nearest to the square root of `n`.
pub fn rounded_sqrt(n: usize) -> (r: usize)
    requires
        1 <= n,
    ensures
        is_rounded_sqrt(n as int, r as int),
        r == rounded_sqrt_of(n as int),
        1 <= r <= n,
{
    let mut r: usize = 1;
    assert(r * (r - 1) == 0) by (nonlinear_arith)
        requires
            r == 1,
    ;
    while fits_below(r, n)
        invariant
            1 <= r <= n,
            r * (r - 1) < n,
        decreases n - r,
    {
        assert(r < n) by (nonlinear_arith)
            requires
                r * (r + 1) < n,
                r >= 1,
        ;
        assert((r + 1) * ((r + 1) - 1) == r * (r + 1)) by (nonlinear_arith);
        r += 1;
    }
    proof {
        assert(is_rounded_sqrt(n as int, r as int));
        lemma_rounded_sqrt_unique(n as int, r as int, rounded_sqrt_of(n as int));
    }
    r
}

} // verus!
