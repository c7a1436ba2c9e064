use vstd::prelude::*;

verus! {

/// The absolute value of `x`.
pub open spec fn abs_spec(x: int) -> int {
    if x >= 0 { x } else { -x }
}

/// `x` with its sign flipped where the signs of `x` and `y` disagree (zero agrees with both).
pub open spec fn copysign_spec(x: int, y: int) -> int {
    if (x >= 0 && y >= 0) || (x <= 0 && y <= 0) { x } else { -x }
}

/// `y0` plus the products of the first `n` pairs of `x` and `a`.
pub open spec fn macc_spec(y0: int, x: Seq<i32>, a: Seq<i32>, n: nat) -> int
    decreases n,
{
    if n == 0 {
        y0
    } else {
        macc_spec(y0, x, a, (n - 1) as nat) + x[n - 1] as int * a[n - 1] as int
    }
}

/// The number of pairs that `x` and `a` have together.
pub open spec fn pairs(x: Seq<i32>, a: Seq<i32>) -> nat {
    if x.len() <= a.len() { x.len() } else { a.len() }
}

/// Every running sum of a multiply-accumulate over the pairs of `x` and `a` fits in an `i32`.
pub open spec fn macc_fits(y0: int, x: Seq<i32>, a: Seq<i32>) -> bool {
    forall|k: nat| k <= pairs(x, a) ==> i32::MIN <= #[trigger] macc_spec(y0, x, a, k) <= i32::MAX
}

/// Absolute value; `i32::MIN` has none and is excluded.
pub fn abs(x: i32) -> (r: i32)
    requires
        x != i32::MIN,
    ensures
        r as int == abs_spec(x as int),
{
    if x >= 0 {
        x
    } else {
        -x
    }
}

/// `x` with the sign of `y` (zero counts as either sign).
pub fn copysign(x: i32, y: i32) -> (r: i32)
    requires
        x != i32::MIN,
    ensures
        r as int == copysign_spec(x as int, y as int),
{
    if (x >= 0 && y >= 0) || (x <= 0 && y <= 0) {
        x
    } else {
        -x
    }
}

/// The larger of `x` and `y`.
pub fn max(x: i32, y: i32) -> (r: i32)
    ensures
        r >= x && r >= y,
        r == x || r == y,
{
    if x > y {
        x
    } else {
        y
    }
}

/// The smaller of `x` and `y`.
pub fn min(x: i32, y: i32) -> (r: i32)
    ensures
        r <= x && r <= y,
        r == x || r == y,
{
    if x < y {
        x
    } else {
        y
    }
}

/// Multiply-accumulate (dot product) of `x` and `a` onto `y0`, over the pairs they share.
pub fn macc(y0: i32, x: &[i32], a: &[i32]) -> (r: i32)
    requires
        macc_fits(y0 as int, x@, a@),
    ensures
        r as int == macc_spec(y0 as int, x@, a@, pairs(x@, a@)),
{
    let n: usize = if x.len() <= a.len() { x.len() } else { a.len() };
    let mut y: i32 = y0;
    let mut i: usize = 0;
    while i < n
        invariant
            n == pairs(x@, a@),
            i <= n,
            macc_fits(y0 as int, x@, a@),
            y as int == macc_spec(y0 as int, x@, a@, i as nat),
        decreases n - i,
    {
        assert(i32::MIN <= macc_spec(y0 as int, x@, a@, (i + 1) as nat) <= i32::MAX);
        let p: i64 = x[i] as i64 * a[i] as i64;
        let s: i64 = y as i64 + p;
        y = s as i32;
        i = i + 1;
    }
    y
}

/// Combine high and low `i32` into a single downscaled `i32`, saturating the type.
///
/// `hi >> shift` below -1 saturates to `i32::MIN`, above 0 to `i32::MAX`; otherwise the
/// result is `(lo >> shift) + (hi << (31 - shift))`, which must fit.
pub fn saturating_scale(lo: i32, hi: i32, shift: u32) -> (r: i32)
    requires
        shift < 32,
        (hi >> shift) < -1 || (hi >> shift) > 0
            || i32::MIN <= (lo >> shift) as int + (hi << (31 - shift) as u32) as int <= i32::MAX,
    ensures
        (hi >> shift) < -1 ==> r == i32::MIN,
        (hi >> shift) > 0 ==> r == i32::MAX,
        -1 <= (hi >> shift) <= 0 ==> r as int == (lo >> shift) as int + (hi << (31 - shift) as u32) as int,
{
    let shift_hi: u32 = 31 - shift;
    let over: i32 = hi >> shift;
    if over < -1 {
        i32::MIN
    } else if over > 0 {
        i32::MAX
    } else {
        (lo >> shift) + (hi << shift_hi)
    }
}

} // verus!
