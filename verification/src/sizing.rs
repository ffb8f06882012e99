//! Size specifications and the sizing resolver.
//!
//! A [`Size`] describes the extent of one row or cell along one axis. The
//! resolver ([`Sizing::to_lengths`]) turns an ordered list of sizes plus a
//! total length and an inter-element spacing into concrete lengths, one per
//! input, distributing the space left over by absolute and relative sizes
//! evenly among the remainder sizes (with a single adjustment pass for
//! remainders whose minimum exceeds the first-pass average).

use vstd::prelude::*;

verus! {

/// Bound on every stored size scalar (absolute lengths, range endpoints,
/// margins, spacing). Keeps all resolver arithmetic far away from `i64`
/// overflow while leaving room for any realistic screen geometry.
pub const LEN_LIMIT: i64 = 0x100_0000;

/// Bound on the width and height of a bounding rectangle handed to the
/// resolver or the flattener. A cell rectangle grown by two margins stays
/// within this bound, so nested grids satisfy it automatically.
pub const DIM_LIMIT: i64 = 3 * LEN_LIMIT;

/// Bound on the number of rows in a grid and cells in a row.
pub const COUNT_LIMIT: usize = 0x1_0000;

/// Sizing rule for one row or cell along one axis.
#[derive(Clone, Copy, PartialEq, Eq, Structural, Debug)]
pub enum Size {
    /// A fixed length, independent of the total length and spacing.
    Absolute { initial: i64 },
    /// `num/den` of the total length, clamped to `[min, max]`.
    /// The fraction must lie in `[0, 1]`, i.e. `num <= den`.
    Relative { num: u32, den: u32, min: i64, max: i64 },
    /// An even share of the space left over once absolute and relative
    /// sizes and spacing are paid for, clamped to `[min, max]`.
    Remainder { min: i64, max: i64 },
}

impl Size {
    /// Scalars bounded and ranges ordered; fractions lie in `[0, 1]`.
    pub open spec fn wf(self) -> bool {
        match self {
            Size::Absolute { initial } => -LEN_LIMIT <= initial <= LEN_LIMIT,
            Size::Relative { num, den, min, max } =>
                1 <= den && num <= den && -LEN_LIMIT <= min <= max <= LEN_LIMIT,
            Size::Remainder { min, max } => -LEN_LIMIT <= min <= max <= LEN_LIMIT,
        }
    }

    /// Exactly `initial` units, whatever the total length.
    pub fn exact(initial: i64) -> (s: Size)
        requires
            -LEN_LIMIT <= initial <= LEN_LIMIT,
        ensures
            s == (Size::Absolute { initial }),
            s.wf(),
    {
        Size::Absolute { initial }
    }

    /// An even share of the leftover space, unconstrained.
    pub fn remainder() -> (s: Size)
        ensures
            s == (Size::Remainder { min: 0, max: LEN_LIMIT }),
            s.wf(),
    {
        Size::Remainder { min: 0, max: LEN_LIMIT }
    }

    /// An even share of the leftover space, clamped to `[min, max]`.
    pub fn remainder_range(min: i64, max: i64) -> (s: Size)
        requires
            -LEN_LIMIT <= min <= max <= LEN_LIMIT,
        ensures
            s == (Size::Remainder { min, max }),
            s.wf(),
    {
        Size::Remainder { min, max }
    }

    /// `num/den` of the total length, unconstrained.
    pub fn relative(num: u32, den: u32) -> (s: Size)
        requires
            1 <= den,
            num <= den,
        ensures
            s == (Size::Relative { num, den, min: ((-LEN_LIMIT) as i64), max: LEN_LIMIT }),
            s.wf(),
    {
        Size::Relative { num, den, min: -LEN_LIMIT, max: LEN_LIMIT }
    }
}

/// `x` clamped to `[lo, hi]` (callers keep `lo <= hi`).
pub open spec fn clamp_spec(x: int, lo: int, hi: int) -> int {
    if x < lo {
        lo
    } else if x > hi {
        hi
    } else {
        x
    }
}

/// `num/den` of `total`, rounded toward zero.
pub open spec fn frac_len(total: int, num: int, den: int) -> int {
    if total >= 0 {
        (total * num) / den
    } else {
        -(((-total) * num) / den)
    }
}

/// `x / d` floored, but never below zero.
pub open spec fn nonneg_div(x: int, d: int) -> int {
    if x <= 0 {
        0
    } else {
        x / d
    }
}

/// What one size contributes to the fixed (non-remainder) sum.
pub open spec fn fixed_part(s: Size, total: int) -> int {
    match s {
        Size::Absolute { initial } => initial as int,
        Size::Relative { num, den, min, max } =>
            clamp_spec(frac_len(total, num as int, den as int), min as int, max as int),
        Size::Remainder { .. } => 0,
    }
}

/// Sum of the fixed contributions of all sizes.
pub open spec fn sum_fixed(sizes: Seq<Size>, total: int) -> int
    decreases sizes.len(),
{
    if sizes.len() == 0 {
        0
    } else {
        sum_fixed(sizes.drop_last(), total) + fixed_part(sizes.last(), total)
    }
}

/// 1 for a remainder size, 0 otherwise.
pub open spec fn rem_one(s: Size) -> int {
    if s is Remainder {
        1
    } else {
        0
    }
}

/// Number of remainder sizes.
pub open spec fn count_remainders(sizes: Seq<Size>) -> int
    decreases sizes.len(),
{
    if sizes.len() == 0 {
        0
    } else {
        count_remainders(sizes.drop_last()) + rem_one(sizes.last())
    }
}

/// 1 for a remainder size whose minimum exceeds `avg`, 0 otherwise.
pub open spec fn deficit_one(s: Size, avg: int) -> int {
    match s {
        Size::Remainder { min, .. } => if avg < min {
            1int
        } else {
            0int
        },
        _ => 0,
    }
}

/// The minimum of a remainder size whose minimum exceeds `avg`, else 0.
pub open spec fn deficit_min(s: Size, avg: int) -> int {
    match s {
        Size::Remainder { min, .. } => if avg < min {
            min as int
        } else {
            0int
        },
        _ => 0,
    }
}

/// Number of remainder sizes whose minimum exceeds `avg`.
pub open spec fn deficit_count(sizes: Seq<Size>, avg: int) -> int
    decreases sizes.len(),
{
    if sizes.len() == 0 {
        0
    } else {
        deficit_count(sizes.drop_last(), avg) + deficit_one(sizes.last(), avg)
    }
}

/// Sum of the minimums of remainder sizes whose minimum exceeds `avg`.
pub open spec fn deficit_min_sum(sizes: Seq<Size>, avg: int) -> int
    decreases sizes.len(),
{
    if sizes.len() == 0 {
        0
    } else {
        deficit_min_sum(sizes.drop_last(), avg) + deficit_min(sizes.last(), avg)
    }
}

/// The length every remainder size is clamped from: leftover space divided
/// evenly among the remainder sizes, after one adjustment pass that sets
/// aside the minimums of remainders whose minimum exceeds the first-pass
/// average.
pub open spec fn remainder_avg(sizes: Seq<Size>, total: int, spacing: int) -> int {
    let rem = count_remainders(sizes);
    if rem == 0 {
        0
    } else {
        let avail = total - (sum_fixed(sizes, total) + spacing * (sizes.len() - 1));
        let avg0 = nonneg_div(avail, rem);
        let rem2 = rem - deficit_count(sizes, avg0);
        if rem2 > 0 {
            nonneg_div(avail - deficit_min_sum(sizes, avg0), rem2)
        } else {
            0
        }
    }
}

/// The concrete length of one size, given the total length and the
/// remainder average for its list.
pub open spec fn resolved_len(s: Size, total: int, avg: int) -> int {
    match s {
        Size::Absolute { initial } => initial as int,
        Size::Relative { num, den, min, max } =>
            clamp_spec(frac_len(total, num as int, den as int), min as int, max as int),
        Size::Remainder { min, max } => clamp_spec(avg, min as int, max as int),
    }
}

/// The full resolution of a size list: one concrete length per input size.
pub open spec fn resolved_lengths(sizes: Seq<Size>, total: int, spacing: int) -> Seq<int> {
    Seq::new(sizes.len(), |i: int| resolved_len(sizes[i], total, remainder_avg(sizes, total, spacing)))
}

/// An absolute size always resolves to exactly its own length, whatever the
/// total length, spacing and leftover space.
pub proof fn lemma_absolute_fidelity(initial: i64, total: int, avg: int)
    ensures
        resolved_len(Size::Absolute { initial }, total, avg) == initial,
{
}

/// A relative or remainder size always resolves to a length inside its
/// `[min, max]` range.
pub proof fn lemma_range_clamp(s: Size, total: int, avg: int)
    requires
        s.wf(),
        !(s is Absolute),
    ensures
        match s {
            Size::Absolute { .. } => true,
            Size::Relative { min, max, .. } => min <= resolved_len(s, total, avg) <= max,
            Size::Remainder { min, max } => min <= resolved_len(s, total, avg) <= max,
        },
{
}

/// `x` clamped to `[lo, hi]`.
pub fn clamp_i64(x: i64, lo: i64, hi: i64) -> (r: i64)
    requires
        lo <= hi,
    ensures
        r as int == clamp_spec(x as int, lo as int, hi as int),
        lo <= r <= hi,
{
    if x < lo {
        lo
    } else if x > hi {
        hi
    } else {
        x
    }
}

/// `num/den` of `total`, rounded toward zero.
fn mul_frac(total: i64, num: u32, den: u32) -> (r: i64)
    requires
        1 <= den,
        -DIM_LIMIT <= total <= DIM_LIMIT,
    ensures
        r as int == frac_len(total as int, num as int, den as int),
{
    if total >= 0 {
        let t: u64 = total as u64;
        let m: u64 = num as u64;
        proof {
            assert((t as int) * (m as int) <= (DIM_LIMIT as int) * 0xffff_ffff) by (nonlinear_arith)
                requires
                    0 <= t as int <= DIM_LIMIT as int,
                    0 <= m as int <= 0xffff_ffff,
            ;
        }
        let p: u64 = t * m;
        proof {
            assert((p as int) / (den as int) <= p as int) by (nonlinear_arith)
                requires
                    1 <= den as int,
                    0 <= p as int,
            ;
        }
        (p / (den as u64)) as i64
    } else {
        let t: u64 = (-total) as u64;
        let m: u64 = num as u64;
        proof {
            assert((t as int) * (m as int) <= (DIM_LIMIT as int) * 0xffff_ffff) by (nonlinear_arith)
                requires
                    0 <= t as int <= DIM_LIMIT as int,
                    0 <= m as int <= 0xffff_ffff,
            ;
        }
        let p: u64 = t * m;
        proof {
            assert((p as int) / (den as int) <= p as int) by (nonlinear_arith)
                requires
                    1 <= den as int,
                    0 <= p as int,
            ;
        }
        -((p / (den as u64)) as i64)
    }
}

/// An ordered list of sizes, resolved in one call per axis.
#[derive(Clone, Default)]
pub struct Sizing {
    pub sizes: Vec<Size>,
}

impl Sizing {
    /// Every stored size is well formed and the list is short enough for
    /// the resolver's arithmetic.
    pub open spec fn wf(self) -> bool {
        &&& forall|i: int| 0 <= i < self.sizes@.len() ==> (#[trigger] self.sizes@[i]).wf()
        &&& self.sizes@.len() <= COUNT_LIMIT
    }

    /// Append one size to the list.
    pub fn add(&mut self, size: Size)
        requires
            old(self).sizes@.len() < COUNT_LIMIT,
        ensures
            final(self).sizes@ == old(self).sizes@.push(size),
    {
        self.sizes.push(size);
    }

    /// Resolve the list against a total length and an inter-element
    /// spacing: one concrete length per size, empty in, empty out.
    pub fn to_lengths(&self, length: i64, spacing: i64) -> (r: Vec<i64>)
        requires
            self.wf(),
            -DIM_LIMIT <= length <= DIM_LIMIT,
            -LEN_LIMIT <= spacing <= LEN_LIMIT,
        ensures
            r@.len() == self.sizes@.len(),
            forall|i: int| 0 <= i < r@.len() ==> r@[i] as int == resolved_lengths(
                self.sizes@,
                length as int,
                spacing as int,
            )[i],
            forall|i: int| 0 <= i < r@.len() ==> -LEN_LIMIT <= #[trigger] r@[i] <= LEN_LIMIT,
    {
        let ghost gsizes = self.sizes@;
        let ghost gtotal = length as int;
        let n = self.sizes.len();
        if n == 0 {
            let r: Vec<i64> = Vec::new();
            assert(resolved_lengths(gsizes, gtotal, spacing as int).len() == 0);
            return r;
        }

        // First pass: sum the fixed contributions and count the remainders.
        let mut fixed: i64 = 0;
        let mut remainders: usize = 0;
        let mut i: usize = 0;
        while i < n
            invariant
                self.wf(),
                gsizes == self.sizes@,
                gtotal == length as int,
                -DIM_LIMIT <= length <= DIM_LIMIT,
                n == gsizes.len(),
                0 <= i <= n,
                fixed as int == sum_fixed(gsizes.take(i as int), gtotal),
                remainders as int == count_remainders(gsizes.take(i as int)),
                remainders <= i,
                -(i as int) * (LEN_LIMIT as int) <= fixed as int <= (i as int) * (LEN_LIMIT as int),
            decreases n - i,
        {
            let ghost prefix = gsizes.take(i as int);
            let s = self.sizes[i];
            proof {
                assert(gsizes.take(i as int + 1).drop_last() =~= prefix);
                assert(gsizes.take(i as int + 1).last() == s);
            }
            match s {
                Size::Absolute { initial } => {
                    fixed = fixed + initial;
                },
                Size::Relative { num, den, min, max } => {
                    let f = mul_frac(length, num, den);
                    let c = clamp_i64(f, min, max);
                    fixed = fixed + c;
                },
                Size::Remainder { .. } => {
                    remainders = remainders + 1;
                },
            }
            i = i + 1;
        }
        proof {
            assert(gsizes.take(n as int) =~= gsizes);
        }

        // Remainder average, with one adjustment pass for remainders whose
        // minimum exceeds the first-pass average.
        let ghost gavg = remainder_avg(gsizes, gtotal, spacing as int);
        let avg: i64;
        if remainders == 0 {
            avg = 0;
        } else {
            proof {
                assert(-(LEN_LIMIT as int) * (COUNT_LIMIT as int)
                    <= (spacing as int) * (((n - 1) as i64) as int)
                    <= (LEN_LIMIT as int) * (COUNT_LIMIT as int)) by (nonlinear_arith)
                    requires
                        -(LEN_LIMIT as int) <= spacing as int <= LEN_LIMIT as int,
                        0 <= ((n - 1) as i64) as int <= COUNT_LIMIT as int,
                ;
            }
            let fixed_all: i64 = fixed + spacing * ((n - 1) as i64);
            let avail: i64 = length - fixed_all;
            let avg0: i64 = if avail <= 0 {
                0
            } else {
                proof {
                    assert((avail as int) / (remainders as int) <= avail as int) by (nonlinear_arith)
                        requires
                            1 <= remainders as int,
                            0 <= avail as int,
                    ;
                }
                ((avail as u64) / (remainders as u64)) as i64
            };
            assert(avg0 as int == nonneg_div(
                gtotal - (sum_fixed(gsizes, gtotal) + (spacing as int) * (gsizes.len() - 1)),
                count_remainders(gsizes),
            ));

            let mut dcount: usize = 0;
            let mut dsum: i64 = 0;
            let mut j: usize = 0;
            while j < n
                invariant
                    self.wf(),
                    gsizes == self.sizes@,
                    n == gsizes.len(),
                    0 <= j <= n,
                    dcount as int == deficit_count(gsizes.take(j as int), avg0 as int),
                    dsum as int == deficit_min_sum(gsizes.take(j as int), avg0 as int),
                    dcount as int <= count_remainders(gsizes.take(j as int)),
                    count_remainders(gsizes.take(j as int)) <= j,
                    -(j as int) * (LEN_LIMIT as int) <= dsum as int <= (j as int) * (LEN_LIMIT as int),
                decreases n - j,
            {
                let ghost prefix = gsizes.take(j as int);
                let s = self.sizes[j];
                proof {
                    assert(gsizes.take(j as int + 1).drop_last() =~= prefix);
                    assert(gsizes.take(j as int + 1).last() == s);
                }
                match s {
                    Size::Remainder { min, .. } => {
                        if avg0 < min {
                            dcount = dcount + 1;
                            dsum = dsum + min;
                        }
                    },
                    _ => {},
                }
                j = j + 1;
            }
            proof {
                assert(gsizes.take(n as int) =~= gsizes);
            }

            if remainders - dcount > 0 {
                let rem2 = remainders - dcount;
                let avail2: i64 = avail - dsum;
                avg = if avail2 <= 0 {
                    0
                } else {
                    proof {
                        assert((avail2 as int) / (rem2 as int) <= avail2 as int) by (nonlinear_arith)
                            requires
                                1 <= rem2 as int,
                                0 <= avail2 as int,
                        ;
                    }
                    ((avail2 as u64) / (rem2 as u64)) as i64
                };
            } else {
                avg = 0;
            }
        }
        assert(avg as int == gavg);

        // Final pass: resolve every size in its original order.
        let mut r: Vec<i64> = Vec::new();
        let mut k: usize = 0;
        while k < n
            invariant
                self.wf(),
                gsizes == self.sizes@,
                gtotal == length as int,
                -DIM_LIMIT <= length <= DIM_LIMIT,
                n == gsizes.len(),
                0 <= k <= n,
                avg as int == gavg,
                r@.len() == k,
                forall|m: int| 0 <= m < k ==> r@[m] as int == resolved_len(gsizes[m], gtotal, gavg),
                forall|m: int| 0 <= m < k ==> -LEN_LIMIT <= #[trigger] r@[m] <= LEN_LIMIT,
            decreases n - k,
        {
            let s = self.sizes[k];
            let v: i64 = match s {
                Size::Absolute { initial } => initial,
                Size::Relative { num, den, min, max } => {
                    let f = mul_frac(length, num, den);
                    clamp_i64(f, min, max)
                },
                Size::Remainder { min, max } => clamp_i64(avg, min, max),
            };
            r.push(v);
            k = k + 1;
        }
        r
    }
}

} // verus!
