//! Q16.16 fixed-point helpers shared by the ray tracer and the overlays.
//!
//! A coordinate `q` stands for the real number `q / 65536`; an elevation in
//! Q8 stands for `q / 256`.

use vstd::prelude::*;

verus! {

/// The grid cell that contains a non-negative Q16.16 coordinate
/// (65536 is one grid unit).
pub open spec fn cell_of(q: int) -> int {
    q / 65536
}

/// The nearest grid cell to a Q16.16 coordinate: half a unit (32768) is
/// added before taking the floor.
pub open spec fn round_cell(q: int) -> int {
    (q + 32768) / 65536
}

/// The floor of the square root of a non-negative integer.
pub open spec fn sqrt_floor(n: int) -> int {
    choose|r: int| 0 <= r && #[trigger] (r * r) <= n && n < (r + 1) * (r + 1)
}

/// Any integer whose square brackets `n` is its floor square root.
pub proof fn lemma_sqrt_floor(n: int, r: int)
    requires
        0 <= r,
        r * r <= n,
        n < (r + 1) * (r + 1),
    ensures
        sqrt_floor(n) == r,
{
    assert(0 <= r && r * r <= n && n < (r + 1) * (r + 1));
    let rc = sqrt_floor(n);
    assert(0 <= rc && rc * rc <= n && n < (rc + 1) * (rc + 1));
    if rc < r {
        assert((rc + 1) * (rc + 1) <= r * r) by (nonlinear_arith)
            requires
                0 <= rc + 1 <= r,
        ;
        assert(false);
    } else if r < rc {
        assert((r + 1) * (r + 1) <= rc * rc) by (nonlinear_arith)
            requires
                0 <= r + 1 <= rc,
        ;
        assert(false);
    }
}

/// Integer square root: the floor of the square root of `n`.
pub fn isqrt64(n: u64) -> (r: u64)
    ensures
        r * r <= n < (r + 1) * (r + 1),
        r <= 4294967295,
{
    let mut lo: u64 = 0;
    let mut hi: u64 = 4294967296;
    while hi - lo > 1
        invariant
            lo < hi <= 4294967296,
            lo * lo <= n,
            n < hi * hi,
        decreases hi - lo,
    {
        let mid: u64 = lo + (hi - lo) / 2;
        assert(lo < mid < hi);
        assert((mid as u128) * (mid as u128) < 0x1_0000_0000_0000_0000u128) by (nonlinear_arith)
            requires
                mid <= 4294967295u64,
        ;
        if (mid as u128) * (mid as u128) <= n as u128 {
            lo = mid;
        } else {
            hi = mid;
        }
    }
    assert(hi == lo + 1);
    lo
}

/// The length, in whole cells, of the error spread painted at an echo point:
/// the ceiling of `distance * beamwidth`, both in Q16.16.
pub fn error_spread_len(dist_q16: u64, beamwidth_rad_q16: u64) -> (r: u64)
    requires
        dist_q16 <= 4294967295,
        beamwidth_rad_q16 <= 411775,
    ensures
        r == (dist_q16 * beamwidth_rad_q16 + 4294967295) / 4294967296,
        r <= 411775,
{
    assert(dist_q16 * beamwidth_rad_q16 <= 4294967295u64 * 411775) by (nonlinear_arith)
        requires
            dist_q16 <= 4294967295u64,
            beamwidth_rad_q16 <= 411775,
    ;
    (dist_q16 * beamwidth_rad_q16 + 4294967295) / 4294967296
}

} // verus!
