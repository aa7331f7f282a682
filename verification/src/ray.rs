//! The horizon ray tracer: marching a ray across the grid, tracking the
//! occlusion horizon, and painting echo and interference marks.
//!
//! The central idea: along one ray, keep the tallest height seen so far
//! (the horizon, starting at a low sentinel of 10) and a behind-the-ridge
//! flag.  A cell whose height reaches the horizon while the flag is clear
//! is an echo point; a cell that drops more than 50 below a raised horizon
//! sets the flag and shadows everything that follows.

use vstd::prelude::*;

use crate::buffer::PixelBuffer;
use vstd::arithmetic::div_mod::lemma_add_mod_noop_right;
use vstd::arithmetic::div_mod::lemma_small_mod;

verus! {

/// The horizon after observing a cell of height `h`: raised to `h` when
/// `h` is taller.
pub open spec fn next_horizon(horizon: u8, h: u8) -> u8 {
    if h > horizon {
        h
    } else {
        horizon
    }
}

/// Whether a cell of height `h` is an echo point: its height reaches the
/// running horizon and the ray is not yet behind a ridge.
pub open spec fn is_echo(horizon: u8, behind: bool, h: u8) -> bool {
    h >= horizon && !behind
}

/// The behind-the-ridge flag after observing a cell of height `h`: set once
/// the ray drops more than 50 below a horizon that rose above the sentinel,
/// and never cleared.
pub open spec fn next_behind(horizon: u8, behind: bool, h: u8) -> bool {
    if is_echo(horizon, behind, h) {
        behind
    } else if h + 50 < next_horizon(horizon, h) && next_horizon(horizon, h) > 10 {
        true
    } else {
        behind
    }
}

/// The ray state (horizon, behind-the-ridge) after observing a sequence of
/// heights, starting from the sentinel horizon 10.
pub open spec fn run_ray(heights: Seq<u8>) -> (u8, bool)
    decreases heights.len(),
{
    if heights.len() == 0 {
        (10u8, false)
    } else {
        let prev = run_ray(heights.drop_last());
        (next_horizon(prev.0, heights.last()), next_behind(prev.0, prev.1, heights.last()))
    }
}

/// Whether step `k` of a height sequence is an echo point.
pub open spec fn echo_at(heights: Seq<u8>, k: int) -> bool {
    is_echo(run_ray(heights.take(k)).0, run_ray(heights.take(k)).1, heights[k])
}

/// How many steps of a height sequence are echo points.
pub open spec fn echo_count(heights: Seq<u8>) -> nat
    decreases heights.len(),
{
    if heights.len() == 0 {
        0nat
    } else {
        echo_count(heights.drop_last()) + if echo_at(heights, heights.len() - 1) {
            1nat
        } else {
            0nat
        }
    }
}

/// One observation step of the ray tracer: whether the cell is an echo
/// point, then the new horizon and behind-the-ridge flag.
pub fn echo_step(height: u8, horizon: u8, behind_ridge: bool) -> (r: (bool, u8, bool))
    ensures
        r.0 == is_echo(horizon, behind_ridge, height),
        r.1 == next_horizon(horizon, height),
        r.2 == next_behind(horizon, behind_ridge, height),
{
    let m: u8 = if height > horizon {
        height
    } else {
        horizon
    };
    let echo: bool = height >= horizon && !behind_ridge;
    let behind: bool = if echo {
        behind_ridge
    } else if (height as u32) + 50 < (m as u32) && m > 10 {
        true
    } else {
        behind_ridge
    };
    (echo, m, behind)
}

/// A sequence of heights that never reaches the sentinel leaves the ray
/// state untouched and produces no echo point.
pub proof fn lemma_low_run(heights: Seq<u8>)
    requires
        forall|i: int| 0 <= i < heights.len() ==> heights[i] < 10,
    ensures
        run_ray(heights) == (10u8, false),
        echo_count(heights) == 0,
    decreases heights.len(),
{
    if heights.len() > 0 {
        lemma_low_run(heights.drop_last());
        assert(heights.take(heights.len() - 1) =~= heights.drop_last());
    }
}

/// Along a ray whose heights rise strictly, staying below the sentinel
/// until a final step that reaches it, exactly one echo point is marked:
/// the last, highest step.  No shadow ever triggers, because the height
/// never drops after rising.
pub proof fn lemma_single_echo_monotone(heights: Seq<u8>)
    requires
        heights.len() >= 1,
        forall|i: int, j: int| 0 <= i < j < heights.len() ==> heights[i] < heights[j],
        forall|i: int| 0 <= i < heights.len() - 1 ==> heights[i] < 10,
        heights.last() >= 10,
    ensures
        echo_count(heights) == 1,
        echo_at(heights, heights.len() - 1),
        forall|k: int| 0 <= k < heights.len() - 1 ==> !echo_at(heights, k),
{
    let n = heights.len() as int;
    lemma_low_run(heights.drop_last());
    assert(heights.take(n - 1) =~= heights.drop_last());
    assert(echo_at(heights, n - 1));
    assert(echo_count(heights.drop_last()) == 0);
    assert(echo_count(heights) == 1);
    assert forall|k: int| 0 <= k < n - 1 implies !echo_at(heights, k) by {
        lemma_low_run(heights.take(k));
        assert(heights[k] < 10);
    }
}

/// Radar shadow persists: once a ray has dropped behind a ridge, the
/// flag never clears and no later cell is an echo point.  The first
/// prominent ridge along a ray is therefore the only one that returns a
/// signal; a later rise (to 90 after a 100-high ridge, say) paints no
/// second echo.
pub proof fn lemma_shadow_persists(heights: Seq<u8>, k: int, m: int)
    requires
        0 <= k <= m <= heights.len(),
        run_ray(heights.take(k)).1,
    ensures
        run_ray(heights.take(m)).1,
        forall|j: int| k <= j < m ==> !echo_at(heights, j),
    decreases m - k,
{
    if k < m {
        let pre = heights.take(k);
        let nxt = heights.take(k + 1);
        assert(nxt.drop_last() =~= pre);
        assert(!is_echo(run_ray(pre).0, run_ray(pre).1, heights[k]));
        assert(!echo_at(heights, k));
        assert(run_ray(nxt).1 == next_behind(run_ray(pre).0, run_ray(pre).1, heights[k]));
        assert(run_ray(nxt).1);
        lemma_shadow_persists(heights, k + 1, m);
        assert forall|j: int| k <= j < m implies !echo_at(heights, j) by {
            if j == k {
                assert(!echo_at(heights, k));
            }
        }
    }
}

/// The cell nearest to stop `k` of the error-spread line that starts at
/// the Q16.16 point `(sx, sy)` and steps by `(ex, ey)`.
pub open spec fn line_stop(sx: int, sy: int, ex: int, ey: int, k: int) -> (int, int) {
    (crate::fixed::round_cell(sx + k * ex), crate::fixed::round_cell(sy + k * ey))
}

/// Whether pixel `(x, y)` lies on the first `len` stops of the
/// error-spread line.
pub open spec fn line_hit(sx: int, sy: int, ex: int, ey: int, len: int, x: int, y: int) -> bool {
    exists|k: int| 0 <= k < len && #[trigger] line_stop(sx, sy, ex, ey, k) == (x, y)
}

/// Paints the error-spread line of an echo point: starting at `(sx, sy)`
/// and stepping by `(ex, ey)`, sets the alpha of the nearest cell to 255 at
/// each of `len` stops.  Stops outside the grid are rejected and paint
/// nothing.
pub fn paint_error_line(image: &mut PixelBuffer, sx: i64, sy: i64, ex: i64, ey: i64, len: u64)
    requires
        old(image).wf(),
        -4294967296 <= sx <= 4294967296,
        -4294967296 <= sy <= 4294967296,
        -65536 <= ex <= 65536,
        -65536 <= ey <= 65536,
        len <= 411775,
    ensures
        final(image).wf(),
        final(image).width == old(image).width,
        final(image).data@.len() == old(image).data@.len(),
        forall|i: int|
            0 <= i < old(image).data@.len() && i % 4 != 3 ==> final(image).data@[i] == old(
                image,
            ).data@[i],
        forall|i: int|
            0 <= i < old(image).data@.len() && i % 4 == 3 ==> final(image).data@[i] == old(
                image,
            ).data@[i] || final(image).data@[i] == 255,
        forall|x: int, y: int|
            0 <= x < old(image).width && 0 <= y < old(image).width ==> final(image).alpha_at(x, y)
                == if line_hit(sx as int, sy as int, ex as int, ey as int, len as int, x, y) {
                255u8
            } else {
                old(image).alpha_at(x, y)
            },
{
    let mut k: u64 = 0;
    let width = image.width;
    while k < len
        invariant
            image.wf(),
            image.width == width == old(image).width,
            image.data@.len() == old(image).data@.len(),
            k <= len <= 411775,
            -4294967296 <= sx <= 4294967296,
            -4294967296 <= sy <= 4294967296,
            -65536 <= ex <= 65536,
            -65536 <= ey <= 65536,
            forall|i: int|
                0 <= i < old(image).data@.len() && i % 4 != 3 ==> image.data@[i] == old(
                    image,
                ).data@[i],
            forall|i: int|
                0 <= i < old(image).data@.len() && i % 4 == 3 ==> image.data@[i] == old(
                    image,
                ).data@[i] || image.data@[i] == 255,
            forall|x: int, y: int|
                0 <= x < width && 0 <= y < width ==> image.alpha_at(x, y) == if line_hit(
                    sx as int,
                    sy as int,
                    ex as int,
                    ey as int,
                    k as int,
                    x,
                    y,
                ) {
                    255u8
                } else {
                    old(image).alpha_at(x, y)
                },
        decreases len - k,
    {
        assert(-27000000000000 <= k * ex <= 27000000000000 && -27000000000000 <= k * ey
            <= 27000000000000) by (nonlinear_arith)
            requires
                0 <= k <= 411775u64,
                -65536 <= ex <= 65536,
                -65536 <= ey <= 65536,
        ;
        let px: i64 = sx + (k as i64) * ex;
        let py: i64 = sy + (k as i64) * ey;
        let ghost prev = *image;
        let rx: i64 = px + 32768;
        let ry: i64 = py + 32768;
        if rx >= 0 && ry >= 0 {
            let cx: i64 = rx / 65536;
            let cy: i64 = ry / 65536;
            assert(cx == crate::fixed::round_cell(px as int) && cy == crate::fixed::round_cell(
                py as int,
            ));
            assert((cx as int, cy as int) == line_stop(
                sx as int,
                sy as int,
                ex as int,
                ey as int,
                k as int,
            ));
            if cx < width as i64 && cy < width as i64 {
                image.set_alpha(cx as u32, cy as u32, 255);
                proof {
                    prev.lemma_alpha_index(cx as int, cy as int);
                }
            }
        } else {
            proof {
                if rx < 0 {
                    assert(crate::fixed::round_cell(px as int) < 0) by (nonlinear_arith)
                        requires
                            (px as int) + 32768 < 0,
                    ;
                } else {
                    assert(crate::fixed::round_cell(py as int) < 0) by (nonlinear_arith)
                        requires
                            (py as int) + 32768 < 0,
                    ;
                }
            }
        }
        proof {
            let ki = k as int;
            let sxi = sx as int;
            let syi = sy as int;
            let exi = ex as int;
            let eyi = ey as int;
            assert forall|x: int, y: int| 0 <= x < width && 0 <= y < width implies image.alpha_at(
                x,
                y,
            ) == if line_hit(sxi, syi, exi, eyi, ki + 1, x, y) {
                255u8
            } else {
                old(image).alpha_at(x, y)
            } by {
                let stop = line_stop(sxi, syi, exi, eyi, ki);
                let hx = stop.0;
                let hy = stop.1;
                if x == hx && y == hy {
                    assert(line_stop(sxi, syi, exi, eyi, ki) == (x, y));
                    assert(line_hit(sxi, syi, exi, eyi, ki + 1, x, y));
                    assert(image.alpha_at(x, y) == 255u8);
                } else {
                    assert(image.alpha_at(x, y) == prev.alpha_at(x, y)) by {
                        prev.lemma_alpha_index(x, y);
                        if 0 <= hx < width && 0 <= hy < width {
                            prev.lemma_alpha_index(hx, hy);
                        }
                    }
                    assert(line_hit(sxi, syi, exi, eyi, ki + 1, x, y) <==> line_hit(
                        sxi,
                        syi,
                        exi,
                        eyi,
                        ki,
                        x,
                        y,
                    )) by {
                        if line_hit(sxi, syi, exi, eyi, ki + 1, x, y) {
                            let j = choose|j: int|
                                0 <= j < ki + 1 && #[trigger] line_stop(sxi, syi, exi, eyi, j) == (
                                x,
                                y,
                            );
                            if j == ki {
                                assert(false);
                            } else {
                                assert(line_hit(sxi, syi, exi, eyi, ki, x, y));
                            }
                        }
                        if line_hit(sxi, syi, exi, eyi, ki, x, y) {
                            let j = choose|j: int|
                                0 <= j < ki && #[trigger] line_stop(sxi, syi, exi, eyi, j) == (
                                x,
                                y,
                            );
                            assert(0 <= j < ki + 1 && line_stop(sxi, syi, exi, eyi, j) == (x, y));
                        }
                    }
                }
            }
        }
        k = k + 1;
    }
}

/// A normalized direction in Q16.16: each component at most one grid unit,
/// and the dominant component at least half a unit, as holds of any unit
/// vector.
pub open spec fn unit_dir(dx: int, dy: int) -> bool {
    &&& -65536 <= dx <= 65536
    &&& -65536 <= dy <= 65536
    &&& (dx >= 32768 || dx <= -32768 || dy >= 32768 || dy <= -32768)
}

/// Whether a Q16.16 beam origin lies inside the grid square.
pub open spec fn origin_in_grid(bpx: int, bpy: int, width: int) -> bool {
    &&& 0 <= bpx < width * 65536
    &&& 0 <= bpy < width * 65536
}

/// The heights one march visits: starting at `(px, py)` and stepping by
/// `(dx, dy)`, until the position leaves the grid, the cell index runs
/// past the grid's cells, or the step budget is spent.  A budget of twice
/// the grid side plus a few steps covers any normalized direction, whose
/// dominant component advances at least half a unit per step.
pub open spec fn march_heights(
    cells: Seq<i64>,
    width: int,
    px: int,
    py: int,
    dx: int,
    dy: int,
    fuel: nat,
) -> Seq<u8>
    decreases fuel,
{
    if fuel == 0 {
        Seq::empty()
    } else if !(0 <= px < width * 65536 && 0 <= py < width * 65536) {
        Seq::empty()
    } else if crate::fixed::cell_of(px) + crate::fixed::cell_of(py) * width >= cells.len() {
        Seq::empty()
    } else {
        seq![
            crate::heightmap::sat_height(
                cells[crate::fixed::cell_of(px) + crate::fixed::cell_of(py) * width] as int,
            ),
        ].add(march_heights(cells, width, px + dx, py + dy, dx, dy, (fuel - 1) as nat))
    }
}

/// The error-spread length of an echo at step `k` of a march: the radial
/// distance covered, `k` steps of `(dx, dy)`, times the beamwidth, both in
/// Q16.16, rounded up to whole cells.
pub open spec fn elen_at(dx: int, dy: int, bw: int, k: int) -> int {
    (crate::fixed::sqrt_floor((k * dx) * (k * dx) + (k * dy) * (k * dy)) * bw + 4294967295)
        / 4294967296
}

/// Whether pixel `(px, py)` is painted by some echo point of the march:
/// step `k` is an echo point of the visited heights and the pixel lies on
/// its error-spread line, which starts at the step's position and runs
/// perpendicular to the ray.
pub open spec fn ray_echo_hit(
    heights: Seq<u8>,
    bpx: int,
    bpy: int,
    dx: int,
    dy: int,
    bw: int,
    px: int,
    py: int,
) -> bool {
    exists|k: int|
        0 <= k < heights.len() && #[trigger] echo_at(heights, k) && line_hit(
            bpx + k * dx,
            bpy + k * dy,
            -dy,
            dx,
            elen_at(dx, dy, bw, k),
            px,
            py,
        )
}

/// The grid cell the march occupies at step `k`.
pub open spec fn visit_cell(bpx: int, bpy: int, dx: int, dy: int, k: int) -> (int, int) {
    (crate::fixed::cell_of(bpx + k * dx), crate::fixed::cell_of(bpy + k * dy))
}

/// Whether pixel `(px, py)` receives an interference speckle during the
/// first `len` steps of a march: some step lands on the cell and the draw
/// from the live source at that step exceeds 0.5.
pub open spec fn ray_speckle_hit(
    len: int,
    bpx: int,
    bpy: int,
    dx: int,
    dy: int,
    feed: Seq<u32>,
    c0: int,
    px: int,
    py: int,
) -> bool {
    exists|k: int|
        0 <= k < len && #[trigger] visit_cell(bpx, bpy, dx, dy, k) == (px, py) && feed[(c0 + k)
            % feed.len() as int] > 500000
}

/// How a pixel's alpha ends up under electronic interference, given
/// whether an echo line paints it (`hit`) and whether a speckle lands on
/// it (`spk`): neither leaves it at `base`, an echo alone paints 255, a
/// speckle alone 220, and where both touch it the later write of the two
/// wins, so it ends as one of the two marks.
pub open spec fn speckle_alpha_pin(a: u8, base: u8, hit: bool, spk: bool) -> bool {
    &&& (!hit && !spk) ==> a == base
    &&& (hit && !spk) ==> a == 255
    &&& (!hit && spk) ==> a == 220
    &&& (hit && spk) ==> (a == 220 || a == 255)
}

/// Marches one ray of direction `(dirx, diry)` from the beam origin
/// `(bpx, bpy)` in unit steps until it leaves the grid, tracking the
/// occlusion horizon.  At each echo point it paints an error-spread line
/// of alpha 255; under electronic interference each visited cell has a
/// 50% chance of an alpha-220 speckle, drawn from the live random source.
///
/// Without electronic interference the result is pinned exactly: a pixel's
/// alpha becomes 255 when some echo point of the visited heights paints
/// it, and keeps its old value otherwise.  With it, one sample is drawn
/// per visited cell, and a pixel touched by a speckle alone ends at 220,
/// by an echo line alone at 255, by both at whichever of the two marks
/// was written last.  A ray whose origin lies outside the grid paints
/// nothing and draws nothing; a grid cell past the loaded heightmap ends
/// the ray silently.
#[verifier::rlimit(50)]
pub fn draw_ray_by_norm_dir(
    dirx: i64,
    diry: i64,
    bpx: i64,
    bpy: i64,
    settings: &crate::render::RadarSettings,
    img_width: u32,
    image: &mut PixelBuffer,
    heightmap: &crate::heightmap::Heightmap,
    rand: &mut crate::entropy::LiveRandom,
)
    requires
        unit_dir(dirx as int, diry as int),
        img_width <= 32767,
        old(image).wf(),
        old(image).width == img_width,
        settings.wf(),
        heightmap.wf(),
        old(rand).wf(),
    ensures
        final(image).wf(),
        final(image).width == img_width,
        final(image).data@.len() == old(image).data@.len(),
        forall|i: int|
            0 <= i < old(image).data@.len() && i % 4 != 3 ==> final(image).data@[i] == old(
                image,
            ).data@[i],
        forall|i: int|
            0 <= i < old(image).data@.len() && i % 4 == 3 ==> final(image).data@[i] == old(
                image,
            ).data@[i] || final(image).data@[i] == 220 || final(image).data@[i] == 255,
        final(rand).wf(),
        final(rand).samples == old(rand).samples,
        settings.radar_interf ==> final(rand).next == (old(rand).next + march_heights(
            heightmap.cells@,
            img_width as int,
            bpx as int,
            bpy as int,
            dirx as int,
            diry as int,
            (2 * (img_width as int) + 4) as nat,
        ).len()) as int % old(rand).samples@.len() as int,
        settings.radar_interf ==> forall|px: int, py: int|
            0 <= px < img_width && 0 <= py < img_width ==> #[trigger] speckle_alpha_pin(
                final(image).alpha_at(px, py),
                old(image).alpha_at(px, py),
                ray_echo_hit(
                    march_heights(
                        heightmap.cells@,
                        img_width as int,
                        bpx as int,
                        bpy as int,
                        dirx as int,
                        diry as int,
                        (2 * (img_width as int) + 4) as nat,
                    ),
                    bpx as int,
                    bpy as int,
                    dirx as int,
                    diry as int,
                    settings.beamwidth_rad_q16 as int,
                    px,
                    py,
                ),
                ray_speckle_hit(
                    march_heights(
                        heightmap.cells@,
                        img_width as int,
                        bpx as int,
                        bpy as int,
                        dirx as int,
                        diry as int,
                        (2 * (img_width as int) + 4) as nat,
                    ).len() as int,
                    bpx as int,
                    bpy as int,
                    dirx as int,
                    diry as int,
                    old(rand).samples@,
                    old(rand).next as int,
                    px,
                    py,
                ),
            ),
        !origin_in_grid(bpx as int, bpy as int, img_width as int) ==> *final(image) == *old(image)
            && *final(rand) == *old(rand),
        !settings.radar_interf ==> *final(rand) == *old(rand),
        !settings.radar_interf ==> forall|px: int, py: int|
            0 <= px < img_width && 0 <= py < img_width ==> final(image).alpha_at(px, py) == (
            if ray_echo_hit(
                march_heights(
                    heightmap.cells@,
                    img_width as int,
                    bpx as int,
                    bpy as int,
                    dirx as int,
                    diry as int,
                    (2 * (img_width as int) + 4) as nat,
                ),
                bpx as int,
                bpy as int,
                dirx as int,
                diry as int,
                settings.beamwidth_rad_q16 as int,
                px,
                py,
            ) {
                255u8
            } else {
                old(image).alpha_at(px, py)
            }),
        (!settings.radar_interf && heightmap.is_flat()) ==> *final(image) == *old(image),
{
    let width_q: i64 = img_width as i64 * 65536;
    let ghost cells = heightmap.cells@;
    let ghost wi = img_width as int;
    let ghost f0 = (2 * wi + 4) as nat;
    let ghost dxi = dirx as int;
    let ghost dyi = diry as int;
    let ghost bw = settings.beamwidth_rad_q16 as int;
    let ghost hs_full = march_heights(cells, wi, bpx as int, bpy as int, dxi, dyi, f0);
    let ghost c0 = old(rand).next as int;
    let ghost n = old(rand).samples@.len() as int;
    let ghost feed = old(rand).samples@;
    proof {
        lemma_small_mod(c0 as nat, n as nat);
    }
    if !(bpx >= 0 && bpy >= 0 && bpx < width_q && bpy < width_q) {
        proof {
            assert(hs_full =~= Seq::<u8>::empty());
        }
        return ;
    }
    let mut x: i64 = bpx;
    let mut y: i64 = bpy;
    let mut horizon: u8 = 10;
    let mut behind: bool = false;
    let mut steps: u32 = 0;
    let max_steps: u32 = 2 * img_width + 4;
    let ghost mut acc: Seq<u8> = Seq::empty();
    proof {
        assert(0int * dxi == 0 && 0int * dyi == 0) by (nonlinear_arith);
        assert(acc + march_heights(cells, wi, bpx as int, bpy as int, dxi, dyi, f0) =~= hs_full);
    }
    while x >= 0 && y >= 0 && x < width_q && y < width_q && steps < max_steps
        invariant
            img_width <= 32767,
            width_q == img_width as int * 65536,
            wi == img_width as int,
            f0 == (2 * wi + 4) as nat,
            max_steps == 2 * img_width + 4,
            dxi == dirx as int,
            dyi == diry as int,
            bw == settings.beamwidth_rad_q16 as int,
            cells == heightmap.cells@,
            hs_full == march_heights(cells, wi, bpx as int, bpy as int, dxi, dyi, f0),
            unit_dir(dxi, dyi),
            0 <= bpx < width_q,
            0 <= bpy < width_q,
            -65536 <= x <= width_q + 65536,
            -65536 <= y <= width_q + 65536,
            steps <= max_steps,
            acc.len() == steps,
            x == bpx + steps * dxi,
            y == bpy + steps * dyi,
            hs_full == acc + march_heights(
                cells,
                wi,
                x as int,
                y as int,
                dxi,
                dyi,
                (f0 - steps) as nat,
            ),
            horizon == run_ray(acc).0,
            behind == run_ray(acc).1,
            settings.wf(),
            heightmap.wf(),
            image.wf(),
            image.width == img_width,
            image.data@.len() == old(image).data@.len(),
            rand.wf(),
            rand.samples == old(rand).samples,
            c0 == old(rand).next as int,
            n == old(rand).samples@.len() as int,
            0 <= c0 < n,
            settings.radar_interf ==> rand.next == (c0 + steps) % n,
            feed == old(rand).samples@,
            settings.radar_interf ==> forall|px: int, py: int|
                0 <= px < wi && 0 <= py < wi ==> #[trigger] speckle_alpha_pin(
                    image.alpha_at(px, py),
                    old(image).alpha_at(px, py),
                    ray_echo_hit(acc, bpx as int, bpy as int, dxi, dyi, bw, px, py),
                    ray_speckle_hit(
                        steps as int,
                        bpx as int,
                        bpy as int,
                        dxi,
                        dyi,
                        feed,
                        c0,
                        px,
                        py,
                    ),
                ),
            forall|i: int|
                0 <= i < old(image).data@.len() && i % 4 != 3 ==> image.data@[i] == old(
                    image,
                ).data@[i],
            forall|i: int|
                0 <= i < old(image).data@.len() && i % 4 == 3 ==> image.data@[i] == old(
                    image,
                ).data@[i] || image.data@[i] == 220 || image.data@[i] == 255,
            !settings.radar_interf ==> *rand == *old(rand),
            !settings.radar_interf ==> forall|px: int, py: int|
                0 <= px < wi && 0 <= py < wi ==> image.alpha_at(px, py) == (if ray_echo_hit(
                    acc,
                    bpx as int,
                    bpy as int,
                    dxi,
                    dyi,
                    bw,
                    px,
                    py,
                ) {
                    255u8
                } else {
                    old(image).alpha_at(px, py)
                }),
            (!settings.radar_interf && heightmap.is_flat()) ==> *image == *old(image) && horizon
                == 10 && !behind,
        decreases max_steps - steps,
    {
        let ghost fr = (f0 - steps) as nat;
        let ghost xi = x as int;
        let ghost yi = y as int;
        let ghost cell_idx = crate::fixed::cell_of(xi) + crate::fixed::cell_of(yi) * wi;
        let h: u8 = match crate::heightmap::pixel_data_at(x, y, img_width, heightmap) {
            Some(v) => v,
            None => {
                proof {
                    assert(fr >= 1);
                    assert(march_heights(cells, wi, xi, yi, dxi, dyi, fr) =~= Seq::<u8>::empty());
                    assert(hs_full =~= acc);
                }
                return ;
            },
        };
        proof {
            assert(fr >= 1);
            assert(cell_idx < cells.len());
            assert(h == crate::heightmap::sat_height(cells[cell_idx] as int));
            assert(march_heights(cells, wi, xi, yi, dxi, dyi, fr) == seq![h].add(
                march_heights(cells, wi, xi + dxi, yi + dyi, dxi, dyi, (fr - 1) as nat),
            ));
        }
        let ghost cellx = crate::fixed::cell_of(xi);
        let ghost celly = crate::fixed::cell_of(yi);
        let ghost prev0 = *image;
        let ghost mut spk_flag: bool = false;
        proof {
            assert(0 <= cellx < wi && 0 <= celly < wi) by (nonlinear_arith)
                requires
                    cellx == xi / 65536,
                    celly == yi / 65536,
                    0 <= xi < wi * 65536,
                    0 <= yi < wi * 65536,
            ;
            if settings.radar_interf {
                assert forall|px: int, py: int| 0 <= px < wi && 0 <= py < wi implies
                    speckle_alpha_pin(
                    prev0.alpha_at(px, py),
                    old(image).alpha_at(px, py),
                    ray_echo_hit(acc, bpx as int, bpy as int, dxi, dyi, bw, px, py),
                    ray_speckle_hit(steps as int, bpx as int, bpy as int, dxi, dyi, feed, c0, px, py),
                ) by {
                    assert(speckle_alpha_pin(
                        image.alpha_at(px, py),
                        old(image).alpha_at(px, py),
                        ray_echo_hit(acc, bpx as int, bpy as int, dxi, dyi, bw, px, py),
                        ray_speckle_hit(
                            steps as int,
                            bpx as int,
                            bpy as int,
                            dxi,
                            dyi,
                            feed,
                            c0,
                            px,
                            py,
                        ),
                    ));
                }
            }
        }
        if settings.radar_interf {
            let s = rand.draw();
            proof {
                lemma_add_mod_noop_right(1, c0 + steps, n);
                spk_flag = s > 500000;
                assert(s == feed[(c0 + steps) % n]);
            }
            if s > 500000 {
                let cx: u32 = (x / 65536) as u32;
                let cy: u32 = (y / 65536) as u32;
                assert(0 <= x / 65536 < img_width && 0 <= y / 65536 < img_width)
                    by (nonlinear_arith)
                    requires
                        0 <= x < img_width as int * 65536,
                        0 <= y < img_width as int * 65536,
                ;
                let ghost prev = *image;
                image.set_alpha(cx, cy, 220);
                proof {
                    assert(cx == cellx && cy == celly);
                    prev.lemma_alpha_index(cx as int, cy as int);
                }
            }
        }
        let ghost mid = *image;
        proof {
            if settings.radar_interf {
                assert(spk_flag == (feed[(c0 + steps) % n] > 500000));
                assert forall|px: int, py: int|
                    0 <= px < wi && 0 <= py < wi && !(px == cellx && py == celly
                        && spk_flag) implies mid.alpha_at(px, py) == prev0.alpha_at(px, py) by {
                    prev0.lemma_alpha_index(px, py);
                    prev0.lemma_alpha_index(cellx, celly);
                }
                if spk_flag {
                    prev0.lemma_alpha_index(cellx, celly);
                    assert(mid.alpha_at(cellx, celly) == 220u8);
                }
            } else {
                assert(mid == prev0);
            }
        }
        let step = echo_step(h, horizon, behind);
        horizon = step.1;
        behind = step.2;
        let ghost acc2 = acc.push(h);
        proof {
            assert(acc2.drop_last() =~= acc);
            assert(acc2.take(steps as int) =~= acc);
            assert(run_ray(acc2).0 == next_horizon(run_ray(acc).0, h));
            assert(run_ray(acc2).1 == next_behind(run_ray(acc).0, run_ray(acc).1, h));
            assert(echo_at(acc2, steps as int) == is_echo(run_ray(acc).0, run_ray(acc).1, h));
        }
        if step.0 {
            let dx: i64 = x - bpx;
            let dy: i64 = y - bpy;
            let adx: u64 = if dx < 0 {
                (-dx) as u64
            } else {
                dx as u64
            };
            let ady: u64 = if dy < 0 {
                (-dy) as u64
            } else {
                dy as u64
            };
            assert(adx * adx + ady * ady < 0x8000_0000_0000_0000) by (nonlinear_arith)
                requires
                    adx < 0x8000_0000u64,
                    ady < 0x8000_0000u64,
            ;
            let d2: u64 = adx * adx + ady * ady;
            proof {
                assert((adx as int) * (adx as int) == (dx as int) * (dx as int) && (ady as int)
                    * (ady as int) == (dy as int) * (dy as int)) by (nonlinear_arith)
                    requires
                        adx == if dx < 0 {
                            -(dx as int)
                        } else {
                            dx as int
                        },
                        ady == if dy < 0 {
                            -(dy as int)
                        } else {
                            dy as int
                        },
                ;
                assert(dx == (steps as int) * dxi && dy == (steps as int) * dyi);
            }
            let dist: u64 = crate::fixed::isqrt64(d2);
            proof {
                crate::fixed::lemma_sqrt_floor(d2 as int, dist as int);
            }
            let elen: u64 = crate::fixed::error_spread_len(dist, settings.beamwidth_rad_q16);
            proof {
                assert(elen == elen_at(dxi, dyi, bw, steps as int));
            }
            let ghost prev = *image;
            paint_error_line(image, x, y, -diry, dirx, elen);
            proof {
                if !settings.radar_interf {
                    assert forall|px: int, py: int| 0 <= px < wi && 0 <= py < wi implies
                        image.alpha_at(px, py) == (if ray_echo_hit(
                        acc2,
                        bpx as int,
                        bpy as int,
                        dxi,
                        dyi,
                        bw,
                        px,
                        py,
                    ) {
                        255u8
                    } else {
                        old(image).alpha_at(px, py)
                    }) by {
                        let ki = steps as int;
                        if line_hit(xi, yi, -dyi, dxi, elen as int, px, py) {
                            assert(image.alpha_at(px, py) == 255u8);
                            assert(0 <= ki < acc2.len() && echo_at(acc2, ki) && line_hit(
                                bpx + ki * dxi,
                                bpy + ki * dyi,
                                -dyi,
                                dxi,
                                elen_at(dxi, dyi, bw, ki),
                                px,
                                py,
                            ));
                            assert(ray_echo_hit(acc2, bpx as int, bpy as int, dxi, dyi, bw, px, py));
                        } else {
                            assert(image.alpha_at(px, py) == prev.alpha_at(px, py));
                            if ray_echo_hit(acc2, bpx as int, bpy as int, dxi, dyi, bw, px, py) {
                                let k = choose|k: int|
                                    0 <= k < acc2.len() && #[trigger] echo_at(acc2, k) && line_hit(
                                        bpx + k * dxi,
                                        bpy + k * dyi,
                                        -dyi,
                                        dxi,
                                        elen_at(dxi, dyi, bw, k),
                                        px,
                                        py,
                                    );
                                if k == ki {
                                    assert(false);
                                } else {
                                    assert(acc2.take(k) =~= acc.take(k));
                                    assert(echo_at(acc, k));
                                    assert(ray_echo_hit(
                                        acc,
                                        bpx as int,
                                        bpy as int,
                                        dxi,
                                        dyi,
                                        bw,
                                        px,
                                        py,
                                    ));
                                }
                            }
                            if ray_echo_hit(acc, bpx as int, bpy as int, dxi, dyi, bw, px, py) {
                                let k = choose|k: int|
                                    0 <= k < acc.len() && #[trigger] echo_at(acc, k) && line_hit(
                                        bpx + k * dxi,
                                        bpy + k * dyi,
                                        -dyi,
                                        dxi,
                                        elen_at(dxi, dyi, bw, k),
                                        px,
                                        py,
                                    );
                                assert(acc2.take(k) =~= acc.take(k));
                                assert(echo_at(acc2, k));
                                assert(ray_echo_hit(
                                    acc2,
                                    bpx as int,
                                    bpy as int,
                                    dxi,
                                    dyi,
                                    bw,
                                    px,
                                    py,
                                ));
                            }
                        }
                    }
                }
                if settings.radar_interf {
                    assert forall|px: int, py: int| 0 <= px < wi && 0 <= py < wi implies
                        speckle_alpha_pin(
                        image.alpha_at(px, py),
                        old(image).alpha_at(px, py),
                        ray_echo_hit(acc2, bpx as int, bpy as int, dxi, dyi, bw, px, py),
                        ray_speckle_hit(
                            steps as int + 1,
                            bpx as int,
                            bpy as int,
                            dxi,
                            dyi,
                            feed,
                            c0,
                            px,
                            py,
                        ),
                    ) by {
                        let ki = steps as int;
                        let hit2 = ray_echo_hit(acc2, bpx as int, bpy as int, dxi, dyi, bw, px, py);
                        let hit1 = ray_echo_hit(acc, bpx as int, bpy as int, dxi, dyi, bw, px, py);
                        let spk2 = ray_speckle_hit(
                            ki + 1,
                            bpx as int,
                            bpy as int,
                            dxi,
                            dyi,
                            feed,
                            c0,
                            px,
                            py,
                        );
                        let spk1 = ray_speckle_hit(
                            ki,
                            bpx as int,
                            bpy as int,
                            dxi,
                            dyi,
                            feed,
                            c0,
                            px,
                            py,
                        );
                        assert(visit_cell(bpx as int, bpy as int, dxi, dyi, ki) == (cellx, celly));
                        assert(spk2 <==> (spk1 || (px == cellx && py == celly && spk_flag))) by {
                            if spk2 {
                                let k = choose|k: int|
                                    0 <= k < ki + 1 && #[trigger] visit_cell(
                                        bpx as int,
                                        bpy as int,
                                        dxi,
                                        dyi,
                                        k,
                                    ) == (px, py) && feed[(c0 + k) % feed.len() as int] > 500000;
                                if k != ki {
                                    assert(spk1);
                                }
                            }
                            if spk1 {
                                let k = choose|k: int|
                                    0 <= k < ki && #[trigger] visit_cell(
                                        bpx as int,
                                        bpy as int,
                                        dxi,
                                        dyi,
                                        k,
                                    ) == (px, py) && feed[(c0 + k) % feed.len() as int] > 500000;
                                assert(0 <= k < ki + 1 && visit_cell(
                                    bpx as int,
                                    bpy as int,
                                    dxi,
                                    dyi,
                                    k,
                                ) == (px, py) && feed[(c0 + k) % feed.len() as int] > 500000);
                                assert(spk2);
                            }
                            if px == cellx && py == celly && spk_flag {
                                assert(0 <= ki < ki + 1 && visit_cell(
                                    bpx as int,
                                    bpy as int,
                                    dxi,
                                    dyi,
                                    ki,
                                ) == (px, py) && feed[(c0 + ki) % feed.len() as int] > 500000);
                                assert(spk2);
                            }
                        }
                        assert(hit2 <==> (hit1 || line_hit(xi, yi, -dyi, dxi, elen as int, px, py)))
                            by {
                            if hit2 {
                                let k = choose|k: int|
                                    0 <= k < acc2.len() && #[trigger] echo_at(acc2, k) && line_hit(
                                        bpx + k * dxi,
                                        bpy + k * dyi,
                                        -dyi,
                                        dxi,
                                        elen_at(dxi, dyi, bw, k),
                                        px,
                                        py,
                                    );
                                if k != ki {
                                    assert(acc2.take(k) =~= acc.take(k));
                                    assert(echo_at(acc, k));
                                    assert(hit1);
                                }
                            }
                            if hit1 {
                                let k = choose|k: int|
                                    0 <= k < acc.len() && #[trigger] echo_at(acc, k) && line_hit(
                                        bpx + k * dxi,
                                        bpy + k * dyi,
                                        -dyi,
                                        dxi,
                                        elen_at(dxi, dyi, bw, k),
                                        px,
                                        py,
                                    );
                                assert(acc2.take(k) =~= acc.take(k));
                                assert(echo_at(acc2, k));
                                assert(hit2);
                            }
                            if line_hit(xi, yi, -dyi, dxi, elen as int, px, py) {
                                assert(0 <= ki < acc2.len() && echo_at(acc2, ki) && line_hit(
                                    bpx + ki * dxi,
                                    bpy + ki * dyi,
                                    -dyi,
                                    dxi,
                                    elen_at(dxi, dyi, bw, ki),
                                    px,
                                    py,
                                ));
                                assert(hit2);
                            }
                        }
                        assert(prev == mid);
                        assert(image.alpha_at(px, py) == (if line_hit(
                            xi,
                            yi,
                            -dyi,
                            dxi,
                            elen as int,
                            px,
                            py,
                        ) {
                            255u8
                        } else {
                            mid.alpha_at(px, py)
                        }));
                        assert(speckle_alpha_pin(
                            prev0.alpha_at(px, py),
                            old(image).alpha_at(px, py),
                            hit1,
                            spk1,
                        ));
                        if !(px == cellx && py == celly && spk_flag) {
                            assert(mid.alpha_at(px, py) == prev0.alpha_at(px, py));
                        } else {
                            assert(mid.alpha_at(px, py) == 220u8);
                        }
                    }
                }
            }
        } else {
            proof {
                if !settings.radar_interf {
                    assert forall|px: int, py: int| 0 <= px < wi && 0 <= py < wi implies
                        image.alpha_at(px, py) == (if ray_echo_hit(
                        acc2,
                        bpx as int,
                        bpy as int,
                        dxi,
                        dyi,
                        bw,
                        px,
                        py,
                    ) {
                        255u8
                    } else {
                        old(image).alpha_at(px, py)
                    }) by {
                        let ki = steps as int;
                        if ray_echo_hit(acc2, bpx as int, bpy as int, dxi, dyi, bw, px, py) {
                            let k = choose|k: int|
                                0 <= k < acc2.len() && #[trigger] echo_at(acc2, k) && line_hit(
                                    bpx + k * dxi,
                                    bpy + k * dyi,
                                    -dyi,
                                    dxi,
                                    elen_at(dxi, dyi, bw, k),
                                    px,
                                    py,
                                );
                            if k == ki {
                                assert(false);
                            } else {
                                assert(acc2.take(k) =~= acc.take(k));
                                assert(echo_at(acc, k));
                                assert(ray_echo_hit(acc, bpx as int, bpy as int, dxi, dyi, bw, px, py));
                            }
                        }
                        if ray_echo_hit(acc, bpx as int, bpy as int, dxi, dyi, bw, px, py) {
                            let k = choose|k: int|
                                0 <= k < acc.len() && #[trigger] echo_at(acc, k) && line_hit(
                                    bpx + k * dxi,
                                    bpy + k * dyi,
                                    -dyi,
                                    dxi,
                                    elen_at(dxi, dyi, bw, k),
                                    px,
                                    py,
                                );
                            assert(acc2.take(k) =~= acc.take(k));
                            assert(echo_at(acc2, k));
                            assert(ray_echo_hit(acc2, bpx as int, bpy as int, dxi, dyi, bw, px, py));
                        }
                    }
                }
                if settings.radar_interf {
                    assert forall|px: int, py: int| 0 <= px < wi && 0 <= py < wi implies
                        speckle_alpha_pin(
                        image.alpha_at(px, py),
                        old(image).alpha_at(px, py),
                        ray_echo_hit(acc2, bpx as int, bpy as int, dxi, dyi, bw, px, py),
                        ray_speckle_hit(
                            steps as int + 1,
                            bpx as int,
                            bpy as int,
                            dxi,
                            dyi,
                            feed,
                            c0,
                            px,
                            py,
                        ),
                    ) by {
                        let ki = steps as int;
                        let hit2 = ray_echo_hit(acc2, bpx as int, bpy as int, dxi, dyi, bw, px, py);
                        let hit1 = ray_echo_hit(acc, bpx as int, bpy as int, dxi, dyi, bw, px, py);
                        let spk2 = ray_speckle_hit(
                            ki + 1,
                            bpx as int,
                            bpy as int,
                            dxi,
                            dyi,
                            feed,
                            c0,
                            px,
                            py,
                        );
                        let spk1 = ray_speckle_hit(
                            ki,
                            bpx as int,
                            bpy as int,
                            dxi,
                            dyi,
                            feed,
                            c0,
                            px,
                            py,
                        );
                        assert(visit_cell(bpx as int, bpy as int, dxi, dyi, ki) == (cellx, celly));
                        assert(spk2 <==> (spk1 || (px == cellx && py == celly && spk_flag))) by {
                            if spk2 {
                                let k = choose|k: int|
                                    0 <= k < ki + 1 && #[trigger] visit_cell(
                                        bpx as int,
                                        bpy as int,
                                        dxi,
                                        dyi,
                                        k,
                                    ) == (px, py) && feed[(c0 + k) % feed.len() as int] > 500000;
                                if k != ki {
                                    assert(spk1);
                                }
                            }
                            if spk1 {
                                let k = choose|k: int|
                                    0 <= k < ki && #[trigger] visit_cell(
                                        bpx as int,
                                        bpy as int,
                                        dxi,
                                        dyi,
                                        k,
                                    ) == (px, py) && feed[(c0 + k) % feed.len() as int] > 500000;
                                assert(0 <= k < ki + 1 && visit_cell(
                                    bpx as int,
                                    bpy as int,
                                    dxi,
                                    dyi,
                                    k,
                                ) == (px, py) && feed[(c0 + k) % feed.len() as int] > 500000);
                                assert(spk2);
                            }
                            if px == cellx && py == celly && spk_flag {
                                assert(0 <= ki < ki + 1 && visit_cell(
                                    bpx as int,
                                    bpy as int,
                                    dxi,
                                    dyi,
                                    ki,
                                ) == (px, py) && feed[(c0 + ki) % feed.len() as int] > 500000);
                                assert(spk2);
                            }
                        }
                        assert(hit2 <==> hit1) by {
                            if hit2 {
                                let k = choose|k: int|
                                    0 <= k < acc2.len() && #[trigger] echo_at(acc2, k) && line_hit(
                                        bpx + k * dxi,
                                        bpy + k * dyi,
                                        -dyi,
                                        dxi,
                                        elen_at(dxi, dyi, bw, k),
                                        px,
                                        py,
                                    );
                                if k == ki {
                                    assert(false);
                                } else {
                                    assert(acc2.take(k) =~= acc.take(k));
                                    assert(echo_at(acc, k));
                                    assert(hit1);
                                }
                            }
                            if hit1 {
                                let k = choose|k: int|
                                    0 <= k < acc.len() && #[trigger] echo_at(acc, k) && line_hit(
                                        bpx + k * dxi,
                                        bpy + k * dyi,
                                        -dyi,
                                        dxi,
                                        elen_at(dxi, dyi, bw, k),
                                        px,
                                        py,
                                    );
                                assert(acc2.take(k) =~= acc.take(k));
                                assert(echo_at(acc2, k));
                                assert(hit2);
                            }
                        }
                        assert(image.alpha_at(px, py) == mid.alpha_at(px, py));
                        assert(speckle_alpha_pin(
                            prev0.alpha_at(px, py),
                            old(image).alpha_at(px, py),
                            hit1,
                            spk1,
                        ));
                        if !(px == cellx && py == celly && spk_flag) {
                            assert(mid.alpha_at(px, py) == prev0.alpha_at(px, py));
                        } else {
                            assert(mid.alpha_at(px, py) == 220u8);
                        }
                    }
                }
            }
        }
        proof {
            acc = acc2;
            assert(acc + march_heights(cells, wi, xi + dxi, yi + dyi, dxi, dyi, (fr - 1) as nat)
                =~= hs_full);
            assert((steps as int + 1) * dxi == (steps as int) * dxi + dxi && (steps as int + 1)
                * dyi == (steps as int) * dyi + dyi) by (nonlinear_arith);
        }
        x = x + dirx;
        y = y + diry;
        steps = steps + 1;
    }
    proof {
        assert(march_heights(cells, wi, x as int, y as int, dxi, dyi, (f0 - steps) as nat)
            =~= Seq::<u8>::empty());
        assert(hs_full =~= acc);
    }
}

} // verus!
