//! The rain clutter overlay: a range-dependent probabilistic pass that
//! marks precipitation returns over the whole grid, independent of
//! terrain.
//!
//! Each row draws one fresh offset into the entropy pool from the live
//! random source; each column then reads its sample from the pool,
//! cyclically.  A pixel is marked when its sample exceeds 0.95 (a flat
//! speckle probability), or when the sample's excess over 0.5 times the
//! squared distance from the beam origin exceeds the squared sensitivity
//! constant 70 (range-dependent gain).

use vstd::prelude::*;

use crate::buffer::PixelBuffer;
use crate::entropy::EntropyPool;
use crate::entropy::LiveRandom;
use vstd::arithmetic::div_mod::lemma_add_mod_noop_right;
use vstd::arithmetic::div_mod::lemma_small_mod;

verus! {

/// Whether a sample (in parts per million) and a squared distance mark a
/// pixel as rain clutter: the sample exceeds 0.95, or its excess over 0.5
/// times the squared distance exceeds 70 squared (in parts per million).
pub open spec fn rain_mark(s: u32, d2: int) -> bool {
    s > 950000 || (s > 500000 && (s - 500000) * d2 > 4900000000)
}

/// The squared distance between grid cells `(x, y)` and `(ox, oy)`.
pub open spec fn dist2(x: int, y: int, ox: int, oy: int) -> int {
    (x - ox) * (x - ox) + (y - oy) * (y - oy)
}

/// The pool offset a row sample (in parts per million) selects: the sample
/// scaled to the grid cell count.
pub open spec fn row_offset(sample: u32, width: int) -> int {
    sample * (width * width) / 1000000
}

/// The entropy-pool sample that decides pixel `(x, y)`: the live source's
/// draw for row `y` picks the row offset, and column `x` indexes the pool
/// cyclically from there.
pub open spec fn rain_sample(
    pool: Seq<u32>,
    feed: Seq<u32>,
    c0: int,
    width: int,
    x: int,
    y: int,
) -> u32 {
    pool[(row_offset(feed[(c0 + y) % feed.len() as int], width) + x) % pool.len() as int]
}

/// A sample above the flat speckle threshold marks its pixel whatever the
/// distance: with a pool of such samples every pixel is rain clutter.
pub proof fn lemma_flat_speckle_dominates(s: u32, d2: int)
    requires
        s > 950000,
    ensures
        rain_mark(s, d2),
{
}

/// Marks rain clutter over the whole grid: pixel `(x, y)` gets alpha 128
/// exactly when its entropy sample and squared distance from the beam
/// origin satisfy `rain_mark`; every other byte is left as it was.  An
/// empty pool marks nothing.
pub fn rainify(
    bposx: u32,
    bposy: u32,
    img_width: u32,
    image: &mut PixelBuffer,
    pool: &EntropyPool,
    rand: &mut LiveRandom,
)
    requires
        img_width <= 32767,
        old(image).wf(),
        old(image).width == img_width,
        pool.wf(),
        old(rand).wf(),
    ensures
        final(image).wf(),
        final(image).width == img_width,
        final(image).data@.len() == old(image).data@.len(),
        final(rand).wf(),
        final(rand).samples == old(rand).samples,
        pool.samples@.len() == 0 ==> *final(image) == *old(image) && *final(rand) == *old(rand),
        pool.samples@.len() > 0 ==> final(rand).next == (old(rand).next + img_width) as int % old(
            rand,
        ).samples@.len() as int,
        pool.samples@.len() > 0 ==> forall|i: int|
            0 <= i < old(image).data@.len() && i % 4 != 3 ==> final(image).data@[i] == old(
                image,
            ).data@[i],
        forall|i: int|
            0 <= i < old(image).data@.len() && i % 4 == 3 ==> final(image).data@[i] == old(
                image,
            ).data@[i] || final(image).data@[i] == 128,
        pool.samples@.len() > 0 ==> forall|x: int, y: int|
            0 <= x < img_width && 0 <= y < img_width ==> final(image).alpha_at(x, y) == if rain_mark(
                rain_sample(
                    pool.samples@,
                    old(rand).samples@,
                    old(rand).next as int,
                    img_width as int,
                    x,
                    y,
                ),
                dist2(x, y, bposx as int, bposy as int),
            ) {
                128u8
            } else {
                old(image).alpha_at(x, y)
            },
{
    if pool.samples.len() == 0 {
        return ;
    }
    let ghost c0 = old(rand).next as int;
    let ghost n = old(rand).samples@.len() as int;
    let ghost feed = old(rand).samples@;
    let ghost pseq = pool.samples@;
    let ghost w = img_width as int;
    proof {
        lemma_small_mod(c0 as nat, n as nat);
    }
    let mut yy: u32 = 0;
    while yy < img_width
        invariant
            yy <= img_width,
            img_width <= 32767,
            pool.wf(),
            pool.samples@ == pseq,
            pseq.len() > 0,
            rand.wf(),
            rand.samples == old(rand).samples,
            rand.samples@ == feed,
            n == feed.len() as int,
            0 <= c0 < n,
            w == img_width as int,
            rand.next == (c0 + yy) % n,
            image.wf(),
            image.width == img_width,
            image.data@.len() == old(image).data@.len(),
            forall|i: int|
                0 <= i < old(image).data@.len() && i % 4 != 3 ==> image.data@[i] == old(
                    image,
                ).data@[i],
            forall|i: int|
                0 <= i < old(image).data@.len() && i % 4 == 3 ==> image.data@[i] == old(
                    image,
                ).data@[i] || image.data@[i] == 128,
            forall|x: int, y: int|
                0 <= x < w && 0 <= y < yy ==> image.alpha_at(x, y) == if rain_mark(
                    rain_sample(pseq, feed, c0, w, x, y),
                    dist2(x, y, bposx as int, bposy as int),
                ) {
                    128u8
                } else {
                    old(image).alpha_at(x, y)
                },
            forall|x: int, y: int|
                0 <= x < w && yy <= y < w ==> image.alpha_at(x, y) == old(image).alpha_at(x, y),
        decreases img_width - yy,
    {
        let s: u32 = rand.draw();
        proof {
            lemma_add_mod_noop_right(1, c0 + yy, n);
            assert(rand.next == (c0 + yy + 1) % n);
            assert(s == feed[(c0 + yy) % n]);
        }
        assert(img_width * img_width <= 1073741824) by (nonlinear_arith)
            requires
                img_width <= 32767u32,
        ;
        assert((s as int) * ((img_width as int) * (img_width as int)) <= 999999 * 1073741824)
            by (nonlinear_arith)
            requires
                s <= 999999u32,
                0 <= img_width as int,
                (img_width as int) * (img_width as int) <= 1073741824,
        ;
        let start: u64 = (s as u64) * ((img_width as u64) * (img_width as u64)) / 1000000;
        assert(start == row_offset(s, w));
        let mut xx: u32 = 0;
        while xx < img_width
            invariant
                xx <= img_width,
                yy < img_width,
                img_width <= 32767,
                pool.wf(),
                pool.samples@ == pseq,
                pseq.len() > 0,
                rand.wf(),
                rand.samples == old(rand).samples,
                rand.samples@ == feed,
                n == feed.len() as int,
                0 <= c0 < n,
                w == img_width as int,
                rand.next == (c0 + yy + 1) % n,
                s == feed[(c0 + yy) % n],
                start == row_offset(s, w),
                start <= 1073741824000000,
                image.wf(),
                image.width == img_width,
                image.data@.len() == old(image).data@.len(),
                forall|i: int|
                    0 <= i < old(image).data@.len() && i % 4 != 3 ==> image.data@[i] == old(
                        image,
                    ).data@[i],
                forall|i: int|
                    0 <= i < old(image).data@.len() && i % 4 == 3 ==> image.data@[i] == old(
                        image,
                    ).data@[i] || image.data@[i] == 128,
                forall|x: int, y: int|
                    0 <= x < w && 0 <= y < yy ==> image.alpha_at(x, y) == if rain_mark(
                        rain_sample(pseq, feed, c0, w, x, y),
                        dist2(x, y, bposx as int, bposy as int),
                    ) {
                        128u8
                    } else {
                        old(image).alpha_at(x, y)
                    },
                forall|x: int|
                    0 <= x < xx ==> image.alpha_at(x, yy as int) == if rain_mark(
                        rain_sample(pseq, feed, c0, w, x, yy as int),
                        dist2(x, yy as int, bposx as int, bposy as int),
                    ) {
                        128u8
                    } else {
                        old(image).alpha_at(x, yy as int)
                    },
                forall|x: int|
                    xx <= x < w ==> image.alpha_at(x, yy as int) == old(image).alpha_at(
                        x,
                        yy as int,
                    ),
                forall|x: int, y: int|
                    0 <= x < w && yy < y < w ==> image.alpha_at(x, y) == old(image).alpha_at(x, y),
            decreases img_width - xx,
        {
            let idx: usize = (((start + xx as u64)) % (pool.samples.len() as u64)) as usize;
            proof {
                assert(idx == (row_offset(s, w) + xx) % pseq.len() as int);
            }
            let sample: u32 = pool.samples[idx];
            proof {
                assert(sample == rain_sample(pseq, feed, c0, w, xx as int, yy as int));
            }
            let dxa: u64 = if xx >= bposx {
                (xx - bposx) as u64
            } else {
                (bposx - xx) as u64
            };
            let dya: u64 = if yy >= bposy {
                (yy - bposy) as u64
            } else {
                (bposy - yy) as u64
            };
            assert((dxa as int) * (dxa as int) + (dya as int) * (dya as int)
                <= 0x2_0000_0000_0000_0000) by (nonlinear_arith)
                requires
                    dxa <= 4294967295u64,
                    dya <= 4294967295u64,
            ;
            let d2: u128 = (dxa as u128) * (dxa as u128) + (dya as u128) * (dya as u128);
            proof {
                assert(d2 == dist2(xx as int, yy as int, bposx as int, bposy as int))
                    by (nonlinear_arith)
                    requires
                        d2 == (dxa as int) * (dxa as int) + (dya as int) * (dya as int),
                        dxa == if xx >= bposx {
                            xx - bposx
                        } else {
                            bposx - xx
                        },
                        dya == if yy >= bposy {
                            yy - bposy
                        } else {
                            bposy - yy
                        },
                ;
            }
            let marked: bool = if sample > 950000 {
                true
            } else if sample > 500000 {
                assert(((sample - 500000) as int) * (d2 as int) <= 0x100000_0000_0000_0000_0000)
                    by (nonlinear_arith)
                    requires
                        sample <= 999999u32,
                        0 <= (d2 as int) <= 0x2_0000_0000_0000_0000,
                ;
                ((sample - 500000) as u128) * d2 > 4900000000
            } else {
                false
            };
            proof {
                assert(marked == rain_mark(
                    sample,
                    dist2(xx as int, yy as int, bposx as int, bposy as int),
                ));
            }
            let ghost prev = *image;
            if marked {
                image.set_alpha(xx, yy, 128);
            }
            proof {
                prev.lemma_alpha_index(xx as int, yy as int);
                assert forall|x: int, y: int|
                    0 <= x < w && 0 <= y < w && (x != xx as int || y
                        != yy as int) implies image.alpha_at(x, y) == prev.alpha_at(x, y) by {
                    prev.lemma_alpha_index(x, y);
                }
                if marked {
                    assert(image.alpha_at(xx as int, yy as int) == 128u8);
                } else {
                    assert(image.alpha_at(xx as int, yy as int) == prev.alpha_at(
                        xx as int,
                        yy as int,
                    ));
                }
                assert forall|x: int, y: int| 0 <= x < w && 0 <= y < yy implies image.alpha_at(
                    x,
                    y,
                ) == (if rain_mark(
                    rain_sample(pseq, feed, c0, w, x, y),
                    dist2(x, y, bposx as int, bposy as int),
                ) {
                    128u8
                } else {
                    old(image).alpha_at(x, y)
                }) by {
                    assert(prev.alpha_at(x, y) == (if rain_mark(
                        rain_sample(pseq, feed, c0, w, x, y),
                        dist2(x, y, bposx as int, bposy as int),
                    ) {
                        128u8
                    } else {
                        old(image).alpha_at(x, y)
                    }));
                    assert(image.alpha_at(x, y) == prev.alpha_at(x, y));
                }
                assert forall|x: int| 0 <= x < xx + 1 implies image.alpha_at(x, yy as int) == (
                if rain_mark(
                    rain_sample(pseq, feed, c0, w, x, yy as int),
                    dist2(x, yy as int, bposx as int, bposy as int),
                ) {
                    128u8
                } else {
                    old(image).alpha_at(x, yy as int)
                }) by {
                    if x == xx as int {
                        assert(marked == rain_mark(
                            rain_sample(pseq, feed, c0, w, x, yy as int),
                            dist2(x, yy as int, bposx as int, bposy as int),
                        ));
                        if !marked {
                            assert(image.alpha_at(x, yy as int) == prev.alpha_at(x, yy as int));
                            assert(prev.alpha_at(x, yy as int) == old(image).alpha_at(
                                x,
                                yy as int,
                            ));
                        }
                    } else {
                        assert(prev.alpha_at(x, yy as int) == (if rain_mark(
                            rain_sample(pseq, feed, c0, w, x, yy as int),
                            dist2(x, yy as int, bposx as int, bposy as int),
                        ) {
                            128u8
                        } else {
                            old(image).alpha_at(x, yy as int)
                        }));
                        assert(image.alpha_at(x, yy as int) == prev.alpha_at(x, yy as int));
                    }
                }
            }
            xx = xx + 1;
        }
        yy = yy + 1;
    }
}

} // verus!
