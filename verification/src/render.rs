//! The sweep orchestrator: per-render settings, the process-wide state
//! container, and the render entry points.

use vstd::prelude::*;

verus! {

/// The fatal conditions: a sample sequence too short to fill the grid, and
/// a render without a loaded heightmap.
#[derive(Clone, Copy, Debug, PartialEq, Eq, Structural)]
pub enum RadarError {
    InputTooShort,
    NoHeightmapLoaded,
}

/// A beamwidth in Q16.16 degrees converted to Q16.16 radians.
pub open spec fn rad_of_deg(deg_q16: int) -> int {
    deg_q16 * 205887 / 11796480
}

/// Immutable per-render options.  The beamwidth feeds both the angular
/// stepping of the sweep and the echo error-spread length; electronic
/// interference is only effective on beams wider than 2 degrees.
pub struct RadarSettings {
    pub beamwidth_deg_q16: u64,
    pub beamwidth_rad_q16: u64,
    pub rain_interf: bool,
    pub radar_interf: bool,
}

impl RadarSettings {
    /// The radian value is derived from the degree value, and both lie in
    /// the accepted band (at least one Q16.16 step of a radian, at most a
    /// full rotation).
    pub open spec fn wf(self) -> bool {
        &&& 58 <= self.beamwidth_deg_q16 <= 23592960
        &&& self.beamwidth_rad_q16 == rad_of_deg(self.beamwidth_deg_q16 as int)
        &&& 1 <= self.beamwidth_rad_q16 <= 411774
    }

    /// Builds the settings for one render.  A narrow beam (2 degrees or
    /// less) never gets electronic interference.
    pub fn new(beamwidth_deg_q16: u64, rain_interf: bool, radar_interf: bool) -> (r:
        RadarSettings)
        requires
            58 <= beamwidth_deg_q16 <= 23592960,
        ensures
            r.wf(),
            r.beamwidth_deg_q16 == beamwidth_deg_q16,
            r.rain_interf == rain_interf,
            r.radar_interf == (radar_interf && beamwidth_deg_q16 > 131072),
    {
        let rad: u64 = beamwidth_deg_q16 * 205887 / 11796480;
        assert(1 <= rad && rad <= 411774) by {
            assert(58 * 205887 <= beamwidth_deg_q16 * 205887 <= 23592960 * 205887)
                by (nonlinear_arith)
                requires
                    58 <= beamwidth_deg_q16 <= 23592960u64,
            ;
            assert(beamwidth_deg_q16 * 205887 / 11796480 >= 11941446int / 11796480)
                by (nonlinear_arith)
                requires
                    beamwidth_deg_q16 * 205887 >= 11941446,
            ;
            assert(beamwidth_deg_q16 * 205887 / 11796480 <= 4857483755520int / 11796480)
                by (nonlinear_arith)
                requires
                    beamwidth_deg_q16 * 205887 <= 4857483755520,
            ;
        }
        RadarSettings {
            beamwidth_deg_q16,
            beamwidth_rad_q16: rad,
            rain_interf,
            radar_interf: if beamwidth_deg_q16 > 131072 {
                radar_interf
            } else {
                false
            },
        }
    }
}

/// The grids a load publishes: the heightmap and the entropy pool,
/// replaced together, read together by every render.
pub struct MapState {
    pub heightmap: crate::heightmap::Heightmap,
    pub pool: crate::entropy::EntropyPool,
}

impl MapState {
    pub open spec fn wf(self) -> bool {
        &&& self.heightmap.wf()
        &&& self.pool.wf()
    }
}

/// The owned container for the process-wide state: holds the published
/// grids, or nothing before the first load.
pub struct RadarState {
    pub map: Option<MapState>,
}

impl RadarState {
    pub open spec fn wf(self) -> bool {
        self.map is Some ==> self.map.unwrap().wf()
    }

    /// A fresh container with no heightmap loaded.
    pub fn new() -> (r: RadarState)
        ensures
            r.wf(),
            r.map is None,
    {
        RadarState { map: None }
    }

    /// Builds a `w` by `w` heightmap from a flat sequence of per-channel
    /// source samples (four per source pixel, alpha ignored) and a fresh
    /// entropy pool of `w * w` draws from the live random source, then
    /// publishes both, replacing whatever was loaded before.  A sample
    /// sequence shorter than `4 * w * w` is rejected whole: nothing is
    /// drawn and nothing replaced.
    pub fn create_heightmap(&mut self, w: u32, samples: &Vec<u8>, rand: &mut crate::entropy::LiveRandom) -> (r: Result<
        (),
        RadarError,
    >)
        requires
            w <= 32767,
            old(self).wf(),
            old(rand).wf(),
        ensures
            final(self).wf(),
            final(rand).wf(),
            final(rand).samples == old(rand).samples,
            samples@.len() < 4 * (w as int) * (w as int) ==> r == Err::<(), RadarError>(
                RadarError::InputTooShort,
            ) && *final(self) == *old(self) && *final(rand) == *old(rand),
            samples@.len() >= 4 * (w as int) * (w as int) ==> {
                &&& r == Ok::<(), RadarError>(())
                &&& final(self).map is Some
                &&& final(self).map.unwrap().pool.samples@.len() == (w as int) * (w as int)
                &&& forall|i: int|
                    0 <= i < (w as int) * (w as int) ==> final(self).map.unwrap().pool.samples@[i]
                        == old(rand).samples@[(old(rand).next + i) % old(
                        rand,
                    ).samples@.len() as int]
                &&& final(rand).next == (old(rand).next + (w as int) * (w as int)) % old(
                    rand,
                ).samples@.len() as int
                &&& final(self).map.unwrap().heightmap.cells@.len() == (w as int) * (w as int)
                &&& forall|i: int|
                    0 <= i < (w as int) * (w as int)
                        ==> final(self).map.unwrap().heightmap.cells@[i]
                        == crate::heightmap::stored_q8(
                        crate::heightmap::decoded_q8(
                            samples@[4 * i],
                            samples@[4 * i + 1],
                            samples@[4 * i + 2],
                        ),
                    )
            },
    {
        assert(w * w <= 1073741824) by (nonlinear_arith)
            requires
                w <= 32767u32,
        ;
        let cell_count: u64 = (w as u64) * (w as u64);
        assert(cell_count == (w as int) * (w as int));
        assert(4 * (w as int) * (w as int) == 4 * ((w as int) * (w as int))) by (nonlinear_arith);
        if (samples.len() as u64) < 4 * cell_count {
            assert(samples@.len() < 4 * (w as int) * (w as int));
            return Err(RadarError::InputTooShort);
        }
        assert(samples@.len() >= 4 * (w as int) * (w as int));
        let ghost c0 = old(rand).next as int;
        let ghost n = old(rand).samples@.len() as int;
        let ghost feed = old(rand).samples@;
        proof {
            vstd::arithmetic::div_mod::lemma_small_mod(c0 as nat, n as nat);
        }
        let mut pool_samples: Vec<u32> = Vec::new();
        let mut i: u64 = 0;
        while i < cell_count
            invariant
                i <= cell_count,
                rand.wf(),
                rand.samples == old(rand).samples,
                rand.samples@ == feed,
                n == feed.len() as int,
                0 <= c0 < n,
                rand.next == (c0 + i) % n,
                pool_samples@.len() == i,
                forall|j: int|
                    0 <= j < i ==> #[trigger] pool_samples@[j] == feed[(c0 + j) % n],
                forall|j: int| 0 <= j < i ==> #[trigger] pool_samples@[j] < 1000000,
            decreases cell_count - i,
        {
            let s = rand.draw();
            proof {
                vstd::arithmetic::div_mod::lemma_add_mod_noop_right(1, c0 + i, n);
            }
            pool_samples.push(s);
            i = i + 1;
        }
        let mut cells: Vec<i64> = Vec::new();
        let mut j: u64 = 0;
        while j < cell_count
            invariant
                j <= cell_count,
                cell_count == (w as int) * (w as int),
                cell_count <= 1073741824,
                samples@.len() >= 4 * cell_count,
                cells@.len() == j,
                forall|k: int|
                    0 <= k < j ==> #[trigger] cells@[k] == crate::heightmap::stored_q8(
                        crate::heightmap::decoded_q8(
                            samples@[4 * k],
                            samples@[4 * k + 1],
                            samples@[4 * k + 2],
                        ),
                    ),
                forall|k: int| 0 <= k < j ==> 0 <= #[trigger] cells@[k] <= 83886070,
            decreases cell_count - j,
        {
            let base: usize = (4 * j) as usize;
            let red = samples[base];
            let green = samples[base + 1];
            let blue = samples[base + 2];
            let d = crate::heightmap::pixeldata_to_height(red, green, blue);
            let stored: i64 = if d > 2048 {
                d * 10
            } else {
                0
            };
            cells.push(stored);
            j = j + 1;
        }
        self.map = Some(
            MapState {
                heightmap: crate::heightmap::Heightmap { cells },
                pool: crate::entropy::EntropyPool { samples: pool_samples },
            },
        );
        Ok(())
    }
}

/// The angles of one full sweep: multiples of the beamwidth from zero up
/// to a full rotation, in Q16.16 radians.
pub fn sweep_angles(beamwidth_rad_q16: u64) -> (r: Vec<u64>)
    requires
        1 <= beamwidth_rad_q16 <= 411775,
    ensures
        r@.len() >= 1,
        forall|i: int| 0 <= i < r@.len() ==> #[trigger] r@[i] == i * beamwidth_rad_q16,
        forall|i: int| 0 <= i < r@.len() ==> #[trigger] r@[i] < 411774,
        r@.len() * beamwidth_rad_q16 >= 411774,
{
    let mut r: Vec<u64> = Vec::new();
    let mut angle: u64 = 0;
    proof {
        assert(0int * beamwidth_rad_q16 == 0) by (nonlinear_arith);
    }
    while angle < 411774
        invariant
            1 <= beamwidth_rad_q16 <= 411775,
            angle == r@.len() * beamwidth_rad_q16,
            angle <= 411773 + beamwidth_rad_q16,
            forall|i: int| 0 <= i < r@.len() ==> #[trigger] r@[i] == i * beamwidth_rad_q16,
            forall|i: int| 0 <= i < r@.len() ==> #[trigger] r@[i] < 411774,
        decreases (if angle >= 411774 { 0int } else { 411774 - angle }),
    {
        r.push(angle);
        proof {
            assert(r@.len() * beamwidth_rad_q16 == (r@.len() - 1) * beamwidth_rad_q16
                + beamwidth_rad_q16) by (nonlinear_arith);
        }
        angle = angle + beamwidth_rad_q16;
    }
    r
}

/// The grid cell handed to the rain overlay for one Q16.16 origin
/// coordinate: negative coordinates clamp to 0, oversized ones to the
/// largest cell index.
pub open spec fn origin_cell(q: int) -> int {
    if q <= 0 {
        0
    } else if q / 65536 >= 4294967295 {
        4294967295
    } else {
        q / 65536
    }
}

/// Whether pixel `(px, py)` is painted by an echo of any of the first `n`
/// rays of a sweep from `(bpx, bpy)`.
pub open spec fn sweep_echo_hit(
    cells: Seq<i64>,
    width: int,
    bpx: int,
    bpy: int,
    dirs: Seq<(i64, i64)>,
    n: int,
    bw: int,
    px: int,
    py: int,
) -> bool {
    exists|r: int|
        0 <= r < n && #[trigger] crate::ray::ray_echo_hit(
            crate::ray::march_heights(
                cells,
                width,
                bpx,
                bpy,
                dirs[r].0 as int,
                dirs[r].1 as int,
                (2 * width + 4) as nat,
            ),
            bpx,
            bpy,
            dirs[r].0 as int,
            dirs[r].1 as int,
            bw,
            px,
            py,
        )
}

/// Runs one full sweep into an existing buffer: one ray per direction,
/// then the rain overlay once if it is enabled.  The beam origin is given
/// in Q16.16; the direction table carries one normalized direction per
/// sweep angle.
pub fn process_image(
    img_width: u32,
    image: &mut crate::buffer::PixelBuffer,
    bposx: i64,
    bposy: i64,
    settings: &RadarSettings,
    dirs: &Vec<(i64, i64)>,
    map: &MapState,
    rand: &mut crate::entropy::LiveRandom,
)
    requires
        img_width <= 32767,
        old(image).wf(),
        old(image).width == img_width,
        settings.wf(),
        map.wf(),
        old(rand).wf(),
        forall|i: int|
            0 <= i < dirs@.len() ==> crate::ray::unit_dir(
                #[trigger] dirs@[i].0 as int,
                dirs@[i].1 as int,
            ),
    ensures
        final(image).wf(),
        final(image).width == img_width,
        final(image).data@.len() == old(image).data@.len(),
        forall|i: int|
            0 <= i < old(image).data@.len() && i % 4 != 3 ==> final(image).data@[i] == old(
                image,
            ).data@[i],
        forall|i: int|
            0 <= i < old(image).data@.len() && i % 4 == 3 ==> final(image).data@[i] == old(
                image,
            ).data@[i] || final(image).data@[i] == 220 || final(image).data@[i] == 255 || final(image).data@[i] == 128,
        final(rand).wf(),
        final(rand).samples == old(rand).samples,
        !settings.rain_interf ==> forall|i: int|
            0 <= i < old(image).data@.len() && i % 4 == 3 ==> final(image).data@[i] == old(
                image,
            ).data@[i] || final(image).data@[i] == 220 || final(image).data@[i] == 255,
        (!settings.radar_interf && (!settings.rain_interf || map.pool.samples@.len() == 0))
            ==> forall|px: int, py: int|
            0 <= px < img_width && 0 <= py < img_width ==> final(image).alpha_at(px, py) == (
            if sweep_echo_hit(
                map.heightmap.cells@,
                img_width as int,
                bposx as int,
                bposy as int,
                dirs@,
                dirs@.len() as int,
                settings.beamwidth_rad_q16 as int,
                px,
                py,
            ) {
                255u8
            } else {
                old(image).alpha_at(px, py)
            }),
        (!settings.radar_interf && settings.rain_interf && map.pool.samples@.len() > 0)
            ==> forall|px: int, py: int|
            0 <= px < img_width && 0 <= py < img_width ==> final(image).alpha_at(px, py) == (
            if crate::rain::rain_mark(
                crate::rain::rain_sample(
                    map.pool.samples@,
                    old(rand).samples@,
                    old(rand).next as int,
                    img_width as int,
                    px,
                    py,
                ),
                crate::rain::dist2(px, py, origin_cell(bposx as int), origin_cell(bposy as int)),
            ) {
                128u8
            } else if sweep_echo_hit(
                map.heightmap.cells@,
                img_width as int,
                bposx as int,
                bposy as int,
                dirs@,
                dirs@.len() as int,
                settings.beamwidth_rad_q16 as int,
                px,
                py,
            ) {
                255u8
            } else {
                old(image).alpha_at(px, py)
            }),
        (!settings.radar_interf && !settings.rain_interf && map.heightmap.is_flat())
            ==> *final(image) == *old(image),
{
    let ghost cells = map.heightmap.cells@;
    let ghost wi = img_width as int;
    let ghost bw = settings.beamwidth_rad_q16 as int;
    let ghost bxi = bposx as int;
    let ghost byi = bposy as int;
    let mut k: usize = 0;
    while k < dirs.len()
        invariant
            k <= dirs@.len(),
            img_width <= 32767,
            settings.wf(),
            map.wf(),
            image.wf(),
            image.width == img_width,
            image.data@.len() == old(image).data@.len(),
            rand.wf(),
            rand.samples == old(rand).samples,
            forall|i: int|
                0 <= i < dirs@.len() ==> crate::ray::unit_dir(
                    #[trigger] dirs@[i].0 as int,
                    dirs@[i].1 as int,
                ),
            forall|i: int|
                0 <= i < old(image).data@.len() && i % 4 != 3 ==> image.data@[i] == old(
                    image,
                ).data@[i],
            forall|i: int|
                0 <= i < old(image).data@.len() && i % 4 == 3 ==> image.data@[i] == old(
                    image,
                ).data@[i] || image.data@[i] == 220 || image.data@[i] == 255,
            (!settings.radar_interf && map.heightmap.is_flat()) ==> *image == *old(image),
            !settings.radar_interf ==> *rand == *old(rand),
            cells == map.heightmap.cells@,
            wi == img_width as int,
            bw == settings.beamwidth_rad_q16 as int,
            bxi == bposx as int,
            byi == bposy as int,
            !settings.radar_interf ==> forall|px: int, py: int|
                0 <= px < wi && 0 <= py < wi ==> image.alpha_at(px, py) == (if sweep_echo_hit(
                    cells,
                    wi,
                    bxi,
                    byi,
                    dirs@,
                    k as int,
                    bw,
                    px,
                    py,
                ) {
                    255u8
                } else {
                    old(image).alpha_at(px, py)
                }),
        decreases dirs@.len() - k,
    {
        let d = dirs[k];
        let ghost prev = *image;
        crate::ray::draw_ray_by_norm_dir(
            d.0,
            d.1,
            bposx,
            bposy,
            settings,
            img_width,
            image,
            &map.heightmap,
            rand,
        );
        proof {
            if !settings.radar_interf {
                let ghost hs_k = crate::ray::march_heights(
                    cells,
                    wi,
                    bxi,
                    byi,
                    d.0 as int,
                    d.1 as int,
                    (2 * wi + 4) as nat,
                );
                let ki = k as int;
                assert forall|px: int, py: int| 0 <= px < wi && 0 <= py < wi implies
                    image.alpha_at(px, py) == (if sweep_echo_hit(
                    cells,
                    wi,
                    bxi,
                    byi,
                    dirs@,
                    ki + 1,
                    bw,
                    px,
                    py,
                ) {
                    255u8
                } else {
                    old(image).alpha_at(px, py)
                }) by {
                    if crate::ray::ray_echo_hit(hs_k, bxi, byi, d.0 as int, d.1 as int, bw, px, py) {
                        assert(image.alpha_at(px, py) == 255u8);
                        assert(sweep_echo_hit(cells, wi, bxi, byi, dirs@, ki + 1, bw, px, py));
                    } else {
                        assert(image.alpha_at(px, py) == prev.alpha_at(px, py));
                        if sweep_echo_hit(cells, wi, bxi, byi, dirs@, ki + 1, bw, px, py) {
                            let r = choose|r: int|
                                0 <= r < ki + 1 && #[trigger] crate::ray::ray_echo_hit(
                                    crate::ray::march_heights(
                                        cells,
                                        wi,
                                        bxi,
                                        byi,
                                        dirs@[r].0 as int,
                                        dirs@[r].1 as int,
                                        (2 * wi + 4) as nat,
                                    ),
                                    bxi,
                                    byi,
                                    dirs@[r].0 as int,
                                    dirs@[r].1 as int,
                                    bw,
                                    px,
                                    py,
                                );
                            if r == ki {
                                assert(false);
                            } else {
                                assert(sweep_echo_hit(cells, wi, bxi, byi, dirs@, ki, bw, px, py));
                            }
                        }
                        if sweep_echo_hit(cells, wi, bxi, byi, dirs@, ki, bw, px, py) {
                            let r = choose|r: int|
                                0 <= r < ki && #[trigger] crate::ray::ray_echo_hit(
                                    crate::ray::march_heights(
                                        cells,
                                        wi,
                                        bxi,
                                        byi,
                                        dirs@[r].0 as int,
                                        dirs@[r].1 as int,
                                        (2 * wi + 4) as nat,
                                    ),
                                    bxi,
                                    byi,
                                    dirs@[r].0 as int,
                                    dirs@[r].1 as int,
                                    bw,
                                    px,
                                    py,
                                );
                            assert(sweep_echo_hit(cells, wi, bxi, byi, dirs@, ki + 1, bw, px, py));
                        }
                    }
                }
            }
        }
        k = k + 1;
    }
    if settings.rain_interf {
        let ox: u32 = if bposx <= 0 {
            0
        } else {
            let c: i64 = bposx / 65536;
            if c >= 4294967295 {
                4294967295
            } else {
                c as u32
            }
        };
        let oy: u32 = if bposy <= 0 {
            0
        } else {
            let c: i64 = bposy / 65536;
            if c >= 4294967295 {
                4294967295
            } else {
                c as u32
            }
        };
        let ghost pre_rain = *image;
        proof {
            assert(ox == origin_cell(bxi) && oy == origin_cell(byi));
            if !settings.radar_interf {
                assert forall|px: int, py: int| 0 <= px < wi && 0 <= py < wi implies
                    pre_rain.alpha_at(px, py) == (if sweep_echo_hit(
                    cells,
                    wi,
                    bxi,
                    byi,
                    dirs@,
                    dirs@.len() as int,
                    bw,
                    px,
                    py,
                ) {
                    255u8
                } else {
                    old(image).alpha_at(px, py)
                }) by {
                    assert(image.alpha_at(px, py) == (if sweep_echo_hit(
                        cells,
                        wi,
                        bxi,
                        byi,
                        dirs@,
                        dirs@.len() as int,
                        bw,
                        px,
                        py,
                    ) {
                        255u8
                    } else {
                        old(image).alpha_at(px, py)
                    }));
                }
            }
        }
        crate::rain::rainify(ox, oy, img_width, image, &map.pool, rand);
        proof {
            if !settings.radar_interf && map.pool.samples@.len() > 0 {
                assert forall|px: int, py: int| 0 <= px < wi && 0 <= py < wi implies
                    image.alpha_at(px, py) == (if crate::rain::rain_mark(
                    crate::rain::rain_sample(
                        map.pool.samples@,
                        old(rand).samples@,
                        old(rand).next as int,
                        wi,
                        px,
                        py,
                    ),
                    crate::rain::dist2(px, py, origin_cell(bxi), origin_cell(byi)),
                ) {
                    128u8
                } else if sweep_echo_hit(
                    cells,
                    wi,
                    bxi,
                    byi,
                    dirs@,
                    dirs@.len() as int,
                    bw,
                    px,
                    py,
                ) {
                    255u8
                } else {
                    old(image).alpha_at(px, py)
                }) by {
                    assert(pre_rain.alpha_at(px, py) == (if sweep_echo_hit(
                        cells,
                        wi,
                        bxi,
                        byi,
                        dirs@,
                        dirs@.len() as int,
                        bw,
                        px,
                        py,
                    ) {
                        255u8
                    } else {
                        old(image).alpha_at(px, py)
                    }));
                }
            }
        }
    }
}

/// The side length of the rendered output frame.
pub const RENDER_WIDTH: u32 = 512;

impl RadarState {
    /// Renders one frame: allocates the base-colored buffer, runs the full
    /// sweep with the given settings, and hands the buffer to the caller.
    /// Rendering without a loaded heightmap fails with
    /// `NoHeightmapLoaded` and touches nothing.
    pub fn render(
        &self,
        bposx: i64,
        bposy: i64,
        beamwidth_deg_q16: u64,
        rain_interf: bool,
        radar_interf: bool,
        dirs: &Vec<(i64, i64)>,
        rand: &mut crate::entropy::LiveRandom,
    ) -> (r: Result<crate::buffer::PixelBuffer, RadarError>)
        requires
            self.wf(),
            58 <= beamwidth_deg_q16 <= 23592960,
            old(rand).wf(),
            forall|i: int|
                0 <= i < dirs@.len() ==> crate::ray::unit_dir(
                    #[trigger] dirs@[i].0 as int,
                    dirs@[i].1 as int,
                ),
        ensures
            r is Err <==> self.map is None,
            r is Err ==> r == Err::<crate::buffer::PixelBuffer, RadarError>(
                RadarError::NoHeightmapLoaded,
            ) && *final(rand) == *old(rand),
            final(rand).wf(),
            final(rand).samples == old(rand).samples,
            r is Ok ==> {
                &&& r.unwrap().wf()
                &&& r.unwrap().width == 512
                &&& r.unwrap().data@.len() == 512 * 512 * 4
                &&& forall|i: int|
                    0 <= i < r.unwrap().data@.len() && i % 4 != 3 ==> r.unwrap().data@[i]
                        == crate::buffer::base_byte(i)
                &&& forall|i: int|
                    0 <= i < r.unwrap().data@.len() && i % 4 == 3 ==> (r.unwrap().data@[i] == 0
                        || r.unwrap().data@[i] == 220 || r.unwrap().data@[i] == 255
                        || r.unwrap().data@[i] == 128)
                &&& (!rain_interf && !radar_interf) ==> forall|px: int, py: int|
                    0 <= px < 512 && 0 <= py < 512 ==> r.unwrap().alpha_at(px, py) == (
                    if sweep_echo_hit(
                        self.map.unwrap().heightmap.cells@,
                        512,
                        bposx as int,
                        bposy as int,
                        dirs@,
                        dirs@.len() as int,
                        rad_of_deg(beamwidth_deg_q16 as int),
                        px,
                        py,
                    ) {
                        255u8
                    } else {
                        0u8
                    })
                &&& (rain_interf && !radar_interf && self.map.unwrap().pool.samples@.len() > 0)
                    ==> forall|px: int, py: int|
                    0 <= px < 512 && 0 <= py < 512 ==> r.unwrap().alpha_at(px, py) == (
                    if crate::rain::rain_mark(
                        crate::rain::rain_sample(
                            self.map.unwrap().pool.samples@,
                            old(rand).samples@,
                            old(rand).next as int,
                            512,
                            px,
                            py,
                        ),
                        crate::rain::dist2(
                            px,
                            py,
                            origin_cell(bposx as int),
                            origin_cell(bposy as int),
                        ),
                    ) {
                        128u8
                    } else if sweep_echo_hit(
                        self.map.unwrap().heightmap.cells@,
                        512,
                        bposx as int,
                        bposy as int,
                        dirs@,
                        dirs@.len() as int,
                        rad_of_deg(beamwidth_deg_q16 as int),
                        px,
                        py,
                    ) {
                        255u8
                    } else {
                        0u8
                    })
                &&& (!rain_interf && !radar_interf && self.map.unwrap().heightmap.is_flat())
                    ==> forall|i: int|
                    0 <= i < r.unwrap().data@.len() ==> r.unwrap().data@[i]
                        == crate::buffer::base_byte(i)
            },
    {
        let map = match &self.map {
            Some(m) => m,
            None => {
                return Err(RadarError::NoHeightmapLoaded);
            },
        };
        let settings = RadarSettings::new(beamwidth_deg_q16, rain_interf, radar_interf);
        let mut image = crate::buffer::PixelBuffer::new(RENDER_WIDTH);
        let ghost base = image;
        process_image(RENDER_WIDTH, &mut image, bposx, bposy, &settings, dirs, map, rand);
        proof {
            if rain_interf && !radar_interf && map.pool.samples@.len() > 0 {
                assert forall|px: int, py: int| 0 <= px < 512 && 0 <= py < 512 implies
                    image.alpha_at(px, py) == (if crate::rain::rain_mark(
                    crate::rain::rain_sample(
                        map.pool.samples@,
                        old(rand).samples@,
                        old(rand).next as int,
                        512,
                        px,
                        py,
                    ),
                    crate::rain::dist2(
                        px,
                        py,
                        origin_cell(bposx as int),
                        origin_cell(bposy as int),
                    ),
                ) {
                    128u8
                } else if sweep_echo_hit(
                    map.heightmap.cells@,
                    512,
                    bposx as int,
                    bposy as int,
                    dirs@,
                    dirs@.len() as int,
                    rad_of_deg(beamwidth_deg_q16 as int),
                    px,
                    py,
                ) {
                    255u8
                } else {
                    0u8
                }) by {
                    base.lemma_alpha_index(px, py);
                    assert(base.alpha_at(px, py) == crate::buffer::base_byte(
                        base.alpha_index(px, py),
                    ));
                }
            }
            if !rain_interf && !radar_interf {
                assert forall|px: int, py: int| 0 <= px < 512 && 0 <= py < 512 implies
                    image.alpha_at(px, py) == (if sweep_echo_hit(
                    map.heightmap.cells@,
                    512,
                    bposx as int,
                    bposy as int,
                    dirs@,
                    dirs@.len() as int,
                    rad_of_deg(beamwidth_deg_q16 as int),
                    px,
                    py,
                ) {
                    255u8
                } else {
                    0u8
                }) by {
                    base.lemma_alpha_index(px, py);
                    assert(base.alpha_at(px, py) == crate::buffer::base_byte(
                        base.alpha_index(px, py),
                    ));
                }
            }
            assert forall|i: int| 0 <= i < image.data@.len() && i % 4 == 3 implies (
            image.data@[i] == 0 || image.data@[i] == 220 || image.data@[i] == 255
                || image.data@[i] == 128) by {
                assert(base.data@[i] == crate::buffer::base_byte(i));
                assert(image.data@[i] == base.data@[i] || image.data@[i] == 220 || image.data@[i]
                    == 255 || image.data@[i] == 128);
            }
        }
        Ok(image)
    }
}

} // verus!
