use radar_sweep::buffer::index_from_pos;
use radar_sweep::buffer::PixelBuffer;
use radar_sweep::entropy::EntropyPool;
use radar_sweep::entropy::LiveRandom;
use radar_sweep::fixed::error_spread_len;
use radar_sweep::fixed::isqrt64;
use radar_sweep::heightmap::pixel_data_at;
use radar_sweep::heightmap::pixeldata_to_height;
use radar_sweep::heightmap::Heightmap;
use radar_sweep::rain::rainify;
use radar_sweep::ray::draw_ray_by_norm_dir;
use radar_sweep::ray::echo_step;
use radar_sweep::ray::paint_error_line;
use radar_sweep::render::sweep_angles;
use radar_sweep::render::RadarError;
use radar_sweep::render::RadarSettings;
use radar_sweep::render::RadarState;

fn feed(samples: Vec<u32>) -> LiveRandom {
    LiveRandom::new(samples).unwrap()
}

fn alpha(image: &PixelBuffer, x: u32, y: u32) -> u8 {
    image.data[((x + y * image.width) * 4 + 3) as usize]
}

#[test]
fn decode_packs_rgb_into_elevation() {
    // r*256 + g + b/256 - 32768, in Q8 fixed point (scaled by 256)
    assert_eq!(pixeldata_to_height(128, 0, 0), 0);
    assert_eq!(pixeldata_to_height(128, 9, 0), 9 * 256);
    assert_eq!(pixeldata_to_height(128, 8, 0), 8 * 256);
    assert_eq!(pixeldata_to_height(128, 8, 128), 8 * 256 + 128);
    assert_eq!(pixeldata_to_height(0, 0, 0), -8388608);
    assert_eq!(pixeldata_to_height(255, 255, 255), 8388607);
}

#[test]
fn load_flattens_low_and_scales_high() {
    // decoded <= 8.0 stores 0; decoded > 8.0 stores decoded * 10
    let mut state = RadarState::new();
    let mut rand = feed(vec![0]);
    let mut samples: Vec<u8> = Vec::new();
    for (r, g, b) in [(128, 0, 0), (128, 8, 0), (128, 8, 128), (129, 0, 0)] {
        samples.push(r);
        samples.push(g);
        samples.push(b);
        samples.push(255);
    }
    state
        .create_heightmap(2, &samples, &mut rand)
        .expect("enough samples");
    let cells = &state.map.as_ref().unwrap().heightmap.cells;
    assert_eq!(cells[0], 0); // decoded 0
    assert_eq!(cells[1], 0); // decoded exactly 8: not above the threshold
    assert_eq!(cells[2], (8 * 256 + 128) * 10); // decoded 8.5: scaled by 10
    assert_eq!(cells[3], 65536 * 10); // decoded 256
}

#[test]
fn load_rejects_short_input_untouched() {
    let mut state = RadarState::new();
    let mut rand = feed(vec![7]);
    let samples: Vec<u8> = vec![128; 15]; // needs 4 * 2 * 2 = 16
    let r = state.create_heightmap(2, &samples, &mut rand);
    assert_eq!(r, Err(RadarError::InputTooShort));
    assert!(state.map.is_none());
    assert_eq!(rand.next, 0); // nothing drawn
}

#[test]
fn entropy_pool_length_equals_cell_count() {
    for w in [1u32, 2, 3, 5] {
        let mut state = RadarState::new();
        let mut rand = feed(vec![11, 22, 33]);
        let samples: Vec<u8> = vec![128, 0, 0, 255]
            .into_iter()
            .cycle()
            .take((4 * w * w) as usize)
            .collect();
        state.create_heightmap(w, &samples, &mut rand).unwrap();
        let pool = &state.map.as_ref().unwrap().pool;
        assert_eq!(pool.samples.len(), (w * w) as usize);
    }
}

#[test]
fn pool_draws_cycle_through_the_feed() {
    let mut state = RadarState::new();
    let mut rand = feed(vec![11, 22, 33]);
    let samples: Vec<u8> = vec![128, 0, 0, 255, 128, 0, 0, 255, 128, 0, 0, 255, 128, 0, 0, 255];
    state.create_heightmap(2, &samples, &mut rand).unwrap();
    let pool = &state.map.as_ref().unwrap().pool;
    assert_eq!(pool.samples, vec![11, 22, 33, 11]);
    assert_eq!(rand.next, 1); // four draws from a feed of three
}

#[test]
fn index_maps_row_major_and_rejects_edges() {
    assert_eq!(index_from_pos(3, 2, 4, true), Some(44));
    assert_eq!(index_from_pos(3, 2, 4, false), Some(11));
    assert_eq!(index_from_pos(0, 0, 4, true), Some(0));
    assert_eq!(index_from_pos(4, 0, 4, true), None);
    assert_eq!(index_from_pos(0, 4, 4, false), None);
    assert_eq!(index_from_pos(7, 9, 4, true), None);
}

#[test]
fn live_random_validates_and_cycles() {
    assert!(LiveRandom::new(vec![]).is_none());
    assert!(LiveRandom::new(vec![1000000]).is_none());
    let mut r = feed(vec![1, 2, 3]);
    assert_eq!(r.draw(), 1);
    assert_eq!(r.draw(), 2);
    assert_eq!(r.draw(), 3);
    assert_eq!(r.draw(), 1);
}

#[test]
fn isqrt_takes_the_floor() {
    assert_eq!(isqrt64(0), 0);
    assert_eq!(isqrt64(1), 1);
    assert_eq!(isqrt64(3), 1);
    assert_eq!(isqrt64(4), 2);
    assert_eq!(isqrt64(17), 4);
    assert_eq!(isqrt64(4294967296), 65536);
    assert_eq!(isqrt64(4294967295), 65535);
    assert_eq!(isqrt64(17179889448), 131072);
}

#[test]
fn error_spread_is_range_times_beamwidth_rounded_up() {
    let bw_rad = 102943; // 90 degrees in Q16.16 radians
    assert_eq!(error_spread_len(0, bw_rad), 0);
    assert_eq!(error_spread_len(131072, bw_rad), 4); // range 2.0: ceil(pi)
    assert_eq!(error_spread_len(65536, bw_rad), 2); // range 1.0: ceil(pi/2)
}

#[test]
fn settings_disable_radar_interference_on_narrow_beams() {
    let wide = RadarSettings::new(5898240, true, true); // 90 degrees
    assert!(wide.radar_interf);
    assert!(wide.rain_interf);
    let exactly_two = RadarSettings::new(131072, false, true); // 2.0 degrees
    assert!(!exactly_two.radar_interf);
    let just_over = RadarSettings::new(131073, false, true);
    assert!(just_over.radar_interf);
    assert!(!just_over.rain_interf);
}

#[test]
fn sweep_steps_by_beamwidth_over_a_rotation() {
    let angles = sweep_angles(102943); // 90 degrees
    assert_eq!(angles, vec![0, 102943, 205886, 308829, 411772]);
}

#[test]
fn echo_steps_monotone_rise_echoes_once_at_top() {
    // heights below the sentinel never echo; the final rise to 12 does
    let mut horizon: u8 = 10;
    let mut behind = false;
    let mut echoes: Vec<usize> = Vec::new();
    for (i, h) in [3u8, 5, 12].into_iter().enumerate() {
        let (echo, h2, b2) = echo_step(h, horizon, behind);
        horizon = h2;
        behind = b2;
        if echo {
            echoes.push(i);
        }
    }
    assert_eq!(echoes, vec![2]);
    assert_eq!(horizon, 12);
    assert!(!behind);
}

#[test]
fn echo_ridge_shadows_second_rise() {
    // rise to 100, drop to 20, rise to 90: one echo, at the 100
    let mut horizon: u8 = 10;
    let mut behind = false;
    let mut echoes: Vec<usize> = Vec::new();
    for (i, h) in [100u8, 20, 90].into_iter().enumerate() {
        let (echo, h2, b2) = echo_step(h, horizon, behind);
        horizon = h2;
        behind = b2;
        if echo {
            echoes.push(i);
        }
    }
    assert_eq!(echoes, vec![0]);
    assert_eq!(horizon, 100);
    assert!(behind);
}

#[test]
fn ray_with_origin_outside_paints_nothing() {
    let settings = RadarSettings::new(5898240, false, false);
    let heightmap = Heightmap {
        cells: vec![23040; 16],
    };
    let mut rand = feed(vec![1]);
    for (ox, oy) in [
        (-65536i64, 65536i64),
        (4 * 65536, 65536),
        (65536, -1),
        (65536, 4 * 65536),
    ] {
        let mut image = PixelBuffer::new(4);
        let before = image.data.clone();
        draw_ray_by_norm_dir(
            46341, 46341, ox, oy, &settings, 4, &mut image, &heightmap, &mut rand,
        );
        assert_eq!(image.data, before);
    }
}

#[test]
fn ray_toward_single_peak_marks_it_alone() {
    // a 2x2 grid whose only elevation decodes to 9 at (1,1): the ray from
    // (0,0) toward (1,1) sets alpha 255 there and nowhere else
    let settings = RadarSettings::new(5898240, false, false); // 90 degrees
    let heightmap = Heightmap {
        cells: vec![0, 0, 0, 9 * 256 * 10],
    };
    let mut rand = feed(vec![1]);
    let mut image = PixelBuffer::new(2);
    draw_ray_by_norm_dir(
        46341, 46341, 0, 0, &settings, 2, &mut image, &heightmap, &mut rand,
    );
    for y in 0..2 {
        for x in 0..2 {
            let expected = if (x, y) == (1, 1) { 255 } else { 0 };
            assert_eq!(alpha(&image, x, y), expected);
        }
    }
}

#[test]
fn ray_speckles_every_visited_cell_when_sample_is_high() {
    let settings = RadarSettings::new(5898240, false, true); // radar interference on
    let heightmap = Heightmap { cells: vec![0; 4] };
    let mut rand = feed(vec![999999]); // always above 0.5: every cell speckled
    let mut image = PixelBuffer::new(2);
    draw_ray_by_norm_dir(
        0, 65536, 0, 0, &settings, 2, &mut image, &heightmap, &mut rand,
    );
    assert_eq!(alpha(&image, 0, 0), 220);
    assert_eq!(alpha(&image, 0, 1), 220);
    assert_eq!(alpha(&image, 1, 0), 0);
    assert_eq!(alpha(&image, 1, 1), 0);
}

#[test]
fn paint_line_rejects_stops_outside_the_grid() {
    let mut image = PixelBuffer::new(2);
    // start at (1.414, 1.414) stepping by (-0.707, 0.707): only (1,1) is in
    paint_error_line(&mut image, 92682, 92682, -46341, 46341, 4);
    for y in 0..2 {
        for x in 0..2 {
            let expected = if (x, y) == (1, 1) { 255 } else { 0 };
            assert_eq!(alpha(&image, x, y), expected);
        }
    }
}

#[test]
fn pixel_data_reads_saturated_bytes_and_ends_past_the_grid() {
    let heightmap = Heightmap {
        cells: vec![23040, 300000],
    };
    assert_eq!(pixel_data_at(0, 0, 2, &heightmap), Some(90));
    assert_eq!(pixel_data_at(90000, 0, 2, &heightmap), Some(255));
    assert_eq!(pixel_data_at(0, 90000, 2, &heightmap), None);
    assert_eq!(pixel_data_at(200000, 0, 2, &heightmap), None); // cell 3: off the grid edge
    assert_eq!(pixel_data_at(0, 300000, 2, &heightmap), None);
}

#[test]
fn buffer_starts_green_and_bounds_checks_alpha_writes() {
    let mut image = PixelBuffer::new(3);
    assert_eq!(image.data.len(), 3 * 3 * 4);
    for (i, b) in image.data.iter().enumerate() {
        assert_eq!(*b, if i % 4 == 1 { 250 } else { 0 });
    }
    let before = image.data.clone();
    image.set_alpha(3, 0, 200);
    image.set_alpha(0, 7, 200);
    assert_eq!(image.data, before);
    image.set_alpha(2, 1, 77);
    assert_eq!(alpha(&image, 2, 1), 77);
    assert_eq!(image.data[((2 + 1 * 3) * 4) as usize], 0);
    assert_eq!(image.data[((2 + 1 * 3) * 4 + 1) as usize], 250);
}

#[test]
fn rain_marks_everything_when_pool_is_all_high() {
    // a pool of all 0.96 samples trips the flat 5% clause at every pixel
    let pool = EntropyPool {
        samples: vec![960000; 16],
    };
    let mut rand = feed(vec![0]);
    let mut image = PixelBuffer::new(4);
    rainify(0, 0, 4, &mut image, &pool, &mut rand);
    for y in 0..4 {
        for x in 0..4 {
            assert_eq!(alpha(&image, x, y), 128);
        }
    }
    for (i, b) in image.data.iter().enumerate() {
        if i % 4 != 3 {
            assert_eq!(*b, if i % 4 == 1 { 250 } else { 0 });
        }
    }
}

#[test]
fn rain_gain_threshold_is_strict_seventy_squared() {
    // (sample - 0.5) * d2 must exceed 70*70: at d2 = 70*70 / 0.1 = 49000
    // exactly, a 0.6 sample marks nothing
    let pool = EntropyPool {
        samples: vec![600000],
    };
    let mut rand = feed(vec![0]);
    let mut image = PixelBuffer::new(1);
    rainify(70, 210, 1, &mut image, &pool, &mut rand); // d2 = 70^2 + 210^2 = 49000
    assert_eq!(alpha(&image, 0, 0), 0);
    // just over the threshold: excess 0.00005 at d2 = 9900^2 gives 4900.5
    let pool = EntropyPool {
        samples: vec![500050],
    };
    let mut rand = feed(vec![0]);
    let mut image = PixelBuffer::new(1);
    rainify(9900, 0, 1, &mut image, &pool, &mut rand);
    assert_eq!(alpha(&image, 0, 0), 128);
}

#[test]
fn rain_gain_grows_with_range() {
    // samples of 0.6 mark only pixels far from the origin
    let pool = EntropyPool {
        samples: vec![600000],
    };
    let mut rand = feed(vec![0]);
    let mut image = PixelBuffer::new(300);
    rainify(0, 0, 300, &mut image, &pool, &mut rand);
    assert_eq!(alpha(&image, 0, 0), 0); // distance 0: (0.6 - 0.5) * 0 < 70 * 70
    assert_eq!(alpha(&image, 299, 299), 128); // far corner: gain dominates
}

#[test]
fn render_of_flat_map_is_all_background() {
    // a 4x4 all-zero elevation image, beamwidth 90, both interferences off:
    // every output pixel keeps the base color (green 250)
    let mut state = RadarState::new();
    let mut rand = feed(vec![500000]);
    let samples: Vec<u8> = vec![128, 0, 0, 255]
        .into_iter()
        .cycle()
        .take(64)
        .collect();
    state.create_heightmap(4, &samples, &mut rand).unwrap();
    let dirs: Vec<(i64, i64)> = vec![
        (0, 65536),
        (46341, 46341),
        (65536, 0),
        (46341, -46341),
        (0, -65536),
        (-46341, -46341),
        (-65536, 0),
        (-46341, 46341),
    ];
    let image = state
        .render(98304, 98304, 5898240, false, false, &dirs, &mut rand)
        .expect("heightmap is loaded");
    assert_eq!(image.width, 512);
    assert_eq!(image.data.len(), 512 * 512 * 4);
    for (i, b) in image.data.iter().enumerate() {
        assert_eq!(*b, if i % 4 == 1 { 250 } else { 0 });
    }
}

#[test]
fn render_with_rain_overlays_every_high_sample_pixel() {
    // a flat map, rain on, radar off, and a pool of all 0.96 samples: the
    // overlay runs once after the sweep and marks every pixel
    let mut state = RadarState::new();
    let mut rand = feed(vec![960000]);
    let samples: Vec<u8> = vec![128, 0, 0, 255]
        .into_iter()
        .cycle()
        .take(64)
        .collect();
    state.create_heightmap(4, &samples, &mut rand).unwrap();
    let dirs: Vec<(i64, i64)> = vec![(0, 65536), (65536, 0), (0, -65536), (-65536, 0)];
    let image = state
        .render(98304, 98304, 5898240, true, false, &dirs, &mut rand)
        .expect("heightmap is loaded");
    for (i, b) in image.data.iter().enumerate() {
        let expected = match i % 4 {
            1 => 250,
            3 => 128,
            _ => 0,
        };
        assert_eq!(*b, expected);
    }
}

#[test]
fn render_without_heightmap_fails() {
    let state = RadarState::new();
    let mut rand = feed(vec![1]);
    let dirs: Vec<(i64, i64)> = vec![(0, 65536)];
    let r = state.render(0, 0, 5898240, true, true, &dirs, &mut rand);
    assert_eq!(r.err(), Some(RadarError::NoHeightmapLoaded));
}
