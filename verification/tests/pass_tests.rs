use vordie_light::color::{ColorBuffer, Rgba};
use vordie_light::distance;
use vordie_light::extract;
use vordie_light::jfa;
use vordie_light::seed::{self, Coord, SeedBuffer};

fn rgba(r: u32, g: u32, b: u32, a: u32) -> Rgba {
    Rgba { r, g, b, a }
}

fn black_scene(w: u32, h: u32) -> ColorBuffer {
    ColorBuffer {
        width: w,
        height: h,
        data: vec![rgba(0, 0, 0, 0); (w * h) as usize],
    }
}

fn scene_set(buf: &mut ColorBuffer, x: u32, y: u32, c: Rgba) {
    let idx = (y * buf.width + x) as usize;
    buf.data[idx] = c;
}

#[test]
fn thresholds_classify_texels() {
    assert!(extract::is_occluder(rgba(0, 0, 0, 1)));
    assert!(!extract::is_occluder(rgba(500, 500, 500, 0)));
    assert!(extract::is_emitter(rgba(1, 0, 0, 0)));
    assert!(extract::is_emitter(rgba(0, 0, 3, 1000)));
    assert!(!extract::is_emitter(rgba(0, 0, 0, 1000)));
}

#[test]
fn extractor_halves_the_resolution() {
    let mut scene = black_scene(4, 4);
    scene_set(&mut scene, 0, 0, rgba(10, 0, 0, 1000));
    scene_set(&mut scene, 2, 2, rgba(0, 20, 0, 500));
    let mask = extract::extract_emitters_occluders(&scene);
    assert_eq!(mask.width, 2);
    assert_eq!(mask.height, 2);
    assert_eq!(mask.get(0, 0), rgba(10, 0, 0, 1000));
    assert_eq!(mask.get(1, 1), rgba(0, 20, 0, 500));
    assert_eq!(mask.get(1, 0), rgba(0, 0, 0, 0));
}

#[test]
fn extractor_keeps_one_texel_views_whole() {
    let mut scene = black_scene(1, 1);
    scene_set(&mut scene, 0, 0, rgba(7, 8, 9, 10));
    let mask = extract::extract_emitters_occluders(&scene);
    assert_eq!(mask.width, 1);
    assert_eq!(mask.height, 1);
    assert_eq!(mask.get(0, 0), rgba(7, 8, 9, 10));
}

#[test]
fn extractor_is_deterministic() {
    let mut scene = black_scene(5, 3);
    scene_set(&mut scene, 1, 1, rgba(1, 2, 3, 4));
    scene_set(&mut scene, 4, 2, rgba(9, 9, 9, 9));
    let m1 = extract::extract_emitters_occluders(&scene);
    let m2 = extract::extract_emitters_occluders(&scene);
    assert_eq!(m1.width, m2.width);
    assert_eq!(m1.height, m2.height);
    assert_eq!(m1.data, m2.data);
}

#[test]
fn seeder_marks_occluders_with_their_own_coordinate() {
    let mut mask = black_scene(3, 2);
    scene_set(&mut mask, 1, 0, rgba(0, 0, 0, 500));
    scene_set(&mut mask, 2, 1, rgba(100, 0, 0, 1));
    let seeds = seed::seed_from_mask(&mask);
    assert_eq!(seeds.width, 3);
    assert_eq!(seeds.height, 2);
    assert_eq!(seeds.get(1, 0), Some(Coord { x: 1, y: 0 }));
    assert_eq!(seeds.get(2, 1), Some(Coord { x: 2, y: 1 }));
    assert_eq!(seeds.get(0, 0), None);
    assert_eq!(seeds.get(2, 0), None);
}

#[test]
fn pass_counts_follow_the_log_formula() {
    assert_eq!(jfa::num_passes(1, 1), 0);
    assert_eq!(jfa::num_passes(2, 1), 2);
    assert_eq!(jfa::num_passes(4, 4), 3);
    assert_eq!(jfa::num_passes(5, 3), 4);
    assert_eq!(jfa::num_passes(1024, 768), 11);
    assert_eq!(jfa::num_passes(16384, 16384), 15);
}

#[test]
fn one_pass_spreads_a_seed_to_its_neighbors() {
    let mut mask = black_scene(2, 2);
    scene_set(&mut mask, 0, 0, rgba(0, 0, 0, 1000));
    let seeds = seed::seed_from_mask(&mask);
    let out = jfa::jfa_pass(&seeds, 1);
    for y in 0..2 {
        for x in 0..2 {
            assert_eq!(out.get(x, y), Some(Coord { x: 0, y: 0 }));
        }
    }
}

#[test]
fn propagation_stamps_a_single_occluder_everywhere() {
    // A 4x4 scene with a single occluder at (1, 1) and no emitters: after
    // seeding and one full propagation, every texel stores (1, 1).
    let mut mask = black_scene(4, 4);
    scene_set(&mut mask, 1, 1, rgba(0, 0, 0, 1000));
    let seeds = seed::seed_from_mask(&mask);
    let (out, ran) = jfa::propagate(seeds, 50);
    assert_eq!(ran, 3);
    for y in 0..4 {
        for x in 0..4 {
            assert_eq!(out.get(x, y), Some(Coord { x: 1, y: 1 }));
        }
    }
}

#[test]
fn propagation_reaches_every_texel_from_one_seed() {
    // With at least one occluder anywhere, a full schedule leaves no
    // sentinel behind.
    let mut mask = black_scene(8, 5);
    scene_set(&mut mask, 6, 2, rgba(0, 0, 0, 1000));
    let seeds = seed::seed_from_mask(&mask);
    let (out, ran) = jfa::propagate(seeds, 50);
    assert_eq!(ran, jfa::num_passes(8, 5));
    for y in 0..5 {
        for x in 0..8 {
            assert_eq!(out.get(x, y), Some(Coord { x: 6, y: 2 }));
        }
    }
}

#[test]
fn propagation_short_circuits_one_texel_views() {
    let mut mask = black_scene(1, 1);
    scene_set(&mut mask, 0, 0, rgba(0, 0, 0, 1000));
    let seeds = seed::seed_from_mask(&mask);
    let (out, ran) = jfa::propagate(seeds, 50);
    assert_eq!(ran, 0);
    assert_eq!(out.get(0, 0), Some(Coord { x: 0, y: 0 }));
}

#[test]
fn propagation_stops_early_when_asked() {
    let mut mask = black_scene(8, 8);
    scene_set(&mut mask, 0, 0, rgba(0, 0, 0, 1000));
    let seeds = seed::seed_from_mask(&mask);
    let (_, ran) = jfa::propagate(seeds, 1);
    assert_eq!(ran, 2);
}

#[test]
fn propagation_invents_no_seeds() {
    // An occluder-free mask stays sentinel everywhere; the distance field
    // then saturates instead of forwarding the sentinel.
    let mask = black_scene(4, 4);
    let seeds = seed::seed_from_mask(&mask);
    let (out, _) = jfa::propagate(seeds, 50);
    for y in 0..4 {
        for x in 0..4 {
            assert_eq!(out.get(x, y), None);
        }
    }
    let df = distance::build_distance_field(&out, 1000);
    assert_eq!(df.get(0, 0), u32::MAX);
    assert_eq!(df.get(3, 3), u32::MAX);
}

#[test]
fn distance_field_matches_the_euclidean_formula() {
    // Every texel stores the seed (1, 1); dist_mod is one whole unit, so the
    // field holds the fixed-point distance floor(1000 * sqrt(d2)).
    let seeds = SeedBuffer {
        width: 4,
        height: 4,
        data: vec![Some(Coord { x: 1, y: 1 }); 16],
    };
    let df = distance::build_distance_field(&seeds, 1000);
    assert_eq!(df.get(1, 1), 0);
    assert_eq!(df.get(2, 1), 1000);
    assert_eq!(df.get(3, 1), 2000);
    assert_eq!(df.get(0, 0), 1414);
    assert_eq!(df.get(3, 3), 2828);
}

#[test]
fn distance_field_scales_by_the_modifier() {
    let seeds = SeedBuffer {
        width: 2,
        height: 1,
        data: vec![Some(Coord { x: 0, y: 0 }); 2],
    };
    let df = distance::build_distance_field(&seeds, 2500);
    assert_eq!(df.get(0, 0), 0);
    assert_eq!(df.get(1, 0), 2500);
}

#[test]
fn distance_field_fills_seedless_texels_with_the_maximum() {
    let seeds = SeedBuffer {
        width: 2,
        height: 1,
        data: vec![None, Some(Coord { x: 1, y: 0 })],
    };
    let df = distance::build_distance_field(&seeds, 1000);
    assert_eq!(df.get(0, 0), u32::MAX);
    assert_eq!(df.get(1, 0), 0);
}

#[test]
fn denoiser_averages_the_box_neighborhood() {
    let src = ColorBuffer {
        width: 2,
        height: 1,
        data: vec![rgba(1000, 0, 300, 1000), rgba(500, 900, 0, 1000)],
    };
    let out = vordie_light::denoise::gi_denoise(&src);
    assert_eq!(out.width, 2);
    assert_eq!(out.height, 1);
    assert_eq!(out.get(0, 0), rgba(750, 450, 150, 1000));
    assert_eq!(out.get(1, 0), rgba(750, 450, 150, 1000));
}

#[test]
fn denoiser_keeps_a_single_texel() {
    let src = ColorBuffer {
        width: 1,
        height: 1,
        data: vec![rgba(123, 456, 789, 1000)],
    };
    let out = vordie_light::denoise::gi_denoise(&src);
    assert_eq!(out.get(0, 0), rgba(123, 456, 789, 1000));
}
