use vordie_light::color::{ColorBuffer, Rgba};
use vordie_light::distance::DistanceField;
use vordie_light::history::GlobalIHistoryTextures;
use vordie_light::pipeline::{self, PassKind, TexelSize, VordieLightPipeline};
use vordie_light::raycast;
use vordie_light::settings::VordieLightSettings;

fn texel(r: u32, g: u32, b: u32, a: u32) -> Rgba {
    Rgba { r, g, b, a }
}

fn flat(w: u32, h: u32, c: Rgba) -> ColorBuffer {
    ColorBuffer {
        width: w,
        height: h,
        data: vec![c; (w * h) as usize],
    }
}

#[test]
fn default_settings_match_the_documented_values() {
    let s = VordieLightSettings::default();
    assert_eq!(s.u_rays_per_pixel, 8);
    assert_eq!(s.u_emission_multi, 1000);
    assert_eq!(s.u_max_raymarch_steps, 64);
    assert_eq!(s.u_dist_mod, 1000);
    assert_eq!(s.u_emission_range, 1500);
    assert_eq!(s.u_emission_dropoff, 1500);
}

#[test]
fn sanitize_clamps_out_of_range_settings() {
    let wild = VordieLightSettings {
        u_rays_per_pixel: -3,
        u_emission_multi: -1,
        u_max_raymarch_steps: 0,
        u_dist_mod: 0,
        u_emission_range: 2_000_000,
        u_emission_dropoff: -7,
    };
    let s = wild.sanitize();
    assert_eq!(s.u_rays_per_pixel, 1);
    assert_eq!(s.u_emission_multi, 0);
    assert_eq!(s.u_max_raymarch_steps, 1);
    assert_eq!(s.u_dist_mod, 1);
    assert_eq!(s.u_emission_range, 1_000_000);
    assert_eq!(s.u_emission_dropoff, 0);
}

#[test]
fn history_roles_alternate_by_frame_parity() {
    let mut h = GlobalIHistoryTextures::new(2, 1);
    let marked = flat(2, 1, texel(11, 22, 33, 44));
    h.store(0, marked);
    // Even frame: surface A is the write target, B is read.
    assert_eq!(h.tex_a.get(0, 0), texel(11, 22, 33, 44));
    assert_eq!(h.read_side(0).get(0, 0), texel(0, 0, 0, 0));
    // What frame 0 wrote is exactly what frame 1 reads.
    assert_eq!(h.read_side(1).get(0, 0), texel(11, 22, 33, 44));
    let marked2 = flat(2, 1, texel(55, 66, 77, 88));
    h.store(1, marked2);
    // Odd frame: surface B is the write target; frame 2 reads it back.
    assert_eq!(h.tex_b.get(1, 0), texel(55, 66, 77, 88));
    assert_eq!(h.read_side(2).get(1, 0), texel(55, 66, 77, 88));
    assert_eq!(h.read_side(1).get(0, 0), texel(11, 22, 33, 44));
}

#[test]
fn raycaster_survives_a_zero_ray_count() {
    // A zero (or negative) ray count is clamped to one ray and still yields
    // a defined output everywhere.
    let raw = VordieLightSettings {
        u_rays_per_pixel: 0,
        ..VordieLightSettings::default()
    };
    let s = raw.sanitize();
    assert_eq!(s.u_rays_per_pixel, 1);
    let mask = flat(1, 1, texel(0, 0, 0, 0));
    let df = DistanceField {
        width: 1,
        height: 1,
        data: vec![u32::MAX],
    };
    let hist = flat(2, 2, texel(0, 0, 0, 0));
    let out = raycast::gi_raycast(&mask, &df, &hist, &s, 123);
    assert_eq!(out.width, 2);
    assert_eq!(out.height, 2);
    for y in 0..2 {
        for x in 0..2 {
            let c = out.get(x, y);
            assert!(c.r <= 1_000_000_000 && c.g <= 1_000_000_000 && c.b <= 1_000_000_000);
            assert_eq!(c.a, 1000);
        }
    }
}

#[test]
fn zero_emission_range_yields_only_the_history_blend() {
    let raw = VordieLightSettings {
        u_emission_range: 0,
        ..VordieLightSettings::default()
    };
    let s = raw.sanitize();
    // An emitter sits right under the rays, but the range gate fires first.
    let mask = flat(1, 1, texel(600_000, 0, 0, 1000));
    let df = DistanceField {
        width: 1,
        height: 1,
        data: vec![0],
    };
    let hist = flat(1, 1, texel(1000, 500, 0, 1000));
    let out = raycast::gi_raycast(&mask, &df, &hist, &s, 0);
    assert_eq!(out.get(0, 0), texel(900, 450, 0, 1000));
}

#[test]
fn rays_on_an_emitter_gather_its_color() {
    let s = VordieLightSettings::default().sanitize();
    let mask = flat(1, 1, texel(600_000, 0, 0, 1000));
    let df = DistanceField {
        width: 1,
        height: 1,
        data: vec![0],
    };
    let hist = flat(2, 1, texel(0, 0, 0, 0));
    let out = raycast::gi_raycast(&mask, &df, &hist, &s, 7);
    // Every ray hits at distance zero: falloff is one whole unit, the
    // emission multiplier is one whole unit, so the per-ray radiance is the
    // emitter color and the new-frame blend keeps a tenth of it.
    assert_eq!(out.get(0, 0), texel(60_000, 0, 0, 1000));
    assert_eq!(out.get(1, 0), texel(60_000, 0, 0, 1000));
}

#[test]
fn pass_sequence_runs_each_stage_once_and_propagation_repeatedly() {
    let list = pipeline::pass_sequence(2, 2);
    assert_eq!(
        list,
        vec![
            PassKind::Extract,
            PassKind::Seed,
            PassKind::Propagate,
            PassKind::Propagate,
            PassKind::DistanceField,
            PassKind::Raycast,
            PassKind::Denoise,
        ]
    );
}

#[test]
fn per_pass_params_halve_the_stride() {
    assert_eq!(
        pipeline::params_for_pass(4, 4, 0),
        pipeline::Params {
            screen_pixel_size: TexelSize { x: 4, y: 4 },
            offset: 4
        }
    );
    assert_eq!(pipeline::params_for_pass(4, 4, 1).offset, 2);
    assert_eq!(pipeline::params_for_pass(4, 4, 2).offset, 1);
}

#[test]
fn skipped_frames_pass_the_scene_through_unlit() {
    let mut p = VordieLightPipeline::new(2, 2, false);
    let scene = flat(2, 2, texel(10, 20, 30, 1000));
    let out = p.run_frame(&scene, &VordieLightSettings::default(), 0, false, false);
    assert_eq!(out.width, 2);
    assert_eq!(out.height, 2);
    assert_eq!(out.data, scene.data);
    assert_eq!(p.frame_index, 1);
}

#[test]
fn zero_area_views_pass_through() {
    let mut p = VordieLightPipeline::new(0, 0, false);
    let scene = ColorBuffer {
        width: 0,
        height: 0,
        data: vec![],
    };
    let out = p.run_frame(&scene, &VordieLightSettings::default(), 0, false, true);
    assert_eq!(out.width, 0);
    assert_eq!(out.height, 0);
    assert_eq!(p.frame_index, 1);
}

#[test]
fn a_dark_scene_stays_dark() {
    let mut p = VordieLightPipeline::new(2, 2, false);
    let scene = flat(2, 2, texel(0, 0, 0, 0));
    let out = p.run_frame(&scene, &VordieLightSettings::default(), 5, false, true);
    for y in 0..2 {
        for x in 0..2 {
            assert_eq!(out.get(x, y), texel(0, 0, 0, 1000));
        }
    }
    assert_eq!(p.frame_index, 1);
}

#[test]
fn lit_frames_accumulate_through_the_history() {
    let mut p = VordieLightPipeline::new(2, 2, false);
    // One bright emitter texel; it is also opaque, so it seeds the flood.
    let mut scene = flat(2, 2, texel(0, 0, 0, 0));
    scene.data[0] = texel(600_000, 0, 0, 1000);
    let s = VordieLightSettings::default();

    let out1 = p.run_frame(&scene, &s, 0, false, true);
    // Every ray hits the emitter at distance zero; the history starts black.
    assert_eq!(out1.get(0, 0), texel(60_000, 0, 0, 1000));
    assert_eq!(out1.get(1, 1), texel(60_000, 0, 0, 1000));
    assert_eq!(p.frame_index, 1);
    // Frame 0 wrote surface A; frame 1 will read it.
    assert_eq!(p.history.tex_a.get(0, 0), texel(60_000, 0, 0, 1000));

    let out2 = p.run_frame(&scene, &s, 0, false, true);
    // The second frame blends the fresh gather with the first frame's
    // accumulated history sample.
    assert_eq!(out2.get(0, 0), texel(114_000, 0, 0, 1000));
    assert_eq!(p.frame_index, 2);
    assert_eq!(p.history.tex_b.get(0, 0), texel(114_000, 0, 0, 1000));
}

#[test]
fn resizing_the_view_reallocates_the_history() {
    let mut p = VordieLightPipeline::new(2, 2, false);
    let scene = flat(4, 4, texel(0, 0, 0, 0));
    let _ = p.run_frame(&scene, &VordieLightSettings::default(), 0, false, true);
    assert_eq!(p.history.tex_a.width, 4);
    assert_eq!(p.history.tex_a.height, 4);
    assert_eq!(p.history.tex_b.width, 4);
}
