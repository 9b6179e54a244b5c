//! The per-view pipeline instance and the per-frame driver.
//!
//! One instance owns a frame counter and the view's history pair. Every
//! frame runs the fixed pass chain — extract, seed, propagate (repeated),
//! distance field, raycast, denoise — in strict order, each pass consuming
//! the previous pass's output; then the frame counter advances, which swaps
//! the history roles for the next frame. A frame whose shader programs are
//! not ready yet, or whose view has no area, skips the whole chain and
//! passes the scene through unlit; no pass ever runs on its own.

use crate::color::ColorBuffer;
use crate::color::MAX_DIM;
use crate::color::Rgba;
use crate::denoise::is_denoise_of;
use crate::distance::is_distance_field_of;
use crate::distance::DistanceField;
use crate::extract::is_extract_of;
use crate::history::GlobalIHistoryTextures;
use crate::jfa::is_propagation_of;
use crate::jfa::jfa_passes;
use crate::jfa::pass_offset;
use crate::jfa::passes_to_run;
use crate::raycast::is_raycast_of;
use crate::seed::is_seed_of;
use crate::seed::SeedBuffer;
use crate::settings::VordieLightSettings;
use vstd::prelude::*;

verus! {

/// The pass index after which the propagator stops early; a schedule this
/// long is reached only far beyond the supported resolutions, so in
/// practice the full schedule always runs.
pub const STOP_AT: u32 = 50;

/// A two-dimensional size in texels.
#[derive(Clone, Copy, PartialEq, Eq, Structural, Debug)]
pub struct TexelSize {
    pub x: u32,
    pub y: u32,
}

/// Per-pass transient parameters, recomputed for every propagation
/// iteration and never persisted across frames.
#[derive(Clone, Copy, PartialEq, Eq, Structural, Debug)]
pub struct Params {
    /// The working resolution of the pass, in texels.
    pub screen_pixel_size: TexelSize,
    /// The jump-flood stride of the pass, in texels.
    pub offset: u32,
}

/// The transient parameters of propagation pass `i` over a `w` by `h` seed
/// buffer: the stride starts at half the power-of-two cover of the larger
/// dimension and halves each pass.
pub fn params_for_pass(w: u32, h: u32, i: u32) -> (p: Params)
    requires
        1 <= w <= MAX_DIM,
        1 <= h <= MAX_DIM,
        (i as nat) < jfa_passes(w as nat, h as nat),
    ensures
        p.screen_pixel_size == (TexelSize { x: w, y: h }),
        p.offset == pass_offset(jfa_passes(w as nat, h as nat), i as nat),
{
    let total = crate::jfa::num_passes(w, h);
    Params {
        screen_pixel_size: TexelSize { x: w, y: h },
        offset: crate::fp::pow2_u32(total - 1 - i),
    }
}

/// The stages of one frame, in execution order.
#[derive(Clone, Copy, PartialEq, Eq, Structural, Debug)]
pub enum PassKind {
    Extract,
    Seed,
    Propagate,
    DistanceField,
    Raycast,
    Denoise,
}

/// The ordered pass list of one frame over a `w` by `h` seed chain: each
/// stage exactly once, except the propagator, which repeats for its whole
/// schedule.
pub fn pass_sequence(w: u32, h: u32) -> (list: Vec<PassKind>)
    requires
        1 <= w <= MAX_DIM,
        1 <= h <= MAX_DIM,
    ensures
        list@.len() == 5 + jfa_passes(w as nat, h as nat),
        list@[0] == PassKind::Extract,
        list@[1] == PassKind::Seed,
        forall|i: int|
            2 <= i < list@.len() - 3 ==> #[trigger] list@[i] == PassKind::Propagate,
        list@[list@.len() - 3] == PassKind::DistanceField,
        list@[list@.len() - 2] == PassKind::Raycast,
        list@[list@.len() - 1] == PassKind::Denoise,
{
    let n = crate::jfa::num_passes(w, h);
    let mut list: Vec<PassKind> = Vec::new();
    list.push(PassKind::Extract);
    list.push(PassKind::Seed);
    let mut i: u32 = 0;
    while i < n
        invariant
            i <= n,
            list@.len() == 2 + i,
            list@[0] == PassKind::Extract,
            list@[1] == PassKind::Seed,
            forall|j: int| 2 <= j < list@.len() ==> #[trigger] list@[j] == PassKind::Propagate,
        decreases n - i,
    {
        list.push(PassKind::Propagate);
        i = i + 1;
    }
    list.push(PassKind::DistanceField);
    list.push(PassKind::Raycast);
    list.push(PassKind::Denoise);
    list
}

/// `out` carries the scene through unchanged.
pub open spec fn passes_through(scene: ColorBuffer, out: ColorBuffer) -> bool {
    &&& out.width == scene.width
    &&& out.height == scene.height
    &&& out.data@ == scene.data@
}

/// `newh` is the history pair ready for a `w` by `h` frame in mode `hdr`:
/// the old pair where nothing changed, a freshly cleared pair after a
/// resolution or HDR-mode change.
pub open spec fn history_prepared(
    oldh: GlobalIHistoryTextures,
    old_hdr: bool,
    w: int,
    h: int,
    hdr: bool,
    newh: GlobalIHistoryTextures,
) -> bool {
    if oldh.tex_a.width == w && oldh.tex_a.height == h && old_hdr == hdr {
        newh == oldh
    } else {
        &&& newh.wf()
        &&& newh.tex_a.width == w
        &&& newh.tex_a.height == h
        &&& forall|x: int, y: int|
            0 <= x < w && 0 <= y < h ==> #[trigger] newh.tex_a.spec_at(x, y) == (Rgba {
                r: 0,
                g: 0,
                b: 0,
                a: 0,
            }) && #[trigger] newh.tex_b.spec_at(x, y) == (Rgba { r: 0, g: 0, b: 0, a: 0 })
    }
}

/// The whole lit-frame dataflow: the scene's mask feeds the seeder, the
/// seed buffer flows through the full jump-flood schedule, the flooded
/// buffer becomes the distance field, the raycaster reads the field, the
/// mask and the history read side, and the denoiser filters the raycast
/// result into the output.
pub open spec fn frame_output(
    scene: ColorBuffer,
    s: VordieLightSettings,
    base: GlobalIHistoryTextures,
    frame: nat,
    jitter: nat,
    out: ColorBuffer,
) -> bool {
    exists|
        mask: ColorBuffer,
        seeds: SeedBuffer,
        flooded: SeedBuffer,
        df: DistanceField,
        ray: ColorBuffer,
    |
        {
            &&& #[trigger] is_extract_of(scene, mask)
            &&& #[trigger] is_seed_of(mask, seeds)
            &&& #[trigger] is_propagation_of(
                seeds,
                flooded,
                jfa_passes(mask.width as nat, mask.height as nat),
                passes_to_run(jfa_passes(mask.width as nat, mask.height as nat), STOP_AT as nat),
            )
            &&& #[trigger] is_distance_field_of(flooded, s.spec_sanitize().u_dist_mod as int, df)
            &&& #[trigger] is_raycast_of(
                mask,
                df,
                base.spec_read_side(frame),
                s.spec_sanitize(),
                (jitter % 65536) as int,
                ray,
            )
            &&& is_denoise_of(ray, out)
        }
}

/// A frame is skipped — passed through unlit — when its compiled programs
/// are not ready or the view has no area.
pub open spec fn frame_skipped(scene: ColorBuffer, programs_ready: bool) -> bool {
    !programs_ready || scene.width == 0 || scene.height == 0
}

/// One view's lighting pipeline: the frame counter and the persistent
/// history pair.
pub struct VordieLightPipeline {
    /// Frames completed since the view was created; its parity assigns the
    /// history roles.
    pub frame_index: u64,
    /// Whether the history surfaces were allocated for HDR output.
    pub hdr: bool,
    /// The view's history pair, reallocated only between frames and only on
    /// a resolution or HDR-mode change.
    pub history: GlobalIHistoryTextures,
}

impl VordieLightPipeline {
    /// A fresh pipeline for a view: frame zero, cleared history.
    pub fn new(width: u32, height: u32, hdr: bool) -> (p: VordieLightPipeline)
        requires
            width <= MAX_DIM,
            height <= MAX_DIM,
        ensures
            p.frame_index == 0,
            p.hdr == hdr,
            p.history.wf(),
            p.history.tex_a.width == width,
            p.history.tex_a.height == height,
    {
        VordieLightPipeline { frame_index: 0, hdr, history: GlobalIHistoryTextures::new(width, height) }
    }

    /// Make the history pair match the frame's resolution and HDR mode,
    /// reallocating cleared surfaces only when either changed.
    fn prepare_history(&mut self, width: u32, height: u32, hdr: bool)
        requires
            old(self).history.wf(),
            width <= MAX_DIM,
            height <= MAX_DIM,
        ensures
            final(self).history.wf(),
            final(self).frame_index == old(self).frame_index,
            final(self).hdr == hdr,
            final(self).history.tex_a.width == width,
            final(self).history.tex_a.height == height,
            history_prepared(
                old(self).history,
                old(self).hdr,
                width as int,
                height as int,
                hdr,
                final(self).history,
            ),
    {
        if self.history.tex_a.width != width || self.history.tex_a.height != height || self.hdr
            != hdr {
            self.history = GlobalIHistoryTextures::new(width, height);
        }
        self.hdr = hdr;
    }

    /// Run one frame: prepare the history pair, then either pass the scene
    /// through unlit (programs not ready, or a view without area) or run the
    /// full pass chain and store the filtered result as the new history
    /// entry. The frame counter advances either way, swapping the history
    /// roles for the next frame.
    pub fn run_frame(
        &mut self,
        scene: &ColorBuffer,
        settings: &VordieLightSettings,
        jitter: u32,
        hdr: bool,
        programs_ready: bool,
    ) -> (out: ColorBuffer)
        requires
            old(self).history.wf(),
            old(self).frame_index < 0xFFFF_FFFF_FFFF_FFFFu64,
            scene.wf(),
        ensures
            out.wf(),
            out.width == scene.width,
            out.height == scene.height,
            final(self).frame_index == old(self).frame_index + 1,
            final(self).hdr == hdr,
            final(self).history.wf(),
            exists|base: GlobalIHistoryTextures|
                {
                    &&& #[trigger] history_prepared(
                        old(self).history,
                        old(self).hdr,
                        scene.width as int,
                        scene.height as int,
                        hdr,
                        base,
                    )
                    &&& frame_skipped(*scene, programs_ready) ==> passes_through(*scene, out)
                        && final(self).history == base
                    &&& !frame_skipped(*scene, programs_ready) ==> frame_output(
                        *scene,
                        *settings,
                        base,
                        old(self).frame_index as nat,
                        jitter as nat,
                        out,
                    ) && final(self).history.spec_write_side(
                        old(self).frame_index as nat,
                    ).data@ == out.data@ && final(self).history.spec_write_side(
                        old(self).frame_index as nat,
                    ).width == out.width && final(self).history.spec_write_side(
                        old(self).frame_index as nat,
                    ).height == out.height && final(self).history.spec_read_side(
                        old(self).frame_index as nat,
                    ) == base.spec_read_side(old(self).frame_index as nat)
                },
    {
        self.prepare_history(scene.width, scene.height, hdr);
        let ghost base = self.history;
        let frame = self.frame_index;
        let out: ColorBuffer;
        if !programs_ready || scene.width == 0 || scene.height == 0 {
            out = scene.duplicate();
        } else {
            let s = settings.sanitize();
            let mask = crate::extract::extract_emitters_occluders(scene);
            let seeds = crate::seed::seed_from_mask(&mask);
            let (flooded, _ran) = crate::jfa::propagate(seeds, STOP_AT);
            let df = crate::distance::build_distance_field(&flooded, s.u_dist_mod);
            let jit = jitter % 65536;
            let ray = crate::raycast::gi_raycast(&mask, &df, self.history.read_side(frame), &s, jit);
            let filtered = crate::denoise::gi_denoise(&ray);
            let keep = filtered.duplicate();
            proof {
                assert forall|x: int, y: int|
                    0 <= x < keep.width && 0 <= y < keep.height implies #[trigger] keep.spec_at(
                    x,
                    y,
                ) == filtered.spec_at(x, y) by {}
                assert(is_denoise_of(ray, keep));
            }
            self.history.store(frame, filtered);
            out = keep;
        }
        self.frame_index = frame + 1;
        out
    }
}

} // verus!
