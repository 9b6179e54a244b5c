//! The per-view tunable parameters of the lighting pipeline.
//!
//! The host may hand in any values; each pass reads them only after
//! `sanitize`, which clamps every field into its documented range instead of
//! failing (out-of-range configuration is never a hard error).

use crate::fp::spec_clamp;
use vstd::prelude::*;

verus! {

/// Largest accepted ray count per pixel.
pub const MAX_RAYS: i32 = 4096;

/// Largest accepted number of ray-march steps.
pub const MAX_STEPS: i32 = 4096;

/// Largest accepted value of the fixed-point settings fields (a thousand
/// whole units in milli-units).
pub const MAX_SETTING_FP: i32 = 1_000_000;

/// Host-tunable lighting parameters. Fields named `u_*` mirror the uniform
/// block a GPU implementation would bind; fractional quantities are
/// fixed-point milli-units.
#[derive(Clone, Copy, PartialEq, Eq, Structural, Debug)]
pub struct VordieLightSettings {
    /// Rays cast per output pixel (at least one).
    pub u_rays_per_pixel: i32,
    /// Scale applied to gathered emitter radiance, in milli-units.
    pub u_emission_multi: i32,
    /// Upper bound on sphere-trace steps along one ray (at least one).
    pub u_max_raymarch_steps: i32,
    /// Scale applied to the distance field, in milli-units (positive).
    pub u_dist_mod: i32,
    /// Maximum ray travel before a ray counts as a miss, in milli-texels.
    pub u_emission_range: i32,
    /// Strength of the inverse-distance falloff, in milli-units.
    pub u_emission_dropoff: i32,
}

impl VordieLightSettings {
    /// Every field inside the range the passes are verified for.
    pub open spec fn sane(self) -> bool {
        &&& 1 <= self.u_rays_per_pixel <= MAX_RAYS
        &&& 0 <= self.u_emission_multi <= MAX_SETTING_FP
        &&& 1 <= self.u_max_raymarch_steps <= MAX_STEPS
        &&& 1 <= self.u_dist_mod <= MAX_SETTING_FP
        &&& 0 <= self.u_emission_range <= MAX_SETTING_FP
        &&& 0 <= self.u_emission_dropoff <= MAX_SETTING_FP
    }

    /// The sanitized image of arbitrary host settings: every field clamped
    /// into its valid range.
    pub open spec fn spec_sanitize(self) -> VordieLightSettings {
        VordieLightSettings {
            u_rays_per_pixel: spec_clamp(self.u_rays_per_pixel as int, 1, MAX_RAYS as int) as i32,
            u_emission_multi: spec_clamp(
                self.u_emission_multi as int,
                0,
                MAX_SETTING_FP as int,
            ) as i32,
            u_max_raymarch_steps: spec_clamp(
                self.u_max_raymarch_steps as int,
                1,
                MAX_STEPS as int,
            ) as i32,
            u_dist_mod: spec_clamp(self.u_dist_mod as int, 1, MAX_SETTING_FP as int) as i32,
            u_emission_range: spec_clamp(
                self.u_emission_range as int,
                0,
                MAX_SETTING_FP as int,
            ) as i32,
            u_emission_dropoff: spec_clamp(
                self.u_emission_dropoff as int,
                0,
                MAX_SETTING_FP as int,
            ) as i32,
        }
    }

    /// Clamp every field into its valid range. A negative ray count becomes
    /// one ray; excess is silently capped.
    pub fn sanitize(&self) -> (s: VordieLightSettings)
        ensures
            s.sane(),
            s == self.spec_sanitize(),
            s.u_rays_per_pixel == spec_clamp(self.u_rays_per_pixel as int, 1, MAX_RAYS as int),
            s.u_emission_multi == spec_clamp(
                self.u_emission_multi as int,
                0,
                MAX_SETTING_FP as int,
            ),
            s.u_max_raymarch_steps == spec_clamp(
                self.u_max_raymarch_steps as int,
                1,
                MAX_STEPS as int,
            ),
            s.u_dist_mod == spec_clamp(self.u_dist_mod as int, 1, MAX_SETTING_FP as int),
            s.u_emission_range == spec_clamp(
                self.u_emission_range as int,
                0,
                MAX_SETTING_FP as int,
            ),
            s.u_emission_dropoff == spec_clamp(
                self.u_emission_dropoff as int,
                0,
                MAX_SETTING_FP as int,
            ),
    {
        VordieLightSettings {
            u_rays_per_pixel: crate::fp::clamp_i32(self.u_rays_per_pixel, 1, MAX_RAYS),
            u_emission_multi: crate::fp::clamp_i32(self.u_emission_multi, 0, MAX_SETTING_FP),
            u_max_raymarch_steps: crate::fp::clamp_i32(self.u_max_raymarch_steps, 1, MAX_STEPS),
            u_dist_mod: crate::fp::clamp_i32(self.u_dist_mod, 1, MAX_SETTING_FP),
            u_emission_range: crate::fp::clamp_i32(self.u_emission_range, 0, MAX_SETTING_FP),
            u_emission_dropoff: crate::fp::clamp_i32(self.u_emission_dropoff, 0, MAX_SETTING_FP),
        }
    }
}

impl Default for VordieLightSettings {
    /// Eight rays, unit emission and distance scale, a 1.5-unit range and
    /// dropoff, and 64 march steps.
    fn default() -> (s: VordieLightSettings)
        ensures
            s == (VordieLightSettings {
                u_rays_per_pixel: 8,
                u_emission_multi: 1000,
                u_max_raymarch_steps: 64,
                u_dist_mod: 1000,
                u_emission_range: 1500,
                u_emission_dropoff: 1500,
            }),
            s.sane(),
    {
        VordieLightSettings {
            u_rays_per_pixel: 8,
            u_emission_multi: 1000,
            u_max_raymarch_steps: 64,
            u_dist_mod: 1000,
            u_emission_range: 1500,
            u_emission_dropoff: 1500,
        }
    }
}

} // verus!
