//! Per-frame decisions when the planned passes run.

use vstd::prelude::*;

use crate::pipeline::resource::MAX_LIGHTS;
use crate::text::str_eq;

verus! {

/// How many of the scene's point lights are uploaded: none while point
/// lights are switched off, else as many as fit, in scene order.
pub fn lights_uploaded(point_lights_enabled: bool, scene_lights: usize) -> (n: usize)
    ensures
        n == if !point_lights_enabled {
            0
        } else if scene_lights < MAX_LIGHTS {
            scene_lights
        } else {
            MAX_LIGHTS
        },
{
    if !point_lights_enabled {
        return 0;
    }
    let mut n: usize = 0;
    let mut seen: usize = 0;
    while seen < scene_lights
        invariant
            seen <= scene_lights,
            n == if seen < MAX_LIGHTS { seen } else { MAX_LIGHTS },
        decreases scene_lights - seen,
    {
        if n < MAX_LIGHTS {
            n = n + 1;
        }
        seen = seen + 1;
    }
    n
}

/// The bloom pass is skipped, and its buffer cleared to black instead, while
/// bloom is switched off.
pub fn skips_pass(bloom_enabled: bool, pass_name: &str) -> (r: bool)
    ensures
        r == (!bloom_enabled && pass_name@ == "bloom_pass"@),
{
    !bloom_enabled && str_eq(pass_name, "bloom_pass")
}

} // verus!
