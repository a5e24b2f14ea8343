//! `ember.emitter`'s discrete parameters: the frames on which it emits, and
//! how its noise seed reaches the kernels.

use vstd::prelude::*;
use crate::solver::ParamError;
use crate::text::owned;

verus! {

pub const KIND: &'static str = "ember.emitter";

/// Frames on which every benchmark scene emits; frames after the last
/// measure mass drift with no sources.
pub const EMISSION_FRAMES: [u32; 2] = [1, 60];

/// Whether an emitter with `active_frames` emits on `frame`: always when
/// there is no range, else when `first <= frame <= last`.
pub open spec fn spec_is_active(active_frames: Option<[u32; 2]>, frame: u32) -> bool {
    match active_frames {
        None => true,
        Some(r) => r@[0] <= frame <= r@[1],
    }
}

/// Whether an emitter emits on `frame`. Outside its range every output is zero.
pub fn is_active(active_frames: Option<[u32; 2]>, frame: u32) -> (on: bool)
    ensures
        on == spec_is_active(active_frames, frame),
{
    match active_frames {
        None => true,
        Some(r) => r[0] <= frame && frame <= r[1],
    }
}

/// An inclusive frame range must not end before it starts.
pub fn check_active_frames(active_frames: Option<[u32; 2]>) -> (r: Result<(), ParamError>)
    ensures
        r is Ok <==> (active_frames matches Some(f) ==> f@[0] <= f@[1]),
        r matches Err(e) ==> e.kind@ == KIND@ && e.reason@ == "active_frames must not end before it starts"@,
{
    match active_frames {
        Some(f) => {
            if f[0] > f[1] {
                return Err(ParamError {
                    kind: owned(KIND),
                    reason: owned("active_frames must not end before it starts"),
                });
            }
            Ok(())
        }
        None => Ok(()),
    }
}

/// A 64-bit noise seed as the two 32-bit words the kernels read: low, high.
pub fn seed_words(seed: u64) -> (w: (u32, u32))
    ensures
        w.0 == seed % 0x1_0000_0000,
        w.1 == seed / 0x1_0000_0000,
        seed == w.1 * 0x1_0000_0000 + w.0,
{
    let lo = (seed % 0x1_0000_0000) as u32;
    let hi = (seed / 0x1_0000_0000) as u32;
    (lo, hi)
}

} // verus!
