//! CFL substepping: how many substeps a frame runs, from how many cells
//! its fastest face would travel in one frame.

use vstd::prelude::*;

verus! {

#[derive(Debug, Clone, Copy, PartialEq, Eq, Structural)]
pub struct SubstepPlan {
    /// Substeps to run this frame, 1..=max_substeps.
    pub count: u32,
    /// Whether CFL wanted more than `max_substeps`.
    pub clamped: bool,
}

/// n = clamp(wanted, 1, max_substeps), where `wanted` is
/// ⌈max|u|·dt / (cfl·dx)⌉ saturated to `u32` (an enormous but finite speed
/// asks for `u32::MAX` and the cap binds); `clamped` when the cap bound.
pub fn plan_from_cells(wanted: u32, max_substeps: u32) -> (plan: SubstepPlan)
    ensures
        plan.count == (if (if wanted < 1 { 1 } else { wanted }) <= max_substeps {
            if wanted < 1 { 1 } else { wanted }
        } else {
            max_substeps
        }),
        plan.clamped == ((if wanted < 1 { 1 } else { wanted }) > max_substeps),
        max_substeps >= 1 ==> 1 <= plan.count <= max_substeps,
        !plan.clamped ==> plan.count >= wanted,
{
    let wanted = if wanted < 1 { 1 } else { wanted };
    SubstepPlan {
        count: if wanted <= max_substeps { wanted } else { max_substeps },
        clamped: wanted > max_substeps,
    }
}

} // verus!
