//! How the pressure solve's sweeps are split across GPU submissions, so no
//! one submission runs long enough to trip a GPU watchdog.

use vstd::prelude::*;
use crate::grid::FieldDims;

verus! {

/// About 100 ms of pressure sweeps per submission at the measured 0.19 ms
/// per iteration at 128³, well inside GPU watchdog limits.
pub const CELL_SWEEPS_PER_SUBMIT: u64 = 0x4000_0000;

/// ⌊2³⁰ / max(cells, 1)⌋, at least 1.
pub open spec fn spec_iterations_per_submit(voxels: nat) -> nat {
    let per = CELL_SWEEPS_PER_SUBMIT as nat / (if voxels == 0 { 1 } else { voxels });
    if per == 0 { 1 } else { per }
}

/// Pressure iterations per submission for a domain of `cells`: at least 1.
pub fn iterations_per_submit(cells: FieldDims) -> (n: u32)
    ensures
        n == spec_iterations_per_submit(cells.spec_voxel_count()),
        1 <= n <= CELL_SWEEPS_PER_SUBMIT,
{
    let count = cells.voxel_count();
    let divisor: u128 = if count == 0 { 1 } else { count };
    let per = (CELL_SWEEPS_PER_SUBMIT as u128) / divisor;
    proof {
        assert(per <= CELL_SWEEPS_PER_SUBMIT) by (nonlinear_arith)
            requires per == (CELL_SWEEPS_PER_SUBMIT as u128) / divisor, divisor >= 1;
    }
    let per = per as u32;
    if per == 0 { 1 } else { per }
}

/// The sum of a sequence of sweep counts.
pub open spec fn total(chunks: Seq<u32>) -> nat
    decreases chunks.len(),
{
    if chunks.len() == 0 { 0 } else { total(chunks.drop_last()) + chunks.last() as nat }
}

/// `iterations` sweeps split into submissions of `per` sweeps (at least 1):
/// every submission full but the last, and nothing empty.
pub open spec fn is_split(chunks: Seq<u32>, iterations: nat, per: nat) -> bool {
    &&& total(chunks) == iterations
    &&& forall|i: int| 0 <= i < chunks.len() ==> 1 <= #[trigger] chunks[i] <= per
    &&& forall|i: int| 0 <= i < chunks.len() - 1 ==> #[trigger] chunks[i] == per
}

/// The sweeps each submission of a red-black solve of `iterations` sweeps
/// records, at most `per_submit` (taken as 1 when 0) each, in order. The
/// solve flushes the batch between consecutive entries.
pub fn submission_sweeps(iterations: u32, per_submit: u32) -> (chunks: Vec<u32>)
    ensures
        is_split(chunks@, iterations as nat, if per_submit == 0 { 1 } else { per_submit as nat }),
{
    let per = if per_submit == 0 { 1 } else { per_submit };
    let mut chunks: Vec<u32> = Vec::new();
    let mut done: u32 = 0;
    while done < iterations
        invariant
            per >= 1,
            per == (if per_submit == 0 { 1 } else { per_submit }),
            done <= iterations,
            total(chunks@) == done,
            forall|i: int| 0 <= i < chunks.len() ==> 1 <= #[trigger] chunks[i] <= per,
            forall|i: int| 0 <= i < chunks.len() - 1 ==> #[trigger] chunks[i] == per,
            chunks.len() > 0 && chunks[chunks.len() - 1] < per ==> done == iterations,
        decreases iterations - done,
    {
        let left = iterations - done;
        let sweeps = if per < left { per } else { left };
        let ghost prev = chunks@;
        chunks.push(sweeps);
        proof {
            assert(chunks@.drop_last() == prev);
            assert forall|i: int| 0 <= i < chunks.len() - 1 implies #[trigger] chunks[i] == per by {
                if i < prev.len() - 1 {
                    assert(chunks[i] == prev[i]);
                } else {
                    assert(chunks[i] == prev[prev.len() - 1]);
                }
            }
        }
        done = done + sweeps;
    }
    chunks
}

} // verus!
