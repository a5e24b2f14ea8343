//! The order of a multigrid V-cycle's steps over a hierarchy of `depth`
//! levels, level 0 the finest.
//!
//! Down: pre-smooth red-black, form the residual, restrict it to the next
//! level (and, in a closed domain, remove the coarse right-hand side's
//! fluid mean). The coarsest level solves as a palindrome: red-black, then
//! black-red. Up: add the coarse correction, then post-smooth black-red.
//! So the smoothing and transfer steps of one cycle read the same
//! backwards with each step replaced by its adjoint, which is what makes
//! one V-cycle from zero a symmetric operator, as MGPCG needs.

use vstd::prelude::*;
use crate::hierarchy::spec_level_fields;

verus! {

/// Red-black sweeps before and after the coarse correction on every level
/// but the coarsest.
pub const SMOOTHING_SWEEPS: u32 = 2;
/// Sweeps on the coarsest level, run red-black then again black-red.
pub const COARSEST_SWEEPS: u32 = 1;

/// One step a V-cycle records.
#[derive(Debug, Clone, Copy, PartialEq, Eq, Structural)]
pub enum VStep {
    /// `sweeps` red-black sweeps on `level`; black before red when `reverse`.
    Smooth { level: u32, sweeps: u32, reverse: bool },
    /// The residual of `level`.
    Residual(u32),
    /// Restrict `level`'s residual to the next level's right-hand side.
    Restrict(u32),
    /// Remove the fluid mean of `level`'s right-hand side (or, on level 0
    /// after the last cycle, of p).
    RemoveMean(u32),
    /// Add the next level's correction into `level`.
    Prolong(u32),
    /// Submit what is recorded so far: one cycle per submission.
    Flush,
}

/// The steps down from `level`: pre-smoothing and transfer on each level,
/// then the coarsest level's palindromic solve.
pub open spec fn down_steps(level: nat, depth: nat, closed: bool) -> Seq<VStep>
    decreases depth - level,
{
    if level + 1 >= depth {
        seq![
            VStep::Smooth { level: level as u32, sweeps: COARSEST_SWEEPS, reverse: false },
            VStep::Smooth { level: level as u32, sweeps: COARSEST_SWEEPS, reverse: true },
        ]
    } else {
        seq![
            VStep::Smooth { level: level as u32, sweeps: SMOOTHING_SWEEPS, reverse: false },
            VStep::Residual(level as u32),
            VStep::Restrict(level as u32),
        ] + (if closed { seq![VStep::RemoveMean((level + 1) as u32)] } else { Seq::empty() })
            + down_steps(level + 1, depth, closed)
    }
}

/// The steps up to `level`, coarsest first: prolongation, then
/// post-smoothing in the reverse colour order.
pub open spec fn up_steps(level: nat, depth: nat) -> Seq<VStep>
    decreases depth - level,
{
    if level + 1 >= depth {
        Seq::empty()
    } else {
        up_steps(level + 1, depth) + seq![
            VStep::Prolong(level as u32),
            VStep::Smooth { level: level as u32, sweeps: SMOOTHING_SWEEPS, reverse: true },
        ]
    }
}

/// One V-cycle's steps.
pub open spec fn cycle_steps(depth: nat, closed: bool) -> Seq<VStep> {
    down_steps(0, depth, closed) + up_steps(0, depth)
}

/// `cycles` V-cycles, flushed between cycles, then, in a closed domain,
/// p's fluid mean removed.
pub open spec fn cycles_steps(depth: nat, closed: bool, cycles: nat) -> Seq<VStep> {
    repeat_cycles(depth, closed, cycles) + (if closed { seq![VStep::RemoveMean(0)] } else { Seq::empty() })
}

pub open spec fn repeat_cycles(depth: nat, closed: bool, cycles: nat) -> Seq<VStep>
    decreases cycles,
{
    if cycles == 0 {
        Seq::empty()
    } else if cycles == 1 {
        cycle_steps(depth, closed)
    } else {
        repeat_cycles(depth, closed, (cycles - 1) as nat) + seq![VStep::Flush] + cycle_steps(depth, closed)
    }
}

fn push_down(steps: &mut Vec<VStep>, depth: u32, closed: bool)
    requires
        depth >= 1,
    ensures
        final(steps)@ == old(steps)@ + down_steps(0, depth as nat, closed),
{
    let ghost start = steps@;
    let mut l: u32 = 0;
    while l + 1 < depth
        invariant
            depth >= 1,
            l + 1 <= depth,
            steps@ + down_steps(l as nat, depth as nat, closed) == start + down_steps(0, depth as nat, closed),
        decreases depth - l,
    {
        let ghost before = steps@;
        steps.push(VStep::Smooth { level: l, sweeps: SMOOTHING_SWEEPS, reverse: false });
        steps.push(VStep::Residual(l));
        steps.push(VStep::Restrict(l));
        if closed {
            steps.push(VStep::RemoveMean(l + 1));
        }
        proof {
            let pre = seq![
                VStep::Smooth { level: l, sweeps: SMOOTHING_SWEEPS, reverse: false },
                VStep::Residual(l),
                VStep::Restrict(l),
            ] + (if closed { seq![VStep::RemoveMean((l + 1) as u32)] } else { Seq::empty() });
            assert(steps@ =~= before + pre);
            assert(down_steps(l as nat, depth as nat, closed) == pre + down_steps((l + 1) as nat, depth as nat, closed));
            assert(before + pre + down_steps((l + 1) as nat, depth as nat, closed) =~= before + (pre + down_steps((l + 1) as nat, depth as nat, closed)));
        }
        l = l + 1;
    }
    let ghost before = steps@;
    steps.push(VStep::Smooth { level: l, sweeps: COARSEST_SWEEPS, reverse: false });
    steps.push(VStep::Smooth { level: l, sweeps: COARSEST_SWEEPS, reverse: true });
    proof {
        assert(steps@ =~= before + down_steps(l as nat, depth as nat, closed));
    }
}

fn push_up(steps: &mut Vec<VStep>, depth: u32)
    requires
        depth >= 1,
    ensures
        final(steps)@ == old(steps)@ + up_steps(0, depth as nat),
{
    let ghost start = steps@;
    let mut l: u32 = depth - 1;
    proof { assert(up_steps(l as nat, depth as nat) =~= Seq::<VStep>::empty()); }
    assert(steps@ =~= start + up_steps(l as nat, depth as nat));
    while l > 0
        invariant
            l + 1 <= depth,
            steps@ == start + up_steps(l as nat, depth as nat),
        decreases l,
    {
        l = l - 1;
        let ghost before = steps@;
        steps.push(VStep::Prolong(l));
        steps.push(VStep::Smooth { level: l, sweeps: SMOOTHING_SWEEPS, reverse: true });
        proof {
            assert(steps@ =~= start + up_steps(l as nat, depth as nat));
        }
    }
}

/// The steps of `cycles` V-cycles over a hierarchy of `depth` levels, in
/// the order they are recorded.
pub fn v_cycle_steps(depth: u32, closed: bool, cycles: u32) -> (steps: Vec<VStep>)
    requires
        depth >= 1,
    ensures
        steps@ == cycles_steps(depth as nat, closed, cycles as nat),
{
    let mut steps: Vec<VStep> = Vec::new();
    let mut c: u32 = 0;
    while c < cycles
        invariant
            depth >= 1,
            c <= cycles,
            steps@ == repeat_cycles(depth as nat, closed, c as nat),
        decreases cycles - c,
    {
        let ghost before = steps@;
        if c > 0 {
            steps.push(VStep::Flush);
        }
        push_down(&mut steps, depth, closed);
        push_up(&mut steps, depth);
        proof {
            if c == 0 {
                assert(steps@ =~= cycle_steps(depth as nat, closed));
            } else {
                assert(steps@ =~= before + seq![VStep::Flush] + cycle_steps(depth as nat, closed));
            }
        }
        c = c + 1;
    }
    if closed {
        steps.push(VStep::RemoveMean(0));
    }
    proof {
        assert(steps@ =~= cycles_steps(depth as nat, closed, cycles as nat));
    }
    steps
}

/// A step's adjoint: a smoothing sweep in the other colour order,
/// restriction for prolongation and back; other steps are their own.
pub open spec fn adjoint(s: VStep) -> VStep {
    match s {
        VStep::Smooth { level, sweeps, reverse } => VStep::Smooth { level, sweeps, reverse: !reverse },
        VStep::Restrict(l) => VStep::Prolong(l),
        VStep::Prolong(l) => VStep::Restrict(l),
        other => other,
    }
}

/// `s` backwards, each step replaced by its adjoint.
pub open spec fn mirror(s: Seq<VStep>) -> Seq<VStep> {
    Seq::new(s.len(), |i: int| adjoint(s[s.len() - 1 - i]))
}

/// Smoothing and transfer steps: the operator's skeleton, without the
/// residual (part of restriction), mean removals and flushes.
pub open spec fn is_skeleton_step(s: VStep) -> bool {
    s is Smooth || s is Restrict || s is Prolong
}

pub open spec fn skeleton(s: Seq<VStep>) -> Seq<VStep> {
    s.filter(|x: VStep| is_skeleton_step(x))
}

/// One level's skeleton, nested: pre-smooth and restrict, the coarser
/// levels, then prolong and post-smooth.
pub open spec fn nested_skeleton(level: nat, depth: nat) -> Seq<VStep>
    decreases depth - level,
{
    if level + 1 >= depth {
        seq![
            VStep::Smooth { level: level as u32, sweeps: COARSEST_SWEEPS, reverse: false },
            VStep::Smooth { level: level as u32, sweeps: COARSEST_SWEEPS, reverse: true },
        ]
    } else {
        seq![
            VStep::Smooth { level: level as u32, sweeps: SMOOTHING_SWEEPS, reverse: false },
            VStep::Restrict(level as u32),
        ] + nested_skeleton(level + 1, depth) + seq![
            VStep::Prolong(level as u32),
            VStep::Smooth { level: level as u32, sweeps: SMOOTHING_SWEEPS, reverse: true },
        ]
    }
}

proof fn lemma_mirror_concat(a: Seq<VStep>, b: Seq<VStep>)
    ensures
        mirror(a + b) == mirror(b) + mirror(a),
{
    assert(mirror(a + b) =~= mirror(b) + mirror(a));
}

proof fn lemma_nested_symmetric(level: nat, depth: nat)
    ensures
        mirror(nested_skeleton(level, depth)) == nested_skeleton(level, depth),
    decreases depth - level,
{
    if level + 1 >= depth {
        assert(mirror(nested_skeleton(level, depth)) =~= nested_skeleton(level, depth));
    } else {
        let pre = seq![
            VStep::Smooth { level: level as u32, sweeps: SMOOTHING_SWEEPS, reverse: false },
            VStep::Restrict(level as u32),
        ];
        let post = seq![
            VStep::Prolong(level as u32),
            VStep::Smooth { level: level as u32, sweeps: SMOOTHING_SWEEPS, reverse: true },
        ];
        let mid = nested_skeleton(level + 1, depth);
        lemma_nested_symmetric(level + 1, depth);
        lemma_mirror_concat(pre + mid, post);
        lemma_mirror_concat(pre, mid);
        assert(mirror(post) =~= pre);
        assert(mirror(pre) =~= post);
        assert(nested_skeleton(level, depth) == pre + mid + post);
        assert(mirror(nested_skeleton(level, depth)) =~= pre + mid + post);
    }
}

proof fn lemma_cycle_skeleton(level: nat, depth: nat, closed: bool)
    ensures
        skeleton(down_steps(level, depth, closed) + up_steps(level, depth)) == nested_skeleton(level, depth),
    decreases depth - level,
{
    broadcast use Seq::filter_distributes_over_add;
    let f = |x: VStep| is_skeleton_step(x);
    if level + 1 >= depth {
        assert(up_steps(level, depth) =~= Seq::<VStep>::empty());
        reveal_with_fuel(Seq::filter, 3);
        assert(down_steps(level, depth, closed) + up_steps(level, depth) =~= down_steps(level, depth, closed));
        assert(skeleton(down_steps(level, depth, closed)) =~= nested_skeleton(level, depth));
    } else {
        lemma_cycle_skeleton(level + 1, depth, closed);
        let pre = seq![
            VStep::Smooth { level: level as u32, sweeps: SMOOTHING_SWEEPS, reverse: false },
            VStep::Residual(level as u32),
            VStep::Restrict(level as u32),
        ] + (if closed { seq![VStep::RemoveMean((level + 1) as u32)] } else { Seq::empty() });
        let post = seq![
            VStep::Prolong(level as u32),
            VStep::Smooth { level: level as u32, sweeps: SMOOTHING_SWEEPS, reverse: true },
        ];
        let inner = down_steps(level + 1, depth, closed) + up_steps(level + 1, depth);
        assert(down_steps(level, depth, closed) + up_steps(level, depth) =~= pre + inner + post);
        reveal_with_fuel(Seq::filter, 5);
        assert(pre.filter(f) =~= seq![
            VStep::Smooth { level: level as u32, sweeps: SMOOTHING_SWEEPS, reverse: false },
            VStep::Restrict(level as u32),
        ]);
        assert(post.filter(f) =~= post);
        assert((pre + inner + post).filter(f) == pre.filter(f) + inner.filter(f) + post.filter(f));
        assert(skeleton(pre + inner + post) =~= nested_skeleton(level, depth));
    }
}

/// Symmetry of the V-cycle: one cycle's smoothing and transfer steps read
/// the same backwards with each step replaced by its adjoint.
pub proof fn lemma_cycle_is_symmetric(depth: nat, closed: bool)
    requires
        depth >= 1,
    ensures
        mirror(skeleton(cycle_steps(depth, closed))) == skeleton(cycle_steps(depth, closed)),
{
    lemma_cycle_skeleton(0, depth, closed);
    lemma_nested_symmetric(0, depth);
}

/// Whether the fields that `s` reads and writes are held by the levels of
/// a hierarchy of `depth` levels, with or without solids: a coarse level's
/// smoothing and mean removal work on its right-hand side and correction
/// (and with solids its mask and fractions); a residual and a restriction
/// read a level's scratch (and with solids its prolongation weights and the
/// next level's mask) and write the next level's right-hand side; a
/// prolongation reads the next level's correction.
pub open spec fn step_fields_held(s: VStep, depth: nat, solids: bool) -> bool {
    match s {
        VStep::Smooth { level, .. } => {
            let f = spec_level_fields(level as nat, depth, solids);
            &&& level < depth
            &&& level > 0 ==> f.rhs && (solids ==> f.mask && f.phi)
        },
        VStep::Residual(l) => {
            &&& l + 1 < depth
            &&& spec_level_fields(l as nat, depth, solids).tmp
        },
        VStep::Restrict(l) | VStep::Prolong(l) => {
            let f = spec_level_fields(l as nat, depth, solids);
            let g = spec_level_fields(l as nat + 1, depth, solids);
            &&& l + 1 < depth
            &&& f.tmp && g.rhs
            &&& solids ==> f.norm && g.mask
        },
        VStep::RemoveMean(l) => {
            &&& l < depth
            &&& l > 0 ==> spec_level_fields(l as nat, depth, solids).rhs
        },
        VStep::Flush => true,
    }
}

pub open spec fn all_fields_held(s: Seq<VStep>, depth: nat, solids: bool) -> bool {
    forall|i: int| 0 <= i < s.len() ==> step_fields_held(#[trigger] s[i], depth, solids)
}

proof fn lemma_held_concat(a: Seq<VStep>, b: Seq<VStep>, depth: nat, solids: bool)
    requires
        all_fields_held(a, depth, solids),
        all_fields_held(b, depth, solids),
    ensures
        all_fields_held(a + b, depth, solids),
{
    assert forall|i: int| 0 <= i < (a + b).len() implies step_fields_held(#[trigger] (a + b)[i], depth, solids) by {
        if i < a.len() {
            assert((a + b)[i] == a[i]);
        } else {
            assert((a + b)[i] == b[i - a.len()]);
        }
    }
}

proof fn lemma_down_held(level: nat, depth: nat, closed: bool, solids: bool)
    requires
        level < depth,
        depth <= u32::MAX,
    ensures
        all_fields_held(down_steps(level, depth, closed), depth, solids),
    decreases depth - level,
{
    if level + 1 >= depth {
        let s = down_steps(level, depth, closed);
        assert forall|i: int| 0 <= i < s.len() implies step_fields_held(#[trigger] s[i], depth, solids) by {}
    } else {
        let head = seq![
            VStep::Smooth { level: level as u32, sweeps: SMOOTHING_SWEEPS, reverse: false },
            VStep::Residual(level as u32),
            VStep::Restrict(level as u32),
        ];
        let mean = if closed { seq![VStep::RemoveMean((level + 1) as u32)] } else { Seq::empty() };
        assert forall|i: int| 0 <= i < head.len() implies step_fields_held(#[trigger] head[i], depth, solids) by {}
        assert forall|i: int| 0 <= i < mean.len() implies step_fields_held(#[trigger] mean[i], depth, solids) by {}
        lemma_down_held(level + 1, depth, closed, solids);
        lemma_held_concat(head, mean, depth, solids);
        lemma_held_concat(head + mean, down_steps(level + 1, depth, closed), depth, solids);
    }
}

proof fn lemma_up_held(level: nat, depth: nat, solids: bool)
    requires
        level < depth,
        depth <= u32::MAX,
    ensures
        all_fields_held(up_steps(level, depth), depth, solids),
    decreases depth - level,
{
    if level + 1 < depth {
        let tail = seq![
            VStep::Prolong(level as u32),
            VStep::Smooth { level: level as u32, sweeps: SMOOTHING_SWEEPS, reverse: true },
        ];
        assert forall|i: int| 0 <= i < tail.len() implies step_fields_held(#[trigger] tail[i], depth, solids) by {}
        lemma_up_held(level + 1, depth, solids);
        lemma_held_concat(up_steps(level + 1, depth), tail, depth, solids);
    }
}

proof fn lemma_repeat_held(depth: nat, closed: bool, cycles: nat, solids: bool)
    requires
        1 <= depth <= u32::MAX,
    ensures
        all_fields_held(repeat_cycles(depth, closed, cycles), depth, solids),
    decreases cycles,
{
    lemma_down_held(0, depth, closed, solids);
    lemma_up_held(0, depth, solids);
    lemma_held_concat(down_steps(0, depth, closed), up_steps(0, depth), depth, solids);
    if cycles > 1 {
        lemma_repeat_held(depth, closed, (cycles - 1) as nat, solids);
        let flush = seq![VStep::Flush];
        assert forall|i: int| 0 <= i < flush.len() implies step_fields_held(#[trigger] flush[i], depth, solids) by {}
        lemma_held_concat(repeat_cycles(depth, closed, (cycles - 1) as nat), flush, depth, solids);
        lemma_held_concat(
            repeat_cycles(depth, closed, (cycles - 1) as nat) + flush,
            cycle_steps(depth, closed),
            depth,
            solids,
        );
    } else if cycles == 0 {
        assert forall|i: int| 0 <= i < repeat_cycles(depth, closed, cycles).len() implies step_fields_held(
            #[trigger] repeat_cycles(depth, closed, cycles)[i],
            depth,
            solids,
        ) by {}
    }
}

/// Every step of any number of V-cycles over a hierarchy of `depth` levels
/// reads and writes only fields its levels hold, with or without solids:
/// the V-cycles and the hierarchy's layout agree.
pub proof fn lemma_cycles_use_held_fields(depth: nat, closed: bool, cycles: nat, solids: bool)
    requires
        1 <= depth <= u32::MAX,
    ensures
        all_fields_held(cycles_steps(depth, closed, cycles), depth, solids),
{
    lemma_repeat_held(depth, closed, cycles, solids);
    let end = if closed { seq![VStep::RemoveMean(0)] } else { Seq::<VStep>::empty() };
    assert forall|i: int| 0 <= i < end.len() implies step_fields_held(#[trigger] end[i], depth, solids) by {}
    lemma_held_concat(repeat_cycles(depth, closed, cycles), end, depth, solids);
}

/// Whether every restriction in `s` is followed at once by the removal of
/// the coarser level's right-hand side mean.
pub open spec fn restrictions_remove_mean(s: Seq<VStep>) -> bool {
    forall|k: int|
        0 <= k < s.len() && (#[trigger] s[k]) is Restrict ==> k + 1 < s.len() && s[k + 1]
            == VStep::RemoveMean((s[k]->Restrict_0 + 1) as u32)
}

proof fn lemma_restrictions_concat(a: Seq<VStep>, b: Seq<VStep>)
    requires
        restrictions_remove_mean(a),
        restrictions_remove_mean(b),
    ensures
        restrictions_remove_mean(a + b),
{
    let s = a + b;
    assert forall|k: int| 0 <= k < s.len() && (#[trigger] s[k]) is Restrict implies k + 1 < s.len()
        && s[k + 1] == VStep::RemoveMean((s[k]->Restrict_0 + 1) as u32) by {
        if k < a.len() {
            assert(s[k] == a[k]);
            assert(a[k] is Restrict);
            assert(s[k + 1] == a[k + 1]);
        } else {
            assert(s[k] == b[k - a.len()]);
            assert(b[k - a.len()] is Restrict);
            assert(s[k + 1] == b[k + 1 - a.len()]);
        }
    }
}

proof fn lemma_down_restrictions(level: nat, depth: nat)
    requires
        level < depth,
        depth <= u32::MAX,
    ensures
        restrictions_remove_mean(down_steps(level, depth, true)),
    decreases depth - level,
{
    if level + 1 >= depth {
        let s = down_steps(level, depth, true);
        assert forall|k: int| 0 <= k < s.len() && (#[trigger] s[k]) is Restrict implies k + 1 < s.len()
            && s[k + 1] == VStep::RemoveMean((s[k]->Restrict_0 + 1) as u32) by {}
    } else {
        let head = seq![
            VStep::Smooth { level: level as u32, sweeps: SMOOTHING_SWEEPS, reverse: false },
            VStep::Residual(level as u32),
            VStep::Restrict(level as u32),
            VStep::RemoveMean((level + 1) as u32),
        ];
        assert forall|k: int| 0 <= k < head.len() && (#[trigger] head[k]) is Restrict implies k + 1
            < head.len() && head[k + 1] == VStep::RemoveMean((head[k]->Restrict_0 + 1) as u32) by {
            if k == 2 {
                assert(head[3] == VStep::RemoveMean((level + 1) as u32));
            }
        }
        lemma_down_restrictions(level + 1, depth);
        assert(down_steps(level, depth, true) =~= head + down_steps(level + 1, depth, true));
        lemma_restrictions_concat(head, down_steps(level + 1, depth, true));
    }
}

proof fn lemma_no_restrictions(s: Seq<VStep>)
    requires
        forall|k: int| 0 <= k < s.len() ==> !((#[trigger] s[k]) is Restrict),
    ensures
        restrictions_remove_mean(s),
{
}

proof fn lemma_up_no_restrictions(level: nat, depth: nat)
    ensures
        forall|k: int| 0 <= k < up_steps(level, depth).len() ==> !((#[trigger] up_steps(level, depth)[k]) is Restrict),
    decreases depth - level,
{
    if level + 1 < depth {
        lemma_up_no_restrictions(level + 1, depth);
        let a = up_steps(level + 1, depth);
        let t = seq![
            VStep::Prolong(level as u32),
            VStep::Smooth { level: level as u32, sweeps: SMOOTHING_SWEEPS, reverse: true },
        ];
        let s = up_steps(level, depth);
        assert(s == a + t);
        assert forall|k: int| 0 <= k < s.len() implies !((#[trigger] s[k]) is Restrict) by {
            if k < a.len() {
                assert(s[k] == a[k]);
            } else {
                assert(s[k] == t[k - a.len()]);
            }
        }
    }
}

proof fn lemma_repeat_restrictions(depth: nat, cycles: nat)
    requires
        1 <= depth <= u32::MAX,
    ensures
        restrictions_remove_mean(repeat_cycles(depth, true, cycles)),
    decreases cycles,
{
    lemma_down_restrictions(0, depth);
    lemma_up_no_restrictions(0, depth);
    lemma_no_restrictions(up_steps(0, depth));
    lemma_restrictions_concat(down_steps(0, depth, true), up_steps(0, depth));
    if cycles > 1 {
        lemma_repeat_restrictions(depth, (cycles - 1) as nat);
        let flush = seq![VStep::Flush];
        lemma_no_restrictions(flush);
        lemma_restrictions_concat(repeat_cycles(depth, true, (cycles - 1) as nat), flush);
        lemma_restrictions_concat(
            repeat_cycles(depth, true, (cycles - 1) as nat) + flush,
            cycle_steps(depth, true),
        );
    } else if cycles == 0 {
        lemma_no_restrictions(repeat_cycles(depth, true, cycles));
    }
}

/// In a closed domain every restriction, on every level that has a coarser
/// one below it, is followed at once by the removal of the coarser level's
/// right-hand side mean: the Neumann problem there stays solvable.
pub proof fn lemma_closed_cycles_remove_coarse_means(depth: nat, cycles: nat)
    requires
        1 <= depth <= u32::MAX,
    ensures
        restrictions_remove_mean(cycles_steps(depth, true, cycles)),
{
    lemma_repeat_restrictions(depth, cycles);
    let end = seq![VStep::RemoveMean(0)];
    lemma_no_restrictions(end);
    lemma_restrictions_concat(repeat_cycles(depth, true, cycles), end);
}

} // verus!
