//! The order of MGPCG's steps: conjugate gradients preconditioned by one
//! multigrid V-cycle from zero.
//!
//! Every scalar stays on the GPU: the dot products reduce into slots of one
//! target, and the update kernels compute α and β from the slots. `<r,z>`
//! alternates between two slots, `RZ_A` and `RZ_B`, so an iteration's
//! direction update reads the old and the new value without a copy.

use vstd::prelude::*;

verus! {

/// The slot of `<r,z>` read by even iterations.
pub const RZ_A: u32 = 0;
/// The slot of `<d,q>`.
pub const DQ: u32 = 1;
/// The slot of `<r,z>` read by odd iterations.
pub const RZ_B: u32 = 2;
/// Slots in the reduction target; the fourth is unused.
pub const SLOTS: u32 = 4;

/// One step MGPCG records.
#[derive(Debug, Clone, Copy, PartialEq, Eq, Structural)]
pub enum PcgStep {
    /// r = div − A p.
    InitialResidual,
    /// Remove r's fluid mean (closed domain only).
    RemoveResidualMean,
    /// z = M r: zero z, then one V-cycle from zero.
    Precondition,
    /// d = z.
    CopyDirection,
    /// `<r,z>` into the given slot.
    DotRz(u32),
    /// Submit what is recorded so far.
    Flush,
    /// Zero the scratch field, the right-hand side of the next step.
    ZeroScratch,
    /// q = residual(d, 0) = −A d.
    ApplyOperator,
    /// `<d,q>` into `DQ`.
    DotDq,
    /// p += α d and r −= α q, with α computed from slot `rz` and `DQ`.
    Axpy { rz: u32 },
    /// d = z + β d, with β = slot `rz_new` / slot `rz`.
    UpdateDirection { rz: u32, rz_new: u32 },
    /// Remove p's fluid mean (closed domain only), after the last iteration.
    RemovePressureMean,
}

/// The `<r,z>` slot iteration `i` reads.
pub open spec fn rz_read(i: nat) -> u32 {
    if i % 2 == 0 { RZ_A } else { RZ_B }
}

/// The `<r,z>` slot iteration `i` writes, when another iteration follows.
pub open spec fn rz_written(i: nat) -> u32 {
    if i % 2 == 0 { RZ_B } else { RZ_A }
}

pub open spec fn residual_mean(closed: bool) -> Seq<PcgStep> {
    if closed { seq![PcgStep::RemoveResidualMean] } else { Seq::empty() }
}

/// r = div − A p, z = M r, d = z, `<r,z>` into `RZ_A`.
pub open spec fn pcg_setup(closed: bool) -> Seq<PcgStep> {
    seq![PcgStep::InitialResidual] + residual_mean(closed) + seq![
        PcgStep::Precondition,
        PcgStep::CopyDirection,
        PcgStep::DotRz(RZ_A),
    ]
}

/// Iteration `i` of `n`: one V-cycle per submission, so every iteration but
/// the first starts with a flush; the last stops after updating p and r.
pub open spec fn pcg_iteration(i: nat, n: nat, closed: bool) -> Seq<PcgStep> {
    (if i > 0 { seq![PcgStep::Flush] } else { Seq::empty() }) + seq![
        PcgStep::ZeroScratch,
        PcgStep::ApplyOperator,
        PcgStep::DotDq,
        PcgStep::Axpy { rz: rz_read(i) },
    ] + residual_mean(closed) + (if i + 1 < n {
        seq![
            PcgStep::Precondition,
            PcgStep::DotRz(rz_written(i)),
            PcgStep::UpdateDirection { rz: rz_read(i), rz_new: rz_written(i) },
        ]
    } else {
        Seq::empty()
    })
}

/// The first `k` of `n` iterations.
pub open spec fn pcg_iterations(k: nat, n: nat, closed: bool) -> Seq<PcgStep>
    decreases k,
{
    if k == 0 {
        Seq::empty()
    } else {
        pcg_iterations((k - 1) as nat, n, closed) + pcg_iteration((k - 1) as nat, n, closed)
    }
}

/// The whole solve: setup, `n` iterations, then p's mean in a closed domain.
pub open spec fn pcg_schedule(n: nat, closed: bool) -> Seq<PcgStep> {
    pcg_setup(closed) + pcg_iterations(n, n, closed) + (if closed {
        seq![PcgStep::RemovePressureMean]
    } else {
        Seq::empty()
    })
}

/// The steps of an MGPCG solve of `iterations` iterations, in the order
/// they are recorded.
pub fn pcg_steps(iterations: u32, closed: bool) -> (steps: Vec<PcgStep>)
    ensures
        steps@ == pcg_schedule(iterations as nat, closed),
{
    let mut steps: Vec<PcgStep> = Vec::new();
    steps.push(PcgStep::InitialResidual);
    if closed {
        steps.push(PcgStep::RemoveResidualMean);
    }
    steps.push(PcgStep::Precondition);
    steps.push(PcgStep::CopyDirection);
    steps.push(PcgStep::DotRz(RZ_A));
    proof {
        assert(steps@ =~= pcg_setup(closed));
    }
    let mut i: u32 = 0;
    while i < iterations
        invariant
            i <= iterations,
            steps@ == pcg_setup(closed) + pcg_iterations(i as nat, iterations as nat, closed),
        decreases iterations - i,
    {
        let ghost before = steps@;
        let (rz, rz_new) = if i % 2 == 0 { (RZ_A, RZ_B) } else { (RZ_B, RZ_A) };
        if i > 0 {
            steps.push(PcgStep::Flush);
        }
        steps.push(PcgStep::ZeroScratch);
        steps.push(PcgStep::ApplyOperator);
        steps.push(PcgStep::DotDq);
        steps.push(PcgStep::Axpy { rz });
        if closed {
            steps.push(PcgStep::RemoveResidualMean);
        }
        if i + 1 < iterations {
            steps.push(PcgStep::Precondition);
            steps.push(PcgStep::DotRz(rz_new));
            steps.push(PcgStep::UpdateDirection { rz, rz_new });
        }
        proof {
            assert(steps@ =~= before + pcg_iteration(i as nat, iterations as nat, closed));
            assert(pcg_iterations((i + 1) as nat, iterations as nat, closed)
                == pcg_iterations(i as nat, iterations as nat, closed)
                    + pcg_iteration(i as nat, iterations as nat, closed));
        }
        i = i + 1;
    }
    if closed {
        steps.push(PcgStep::RemovePressureMean);
    }
    proof {
        assert(steps@ =~= pcg_schedule(iterations as nat, closed));
    }
    steps
}

/// What the recorded steps have written to the `<r,z>` slots: the latest
/// slot written, and the one written before it.
pub struct RzSlots {
    pub latest: Option<u32>,
    pub earlier: Option<u32>,
}

/// The slots after `step`.
pub open spec fn after_step(st: RzSlots, step: PcgStep) -> RzSlots {
    match step {
        PcgStep::DotRz(slot) => RzSlots { latest: Some(slot), earlier: st.latest },
        _ => st,
    }
}

/// Whether `step` reads and writes slots consistently with `st`: a dot
/// product of `<r,z>` never lands in `DQ`, an update of p and r reads the
/// latest `<r,z>`, and a direction update reads the latest as the new value
/// and the one before as the old, two different slots.
pub open spec fn step_reads_ok(st: RzSlots, step: PcgStep) -> bool {
    match step {
        PcgStep::DotRz(slot) => slot != DQ,
        PcgStep::Axpy { rz } => st.latest == Some(rz) && rz != DQ,
        PcgStep::UpdateDirection { rz, rz_new } => {
            &&& st.latest == Some(rz_new)
            &&& st.earlier == Some(rz)
            &&& rz != rz_new
        },
        _ => true,
    }
}

/// The slots after `steps`, starting from `st`.
pub open spec fn slots_after(st: RzSlots, steps: Seq<PcgStep>) -> RzSlots
    decreases steps.len(),
{
    if steps.len() == 0 {
        st
    } else {
        after_step(slots_after(st, steps.drop_last()), steps.last())
    }
}

/// Whether every step of `steps`, starting from `st`, reads the slots
/// consistently.
pub open spec fn slots_consistent(st: RzSlots, steps: Seq<PcgStep>) -> bool
    decreases steps.len(),
{
    if steps.len() == 0 {
        true
    } else {
        slots_consistent(st, steps.drop_last()) && step_reads_ok(
            slots_after(st, steps.drop_last()),
            steps.last(),
        )
    }
}

proof fn lemma_push(st: RzSlots, s: Seq<PcgStep>, x: PcgStep)
    ensures
        slots_after(st, s.push(x)) == after_step(slots_after(st, s), x),
        slots_consistent(st, s.push(x)) == (slots_consistent(st, s) && step_reads_ok(
            slots_after(st, s),
            x,
        )),
{
    assert(s.push(x).drop_last() =~= s);
}

proof fn lemma_concat(st: RzSlots, a: Seq<PcgStep>, b: Seq<PcgStep>)
    ensures
        slots_after(st, a + b) == slots_after(slots_after(st, a), b),
        slots_consistent(st, a + b) == (slots_consistent(st, a) && slots_consistent(
            slots_after(st, a),
            b,
        )),
    decreases b.len(),
{
    if b.len() == 0 {
        assert(a + b =~= a);
    } else {
        let b0 = b.drop_last();
        let x = b.last();
        assert(b =~= b0.push(x));
        assert(a + b =~= (a + b0).push(x));
        lemma_concat(st, a, b0);
        lemma_push(st, a + b0, x);
        lemma_push(slots_after(st, a), b0, x);
    }
}

/// Steps that neither read nor write a `<r,z>` slot.
pub open spec fn slot_neutral(s: Seq<PcgStep>) -> bool {
    forall|i: int|
        0 <= i < s.len() ==> !(#[trigger] s[i] is DotRz) && !(s[i] is Axpy) && !(
        s[i] is UpdateDirection)
}

proof fn lemma_neutral(st: RzSlots, s: Seq<PcgStep>)
    requires
        slot_neutral(s),
    ensures
        slots_consistent(st, s),
        slots_after(st, s) == st,
    decreases s.len(),
{
    if s.len() > 0 {
        let s0 = s.drop_last();
        assert(slot_neutral(s0)) by {
            assert forall|i: int| 0 <= i < s0.len() implies !(#[trigger] s0[i] is DotRz) && !(
            s0[i] is Axpy) && !(s0[i] is UpdateDirection) by {
                assert(s0[i] == s[i]);
            }
        }
        lemma_neutral(st, s0);
        assert(s.last() == s[s.len() - 1]);
    }
}

/// Iteration `i` reads consistently when it starts with `rz_read(i)` as the
/// latest slot, and, unless it is the last, leaves `rz_read(i + 1)` latest.
proof fn lemma_iteration(i: nat, n: nat, closed: bool, earlier: Option<u32>)
    ensures
        slots_consistent(
            RzSlots { latest: Some(rz_read(i)), earlier },
            pcg_iteration(i, n, closed),
        ),
        i + 1 < n ==> slots_after(
            RzSlots { latest: Some(rz_read(i)), earlier },
            pcg_iteration(i, n, closed),
        ).latest == Some(rz_read(i + 1)),
{
    let st = RzSlots { latest: Some(rz_read(i)), earlier };
    let head = (if i > 0 { seq![PcgStep::Flush] } else { Seq::empty() }) + seq![
        PcgStep::ZeroScratch,
        PcgStep::ApplyOperator,
        PcgStep::DotDq,
    ];
    let axpy = PcgStep::Axpy { rz: rz_read(i) };
    let mean = residual_mean(closed);
    let tail = if i + 1 < n {
        seq![
            PcgStep::Precondition,
            PcgStep::DotRz(rz_written(i)),
            PcgStep::UpdateDirection { rz: rz_read(i), rz_new: rz_written(i) },
        ]
    } else {
        Seq::<PcgStep>::empty()
    };
    assert(pcg_iteration(i, n, closed) =~= head.push(axpy) + mean + tail);
    assert(slot_neutral(head));
    assert(slot_neutral(mean));
    lemma_neutral(st, head);
    lemma_push(st, head, axpy);
    lemma_neutral(st, mean);
    lemma_concat(st, head.push(axpy), mean);
    lemma_concat(st, head.push(axpy) + mean, tail);
    if i + 1 < n {
        let pre = Seq::<PcgStep>::empty().push(PcgStep::Precondition);
        let dot = PcgStep::DotRz(rz_written(i));
        let upd = PcgStep::UpdateDirection { rz: rz_read(i), rz_new: rz_written(i) };
        assert(tail =~= pre.push(dot).push(upd));
        assert(slot_neutral(pre));
        lemma_neutral(st, pre);
        lemma_push(st, pre, dot);
        lemma_push(st, pre.push(dot), upd);
    } else {
        lemma_neutral(st, tail);
    }
}

proof fn lemma_iterations(k: nat, n: nat, closed: bool)
    requires
        k <= n,
    ensures
        slots_consistent(
            RzSlots { latest: Some(RZ_A), earlier: None },
            pcg_iterations(k, n, closed),
        ),
        k < n ==> slots_after(
            RzSlots { latest: Some(RZ_A), earlier: None },
            pcg_iterations(k, n, closed),
        ).latest == Some(rz_read(k)),
    decreases k,
{
    let st = RzSlots { latest: Some(RZ_A), earlier: None };
    if k == 0 {
    } else {
        let prev = pcg_iterations((k - 1) as nat, n, closed);
        lemma_iterations((k - 1) as nat, n, closed);
        let mid = slots_after(st, prev);
        lemma_iteration((k - 1) as nat, n, closed, mid.earlier);
        assert(mid == RzSlots { latest: Some(rz_read((k - 1) as nat)), earlier: mid.earlier });
        lemma_concat(st, prev, pcg_iteration((k - 1) as nat, n, closed));
    }
}

/// MGPCG's slots are read consistently: every `<r,z>` dot product lands
/// outside `DQ`, each update of p and r reads the `<r,z>` slot written last,
/// and each direction update reads the newest `<r,z>` and the one before,
/// held in two different slots, so no value is copied or overwritten
/// before it is read.
pub proof fn lemma_pcg_slots_consistent(n: nat, closed: bool)
    ensures
        slots_consistent(RzSlots { latest: None, earlier: None }, pcg_schedule(n, closed)),
{
    let st0 = RzSlots { latest: None, earlier: None };
    let setup_head = seq![PcgStep::InitialResidual] + residual_mean(closed) + seq![
        PcgStep::Precondition,
        PcgStep::CopyDirection,
    ];
    assert(pcg_setup(closed) =~= setup_head.push(PcgStep::DotRz(RZ_A)));
    assert(slot_neutral(setup_head));
    lemma_neutral(st0, setup_head);
    lemma_push(st0, setup_head, PcgStep::DotRz(RZ_A));
    let st1 = slots_after(st0, pcg_setup(closed));
    assert(st1 == RzSlots { latest: Some(RZ_A), earlier: None });
    lemma_iterations(n, n, closed);
    let end = if closed { seq![PcgStep::RemovePressureMean] } else { Seq::<PcgStep>::empty() };
    assert(slot_neutral(end));
    lemma_concat(st0, pcg_setup(closed), pcg_iterations(n, n, closed));
    lemma_neutral(slots_after(st0, pcg_setup(closed) + pcg_iterations(n, n, closed)), end);
    lemma_concat(st0, pcg_setup(closed) + pcg_iterations(n, n, closed), end);
}

/// Whether z = M r still holds after `step`, given whether it held before:
/// preconditioning makes it hold; a step that changes r (the initial
/// residual, its mean removal, the update of p and r) breaks it.
pub open spec fn z_current_after(current: bool, step: PcgStep) -> bool {
    match step {
        PcgStep::Precondition => true,
        PcgStep::InitialResidual | PcgStep::RemoveResidualMean | PcgStep::Axpy { .. } => false,
        _ => current,
    }
}

/// The steps that read z: the `<r,z>` dot product, d = z, and the direction
/// update.
pub open spec fn reads_z(step: PcgStep) -> bool {
    step is DotRz || step is CopyDirection || step is UpdateDirection
}

/// Whether z = M r holds after `steps`, starting from `current`.
pub open spec fn z_current(current: bool, steps: Seq<PcgStep>) -> bool
    decreases steps.len(),
{
    if steps.len() == 0 {
        current
    } else {
        z_current_after(z_current(current, steps.drop_last()), steps.last())
    }
}

/// Whether every step of `steps` that reads z reads it while z = M r holds
/// for the current r, starting from `current`.
pub open spec fn z_read_current(current: bool, steps: Seq<PcgStep>) -> bool
    decreases steps.len(),
{
    if steps.len() == 0 {
        true
    } else {
        z_read_current(current, steps.drop_last()) && (reads_z(steps.last()) ==> z_current(
            current,
            steps.drop_last(),
        ))
    }
}

proof fn lemma_z_push(current: bool, s: Seq<PcgStep>, x: PcgStep)
    ensures
        z_current(current, s.push(x)) == z_current_after(z_current(current, s), x),
        z_read_current(current, s.push(x)) == (z_read_current(current, s) && (reads_z(x)
            ==> z_current(current, s))),
{
    assert(s.push(x).drop_last() =~= s);
}

proof fn lemma_z_concat(current: bool, a: Seq<PcgStep>, b: Seq<PcgStep>)
    ensures
        z_current(current, a + b) == z_current(z_current(current, a), b),
        z_read_current(current, a + b) == (z_read_current(current, a) && z_read_current(
            z_current(current, a),
            b,
        )),
    decreases b.len(),
{
    if b.len() == 0 {
        assert(a + b =~= a);
    } else {
        let b0 = b.drop_last();
        let x = b.last();
        assert(b =~= b0.push(x));
        assert(a + b =~= (a + b0).push(x));
        lemma_z_concat(current, a, b0);
        lemma_z_push(current, a + b0, x);
        lemma_z_push(z_current(current, a), b0, x);
    }
}

proof fn lemma_no_z_reads(current: bool, s: Seq<PcgStep>)
    requires
        forall|i: int| 0 <= i < s.len() ==> !reads_z(#[trigger] s[i]),
    ensures
        z_read_current(current, s),
    decreases s.len(),
{
    if s.len() > 0 {
        let s0 = s.drop_last();
        assert forall|i: int| 0 <= i < s0.len() implies !reads_z(#[trigger] s0[i]) by {
            assert(s0[i] == s[i]);
        }
        lemma_no_z_reads(current, s0);
        assert(!reads_z(s[s.len() - 1]));
    }
}

/// Iteration `i` reads z only while it is current, whatever held before.
proof fn lemma_iteration_z(i: nat, n: nat, closed: bool, current: bool)
    ensures
        z_read_current(current, pcg_iteration(i, n, closed)),
{
    let head = (if i > 0 { seq![PcgStep::Flush] } else { Seq::empty() }) + seq![
        PcgStep::ZeroScratch,
        PcgStep::ApplyOperator,
        PcgStep::DotDq,
        PcgStep::Axpy { rz: rz_read(i) },
    ] + residual_mean(closed);
    let tail = if i + 1 < n {
        seq![
            PcgStep::Precondition,
            PcgStep::DotRz(rz_written(i)),
            PcgStep::UpdateDirection { rz: rz_read(i), rz_new: rz_written(i) },
        ]
    } else {
        Seq::<PcgStep>::empty()
    };
    assert(pcg_iteration(i, n, closed) =~= head + tail);
    assert forall|k: int| 0 <= k < head.len() implies !reads_z(#[trigger] head[k]) by {}
    lemma_no_z_reads(current, head);
    let mid = z_current(current, head);
    if i + 1 < n {
        let p0 = Seq::<PcgStep>::empty();
        let p1 = p0.push(PcgStep::Precondition);
        let p2 = p1.push(PcgStep::DotRz(rz_written(i)));
        assert(tail =~= p2.push(PcgStep::UpdateDirection { rz: rz_read(i), rz_new: rz_written(i) }));
        lemma_z_push(mid, p0, PcgStep::Precondition);
        lemma_z_push(mid, p1, PcgStep::DotRz(rz_written(i)));
        lemma_z_push(mid, p2, PcgStep::UpdateDirection { rz: rz_read(i), rz_new: rz_written(i) });
    } else {
        lemma_no_z_reads(mid, tail);
    }
    lemma_z_concat(current, head, tail);
}

proof fn lemma_iterations_z(k: nat, n: nat, closed: bool, current: bool)
    ensures
        z_read_current(current, pcg_iterations(k, n, closed)),
    decreases k,
{
    if k > 0 {
        let prev = pcg_iterations((k - 1) as nat, n, closed);
        lemma_iterations_z((k - 1) as nat, n, closed, current);
        lemma_iteration_z((k - 1) as nat, n, closed, z_current(current, prev));
        lemma_z_concat(current, prev, pcg_iteration((k - 1) as nat, n, closed));
    }
}

/// MGPCG reads z = M r only while it is current: every `<r,z>` dot product,
/// copy d = z and direction update comes after a preconditioning step with
/// no change of r in between, so each iteration that another follows
/// preconditions its new residual, in open and closed domains alike.
pub proof fn lemma_pcg_reads_current_z(n: nat, closed: bool)
    ensures
        z_read_current(false, pcg_schedule(n, closed)),
{
    let a = seq![PcgStep::InitialResidual] + residual_mean(closed);
    assert forall|k: int| 0 <= k < a.len() implies !reads_z(#[trigger] a[k]) by {}
    lemma_no_z_reads(false, a);
    let a1 = a.push(PcgStep::Precondition);
    lemma_z_push(false, a, PcgStep::Precondition);
    let a2 = a1.push(PcgStep::CopyDirection);
    lemma_z_push(false, a1, PcgStep::CopyDirection);
    let a3 = a2.push(PcgStep::DotRz(RZ_A));
    lemma_z_push(false, a2, PcgStep::DotRz(RZ_A));
    assert(pcg_setup(closed) =~= a3);
    let its = pcg_iterations(n, n, closed);
    lemma_iterations_z(n, n, closed, z_current(false, a3));
    lemma_z_concat(false, a3, its);
    let end = if closed { seq![PcgStep::RemovePressureMean] } else { Seq::<PcgStep>::empty() };
    assert forall|k: int| 0 <= k < end.len() implies !reads_z(#[trigger] end[k]) by {}
    lemma_no_z_reads(z_current(false, a3 + its), end);
    lemma_z_concat(false, a3 + its, end);
}

} // verus!
