//! The stages of one substep, in the order they are recorded into its one
//! batch: everything before projection (emission, the forces, vorticity
//! confinement, advection of the velocity's three faces), the projection,
//! then the scalars carried through the projected velocity.
//!
//! Which stages run follows from the substep's switches: fire adds the
//! fuel's emission and burning and carries fuel and react; MacCormack
//! advection takes three passes where semi-Lagrangian takes one; mass
//! conservation brackets each scalar's advection with a measurement and a
//! correction and adds nothing else.

use vstd::prelude::*;
use crate::grid::{face_dims, spec_face_dims, Axis, FieldDims};
use crate::solver::{Advection, PressureSolve};

verus! {

/// A grid that advection carries.
#[derive(Debug, Clone, Copy, PartialEq, Eq, Structural)]
pub enum Carried {
    /// The velocity's face grid on an axis.
    Face(Axis),
    Density,
    Temperature,
    Fuel,
    React,
}

impl Carried {
    /// The face axis this grid lies on, or `None` for a cell-centred scalar.
    pub open spec fn spec_axis(self) -> Option<Axis> {
        match self {
            Carried::Face(a) => Some(a),
            _ => None,
        }
    }

    /// The face axis this grid lies on, or `None` for a cell-centred scalar.
    pub fn axis(self) -> (a: Option<Axis>)
        ensures
            a == self.spec_axis(),
    {
        match self {
            Carried::Face(a) => Some(a),
            _ => None,
        }
    }

    /// The texel dims of this grid in a domain of `cells`.
    pub fn dims(self, cells: FieldDims) -> (d: FieldDims)
        requires
            cells.x < u32::MAX && cells.y < u32::MAX && cells.z < u32::MAX,
        ensures
            d == (match self.spec_axis() {
                Some(a) => spec_face_dims(cells, a),
                None => cells,
            }),
    {
        match self {
            Carried::Face(a) => face_dims(cells, a),
            _ => cells,
        }
    }
}

/// One advection dispatch.
#[derive(Debug, Clone, Copy, PartialEq, Eq, Structural)]
pub enum AdvectPass {
    /// The whole of plain semi-Lagrangian advection.
    SemiLagrangian,
    /// MacCormack's forward pass, q̂ = A(q).
    Forward,
    /// MacCormack's backward pass, q̃ = A⁻¹(q̂).
    Backward,
    /// MacCormack's clamped correction into the new field.
    Correct,
}

/// One stage a substep records.
#[derive(Debug, Clone, Copy, PartialEq, Eq, Structural)]
pub enum Stage {
    /// Add the source of density or temperature.
    Emit(Carried),
    /// Add fresh fuel, blending react towards 1.
    EmitFuel,
    /// Burn fuel into density and heat.
    Burn,
    /// Blend the emitter's velocity in by its weight.
    BlendVelocity,
    /// Buoyancy on the z faces.
    Buoyancy,
    /// Wind on the velocity.
    Wind,
    /// The curl of the velocity and its magnitude.
    Curl,
    /// Vorticity confinement onto the velocity.
    Confine,
    /// One advection pass of a grid.
    Advect(Carried, AdvectPass),
    /// The velocity's divergence.
    Divergence,
    /// The pressure solve.
    Solve(PressureSolve),
    /// Subtract the pressure gradient from the velocity.
    SubtractGradient,
    /// Measure a scalar's total and what this substep removes, before its
    /// advection.
    MeasureBefore(Carried),
    /// Rescale the advected scalar to the measured target.
    CorrectAfter(Carried),
}

/// A substep's switches, fixed when it is set up.
#[derive(Debug, Clone, Copy, PartialEq, Eq, Structural)]
pub struct SubstepFlags {
    pub advection: Advection,
    /// Vorticity confinement is on (smoke vorticity, or flame vorticity
    /// with fire on, above zero).
    pub vorticity: bool,
    /// The wind rate is above zero.
    pub wind: bool,
    pub conserve_mass: bool,
    /// Fire is on: fuel is emitted, burnt and carried.
    pub fire: bool,
}

/// Why a substep cannot be recorded.
#[derive(Debug, Clone, Copy, PartialEq, Eq, Structural)]
pub enum StageError {
    /// A fire substep needs the fuel state and a fuel source.
    NoFuel,
    /// A fire substep needs the fuel state.
    NoFuelState,
}

/// The passes that carry `c` into a fresh grid.
pub open spec fn grid_passes(c: Carried, a: Advection) -> Seq<Stage> {
    match a {
        Advection::SemiLagrangian => seq![Stage::Advect(c, AdvectPass::SemiLagrangian)],
        Advection::MacCormack => seq![
            Stage::Advect(c, AdvectPass::Forward),
            Stage::Advect(c, AdvectPass::Backward),
            Stage::Advect(c, AdvectPass::Correct),
        ],
    }
}

/// A scalar's advection, bracketed by the mass correction when it is on.
pub open spec fn scalar_passes(c: Carried, flags: SubstepFlags) -> Seq<Stage> {
    if flags.conserve_mass {
        seq![Stage::MeasureBefore(c)] + grid_passes(c, flags.advection) + seq![Stage::CorrectAfter(c)]
    } else {
        grid_passes(c, flags.advection)
    }
}

/// Emission, forces, confinement, then the velocity's three faces.
pub open spec fn pre_projection_plan(flags: SubstepFlags, emission: bool) -> Seq<Stage> {
    seq![Stage::Emit(Carried::Density), Stage::Emit(Carried::Temperature)]
        + (if flags.fire { seq![Stage::EmitFuel, Stage::Burn] } else { Seq::empty() })
        + (if emission { seq![Stage::BlendVelocity] } else { Seq::empty() })
        + seq![Stage::Buoyancy]
        + (if flags.wind { seq![Stage::Wind] } else { Seq::empty() })
        + (if flags.vorticity { seq![Stage::Curl, Stage::Confine] } else { Seq::empty() })
        + grid_passes(Carried::Face(Axis::X), flags.advection)
        + grid_passes(Carried::Face(Axis::Y), flags.advection)
        + grid_passes(Carried::Face(Axis::Z), flags.advection)
}

/// Divergence, the pressure solve, the gradient subtraction.
pub open spec fn projection_plan(pressure: PressureSolve) -> Seq<Stage> {
    seq![Stage::Divergence, Stage::Solve(pressure), Stage::SubtractGradient]
}

/// Density and temperature, then with fire on fuel and react.
pub open spec fn scalar_plan(flags: SubstepFlags) -> Seq<Stage> {
    scalar_passes(Carried::Density, flags) + scalar_passes(Carried::Temperature, flags) + (if flags.fire {
        scalar_passes(Carried::Fuel, flags) + scalar_passes(Carried::React, flags)
    } else {
        Seq::empty()
    })
}

/// The whole substep.
pub open spec fn substep_plan(flags: SubstepFlags, emission: bool, pressure: PressureSolve) -> Seq<Stage> {
    pre_projection_plan(flags, emission) + projection_plan(pressure) + scalar_plan(flags)
}

fn push_grid_passes(stages: &mut Vec<Stage>, c: Carried, a: Advection)
    ensures
        final(stages)@ == old(stages)@ + grid_passes(c, a),
{
    match a {
        Advection::SemiLagrangian => {
            stages.push(Stage::Advect(c, AdvectPass::SemiLagrangian));
        },
        Advection::MacCormack => {
            stages.push(Stage::Advect(c, AdvectPass::Forward));
            stages.push(Stage::Advect(c, AdvectPass::Backward));
            stages.push(Stage::Advect(c, AdvectPass::Correct));
        },
    }
    proof {
        assert(final(stages)@ =~= old(stages)@ + grid_passes(c, a));
    }
}

fn push_scalar_passes(stages: &mut Vec<Stage>, c: Carried, flags: SubstepFlags)
    ensures
        final(stages)@ == old(stages)@ + scalar_passes(c, flags),
{
    let ghost start = stages@;
    if flags.conserve_mass {
        stages.push(Stage::MeasureBefore(c));
        push_grid_passes(stages, c, flags.advection);
        stages.push(Stage::CorrectAfter(c));
    } else {
        push_grid_passes(stages, c, flags.advection);
    }
    proof {
        assert(stages@ =~= start + scalar_passes(c, flags));
    }
}

/// The stages before projection. A fire substep without the fuel state or
/// a fuel source is refused.
pub fn pre_projection_stages(
    flags: SubstepFlags,
    emission: bool,
    fire_state: bool,
    fuel_source: bool,
) -> (r: Result<Vec<Stage>, StageError>)
    ensures
        r is Err <==> flags.fire && !(fire_state && fuel_source),
        r matches Err(e) ==> e == StageError::NoFuel,
        r matches Ok(v) ==> v@ == pre_projection_plan(flags, emission),
{
    if flags.fire && !(fire_state && fuel_source) {
        return Err(StageError::NoFuel);
    }
    let mut stages: Vec<Stage> = Vec::new();
    stages.push(Stage::Emit(Carried::Density));
    stages.push(Stage::Emit(Carried::Temperature));
    if flags.fire {
        stages.push(Stage::EmitFuel);
        stages.push(Stage::Burn);
    }
    if emission {
        stages.push(Stage::BlendVelocity);
    }
    stages.push(Stage::Buoyancy);
    if flags.wind {
        stages.push(Stage::Wind);
    }
    if flags.vorticity {
        stages.push(Stage::Curl);
        stages.push(Stage::Confine);
    }
    let ghost forces = stages@;
    push_grid_passes(&mut stages, Carried::Face(Axis::X), flags.advection);
    push_grid_passes(&mut stages, Carried::Face(Axis::Y), flags.advection);
    push_grid_passes(&mut stages, Carried::Face(Axis::Z), flags.advection);
    proof {
        assert(forces =~= seq![Stage::Emit(Carried::Density), Stage::Emit(Carried::Temperature)]
            + (if flags.fire { seq![Stage::EmitFuel, Stage::Burn] } else { Seq::empty() })
            + (if emission { seq![Stage::BlendVelocity] } else { Seq::empty() })
            + seq![Stage::Buoyancy]
            + (if flags.wind { seq![Stage::Wind] } else { Seq::empty() })
            + (if flags.vorticity { seq![Stage::Curl, Stage::Confine] } else { Seq::empty() }));
        assert(stages@ =~= pre_projection_plan(flags, emission));
    }
    Ok(stages)
}

/// The projection's stages.
pub fn projection_stages(pressure: PressureSolve) -> (v: Vec<Stage>)
    ensures
        v@ == projection_plan(pressure),
{
    let v = vec![Stage::Divergence, Stage::Solve(pressure), Stage::SubtractGradient];
    proof {
        assert(v@ =~= projection_plan(pressure));
    }
    v
}

/// The scalars' advection after projection. A fire substep without the
/// fuel state is refused.
pub fn scalar_stages(flags: SubstepFlags, fire_state: bool) -> (r: Result<Vec<Stage>, StageError>)
    ensures
        r is Err <==> flags.fire && !fire_state,
        r matches Err(e) ==> e == StageError::NoFuelState,
        r matches Ok(v) ==> v@ == scalar_plan(flags),
{
    if flags.fire && !fire_state {
        return Err(StageError::NoFuelState);
    }
    let mut stages: Vec<Stage> = Vec::new();
    push_scalar_passes(&mut stages, Carried::Density, flags);
    push_scalar_passes(&mut stages, Carried::Temperature, flags);
    if flags.fire {
        push_scalar_passes(&mut stages, Carried::Fuel, flags);
        push_scalar_passes(&mut stages, Carried::React, flags);
    }
    proof {
        assert(stages@ =~= scalar_plan(flags));
    }
    Ok(stages)
}

/// One whole substep's stages: before projection, projection, scalars. A
/// fire substep without the fuel state or a fuel source is refused before
/// anything runs.
pub fn substep_stages(
    flags: SubstepFlags,
    emission: bool,
    fire_state: bool,
    fuel_source: bool,
    pressure: PressureSolve,
) -> (r: Result<Vec<Stage>, StageError>)
    ensures
        r is Err <==> flags.fire && !(fire_state && fuel_source),
        r matches Err(e) ==> e == StageError::NoFuel,
        r matches Ok(v) ==> v@ == substep_plan(flags, emission, pressure),
{
    let mut stages = match pre_projection_stages(flags, emission, fire_state, fuel_source) {
        Ok(v) => v,
        Err(e) => return Err(e),
    };
    let mut projection = projection_stages(pressure);
    stages.append(&mut projection);
    let mut scalars = match scalar_stages(flags, fire_state) {
        Ok(v) => v,
        Err(e) => return Err(e),
    };
    stages.append(&mut scalars);
    Ok(stages)
}

/// Whether a stage is part of the mass correction.
pub open spec fn is_correction(s: Stage) -> bool {
    s is MeasureBefore || s is CorrectAfter
}

/// The same switches with the mass correction off.
pub open spec fn without_conservation(flags: SubstepFlags) -> SubstepFlags {
    SubstepFlags { conserve_mass: false, ..flags }
}

proof fn lemma_grid_passes_uncorrected(c: Carried, a: Advection)
    ensures
        grid_passes(c, a).filter(|s: Stage| !is_correction(s)) == grid_passes(c, a),
{
    reveal_with_fuel(Seq::filter, 4);
    assert(grid_passes(c, a).filter(|s: Stage| !is_correction(s)) =~= grid_passes(c, a));
}

proof fn lemma_scalar_passes_filtered(c: Carried, flags: SubstepFlags)
    ensures
        scalar_passes(c, flags).filter(|s: Stage| !is_correction(s)) == grid_passes(
            c,
            flags.advection,
        ),
{
    broadcast use Seq::filter_distributes_over_add;
    let f = |s: Stage| !is_correction(s);
    lemma_grid_passes_uncorrected(c, flags.advection);
    if flags.conserve_mass {
        reveal_with_fuel(Seq::filter, 2);
        assert(seq![Stage::MeasureBefore(c)].filter(f) =~= Seq::<Stage>::empty());
        assert(seq![Stage::CorrectAfter(c)].filter(f) =~= Seq::<Stage>::empty());
        assert(scalar_passes(c, flags).filter(f) == seq![Stage::MeasureBefore(c)].filter(f)
            + grid_passes(c, flags.advection).filter(f) + seq![Stage::CorrectAfter(c)].filter(f));
        assert(scalar_passes(c, flags).filter(f) =~= grid_passes(c, flags.advection));
    }
}

proof fn lemma_no_correction_in(s: Seq<Stage>)
    requires
        forall|i: int| 0 <= i < s.len() ==> !is_correction(#[trigger] s[i]),
    ensures
        s.filter(|x: Stage| !is_correction(x)) == s,
    decreases s.len(),
{
    reveal(Seq::filter);
    if s.len() > 0 {
        let s0 = s.drop_last();
        assert forall|i: int| 0 <= i < s0.len() implies !is_correction(#[trigger] s0[i]) by {
            assert(s0[i] == s[i]);
        }
        lemma_no_correction_in(s0);
        assert(!is_correction(s[s.len() - 1]));
        assert(s.filter(|x: Stage| !is_correction(x)) =~= s);
    }
}

proof fn lemma_pre_projection_uncorrected(flags: SubstepFlags, emission: bool)
    ensures
        pre_projection_plan(flags, emission).filter(|s: Stage| !is_correction(s))
            == pre_projection_plan(flags, emission),
{
    let pre = pre_projection_plan(flags, emission);
    let head = seq![Stage::Emit(Carried::Density), Stage::Emit(Carried::Temperature)]
        + (if flags.fire { seq![Stage::EmitFuel, Stage::Burn] } else { Seq::empty() })
        + (if emission { seq![Stage::BlendVelocity] } else { Seq::empty() })
        + seq![Stage::Buoyancy]
        + (if flags.wind { seq![Stage::Wind] } else { Seq::empty() })
        + (if flags.vorticity { seq![Stage::Curl, Stage::Confine] } else { Seq::empty() });
    let gx = grid_passes(Carried::Face(Axis::X), flags.advection);
    let gy = grid_passes(Carried::Face(Axis::Y), flags.advection);
    let gz = grid_passes(Carried::Face(Axis::Z), flags.advection);
    assert(pre == head + gx + gy + gz);
    assert forall|i: int| 0 <= i < head.len() implies !is_correction(#[trigger] head[i]) by {}
    assert forall|i: int| 0 <= i < gx.len() implies !is_correction(#[trigger] gx[i]) by {}
    assert forall|i: int| 0 <= i < gy.len() implies !is_correction(#[trigger] gy[i]) by {}
    assert forall|i: int| 0 <= i < gz.len() implies !is_correction(#[trigger] gz[i]) by {}
    assert forall|i: int| 0 <= i < pre.len() implies !is_correction(#[trigger] pre[i]) by {
        if i < head.len() {
            assert(pre[i] == head[i]);
        } else if i < head.len() + gx.len() {
            assert(pre[i] == gx[i - head.len()]);
        } else if i < head.len() + gx.len() + gy.len() {
            assert(pre[i] == gy[i - head.len() - gx.len()]);
        } else {
            assert(pre[i] == gz[i - head.len() - gx.len() - gy.len()]);
        }
    }
    lemma_no_correction_in(pre);
}

proof fn lemma_scalar_plan_filtered(flags: SubstepFlags)
    ensures
        scalar_plan(flags).filter(|s: Stage| !is_correction(s)) == scalar_plan(
            without_conservation(flags),
        ),
{
    broadcast use Seq::filter_distributes_over_add;
    let f = |s: Stage| !is_correction(s);
    let off = without_conservation(flags);
    lemma_scalar_passes_filtered(Carried::Density, flags);
    lemma_scalar_passes_filtered(Carried::Temperature, flags);
    lemma_scalar_passes_filtered(Carried::Fuel, flags);
    lemma_scalar_passes_filtered(Carried::React, flags);
    let sd = scalar_passes(Carried::Density, flags);
    let st = scalar_passes(Carried::Temperature, flags);
    if flags.fire {
        let sf = scalar_passes(Carried::Fuel, flags);
        let sr = scalar_passes(Carried::React, flags);
        assert(scalar_plan(flags) == sd + st + (sf + sr));
        assert(scalar_plan(flags).filter(f) == sd.filter(f) + st.filter(f) + (sf.filter(f)
            + sr.filter(f)));
        assert(scalar_plan(flags).filter(f) =~= scalar_plan(off));
    } else {
        assert(scalar_plan(flags) =~= sd + st);
        assert(scalar_plan(flags).filter(f) == sd.filter(f) + st.filter(f));
        assert(scalar_plan(flags).filter(f) =~= scalar_plan(off));
    }
}

proof fn lemma_pre_projection_ignores_conservation(flags: SubstepFlags, emission: bool)
    ensures
        pre_projection_plan(without_conservation(flags), emission) == pre_projection_plan(
            flags,
            emission,
        ),
{
    let off = without_conservation(flags);
    assert(off.advection == flags.advection && off.fire == flags.fire && off.wind == flags.wind
        && off.vorticity == flags.vorticity);
}

/// Mass conservation adds only its measurements and corrections: with them
/// taken out, a substep's stages are exactly those of the same substep with
/// conservation off.
#[verifier::rlimit(60)]
pub proof fn lemma_conservation_only_brackets(
    flags: SubstepFlags,
    emission: bool,
    pressure: PressureSolve,
)
    ensures
        substep_plan(flags, emission, pressure).filter(|s: Stage| !is_correction(s))
            == substep_plan(without_conservation(flags), emission, pressure),
{
    let f = |s: Stage| !is_correction(s);
    let off = without_conservation(flags);
    let pre = pre_projection_plan(flags, emission);
    let proj = projection_plan(pressure);
    let scal = scalar_plan(flags);
    lemma_pre_projection_ignores_conservation(flags, emission);
    assert(pre.filter(f) == pre) by {
        lemma_pre_projection_uncorrected(flags, emission);
    }
    assert(proj.filter(f) == proj) by {
        assert forall|i: int| 0 <= i < proj.len() implies !is_correction(#[trigger] proj[i]) by {}
        lemma_no_correction_in(proj);
    }
    assert(scal.filter(f) == scalar_plan(off)) by {
        lemma_scalar_plan_filtered(flags);
    }
    assert((pre + proj + scal).filter(f) == pre.filter(f) + proj.filter(f) + scal.filter(f)) by {
        vstd::seq::Seq::filter_distributes_over_add(pre + proj, scal, f);
        vstd::seq::Seq::filter_distributes_over_add(pre, proj, f);
    }
}

/// Whether `s` is an advection pass of the scalar `c` (not a face grid).
pub open spec fn advects_scalar(s: Stage, c: Carried) -> bool {
    s matches Stage::Advect(d, _) && d == c && !(c is Face)
}

/// Whether every run of advection passes of a scalar in `st` comes right
/// after that scalar's measurement and right before its correction.
pub open spec fn scalars_bracketed(st: Seq<Stage>) -> bool {
    forall|k: int, c: Carried|
        0 <= k < st.len() && #[trigger] advects_scalar(st[k], c) ==> {
            &&& k > 0
            &&& st[k - 1] == Stage::MeasureBefore(c) || advects_scalar(st[k - 1], c)
            &&& k + 1 < st.len()
            &&& st[k + 1] == Stage::CorrectAfter(c) || advects_scalar(st[k + 1], c)
        }
}

proof fn lemma_bracketed_concat(a: Seq<Stage>, b: Seq<Stage>)
    requires
        scalars_bracketed(a),
        scalars_bracketed(b),
    ensures
        scalars_bracketed(a + b),
{
    let s = a + b;
    assert forall|k: int, c: Carried| 0 <= k < s.len() && #[trigger] advects_scalar(s[k], c) implies {
        &&& k > 0
        &&& s[k - 1] == Stage::MeasureBefore(c) || advects_scalar(s[k - 1], c)
        &&& k + 1 < s.len()
        &&& s[k + 1] == Stage::CorrectAfter(c) || advects_scalar(s[k + 1], c)
    } by {
        if k < a.len() {
            assert(s[k] == a[k]);
            assert(advects_scalar(a[k], c));
            assert(s[k - 1] == a[k - 1]);
            assert(s[k + 1] == a[k + 1]);
        } else {
            let j = k - a.len();
            assert(s[k] == b[j]);
            assert(advects_scalar(b[j], c));
            assert(s[k - 1] == b[j - 1]);
            assert(s[k + 1] == b[j + 1]);
        }
    }
}

proof fn lemma_no_scalar_advection(s: Seq<Stage>)
    requires
        forall|k: int, c: Carried| 0 <= k < s.len() ==> !#[trigger] advects_scalar(s[k], c),
    ensures
        scalars_bracketed(s),
{
}

proof fn lemma_scalar_passes_bracketed(c: Carried, flags: SubstepFlags)
    requires
        flags.conserve_mass,
    ensures
        scalars_bracketed(scalar_passes(c, flags)),
{
    let s = scalar_passes(c, flags);
    assert forall|k: int, e: Carried| 0 <= k < s.len() && #[trigger] advects_scalar(s[k], e) implies {
        &&& k > 0
        &&& s[k - 1] == Stage::MeasureBefore(e) || advects_scalar(s[k - 1], e)
        &&& k + 1 < s.len()
        &&& s[k + 1] == Stage::CorrectAfter(e) || advects_scalar(s[k + 1], e)
    } by {
        match flags.advection {
            Advection::SemiLagrangian => {
                assert(s =~= seq![
                    Stage::MeasureBefore(c),
                    Stage::Advect(c, AdvectPass::SemiLagrangian),
                    Stage::CorrectAfter(c),
                ]);
            },
            Advection::MacCormack => {
                assert(s =~= seq![
                    Stage::MeasureBefore(c),
                    Stage::Advect(c, AdvectPass::Forward),
                    Stage::Advect(c, AdvectPass::Backward),
                    Stage::Advect(c, AdvectPass::Correct),
                    Stage::CorrectAfter(c),
                ]);
            },
        }
    }
}

proof fn lemma_pre_projection_no_scalar(flags: SubstepFlags, emission: bool)
    ensures
        scalars_bracketed(pre_projection_plan(flags, emission)),
{
    let pre = pre_projection_plan(flags, emission);
    let head = seq![Stage::Emit(Carried::Density), Stage::Emit(Carried::Temperature)]
        + (if flags.fire { seq![Stage::EmitFuel, Stage::Burn] } else { Seq::empty() })
        + (if emission { seq![Stage::BlendVelocity] } else { Seq::empty() })
        + seq![Stage::Buoyancy]
        + (if flags.wind { seq![Stage::Wind] } else { Seq::empty() })
        + (if flags.vorticity { seq![Stage::Curl, Stage::Confine] } else { Seq::empty() });
    let gx = grid_passes(Carried::Face(Axis::X), flags.advection);
    let gy = grid_passes(Carried::Face(Axis::Y), flags.advection);
    let gz = grid_passes(Carried::Face(Axis::Z), flags.advection);
    assert(pre == head + gx + gy + gz);
    assert forall|k: int, c: Carried| 0 <= k < pre.len() implies !#[trigger] advects_scalar(pre[k], c) by {
        if k < head.len() {
            assert(pre[k] == head[k]);
        } else if k < head.len() + gx.len() {
            assert(pre[k] == gx[k - head.len()]);
        } else if k < head.len() + gx.len() + gy.len() {
            assert(pre[k] == gy[k - head.len() - gx.len()]);
        } else {
            assert(pre[k] == gz[k - head.len() - gx.len() - gy.len()]);
        }
    }
    lemma_no_scalar_advection(pre);
}

/// With mass conservation on, every scalar a substep carries (density,
/// temperature, and with fire fuel and react) has its advection passes
/// directly after its measurement and directly before its correction.
pub proof fn lemma_conserved_scalars_bracketed(flags: SubstepFlags, emission: bool, pressure: PressureSolve)
    requires
        flags.conserve_mass,
    ensures
        scalars_bracketed(substep_plan(flags, emission, pressure)),
{
    lemma_pre_projection_no_scalar(flags, emission);
    let proj = projection_plan(pressure);
    assert forall|k: int, c: Carried| 0 <= k < proj.len() implies !#[trigger] advects_scalar(proj[k], c) by {}
    lemma_no_scalar_advection(proj);
    let sd = scalar_passes(Carried::Density, flags);
    let st = scalar_passes(Carried::Temperature, flags);
    lemma_scalar_passes_bracketed(Carried::Density, flags);
    lemma_scalar_passes_bracketed(Carried::Temperature, flags);
    lemma_bracketed_concat(sd, st);
    if flags.fire {
        let sf = scalar_passes(Carried::Fuel, flags);
        let sr = scalar_passes(Carried::React, flags);
        lemma_scalar_passes_bracketed(Carried::Fuel, flags);
        lemma_scalar_passes_bracketed(Carried::React, flags);
        lemma_bracketed_concat(sf, sr);
        lemma_bracketed_concat(sd + st, sf + sr);
        assert(scalar_plan(flags) == sd + st + (sf + sr));
    } else {
        assert(scalar_plan(flags) =~= sd + st);
    }
    let pre = pre_projection_plan(flags, emission);
    lemma_bracketed_concat(pre, proj);
    lemma_bracketed_concat(pre + proj, scalar_plan(flags));
}

} // verus!
