use elements_ember::grid::{Axis, FieldDims};
use elements_ember::solver::{Advection, PressureSolve};
use elements_ember::substep::{
    pre_projection_stages, projection_stages, scalar_stages, substep_stages, AdvectPass, Carried,
    Stage, StageError, SubstepFlags,
};

fn flags(advection: Advection, conserve_mass: bool, fire: bool) -> SubstepFlags {
    SubstepFlags { advection, vorticity: false, wind: false, conserve_mass, fire }
}

fn sl(c: Carried) -> Stage {
    Stage::Advect(c, AdvectPass::SemiLagrangian)
}

#[test]
fn a_plain_substep_emits_forces_advects_projects_and_carries() {
    let plan = substep_stages(
        flags(Advection::SemiLagrangian, false, false),
        false,
        false,
        false,
        PressureSolve::GaussSeidel(160),
    )
    .unwrap();
    assert_eq!(
        plan,
        vec![
            Stage::Emit(Carried::Density),
            Stage::Emit(Carried::Temperature),
            Stage::Buoyancy,
            sl(Carried::Face(Axis::X)),
            sl(Carried::Face(Axis::Y)),
            sl(Carried::Face(Axis::Z)),
            Stage::Divergence,
            Stage::Solve(PressureSolve::GaussSeidel(160)),
            Stage::SubtractGradient,
            sl(Carried::Density),
            sl(Carried::Temperature),
        ]
    );
}

#[test]
fn every_switch_adds_its_stages_in_place() {
    let f = SubstepFlags {
        advection: Advection::MacCormack,
        vorticity: true,
        wind: true,
        conserve_mass: false,
        fire: true,
    };
    let pre = pre_projection_stages(f, true, true, true).unwrap();
    assert_eq!(
        &pre[..8],
        &[
            Stage::Emit(Carried::Density),
            Stage::Emit(Carried::Temperature),
            Stage::EmitFuel,
            Stage::Burn,
            Stage::BlendVelocity,
            Stage::Buoyancy,
            Stage::Wind,
            Stage::Curl,
        ]
    );
    assert_eq!(pre[8], Stage::Confine);
    assert_eq!(pre.len(), 9 + 9);
    assert_eq!(
        &pre[9..12],
        &[
            Stage::Advect(Carried::Face(Axis::X), AdvectPass::Forward),
            Stage::Advect(Carried::Face(Axis::X), AdvectPass::Backward),
            Stage::Advect(Carried::Face(Axis::X), AdvectPass::Correct),
        ]
    );
    let scalars = scalar_stages(f, true).unwrap();
    assert_eq!(scalars.len(), 12);
    assert_eq!(scalars[9], Stage::Advect(Carried::React, AdvectPass::Forward));
}

#[test]
fn conservation_brackets_each_scalar_and_nothing_else() {
    let on = substep_stages(
        flags(Advection::SemiLagrangian, true, false),
        true,
        false,
        false,
        PressureSolve::Mgpcg(10),
    )
    .unwrap();
    let off = substep_stages(
        flags(Advection::SemiLagrangian, false, false),
        true,
        false,
        false,
        PressureSolve::Mgpcg(10),
    )
    .unwrap();
    let tail = &on[on.len() - 6..];
    assert_eq!(
        tail,
        &[
            Stage::MeasureBefore(Carried::Density),
            sl(Carried::Density),
            Stage::CorrectAfter(Carried::Density),
            Stage::MeasureBefore(Carried::Temperature),
            sl(Carried::Temperature),
            Stage::CorrectAfter(Carried::Temperature),
        ]
    );
    let stripped: Vec<Stage> = on
        .into_iter()
        .filter(|s| !matches!(s, Stage::MeasureBefore(_) | Stage::CorrectAfter(_)))
        .collect();
    assert_eq!(stripped, off);
}

#[test]
fn fire_without_fuel_is_refused() {
    let f = flags(Advection::SemiLagrangian, false, true);
    assert_eq!(pre_projection_stages(f, false, true, false), Err(StageError::NoFuel));
    assert_eq!(pre_projection_stages(f, false, false, true), Err(StageError::NoFuel));
    assert_eq!(scalar_stages(f, false), Err(StageError::NoFuelState));
    assert_eq!(
        substep_stages(f, false, false, true, PressureSolve::Multigrid(4)),
        Err(StageError::NoFuel)
    );
    assert!(pre_projection_stages(flags(Advection::SemiLagrangian, false, false), false, false, false).is_ok());
}

#[test]
fn the_projection_is_divergence_solve_gradient() {
    assert_eq!(
        projection_stages(PressureSolve::Multigrid(4)),
        vec![Stage::Divergence, Stage::Solve(PressureSolve::Multigrid(4)), Stage::SubtractGradient]
    );
}

#[test]
fn faces_have_one_more_texel_along_their_axis() {
    let cells = FieldDims::new(4, 5, 6);
    assert_eq!(Carried::Face(Axis::Y).dims(cells), FieldDims::new(4, 6, 6));
    assert_eq!(Carried::Face(Axis::Z).axis(), Some(Axis::Z));
    assert_eq!(Carried::Density.dims(cells), cells);
    assert_eq!(Carried::React.axis(), None);
}
