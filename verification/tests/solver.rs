use elements_ember::boundaries::{Boundaries, Face};
use elements_ember::cfl::{plan_from_cells, SubstepPlan};
use elements_ember::solver::{
    resolve_settings, validate_settings, Advection, DocSettings, PressureSolve, PressureSolver,
    Quality, SolverSettings,
};

fn empty_doc() -> DocSettings {
    DocSettings {
        quality: None,
        substeps: None,
        max_substeps: None,
        pressure_iterations: None,
        advection: None,
        boundaries: None,
        wind: false,
        pressure_solver: None,
        pressure_cycles: None,
        conserve_mass: None,
    }
}

#[test]
fn the_presets_solve_with_mgpcg() {
    let p = Quality::Preview.settings();
    assert_eq!(p.max_substeps, 1);
    assert_eq!(p.pressure_iterations, 160);
    assert_eq!(p.pressure_cycles, 4);
    assert_eq!(p.pressure(), PressureSolve::Mgpcg(4));
    assert_eq!(p.advection, Advection::MacCormack);
    assert!(p.conserve_mass);
    assert_eq!(p.boundaries, Boundaries::default());
    let f = Quality::Final.settings();
    assert_eq!(f.max_substeps, 8);
    assert_eq!(f.pressure_iterations, 480);
    assert_eq!(f.pressure(), PressureSolve::Mgpcg(10));
    assert_eq!(SolverSettings::default(), p);
    assert_eq!(Quality::default(), Quality::Preview);
    assert_eq!(PressureSolver::default(), PressureSolver::GaussSeidel);
}

#[test]
fn an_empty_document_is_the_preview_preset() {
    let s = resolve_settings(&empty_doc()).unwrap();
    assert_eq!(s, Quality::Preview.settings());
}

#[test]
fn the_document_overrides_its_preset() {
    let doc = DocSettings {
        quality: Some(Quality::Final),
        pressure_solver: Some(PressureSolver::GaussSeidel),
        pressure_iterations: Some(200),
        substeps: Some(3),
        boundaries: Some(Boundaries::closed()),
        conserve_mass: Some(false),
        ..empty_doc()
    };
    let s = resolve_settings(&doc).unwrap();
    assert_eq!(s.max_substeps, 3);
    assert_eq!(s.pressure(), PressureSolve::GaussSeidel(200));
    assert_eq!(s.pressure_cycles, 10);
    assert_eq!(s.boundaries.pos_z, Face::Wall);
    assert!(!s.conserve_mass);
}

#[test]
fn wind_is_refused_with_its_replacements_named() {
    let e = resolve_settings(&DocSettings { wind: true, ..empty_doc() }).unwrap_err();
    assert_eq!(e.kind, "ember.smoke_solver");
    assert_eq!(
        e.reason,
        "\"wind\" was replaced by \"wind_velocity\" (m/s) and \"wind_rate\" (1/s)"
    );
}

#[test]
fn both_spellings_of_max_substeps_are_refused() {
    let doc = DocSettings { substeps: Some(2), max_substeps: Some(2), ..empty_doc() };
    let e = resolve_settings(&doc).unwrap_err();
    assert_eq!(e.reason, "set max_substeps or its alias substeps, not both");
}

#[test]
fn counts_out_of_range_are_refused_with_the_value() {
    let e = resolve_settings(&DocSettings { max_substeps: Some(17), ..empty_doc() }).unwrap_err();
    assert_eq!(e.reason, "max_substeps must be 1..=16, got 17");
    let e = resolve_settings(&DocSettings { pressure_iterations: Some(0), ..empty_doc() }).unwrap_err();
    assert_eq!(e.reason, "pressure_iterations must be 1..=1000, got 0");
    let e = resolve_settings(&DocSettings { pressure_cycles: Some(65), ..empty_doc() }).unwrap_err();
    assert_eq!(e.reason, "pressure_cycles must be 1..=64, got 65");
    let mut s = Quality::Preview.settings();
    assert!(validate_settings(&s).is_ok());
    s.pressure_cycles = 64;
    s.max_substeps = 16;
    s.pressure_iterations = 1000;
    assert!(validate_settings(&s).is_ok());
}

#[test]
fn the_multigrid_solve_counts_cycles() {
    let doc = DocSettings { pressure_solver: Some(PressureSolver::Multigrid), pressure_cycles: Some(7), ..empty_doc() };
    assert_eq!(resolve_settings(&doc).unwrap().pressure(), PressureSolve::Multigrid(7));
}

#[test]
fn substeps_are_clamped_to_the_cap() {
    assert_eq!(plan_from_cells(0, 8), SubstepPlan { count: 1, clamped: false });
    assert_eq!(plan_from_cells(3, 8), SubstepPlan { count: 3, clamped: false });
    assert_eq!(plan_from_cells(8, 8), SubstepPlan { count: 8, clamped: false });
    assert_eq!(plan_from_cells(9, 8), SubstepPlan { count: 8, clamped: true });
    assert_eq!(plan_from_cells(u32::MAX, 16), SubstepPlan { count: 16, clamped: true });
}
