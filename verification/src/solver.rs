//! `ember.smoke_solver`'s discrete parameters: the quality presets, the
//! pressure solve they choose, and resolving and validating the counts a
//! document sets.
//!
//! The solver's real-valued parameters (rates, buoyancy, CFL, wind) are
//! validated where they are parsed; everything that counts, chooses or
//! switches is resolved here.

use vstd::prelude::*;
use crate::boundaries::{Boundaries, Face};
use crate::text::{decimal, decimal_string, owned};

verus! {

pub const KIND: &'static str = "ember.smoke_solver";

pub const MAX_SUBSTEPS: u32 = 16;
pub const MAX_PRESSURE_ITERATIONS: u32 = 1000;
pub const MAX_PRESSURE_CYCLES: u32 = 64;

/// How the solver advects velocity and scalars.
#[derive(Debug, Clone, Copy, PartialEq, Eq, Structural)]
pub enum Advection {
    /// One RK2 semi-Lagrangian pass: cheap, and diffusive.
    SemiLagrangian,
    /// Forward, backward and a clamped correction: sharper, three passes.
    MacCormack,
}

/// A quality preset. It fills every field a document leaves unset.
#[derive(Debug, Clone, Copy, PartialEq, Eq, Structural)]
pub enum Quality {
    /// Interactive: 128³ within 100 ms a frame.
    Preview,
    /// Offline bakes: no time budget.
    Final,
}

impl Default for Quality {
    fn default() -> (q: Self)
        ensures
            q == Quality::Preview,
    {
        Quality::Preview
    }
}

/// Which method solves for pressure in the projection.
#[derive(Debug, Clone, Copy, PartialEq, Eq, Structural)]
pub enum PressureSolver {
    /// Red-black Gauss–Seidel, `pressure_iterations` sweeps.
    GaussSeidel,
    /// `pressure_cycles` multigrid V-cycles.
    Multigrid,
    /// `pressure_cycles` iterations of conjugate gradients preconditioned by
    /// one V-cycle.
    Mgpcg,
}

impl Default for PressureSolver {
    fn default() -> (p: Self)
        ensures
            p == PressureSolver::GaussSeidel,
    {
        PressureSolver::GaussSeidel
    }
}

/// One substep's pressure solve with its count.
#[derive(Debug, Clone, Copy, PartialEq, Eq, Structural)]
pub enum PressureSolve {
    /// Red-black Gauss–Seidel sweeps.
    GaussSeidel(u32),
    /// V-cycles on a hierarchy built for the substep.
    Multigrid(u32),
    /// MGPCG iterations on a hierarchy built for the substep.
    Mgpcg(u32),
}

/// The solver's discrete parameters, resolved: every field has a value.
#[derive(Debug, Clone, Copy, PartialEq, Eq, Structural)]
pub struct SolverSettings {
    /// Cap on CFL substeps per frame; 1..=16.
    pub max_substeps: u32,
    /// Red-black Gauss–Seidel iterations per substep, when `pressure_solver`
    /// is `GaussSeidel`; 1..=1000.
    pub pressure_iterations: u32,
    /// How velocity and scalars are advected.
    pub advection: Advection,
    /// Which domain faces are open; the rest are walls.
    pub boundaries: Boundaries,
    /// The pressure solve: Gauss–Seidel, multigrid or MGPCG.
    pub pressure_solver: PressureSolver,
    /// V-cycles (multigrid) or PCG iterations (MGPCG) per substep; 1..=64.
    pub pressure_cycles: u32,
    /// Rescale density and temperature after each advection so that their
    /// totals change only by what left, what solids removed and dissipation.
    pub conserve_mass: bool,
}

/// The preset's (pressure iterations, max substeps, pressure cycles).
pub open spec fn preset_counts(q: Quality) -> (u32, u32, u32) {
    match q {
        Quality::Preview => (160, 1, 4),
        Quality::Final => (480, 8, 10),
    }
}

/// The preset's discrete parameters.
pub open spec fn preset(q: Quality) -> SolverSettings {
    let (iterations, substeps, cycles) = preset_counts(q);
    SolverSettings {
        max_substeps: substeps,
        pressure_iterations: iterations,
        advection: Advection::MacCormack,
        boundaries: Boundaries {
            neg_x: Face::Wall,
            pos_x: Face::Wall,
            neg_y: Face::Wall,
            pos_y: Face::Wall,
            neg_z: Face::Wall,
            pos_z: Face::Open,
        },
        pressure_solver: PressureSolver::Mgpcg,
        pressure_cycles: cycles,
        conserve_mass: true,
    }
}

impl Quality {
    /// The preset's discrete parameters: MGPCG on MacCormack advection with
    /// mass correction, the default boundaries, and the preset's counts.
    pub fn settings(self) -> (s: SolverSettings)
        ensures
            s == preset(self),
            valid_settings(s),
    {
        // Gauss–Seidel's count is kept for documents that choose it; both
        // presets solve with MGPCG.
        let (pressure_iterations, max_substeps, pressure_cycles) = match self {
            Quality::Preview => (160, 1, 4),
            Quality::Final => (480, 8, 10),
        };
        SolverSettings {
            max_substeps,
            pressure_iterations,
            advection: Advection::MacCormack,
            boundaries: Boundaries::default(),
            pressure_solver: PressureSolver::Mgpcg,
            pressure_cycles,
            conserve_mass: true,
        }
    }
}

impl Default for SolverSettings {
    /// The preview preset.
    fn default() -> (s: Self)
        ensures
            s == preset(Quality::Preview),
    {
        Quality::default().settings()
    }
}

/// The solve `pressure_solver` names, with its count.
pub open spec fn spec_pressure(s: SolverSettings) -> PressureSolve {
    match s.pressure_solver {
        PressureSolver::GaussSeidel => PressureSolve::GaussSeidel(s.pressure_iterations),
        PressureSolver::Multigrid => PressureSolve::Multigrid(s.pressure_cycles),
        PressureSolver::Mgpcg => PressureSolve::Mgpcg(s.pressure_cycles),
    }
}

impl SolverSettings {
    /// The pressure solve `pressure_solver` names, with its count.
    pub fn pressure(&self) -> (p: PressureSolve)
        ensures
            p == spec_pressure(*self),
    {
        match self.pressure_solver {
            PressureSolver::GaussSeidel => PressureSolve::GaussSeidel(self.pressure_iterations),
            PressureSolver::Multigrid => PressureSolve::Multigrid(self.pressure_cycles),
            PressureSolver::Mgpcg => PressureSolve::Mgpcg(self.pressure_cycles),
        }
    }
}

/// A node's parameters were rejected: which kind of node, and why.
#[derive(Debug, Clone, PartialEq, Eq)]
pub struct ParamError {
    pub kind: String,
    pub reason: String,
}

/// A document's discrete parameters as written. Every field is optional,
/// and `resolve_settings` fills the gaps from the preset.
#[derive(Debug, Clone, Copy, PartialEq, Eq)]
pub struct DocSettings {
    pub quality: Option<Quality>,
    /// The older name for `max_substeps`, still accepted.
    pub substeps: Option<u32>,
    pub max_substeps: Option<u32>,
    pub pressure_iterations: Option<u32>,
    pub advection: Option<Advection>,
    pub boundaries: Option<Boundaries>,
    /// Whether the document sets the retired `wind` acceleration.
    pub wind: bool,
    pub pressure_solver: Option<PressureSolver>,
    pub pressure_cycles: Option<u32>,
    pub conserve_mass: Option<bool>,
}

pub open spec fn or_default<T>(o: Option<T>, d: T) -> T {
    match o {
        Some(v) => v,
        None => d,
    }
}

/// `doc`'s values, each unset one taken from the preset it names (preview
/// when it names none); `max_substeps` falls back to its alias `substeps`.
pub open spec fn merged(doc: DocSettings) -> SolverSettings {
    let p = preset(or_default(doc.quality, Quality::Preview));
    SolverSettings {
        max_substeps: or_default(doc.max_substeps, or_default(doc.substeps, p.max_substeps)),
        pressure_iterations: or_default(doc.pressure_iterations, p.pressure_iterations),
        advection: or_default(doc.advection, p.advection),
        boundaries: or_default(doc.boundaries, p.boundaries),
        pressure_solver: or_default(doc.pressure_solver, p.pressure_solver),
        pressure_cycles: or_default(doc.pressure_cycles, p.pressure_cycles),
        conserve_mass: or_default(doc.conserve_mass, p.conserve_mass),
    }
}

/// Every count within its range.
pub open spec fn valid_settings(s: SolverSettings) -> bool {
    &&& 1 <= s.max_substeps <= MAX_SUBSTEPS
    &&& 1 <= s.pressure_iterations <= MAX_PRESSURE_ITERATIONS
    &&& 1 <= s.pressure_cycles <= MAX_PRESSURE_CYCLES
}

/// Why `s` is rejected, naming the first count out of range, or `None`.
pub open spec fn settings_fault(s: SolverSettings) -> Option<Seq<char>> {
    if !(1 <= s.max_substeps <= MAX_SUBSTEPS) {
        Some("max_substeps must be 1..=16, got "@ + decimal(s.max_substeps as nat))
    } else if !(1 <= s.pressure_iterations <= MAX_PRESSURE_ITERATIONS) {
        Some("pressure_iterations must be 1..=1000, got "@ + decimal(s.pressure_iterations as nat))
    } else if !(1 <= s.pressure_cycles <= MAX_PRESSURE_CYCLES) {
        Some("pressure_cycles must be 1..=64, got "@ + decimal(s.pressure_cycles as nat))
    } else {
        None
    }
}

/// Why `doc` is rejected, or `None`: the retired `wind`, both spellings of
/// `max_substeps`, then the merged counts out of range, in that order.
pub open spec fn doc_fault(doc: DocSettings) -> Option<Seq<char>> {
    if doc.wind {
        Some("\"wind\" was replaced by \"wind_velocity\" (m/s) and \"wind_rate\" (1/s)"@)
    } else if doc.substeps is Some && doc.max_substeps is Some {
        Some("set max_substeps or its alias substeps, not both"@)
    } else {
        settings_fault(merged(doc))
    }
}

pub proof fn lemma_fault_iff_invalid(s: SolverSettings)
    ensures
        settings_fault(s) is None <==> valid_settings(s),
{
}

fn bad(reason: String) -> (e: ParamError)
    ensures
        e.kind@ == KIND@,
        e.reason@ == reason@,
{
    ParamError { kind: owned(KIND), reason }
}

fn with_number(prefix: &str, n: u32) -> (s: String)
    ensures
        s@ == prefix@ + decimal(n as nat),
{
    let mut s = owned(prefix);
    let digits = decimal_string(n as u64);
    s.append(digits.as_str());
    s
}

/// Check the counts: substeps 1..=16, Gauss–Seidel iterations 1..=1000,
/// V-cycles or PCG iterations 1..=64, naming the first that is out of range.
pub fn validate_settings(s: &SolverSettings) -> (r: Result<(), ParamError>)
    ensures
        r is Ok <==> settings_fault(*s) is None,
        r is Ok <==> valid_settings(*s),
        r matches Err(e) ==> e.kind@ == KIND@ && Some(e.reason@) == settings_fault(*s),
{
    if !(1 <= s.max_substeps && s.max_substeps <= MAX_SUBSTEPS) {
        return Err(bad(with_number("max_substeps must be 1..=16, got ", s.max_substeps)));
    }
    if !(1 <= s.pressure_iterations && s.pressure_iterations <= MAX_PRESSURE_ITERATIONS) {
        return Err(bad(with_number("pressure_iterations must be 1..=1000, got ", s.pressure_iterations)));
    }
    if !(1 <= s.pressure_cycles && s.pressure_cycles <= MAX_PRESSURE_CYCLES) {
        return Err(bad(with_number("pressure_cycles must be 1..=64, got ", s.pressure_cycles)));
    }
    Ok(())
}

fn pick<T: Copy>(o: Option<T>, d: T) -> (v: T)
    ensures
        v == or_default(o, d),
{
    match o {
        Some(v) => v,
        None => d,
    }
}

/// `doc`'s values over its preset's.
fn merge(doc: &DocSettings) -> (s: SolverSettings)
    ensures
        s == merged(*doc),
{
    let preset = pick(doc.quality, Quality::Preview).settings();
    SolverSettings {
        max_substeps: pick(doc.max_substeps, pick(doc.substeps, preset.max_substeps)),
        pressure_iterations: pick(doc.pressure_iterations, preset.pressure_iterations),
        advection: pick(doc.advection, preset.advection),
        boundaries: pick(doc.boundaries, preset.boundaries),
        pressure_solver: pick(doc.pressure_solver, preset.pressure_solver),
        pressure_cycles: pick(doc.pressure_cycles, preset.pressure_cycles),
        conserve_mass: pick(doc.conserve_mass, preset.conserve_mass),
    }
}

/// Fill `doc`'s unset fields from its preset and validate the result.
pub fn resolve_settings(doc: &DocSettings) -> (r: Result<SolverSettings, ParamError>)
    ensures
        r is Ok <==> doc_fault(*doc) is None,
        r matches Ok(s) ==> s == merged(*doc) && valid_settings(s),
        r matches Ok(s) ==> document_wins(*doc, s),
        r matches Err(e) ==> e.kind@ == KIND@ && Some(e.reason@) == doc_fault(*doc),
{
    if doc.wind {
        return Err(bad(owned("\"wind\" was replaced by \"wind_velocity\" (m/s) and \"wind_rate\" (1/s)")));
    }
    if doc.substeps.is_some() && doc.max_substeps.is_some() {
        return Err(bad(owned("set max_substeps or its alias substeps, not both")));
    }
    let s = merge(doc);
    assert(s == merged(*doc));
    let checked = validate_settings(&s);
    assert(doc_fault(*doc) == settings_fault(s));
    proof { lemma_document_fields_win(*doc); }
    match checked {
        Ok(()) => Ok(s),
        Err(e) => Err(e),
    }
}

/// The preset a document names, or preview when it names none.
pub open spec fn named_preset(doc: DocSettings) -> SolverSettings {
    match doc.quality {
        Some(q) => preset(q),
        None => preset(Quality::Preview),
    }
}

/// Whether `s` holds every field `doc` sets, and the named preset's value
/// of every field it leaves unset; `max_substeps` falls back to its alias
/// `substeps` before the preset.
pub open spec fn document_wins(doc: DocSettings, s: SolverSettings) -> bool {
    let p = named_preset(doc);
    &&& (doc.max_substeps matches Some(n) ==> s.max_substeps == n)
    &&& (doc.max_substeps is None ==> (doc.substeps matches Some(n) ==> s.max_substeps == n))
    &&& (doc.max_substeps is None && doc.substeps is None ==> s.max_substeps == p.max_substeps)
    &&& (doc.pressure_iterations matches Some(n) ==> s.pressure_iterations == n)
    &&& (doc.pressure_iterations is None ==> s.pressure_iterations == p.pressure_iterations)
    &&& (doc.advection matches Some(a) ==> s.advection == a)
    &&& (doc.advection is None ==> s.advection == p.advection)
    &&& (doc.boundaries matches Some(b) ==> s.boundaries == b)
    &&& (doc.boundaries is None ==> s.boundaries == p.boundaries)
    &&& (doc.pressure_solver matches Some(v) ==> s.pressure_solver == v)
    &&& (doc.pressure_solver is None ==> s.pressure_solver == p.pressure_solver)
    &&& (doc.pressure_cycles matches Some(n) ==> s.pressure_cycles == n)
    &&& (doc.pressure_cycles is None ==> s.pressure_cycles == p.pressure_cycles)
    &&& (doc.conserve_mass matches Some(m) ==> s.conserve_mass == m)
    &&& (doc.conserve_mass is None ==> s.conserve_mass == p.conserve_mass)
}

/// Every field a document sets is that field of the settings it resolves
/// to, and every field it leaves unset comes from the preset it names.
pub proof fn lemma_document_fields_win(doc: DocSettings)
    ensures
        document_wins(doc, merged(doc)),
{
}

} // verus!
