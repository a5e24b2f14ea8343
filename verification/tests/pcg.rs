use elements_ember::pcg::{pcg_steps, PcgStep, DQ, RZ_A, RZ_B};

#[test]
fn one_iteration_updates_p_and_r_and_stops() {
    let steps = pcg_steps(1, false);
    assert_eq!(
        steps,
        vec![
            PcgStep::InitialResidual,
            PcgStep::Precondition,
            PcgStep::CopyDirection,
            PcgStep::DotRz(RZ_A),
            PcgStep::ZeroScratch,
            PcgStep::ApplyOperator,
            PcgStep::DotDq,
            PcgStep::Axpy { rz: RZ_A },
        ]
    );
}

#[test]
fn a_closed_solve_removes_the_residual_and_pressure_means() {
    let steps = pcg_steps(2, true);
    assert_eq!(
        steps,
        vec![
            PcgStep::InitialResidual,
            PcgStep::RemoveResidualMean,
            PcgStep::Precondition,
            PcgStep::CopyDirection,
            PcgStep::DotRz(RZ_A),
            PcgStep::ZeroScratch,
            PcgStep::ApplyOperator,
            PcgStep::DotDq,
            PcgStep::Axpy { rz: RZ_A },
            PcgStep::RemoveResidualMean,
            PcgStep::Precondition,
            PcgStep::DotRz(RZ_B),
            PcgStep::UpdateDirection { rz: RZ_A, rz_new: RZ_B },
            PcgStep::Flush,
            PcgStep::ZeroScratch,
            PcgStep::ApplyOperator,
            PcgStep::DotDq,
            PcgStep::Axpy { rz: RZ_B },
            PcgStep::RemoveResidualMean,
            PcgStep::RemovePressureMean,
        ]
    );
}

#[test]
fn the_rz_slots_alternate_and_every_read_is_of_the_latest_write() {
    let steps = pcg_steps(5, false);
    let mut latest: Option<u32> = None;
    let mut earlier: Option<u32> = None;
    let mut flushes = 0;
    for step in &steps {
        match *step {
            PcgStep::DotRz(slot) => {
                assert_ne!(slot, DQ);
                earlier = latest;
                latest = Some(slot);
            }
            PcgStep::Axpy { rz } => assert_eq!(latest, Some(rz)),
            PcgStep::UpdateDirection { rz, rz_new } => {
                assert_eq!(latest, Some(rz_new));
                assert_eq!(earlier, Some(rz));
                assert_ne!(rz, rz_new);
            }
            PcgStep::Flush => flushes += 1,
            _ => {}
        }
    }
    assert_eq!(flushes, 4);
}

#[test]
fn no_iterations_leave_only_the_setup() {
    assert_eq!(pcg_steps(0, false).len(), 4);
    assert_eq!(pcg_steps(0, true).last(), Some(&PcgStep::RemovePressureMean));
}
