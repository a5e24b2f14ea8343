use elements_ember::vcycle::{v_cycle_steps, VStep};

fn smooth(level: u32, sweeps: u32, reverse: bool) -> VStep {
    VStep::Smooth { level, sweeps, reverse }
}

#[test]
fn a_single_level_solves_as_a_palindrome() {
    let steps = v_cycle_steps(1, false, 1);
    assert_eq!(steps, vec![smooth(0, 1, false), smooth(0, 1, true)]);
}

#[test]
fn a_closed_two_level_cycle_removes_the_coarse_mean_and_then_p_mean() {
    let steps = v_cycle_steps(2, true, 1);
    assert_eq!(
        steps,
        vec![
            smooth(0, 2, false),
            VStep::Residual(0),
            VStep::Restrict(0),
            VStep::RemoveMean(1),
            smooth(1, 1, false),
            smooth(1, 1, true),
            VStep::Prolong(0),
            smooth(0, 2, true),
            VStep::RemoveMean(0),
        ]
    );
}

#[test]
fn cycles_are_flushed_one_per_submission() {
    let one = v_cycle_steps(3, false, 1);
    let two = v_cycle_steps(3, false, 2);
    assert_eq!(two.len(), 2 * one.len() + 1);
    assert_eq!(two[one.len()], VStep::Flush);
    assert_eq!(&two[..one.len()], &one[..]);
    assert_eq!(&two[one.len() + 1..], &one[..]);
    assert!(v_cycle_steps(3, true, 0) == vec![VStep::RemoveMean(0)]);
    assert!(v_cycle_steps(3, false, 0).is_empty());
}

#[test]
fn one_cycle_reads_the_same_backwards_with_adjoint_steps() {
    let steps = v_cycle_steps(4, true, 1);
    let skeleton: Vec<VStep> = steps
        .into_iter()
        .filter(|s| matches!(s, VStep::Smooth { .. } | VStep::Restrict(_) | VStep::Prolong(_)))
        .collect();
    let mirrored: Vec<VStep> = skeleton
        .iter()
        .rev()
        .map(|s| match *s {
            VStep::Smooth { level, sweeps, reverse } => VStep::Smooth { level, sweeps, reverse: !reverse },
            VStep::Restrict(l) => VStep::Prolong(l),
            VStep::Prolong(l) => VStep::Restrict(l),
            other => other,
        })
        .collect();
    assert_eq!(mirrored, skeleton);
}

#[test]
fn every_step_stays_inside_the_hierarchy() {
    let depth = 4u32;
    for closed in [false, true] {
        for step in v_cycle_steps(depth, closed, 3) {
            match step {
                VStep::Smooth { level, .. } => assert!(level < depth),
                VStep::Residual(l) | VStep::Restrict(l) | VStep::Prolong(l) => assert!(l + 1 < depth),
                VStep::RemoveMean(l) => assert!(l < depth),
                VStep::Flush => {}
            }
        }
    }
}
