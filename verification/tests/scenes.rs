use elements_ember::bench::{largest_passing, scene_wiring, union_masks, DocEdge, NodeRole, SweepRow};
use elements_ember::emitter::{check_active_frames, is_active, seed_words, EMISSION_FRAMES};
use elements_ember::state::{check_state, wanted_inputs, Slot, StateCheck, Stored};
use elements_ember::unions::{build_collider_union, build_emitter_union};

fn e(from_node: u32, from_index: u32, to_node: u32, to_index: u32) -> DocEdge {
    DocEdge { from_node, from_index, to_node, to_index }
}

#[test]
fn the_gate_passes_with_the_largest_passing_count() {
    let rows = [
        SweepRow { count: 80, passes: true },
        SweepRow { count: 320, passes: false },
        SweepRow { count: 160, passes: true },
    ];
    assert_eq!(largest_passing(&rows), Some(160));
    assert_eq!(largest_passing(&[SweepRow { count: 1, passes: false }]), None);
    assert_eq!(largest_passing(&[]), None);
}

#[test]
fn a_scene_without_colliders_wires_emitter_solver_output() {
    let w = scene_wiring(0);
    assert_eq!(w.nodes.len(), 3);
    assert_eq!(w.nodes[1].role, NodeRole::Solver);
    assert_eq!(w.edges, vec![e(0, 0, 1, 0), e(0, 1, 1, 1), e(1, 0, 2, 0)]);
}

#[test]
fn one_collider_feeds_the_solver_directly() {
    let w = scene_wiring(1);
    assert_eq!(w.nodes.len(), 4);
    assert_eq!(w.nodes[3].role, NodeRole::Collider(0));
    assert_eq!(&w.edges[3..], &[e(3, 0, 1, 4), e(3, 1, 1, 5)]);
}

#[test]
fn colliders_are_merged_through_a_chain_of_unions() {
    let w = scene_wiring(3);
    let roles: Vec<NodeRole> = w.nodes.iter().map(|n| n.role).collect();
    assert_eq!(
        roles,
        vec![
            NodeRole::Emitter,
            NodeRole::Solver,
            NodeRole::Output,
            NodeRole::Collider(0),
            NodeRole::Collider(1),
            NodeRole::ColliderUnion(1),
            NodeRole::Collider(2),
            NodeRole::ColliderUnion(2),
        ]
    );
    for (i, n) in w.nodes.iter().enumerate() {
        assert_eq!(n.id as usize, i);
    }
    assert_eq!(
        &w.edges[3..],
        &[
            e(3, 0, 5, 0),
            e(3, 1, 5, 1),
            e(4, 0, 5, 2),
            e(4, 1, 5, 3),
            e(5, 0, 7, 0),
            e(5, 1, 7, 1),
            e(6, 0, 7, 2),
            e(6, 1, 7, 3),
            e(7, 0, 1, 4),
            e(7, 1, 1, 5),
        ]
    );
}

#[test]
fn emitters_emit_within_their_inclusive_range() {
    assert!(is_active(None, 1000));
    assert!(is_active(Some(EMISSION_FRAMES), 1));
    assert!(is_active(Some(EMISSION_FRAMES), 60));
    assert!(!is_active(Some(EMISSION_FRAMES), 61));
    assert!(!is_active(Some([5, 9]), 4));
    assert!(check_active_frames(Some([3, 3])).is_ok());
    let err = check_active_frames(Some([4, 3])).unwrap_err();
    assert_eq!(err.kind, "ember.emitter");
    assert_eq!(err.reason, "active_frames must not end before it starts");
}

#[test]
fn a_seed_splits_into_low_and_high_words() {
    assert_eq!(seed_words(0x1234_5678_9abc_def0), (0x9abc_def0, 0x1234_5678));
    assert_eq!(seed_words(7), (7, 0));
}

#[test]
fn an_empty_store_starts_fresh() {
    assert_eq!(check_state(false, &[]), StateCheck::Fresh);
    assert_eq!(check_state(true, &[]), StateCheck::Fresh);
}

#[test]
fn a_full_state_of_the_right_shape_is_complete() {
    let base = [
        (Slot::Velocity, Stored::VectorField),
        (Slot::Density, Stored::Field),
        (Slot::Temperature, Stored::Field),
        (Slot::Pressure, Stored::Field),
    ];
    assert_eq!(check_state(false, &base), StateCheck::Complete);
    let mut fire = base.to_vec();
    fire.push((Slot::Fuel, Stored::Field));
    fire.push((Slot::React, Stored::Field));
    assert_eq!(check_state(true, &fire), StateCheck::Complete);
    assert_eq!(check_state(false, &fire), StateCheck::WrongShape(Slot::Fuel));
    assert_eq!(check_state(true, &base), StateCheck::WrongShape(Slot::Fuel));
}

#[test]
fn the_first_missing_or_misshapen_slot_is_named() {
    let missing_density = [
        (Slot::Velocity, Stored::VectorField),
        (Slot::Temperature, Stored::Other),
        (Slot::Pressure, Stored::Field),
    ];
    assert_eq!(check_state(false, &missing_density), StateCheck::WrongShape(Slot::Density));
    let wrong = [
        (Slot::Velocity, Stored::Field),
        (Slot::Density, Stored::Field),
        (Slot::Temperature, Stored::Field),
        (Slot::Pressure, Stored::Field),
    ];
    assert_eq!(check_state(false, &wrong), StateCheck::WrongShape(Slot::Velocity));
    assert_eq!(Slot::React.name(), "react");
}

#[test]
fn the_frame_takes_only_the_connected_inputs() {
    assert_eq!(wanted_inputs(false, false, false), vec![0, 1]);
    assert_eq!(wanted_inputs(true, true, true), vec![0, 1, 2, 3, 4, 5, 6]);
    assert_eq!(wanted_inputs(false, true, false), vec![0, 1, 4, 5]);
}

#[test]
fn unions_take_no_parameters() {
    assert!(build_emitter_union(true).is_ok());
    let err = build_emitter_union(false).unwrap_err();
    assert_eq!(err.kind, "ember.emitter_union");
    assert_eq!(err.reason, "takes no parameters");
    assert_eq!(build_collider_union(false).unwrap_err().kind, "ember.collider_union");
}

#[test]
fn the_solid_mask_is_the_union_of_the_colliders() {
    assert!(union_masks(&vec![]).is_empty());
    let a = vec![true, false, false, false];
    let b = vec![false, false, true, false];
    let c = vec![false, true];
    assert_eq!(union_masks(&vec![a.clone()]), a);
    assert_eq!(union_masks(&vec![a.clone(), b.clone()]), vec![true, false, true, false]);
    assert_eq!(union_masks(&vec![a, b, c]), vec![true, true, true, false]);
}

#[test]
fn each_role_names_its_node_kind() {
    let w = scene_wiring(2);
    let kinds: Vec<&str> = w.nodes.iter().map(|n| n.role.kind()).collect();
    assert_eq!(
        kinds,
        vec![
            "ember.emitter",
            "ember.smoke_solver",
            "core.output",
            "ember.collider",
            "ember.collider",
            "ember.collider_union",
        ]
    );
    assert_eq!(w.edges.len(), 4 * 2 + 1);
    assert_eq!(NodeRole::ColliderUnion(3).kind(), "ember.collider_union");
}
