use elements_ember::boundaries::{Boundaries, Face, DEFAULT_OPEN_MASK};

#[test]
fn the_mask_has_one_bit_per_open_face_in_axis_then_side_order() {
    assert_eq!(Boundaries::default().open_mask(), DEFAULT_OPEN_MASK);
    assert_eq!(Boundaries::closed().open_mask(), 0);
    let neg_y = Boundaries {
        neg_y: Face::Open,
        ..Boundaries::closed()
    };
    assert_eq!(neg_y.open_mask(), 0b000100);
    let pos_x = Boundaries {
        pos_x: Face::Open,
        ..Boundaries::closed()
    };
    assert_eq!(pos_x.open_mask(), 0b000010);
}

#[test]
fn every_face_open_sets_all_six_bits() {
    let open = Boundaries {
        neg_x: Face::Open,
        pos_x: Face::Open,
        neg_y: Face::Open,
        pos_y: Face::Open,
        neg_z: Face::Open,
        pos_z: Face::Open,
    };
    assert_eq!(open.open_mask(), 63);
}

#[test]
fn the_wind_scene_opens_both_x_faces_and_the_top() {
    let wind = Boundaries {
        neg_x: Face::Open,
        pos_x: Face::Open,
        ..Boundaries::default()
    };
    assert_eq!(wind.open_mask(), 0b100011);
}

#[test]
fn closed_has_every_face_a_wall() {
    let b = Boundaries::closed();
    for f in [b.neg_x, b.pos_x, b.neg_y, b.pos_y, b.neg_z, b.pos_z] {
        assert_eq!(f, Face::Wall);
    }
    let d = Boundaries::default();
    assert_eq!(d.pos_z, Face::Open);
    assert_eq!(d.neg_z, Face::Wall);
}
