use elements_ember::grid::{
    axis_index, cell_index, face_dims, halve, level_shapes, Axis, FieldDims, LevelShape,
};
use elements_ember::schedule::{iterations_per_submit, submission_sweeps};

#[test]
fn halving_rounds_up_and_stops_at_one() {
    assert_eq!(halve(FieldDims::new(10, 7, 9)), FieldDims::new(5, 4, 5));
    assert_eq!(halve(FieldDims::new(1, 2, 3)), FieldDims::new(1, 1, 2));
    assert_eq!(halve(FieldDims::new(1, 1, 1)), FieldDims::new(1, 1, 1));
}

#[test]
fn the_hierarchy_of_a_tall_domain_semi_coarsens() {
    let levels = level_shapes(FieldDims::new(2, 2, 8));
    let expect = [
        ((2, 2, 8), (1, 1, 1)),
        ((1, 1, 4), (2, 2, 2)),
        ((1, 1, 2), (2, 2, 4)),
        ((1, 1, 1), (2, 2, 8)),
    ];
    assert_eq!(levels.len(), expect.len());
    for (level, ((x, y, z), (sx, sy, sz))) in levels.iter().zip(expect) {
        assert_eq!(
            *level,
            LevelShape {
                cells: FieldDims::new(x, y, z),
                scale: FieldDims::new(sx, sy, sz),
            }
        );
    }
}

#[test]
fn a_partial_last_cell_covers_the_rest_of_the_axis() {
    let levels = level_shapes(FieldDims::new(10, 7, 9));
    let last = levels[levels.len() - 1];
    assert_eq!(last.cells, FieldDims::new(1, 1, 1));
    assert_eq!(last.scale, FieldDims::new(16, 8, 16));
    assert_eq!(levels[1].cells, FieldDims::new(5, 4, 5));
    assert_eq!(levels[2].cells, FieldDims::new(3, 2, 3));
    assert_eq!(levels.len(), 5);
}

#[test]
fn a_single_cell_domain_has_one_level() {
    let levels = level_shapes(FieldDims::new(1, 1, 1));
    assert_eq!(levels.len(), 1);
}

#[test]
fn faces_are_one_longer_along_their_axis() {
    let c = FieldDims::new(4, 5, 6);
    assert_eq!(face_dims(c, Axis::X), FieldDims::new(5, 5, 6));
    assert_eq!(face_dims(c, Axis::Y), FieldDims::new(4, 6, 6));
    assert_eq!(face_dims(c, Axis::Z), FieldDims::new(4, 5, 7));
    assert_eq!(axis_index(Axis::Z), 2);
}

#[test]
fn cells_are_indexed_x_fastest() {
    let d = FieldDims::new(4, 5, 6);
    assert_eq!(cell_index(d, 1, 2, 3), 1 + 4 * (2 + 5 * 3));
    assert_eq!(cell_index(d, 3, 4, 5), 119);
    assert_eq!(d.voxel_count(), 120);
}

#[test]
fn a_128_cube_runs_512_sweeps_per_submission() {
    assert_eq!(iterations_per_submit(FieldDims::new(128, 128, 128)), 512);
    assert_eq!(iterations_per_submit(FieldDims::new(2048, 2048, 2048)), 1);
    assert_eq!(iterations_per_submit(FieldDims::new(0, 0, 0)), 1 << 30);
}

#[test]
fn sweeps_split_into_full_submissions_then_the_rest() {
    assert_eq!(submission_sweeps(1000, 300), vec![300, 300, 300, 100]);
    assert_eq!(submission_sweeps(160, 512), vec![160]);
    assert_eq!(submission_sweeps(0, 512), Vec::<u32>::new());
    assert_eq!(submission_sweeps(3, 0), vec![1, 1, 1]);
}

#[test]
fn the_hierarchy_of_10_7_9_ends_at_one_cell() {
    let levels = level_shapes(FieldDims::new(10, 7, 9));
    let cells: Vec<FieldDims> = levels.iter().map(|l| l.cells).collect();
    assert_eq!(
        cells,
        vec![
            FieldDims::new(10, 7, 9),
            FieldDims::new(5, 4, 5),
            FieldDims::new(3, 2, 3),
            FieldDims::new(2, 1, 2),
            FieldDims::new(1, 1, 1),
        ]
    );
}
