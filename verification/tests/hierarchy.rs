use elements_ember::grid::{level_shapes, FieldDims};
use elements_ember::hierarchy::{
    check_fine_mask, level_fields, mask_view, plan_levels, HierarchyError, LevelFields, MaskView,
};

#[test]
fn the_fine_level_holds_scratch_and_the_coarsest_holds_no_scratch() {
    let shapes = level_shapes(FieldDims::new(8, 8, 2));
    let plan = plan_levels(&shapes, false);
    assert_eq!(plan.len(), 4);
    assert_eq!(
        plan[0].fields,
        LevelFields { rhs: false, tmp: true, mask: false, norm: false, phi: false }
    );
    assert_eq!(
        plan[1].fields,
        LevelFields { rhs: true, tmp: true, mask: false, norm: false, phi: false }
    );
    assert_eq!(
        plan[3].fields,
        LevelFields { rhs: true, tmp: false, mask: false, norm: false, phi: false }
    );
    assert_eq!(plan[0].ref_scale, 1);
    assert_eq!(plan[1].ref_scale, 2);
    assert_eq!(plan[2].shape.scale, FieldDims::new(4, 4, 2));
    assert_eq!(plan[2].ref_scale, 2);
}

#[test]
fn solids_add_masks_fractions_and_weights() {
    let shapes = level_shapes(FieldDims::new(4, 4, 4));
    let plan = plan_levels(&shapes, true);
    assert_eq!(plan.len(), 3);
    assert_eq!(
        plan[0].fields,
        LevelFields { rhs: false, tmp: true, mask: false, norm: true, phi: false }
    );
    assert_eq!(
        plan[2].fields,
        LevelFields { rhs: true, tmp: false, mask: true, norm: false, phi: true }
    );
    let count = |f: &LevelFields| {
        2 * f.rhs as u32 + f.tmp as u32 + f.mask as u32 + f.norm as u32 + f.phi as u32
    };
    let total: u32 = plan.iter().map(|p| count(&p.fields)).sum();
    assert_eq!(total, 2 * 6);
    assert_eq!(level_fields(1, 3, true), plan[1].fields);
}

#[test]
fn the_fine_mask_is_given_exactly_with_solids_and_at_the_domain_size() {
    let cells = FieldDims::new(16, 16, 32);
    assert_eq!(check_fine_mask(true, None, cells), Err(HierarchyError::MaskMismatch));
    assert_eq!(check_fine_mask(false, Some(cells), cells), Err(HierarchyError::MaskMismatch));
    assert_eq!(
        check_fine_mask(true, Some(FieldDims::new(16, 16, 16)), cells),
        Err(HierarchyError::MaskDims { found: FieldDims::new(16, 16, 16), expected: cells })
    );
    assert_eq!(check_fine_mask(true, Some(cells), cells), Ok(()));
    assert_eq!(check_fine_mask(false, None, cells), Ok(()));
}

#[test]
fn levels_read_the_fine_mask_then_their_own() {
    assert_eq!(mask_view(0, true), MaskView::Fine);
    assert_eq!(mask_view(2, true), MaskView::Own);
    assert_eq!(mask_view(0, false), MaskView::Placeholder);
    assert_eq!(mask_view(3, false), MaskView::Placeholder);
}
