//! What each level of the multigrid hierarchy holds besides its shape.
//!
//! The fine level solves on the caller's p and div, so only the coarser
//! levels hold a right-hand side and a correction; the coarsest level
//! computes no residual, so it holds no residual scratch. With solids, each
//! coarse level holds its restricted solid mask and its fluid fractions,
//! and every level but the coarsest its prolongation weights.

use vstd::prelude::*;
use crate::grid::{FieldDims, LevelShape};

verus! {

/// The pooled fields one level holds.
#[derive(Debug, Clone, Copy, PartialEq, Eq, Structural)]
pub struct LevelFields {
    /// A right-hand side and a correction field.
    pub rhs: bool,
    /// Residual scratch.
    pub tmp: bool,
    /// The level's solid mask, restricted from the level above.
    pub mask: bool,
    /// Prolongation weights.
    pub norm: bool,
    /// Fluid fractions.
    pub phi: bool,
}

/// One level: its shape, the smallest of its cell's scales (its voxel edge
/// in fine voxel edges), and its fields.
#[derive(Debug, Clone, Copy, PartialEq, Eq, Structural)]
pub struct LevelPlan {
    pub shape: LevelShape,
    pub ref_scale: u32,
    pub fields: LevelFields,
}

/// Why a hierarchy cannot be built.
#[derive(Debug, Clone, Copy, PartialEq, Eq, Structural)]
pub enum HierarchyError {
    /// A mask must be given exactly when the substep has solids.
    MaskMismatch,
    /// The fine mask's dims differ from the domain's.
    MaskDims { found: FieldDims, expected: FieldDims },
}

/// Where a level's solid view comes from.
#[derive(Debug, Clone, Copy, PartialEq, Eq, Structural)]
pub enum MaskView {
    /// The caller's fine mask.
    Fine,
    /// The level's own restricted mask.
    Own,
    /// A placeholder: the domain has no solids.
    Placeholder,
}

/// Level `l` of `depth`'s fields.
pub open spec fn spec_level_fields(l: nat, depth: nat, solids: bool) -> LevelFields {
    LevelFields {
        rhs: l > 0,
        tmp: l + 1 < depth,
        mask: solids && l > 0,
        norm: solids && l + 1 < depth,
        phi: solids && l > 0,
    }
}

/// The smallest of a cell's three scales.
pub open spec fn min_scale(s: FieldDims) -> u32 {
    if s.x <= s.y && s.x <= s.z {
        s.x
    } else if s.y <= s.z {
        s.y
    } else {
        s.z
    }
}

/// Check the fine mask against the substep: given exactly when it has
/// solids, and then of the domain's dims.
pub fn check_fine_mask(has_solids: bool, mask_dims: Option<FieldDims>, cells: FieldDims) -> (r: Result<
    (),
    HierarchyError,
>)
    ensures
        mask_dims.is_some() != has_solids ==> r == Err::<(), HierarchyError>(HierarchyError::MaskMismatch),
        mask_dims.is_some() == has_solids ==> r == (match mask_dims {
            Some(d) => if d == cells {
                Ok(())
            } else {
                Err(HierarchyError::MaskDims { found: d, expected: cells })
            },
            None => Ok(()),
        }),
{
    if mask_dims.is_some() != has_solids {
        return Err(HierarchyError::MaskMismatch);
    }
    match mask_dims {
        Some(d) => if d == cells {
            Ok(())
        } else {
            Err(HierarchyError::MaskDims { found: d, expected: cells })
        },
        None => Ok(()),
    }
}

/// Level `l` of `depth`'s fields.
pub fn level_fields(l: usize, depth: usize, solids: bool) -> (f: LevelFields)
    requires
        l < depth,
    ensures
        f == spec_level_fields(l as nat, depth as nat, solids),
{
    LevelFields {
        rhs: l > 0,
        tmp: l + 1 < depth,
        mask: solids && l > 0,
        norm: solids && l + 1 < depth,
        phi: solids && l > 0,
    }
}

fn smallest_scale(s: FieldDims) -> (m: u32)
    ensures
        m == min_scale(s),
        m <= s.x && m <= s.y && m <= s.z,
        m == s.x || m == s.y || m == s.z,
{
    proof { lemma_min_scale_is_least(s); }
    if s.x <= s.y && s.x <= s.z {
        s.x
    } else if s.y <= s.z {
        s.y
    } else {
        s.z
    }
}

/// Each level of `shapes`, the fine level first, with its reference scale
/// and the fields it holds.
pub fn plan_levels(shapes: &[LevelShape], solids: bool) -> (plan: Vec<LevelPlan>)
    ensures
        plan@.len() == shapes@.len(),
        forall|l: int| 0 <= l < plan@.len() ==> (#[trigger] plan@[l]) == (LevelPlan {
            shape: shapes@[l],
            ref_scale: min_scale(shapes@[l].scale),
            fields: spec_level_fields(l as nat, shapes@.len(), solids),
        }),
        forall|l: int| 0 <= l < plan@.len() ==> {
            let s = shapes@[l].scale;
            let r = (#[trigger] plan@[l]).ref_scale;
            &&& r <= s.x && r <= s.y && r <= s.z
            &&& r == s.x || r == s.y || r == s.z
        },
{
    let depth = shapes.len();
    let mut plan: Vec<LevelPlan> = Vec::new();
    let mut l: usize = 0;
    while l < depth
        invariant
            depth == shapes@.len(),
            l <= depth,
            plan@.len() == l,
            forall|m: int| 0 <= m < l ==> (#[trigger] plan@[m]) == (LevelPlan {
                shape: shapes@[m],
                ref_scale: min_scale(shapes@[m].scale),
                fields: spec_level_fields(m as nat, depth as nat, solids),
            }),
        decreases depth - l,
    {
        let shape = shapes[l];
        plan.push(LevelPlan {
            shape,
            ref_scale: smallest_scale(shape.scale),
            fields: level_fields(l, depth, solids),
        });
        l = l + 1;
    }
    proof {
        assert forall|l: int| 0 <= l < plan@.len() implies {
            let s = shapes@[l].scale;
            let r = (#[trigger] plan@[l]).ref_scale;
            &&& r <= s.x && r <= s.y && r <= s.z
            &&& r == s.x || r == s.y || r == s.z
        } by {
            lemma_min_scale_is_least(shapes@[l].scale);
        }
    }
    plan
}

/// A level's reference scale is the smallest of its cell's three scales:
/// at most each of them, and one of them.
pub proof fn lemma_min_scale_is_least(s: FieldDims)
    ensures
        min_scale(s) <= s.x && min_scale(s) <= s.y && min_scale(s) <= s.z,
        min_scale(s) == s.x || min_scale(s) == s.y || min_scale(s) == s.z,
{
}

/// Level `l`'s solid view: the fine mask on level 0 and a level's own mask
/// below it, or a placeholder when the domain has no solids.
pub fn mask_view(l: usize, solids: bool) -> (v: MaskView)
    ensures
        v == (if !solids {
            MaskView::Placeholder
        } else if l == 0 {
            MaskView::Fine
        } else {
            MaskView::Own
        }),
{
    if !solids {
        MaskView::Placeholder
    } else if l == 0 {
        MaskView::Fine
    } else {
        MaskView::Own
    }
}

/// How many pooled fields a level's `fields` are: a right-hand side counts
/// with its correction.
pub open spec fn field_count(f: LevelFields) -> nat {
    (if f.rhs { 2nat } else { 0 }) + (if f.tmp { 1nat } else { 0 }) + (if f.mask { 1nat } else { 0 })
        + (if f.norm { 1nat } else { 0 }) + (if f.phi { 1nat } else { 0 })
}

/// The pooled fields of the first `n` levels of `depth`.
pub open spec fn fields_held(n: nat, depth: nat, solids: bool) -> nat
    decreases n,
{
    if n == 0 {
        0
    } else {
        fields_held((n - 1) as nat, depth, solids) + field_count(
            spec_level_fields((n - 1) as nat, depth, solids),
        )
    }
}

proof fn lemma_fields_held(n: nat, depth: nat, solids: bool)
    requires
        1 <= n <= depth,
    ensures
        fields_held(n, depth, solids) == (2 * (n - 1) + (if n < depth { n as int } else { n - 1 }))
            + (if solids { 2 * (n - 1) + (if n < depth { n as int } else { n - 1 }) } else { 0 }),
    decreases n,
{
    if n > 1 {
        lemma_fields_held((n - 1) as nat, depth, solids);
    } else {
        reveal_with_fuel(fields_held, 2);
    }
}

/// A hierarchy of `depth` levels holds 3 pooled fields for each level
/// below the fine one, 6 with solids: each coarse level's right-hand side,
/// correction (and with solids mask and fractions), and the level above's
/// residual scratch (and with solids prolongation weights).
pub proof fn lemma_hierarchy_fields(depth: nat, solids: bool)
    requires
        depth >= 1,
    ensures
        fields_held(depth, depth, solids) == (depth - 1) * (if solids { 6nat } else { 3nat }),
{
    lemma_fields_held(depth, depth, solids);
    assert((depth - 1) * 6 == 6 * (depth - 1) && (depth - 1) * 3 == 3 * (depth - 1)) by (nonlinear_arith);
}

} // verus!
