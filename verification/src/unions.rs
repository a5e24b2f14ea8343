//! `ember.emitter_union` and `ember.collider_union`: merge two emitters or
//! two colliders into one. Chain them for more.

use vstd::prelude::*;
use crate::solver::ParamError;
use crate::text::owned;

verus! {

pub const EMITTER_UNION_KIND: &'static str = "ember.emitter_union";
pub const COLLIDER_UNION_KIND: &'static str = "ember.collider_union";

/// The emitter union node: inputs are two emitters' four outputs each,
/// outputs one emitter's four.
#[derive(Debug, Clone, Copy, PartialEq, Eq, Structural)]
pub struct EmitterUnion;

/// The collider union node: inputs are two colliders' SDF and velocity,
/// outputs one collider's.
#[derive(Debug, Clone, Copy, PartialEq, Eq, Structural)]
pub struct ColliderUnion;

/// A union takes no parameters: its document's `params` must be absent
/// (`null`) or an empty object, which `params_empty` says.
pub fn check_no_params(kind: &str, params_empty: bool) -> (r: Result<(), ParamError>)
    ensures
        r is Ok <==> params_empty,
        r matches Err(e) ==> e.kind@ == kind@ && e.reason@ == "takes no parameters"@,
{
    if params_empty {
        Ok(())
    } else {
        Err(ParamError { kind: owned(kind), reason: owned("takes no parameters") })
    }
}

/// Build the emitter union node from whether its parameters are empty.
pub fn build_emitter_union(params_empty: bool) -> (r: Result<EmitterUnion, ParamError>)
    ensures
        r is Ok <==> params_empty,
        r matches Err(e) ==> e.kind@ == EMITTER_UNION_KIND@ && e.reason@ == "takes no parameters"@,
{
    match check_no_params(EMITTER_UNION_KIND, params_empty) {
        Ok(()) => Ok(EmitterUnion),
        Err(e) => Err(e),
    }
}

/// Build the collider union node from whether its parameters are empty.
pub fn build_collider_union(params_empty: bool) -> (r: Result<ColliderUnion, ParamError>)
    ensures
        r is Ok <==> params_empty,
        r matches Err(e) ==> e.kind@ == COLLIDER_UNION_KIND@ && e.reason@ == "takes no parameters"@,
{
    match check_no_params(COLLIDER_UNION_KIND, params_empty) {
        Ok(()) => Ok(ColliderUnion),
        Err(e) => Err(e),
    }
}

} // verus!
