//! Random choices that the mechanics make.

use vstd::prelude::*;

use rand::seq::IndexedRandom;

use crate::components::EntityId;

verus! {

/// Relies on rand's `IndexedRandom::choose` with the thread-local generator
/// of `rand::rng`: `None` for an empty slice, otherwise one of its elements.
#[verifier::external_body]
pub(crate) fn choose_entity(candidates: &Vec<EntityId>) -> (r: Option<EntityId>)
    ensures
        r is None <==> candidates@.len() == 0,
        r matches Some(e) ==> candidates@.contains(e),
{
    candidates.choose(&mut rand::rng()).copied()
}

/// Relies on uuid's `Uuid::new_v4` for a random identifier, read as a number
/// by `Uuid::as_u128`. Nothing is promised of its value.
#[verifier::external_body]
pub(crate) fn new_vfx_id() -> (r: u128) {
    uuid::Uuid::new_v4().as_u128()
}

} // verus!
