//! Mechanic entities: a closed set of behaviours that share one phase machine.
//!
//! Every mechanic goes through the phases in order and never returns to an
//! earlier one: `Assign` (nothing done yet), `Omen` (targets locked and the
//! warning shown; waiting for the snapshot), `Attack` (affected players fixed
//! and the attack shown; waiting for the effects) and `Complete` (effects
//! applied; the entity is destroyed at the end of the pass).

use vstd::prelude::*;

use crate::affects::affect_key;
use crate::world::unique_by;
use crate::components::{Affects, EntityId, Mechanic, Party, Targets, Transform, Vfx};

pub mod enumeration;
pub mod spread;
pub mod trap;

use crate::mechanics::enumeration::Enumeration;
use crate::mechanics::spread::Spread;
use crate::mechanics::trap::Trap;

verus! {

/// Length of one simulation step, in microseconds (a rate of 64 per second).
pub const TICK_MICROS: i64 = 15_625;

#[derive(Clone, Copy, Debug, PartialEq, Eq, Structural)]
pub enum Phase {
    Assign,
    Omen,
    Attack,
    Complete,
}

pub open spec fn phase_rank(p: Phase) -> int {
    match p {
        Phase::Assign => 0,
        Phase::Omen => 1,
        Phase::Attack => 2,
        Phase::Complete => 3,
    }
}

/// The variant-specific state of a mechanic.
#[derive(Clone, Copy, Debug)]
pub enum Behaviour {
    Spread(Spread),
    Enumeration(Enumeration),
    Trap(Trap),
}

#[derive(Debug)]
pub struct MechanicEntity {
    pub entity: EntityId,
    /// The party container, when the mechanic was started at a place.
    pub parent: Option<EntityId>,
    pub mechanic: Mechanic,
    pub party: Party,
    pub transform: Option<Transform>,
    pub phase: Phase,
    pub targets: Targets,
    pub affects: Affects,
    pub vfx: Option<Vfx>,
    pub behaviour: Behaviour,
}

impl MechanicEntity {
    /// Each player appears at most once among the affected; a trap has its
    /// place, a shared-hit mechanic has at most one target, and the timers are
    /// within their bounds for the phase (a completed mechanic is about to be
    /// destroyed).
    pub open spec fn valid(&self) -> bool {
        &&& unique_by(self.affects.player_entities@, affect_key())
        &&& self.phase != Phase::Complete ==> match self.behaviour {
            Behaviour::Spread(sp) => spread::timers_ok(sp, self.phase),
            Behaviour::Enumeration(en) => enumeration::timers_ok(en, self.phase)
                && self.targets.player_entities@.len() <= 1,
            Behaviour::Trap(tr) => trap::timers_ok(tr, self.phase) && self.transform is Some,
        }
    }
}

/// Whether `new` is `old` after some ticks: the same entity of the same
/// party, in the same or a later phase.
pub open spec fn advanced(old: MechanicEntity, new: MechanicEntity) -> bool {
    &&& new.entity == old.entity
    &&& new.parent == old.parent
    &&& new.mechanic == old.mechanic
    &&& new.party == old.party
    &&& new.transform == old.transform
    &&& phase_rank(old.phase) <= phase_rank(new.phase)
}

/// Mechanic id of the proximity mechanic on every party member.
pub const SPREAD_ID: u32 = 1;

/// Mechanic id of the mechanic on one random party member.
pub const ENUMERATION_ID: u32 = 10;

/// Mechanic id of the stationary trap.
pub const TRAP_ID: u32 = 20;

/// Whether a mechanic of this id can start, given whether a place was given.
pub open spec fn startable(mechanic_id: u32, has_transform: bool) -> bool {
    mechanic_id == SPREAD_ID || mechanic_id == ENUMERATION_ID || (mechanic_id == TRAP_ID
        && has_transform)
}

/// A fresh mechanic entity of the variant that `mechanic_id` selects, or `None`
/// for an id that no variant has (and for a trap without a place).
pub fn create_mechanic(
    entity: EntityId,
    request_id: String,
    mechanic_id: u32,
    party: String,
    parent: Option<EntityId>,
    transform: Option<Transform>,
) -> (r: Option<MechanicEntity>)
    ensures
        r is Some <==> startable(mechanic_id, transform is Some),
        r matches Some(m) ==> {
            &&& m.entity == entity
            &&& m.parent == parent
            &&& m.mechanic.request_id@ == request_id@
            &&& m.mechanic.mechanic_id == mechanic_id
            &&& m.party.id@ == party@
            &&& m.transform == transform
            &&& m.phase == Phase::Assign
            &&& m.targets.player_entities@.len() == 0
            &&& m.affects.player_entities@.len() == 0
            &&& m.vfx is None
            &&& m.valid()
        },
{
    let behaviour = if mechanic_id == SPREAD_ID {
        Behaviour::Spread(spread::create_mechanic())
    } else if mechanic_id == ENUMERATION_ID {
        Behaviour::Enumeration(enumeration::create_mechanic())
    } else if mechanic_id == TRAP_ID && transform.is_some() {
        Behaviour::Trap(trap::create_mechanic())
    } else {
        return None;
    };
    Some(
        MechanicEntity {
            entity,
            parent,
            mechanic: Mechanic { request_id, mechanic_id },
            party: Party { id: party },
            transform,
            phase: Phase::Assign,
            targets: Targets { player_entities: Vec::new() },
            affects: Affects { player_entities: Vec::new() },
            vfx: None,
            behaviour,
        },
    )
}

} // verus!
