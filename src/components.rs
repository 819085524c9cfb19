//! The values that the world attaches to its entities.

use vstd::prelude::*;

use socketioxide::socket::Sid;

verus! {

/// Identifier of an entity of the world. Identifiers are handed out in
/// increasing order and never reused.
pub type EntityId = u64;

#[verifier::external_type_specification]
#[verifier::external_body]
pub struct ExSid(Sid);

/// Relies on the derived `PartialEq` of socketioxide's `Sid`: two session ids
/// compare equal exactly when they are the same id.
pub assume_specification[ <Sid as core::cmp::PartialEq>::eq ](a: &Sid, b: &Sid) -> (r: bool)
    ensures
        r == (*a == *b),
;

#[derive(Clone, Copy, Debug, PartialEq, Eq, Structural)]
pub enum Role {
    Unassigned,
    Tank,
    Healer,
    Dps,
}

#[derive(Clone, Copy, Debug, PartialEq, Eq, Structural)]
pub enum Condition {
    Clear,
    Stun,
    Paralysis,
    Bind,
    Heavy,
    Hysteria,
    Pacify,
    Sleep,
    Knockback,
}

/// The connection that messages for a player are addressed to.
#[derive(Clone, Copy, Debug)]
pub struct Socket {
    pub id: Sid,
}

#[derive(Debug)]
pub struct Player {
    pub content_id: u64,
    pub name: String,
}

#[derive(Debug)]
pub struct Party {
    pub id: String,
}

/// Last reported position, in thousandths of a world unit.
#[derive(Clone, Copy, Debug, PartialEq, Eq, Structural)]
pub struct Position {
    pub x: i32,
    pub y: i32,
    pub z: i32,
}

impl Position {
    pub fn new(x: i32, y: i32, z: i32) -> (r: Position)
        ensures
            r == (Position { x, y, z }),
    {
        Position { x, y, z }
    }
}

#[derive(Clone, Copy, Debug, PartialEq, Eq, Structural)]
pub struct State {
    pub is_alive: bool,
}

/// Identifier that ties a started visual effect to the message that stops it.
#[derive(Clone, Copy, Debug, PartialEq, Eq, Structural)]
pub struct Vfx {
    pub id: u128,
}

#[derive(Debug)]
pub struct Mechanic {
    pub request_id: String,
    pub mechanic_id: u32,
}

/// The players that a mechanic locked onto when it started, in order.
#[derive(Debug)]
pub struct Targets {
    pub player_entities: Vec<EntityId>,
}

/// Affected players with their affect counts, fixed when the mechanic
/// snapshots. Each player appears at most once.
#[derive(Debug)]
pub struct Affects {
    pub player_entities: Vec<(EntityId, u64)>,
}

/// A position with a heading (in thousandths of a radian).
#[derive(Clone, Copy, Debug, PartialEq, Eq, Structural)]
pub struct Transform {
    pub x: i32,
    pub y: i32,
    pub z: i32,
    pub rotation: i32,
}

impl Transform {
    pub open spec fn position(&self) -> Position {
        Position { x: self.x, y: self.y, z: self.z }
    }

    pub fn get_position(&self) -> (r: Position)
        ensures
            r == self.position(),
    {
        Position { x: self.x, y: self.y, z: self.z }
    }
}

/// A transform when all four values are given; `None` when any is missing.
pub fn convert_to_transform(x: Option<i32>, y: Option<i32>, z: Option<i32>, rotation: Option<i32>) -> (r:
    Option<Transform>)
    ensures
        r is Some <==> (x is Some && y is Some && z is Some && rotation is Some),
        r matches Some(t) ==> t == (Transform { x: x->0, y: y->0, z: z->0, rotation: rotation->0 }),
{
    match (x, y, z, rotation) {
        (Some(x), Some(y), Some(z), Some(r)) => Some(Transform { x, y, z, rotation: r }),
        _ => None,
    }
}

} // verus!
