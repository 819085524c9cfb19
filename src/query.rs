//! Queries over the player table that the mechanics run at each phase.

use vstd::prelude::*;

use socketioxide::socket::Sid;

use crate::components::{EntityId, Position, State};
use crate::geometry::{within, within_radius};
use crate::world::{member_sockets, PlayerEntity};

verus! {

/// The player with entity `e` (the last one in table order, should there be
/// several).
pub open spec fn lookup(players: Seq<PlayerEntity>, e: EntityId) -> Option<PlayerEntity>
    decreases players.len(),
{
    if players.len() == 0 {
        None
    } else if players.last().entity == e {
        Some(players.last())
    } else {
        lookup(players.drop_last(), e)
    }
}

/// Whether a player is known to be alive.
pub open spec fn alive(p: PlayerEntity) -> bool {
    p.state == Some(State { is_alive: true })
}

/// Entities of the players of party `pid`, in table order.
pub open spec fn party_entities(players: Seq<PlayerEntity>, pid: Seq<char>) -> Seq<EntityId>
    decreases players.len(),
{
    if players.len() == 0 {
        seq![]
    } else {
        let rest = party_entities(players.drop_last(), pid);
        if players.last().party.id@ == pid {
            rest.push(players.last().entity)
        } else {
            rest
        }
    }
}

/// Content ids of the players of party `pid`, in table order.
pub open spec fn party_content_ids(players: Seq<PlayerEntity>, pid: Seq<char>) -> Seq<u64>
    decreases players.len(),
{
    if players.len() == 0 {
        seq![]
    } else {
        let rest = party_content_ids(players.drop_last(), pid);
        if players.last().party.id@ == pid {
            rest.push(players.last().player.content_id)
        } else {
            rest
        }
    }
}

/// The targets that still exist and are alive, in order.
pub open spec fn live_targets(players: Seq<PlayerEntity>, targets: Seq<EntityId>) -> Seq<EntityId>
    decreases targets.len(),
{
    if targets.len() == 0 {
        seq![]
    } else {
        let rest = live_targets(players, targets.drop_last());
        if lookup(players, targets.last()) matches Some(p) && alive(p) {
            rest.push(targets.last())
        } else {
            rest
        }
    }
}

/// Positions of the targets that still exist and have one, in order.
pub open spec fn target_positions(players: Seq<PlayerEntity>, targets: Seq<EntityId>) -> Seq<
    Position,
>
    decreases targets.len(),
{
    if targets.len() == 0 {
        seq![]
    } else {
        let rest = target_positions(players, targets.drop_last());
        match lookup(players, targets.last()) {
            Some(p) => match p.position {
                Some(pos) => rest.push(pos),
                None => rest,
            },
            None => rest,
        }
    }
}

/// Content ids of the targets that still exist, in order.
pub open spec fn target_ids(players: Seq<PlayerEntity>, targets: Seq<EntityId>) -> Seq<u64>
    decreases targets.len(),
{
    if targets.len() == 0 {
        seq![]
    } else {
        let rest = target_ids(players, targets.drop_last());
        match lookup(players, targets.last()) {
            Some(p) => rest.push(p.player.content_id),
            None => rest,
        }
    }
}

/// How many of `positions` lie within the radius around `p`.
pub open spec fn count_within(positions: Seq<Position>, p: Position, radius_sq: int) -> nat
    decreases positions.len(),
{
    if positions.len() == 0 {
        0
    } else {
        count_within(positions.drop_last(), p, radius_sq) + if within(
            positions.last(),
            p,
            radius_sq,
        ) {
            1nat
        } else {
            0nat
        }
    }
}

/// Connections of the players of party `pid`, in table order.
pub fn member_socket_list(players: &Vec<PlayerEntity>, pid: &String) -> (r: Vec<Sid>)
    ensures
        r@ == member_sockets(players@, pid@),
{
    let mut r: Vec<Sid> = Vec::new();
    for i in 0..players.len()
        invariant
            r@ == member_sockets(players@.subrange(0, i as int), pid@),
    {
        assert(players@.subrange(0, i + 1).drop_last() == players@.subrange(0, i as int));
        if players[i].party.id == *pid {
            r.push(players[i].socket.id);
        }
    }
    assert(players@.subrange(0, players@.len() as int) == players@);
    r
}

/// Index of the player with entity `e`.
pub fn find_player(players: &Vec<PlayerEntity>, e: EntityId) -> (r: Option<usize>)
    ensures
        r is None <==> lookup(players@, e) is None,
        r matches Some(i) ==> i < players@.len() && lookup(players@, e) == Some(players@[i as int]),
{
    let mut found: Option<usize> = None;
    for i in 0..players.len()
        invariant
            found is None <==> lookup(players@.subrange(0, i as int), e) is None,
            found matches Some(j) ==> j < i && lookup(players@.subrange(0, i as int), e) == Some(
                players@[j as int],
            ),
    {
        assert(players@.subrange(0, i + 1).drop_last() == players@.subrange(0, i as int));
        if players[i].entity == e {
            found = Some(i);
        }
    }
    assert(players@.subrange(0, players@.len() as int) == players@);
    found
}

/// Entities and content ids of the players of party `pid`.
pub fn party_members(players: &Vec<PlayerEntity>, pid: &String) -> (r: (Vec<EntityId>, Vec<u64>))
    ensures
        r.0@ == party_entities(players@, pid@),
        r.1@ == party_content_ids(players@, pid@),
{
    let mut entities: Vec<EntityId> = Vec::new();
    let mut ids: Vec<u64> = Vec::new();
    for i in 0..players.len()
        invariant
            entities@ == party_entities(players@.subrange(0, i as int), pid@),
            ids@ == party_content_ids(players@.subrange(0, i as int), pid@),
    {
        assert(players@.subrange(0, i + 1).drop_last() == players@.subrange(0, i as int));
        if players[i].party.id == *pid {
            entities.push(players[i].entity);
            ids.push(players[i].player.content_id);
        }
    }
    assert(players@.subrange(0, players@.len() as int) == players@);
    (entities, ids)
}

/// Keeps the targets that still exist and are alive, in order.
pub fn prune_targets(players: &Vec<PlayerEntity>, targets: &Vec<EntityId>) -> (r: Vec<EntityId>)
    ensures
        r@ == live_targets(players@, targets@),
{
    let mut r: Vec<EntityId> = Vec::new();
    for i in 0..targets.len()
        invariant
            r@ == live_targets(players@, targets@.subrange(0, i as int)),
    {
        assert(targets@.subrange(0, i + 1).drop_last() == targets@.subrange(0, i as int));
        if let Some(j) = find_player(players, targets[i]) {
            if let Some(s) = players[j].state {
                if s.is_alive {
                    r.push(targets[i]);
                }
            }
        }
    }
    assert(targets@.subrange(0, targets@.len() as int) == targets@);
    r
}

/// Positions of the targets that still exist and have one.
pub fn positions_of(players: &Vec<PlayerEntity>, targets: &Vec<EntityId>) -> (r: Vec<Position>)
    ensures
        r@ == target_positions(players@, targets@),
{
    let mut r: Vec<Position> = Vec::new();
    for i in 0..targets.len()
        invariant
            r@ == target_positions(players@, targets@.subrange(0, i as int)),
    {
        assert(targets@.subrange(0, i + 1).drop_last() == targets@.subrange(0, i as int));
        if let Some(j) = find_player(players, targets[i]) {
            if let Some(p) = players[j].position {
                r.push(p);
            }
        }
    }
    assert(targets@.subrange(0, targets@.len() as int) == targets@);
    r
}

/// Content ids of the targets that still exist, in order.
pub fn get_target_ids(players: &Vec<PlayerEntity>, targets: &Vec<EntityId>) -> (r: Vec<u64>)
    ensures
        r@ == target_ids(players@, targets@),
{
    let mut r: Vec<u64> = Vec::new();
    for i in 0..targets.len()
        invariant
            r@ == target_ids(players@, targets@.subrange(0, i as int)),
    {
        assert(targets@.subrange(0, i + 1).drop_last() == targets@.subrange(0, i as int));
        if let Some(j) = find_player(players, targets[i]) {
            r.push(players[j].player.content_id);
        }
    }
    assert(targets@.subrange(0, targets@.len() as int) == targets@);
    r
}

/// How many of `positions` lie within the radius around `p`.
pub fn count_positions_within(positions: &Vec<Position>, p: &Position, radius_sq: i64) -> (r: u64)
    ensures
        r == count_within(positions@, *p, radius_sq as int),
{
    let mut n: u64 = 0;
    for i in 0..positions.len()
        invariant
            n == count_within(positions@.subrange(0, i as int), *p, radius_sq as int),
            n <= i,
    {
        assert(positions@.subrange(0, i + 1).drop_last() == positions@.subrange(0, i as int));
        if within_radius(&positions[i], p, radius_sq) {
            n = n + 1;
        }
    }
    assert(positions@.subrange(0, positions@.len() as int) == positions@);
    n
}

} // verus!
