//! Who a mechanic affects at its snapshot, and the conditions that follow.

use vstd::prelude::*;

use crate::components::{Condition, EntityId, Position};
use crate::geometry::{within, within_radius};
use crate::notify::{dispatches_view, Dispatch, DispatchView, Outbound, OutboundView};
use crate::query::{alive, count_within, lookup, find_player, count_positions_within};
use crate::world::{unique_by, PlayerEntity};

verus! {

/// Stun added by each hit beyond the first, in milliseconds.
pub const STUN_PER_EXTRA_HIT_MS: u64 = 5_000;

/// The entity of an affect entry.
pub open spec fn affect_key() -> spec_fn((EntityId, u64)) -> EntityId {
    |a: (EntityId, u64)| a.0
}

/// Whether no two players share an entity.
pub open spec fn entities_unique(players: Seq<PlayerEntity>) -> bool {
    forall|i: int, j: int|
        0 <= i < players.len() && 0 <= j < players.len() && i != j ==> #[trigger] players[i].entity
            != #[trigger] players[j].entity
}

/// Whether `e` is the entity of one of the players.
pub open spec fn entity_of(players: Seq<PlayerEntity>, e: EntityId) -> bool {
    exists|i: int| 0 <= i < players.len() && #[trigger] players[i].entity == e
}

pub proof fn lemma_entities_unique_prefix(players: Seq<PlayerEntity>)
    requires
        players.len() > 0,
        entities_unique(players),
    ensures
        entities_unique(players.drop_last()),
        forall|i: int|
            0 <= i < players.len() - 1 ==> #[trigger] players.drop_last()[i].entity
                != players.last().entity,
{
    let d = players.drop_last();
    assert forall|i: int, j: int|
        0 <= i < d.len() && 0 <= j < d.len() && i != j implies #[trigger] d[i].entity
        != #[trigger] d[j].entity by {
        assert(d[i] == players[i] && d[j] == players[j]);
    }
    assert forall|i: int| 0 <= i < players.len() - 1 implies #[trigger] players.drop_last()[i].entity
        != players.last().entity by {
        assert(d[i] == players[i]);
        assert(players[i].entity != players[players.len() - 1].entity);
    }
}

/// Adding hits keeps the entries' entities pairwise different.
pub proof fn lemma_with_affect_unique(a: Seq<(EntityId, u64)>, e: EntityId, n: u64)
    requires
        unique_by(a, affect_key()),
    ensures
        unique_by(with_affect(a, e, n), affect_key()),
{
    lemma_affect_pos(a, e);
    let r = with_affect(a, e, n);
    let k = affect_key();
    assert forall|x: int, y: int| 0 <= x < r.len() && 0 <= y < r.len() && x != y implies #[trigger] k(
        r[x],
    ) != #[trigger] k(r[y]) by {
        if affect_pos(a, e) < 0 {
            if x < a.len() && y < a.len() {
                assert(k(a[x]) != k(a[y]));
            } else if x < a.len() {
                assert(a[x].0 != e);
            } else if y < a.len() {
                assert(a[y].0 != e);
            }
        } else {
            assert(k(a[x]) != k(a[y]));
        }
    }
}

/// Index of the entry of `e` in `a` (the last one, should there be several),
/// or -1.
pub open spec fn affect_pos(a: Seq<(EntityId, u64)>, e: EntityId) -> int
    decreases a.len(),
{
    if a.len() == 0 {
        -1
    } else if a.last().0 == e {
        a.len() - 1
    } else {
        affect_pos(a.drop_last(), e)
    }
}

/// `a` with `n` more hits for `e`: its entry grows, or a new one is appended.
pub open spec fn with_affect(a: Seq<(EntityId, u64)>, e: EntityId, n: u64) -> Seq<(EntityId, u64)> {
    let i = affect_pos(a, e);
    if i >= 0 {
        a.update(i, (e, (a[i].1 + n) as u64))
    } else {
        a.push((e, n))
    }
}

pub proof fn lemma_affect_pos(a: Seq<(EntityId, u64)>, e: EntityId)
    ensures
        -1 <= affect_pos(a, e) < a.len(),
        affect_pos(a, e) >= 0 ==> a[affect_pos(a, e)].0 == e,
        affect_pos(a, e) < 0 ==> forall|i: int| 0 <= i < a.len() ==> #[trigger] a[i].0 != e,
    decreases a.len(),
{
    if a.len() > 0 {
        lemma_affect_pos(a.drop_last(), e);
        assert forall|i: int| 0 <= i < a.len() - 1 implies #[trigger] a.drop_last()[i] == a[i] by {}
        if affect_pos(a, e) < 0 {
            assert forall|i: int| 0 <= i < a.len() implies #[trigger] a[i].0 != e by {
                if i < a.len() - 1 {
                    assert(a.drop_last()[i] == a[i]);
                }
            }
        }
    }
}

/// Adds `affect_count` hits for `entity`.
pub fn add_affect(affects: &mut Vec<(EntityId, u64)>, entity: EntityId, affect_count: u64)
    requires
        affect_pos(old(affects)@, entity) >= 0 ==> old(affects)@[affect_pos(
            old(affects)@,
            entity,
        )].1 + affect_count <= u64::MAX,
    ensures
        final(affects)@ == with_affect(old(affects)@, entity, affect_count),
{
    let ghost a = affects@;
    proof {
        lemma_affect_pos(a, entity);
    }
    let mut found: Option<usize> = None;
    for i in 0..affects.len()
        invariant
            affects@ == a,
            found is None <==> affect_pos(a.subrange(0, i as int), entity) < 0,
            found matches Some(j) ==> j < i && affect_pos(a.subrange(0, i as int), entity) == j,
    {
        assert(a.subrange(0, i + 1).drop_last() == a.subrange(0, i as int));
        if affects[i].0 == entity {
            found = Some(i);
        }
    }
    assert(a.subrange(0, a.len() as int) == a);
    match found {
        Some(j) => {
            let c = affects[j].1;
            affects.set(j, (entity, c + affect_count));
        },
        None => {
            affects.push((entity, affect_count));
        },
    }
}

/// Overlap counts of a proximity mechanic: each living member of party `pid`
/// with a position, with how many of the target positions lie within the
/// radius around it, when that is at least one; in table order.
pub open spec fn spread_affects(
    players: Seq<PlayerEntity>,
    pid: Seq<char>,
    target_positions: Seq<Position>,
    radius_sq: int,
) -> Seq<(EntityId, u64)>
    decreases players.len(),
{
    if players.len() == 0 {
        seq![]
    } else {
        let rest = spread_affects(players.drop_last(), pid, target_positions, radius_sq);
        let c = players.last();
        match c.position {
            Some(p) => if c.party.id@ == pid && alive(c) && count_within(
                target_positions,
                p,
                radius_sq,
            ) > 0 {
                rest.push((c.entity, count_within(target_positions, p, radius_sq) as u64))
            } else {
                rest
            },
            None => rest,
        }
    }
}

/// The entries of the overlap counts belong to distinct players.
pub proof fn lemma_spread_affects_unique(
    players: Seq<PlayerEntity>,
    pid: Seq<char>,
    target_positions: Seq<Position>,
    radius_sq: int,
)
    requires
        entities_unique(players),
    ensures
        unique_by(spread_affects(players, pid, target_positions, radius_sq), affect_key()),
        forall|k: int|
            0 <= k < spread_affects(players, pid, target_positions, radius_sq).len() ==> entity_of(
                players,
                #[trigger] spread_affects(players, pid, target_positions, radius_sq)[k].0,
            ),
    decreases players.len(),
{
    if players.len() > 0 {
        let d = players.drop_last();
        lemma_entities_unique_prefix(players);
        lemma_spread_affects_unique(d, pid, target_positions, radius_sq);
        let r = spread_affects(players, pid, target_positions, radius_sq);
        let rd = spread_affects(d, pid, target_positions, radius_sq);
        let key = affect_key();
        assert forall|k: int| 0 <= k < rd.len() implies entity_of(players, #[trigger] rd[k].0)
            && rd[k].0 != players.last().entity by {
            assert(entity_of(d, rd[k].0));
            let i = choose|i: int| 0 <= i < d.len() && #[trigger] d[i].entity == rd[k].0;
            assert(players[i] == d[i]);
        }
        assert forall|k: int| 0 <= k < r.len() implies entity_of(players, #[trigger] r[k].0) by {
            if k < rd.len() {
                assert(r[k] == rd[k]);
            } else {
                assert(players[players.len() - 1].entity == r[k].0);
            }
        }
        assert forall|x: int, y: int| 0 <= x < r.len() && 0 <= y < r.len() && x != y implies #[trigger] key(
            r[x],
        ) != #[trigger] key(r[y]) by {
            if x < rd.len() && y < rd.len() {
                assert(r[x] == rd[x] && r[y] == rd[y]);
                assert(key(rd[x]) != key(rd[y]));
            } else if x < rd.len() {
                assert(r[x] == rd[x]);
                assert(rd[x].0 != players.last().entity);
            } else if y < rd.len() {
                assert(r[y] == rd[y]);
                assert(rd[y].0 != players.last().entity);
            }
        }
    }
}

/// The entries of the members within a radius belong to distinct players.
pub proof fn lemma_members_within_unique(
    players: Seq<PlayerEntity>,
    pid: Seq<char>,
    center: Position,
    radius_sq: int,
    living_only: bool,
)
    requires
        entities_unique(players),
    ensures
        unique_by(members_within(players, pid, center, radius_sq, living_only), affect_key()),
        forall|k: int|
            0 <= k < members_within(players, pid, center, radius_sq, living_only).len() ==> entity_of(
                players,
                #[trigger] members_within(players, pid, center, radius_sq, living_only)[k].0,
            ),
    decreases players.len(),
{
    if players.len() > 0 {
        let d = players.drop_last();
        lemma_entities_unique_prefix(players);
        lemma_members_within_unique(d, pid, center, radius_sq, living_only);
        let r = members_within(players, pid, center, radius_sq, living_only);
        let rd = members_within(d, pid, center, radius_sq, living_only);
        let key = affect_key();
        assert forall|k: int| 0 <= k < rd.len() implies entity_of(players, #[trigger] rd[k].0)
            && rd[k].0 != players.last().entity by {
            assert(entity_of(d, rd[k].0));
            let i = choose|i: int| 0 <= i < d.len() && #[trigger] d[i].entity == rd[k].0;
            assert(players[i] == d[i]);
        }
        assert forall|k: int| 0 <= k < r.len() implies entity_of(players, #[trigger] r[k].0) by {
            if k < rd.len() {
                assert(r[k] == rd[k]);
            } else {
                assert(players[players.len() - 1].entity == r[k].0);
            }
        }
        assert forall|x: int, y: int| 0 <= x < r.len() && 0 <= y < r.len() && x != y implies #[trigger] key(
            r[x],
        ) != #[trigger] key(r[y]) by {
            if x < rd.len() && y < rd.len() {
                assert(r[x] == rd[x] && r[y] == rd[y]);
                assert(key(rd[x]) != key(rd[y]));
            } else if x < rd.len() {
                assert(r[x] == rd[x]);
                assert(rd[x].0 != players.last().entity);
            } else if y < rd.len() {
                assert(r[y] == rd[y]);
                assert(rd[y].0 != players.last().entity);
            }
        }
    }
}

pub proof fn lemma_count_within_bound(ps: Seq<Position>, p: Position, radius_sq: int)
    ensures
        count_within(ps, p, radius_sq) <= ps.len(),
    decreases ps.len(),
{
    if ps.len() > 0 {
        lemma_count_within_bound(ps.drop_last(), p, radius_sq);
    }
}

/// Overlap counts of a proximity mechanic, from the positions of its targets.
pub fn overlap_counts(
    players: &Vec<PlayerEntity>,
    pid: &String,
    target_positions: &Vec<Position>,
    radius_sq: i64,
) -> (r: Vec<(EntityId, u64)>)
    ensures
        r@ == spread_affects(players@, pid@, target_positions@, radius_sq as int),
{
    let mut r: Vec<(EntityId, u64)> = Vec::new();
    for i in 0..players.len()
        invariant
            r@ == spread_affects(
                players@.subrange(0, i as int),
                pid@,
                target_positions@,
                radius_sq as int,
            ),
    {
        assert(players@.subrange(0, i + 1).drop_last() == players@.subrange(0, i as int));
        let c = &players[i];
        if let Some(p) = c.position {
            if c.party.id == *pid {
                if let Some(st) = c.state {
                    if st.is_alive {
                        let n = count_positions_within(target_positions, &p, radius_sq);
                        proof {
                            lemma_count_within_bound(target_positions@, p, radius_sq as int);
                        }
                        if n > 0 {
                            r.push((c.entity, n));
                        }
                    }
                }
            }
        }
    }
    assert(players@.subrange(0, players@.len() as int) == players@);
    r
}

/// Members of party `pid` with a position within the radius around
/// `center` (living ones only, when `living_only`), each with one hit, in
/// table order.
pub open spec fn members_within(
    players: Seq<PlayerEntity>,
    pid: Seq<char>,
    center: Position,
    radius_sq: int,
    living_only: bool,
) -> Seq<(EntityId, u64)>
    decreases players.len(),
{
    if players.len() == 0 {
        seq![]
    } else {
        let rest = members_within(players.drop_last(), pid, center, radius_sq, living_only);
        let c = players.last();
        match c.position {
            Some(p) => if c.party.id@ == pid && (!living_only || alive(c)) && within(
                center,
                p,
                radius_sq,
            ) {
                rest.push((c.entity, 1u64))
            } else {
                rest
            },
            None => rest,
        }
    }
}

/// Whether a living member of party `pid` other than content id `cid` has a
/// position within the radius around `center`.
pub open spec fn shared(
    players: Seq<PlayerEntity>,
    pid: Seq<char>,
    center: Position,
    radius_sq: int,
    cid: u64,
) -> bool
    decreases players.len(),
{
    if players.len() == 0 {
        false
    } else {
        let c = players.last();
        shared(players.drop_last(), pid, center, radius_sq, cid) || (c.party.id@ == pid && alive(c)
            && c.player.content_id != cid && (c.position matches Some(p) && within(
            center,
            p,
            radius_sq,
        )))
    }
}

/// Members within the radius around `center`, each with one hit, and
/// whether one of them is alive and has a content id other than `cid`.
pub fn members_near(
    players: &Vec<PlayerEntity>,
    pid: &String,
    center: &Position,
    radius_sq: i64,
    living_only: bool,
    cid: u64,
) -> (r: (Vec<(EntityId, u64)>, bool))
    ensures
        r.0@ == members_within(players@, pid@, *center, radius_sq as int, living_only),
        r.1 == shared(players@, pid@, *center, radius_sq as int, cid),
{
    let mut r: Vec<(EntityId, u64)> = Vec::new();
    let mut other = false;
    for i in 0..players.len()
        invariant
            r@ == members_within(
                players@.subrange(0, i as int),
                pid@,
                *center,
                radius_sq as int,
                living_only,
            ),
            other == shared(players@.subrange(0, i as int), pid@, *center, radius_sq as int, cid),
    {
        assert(players@.subrange(0, i + 1).drop_last() == players@.subrange(0, i as int));
        let c = &players[i];
        if let Some(p) = c.position {
            if c.party.id == *pid {
                let is_alive = match c.state {
                    Some(st) => st.is_alive,
                    None => false,
                };
                if within_radius(center, &p, radius_sq) {
                    if !living_only || is_alive {
                        r.push((c.entity, 1));
                    }
                    if is_alive && c.player.content_id != cid {
                        other = true;
                    }
                }
            }
        }
    }
    assert(players@.subrange(0, players@.len() as int) == players@);
    (r, other)
}

/// Hits of a shared-hit mechanic from its living targets: the first target
/// with a position shares with every living member within the radius; if no
/// living member with another content id is there, it takes one extra hit.
pub open spec fn enumeration_affects(
    players: Seq<PlayerEntity>,
    pid: Seq<char>,
    live: Seq<EntityId>,
    radius_sq: int,
) -> Seq<(EntityId, u64)> {
    if live.len() == 0 {
        seq![]
    } else {
        match lookup(players, live[0]) {
            Some(t) => match t.position {
                Some(center) => {
                    let hit = members_within(players, pid, center, radius_sq, true);
                    if shared(players, pid, center, radius_sq, t.player.content_id) {
                        hit
                    } else {
                        with_affect(hit, t.entity, 1)
                    }
                },
                None => seq![],
            },
            None => seq![],
        }
    }
}

/// The entries of a shared hit belong to distinct players.
pub proof fn lemma_enumeration_affects_unique(
    players: Seq<PlayerEntity>,
    pid: Seq<char>,
    live: Seq<EntityId>,
    radius_sq: int,
)
    requires
        entities_unique(players),
    ensures
        unique_by(enumeration_affects(players, pid, live, radius_sq), affect_key()),
{
    assert(unique_by(Seq::<(EntityId, u64)>::empty(), affect_key()));
    if live.len() > 0 {
        if let Some(t) = lookup(players, live[0]) {
            if let Some(center) = t.position {
                lemma_members_within_unique(players, pid, center, radius_sq, true);
                lemma_with_affect_unique(
                    members_within(players, pid, center, radius_sq, true),
                    t.entity,
                    1,
                );
            }
        }
    }
}

pub proof fn lemma_members_within_ones(
    players: Seq<PlayerEntity>,
    pid: Seq<char>,
    center: Position,
    radius_sq: int,
    living_only: bool,
)
    ensures
        forall|i: int|
            0 <= i < members_within(players, pid, center, radius_sq, living_only).len()
                ==> #[trigger] members_within(players, pid, center, radius_sq, living_only)[i].1
                == 1,
    decreases players.len(),
{
    if players.len() > 0 {
        let rest = members_within(players.drop_last(), pid, center, radius_sq, living_only);
        let m = members_within(players, pid, center, radius_sq, living_only);
        lemma_members_within_ones(players.drop_last(), pid, center, radius_sq, living_only);
        assert forall|i: int| 0 <= i < m.len() implies #[trigger] m[i].1 == 1 by {
            if i < rest.len() {
                assert(m[i] == rest[i]);
            }
        }
    }
}

/// Hits of a shared-hit mechanic, from its living targets.
pub fn shared_hits(players: &Vec<PlayerEntity>, pid: &String, live: &Vec<EntityId>, radius_sq: i64) -> (r:
    Vec<(EntityId, u64)>)
    ensures
        r@ == enumeration_affects(players@, pid@, live@, radius_sq as int),
{
    if live.len() == 0 {
        return Vec::new();
    }
    let j = match find_player(players, live[0]) {
        Some(j) => j,
        None => {
            return Vec::new();
        },
    };
    let center = match players[j].position {
        Some(p) => p,
        None => {
            return Vec::new();
        },
    };
    let (mut hit, other) = members_near(
        players,
        pid,
        &center,
        radius_sq,
        true,
        players[j].player.content_id,
    );
    if !other {
        proof {
            lemma_members_within_ones(players@, pid@, center, radius_sq as int, true);
            lemma_affect_pos(hit@, players@[j as int].entity);
        }
        add_affect(&mut hit, players[j].entity, 1);
    }
    hit
}

/// Length of the stun for a number of hits: five seconds for each hit beyond
/// the first, in milliseconds.
pub open spec fn stun_ms(hits: u64) -> u64 {
    if hits <= 1 {
        0
    } else if hits - 1 > u64::MAX / STUN_PER_EXTRA_HIT_MS {
        u64::MAX
    } else {
        ((hits - 1) * STUN_PER_EXTRA_HIT_MS) as u64
    }
}

/// Stuns for the affected players that still exist: by hit count (entries
/// with a stun of zero send nothing), or of `fixed_ms` for everyone.
pub open spec fn stun_dispatches(
    players: Seq<PlayerEntity>,
    affects: Seq<(EntityId, u64)>,
    fixed_ms: Option<u64>,
) -> Seq<DispatchView>
    decreases affects.len(),
{
    if affects.len() == 0 {
        seq![]
    } else {
        let rest = stun_dispatches(players, affects.drop_last(), fixed_ms);
        let (e, hits) = affects.last();
        let ms = match fixed_ms {
            Some(f) => f,
            None => stun_ms(hits),
        };
        match lookup(players, e) {
            Some(p) => if ms > 0 {
                rest.push(
                    DispatchView {
                        socket: p.socket.id,
                        message: OutboundView::ApplyCondition {
                            condition: Condition::Stun,
                            duration_ms: ms,
                        },
                    },
                )
            } else {
                rest
            },
            None => rest,
        }
    }
}

/// Appends the stuns that follow from `affects`.
pub fn send_stuns(
    players: &Vec<PlayerEntity>,
    affects: &Vec<(EntityId, u64)>,
    fixed_ms: Option<u64>,
    out: &mut Vec<Dispatch>,
)
    ensures
        dispatches_view(final(out)@) == dispatches_view(old(out)@) + stun_dispatches(
            players@,
            affects@,
            fixed_ms,
        ),
{
    let ghost start = dispatches_view(out@);
    for i in 0..affects.len()
        invariant
            dispatches_view(out@) == start + stun_dispatches(
                players@,
                affects@.subrange(0, i as int),
                fixed_ms,
            ),
    {
        assert(affects@.subrange(0, i + 1).drop_last() == affects@.subrange(0, i as int));
        let (e, hits) = affects[i];
        let ms: u64 = match fixed_ms {
            Some(f) => f,
            None => {
                if hits <= 1 {
                    0
                } else if hits - 1 > u64::MAX / STUN_PER_EXTRA_HIT_MS {
                    u64::MAX
                } else {
                    (hits - 1) * STUN_PER_EXTRA_HIT_MS
                }
            },
        };
        if let Some(j) = find_player(players, e) {
            if ms > 0 {
                let ghost before = out@;
                out.push(
                    Dispatch {
                        socket: players[j].socket.id,
                        message: Outbound::ApplyCondition { condition: Condition::Stun, duration_ms: ms },
                    },
                );
                assert(dispatches_view(out@) == dispatches_view(before).push(out@.last()@));
            }
        }
    }
    assert(affects@.subrange(0, affects@.len() as int) == affects@);
}

} // verus!
