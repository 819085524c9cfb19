//! Properties of the simulation that relate several operations or hold of
//! every input, proved from the contracts of the operations.

use vstd::prelude::*;

use socketioxide::socket::Sid;

use crate::affects::{entities_unique, spread_affects, stun_ms, enumeration_affects, lemma_affect_pos, members_within, shared, with_affect};
use crate::components::{EntityId, Position};
use crate::geometry::{dist2, within};
use crate::messages::MessageToEcs;
use crate::notify::DispatchView;
use crate::query::{alive, count_within, lookup};
use crate::world::{
    clear_mechanics_post, command_chain, disconnect_post, lemma_filter_elements, outside_party,
    start_mechanic_post, PlayerEntity, World,
};

verus! {

/// Whether every command is a roster update.
pub open spec fn roster_only(cs: Seq<MessageToEcs>) -> bool {
    forall|i: int| 0 <= i < cs.len() ==> #[trigger] cs[i] is UpdatePlayer
}

/// The party named by the last roster update of connection `s` in `cs`.
pub open spec fn last_party(cs: Seq<MessageToEcs>, s: Sid) -> Option<Seq<char>>
    decreases cs.len(),
{
    if cs.len() == 0 {
        None
    } else {
        match cs.last() {
            MessageToEcs::UpdatePlayer { socket_id, party, .. } => if socket_id == s {
                Some(party@)
            } else {
                last_party(cs.drop_last(), s)
            },
            _ => last_party(cs.drop_last(), s),
        }
    }
}

/// The last roster update of connection `s` in `cs`.
pub open spec fn last_update(cs: Seq<MessageToEcs>, s: Sid) -> Option<MessageToEcs>
    decreases cs.len(),
{
    if cs.len() == 0 {
        None
    } else {
        match cs.last() {
            MessageToEcs::UpdatePlayer { socket_id, .. } => if socket_id == s {
                Some(cs.last())
            } else {
                last_update(cs.drop_last(), s)
            },
            _ => last_update(cs.drop_last(), s),
        }
    }
}

/// Whether the player on connection `s` carries what roster update `c` set.
pub open spec fn shows_update(w: World, s: Sid, c: MessageToEcs) -> bool {
    match c {
        MessageToEcs::UpdatePlayer { content_id, name, role, party, .. } => {
            let p = w.player_of(s);
            &&& w.has_player(s)
            &&& p.player.content_id == content_id
            &&& p.player.name@ == name@
            &&& p.role == role
            &&& p.party.id@ == party@
        },
        _ => false,
    }
}

/// Whether the live connections have pairwise different content ids.
pub open spec fn contents_distinct(w: World) -> bool {
    forall|i: int, j: int|
        0 <= i < w.players@.len() && 0 <= j < w.players@.len() && i != j
            ==> #[trigger] w.players@[i].player.content_id != #[trigger] w.players@[j].player.content_id
}

/// Whether exactly one player entity is on connection `s`.
pub open spec fn exactly_one(w: World, s: Sid) -> bool {
    &&& w.has_player(s)
    &&& forall|i: int, j: int|
        0 <= i < w.players@.len() && 0 <= j < w.players@.len() && #[trigger] w.players@[i].socket.id
            == s && #[trigger] w.players@[j].socket.id == s ==> i == j
}

/// After any sequence of roster updates (with entity identifiers to spare,
/// and with content ids unique among the live connections before each
/// update), every connection that one of them named has exactly one player entity,
/// and its party, identity and role are the ones that the last update for it
/// named; any other connection is as it was.
pub proof fn roster_updates_settle(
    ws: Seq<World>,
    ds: Seq<Seq<DispatchView>>,
    cs: Seq<MessageToEcs>,
    s: Sid,
)
    requires
        command_chain(ws, ds, cs),
        roster_only(cs),
        ws[0].next_entity + 2 * cs.len() <= u64::MAX,
        forall|k: int| 0 <= k < cs.len() ==> contents_distinct(#[trigger] ws[k]),
    ensures
        last_party(cs, s) matches Some(q) ==> exactly_one(ws.last(), s) && ws.last().party_of(s)
            == Some(q),
        last_party(cs, s) is None ==> ws.last().keeps_player(&ws[0], s),
        last_update(cs, s) matches Some(c) ==> shows_update(ws.last(), s, c),
    decreases cs.len(),
{
    if cs.len() == 0 {
        assert(ws.last() == ws[0]);
    } else {
        let n = cs.len() - 1;
        let cs0 = cs.drop_last();
        let ws0 = ws.drop_last();
        let ds0 = ds.drop_last();
        assert(command_chain(ws0, ds0, cs0)) by {
            assert forall|i: int| 0 <= i < cs0.len() implies crate::world::command_post(
                ws0[i],
                ws0[i + 1],
                #[trigger] cs0[i],
                ds0[i],
                ds0[i + 1],
            ) by {
                assert(cs0[i] == cs[i]);
                assert(crate::world::command_post(ws[i], ws[i + 1], cs[i], ds[i], ds[i + 1]));
            }
            assert forall|i: int| 0 <= i < ws0.len() implies (#[trigger] ws0[i]).wf() by {
                assert(ws[i].wf());
            }
        }
        assert(roster_only(cs0)) by {
            assert forall|i: int| 0 <= i < cs0.len() implies #[trigger] cs0[i] is UpdatePlayer by {
                assert(cs[i] is UpdatePlayer);
            }
        }
        assert forall|k: int| 0 <= k < cs0.len() implies contents_distinct(#[trigger] ws0[k]) by {
            assert(ws0[k] == ws[k]);
        }
        lemma_next_entity_growth(ws0, ds0, cs0);
        roster_updates_settle(ws0, ds0, cs0, s);
        let w = ws[n];
        let v = ws[n + 1];
        assert(ws0.last() == w);
        assert(v == ws.last());
        assert(cs[n] is UpdatePlayer);
        assert(crate::world::command_post(w, v, cs[n], ds[n], ds[n + 1]));
        assert(w.wf() && v.wf());
        match cs[n] {
            MessageToEcs::UpdatePlayer { socket_id, content_id, name, role, party } => {
                assert(w.next_entity <= ws[0].next_entity + 2 * n);
                if socket_id == s {
                    assert(cs.last() == cs[n]);
                    assert(shows_update(v, s, cs[n]));
                    let i = v.player_index(s);
                    assert forall|a: int, b: int|
                        0 <= a < v.players@.len() && 0 <= b < v.players@.len()
                            && #[trigger] v.players@[a].socket.id == s && #[trigger] v.players@[b].socket.id
                            == s implies a == b by {
                        if a != b {
                            assert(v.players@[a].socket.id != v.players@[b].socket.id);
                        }
                    }
                } else {
                    assert(w.next_entity + w.roster_ids_needed(socket_id, party@) <= u64::MAX);
                    assert(crate::world::roster_update_post(
                        w,
                        v,
                        socket_id,
                        content_id,
                        name@,
                        role,
                        party@,
                        ds[n],
                        ds[n + 1],
                    ));
                    assert(contents_distinct(ws[n]));
                    if w.has_player(s) && w.has_player(socket_id) {
                        let a = w.player_index(s);
                        let b = w.player_index(socket_id);
                        assert(w.players@[a].socket.id == s && w.players@[b].socket.id == socket_id);
                        assert(a != b);
                        assert(w.players@[a].player.content_id != w.players@[b].player.content_id);
                        if w.players@[a].party.id@ == w.players@[b].party.id@ {
                            assert(w.has_rival(
                                socket_id,
                                w.players@[b].party.id@,
                                w.players@[b].player.content_id,
                            ));
                        }
                    }
                    assert(v.keeps_player(&w, s));
                    if let Some(c) = last_update(cs0, s) {
                        assert(shows_update(w, s, c));
                        assert(v.player_of(s) == w.player_of(s));
                        assert(shows_update(v, s, c));
                    }
                    if let Some(q) = last_party(cs0, s) {
                        assert forall|a: int, b: int|
                            0 <= a < v.players@.len() && 0 <= b < v.players@.len()
                                && #[trigger] v.players@[a].socket.id == s && #[trigger] v.players@[b].socket.id
                                == s implies a == b by {
                            if a != b {
                                assert(v.players@[a].socket.id != v.players@[b].socket.id);
                            }
                        }
                    }
                }
            },
            _ => {},
        }
    }
}

/// Each roster update creates at most two entities.
pub proof fn lemma_next_entity_growth(ws: Seq<World>, ds: Seq<Seq<DispatchView>>, cs: Seq<MessageToEcs>)
    requires
        command_chain(ws, ds, cs),
        roster_only(cs),
    ensures
        ws.last().next_entity <= ws[0].next_entity + 2 * cs.len(),
    decreases cs.len(),
{
    if cs.len() > 0 {
        let n = cs.len() - 1;
        let cs0 = cs.drop_last();
        let ws0 = ws.drop_last();
        let ds0 = ds.drop_last();
        assert(command_chain(ws0, ds0, cs0)) by {
            assert forall|i: int| 0 <= i < cs0.len() implies crate::world::command_post(
                ws0[i],
                ws0[i + 1],
                #[trigger] cs0[i],
                ds0[i],
                ds0[i + 1],
            ) by {
                assert(cs0[i] == cs[i]);
                assert(crate::world::command_post(ws[i], ws[i + 1], cs[i], ds[i], ds[i + 1]));
            }
            assert forall|i: int| 0 <= i < ws0.len() implies (#[trigger] ws0[i]).wf() by {
                assert(ws[i].wf());
            }
        }
        assert(roster_only(cs0)) by {
            assert forall|i: int| 0 <= i < cs0.len() implies #[trigger] cs0[i] is UpdatePlayer by {
                assert(cs[i] is UpdatePlayer);
            }
        }
        lemma_next_entity_growth(ws0, ds0, cs0);
        assert(ws0.last() == ws[n]);
        assert(cs[n] is UpdatePlayer);
        assert(crate::world::command_post(ws[n], ws[n + 1], cs[n], ds[n], ds[n + 1]));
    }
}

/// When a player disconnects and no other member of its party has a
/// different content id, the party's container, every mechanic of the party
/// (whatever its phase) and every remaining member are gone afterwards, and
/// every remaining player and mechanic still has its parent.
pub proof fn last_player_leaving_destroys_party(
    w: World,
    v: World,
    s: Sid,
    o: Seq<DispatchView>,
    d: Seq<DispatchView>,
)
    requires
        w.wf(),
        v.wf(),
        disconnect_post(w, v, s, o, d),
        w.has_player(s),
        !w.has_rival(s, w.player_of(s).party.id@, w.player_of(s).player.content_id),
    ensures
        !v.has_container(w.player_of(s).party.id@),
        !v.has_members(w.player_of(s).party.id@),
        forall|k: int|
            0 <= k < v.mechanics@.len() ==> #[trigger] v.mechanics@[k].party.id@ != w.player_of(
                s,
            ).party.id@,
        forall|i: int| 0 <= i < v.players@.len() ==> v.player_linked(#[trigger] v.players@[i]),
        forall|k: int| 0 <= k < v.mechanics@.len() ==> v.mechanic_linked(#[trigger] v.mechanics@[k]),
{
    let pid = w.player_of(s).party.id@;
    lemma_filter_elements(w.mechanics@, outside_party(pid));
    assert forall|k: int| 0 <= k < v.mechanics@.len() implies v.mechanic_linked(
        #[trigger] v.mechanics@[k],
    ) by {
        assert(v.mechanics@[k].valid());
    }
}

/// A start command whose request id matches a live mechanic of the
/// player's party creates nothing.
pub proof fn duplicate_start_is_ignored(
    w: World,
    v: World,
    s: Sid,
    request_id: Seq<char>,
    mechanic_id: u32,
    x: Option<i32>,
    y: Option<i32>,
    z: Option<i32>,
    rotation: Option<i32>,
)
    requires
        start_mechanic_post(w, v, s, request_id, mechanic_id, x, y, z, rotation),
        w.has_player(s),
        w.has_mechanic(request_id, w.player_of(s).party.id@),
    ensures
        v.mechanics@ == w.mechanics@,
        v.mechanics@.len() == w.mechanics@.len(),
{
}

/// Clearing mechanics for a player's party removes every mechanic of that
/// party, whatever its phase, and keeps every mechanic of the other parties.
pub proof fn clearing_keeps_other_parties(w: World, v: World, s: Sid)
    requires
        clear_mechanics_post(w, v, s),
        w.has_player(s),
    ensures
        forall|k: int|
            0 <= k < v.mechanics@.len() ==> #[trigger] v.mechanics@[k].party.id@ != w.player_of(
                s,
            ).party.id@,
        forall|k: int|
            0 <= k < w.mechanics@.len() && #[trigger] w.mechanics@[k].party.id@ != w.player_of(
                s,
            ).party.id@ ==> v.mechanics@.contains(w.mechanics@[k]),
{
    let pid = w.player_of(s).party.id@;
    lemma_filter_elements(w.mechanics@, outside_party(pid));
    assert forall|k: int|
        0 <= k < w.mechanics@.len() && #[trigger] w.mechanics@[k].party.id@ != pid implies v.mechanics@.contains(
        w.mechanics@[k],
    ) by {
        w.mechanics@.lemma_filter_contains(outside_party(pid), k);
    }
}

/// Whether a player has a position within the radius around `center`.
pub open spec fn near(c: PlayerEntity, center: Position, radius_sq: int) -> bool {
    match c.position {
        Some(p) => within(center, p, radius_sq),
        None => false,
    }
}

/// Whether `hit` is one hit on a member within the radius (a living one,
/// when `living_only`).
pub open spec fn hit_by_member(
    players: Seq<PlayerEntity>,
    hit: (EntityId, u64),
    pid: Seq<char>,
    center: Position,
    radius_sq: int,
    living_only: bool,
) -> bool {
    exists|j: int|
        0 <= j < players.len() && (#[trigger] players[j]).entity == hit.0 && hit.1 == 1
            && players[j].party.id@ == pid && (!living_only || alive(players[j])) && near(
            players[j],
            center,
            radius_sq,
        )
}

/// With entity ids unique, `lookup` finds the player at index `i`.
pub proof fn lemma_lookup_unique(players: Seq<PlayerEntity>, i: int)
    requires
        0 <= i < players.len(),
        forall|j: int| 0 <= j < players.len() && #[trigger] players[j].entity == players[i].entity ==> j == i,
    ensures
        lookup(players, players[i].entity) == Some(players[i]),
    decreases players.len(),
{
    let d = players.drop_last();
    if i < players.len() - 1 {
        assert(players.last().entity != players[i].entity);
        assert forall|j: int| 0 <= j < d.len() && #[trigger] d[j].entity == d[i].entity implies j == i by {
            assert(d[j] == players[j]);
        }
        lemma_lookup_unique(d, i);
    }
}

/// Without another living member within the radius, the only member hit is
/// the one with content id `cid` (at index `i`, when it is there).
pub proof fn lemma_alone(
    players: Seq<PlayerEntity>,
    pid: Seq<char>,
    center: Position,
    radius_sq: int,
    t: PlayerEntity,
    i: int,
)
    requires
        !shared(players, pid, center, radius_sq, t.player.content_id),
        0 <= i,
        i < players.len() ==> players[i] == t,
        forall|j: int|
            0 <= j < players.len() && #[trigger] players[j].player.content_id == t.player.content_id
                ==> j == i,
        t.party.id@ == pid,
        alive(t),
        t.position == Some(center),
        radius_sq >= 0,
    ensures
        members_within(players, pid, center, radius_sq, true) == (if i < players.len() {
            seq![(t.entity, 1u64)]
        } else {
            seq![]
        }),
    decreases players.len(),
{
    if players.len() > 0 {
        let d = players.drop_last();
        assert forall|j: int|
            0 <= j < d.len() && #[trigger] d[j].player.content_id == t.player.content_id implies j
            == i by {
            assert(d[j] == players[j]);
            assert(players[j].player.content_id == t.player.content_id);
        }
        if i < d.len() {
            assert(d[i] == players[i]);
        }
        lemma_alone(d, pid, center, radius_sq, t, i);
        assert(dist2(center, center) == 0);
    }
}

/// The members hit are exactly the members within the radius (living ones,
/// when `living_only`), one hit each.
pub proof fn lemma_members_within_exact(
    players: Seq<PlayerEntity>,
    pid: Seq<char>,
    center: Position,
    radius_sq: int,
    living_only: bool,
)
    ensures
        forall|j: int|
            0 <= j < players.len() && (#[trigger] players[j]).party.id@ == pid && (!living_only
                || alive(players[j])) && near(players[j], center, radius_sq) ==> members_within(players, pid, center, radius_sq, living_only).contains(
                (players[j].entity, 1u64),
            ),
        forall|k: int|
            0 <= k < members_within(players, pid, center, radius_sq, living_only).len() ==> #[trigger] hit_by_member(
                players,
                members_within(players, pid, center, radius_sq, living_only)[k],
                pid,
                center,
                radius_sq,
                living_only,
            ),
    decreases players.len(),
{
    if players.len() > 0 {
        let d = players.drop_last();
        let m = members_within(players, pid, center, radius_sq, living_only);
        let md = members_within(d, pid, center, radius_sq, living_only);
        lemma_members_within_exact(d, pid, center, radius_sq, living_only);
        assert forall|j: int|
            0 <= j < players.len() && (#[trigger] players[j]).party.id@ == pid && (!living_only
                || alive(players[j])) && near(players[j], center, radius_sq) implies m.contains((players[j].entity, 1u64)) by {
            if j < d.len() {
                assert(d[j] == players[j]);
                let w = choose|w: int| 0 <= w < md.len() && md[w] == (d[j].entity, 1u64);
                assert(m[w] == md[w]);
            } else {
                assert(m[m.len() - 1] == (players[j].entity, 1u64));
            }
        }
        assert forall|k: int| 0 <= k < m.len() implies #[trigger] hit_by_member(
            players,
            m[k],
            pid,
            center,
            radius_sq,
            living_only,
        ) by {
            if k < md.len() {
                assert(m[k] == md[k]);
                assert(hit_by_member(d, md[k], pid, center, radius_sq, living_only));
                let j = choose|j: int|
                    0 <= j < d.len() && (#[trigger] d[j]).entity == md[k].0 && md[k].1 == 1
                        && d[j].party.id@ == pid && (!living_only || alive(d[j])) && near(
                        d[j],
                        center,
                        radius_sq,
                    );
                assert(players[j] == d[j]);
            } else {
                assert(players[players.len() - 1] == players.last());
            }
        }
    }
}

/// The shared-hit rule. Take a living party member with a position as the
/// target, with entity and content ids unique among the players. If no other
/// living member stands within the radius, the target alone is affected,
/// with the extra hit that stuns it. Otherwise every living member within the
/// radius is affected, with one hit each, and nobody else is.
pub proof fn shared_hit_rule(players: Seq<PlayerEntity>, pid: Seq<char>, i: int, radius_sq: int)
    requires
        0 <= i < players.len(),
        players[i].party.id@ == pid,
        alive(players[i]),
        players[i].position is Some,
        radius_sq >= 0,
        forall|a: int, b: int|
            0 <= a < players.len() && 0 <= b < players.len() && a != b ==> #[trigger] players[a].entity
                != #[trigger] players[b].entity && players[a].player.content_id
                != players[b].player.content_id,
    ensures
        ({
            let t = players[i];
            let center = t.position->0;
            let hits = enumeration_affects(players, pid, seq![t.entity], radius_sq);
            &&& !shared(players, pid, center, radius_sq, t.player.content_id) ==> hits == seq![
                (t.entity, 2u64),
            ]
            &&& shared(players, pid, center, radius_sq, t.player.content_id) ==> {
                &&& forall|j: int|
                    0 <= j < players.len() && (#[trigger] players[j]).party.id@ == pid && alive(
                        players[j],
                    ) && near(players[j], center, radius_sq)
                        ==> hits.contains((players[j].entity, 1u64))
                &&& forall|k: int|
                    0 <= k < hits.len() ==> #[trigger] hit_by_member(
                        players,
                        hits[k],
                        pid,
                        center,
                        radius_sq,
                        true,
                    )
            }
        }),
{
    let t = players[i];
    let center = t.position->0;
    assert forall|j: int| 0 <= j < players.len() && #[trigger] players[j].entity == t.entity implies j
        == i by {
        if j != i {
            assert(players[j].entity != players[i].entity);
        }
    }
    lemma_lookup_unique(players, i);
    assert(seq![t.entity][0] == t.entity);
    if shared(players, pid, center, radius_sq, t.player.content_id) {
        lemma_members_within_exact(players, pid, center, radius_sq, true);
    } else {
        assert forall|j: int|
            0 <= j < players.len() && #[trigger] players[j].player.content_id == t.player.content_id
                implies j == i by {
            if j != i {
                assert(players[j].entity != players[i].entity);
                assert(players[j].player.content_id != players[i].player.content_id);
            }
        }
        lemma_alone(players, pid, center, radius_sq, t, i);
        let hit = seq![(t.entity, 1u64)];
        lemma_affect_pos(hit, t.entity);
        assert(hit.drop_last().len() == 0);
        assert(with_affect(hit, t.entity, 1) == seq![(t.entity, 2u64)]);
    }
}

/// The proximity rule. A living party member with a position is affected
/// exactly when at least one target position lies within the radius around
/// it, with one hit for each such position; it is stunned exactly when a
/// second one does, for five seconds per hit beyond the first.
pub proof fn proximity_overlap_rule(
    players: Seq<PlayerEntity>,
    pid: Seq<char>,
    target_positions: Seq<Position>,
    radius_sq: int,
    i: int,
)
    requires
        0 <= i < players.len(),
        players[i].party.id@ == pid,
        alive(players[i]),
        players[i].position is Some,
        entities_unique(players),
        target_positions.len() <= u64::MAX,
    ensures
        ({
            let a = spread_affects(players, pid, target_positions, radius_sq);
            let n = count_within(target_positions, players[i].position->0, radius_sq);
            &&& n > 0 ==> a.contains((players[i].entity, n as u64))
            &&& n == 0 ==> forall|k: int| 0 <= k < a.len() ==> #[trigger] a[k].0 != players[i].entity
            &&& (stun_ms(n as u64) > 0 <==> n >= 2)
        }),
    decreases players.len(),
{
    let d = players.drop_last();
    let a = spread_affects(players, pid, target_positions, radius_sq);
    let ad = spread_affects(d, pid, target_positions, radius_sq);
    let n = count_within(target_positions, players[i].position->0, radius_sq);
    crate::affects::lemma_count_within_bound(target_positions, players[i].position->0, radius_sq);
    crate::affects::lemma_entities_unique_prefix(players);
    crate::affects::lemma_spread_affects_unique(d, pid, target_positions, radius_sq);
    if i == players.len() - 1 {
        if n > 0 {
            assert(a[a.len() - 1] == (players[i].entity, n as u64));
        } else {
            assert forall|k: int| 0 <= k < a.len() implies #[trigger] a[k].0 != players[i].entity by {
                assert(a[k] == ad[k]);
                assert(crate::affects::entity_of(d, ad[k].0));
                let j = choose|j: int| 0 <= j < d.len() && #[trigger] d[j].entity == ad[k].0;
                assert(d[j].entity != players.last().entity);
            }
        }
    } else {
        assert(d[i] == players[i]);
        proximity_overlap_rule(d, pid, target_positions, radius_sq, i);
        assert(players.last().entity != players[i].entity);
        if n > 0 {
            let w = choose|w: int| 0 <= w < ad.len() && ad[w] == (players[i].entity, n as u64);
            assert(a[w] == ad[w]);
        } else {
            assert forall|k: int| 0 <= k < a.len() implies #[trigger] a[k].0 != players[i].entity by {
                if k < ad.len() {
                    assert(a[k] == ad[k]);
                }
            }
        }
    }
}

} // verus!
