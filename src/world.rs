//! The entity world: players, the party containers that hold them, and the
//! mechanics that run against a party.
//!
//! Each kind of entity lives in a table of its own. A player is a child of the
//! container of its party; a mechanic belongs to a party and, when it was
//! started at a place, is a child of that party's container. When a player
//! leaves a party (disconnecting or moving to another one) and no member with
//! a different content id is left in it, everything of that party is
//! destroyed: its container, every mechanic of it whatever its phase, and the
//! remaining members, which share the leaving player's content id.

use vstd::prelude::*;

use socketioxide::socket::Sid;

use crate::components::{EntityId, Party, Player, Position, Role, Socket, State};
use crate::components::convert_to_transform;
use crate::affects::entities_unique;
use crate::messages::MessageToEcs;
use crate::query::{member_socket_list, party_entities, party_members};
use crate::random::{choose_entity, new_vfx_id};
use crate::mechanics::{advanced, enumeration, spread, trap, Behaviour};
use crate::mechanics::{create_mechanic, startable, MechanicEntity, Phase};
use crate::notify::{
    broadcast, broadcast_of, dispatches_view, Dispatch, DispatchView, Outbound, OutboundView,
};

verus! {

#[derive(Debug)]
pub struct PlayerEntity {
    pub entity: EntityId,
    /// The container of the player's party.
    pub parent: EntityId,
    pub socket: Socket,
    pub player: Player,
    pub role: Role,
    pub party: Party,
    pub position: Option<Position>,
    pub state: Option<State>,
}

/// The entity that stands for a party and owns its members.
#[derive(Debug)]
pub struct PartyContainer {
    pub entity: EntityId,
    pub party: Party,
}

#[derive(Debug)]
pub struct World {
    /// The identifier that the next created entity receives.
    pub next_entity: EntityId,
    pub players: Vec<PlayerEntity>,
    pub parties: Vec<PartyContainer>,
    pub mechanics: Vec<MechanicEntity>,
}

/// Connections of the players of party `pid`, in table order.
pub open spec fn member_sockets(players: Seq<PlayerEntity>, pid: Seq<char>) -> Seq<Sid>
    decreases players.len(),
{
    if players.len() == 0 {
        seq![]
    } else {
        let rest = member_sockets(players.drop_last(), pid);
        if players.last().party.id@ == pid {
            rest.push(players.last().socket.id)
        } else {
            rest
        }
    }
}

/// Party-status messages telling each player of party `pid` its size.
pub open spec fn status_broadcast(players: Seq<PlayerEntity>, pid: Seq<char>) -> Seq<DispatchView> {
    let members = member_sockets(players, pid);
    broadcast_of(
        members,
        OutboundView::PartyStatus { connected_player_count: members.len() as u64 },
    )
}

/// What a roster update of connection `s` does, from world `w` and messages
/// `o` to world `v` and messages `d`. A player moving to another party leaves
/// the old one, which is destroyed with everything of it when no member with
/// a different content id is left.
pub open spec fn roster_update_post(
    w: World,
    v: World,
    s: Sid,
    content_id: u64,
    name: Seq<char>,
    role: Role,
    party: Seq<char>,
    o: Seq<DispatchView>,
    d: Seq<DispatchView>,
) -> bool {
    &&& w.next_entity <= v.next_entity <= w.next_entity + 2
    &&& w.next_entity + w.roster_ids_needed(s, party) > u64::MAX ==> {
        &&& v.players@ == w.players@
        &&& v.parties@ == w.parties@
        &&& v.mechanics@ == w.mechanics@
        &&& d == o
    }
    &&& w.next_entity + w.roster_ids_needed(s, party) <= u64::MAX ==> {
        let p = v.player_of(s);
        let old_pid = w.player_of(s).party.id@;
        let moved = w.has_player(s) && old_pid != party;
        let emptied = moved && w.emptied_by(s, old_pid, w.player_of(s).player.content_id);
        &&& forall|t: Sid|
            t != s && !(emptied && w.has_player(t) && w.player_of(t).party.id@ == old_pid)
                ==> #[trigger] v.keeps_player(&w, t)
        &&& forall|t: Sid|
            t != s && emptied && w.has_player(t) && w.player_of(t).party.id@ == old_pid
                ==> !#[trigger] v.has_player(t)
        &&& v.has_player(s)
        &&& p.player.content_id == content_id
        &&& p.player.name@ == name
        &&& p.role == role
        &&& p.party.id@ == party
        &&& v.is_container(p.parent, party)
        &&& w.has_player(s) ==> {
            &&& p.entity == w.player_of(s).entity
            &&& p.position == w.player_of(s).position
            &&& p.state == w.player_of(s).state
        }
        &&& !w.has_player(s) ==> p.position is None && p.state is None
        &&& emptied ==> {
            &&& !v.has_container(old_pid)
            &&& !v.has_members(old_pid)
            &&& v.mechanics@ == w.mechanics@.filter(outside_party(old_pid))
        }
        &&& !emptied ==> v.mechanics@ == w.mechanics@
        &&& d == o + (if moved && !emptied {
            status_broadcast(v.players@, old_pid)
        } else {
            Seq::empty()
        }) + status_broadcast(v.players@, party)
    }
}

/// What a status update of connection `s` does to world `w`, giving `v`.
pub open spec fn status_update_post(
    w: World,
    v: World,
    s: Sid,
    x: i32,
    y: i32,
    z: i32,
    is_alive: bool,
) -> bool {
    &&& v.next_entity == w.next_entity
    &&& v.parties@ == w.parties@
    &&& v.mechanics@ == w.mechanics@
    &&& v.players@.len() == w.players@.len()
    &&& forall|t: Sid| t != s ==> #[trigger] v.keeps_player(&w, t)
    &&& !w.has_player(s) ==> v.players@ == w.players@
    &&& w.has_player(s) ==> {
        let p = v.player_of(s);
        let q = w.player_of(s);
        &&& v.has_player(s)
        &&& p.position == Some(
            Position { x, y, z },
        )
        &&& p.state == Some(State { is_alive })
        &&& p.entity == q.entity
        &&& p.parent == q.parent
        &&& p.socket == q.socket
        &&& p.player == q.player
        &&& p.role == q.role
        &&& p.party == q.party
    }
}

/// What a disconnect of connection `s` does, from world `w` and messages `o`
/// to world `v` and messages `d`. The player leaves its party; when no member
/// with a different content id is left, the party is destroyed with its
/// container, its mechanics and its remaining members.
pub open spec fn disconnect_post(
    w: World,
    v: World,
    s: Sid,
    o: Seq<DispatchView>,
    d: Seq<DispatchView>,
) -> bool {
    &&& v.next_entity == w.next_entity
    &&& !v.has_player(s)
    &&& !w.has_player(s) ==> {
        &&& v.players@ == w.players@
        &&& v.parties@ == w.parties@
        &&& v.mechanics@ == w.mechanics@
        &&& d == o
    }
    &&& w.has_player(s) ==> {
        let pid = w.player_of(s).party.id@;
        let emptied = w.emptied_by(s, pid, w.player_of(s).player.content_id);
        &&& forall|t: Sid| t != s ==> #[trigger] kept_or_swept(v, w, t, pid, emptied)
        &&& emptied ==> {
            &&& !v.has_container(pid)
            &&& !v.has_members(pid)
            &&& v.mechanics@ == w.mechanics@.filter(outside_party(pid))
            &&& forall|q: Seq<char>| q != pid ==> (#[trigger] v.has_container(q) == w.has_container(q))
            &&& d == o
        }
        &&& !emptied ==> {
            &&& v.parties@ == w.parties@
            &&& v.mechanics@ == w.mechanics@
            &&& v.has_members(pid)
            &&& d == o + status_broadcast(v.players@, pid)
        }
    }
}

/// What a start-mechanic command of connection `s` does to world `w`, giving
/// `v`.
pub open spec fn start_mechanic_post(
    w: World,
    v: World,
    s: Sid,
    request_id: Seq<char>,
    mechanic_id: u32,
    x: Option<i32>,
    y: Option<i32>,
    z: Option<i32>,
    rotation: Option<i32>,
) -> bool {
    let pid = w.player_of(s).party.id@;
    let placed = x is Some && y is Some && z is Some && rotation is Some;
    let starts = w.has_player(s) && !w.has_mechanic(request_id, pid) && startable(
        mechanic_id,
        placed,
    ) && w.next_entity < u64::MAX;
    &&& v.players@ == w.players@
    &&& v.parties@ == w.parties@
    &&& !starts ==> v.mechanics@ == w.mechanics@
    &&& starts ==> {
        let m = v.mechanics@.last();
        &&& v.mechanics@.drop_last() == w.mechanics@
        &&& v.mechanics@.len() == w.mechanics@.len() + 1
        &&& m.entity == w.next_entity
        &&& m.mechanic.request_id@ == request_id
        &&& m.mechanic.mechanic_id == mechanic_id
        &&& m.party.id@ == pid
        &&& m.phase == Phase::Assign
        &&& (m.parent is Some <==> placed)
        &&& m.parent matches Some(e) ==> v.is_container(e, pid)
    }
}

/// What a clear-mechanics command of connection `s` does to world `w`, giving
/// `v`.
pub open spec fn clear_mechanics_post(w: World, v: World, s: Sid) -> bool {
    &&& v.players@ == w.players@
    &&& v.parties@ == w.parties@
    &&& v.next_entity == w.next_entity
    &&& !w.has_player(s) ==> v.mechanics@ == w.mechanics@
    &&& w.has_player(s) ==> v.mechanics@ == w.mechanics@.filter(
        outside_party(w.player_of(s).party.id@),
    )
}

/// What applying command `c` does, from world `w` and messages `o` to world
/// `v` and messages `d`.
pub open spec fn command_post(
    w: World,
    v: World,
    c: MessageToEcs,
    o: Seq<DispatchView>,
    d: Seq<DispatchView>,
) -> bool {
    match c {
        MessageToEcs::UpdatePlayer { socket_id, content_id, name, role, party } =>
            roster_update_post(w, v, socket_id, content_id, name@, role, party@, o, d),
        MessageToEcs::UpdateStatus {
            socket_id,
            world_position_x,
            world_position_y,
            world_position_z,
            is_alive,
        } => status_update_post(
            w,
            v,
            socket_id,
            world_position_x,
            world_position_y,
            world_position_z,
            is_alive,
        ) && d == o,
        MessageToEcs::RemovePlayer { socket_id } => disconnect_post(w, v, socket_id, o, d),
        MessageToEcs::StartMechanic { socket_id, request_id, mechanic_id, x, y, z, rotation } =>
            start_mechanic_post(w, v, socket_id, request_id@, mechanic_id, x, y, z, rotation) && d
            == o,
        MessageToEcs::ClearMechanics { socket_id } => clear_mechanics_post(w, v, socket_id) && d
            == o,
    }
}

/// Whether the worlds `ws` and message lists `ds` are the steps of applying
/// `cs` one after the other, in order.
pub open spec fn command_chain(
    ws: Seq<World>,
    ds: Seq<Seq<DispatchView>>,
    cs: Seq<MessageToEcs>,
) -> bool {
    &&& ws.len() == cs.len() + 1
    &&& ds.len() == cs.len() + 1
    &&& forall|i: int| 0 <= i < ws.len() ==> (#[trigger] ws[i]).wf()
    &&& forall|i: int|
        0 <= i < cs.len() ==> command_post(ws[i], ws[i + 1], #[trigger] cs[i], ds[i], ds[i + 1])
}

/// What one tick does to mechanic `o`, giving `m`, with the messages going
/// from `before` to `after`: the tick of its variant, for some random pick
/// among the party's members and some effect id.
pub open spec fn mechanic_ticked(
    o: MechanicEntity,
    m: MechanicEntity,
    players: Seq<PlayerEntity>,
    before: Seq<DispatchView>,
    after: Seq<DispatchView>,
) -> bool {
    match o.behaviour {
        Behaviour::Spread(_) => spread::tick_post(o, m, players, before, after),
        Behaviour::Enumeration(_) => exists|chosen: Option<EntityId>|
            {
                let members = party_entities(players, o.party.id@);
                &&& chosen matches Some(e) ==> members.contains(e)
                &&& o.phase == Phase::Assign ==> (chosen is None <==> members.len() == 0)
                &&& #[trigger] enumeration::tick_post(o, m, players, chosen, before, after)
            },
        Behaviour::Trap(_) => exists|id: u128| #[trigger]
            trap::tick_post(o, m, players, id, before, after),
    }
}

/// What a progress pass does, from world `w` and messages `o` to world `v`
/// and messages `d`: every mechanic ticks once, in table order, and those
/// that completed are destroyed.
pub open spec fn progress_post(w: World, v: World, o: Seq<DispatchView>, d: Seq<DispatchView>) -> bool {
    &&& v.players@ == w.players@
    &&& v.parties@ == w.parties@
    &&& v.next_entity == w.next_entity
    &&& exists|stepped: Seq<MechanicEntity>, ds: Seq<Seq<DispatchView>>|
        {
            &&& stepped.len() == w.mechanics@.len()
            &&& ds.len() == w.mechanics@.len() + 1
            &&& ds[0] == o
            &&& ds.last() == d
            &&& forall|k: int|
                0 <= k < stepped.len() ==> mechanic_ticked(
                    w.mechanics@[k],
                    #[trigger] stepped[k],
                    w.players@,
                    ds[k],
                    ds[k + 1],
                )
            &&& v.mechanics@ == stepped.filter(running())
        }
}

/// What applying the commands `cs` in order does, from world `w` and
/// messages `o` to world `v` and messages `d`.
pub open spec fn process_post(
    w: World,
    v: World,
    cs: Seq<MessageToEcs>,
    o: Seq<DispatchView>,
    d: Seq<DispatchView>,
) -> bool {
    exists|ws: Seq<World>, ds: Seq<Seq<DispatchView>>|
        {
            &&& command_chain(ws, ds, cs)
            &&& ws[0] == w
            &&& ws.last() == v
            &&& ds[0] == o
            &&& ds.last() == d
        }
}

impl World {
    /// How many new entities a roster update of connection `s` into party
    /// `pid` needs.
    pub open spec fn roster_ids_needed(&self, s: Sid, pid: Seq<char>) -> int {
        (if self.has_player(s) {
            0int
        } else {
            1int
        }) + (if self.has_container(pid) {
            0int
        } else {
            1int
        })
    }

    pub open spec fn has_player(&self, s: Sid) -> bool {
        exists|i: int| 0 <= i < self.players@.len() && #[trigger] self.players@[i].socket.id == s
    }

    /// Index of the player on connection `s` (meaningful when there is one).
    pub open spec fn player_index(&self, s: Sid) -> int {
        choose|i: int| 0 <= i < self.players@.len() && #[trigger] self.players@[i].socket.id == s
    }

    /// The party of the player on connection `s`, if there is such a player.
    pub open spec fn party_of(&self, s: Sid) -> Option<Seq<char>> {
        if self.has_player(s) {
            Some(self.players@[self.player_index(s)].party.id@)
        } else {
            None
        }
    }

    pub open spec fn has_container(&self, pid: Seq<char>) -> bool {
        exists|j: int| 0 <= j < self.parties@.len() && #[trigger] self.parties@[j].party.id@ == pid
    }

    pub open spec fn has_members(&self, pid: Seq<char>) -> bool {
        exists|i: int| 0 <= i < self.players@.len() && #[trigger] self.players@[i].party.id@ == pid
    }

    /// Whether a player not on connection `s` belongs to party `pid` with a
    /// content id other than `c`: one that keeps the party alive when the
    /// player on `s`, with content id `c`, leaves it.
    pub open spec fn has_rival(&self, s: Sid, pid: Seq<char>, c: u64) -> bool {
        exists|i: int|
            0 <= i < self.players@.len() && #[trigger] self.players@[i].party.id@ == pid
                && self.players@[i].socket.id != s && self.players@[i].player.content_id != c
    }

    /// Whether party `pid` counts as empty once the player on connection `s`,
    /// with content id `c`, has left it.
    pub open spec fn emptied_by(&self, s: Sid, pid: Seq<char>, c: u64) -> bool {
        !self.has_rival(s, pid, c)
    }

    pub open spec fn has_mechanic(&self, request_id: Seq<char>, pid: Seq<char>) -> bool {
        exists|k: int|
            0 <= k < self.mechanics@.len() && #[trigger] self.mechanics@[k].mechanic.request_id@
                == request_id && self.mechanics@[k].party.id@ == pid
    }

    /// Whether `e` is the container entity of party `pid`.
    pub open spec fn is_container(&self, e: EntityId, pid: Seq<char>) -> bool {
        exists|j: int|
            0 <= j < self.parties@.len() && #[trigger] self.parties@[j].party.id@ == pid
                && self.parties@[j].entity == e
    }

    pub open spec fn player_linked(&self, p: PlayerEntity) -> bool {
        self.is_container(p.parent, p.party.id@)
    }

    pub open spec fn mechanic_linked(&self, m: MechanicEntity) -> bool {
        &&& self.has_container(m.party.id@)
        &&& m.parent matches Some(e) ==> self.is_container(e, m.party.id@)
    }

    pub open spec fn ids_fresh(&self) -> bool {
        &&& forall|i: int|
            0 <= i < self.players@.len() ==> #[trigger] self.players@[i].entity < self.next_entity
        &&& forall|j: int|
            0 <= j < self.parties@.len() ==> #[trigger] self.parties@[j].entity < self.next_entity
        &&& forall|k: int|
            0 <= k < self.mechanics@.len() ==> #[trigger] self.mechanics@[k].entity
                < self.next_entity
    }

    pub open spec fn players_unique(&self) -> bool {
        forall|i: int, j: int|
            0 <= i < self.players@.len() && 0 <= j < self.players@.len() && i != j ==> {
                &&& #[trigger] self.players@[i].socket.id != #[trigger] self.players@[j].socket.id
                &&& self.players@[i].entity != self.players@[j].entity
            }
    }

    pub open spec fn parties_unique(&self) -> bool {
        forall|i: int, j: int|
            0 <= i < self.parties@.len() && 0 <= j < self.parties@.len() && i != j
                ==> #[trigger] self.parties@[i].party.id@ != #[trigger] self.parties@[j].party.id@
    }

    pub open spec fn mechanics_unique(&self) -> bool {
        unique_by(self.mechanics@, mechanic_key())
    }

    pub open spec fn has_player_entity(&self, e: EntityId) -> bool {
        exists|i: int| 0 <= i < self.players@.len() && #[trigger] self.players@[i].entity == e
    }

    pub open spec fn has_container_entity(&self, e: EntityId) -> bool {
        exists|j: int| 0 <= j < self.parties@.len() && #[trigger] self.parties@[j].entity == e
    }

    pub open spec fn has_mechanic_entity(&self, e: EntityId) -> bool {
        exists|k: int| 0 <= k < self.mechanics@.len() && #[trigger] self.mechanics@[k].entity == e
    }

    /// No two live entities share an identifier: not within a table, and not
    /// across the tables of players, party containers and mechanics.
    pub open spec fn ids_distinct(&self) -> bool {
        &&& forall|i: int, j: int|
            0 <= i < self.parties@.len() && 0 <= j < self.parties@.len() && i != j
                ==> #[trigger] self.parties@[i].entity != #[trigger] self.parties@[j].entity
        &&& unique_by(self.mechanics@, mechanic_entity())
        &&& forall|i: int, j: int|
            0 <= i < self.players@.len() && 0 <= j < self.parties@.len()
                ==> #[trigger] self.players@[i].entity != #[trigger] self.parties@[j].entity
        &&& forall|i: int, k: int|
            0 <= i < self.players@.len() && 0 <= k < self.mechanics@.len()
                ==> #[trigger] self.players@[i].entity != #[trigger] self.mechanics@[k].entity
        &&& forall|j: int, k: int|
            0 <= j < self.parties@.len() && 0 <= k < self.mechanics@.len()
                ==> #[trigger] self.parties@[j].entity != #[trigger] self.mechanics@[k].entity
    }

    /// The invariant of the world, but for parties left without players.
    pub open spec fn wf_core(&self) -> bool {
        &&& self.ids_fresh()
        &&& self.ids_distinct()
        &&& self.players_unique()
        &&& self.parties_unique()
        &&& self.mechanics_unique()
        &&& forall|i: int|
            0 <= i < self.players@.len() ==> self.player_linked(#[trigger] self.players@[i])
        &&& forall|k: int|
            0 <= k < self.mechanics@.len() ==> #[trigger] self.mechanics@[k].valid()
                && self.mechanic_linked(self.mechanics@[k])
    }

    /// Whether every party container other than that of `pid` has a player.
    pub open spec fn populated_except(&self, pid: Seq<char>) -> bool {
        forall|j: int|
            0 <= j < self.parties@.len() && #[trigger] self.parties@[j].party.id@ != pid
                ==> self.has_members(self.parties@[j].party.id@)
    }

    /// The invariant of the world: identifiers are fresh, connections, party
    /// containers and mechanic keys are unique, every child has its parent, and
    /// no party container is left without players.
    pub open spec fn wf(&self) -> bool {
        &&& self.wf_core()
        &&& forall|j: int|
            0 <= j < self.parties@.len() ==> self.has_members(#[trigger] self.parties@[j].party.id@)
    }

    /// The player on connection `s` (meaningful when there is one).
    pub open spec fn player_of(&self, s: Sid) -> PlayerEntity {
        self.players@[self.player_index(s)]
    }

    /// Whether the player on connection `t` is the same in both worlds.
    pub open spec fn keeps_player(&self, other: &World, t: Sid) -> bool {
        &&& self.has_player(t) == other.has_player(t)
        &&& self.has_player(t) ==> self.player_of(t) == other.player_of(t)
    }

    /// An empty world.
    pub fn new() -> (r: World)
        ensures
            r.wf(),
            r.players@.len() == 0,
            r.parties@.len() == 0,
            r.mechanics@.len() == 0,
    {
        World { next_entity: 0, players: Vec::new(), parties: Vec::new(), mechanics: Vec::new() }
    }

    /// Index of the player on connection `s`.
    pub fn find_socket(&self, s: Sid) -> (r: Option<usize>)
        ensures
            r matches Some(i) ==> i < self.players@.len() && self.players@[i as int].socket.id == s,
            r is None <==> !self.has_player(s),
    {
        for i in 0..self.players.len()
            invariant
                forall|j: int| 0 <= j < i ==> self.players@[j].socket.id != s,
        {
            if self.players[i].socket.id == s {
                return Some(i);
            }
        }
        None
    }

    /// Index of the container of party `pid`.
    pub fn find_party_container(&self, pid: &String) -> (r: Option<usize>)
        ensures
            r matches Some(j) ==> j < self.parties@.len() && self.parties@[j as int].party.id@
                == pid@,
            r is None <==> !self.has_container(pid@),
    {
        for j in 0..self.parties.len()
            invariant
                forall|l: int| 0 <= l < j ==> self.parties@[l].party.id@ != pid@,
        {
            if self.parties[j].party.id == *pid {
                return Some(j);
            }
        }
        None
    }

    /// Destroys the container of party `pid`, which has no player left, and
    /// every mechanic of that party.
    fn destroy_party(&mut self, pid: &String)
        requires
            old(self).wf_core(),
            old(self).populated_except(pid@),
        ensures
            final(self).wf(),
            final(self).next_entity == old(self).next_entity,
            final(self).players@ == old(self).players@.filter(outside_members(pid@)),
            final(self).mechanics@ == old(self).mechanics@.filter(outside_party(pid@)),
            !final(self).has_container(pid@),
            forall|q: Seq<char>|
                q != pid@ ==> (#[trigger] final(self).has_container(q) == old(self).has_container(q)),
    {
        let ghost before = *self;
        if let Some(j) = self.find_party_container(pid) {
            self.parties.remove(j);
            assert forall|k: int| 0 <= k < self.parties@.len() implies #[trigger] self.parties@[k]
                == before.parties@[if k < j {
                k
            } else {
                k + 1
            }] by {}
            assert forall|k: int| 0 <= k < self.parties@.len() implies before.has_container_entity(
                #[trigger] self.parties@[k].entity,
            ) by {
                let ok = if k < j {
                    k
                } else {
                    k + 1
                };
                assert(self.parties@[k] == before.parties@[ok]);
            }
            assert forall|a: int, b: int|
                0 <= a < self.parties@.len() && 0 <= b < self.parties@.len() && a != b implies #[trigger] self.parties@[a].entity
                != #[trigger] self.parties@[b].entity by {
                let oa = if a < j {
                    a
                } else {
                    a + 1
                };
                let ob = if b < j {
                    b
                } else {
                    b + 1
                };
                assert(self.parties@[a] == before.parties@[oa]);
                assert(self.parties@[b] == before.parties@[ob]);
                assert(before.parties@[oa].entity != before.parties@[ob].entity);
            }
            assert forall|q: Seq<char>, e: EntityId|
                q != pid@ implies (#[trigger] self.is_container(e, q) == before.is_container(e, q)
                    && self.has_container(q) == before.has_container(q)) by {
                if before.is_container(e, q) {
                    let w = choose|w: int|
                        0 <= w < before.parties@.len() && #[trigger] before.parties@[w].party.id@ == q
                            && before.parties@[w].entity == e;
                    assert(w != j);
                    let nw = if w < j {
                        w
                    } else {
                        w - 1
                    };
                    assert(self.parties@[nw] == before.parties@[w]);
                }
                if self.is_container(e, q) {
                    let w = choose|w: int|
                        0 <= w < self.parties@.len() && #[trigger] self.parties@[w].party.id@ == q
                            && self.parties@[w].entity == e;
                    let ow = if w < j {
                        w
                    } else {
                        w + 1
                    };
                    assert(self.parties@[w] == before.parties@[ow]);
                }
                if before.has_container(q) {
                    let w = choose|w: int|
                        0 <= w < before.parties@.len() && #[trigger] before.parties@[w].party.id@ == q;
                    assert(w != j);
                    let nw = if w < j {
                        w
                    } else {
                        w - 1
                    };
                    assert(self.parties@[nw] == before.parties@[w]);
                }
                if self.has_container(q) {
                    let w = choose|w: int|
                        0 <= w < self.parties@.len() && #[trigger] self.parties@[w].party.id@ == q;
                    let ow = if w < j {
                        w
                    } else {
                        w + 1
                    };
                    assert(self.parties@[w] == before.parties@[ow]);
                }
            }
            assert forall|q: Seq<char>| q != pid@ implies #[trigger] self.has_container(q)
                == before.has_container(q) by {
                assert(self.is_container(0, q) == before.is_container(0, q));
            }
            assert(!self.has_container(pid@)) by {
                if self.has_container(pid@) {
                    let w = choose|w: int|
                        0 <= w < self.parties@.len() && #[trigger] self.parties@[w].party.id@ == pid@;
                    let ow = if w < j {
                        w
                    } else {
                        w + 1
                    };
                    assert(self.parties@[w] == before.parties@[ow]);
                }
            }
            assert forall|k: int| 0 <= k < self.parties@.len() implies #[trigger] self.parties@[k].entity
                < self.next_entity by {
                let ok = if k < j {
                    k
                } else {
                    k + 1
                };
                assert(self.parties@[k] == before.parties@[ok]);
            }
            assert(self.parties_unique()) by {
                assert forall|a: int, b: int|
                    0 <= a < self.parties@.len() && 0 <= b < self.parties@.len() && a != b implies #[trigger] self.parties@[a].party.id@
                    != #[trigger] self.parties@[b].party.id@ by {
                    let oa = if a < j {
                        a
                    } else {
                        a + 1
                    };
                    let ob = if b < j {
                        b
                    } else {
                        b + 1
                    };
                    assert(self.parties@[a] == before.parties@[oa]);
                    assert(self.parties@[b] == before.parties@[ob]);
                }
            }
        } else {
            assert forall|k: int| 0 <= k < self.parties@.len() implies before.has_container_entity(
                #[trigger] self.parties@[k].entity,
            ) by {
                assert(self.parties@[k] == before.parties@[k]);
            }
            assert forall|q: Seq<char>, e: EntityId|
                q != pid@ implies (#[trigger] self.is_container(e, q) == before.is_container(e, q)
                    && self.has_container(q) == before.has_container(q)) by {}
            assert forall|q: Seq<char>| q != pid@ implies #[trigger] self.has_container(q)
                == before.has_container(q) by {}
        }
        let ghost cont = *self;
        assert(cont.players@ == before.players@);
        remove_party_players(&mut self.players, pid);
        let ghost mid = *self;
        assert(mid.players@ == before.players@.filter(outside_members(pid@)));
        remove_party_mechanics(&mut self.mechanics, pid);
        proof {
            lemma_sweep_players(&before, &mid, pid@);
            lemma_filter_elements(before.players@, outside_members(pid@));
            lemma_filter_unique(mid.mechanics@, outside_party(pid@), mechanic_key());
            lemma_filter_unique(mid.mechanics@, outside_party(pid@), mechanic_entity());
            lemma_filter_elements(mid.mechanics@, outside_party(pid@));
            assert forall|k: int| 0 <= k < self.mechanics@.len() implies before.has_mechanic_entity(
                #[trigger] self.mechanics@[k].entity,
            ) by {
                let w = choose|w: int|
                    0 <= w < mid.mechanics@.len() && mid.mechanics@[w] == self.mechanics@[k];
                assert(before.mechanics@[w].entity == self.mechanics@[k].entity);
            }
            assert forall|i: int| 0 <= i < self.players@.len() implies before.has_player_entity(
                #[trigger] self.players@[i].entity,
            ) && self.players@[i].entity < self.next_entity by {
                let y = choose|y: int| 0 <= y < before.players@.len() && before.players@[y] == self.players@[i];
                assert(before.players@[y].entity < before.next_entity);
            }
            assert forall|i: int| 0 <= i < self.players@.len() implies self.player_linked(
                #[trigger] self.players@[i],
            ) by {
                let y = choose|y: int| 0 <= y < before.players@.len() && before.players@[y] == self.players@[i];
                assert(before.players@[y].entity < before.next_entity);
                assert(before.player_linked(before.players@[y]));
                assert(outside_members(pid@)(self.players@[i]));
                assert(cont.is_container(self.players@[i].parent, self.players@[i].party.id@));
                assert(self.parties@ == cont.parties@);
            }
            assert forall|k: int| 0 <= k < self.parties@.len() implies before.has_container_entity(
                #[trigger] self.parties@[k].entity,
            ) by {
                assert(mid.parties@[k] == self.parties@[k]);
            }
            lemma_cross_distinct(&before, self, 3);
            assert forall|a: int, b: int|
                0 <= a < self.parties@.len() && 0 <= b < self.parties@.len() && a != b implies #[trigger] self.parties@[a].entity
                != #[trigger] self.parties@[b].entity by {
                assert(mid.parties@[a] == self.parties@[a] && mid.parties@[b] == self.parties@[b]);
            }
            assert(self.ids_distinct());
            lemma_filter_elements(mid.mechanics@, outside_party(pid@));
            assert forall|k: int| 0 <= k < self.mechanics@.len() implies #[trigger] self.mechanics@[
                k
            ].valid() && self.mechanic_linked(self.mechanics@[k]) && self.mechanics@[k].entity
                < self.next_entity by {
                let m = self.mechanics@[k];
                let w = choose|w: int| 0 <= w < mid.mechanics@.len() && mid.mechanics@[w] == m;
                assert(mid.mechanics@[w] == m);
                assert(before.mechanics@[w].valid());
                assert(before.mechanic_linked(m));
                assert(m.party.id@ != pid@);
                assert(cont.has_container(m.party.id@));
                assert(self.parties@ == cont.parties@);
                if m.parent is Some {
                    assert(before.is_container(m.parent->0, m.party.id@));
                    assert(cont.is_container(m.parent->0, m.party.id@));
                }
            }
            assert forall|j: int| 0 <= j < self.parties@.len() implies self.has_members(
                #[trigger] self.parties@[j].party.id@,
            ) by {
                assert(self.parties@[j].party.id@ != pid@);
                assert(mid.parties@[j] == self.parties@[j]);
                if self.parties@.len() < before.parties@.len() {
                    let jj = choose|jj: int|
                        0 <= jj < before.parties@.len() && before.parties@[jj]
                            == self.parties@[j];
                }
                assert(before.has_container(self.parties@[j].party.id@));
                let w = choose|w: int|
                    0 <= w < before.parties@.len() && #[trigger] before.parties@[w].party.id@
                        == self.parties@[j].party.id@;
                assert(before.has_members(before.parties@[w].party.id@));
                assert(mid.has_members(self.parties@[j].party.id@));
                assert(self.players@ == mid.players@);
            }
            assert(self.ids_fresh());
            assert(self.players@ == mid.players@);
            assert(self.players_unique());
            assert(self.parties_unique());
            assert(self.mechanics_unique());
            assert(self.ids_fresh());
            assert(self.ids_distinct());
            assert(forall|i: int|
                0 <= i < self.players@.len() ==> self.player_linked(#[trigger] self.players@[i]));
            assert forall|q: Seq<char>| q != pid@ implies #[trigger] self.has_container(q)
                == before.has_container(q) by {
                assert(cont.has_container(q) == before.has_container(q));
                assert(self.parties@ == cont.parties@);
            }
            assert(!self.has_container(pid@)) by {
                assert(!cont.has_container(pid@));
                assert(self.parties@ == cont.parties@);
            }
            assert(forall|k: int|
                0 <= k < self.mechanics@.len() ==> #[trigger] self.mechanics@[k].valid()
                    && self.mechanic_linked(self.mechanics@[k]));
            assert(self.wf_core());
        }
    }

    /// Removes the player on connection `s`, if any. When it was the last
    /// player of its party, the party's container and mechanics are destroyed;
    /// otherwise the remaining members are told the new party size.
    pub fn remove_player(&mut self, s: Sid, out: &mut Vec<Dispatch>)
        requires
            old(self).wf(),
        ensures
            final(self).wf(),
            disconnect_post(
                *old(self),
                *final(self),
                s,
                dispatches_view(old(out)@),
                dispatches_view(final(out)@),
            ),
    {
        let ghost before = *self;
        let i = match self.find_socket(s) {
            Some(i) => i,
            None => {
                return;
            },
        };
        proof {
            lemma_player_index(&before, i as int);
        }
        let removed = self.players.remove(i);
        let pid = removed.party.id;
        let c = removed.player.content_id;
        proof {
            lemma_remove_player_keeps_core(&before, self, i as int);
            assert forall|t: Sid| t != s implies #[trigger] self.keeps_player(&before, t) by {
                if before.has_player(t) {
                    let w = before.player_index(t);
                    let nw = if w < i {
                        w
                    } else {
                        w - 1
                    };
                    assert(self.players@[nw] == before.players@[w]);
                    lemma_player_index(self, nw);
                }
                if self.has_player(t) {
                    let w = self.player_index(t);
                    let ow = if w < i {
                        w
                    } else {
                        w + 1
                    };
                    assert(self.players@[w] == before.players@[ow]);
                }
            }
            assert forall|q: Seq<char>| q != pid@ implies #[trigger] self.has_members(q)
                == before.has_members(q) by {
                if before.has_members(q) {
                    let w = choose|w: int|
                        0 <= w < before.players@.len() && #[trigger] before.players@[w].party.id@ == q;
                    if w < i {
                        assert(self.players@[w] == before.players@[w]);
                    } else {
                        assert(self.players@[w - 1] == before.players@[w]);
                    }
                }
                if self.has_members(q) {
                    let w = choose|w: int|
                        0 <= w < self.players@.len() && #[trigger] self.players@[w].party.id@ == q;
                    if w < i {
                        assert(self.players@[w] == before.players@[w]);
                    } else {
                        assert(self.players@[w] == before.players@[w + 1]);
                    }
                }
            }
            assert(!self.has_player(s)) by {
                if self.has_player(s) {
                    let w = self.player_index(s);
                    if w < i {
                        assert(self.players@[w] == before.players@[w]);
                    } else {
                        assert(self.players@[w] == before.players@[w + 1]);
                    }
                }
            }
        }
        let ghost x = *self;
        proof {
            lemma_rival_kept(&before, &x, s, pid@, c);
            assert forall|j: int|
                0 <= j < x.parties@.len() && #[trigger] x.parties@[j].party.id@ != pid@ implies x.has_members(
                x.parties@[j].party.id@,
            ) by {
                assert(before.has_members(before.parties@[j].party.id@));
            }
        }
        self.leave_party(s, &pid, c, out);
        proof {
            lemma_chain_sweep(&before, &x, self, s, pid@, x.emptied_by(s, pid@, c));
            assert(kept_or_swept(*self, x, s, pid@, x.emptied_by(s, pid@, c)));
        }
    }

    /// Records the reported position and alive state of the player on
    /// connection `s`; a connection without a player is ignored.
    pub fn update_status(&mut self, s: Sid, x: i32, y: i32, z: i32, is_alive: bool)
        requires
            old(self).wf(),
        ensures
            final(self).wf(),
            status_update_post(*old(self), *final(self), s, x, y, z, is_alive),
    {
        let ghost before = *self;
        if let Some(i) = self.find_socket(s) {
            proof {
                lemma_player_index(&before, i as int);
            }
            let mut p = self.players.remove(i);
            p.position = Some(Position::new(x, y, z));
            p.state = Some(State { is_alive });
            self.players.insert(i, p);
            proof {
                assert(self.players@ == before.players@.update(i as int, p));
                assert(before.player_linked(before.players@[i as int]));
                lemma_set_player(&before, self, i as int, p);
                assert forall|j: int| 0 <= j < self.parties@.len() implies self.has_members(
                    #[trigger] self.parties@[j].party.id@,
                ) by {
                    assert(before.has_members(before.parties@[j].party.id@));
                    let w = choose|w: int|
                        0 <= w < before.players@.len() && #[trigger] before.players@[w].party.id@
                            == before.parties@[j].party.id@;
                    assert(self.players@[w].party.id@ == before.players@[w].party.id@);
                }
                lemma_player_index(self, i as int);
                assert forall|t: Sid| t != s implies #[trigger] self.keeps_player(&before, t) by {
                    if before.has_player(t) {
                        lemma_player_index(self, before.player_index(t));
                    }
                    if self.has_player(t) {
                        lemma_player_index(&before, self.player_index(t));
                    }
                }
            }
        }
    }

    /// The entity of the container of party `pid`, created when missing;
    /// `None`, with nothing changed, when no identifier is left for it.
    fn ensure_container(&mut self, pid: &String) -> (r: Option<EntityId>)
        requires
            old(self).wf_core(),
            old(self).populated_except(pid@),
        ensures
            final(self).wf_core(),
            final(self).populated_except(pid@),
            final(self).players@ == old(self).players@,
            final(self).mechanics@ == old(self).mechanics@,
            final(self).next_entity >= old(self).next_entity,
            final(self).next_entity <= old(self).next_entity + 1,
            old(self).has_container(pid@) ==> final(self).next_entity == old(self).next_entity,
            r is None <==> (!old(self).has_container(pid@) && old(self).next_entity == u64::MAX),
            r is None ==> final(self).parties@ == old(self).parties@,
            r matches Some(e) ==> final(self).is_container(e, pid@),
            forall|q: Seq<char>, e: EntityId|
                q != pid@ ==> (#[trigger] final(self).is_container(e, q) == old(self).is_container(
                    e,
                    q,
                )),
            forall|q: Seq<char>|
                q != pid@ ==> (#[trigger] final(self).has_container(q) == old(self).has_container(q)),
    {
        let ghost before = *self;
        if let Some(j) = self.find_party_container(pid) {
            return Some(self.parties[j].entity);
        }
        if self.next_entity == u64::MAX {
            return None;
        }
        let e = self.next_entity;
        self.next_entity = self.next_entity + 1;
        self.parties.push(PartyContainer { entity: e, party: Party { id: pid.clone() } });
        proof {
            let n = before.parties@.len() as int;
            assert(self.parties@[n].party.id@ == pid@);
            assert forall|k: int| 0 <= k < n implies #[trigger] self.parties@[k]
                == before.parties@[k] by {}
            assert forall|q: Seq<char>, f: EntityId|
                q != pid@ implies (#[trigger] self.is_container(f, q) == before.is_container(f, q)
                    && self.has_container(q) == before.has_container(q)) by {
                if self.is_container(f, q) {
                    let w = choose|w: int|
                        0 <= w < self.parties@.len() && #[trigger] self.parties@[w].party.id@ == q
                            && self.parties@[w].entity == f;
                    assert(w < n);
                }
                if self.has_container(q) {
                    let w = choose|w: int|
                        0 <= w < self.parties@.len() && #[trigger] self.parties@[w].party.id@ == q;
                    assert(w < n);
                }
                if before.is_container(f, q) {
                    let w = choose|w: int|
                        0 <= w < before.parties@.len() && #[trigger] before.parties@[w].party.id@ == q
                            && before.parties@[w].entity == f;
                    assert(self.parties@[w] == before.parties@[w]);
                }
                if before.has_container(q) {
                    let w = choose|w: int|
                        0 <= w < before.parties@.len() && #[trigger] before.parties@[w].party.id@ == q;
                    assert(self.parties@[w] == before.parties@[w]);
                }
            }
            assert forall|q: Seq<char>| q != pid@ implies #[trigger] self.has_container(q)
                == before.has_container(q) by {
                assert(self.is_container(0, q) == before.is_container(0, q));
            }
            assert(self.is_container(e, pid@));
            assert(self.parties_unique()) by {
                assert forall|a: int, b: int|
                    0 <= a < self.parties@.len() && 0 <= b < self.parties@.len() && a != b implies #[trigger] self.parties@[a].party.id@
                    != #[trigger] self.parties@[b].party.id@ by {
                    if a < n && b < n {
                        assert(before.parties@[a].party.id@ != before.parties@[b].party.id@);
                    } else if a < n {
                        assert(before.parties@[a].party.id@ != pid@);
                    } else if b < n {
                        assert(before.parties@[b].party.id@ != pid@);
                    }
                }
            }
            assert forall|a: int| 0 <= a < self.players@.len() implies self.player_linked(
                #[trigger] self.players@[a],
            ) by {
                let p = self.players@[a];
                assert(before.player_linked(before.players@[a]));
                assert(p.party.id@ != pid@);
            }
            assert forall|k: int| 0 <= k < self.mechanics@.len() implies #[trigger] self.mechanics@[
                k
            ].valid() && self.mechanic_linked(self.mechanics@[k]) by {
                let m = self.mechanics@[k];
                assert(before.mechanics@[k].valid());
                assert(before.mechanic_linked(m));
                assert(m.party.id@ != pid@);
                if m.parent is Some {
                    assert(before.is_container(m.parent->0, m.party.id@));
                }
            }
            assert forall|k: int| 0 <= k < self.parties@.len() implies #[trigger] self.parties@[k].entity
                < self.next_entity by {
                if k < n {
                    assert(before.parties@[k].entity < before.next_entity);
                }
            }
            assert forall|k: int| 0 <= k < self.players@.len() implies #[trigger] self.players@[k].entity
                < self.next_entity by {
                assert(before.players@[k].entity < before.next_entity);
            }
            assert forall|k: int| 0 <= k < self.mechanics@.len() implies #[trigger] self.mechanics@[k].entity
                < self.next_entity by {
                assert(before.mechanics@[k].entity < before.next_entity);
            }
            assert forall|j: int|
                0 <= j < self.parties@.len() && #[trigger] self.parties@[j].party.id@ != pid@
                implies self.has_members(self.parties@[j].party.id@) by {
                assert(before.parties@[j] == self.parties@[j]);
            }
        }
        Some(e)
    }

    /// Tells every player of party `pid` how many players the party has.
    pub fn broadcast_party_status(&self, pid: &String, out: &mut Vec<Dispatch>)
        ensures
            dispatches_view(final(out)@) == dispatches_view(old(out)@) + status_broadcast(
                self.players@,
                pid@,
            ),
    {
        let members = self.party_sockets(pid);
        let count = members.len() as u64;
        broadcast(out, &members, &Outbound::PartyStatus { connected_player_count: count });
    }

    /// Roster update: the player on connection `s` gets the given identity,
    /// role and party, and is moved under that party's container. A new
    /// connection gets a new player entity. A player that leaves a party as
    /// its last member takes the party's container and mechanics with it.
    /// The players of each party touched are told its size.
    #[verifier::rlimit(50)]
    pub fn update_player(
        &mut self,
        s: Sid,
        content_id: u64,
        name: String,
        role: Role,
        party: String,
        out: &mut Vec<Dispatch>,
    )
        requires
            old(self).wf(),
        ensures
            final(self).wf(),
            roster_update_post(
                *old(self),
                *final(self),
                s,
                content_id,
                name@,
                role,
                party@,
                dispatches_view(old(out)@),
                dispatches_view(final(out)@),
            ),
    {
        let ghost before = *self;
        let existing = self.find_socket(s);
        let has_container = self.find_party_container(&party).is_some();
        let need_player: u64 = if existing.is_some() {
            0
        } else {
            1
        };
        let need_container: u64 = if has_container {
            0
        } else {
            1
        };
        if self.next_entity > u64::MAX - need_player - need_container {
            return;
        }
        let parent = match self.ensure_container(&party) {
            Some(e) => e,
            None => {
                return;
            },
        };
        let ghost with_container = *self;
        match existing {
            Some(i) => {
                proof {
                    lemma_player_index(&before, i as int);
                }
                let mut p = self.players.remove(i);
                let old_party = p.party.id.clone();
                let old_content = p.player.content_id;
                p.player = Player { content_id, name };
                p.role = role;
                p.party = Party { id: party.clone() };
                p.parent = parent;
                self.players.insert(i, p);
                proof {
                    assert(self.players@ == with_container.players@.update(i as int, p));
                    lemma_set_player(&with_container, self, i as int, p);
                    assert forall|t: Sid| t != s implies #[trigger] self.keeps_player(&before, t) by {
                        assert(self.keeps_player(&with_container, t));
                    }
                }
                if old_party != party {
                    let ghost x = *self;
                    proof {
                        lemma_rival_kept(&before, &x, s, old_party@, old_content);
                        assert forall|j: int|
                            0 <= j < self.parties@.len() && #[trigger] self.parties@[j].party.id@
                                != old_party@ implies self.has_members(self.parties@[j].party.id@) by {
                            let q = self.parties@[j].party.id@;
                            if q != party@ {
                                assert(with_container.has_members(q));
                            }
                        }
                    }
                    self.leave_party(s, &old_party, old_content, out);
                    proof {
                        lemma_chain_sweep(&before, &x, self, s, old_party@, x.emptied_by(s, old_party@, old_content));
                        assert(kept_or_swept(*self, x, s, old_party@, x.emptied_by(s, old_party@, old_content)));
                        assert(x.player_of(s).party.id@ == party@);
                        let em = x.emptied_by(s, old_party@, old_content);
                        assert forall|t: Sid|
                            t != s && !(em && before.has_player(t) && before.player_of(t).party.id@
                                == old_party@) implies #[trigger] self.keeps_player(&before, t) by {
                            assert(kept_or_swept(*self, before, t, old_party@, em));
                        }
                        assert forall|t: Sid|
                            t != s && em && before.has_player(t) && before.player_of(t).party.id@
                                == old_party@ implies !#[trigger] self.has_player(t) by {
                            assert(kept_or_swept(*self, before, t, old_party@, em));
                        }
                    }
                } else {
                    proof {
                        assert forall|j: int| 0 <= j < self.parties@.len() implies self.has_members(
                            #[trigger] self.parties@[j].party.id@,
                        ) by {
                            let q = self.parties@[j].party.id@;
                            if q != party@ {
                                assert(with_container.has_members(q));
                            }
                        }
                    }
                }
            },
            None => {
                let e = self.next_entity;
                self.next_entity = self.next_entity + 1;
                let p = PlayerEntity {
                    entity: e,
                    parent,
                    socket: Socket { id: s },
                    player: Player { content_id, name },
                    role,
                    party: Party { id: party.clone() },
                    position: None,
                    state: None,
                };
                self.players.push(p);
                proof {
                    lemma_push_player(&with_container, self, p);
                    assert forall|t: Sid| t != s implies #[trigger] self.keeps_player(&before, t) by {
                        assert(self.keeps_player(&with_container, t));
                    }
                    assert forall|t: Sid| t != s implies #[trigger] kept_or_swept(*self, before, t, before.player_of(s).party.id@, false) by {
                        assert(self.keeps_player(&before, t));
                    }
                    assert forall|j: int| 0 <= j < self.parties@.len() implies self.has_members(
                        #[trigger] self.parties@[j].party.id@,
                    ) by {
                        let q = self.parties@[j].party.id@;
                        if q != party@ {
                            assert(with_container.has_members(q));
                        }
                    }
                }
            },
        }
        self.broadcast_party_status(&party, out);
    }

    /// Whether a live mechanic of party `pid` has this request id.
    pub fn find_mechanic(&self, request_id: &String, pid: &String) -> (r: bool)
        ensures
            r == self.has_mechanic(request_id@, pid@),
    {
        for k in 0..self.mechanics.len()
            invariant
                forall|l: int|
                    0 <= l < k ==> !(#[trigger] self.mechanics@[l].mechanic.request_id@ == request_id@
                        && self.mechanics@[l].party.id@ == pid@),
        {
            if self.mechanics[k].mechanic.request_id == *request_id && self.mechanics[k].party.id
                == *pid {
                return true;
            }
        }
        false
    }

    /// Starts a mechanic for the party of the player on connection `s`. The
    /// command is ignored when the connection has no player, when a live
    /// mechanic of that party already has this request id, when the mechanic
    /// id selects no variant, or when no entity identifier is left. A mechanic
    /// started at a place (all four values given) is parented under the
    /// party's container.
    pub fn start_mechanic(
        &mut self,
        s: Sid,
        request_id: String,
        mechanic_id: u32,
        x: Option<i32>,
        y: Option<i32>,
        z: Option<i32>,
        rotation: Option<i32>,
    )
        requires
            old(self).wf(),
        ensures
            final(self).wf(),
            start_mechanic_post(*old(self), *final(self), s, request_id@, mechanic_id, x, y, z, rotation),
    {
        let ghost before = *self;
        let i = match self.find_socket(s) {
            Some(i) => i,
            None => {
                return;
            },
        };
        proof {
            lemma_player_index(&before, i as int);
        }
        let pid = self.players[i].party.id.clone();
        if self.find_mechanic(&request_id, &pid) {
            return;
        }
        if self.next_entity == u64::MAX {
            return;
        }
        let transform = convert_to_transform(x, y, z, rotation);
        let parent = if transform.is_some() {
            Some(self.players[i].parent)
        } else {
            None
        };
        let e = self.next_entity;
        let created = create_mechanic(e, request_id, mechanic_id, pid, parent, transform);
        let m = match created {
            Some(m) => m,
            None => {
                return;
            },
        };
        self.next_entity = self.next_entity + 1;
        self.mechanics.push(m);
        proof {
            let n = before.mechanics@.len() as int;
            assert(self.mechanics@.drop_last() == before.mechanics@);
            assert(before.player_linked(before.players@[i as int]));
            assert forall|k: int| 0 <= k < n implies #[trigger] self.mechanics@[k]
                == before.mechanics@[k] by {}
            assert(self.mechanics_unique()) by {
                assert forall|a: int, b: int|
                    0 <= a < self.mechanics@.len() && 0 <= b < self.mechanics@.len() && a != b implies #[trigger] mechanic_key()(
                    self.mechanics@[a],
                ) != #[trigger] mechanic_key()(self.mechanics@[b]) by {
                    if a < n && b < n {
                        assert(mechanic_key()(before.mechanics@[a]) != mechanic_key()(
                            before.mechanics@[b],
                        ));
                    } else if a < n {
                        assert(!(before.mechanics@[a].mechanic.request_id@ == m.mechanic.request_id@
                            && before.mechanics@[a].party.id@ == m.party.id@));
                    } else if b < n {
                        assert(!(before.mechanics@[b].mechanic.request_id@ == m.mechanic.request_id@
                            && before.mechanics@[b].party.id@ == m.party.id@));
                    }
                }
            }
            assert forall|k: int| 0 <= k < self.mechanics@.len() implies #[trigger] self.mechanics@[
                k
            ].valid() && self.mechanic_linked(self.mechanics@[k]) by {
                if k < n {
                    assert(before.mechanics@[k].valid());
                    assert(before.mechanic_linked(before.mechanics@[k]));
                } else {
                    assert(self.mechanics@[k] == m);
                    assert(self.is_container(before.players@[i as int].parent, m.party.id@));
                }
            }
            assert forall|k: int| 0 <= k < self.mechanics@.len() implies #[trigger] self.mechanics@[k].entity
                < self.next_entity by {
                if k < n {
                    assert(before.mechanics@[k].entity < before.next_entity);
                }
            }
            assert forall|k: int| 0 <= k < self.players@.len() implies #[trigger] self.players@[k].entity
                < self.next_entity by {
                assert(before.players@[k].entity < before.next_entity);
            }
            assert forall|k: int| 0 <= k < self.parties@.len() implies #[trigger] self.parties@[k].entity
                < self.next_entity by {
                assert(before.parties@[k].entity < before.next_entity);
            }
            assert forall|a: int| 0 <= a < self.players@.len() implies self.player_linked(
                #[trigger] self.players@[a],
            ) by {
                assert(before.player_linked(before.players@[a]));
            }
            assert forall|j: int| 0 <= j < self.parties@.len() implies self.has_members(
                #[trigger] self.parties@[j].party.id@,
            ) by {
                assert(before.has_members(before.parties@[j].party.id@));
            }
        }
    }

    /// Destroys every live mechanic of the party of the player on connection
    /// `s`, whatever its phase; mechanics of other parties stay as they are.
    pub fn clear_mechanics(&mut self, s: Sid)
        requires
            old(self).wf(),
        ensures
            final(self).wf(),
            clear_mechanics_post(*old(self), *final(self), s),
    {
        let ghost before = *self;
        let i = match self.find_socket(s) {
            Some(i) => i,
            None => {
                return;
            },
        };
        proof {
            lemma_player_index(&before, i as int);
        }
        let pid = self.players[i].party.id.clone();
        remove_party_mechanics(&mut self.mechanics, &pid);
        proof {
            lemma_filter_unique(before.mechanics@, outside_party(pid@), mechanic_key());
            lemma_filter_elements(before.mechanics@, outside_party(pid@));
            lemma_filter_unique(before.mechanics@, outside_party(pid@), mechanic_entity());
            assert forall|k: int| 0 <= k < self.mechanics@.len() implies before.has_mechanic_entity(
                #[trigger] self.mechanics@[k].entity,
            ) by {
                let w = choose|w: int|
                    0 <= w < before.mechanics@.len() && before.mechanics@[w] == self.mechanics@[k];
                assert(before.mechanics@[w].entity == self.mechanics@[k].entity);
            }
            assert forall|i: int| 0 <= i < self.players@.len() implies before.has_player_entity(
                #[trigger] self.players@[i].entity,
            ) by {
                assert(before.players@[i] == self.players@[i]);
            }
            assert forall|k: int| 0 <= k < self.parties@.len() implies before.has_container_entity(
                #[trigger] self.parties@[k].entity,
            ) by {
                assert(before.parties@[k] == self.parties@[k]);
            }
            lemma_cross_distinct(&before, self, 3);
            assert(self.ids_distinct());
            assert forall|k: int| 0 <= k < self.mechanics@.len() implies #[trigger] self.mechanics@[
                k
            ].valid() && self.mechanic_linked(self.mechanics@[k]) && self.mechanics@[k].entity
                < self.next_entity by {
                let m = self.mechanics@[k];
                let w = choose|w: int| 0 <= w < before.mechanics@.len() && before.mechanics@[w] == m;
                assert(before.mechanics@[w].valid());
                assert(before.mechanic_linked(m));
            }
            assert forall|a: int| 0 <= a < self.players@.len() implies self.player_linked(
                #[trigger] self.players@[a],
            ) by {
                assert(before.player_linked(before.players@[a]));
            }
            assert forall|j: int| 0 <= j < self.parties@.len() implies self.has_members(
                #[trigger] self.parties@[j].party.id@,
            ) by {
                assert(before.has_members(before.parties@[j].party.id@));
            }
        }
    }

    /// Advances every mechanic by one tick, in table order, and then destroys
    /// the ones that completed. Players and party containers stay as they are.
    pub fn progress(&mut self, out: &mut Vec<Dispatch>)
        requires
            old(self).wf(),
        ensures
            final(self).wf(),
            final(self).players@ == old(self).players@,
            final(self).parties@ == old(self).parties@,
            final(self).next_entity == old(self).next_entity,
            progress_post(
                *old(self),
                *final(self),
                dispatches_view(old(out)@),
                dispatches_view(final(out)@),
            ),
    {
        let ghost before = *self;
        let mut rest: Vec<MechanicEntity> = Vec::new();
        std::mem::swap(&mut rest, &mut self.mechanics);
        let ghost orig = rest@;
        let ghost n = orig.len();
        let ghost mut stepped: Seq<MechanicEntity> = Seq::empty();
        let ghost mut ds: Seq<Seq<DispatchView>> = seq![dispatches_view(out@)];
        let ghost d0 = dispatches_view(out@);
        proof {
            assert(forall|k: int| 0 <= k < n ==> #[trigger] orig[k].valid()) by {
                assert forall|k: int| 0 <= k < n implies #[trigger] orig[k].valid() by {
                    assert(before.mechanics@[k].valid());
                }
            }
        }
        while rest.len() > 0
            invariant
                n == orig.len(),
                orig == before.mechanics@,
                before.wf(),
                forall|k: int| 0 <= k < n ==> #[trigger] orig[k].valid(),
                self.players@ == before.players@,
                self.parties@ == before.parties@,
                self.next_entity == before.next_entity,
                stepped.len() + rest@.len() == n,
                rest@ == orig.subrange(stepped.len() as int, n as int),
                forall|k: int|
                    0 <= k < stepped.len() ==> advanced(orig[k], #[trigger] stepped[k]) && (
                    stepped[k].phase != Phase::Complete ==> stepped[k].valid()),
                self.mechanics@ == stepped.filter(running()),
                ds.len() == stepped.len() + 1,
                ds[0] == d0,
                ds.last() == dispatches_view(out@),
                forall|k: int|
                    0 <= k < stepped.len() ==> mechanic_ticked(
                        orig[k],
                        #[trigger] stepped[k],
                        before.players@,
                        ds[k],
                        ds[k + 1],
                    ),
            decreases rest@.len(),
        {
            let mut m = rest.remove(0);
            assert(m == orig[stepped.len() as int]);
            let ghost om = m;
            let ghost od = dispatches_view(out@);
            assert(entities_unique(self.players@)) by {
                assert forall|a: int, b: int|
                    0 <= a < self.players@.len() && 0 <= b < self.players@.len() && a != b implies #[trigger] self.players@[a].entity
                    != #[trigger] self.players@[b].entity by {
                    assert(before.players@[a].socket.id != before.players@[b].socket.id);
                }
            }
            match m.behaviour {
                Behaviour::Spread(_) => {
                    spread::tick(&mut m, &self.players, out);
                },
                Behaviour::Enumeration(_) => {
                    let chosen = if m.phase == Phase::Assign {
                        let (candidates, _) = party_members(&self.players, &m.party.id);
                        choose_entity(&candidates)
                    } else {
                        None
                    };
                    enumeration::tick(&mut m, &self.players, chosen, out);
                    assert(mechanic_ticked(om, m, before.players@, od, dispatches_view(out@)));
                },
                Behaviour::Trap(_) => {
                    let id = if m.vfx.is_none() {
                        new_vfx_id()
                    } else {
                        0
                    };
                    trap::tick(&mut m, &self.players, id, out);
                    assert(mechanic_ticked(om, m, before.players@, od, dispatches_view(out@)));
                },
            }
            proof {
                reveal(Seq::filter);
                let old_stepped = stepped;
                let old_ds = ds;
                stepped = stepped.push(m);
                ds = ds.push(dispatches_view(out@));
                assert(stepped.drop_last() == old_stepped);
                assert forall|k: int| 0 <= k < stepped.len() implies mechanic_ticked(
                    orig[k],
                    #[trigger] stepped[k],
                    before.players@,
                    ds[k],
                    ds[k + 1],
                ) by {
                    if k < old_stepped.len() {
                        assert(stepped[k] == old_stepped[k]);
                        assert(ds[k] == old_ds[k] && ds[k + 1] == old_ds[k + 1]);
                    }
                }
            }
            if m.phase != Phase::Complete {
                self.mechanics.push(m);
            }
            assert(rest@ == orig.subrange(stepped.len() as int, n as int));
        }
        proof {
            let key = mechanic_key();
            assert(unique_by(stepped, key)) by {
                assert forall|a: int, b: int|
                    0 <= a < stepped.len() && 0 <= b < stepped.len() && a != b implies #[trigger] key(
                    stepped[a],
                ) != #[trigger] key(stepped[b]) by {
                    assert(advanced(orig[a], stepped[a]));
                    assert(advanced(orig[b], stepped[b]));
                    assert(key(orig[a]) != key(orig[b]));
                }
            }
            let ekey = mechanic_entity();
            assert(unique_by(stepped, ekey)) by {
                assert forall|a: int, b: int|
                    0 <= a < stepped.len() && 0 <= b < stepped.len() && a != b implies #[trigger] ekey(
                    stepped[a],
                ) != #[trigger] ekey(stepped[b]) by {
                    assert(advanced(orig[a], stepped[a]));
                    assert(advanced(orig[b], stepped[b]));
                    assert(ekey(orig[a]) != ekey(orig[b]));
                }
            }
            lemma_filter_unique(stepped, running(), key);
            lemma_filter_unique(stepped, running(), ekey);
            lemma_filter_elements(stepped, running());
            assert forall|k: int| 0 <= k < self.mechanics@.len() implies before.has_mechanic_entity(
                #[trigger] self.mechanics@[k].entity,
            ) by {
                let w = choose|w: int| 0 <= w < stepped.len() && stepped[w] == self.mechanics@[k];
                assert(advanced(orig[w], stepped[w]));
                assert(before.mechanics@[w].entity == self.mechanics@[k].entity);
            }
            assert forall|i: int| 0 <= i < self.players@.len() implies before.has_player_entity(
                #[trigger] self.players@[i].entity,
            ) by {
                assert(before.players@[i] == self.players@[i]);
            }
            assert forall|k: int| 0 <= k < self.parties@.len() implies before.has_container_entity(
                #[trigger] self.parties@[k].entity,
            ) by {
                assert(before.parties@[k] == self.parties@[k]);
            }
            lemma_cross_distinct(&before, self, 3);
            assert forall|a: int, b: int|
                0 <= a < self.parties@.len() && 0 <= b < self.parties@.len() && a != b implies #[trigger] self.parties@[a].entity
                != #[trigger] self.parties@[b].entity by {
                assert(before.parties@[a] == self.parties@[a] && before.parties@[b] == self.parties@[b]);
            }
            assert(self.ids_distinct());
            assert forall|k: int| 0 <= k < self.mechanics@.len() implies #[trigger] self.mechanics@[
                k
            ].valid() && self.mechanic_linked(self.mechanics@[k]) && self.mechanics@[k].entity
                < self.next_entity by {
                let m = self.mechanics@[k];
                let w = choose|w: int| 0 <= w < stepped.len() && stepped[w] == m;
                assert(advanced(orig[w], stepped[w]));
                assert(before.mechanics@[w].valid());
                assert(before.mechanic_linked(orig[w]));
                assert(before.mechanics@[w].entity < before.next_entity);
            }
            assert forall|a: int| 0 <= a < self.players@.len() implies self.player_linked(
                #[trigger] self.players@[a],
            ) by {
                assert(before.player_linked(before.players@[a]));
            }
            assert forall|j: int| 0 <= j < self.parties@.len() implies self.has_members(
                #[trigger] self.parties@[j].party.id@,
            ) by {
                assert(before.has_members(before.parties@[j].party.id@));
            }
            assert forall|k: int| 0 <= k < self.players@.len() implies #[trigger] self.players@[k].entity
                < self.next_entity by {
                assert(before.players@[k].entity < before.next_entity);
            }
            assert forall|k: int| 0 <= k < self.parties@.len() implies #[trigger] self.parties@[k].entity
                < self.next_entity by {
                assert(before.parties@[k].entity < before.next_entity);
            }
            assert(self.ids_fresh());
            assert(self.players_unique());
            assert(self.parties_unique());
            assert(self.mechanics_unique());
            assert(progress_post(before, *self, d0, dispatches_view(out@)));
        }
    }

    /// Applies one command.
    pub fn apply(&mut self, c: MessageToEcs, out: &mut Vec<Dispatch>)
        requires
            old(self).wf(),
        ensures
            final(self).wf(),
            command_post(
                *old(self),
                *final(self),
                c,
                dispatches_view(old(out)@),
                dispatches_view(final(out)@),
            ),
    {
        match c {
            MessageToEcs::UpdatePlayer { socket_id, content_id, name, role, party } => {
                self.update_player(socket_id, content_id, name, role, party, out);
            },
            MessageToEcs::UpdateStatus {
                socket_id,
                world_position_x,
                world_position_y,
                world_position_z,
                is_alive,
            } => {
                self.update_status(
                    socket_id,
                    world_position_x,
                    world_position_y,
                    world_position_z,
                    is_alive,
                );
            },
            MessageToEcs::RemovePlayer { socket_id } => {
                self.remove_player(socket_id, out);
            },
            MessageToEcs::StartMechanic { socket_id, request_id, mechanic_id, x, y, z, rotation } => {
                self.start_mechanic(socket_id, request_id, mechanic_id, x, y, z, rotation);
            },
            MessageToEcs::ClearMechanics { socket_id } => {
                self.clear_mechanics(socket_id);
            },
        }
    }

    /// Applies the commands in the order they were queued, each to the world
    /// that the one before it left.
    pub fn process_messages(&mut self, messages: Vec<MessageToEcs>, out: &mut Vec<Dispatch>)
        requires
            old(self).wf(),
        ensures
            final(self).wf(),
            process_post(
                *old(self),
                *final(self),
                messages@,
                dispatches_view(old(out)@),
                dispatches_view(final(out)@),
            ),
    {
        let ghost cs = messages@;
        let ghost mut ws: Seq<World> = seq![*self];
        let ghost mut ds: Seq<Seq<DispatchView>> = seq![dispatches_view(out@)];
        let ghost w0 = *self;
        let ghost d0 = dispatches_view(out@);
        let mut rest = messages;
        while rest.len() > 0
            invariant
                self.wf(),
                rest@ == cs.subrange(ws.len() - 1, cs.len() as int),
                ws.len() <= cs.len() + 1,
                ws.len() == ds.len(),
                command_chain(ws, ds, cs.subrange(0, ws.len() - 1)),
                ws[0] == w0,
                ds[0] == d0,
                ws.last() == *self,
                ds.last() == dispatches_view(out@),
            decreases rest@.len(),
        {
            let c = rest.remove(0);
            let ghost k = ws.len() - 1;
            assert(c == cs[k]);
            self.apply(c, out);
            proof {
                let old_ws = ws;
                let old_ds = ds;
                ws = ws.push(*self);
                ds = ds.push(dispatches_view(out@));
                let sub = cs.subrange(0, ws.len() - 1);
                assert forall|i: int| 0 <= i < sub.len() implies command_post(
                    ws[i],
                    ws[i + 1],
                    #[trigger] sub[i],
                    ds[i],
                    ds[i + 1],
                ) by {
                    if i < k {
                        assert(sub[i] == cs.subrange(0, k)[i]);
                        assert(ws[i] == old_ws[i] && ws[i + 1] == old_ws[i + 1]);
                        assert(ds[i] == old_ds[i] && ds[i + 1] == old_ds[i + 1]);
                    } else {
                        assert(sub[i] == cs[k]);
                    }
                }
                assert forall|i: int| 0 <= i < ws.len() implies (#[trigger] ws[i]).wf() by {
                    if i < k + 1 {
                        assert(ws[i] == old_ws[i]);
                    }
                }
            }
            assert(rest@ == cs.subrange(ws.len() - 1, cs.len() as int));
        }
        assert(cs.subrange(0, ws.len() - 1) == cs);
        assert(process_post(w0, *self, cs, d0, dispatches_view(out@)));
    }

    /// One tick of the simulation: the queued commands are applied in order,
    /// and then every mechanic advances by one step.
    pub fn run_tick(&mut self, messages: Vec<MessageToEcs>) -> (r: Vec<Dispatch>)
        requires
            old(self).wf(),
        ensures
            final(self).wf(),
            exists|mid: World, d: Seq<DispatchView>|
                {
                    &&& mid.wf()
                    &&& process_post(*old(self), mid, messages@, Seq::empty(), d)
                    &&& progress_post(mid, *final(self), d, dispatches_view(r@))
                },
    {
        let mut out: Vec<Dispatch> = Vec::new();
        assert(dispatches_view(out@) == Seq::<DispatchView>::empty());
        self.process_messages(messages, &mut out);
        let ghost mid = *self;
        let ghost d = dispatches_view(out@);
        self.progress(&mut out);
        assert(mid.wf());
        out
    }

    /// Whether a player not on connection `s` belongs to party `pid` with a
    /// content id other than `c`.
    pub fn find_rival(&self, s: Sid, pid: &String, c: u64) -> (r: bool)
        ensures
            r == self.has_rival(s, pid@, c),
    {
        for i in 0..self.players.len()
            invariant
                forall|j: int|
                    0 <= j < i ==> !(#[trigger] self.players@[j].party.id@ == pid@
                        && self.players@[j].socket.id != s && self.players@[j].player.content_id
                        != c),
        {
            if self.players[i].party.id == *pid && !(self.players[i].socket.id == s)
                && self.players[i].player.content_id != c {
                return true;
            }
        }
        false
    }

    /// The player on connection `s`, with content id `c`, has just left
    /// party `pid`. When no member with another content id is left, the party
    /// is destroyed with everything of it; otherwise the members are told the
    /// new party size.
    fn leave_party(&mut self, s: Sid, pid: &String, c: u64, out: &mut Vec<Dispatch>)
        requires
            old(self).wf_core(),
            old(self).populated_except(pid@),
        ensures
            final(self).wf(),
            final(self).next_entity == old(self).next_entity,
            forall|t: Sid|
                #[trigger] kept_or_swept(*final(self), *old(self), t, pid@, old(self).emptied_by(s, pid@, c)),
            !old(self).has_rival(s, pid@, c) ==> {
                &&& !final(self).has_container(pid@)
                &&& !final(self).has_members(pid@)
                &&& final(self).mechanics@ == old(self).mechanics@.filter(outside_party(pid@))
                &&& forall|q: Seq<char>|
                    q != pid@ ==> (#[trigger] final(self).has_container(q) == old(self).has_container(q))
                &&& final(out)@ == old(out)@
            },
            old(self).has_rival(s, pid@, c) ==> {
                &&& final(self).players@ == old(self).players@
                &&& final(self).parties@ == old(self).parties@
                &&& final(self).mechanics@ == old(self).mechanics@
                &&& final(self).has_members(pid@)
                &&& dispatches_view(final(out)@) == dispatches_view(old(out)@) + status_broadcast(
                    final(self).players@,
                    pid@,
                )
            },
    {
        let ghost before = *self;
        if self.find_rival(s, pid, c) {
            proof {
                let i = choose|i: int|
                    0 <= i < self.players@.len() && #[trigger] self.players@[i].party.id@ == pid@
                        && self.players@[i].socket.id != s && self.players@[i].player.content_id != c;
                assert(self.has_members(pid@));
                assert forall|t: Sid| #[trigger] kept_or_swept(*self, before, t, pid@, false) by {}
                assert forall|j: int| 0 <= j < self.parties@.len() implies self.has_members(
                    #[trigger] self.parties@[j].party.id@,
                ) by {
                    if self.parties@[j].party.id@ != pid@ {
                    }
                }
            }
            self.broadcast_party_status(pid, out);
        } else {
            self.destroy_party(pid);
            proof {
                lemma_sweep_players(&before, self, pid@);
            }
        }
    }

    /// Connections of the players of party `pid`, in table order.
    pub fn party_sockets(&self, pid: &String) -> (r: Vec<Sid>)
        ensures
            r@ == member_sockets(self.players@, pid@),
    {
        member_socket_list(&self.players, pid)
    }
}

/// Whether a player belongs to a party other than `pid`.
pub open spec fn outside_members(pid: Seq<char>) -> spec_fn(PlayerEntity) -> bool {
    |p: PlayerEntity| p.party.id@ != pid
}

/// Whether a mechanic belongs to a party other than `pid`.
pub open spec fn outside_party(pid: Seq<char>) -> spec_fn(MechanicEntity) -> bool {
    |m: MechanicEntity| m.party.id@ != pid
}

/// What no two mechanics may share: the request id and the party.
pub open spec fn mechanic_key() -> spec_fn(MechanicEntity) -> (Seq<char>, Seq<char>) {
    |m: MechanicEntity| (m.mechanic.request_id@, m.party.id@)
}

/// Whether a mechanic is still running.
pub open spec fn running() -> spec_fn(MechanicEntity) -> bool {
    |m: MechanicEntity| m.phase != Phase::Complete
}

/// The entity of a mechanic.
pub open spec fn mechanic_entity() -> spec_fn(MechanicEntity) -> EntityId {
    |m: MechanicEntity| m.entity
}

/// Keys that are pairwise different along a sequence.
pub open spec fn unique_by<A, K>(s: Seq<A>, key: spec_fn(A) -> K) -> bool {
    forall|i: int, j: int|
        0 <= i < s.len() && 0 <= j < s.len() && i != j ==> #[trigger] key(s[i]) != #[trigger] key(
            s[j],
        )
}

/// Keeping part of a sequence keeps its keys pairwise different.
pub proof fn lemma_filter_unique<A, K>(s: Seq<A>, p: spec_fn(A) -> bool, key: spec_fn(A) -> K)
    requires
        unique_by(s, key),
    ensures
        unique_by(s.filter(p), key),
    decreases s.len(),
{
    reveal(Seq::filter);
    if s.len() > 0 {
        let d = s.drop_last();
        assert(unique_by(d, key)) by {
            assert forall|i: int, j: int|
                0 <= i < d.len() && 0 <= j < d.len() && i != j implies #[trigger] key(d[i])
                != #[trigger] key(d[j]) by {
                assert(d[i] == s[i] && d[j] == s[j]);
            }
        }
        lemma_filter_unique(d, p, key);
        let f = d.filter(p);
        if p(s.last()) {
            assert forall|i: int| 0 <= i < f.len() implies key(#[trigger] f[i]) != key(s.last()) by {
                d.lemma_filter_contains_rev(p, f[i]);
                let w = choose|w: int| 0 <= w < d.len() && d[w] == f[i];
                assert(s[w] == f[i]);
                assert(key(s[w]) != key(s[s.len() - 1]));
            }
            let g = f.push(s.last());
            assert(s.filter(p) == g);
            assert forall|i: int, j: int|
                0 <= i < g.len() && 0 <= j < g.len() && i != j implies #[trigger] key(g[i])
                != #[trigger] key(g[j]) by {
                if i < f.len() && j < f.len() {
                    assert(g[i] == f[i] && g[j] == f[j]);
                } else if i < f.len() {
                    assert(g[i] == f[i]);
                } else if j < f.len() {
                    assert(g[j] == f[j]);
                }
            }
        } else {
            assert(s.filter(p) == f);
        }
    }
}

/// What a filter keeps comes from the sequence and meets the predicate.
pub proof fn lemma_filter_elements<A>(s: Seq<A>, p: spec_fn(A) -> bool)
    ensures
        forall|i: int|
            0 <= i < s.filter(p).len() ==> p(#[trigger] s.filter(p)[i]) && s.contains(
                s.filter(p)[i],
            ),
{
    assert forall|i: int| 0 <= i < s.filter(p).len() implies p(#[trigger] s.filter(p)[i])
        && s.contains(s.filter(p)[i]) by {
        s.lemma_filter_pred(p, i);
        assert(s.filter(p).contains(s.filter(p)[i]));
        s.lemma_filter_contains_rev(p, s.filter(p)[i]);
    }
}

/// A party has no connections listed exactly when no player belongs to it.
pub proof fn lemma_member_sockets_empty(players: Seq<PlayerEntity>, pid: Seq<char>)
    ensures
        member_sockets(players, pid).len() == 0 <==> forall|i: int|
            0 <= i < players.len() ==> #[trigger] players[i].party.id@ != pid,
    decreases players.len(),
{
    if players.len() > 0 {
        let d = players.drop_last();
        lemma_member_sockets_empty(d, pid);
        assert forall|i: int| 0 <= i < d.len() implies #[trigger] d[i] == players[i] by {}
        if players.last().party.id@ != pid {
            if member_sockets(players, pid).len() == 0 {
                assert forall|i: int| 0 <= i < players.len() implies #[trigger] players[i].party.id@
                    != pid by {
                    if i < d.len() {
                        assert(d[i] == players[i]);
                    }
                }
            }
        }
    }
}

/// The connection at index `i` is the one that `player_index` names.
pub proof fn lemma_player_index(w: &World, i: int)
    requires
        w.players_unique(),
        0 <= i < w.players@.len(),
    ensures
        w.has_player(w.players@[i].socket.id),
        w.player_index(w.players@[i].socket.id) == i,
{
    let s = w.players@[i].socket.id;
    assert(w.has_player(s));
    let j = w.player_index(s);
    assert(w.players@[j].socket.id == s);
}

/// Cross-table distinctness of identifiers carries over to a world whose
/// entities all come from `before`, but for fresh ones in at most one table
/// (`fresh`: 0 players, 1 containers, 2 mechanics, anything else none).
pub proof fn lemma_cross_distinct(before: &World, after: &World, fresh: int)
    requires
        before.ids_fresh(),
        before.ids_distinct(),
        forall|i: int|
            0 <= i < after.players@.len() ==> before.has_player_entity(
                #[trigger] after.players@[i].entity,
            ) || (fresh == 0 && after.players@[i].entity >= before.next_entity),
        forall|j: int|
            0 <= j < after.parties@.len() ==> before.has_container_entity(
                #[trigger] after.parties@[j].entity,
            ) || (fresh == 1 && after.parties@[j].entity >= before.next_entity),
        forall|k: int|
            0 <= k < after.mechanics@.len() ==> before.has_mechanic_entity(
                #[trigger] after.mechanics@[k].entity,
            ) || (fresh == 2 && after.mechanics@[k].entity >= before.next_entity),
    ensures
        forall|i: int, j: int|
            0 <= i < after.players@.len() && 0 <= j < after.parties@.len()
                ==> #[trigger] after.players@[i].entity != #[trigger] after.parties@[j].entity,
        forall|i: int, k: int|
            0 <= i < after.players@.len() && 0 <= k < after.mechanics@.len()
                ==> #[trigger] after.players@[i].entity != #[trigger] after.mechanics@[k].entity,
        forall|j: int, k: int|
            0 <= j < after.parties@.len() && 0 <= k < after.mechanics@.len()
                ==> #[trigger] after.parties@[j].entity != #[trigger] after.mechanics@[k].entity,
{
    assert forall|i: int, j: int|
        0 <= i < after.players@.len() && 0 <= j < after.parties@.len() implies #[trigger] after.players@[i].entity
        != #[trigger] after.parties@[j].entity by {
        let a = after.players@[i].entity;
        let b = after.parties@[j].entity;
        if before.has_player_entity(a) && before.has_container_entity(b) {
            let x = choose|x: int| 0 <= x < before.players@.len() && #[trigger] before.players@[x].entity == a;
            let y = choose|y: int| 0 <= y < before.parties@.len() && #[trigger] before.parties@[y].entity == b;
            assert(before.players@[x].entity != before.parties@[y].entity);
        } else if before.has_player_entity(a) {
            let x = choose|x: int| 0 <= x < before.players@.len() && #[trigger] before.players@[x].entity == a;
            assert(before.players@[x].entity < before.next_entity);
        } else if before.has_container_entity(b) {
            let y = choose|y: int| 0 <= y < before.parties@.len() && #[trigger] before.parties@[y].entity == b;
            assert(before.parties@[y].entity < before.next_entity);
        }
    }
    assert forall|i: int, k: int|
        0 <= i < after.players@.len() && 0 <= k < after.mechanics@.len() implies #[trigger] after.players@[i].entity
        != #[trigger] after.mechanics@[k].entity by {
        let a = after.players@[i].entity;
        let b = after.mechanics@[k].entity;
        if before.has_player_entity(a) && before.has_mechanic_entity(b) {
            let x = choose|x: int| 0 <= x < before.players@.len() && #[trigger] before.players@[x].entity == a;
            let y = choose|y: int| 0 <= y < before.mechanics@.len() && #[trigger] before.mechanics@[y].entity == b;
            assert(before.players@[x].entity != before.mechanics@[y].entity);
        } else if before.has_player_entity(a) {
            let x = choose|x: int| 0 <= x < before.players@.len() && #[trigger] before.players@[x].entity == a;
            assert(before.players@[x].entity < before.next_entity);
        } else if before.has_mechanic_entity(b) {
            let y = choose|y: int| 0 <= y < before.mechanics@.len() && #[trigger] before.mechanics@[y].entity == b;
            assert(before.mechanics@[y].entity < before.next_entity);
        }
    }
    assert forall|j: int, k: int|
        0 <= j < after.parties@.len() && 0 <= k < after.mechanics@.len() implies #[trigger] after.parties@[j].entity
        != #[trigger] after.mechanics@[k].entity by {
        let a = after.parties@[j].entity;
        let b = after.mechanics@[k].entity;
        if before.has_container_entity(a) && before.has_mechanic_entity(b) {
            let x = choose|x: int| 0 <= x < before.parties@.len() && #[trigger] before.parties@[x].entity == a;
            let y = choose|y: int| 0 <= y < before.mechanics@.len() && #[trigger] before.mechanics@[y].entity == b;
            assert(before.parties@[x].entity != before.mechanics@[y].entity);
        } else if before.has_container_entity(a) {
            let x = choose|x: int| 0 <= x < before.parties@.len() && #[trigger] before.parties@[x].entity == a;
            assert(before.parties@[x].entity < before.next_entity);
        } else if before.has_mechanic_entity(b) {
            let y = choose|y: int| 0 <= y < before.mechanics@.len() && #[trigger] before.mechanics@[y].entity == b;
            assert(before.mechanics@[y].entity < before.next_entity);
        }
    }
}

/// Taking one player out of the table keeps the invariant's core.
pub proof fn lemma_remove_player_keeps_core(before: &World, after: &World, i: int)
    requires
        before.wf_core(),
        0 <= i < before.players@.len(),
        after.players@ == before.players@.remove(i),
        after.parties@ == before.parties@,
        after.mechanics@ == before.mechanics@,
        after.next_entity == before.next_entity,
    ensures
        after.wf_core(),
{
    assert forall|a: int| 0 <= a < after.players@.len() implies #[trigger] after.players@[a]
        == before.players@[if a < i {
        a
    } else {
        a + 1
    }] by {}
    assert forall|a: int, b: int|
        0 <= a < after.players@.len() && 0 <= b < after.players@.len() && a != b implies {
        &&& #[trigger] after.players@[a].socket.id != #[trigger] after.players@[b].socket.id
        &&& after.players@[a].entity != after.players@[b].entity
    } by {
        let oa = if a < i {
            a
        } else {
            a + 1
        };
        let ob = if b < i {
            b
        } else {
            b + 1
        };
        assert(after.players@[a] == before.players@[oa]);
        assert(after.players@[b] == before.players@[ob]);
        assert(before.players@[oa].socket.id != before.players@[ob].socket.id);
    }
    assert forall|a: int| 0 <= a < after.players@.len() implies after.player_linked(
        #[trigger] after.players@[a],
    ) by {
        let oa = if a < i {
            a
        } else {
            a + 1
        };
        assert(before.player_linked(before.players@[oa]));
    }
    assert forall|a: int| 0 <= a < after.players@.len() implies #[trigger] after.players@[a].entity
        < after.next_entity by {
        let oa = if a < i {
            a
        } else {
            a + 1
        };
        assert(after.players@[a] == before.players@[oa]);
    }
    assert forall|k: int| 0 <= k < after.mechanics@.len() implies #[trigger] after.mechanics@[
        k
    ].valid() && after.mechanic_linked(after.mechanics@[k]) by {
        assert(before.mechanics@[k].valid());
        assert(before.mechanic_linked(before.mechanics@[k]));
    }
}

/// Writing a player record over index `i` keeps the invariant's core when the
/// record keeps its connection and entity and names its container.
pub proof fn lemma_set_player(before: &World, after: &World, i: int, p: PlayerEntity)
    requires
        before.wf_core(),
        0 <= i < before.players@.len(),
        after.players@ == before.players@.update(i, p),
        after.parties@ == before.parties@,
        after.mechanics@ == before.mechanics@,
        after.next_entity == before.next_entity,
        p.socket == before.players@[i].socket,
        p.entity == before.players@[i].entity,
        before.is_container(p.parent, p.party.id@),
    ensures
        after.wf_core(),
        forall|t: Sid| t != p.socket.id ==> #[trigger] after.keeps_player(before, t),
        forall|q: Seq<char>|
            q != before.players@[i].party.id@ && q != p.party.id@ ==> #[trigger] after.has_members(
                q,
            ) == before.has_members(q),
        after.has_members(p.party.id@),
        after.has_player(p.socket.id),
        after.player_of(p.socket.id) == p,
{
    assert forall|a: int| 0 <= a < after.players@.len() && a != i implies #[trigger] after.players@[a]
        == before.players@[a] by {}
    assert(after.players_unique()) by {
        assert forall|a: int, b: int|
            0 <= a < after.players@.len() && 0 <= b < after.players@.len() && a != b implies {
            &&& #[trigger] after.players@[a].socket.id != #[trigger] after.players@[b].socket.id
            &&& after.players@[a].entity != after.players@[b].entity
        } by {
            assert(before.players@[a].socket.id != before.players@[b].socket.id);
        }
    }
    assert forall|a: int| 0 <= a < after.players@.len() implies after.player_linked(
        #[trigger] after.players@[a],
    ) by {
        assert(before.player_linked(before.players@[a]));
    }
    assert forall|a: int| 0 <= a < after.players@.len() implies #[trigger] after.players@[a].entity
        < after.next_entity by {
        assert(before.players@[a].entity < before.next_entity);
    }
    assert forall|k: int| 0 <= k < after.mechanics@.len() implies #[trigger] after.mechanics@[
        k
    ].valid() && after.mechanic_linked(after.mechanics@[k]) by {
        assert(before.mechanics@[k].valid());
        assert(before.mechanic_linked(before.mechanics@[k]));
    }
    assert forall|q: Seq<char>|
        q != before.players@[i].party.id@ && q != p.party.id@ implies #[trigger] after.has_members(q)
        == before.has_members(q) by {
        if before.has_members(q) {
            let w = choose|w: int|
                0 <= w < before.players@.len() && #[trigger] before.players@[w].party.id@ == q;
            assert(after.players@[w] == before.players@[w]);
        }
        if after.has_members(q) {
            let w = choose|w: int|
                0 <= w < after.players@.len() && #[trigger] after.players@[w].party.id@ == q;
            assert(after.players@[w] == before.players@[w]);
        }
    }
    assert forall|a: int| 0 <= a < after.parties@.len() implies #[trigger] after.parties@[a].entity
        < after.next_entity by {
        assert(before.parties@[a].entity < before.next_entity);
    }
    assert forall|a: int| 0 <= a < after.mechanics@.len() implies #[trigger] after.mechanics@[a].entity
        < after.next_entity by {
        assert(before.mechanics@[a].entity < before.next_entity);
    }
    assert(after.ids_fresh());
    assert(after.players_unique());
    assert(after.parties_unique());
    assert(after.mechanics_unique());
    assert(after.players@[i] == p);
    lemma_player_index(after, i);
    assert forall|t: Sid| t != p.socket.id implies #[trigger] after.keeps_player(before, t) by {
        if before.has_player(t) {
            lemma_player_index(after, before.player_index(t));
        }
        if after.has_player(t) {
            lemma_player_index(before, after.player_index(t));
        }
    }
}

/// Appending a new player with a fresh entity, on a connection that has no
/// player yet and under an existing container, keeps the invariant's core.
pub proof fn lemma_push_player(before: &World, after: &World, p: PlayerEntity)
    requires
        before.wf_core(),
        after.players@ == before.players@.push(p),
        after.parties@ == before.parties@,
        after.mechanics@ == before.mechanics@,
        after.next_entity == before.next_entity + 1,
        p.entity == before.next_entity,
        !before.has_player(p.socket.id),
        p.position is None,
        before.is_container(p.parent, p.party.id@),
    ensures
        after.wf_core(),
        forall|t: Sid| t != p.socket.id ==> #[trigger] after.keeps_player(before, t),
        forall|q: Seq<char>| #[trigger] before.has_members(q) ==> after.has_members(q),
        after.has_members(p.party.id@),
        after.has_player(p.socket.id),
        after.player_of(p.socket.id) == p,
{
    let n = before.players@.len() as int;
    assert forall|a: int| 0 <= a < n implies #[trigger] after.players@[a] == before.players@[a] by {}
    assert(after.players_unique()) by {
        assert forall|a: int, b: int|
            0 <= a < after.players@.len() && 0 <= b < after.players@.len() && a != b implies {
            &&& #[trigger] after.players@[a].socket.id != #[trigger] after.players@[b].socket.id
            &&& after.players@[a].entity != after.players@[b].entity
        } by {
            if a < n && b < n {
                assert(before.players@[a].socket.id != before.players@[b].socket.id);
            } else if a < n {
                assert(before.players@[a].entity < before.next_entity);
                assert(before.players@[a].socket.id != p.socket.id);
            } else if b < n {
                assert(before.players@[b].entity < before.next_entity);
                assert(before.players@[b].socket.id != p.socket.id);
            }
        }
    }
    assert forall|a: int| 0 <= a < after.players@.len() implies after.player_linked(
        #[trigger] after.players@[a],
    ) by {
        if a < n {
            assert(before.player_linked(before.players@[a]));
        }
    }
    assert forall|a: int| 0 <= a < after.players@.len() implies #[trigger] after.players@[a].entity
        < after.next_entity by {
        if a < n {
            assert(before.players@[a].entity < before.next_entity);
        }
    }
    assert forall|a: int| 0 <= a < after.parties@.len() implies #[trigger] after.parties@[a].entity
        < after.next_entity by {
        assert(before.parties@[a].entity < before.next_entity);
    }
    assert forall|a: int| 0 <= a < after.mechanics@.len() implies #[trigger] after.mechanics@[a].entity
        < after.next_entity by {
        assert(before.mechanics@[a].entity < before.next_entity);
    }
    assert forall|k: int| 0 <= k < after.mechanics@.len() implies #[trigger] after.mechanics@[
        k
    ].valid() && after.mechanic_linked(after.mechanics@[k]) by {
        assert(before.mechanics@[k].valid());
        assert(before.mechanic_linked(before.mechanics@[k]));
    }
    assert forall|q: Seq<char>| #[trigger] before.has_members(q) implies after.has_members(q) by {
        let w = choose|w: int|
            0 <= w < before.players@.len() && #[trigger] before.players@[w].party.id@ == q;
        assert(after.players@[w] == before.players@[w]);
    }
    assert(after.players@[n] == p);
    lemma_player_index(after, n);
    assert forall|t: Sid| t != p.socket.id implies #[trigger] after.keeps_player(before, t) by {
        if before.has_player(t) {
            lemma_player_index(after, before.player_index(t));
        }
        if after.has_player(t) {
            let w = after.player_index(t);
            assert(w < n);
            lemma_player_index(before, w);
        }
    }
}

/// Removes every player of party `pid`, keeping the others in order.
fn remove_party_players(players: &mut Vec<PlayerEntity>, pid: &String)
    ensures
        final(players)@ == old(players)@.filter(outside_members(pid@)),
{
    let mut rest: Vec<PlayerEntity> = Vec::new();
    std::mem::swap(&mut rest, players);
    let ghost orig = rest@;
    let ghost n = orig.len();
    while rest.len() > 0
        invariant
            n == orig.len(),
            rest@.len() <= n,
            rest@ == orig.subrange(n - rest@.len(), n as int),
            players@ == orig.subrange(0, n - rest@.len()).filter(outside_members(pid@)),
        decreases rest@.len(),
    {
        let ghost done = n - rest@.len();
        let p = rest.remove(0);
        assert(orig.subrange(0, done + 1).drop_last() == orig.subrange(0, done));
        reveal(Seq::filter);
        assert(p == orig[done]);
        if p.party.id != *pid {
            players.push(p);
        }
        assert(rest@ == orig.subrange(n - rest@.len(), n as int));
    }
    assert(orig.subrange(0, n as int) == orig);
}

/// Whether connection `t` has the player in `w` that it had in `v`, or has
/// none in `w` because it was a member of a destroyed party `pid`.
pub open spec fn kept_or_swept(v: World, w: World, t: Sid, pid: Seq<char>, swept: bool) -> bool {
    if swept && w.has_player(t) && w.player_of(t).party.id@ == pid {
        !v.has_player(t)
    } else {
        v.keeps_player(&w, t)
    }
}

/// Filtering out the players of party `pid` removes exactly those
/// connections.
pub proof fn lemma_sweep_players(before: &World, after: &World, pid: Seq<char>)
    requires
        before.players_unique(),
        after.players@ == before.players@.filter(outside_members(pid)),
    ensures
        forall|t: Sid| #[trigger] kept_or_swept(*after, *before, t, pid, true),
        after.players_unique(),
        !after.has_members(pid),
        forall|q: Seq<char>| q != pid ==> (#[trigger] after.has_members(q) == before.has_members(q)),
{
    let f = outside_members(pid);
    lemma_filter_elements(before.players@, f);
    let sk = |p: PlayerEntity| p.socket.id;
    let ek = |p: PlayerEntity| p.entity;
    assert(unique_by(before.players@, sk)) by {
        assert forall|a: int, b: int|
            0 <= a < before.players@.len() && 0 <= b < before.players@.len() && a != b implies #[trigger] sk(
            before.players@[a],
        ) != #[trigger] sk(before.players@[b]) by {
            assert(before.players@[a].socket.id != before.players@[b].socket.id);
        }
    }
    assert(unique_by(before.players@, ek)) by {
        assert forall|a: int, b: int|
            0 <= a < before.players@.len() && 0 <= b < before.players@.len() && a != b implies #[trigger] ek(
            before.players@[a],
        ) != #[trigger] ek(before.players@[b]) by {
            assert(before.players@[a].socket.id != before.players@[b].socket.id);
        }
    }
    lemma_filter_unique(before.players@, f, sk);
    lemma_filter_unique(before.players@, f, ek);
    assert(after.players_unique()) by {
        assert forall|a: int, b: int|
            0 <= a < after.players@.len() && 0 <= b < after.players@.len() && a != b implies {
            &&& #[trigger] after.players@[a].socket.id != #[trigger] after.players@[b].socket.id
            &&& after.players@[a].entity != after.players@[b].entity
        } by {
            assert(sk(after.players@[a]) != sk(after.players@[b]));
            assert(ek(after.players@[a]) != ek(after.players@[b]));
        }
    }
    assert(!after.has_members(pid)) by {
        if after.has_members(pid) {
            let w = choose|w: int| 0 <= w < after.players@.len() && #[trigger] after.players@[w].party.id@ == pid;
            assert(f(after.players@[w]));
        }
    }
    assert forall|q: Seq<char>| q != pid implies #[trigger] after.has_members(q) == before.has_members(q) by {
        if before.has_members(q) {
            let w = choose|w: int| 0 <= w < before.players@.len() && #[trigger] before.players@[w].party.id@ == q;
            before.players@.lemma_filter_contains(f, w);
            let x = choose|x: int| 0 <= x < after.players@.len() && after.players@[x] == before.players@[w];
            assert(after.players@[x].party.id@ == q);
        }
        if after.has_members(q) {
            let w = choose|w: int| 0 <= w < after.players@.len() && #[trigger] after.players@[w].party.id@ == q;
            let x = choose|x: int| 0 <= x < before.players@.len() && before.players@[x] == after.players@[w];
            assert(before.players@[x].party.id@ == q);
        }
    }
    assert forall|t: Sid| #[trigger] kept_or_swept(*after, *before, t, pid, true) by {
        if before.has_player(t) {
            let w = before.player_index(t);
            lemma_player_index(before, w);
            if before.players@[w].party.id@ == pid {
                if after.has_player(t) {
                    let x = after.player_index(t);
                    let y = choose|y: int| 0 <= y < before.players@.len() && before.players@[y] == after.players@[x];
                    lemma_player_index(before, y);
                    assert(f(after.players@[x]));
                }
            } else {
                before.players@.lemma_filter_contains(f, w);
                let x = choose|x: int| 0 <= x < after.players@.len() && after.players@[x] == before.players@[w];
                lemma_player_index(after, x);
            }
        } else if after.has_player(t) {
            let x = after.player_index(t);
            let y = choose|y: int| 0 <= y < before.players@.len() && before.players@[y] == after.players@[x];
            assert(before.players@[y].socket.id == t);
        }
    }
}

/// A rival of connection `s` is the same in two worlds that keep every
/// other connection's player.
pub proof fn lemma_rival_kept(before: &World, after: &World, s: Sid, pid: Seq<char>, c: u64)
    requires
        before.players_unique(),
        after.players_unique(),
        forall|t: Sid| t != s ==> #[trigger] after.keeps_player(before, t),
    ensures
        after.has_rival(s, pid, c) == before.has_rival(s, pid, c),
{
    if after.has_rival(s, pid, c) {
        let i = choose|i: int|
            0 <= i < after.players@.len() && #[trigger] after.players@[i].party.id@ == pid
                && after.players@[i].socket.id != s && after.players@[i].player.content_id != c;
        let t = after.players@[i].socket.id;
        lemma_player_index(after, i);
        assert(after.keeps_player(before, t));
        let k = before.player_index(t);
        assert(before.players@[k] == after.players@[i]);
    }
    if before.has_rival(s, pid, c) {
        let i = choose|i: int|
            0 <= i < before.players@.len() && #[trigger] before.players@[i].party.id@ == pid
                && before.players@[i].socket.id != s && before.players@[i].player.content_id != c;
        let t = before.players@[i].socket.id;
        lemma_player_index(before, i);
        assert(after.keeps_player(before, t));
        let k = after.player_index(t);
        assert(after.players@[k] == before.players@[i]);
    }
}

/// Keeping every other connection's player and then sweeping party `pid`
/// (or not) is one step that keeps or sweeps.
pub proof fn lemma_chain_sweep(before: &World, mid: &World, after: &World, s: Sid, pid: Seq<char>, swept: bool)
    requires
        forall|t: Sid| t != s ==> #[trigger] mid.keeps_player(before, t),
        forall|t: Sid| #[trigger] kept_or_swept(*after, *mid, t, pid, swept),
    ensures
        forall|t: Sid| t != s ==> #[trigger] kept_or_swept(*after, *before, t, pid, swept),
{
    assert forall|t: Sid| t != s implies #[trigger] kept_or_swept(*after, *before, t, pid, swept) by {
        assert(mid.keeps_player(before, t));
        assert(kept_or_swept(*after, *mid, t, pid, swept));
    }
}

/// Removes every mechanic of party `pid`, keeping the others in order.
fn remove_party_mechanics(mechanics: &mut Vec<MechanicEntity>, pid: &String)
    ensures
        final(mechanics)@ == old(mechanics)@.filter(outside_party(pid@)),
{
    let mut rest: Vec<MechanicEntity> = Vec::new();
    std::mem::swap(&mut rest, mechanics);
    let ghost orig = rest@;
    let ghost n = orig.len();
    while rest.len() > 0
        invariant
            n == orig.len(),
            rest@.len() <= n,
            rest@ == orig.subrange(n - rest@.len(), n as int),
            mechanics@ == orig.subrange(0, n - rest@.len()).filter(outside_party(pid@)),
        decreases rest@.len(),
    {
        let ghost done = n - rest@.len();
        let m = rest.remove(0);
        assert(orig.subrange(0, done + 1).drop_last() == orig.subrange(0, done));
        reveal(Seq::filter);
        assert(m == orig[done]);
        if m.party.id != *pid {
            mechanics.push(m);
        }
        assert(rest@ == orig.subrange(n - rest@.len(), n as int));
    }
    assert(orig.subrange(0, n as int) == orig);
}

pub fn create_world() -> (r: World)
    ensures
        r.wf(),
        r.players@.len() == 0,
        r.parties@.len() == 0,
        r.mechanics@.len() == 0,
{
    World::new()
}

} // verus!
