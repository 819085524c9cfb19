//! Proximity mechanic placed on every party member. At the snapshot each living
//! player is hit once by every living target within the radius, itself
//! included; each hit beyond the first adds to the stun.

use vstd::prelude::*;

use crate::affects::{entities_unique, lemma_spread_affects_unique, overlap_counts, send_stuns, spread_affects, stun_dispatches};
use crate::components::{Affects, Targets};
use crate::mechanics::{Behaviour, MechanicEntity, Phase, TICK_MICROS};
use crate::notify::{DispatchView, broadcast, broadcast_of, dispatches_view, owned, Dispatch, Outbound, OutboundView};
use crate::query::{
    get_target_ids, live_targets, member_socket_list, party_content_ids, party_entities,
    party_members, positions_of, prune_targets, target_ids, target_positions,
};
use crate::world::{member_sockets, PlayerEntity};

verus! {

/// Time from the omen to the snapshot, in microseconds.
pub const TIME_TO_SNAPSHOT: i64 = 5_000_000;

/// Time from the snapshot to the effects, in microseconds.
pub const EFFECT_DELAY: i64 = 200_000;

/// Square of the hit radius of 6 world units, in squared thousandths.
pub const RADIUS_SQ: i64 = 36_000_000;

pub const OMEN_VFX_PATH: &'static str = "vfx/lockon/eff/target_ae_s5f.avfx";

pub const ATTACK_VFX_PATH: &'static str = "vfx/monster/gimmick4/eff/n5r8_b_g15_t0k1.avfx";

/// Timers of a proximity mechanic.
#[derive(Clone, Copy, Debug, PartialEq, Eq, Structural)]
pub struct Spread {
    pub time_to_snapshot: i64,
    pub effect_delay: i64,
}

/// Bounds of the timers: the snapshot is pending while the warning shows,
/// and the effects are pending while the attack shows.
pub open spec fn timers_ok(t: Spread, phase: Phase) -> bool {
    &&& -TICK_MICROS < t.time_to_snapshot <= TIME_TO_SNAPSHOT
    &&& -TICK_MICROS < t.effect_delay <= EFFECT_DELAY
    &&& (phase == Phase::Assign || phase == Phase::Omen) ==> t.time_to_snapshot > 0
        && t.effect_delay > 0
    &&& phase == Phase::Attack ==> t.effect_delay > 0
}

pub fn create_mechanic() -> (r: Spread)
    ensures
        r.time_to_snapshot == TIME_TO_SNAPSHOT,
        r.effect_delay == EFFECT_DELAY,
        timers_ok(r, Phase::Assign),
{
    Spread { time_to_snapshot: TIME_TO_SNAPSHOT, effect_delay: EFFECT_DELAY }
}

/// The timers of a proximity mechanic.
pub open spec fn timers(m: MechanicEntity) -> Spread {
    match m.behaviour {
        Behaviour::Spread(sp) => sp,
        _ => Spread { time_to_snapshot: 0, effect_delay: 0 },
    }
}

/// Messages that show a warning or an attack on the given targets to every
/// member of the party.
pub open spec fn on_targets(
    players: Seq<PlayerEntity>,
    pid: Seq<char>,
    vfx_path: Seq<char>,
    ids: Seq<u64>,
) -> Seq<crate::notify::DispatchView> {
    broadcast_of(
        member_sockets(players, pid),
        OutboundView::PlayActorVfxOnTarget { vfx_path, content_id_targets: ids },
    )
}

/// What one tick does to mechanic `o`, giving `m`, with the player table
/// `players` and the messages going from `before` to `after`.
pub open spec fn tick_post(
    o: MechanicEntity,
    m: MechanicEntity,
    players: Seq<PlayerEntity>,
    before: Seq<DispatchView>,
    after: Seq<DispatchView>,
) -> bool {
    &&& m.valid()
    &&& m.behaviour is Spread
    &&& crate::mechanics::advanced(o, m)
    &&& m.vfx == o.vfx
    &&& ({
            let pid = o.party.id@;
            let t = timers(o);
            let snap = t.time_to_snapshot - TICK_MICROS;
            let live = live_targets(players, o.targets.player_entities@);
            let counts = spread_affects(
                players,
                pid,
                target_positions(players, live),
                RADIUS_SQ as int,
            );
            match o.phase {
                Phase::Assign => {
                    &&& m.phase == Phase::Omen
                    &&& m.targets.player_entities@ == party_entities(players, pid)
                    &&& m.affects == o.affects
                    &&& timers(m) == t
                    &&& after == before + on_targets(
                        players,
                        pid,
                        OMEN_VFX_PATH@,
                        party_content_ids(players, pid),
                    )
                },
                Phase::Omen => if snap > 0 {
                    &&& m.phase == Phase::Omen
                    &&& m.targets == o.targets
                    &&& m.affects == o.affects
                    &&& timers(m) == Spread { time_to_snapshot: snap as i64, ..t }
                    &&& after == before
                } else {
                    let delay = t.effect_delay - TICK_MICROS;
                    let attack = on_targets(players, pid, ATTACK_VFX_PATH@, target_ids(players, live));
                    &&& m.targets.player_entities@ == live
                    &&& m.affects.player_entities@ == counts
                    &&& timers(m) == Spread {
                        time_to_snapshot: snap as i64,
                        effect_delay: delay as i64,
                    }
                    &&& delay > 0 ==> m.phase == Phase::Attack && after == before + attack
                    &&& delay <= 0 ==> m.phase == Phase::Complete && after == before + attack
                        + stun_dispatches(players, counts, None)
                },
                Phase::Attack => {
                    let delay = t.effect_delay - TICK_MICROS;
                    &&& m.targets == o.targets
                    &&& m.affects == o.affects
                    &&& timers(m) == Spread { effect_delay: delay as i64, ..t }
                    &&& delay > 0 ==> m.phase == Phase::Attack && after == before
                    &&& delay <= 0 ==> m.phase == Phase::Complete && after == before
                        + stun_dispatches(players, o.affects.player_entities@, None)
                },
                Phase::Complete => {
                    &&& m.phase == Phase::Complete
                    &&& m.targets == o.targets
                    &&& m.affects == o.affects
                    &&& timers(m) == t
                    &&& after == before
                },
            }
    })
}

/// One tick of a proximity mechanic.
///
/// - `Assign`: every party member becomes a target and the party sees the
///   warning on all of them.
/// - `Omen`: the snapshot clock runs down; when it runs out the dead and the
///   departed are dropped from the targets, the overlap counts are fixed, the
///   party sees the attack, and the effect clock starts running.
/// - `Attack`: the effect clock runs down; when it runs out every affected
///   player with a hit beyond the first is stunned, and the mechanic is
///   complete.
pub fn tick(m: &mut MechanicEntity, players: &Vec<PlayerEntity>, out: &mut Vec<Dispatch>)
    requires
        old(m).valid(),
        entities_unique(players@),
        old(m).behaviour is Spread,
    ensures
        tick_post(
            *old(m),
            *final(m),
            players@,
            dispatches_view(old(out)@),
            dispatches_view(final(out)@),
        ),
{
    let mut sp = match m.behaviour {
        Behaviour::Spread(sp) => sp,
        _ => {
            return;
        },
    };
    match m.phase {
        Phase::Assign => {
            let (entities, ids) = party_members(players, &m.party.id);
            let sockets = member_socket_list(players, &m.party.id);
            let message = Outbound::PlayActorVfxOnTarget {
                vfx_path: owned(OMEN_VFX_PATH),
                content_id_targets: ids,
            };
            broadcast(out, &sockets, &message);
            m.targets = Targets { player_entities: entities };
            m.phase = Phase::Omen;
        },
        Phase::Omen => {
            sp.time_to_snapshot = sp.time_to_snapshot - TICK_MICROS;
            if sp.time_to_snapshot <= 0 {
                let live = prune_targets(players, &m.targets.player_entities);
                let positions = positions_of(players, &live);
                let counts = overlap_counts(players, &m.party.id, &positions, RADIUS_SQ);
                proof {
                    lemma_spread_affects_unique(players@, m.party.id@, positions@, RADIUS_SQ as int);
                }
                let ids = get_target_ids(players, &live);
                let sockets = member_socket_list(players, &m.party.id);
                let message = Outbound::PlayActorVfxOnTarget {
                    vfx_path: owned(ATTACK_VFX_PATH),
                    content_id_targets: ids,
                };
                broadcast(out, &sockets, &message);
                sp.effect_delay = sp.effect_delay - TICK_MICROS;
                if sp.effect_delay <= 0 {
                    send_stuns(players, &counts, None, out);
                    m.phase = Phase::Complete;
                } else {
                    m.phase = Phase::Attack;
                }
                m.targets = Targets { player_entities: live };
                m.affects = Affects { player_entities: counts };
            }
        },
        Phase::Attack => {
            sp.effect_delay = sp.effect_delay - TICK_MICROS;
            if sp.effect_delay <= 0 {
                send_stuns(players, &m.affects.player_entities, None, out);
                m.phase = Phase::Complete;
            }
        },
        Phase::Complete => {},
    }
    m.behaviour = Behaviour::Spread(sp);
}

} // verus!
