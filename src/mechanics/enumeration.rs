//! Mechanic placed on one random party member. At the snapshot every living
//! player within the radius of the target shares the hit; a target that has
//! nobody to share with takes an extra hit, and with it a stun.

use vstd::prelude::*;

use crate::affects::{entities_unique, lemma_enumeration_affects_unique, enumeration_affects, send_stuns, shared_hits, stun_dispatches};
use crate::components::{Affects, EntityId, Targets};
use crate::mechanics::spread::on_targets;
use crate::mechanics::{Behaviour, MechanicEntity, Phase, TICK_MICROS};
use crate::notify::{DispatchView, broadcast, dispatches_view, owned, Dispatch, Outbound};
use crate::query::{
    get_target_ids, live_targets, member_socket_list, prune_targets, target_ids,
};
use crate::world::PlayerEntity;

verus! {

/// Time from the omen to the snapshot, in microseconds.
pub const TIME_TO_SNAPSHOT: i64 = 6_000_000;

/// Time from the snapshot to the effects, in microseconds.
pub const EFFECT_DELAY: i64 = 200_000;

/// Square of the sharing radius of 3 world units, in squared thousandths.
pub const RADIUS_SQ: i64 = 9_000_000;

pub const OMEN_VFX_PATH: &'static str = "vfx/lockon/eff/2tagup_3m_6s_x.avfx";

pub const ATTACK_VFX_PATH_FIRST: &'static str = "vfx/monster/gimmick4/eff/z5fb_b_g10c0x.avfx";

pub const ATTACK_VFX_PATH_SECOND: &'static str = "vfx/monster/gimmick4/eff/z5fb_b_g10c1x.avfx";

/// Timers of a shared-hit mechanic.
#[derive(Clone, Copy, Debug, PartialEq, Eq, Structural)]
pub struct Enumeration {
    pub time_to_snapshot: i64,
    pub effect_delay: i64,
}

/// Bounds of the timers: the snapshot is pending while the warning shows,
/// and the effects are pending while the attack shows.
pub open spec fn timers_ok(t: Enumeration, phase: Phase) -> bool {
    &&& -TICK_MICROS < t.time_to_snapshot <= TIME_TO_SNAPSHOT
    &&& -TICK_MICROS < t.effect_delay <= EFFECT_DELAY
    &&& (phase == Phase::Assign || phase == Phase::Omen) ==> t.time_to_snapshot > 0
        && t.effect_delay > 0
    &&& phase == Phase::Attack ==> t.effect_delay > 0
}

pub fn create_mechanic() -> (r: Enumeration)
    ensures
        r.time_to_snapshot == TIME_TO_SNAPSHOT,
        r.effect_delay == EFFECT_DELAY,
        timers_ok(r, Phase::Assign),
{
    Enumeration { time_to_snapshot: TIME_TO_SNAPSHOT, effect_delay: EFFECT_DELAY }
}

/// The timers of a shared-hit mechanic.
pub open spec fn timers(m: MechanicEntity) -> Enumeration {
    match m.behaviour {
        Behaviour::Enumeration(en) => en,
        _ => Enumeration { time_to_snapshot: 0, effect_delay: 0 },
    }
}

/// The targets that a random pick gives.
pub open spec fn picked(chosen: Option<EntityId>) -> Seq<EntityId> {
    match chosen {
        Some(e) => seq![e],
        None => seq![],
    }
}

pub proof fn lemma_live_targets_len(players: Seq<PlayerEntity>, targets: Seq<EntityId>)
    ensures
        live_targets(players, targets).len() <= targets.len(),
    decreases targets.len(),
{
    if targets.len() > 0 {
        lemma_live_targets_len(players, targets.drop_last());
    }
}

/// What one tick does to mechanic `o`, giving `m`, with the player table
/// `players` and the messages going from `before` to `after`.
pub open spec fn tick_post(
    o: MechanicEntity,
    m: MechanicEntity,
    players: Seq<PlayerEntity>,
    chosen: Option<EntityId>,
    before: Seq<DispatchView>,
    after: Seq<DispatchView>,
) -> bool {
    &&& m.valid()
    &&& m.behaviour is Enumeration
    &&& crate::mechanics::advanced(o, m)
    &&& m.vfx == o.vfx
    &&& ({
            let pid = o.party.id@;
            let t = timers(o);
            let snap = t.time_to_snapshot - TICK_MICROS;
            let live = live_targets(players, o.targets.player_entities@);
            let hits = enumeration_affects(players, pid, live, RADIUS_SQ as int);
            match o.phase {
                Phase::Assign => {
                    &&& m.phase == Phase::Omen
                    &&& m.targets.player_entities@ == picked(chosen)
                    &&& m.affects == o.affects
                    &&& timers(m) == t
                    &&& after == before + on_targets(
                        players,
                        pid,
                        OMEN_VFX_PATH@,
                        target_ids(players, picked(chosen)),
                    )
                },
                Phase::Omen => if snap > 0 {
                    &&& m.phase == Phase::Omen
                    &&& m.targets == o.targets
                    &&& m.affects == o.affects
                    &&& timers(m) == Enumeration { time_to_snapshot: snap as i64, ..t }
                    &&& after == before
                } else {
                    let delay = t.effect_delay - TICK_MICROS;
                    let ids = target_ids(players, live);
                    let first = on_targets(players, pid, ATTACK_VFX_PATH_FIRST@, ids);
                    let second = on_targets(players, pid, ATTACK_VFX_PATH_SECOND@, ids);
                    &&& m.targets.player_entities@ == live
                    &&& m.affects.player_entities@ == hits
                    &&& timers(m) == Enumeration {
                        time_to_snapshot: snap as i64,
                        effect_delay: delay as i64,
                    }
                    &&& delay > 0 ==> m.phase == Phase::Attack && after == before + first + second
                    &&& delay <= 0 ==> m.phase == Phase::Complete && after == before + first + second
                        + stun_dispatches(players, hits, None)
                },
                Phase::Attack => {
                    let delay = t.effect_delay - TICK_MICROS;
                    &&& m.targets == o.targets
                    &&& m.affects == o.affects
                    &&& timers(m) == Enumeration { effect_delay: delay as i64, ..t }
                    &&& delay > 0 ==> m.phase == Phase::Attack && after == before
                    &&& delay <= 0 ==> m.phase == Phase::Complete && after == before
                        + stun_dispatches(players, o.affects.player_entities@, None)
                },
                Phase::Complete => {
                    &&& m.phase == Phase::Complete
                    &&& m.targets == o.targets
                    &&& m.affects == o.affects
                    &&& timers(m) == t
                    &&& after == before
                },
            }
    })
}

/// One tick of a shared-hit mechanic. `chosen` is the party member that a
/// random pick made (consulted in the `Assign` phase only).
///
/// - `Assign`: the chosen member, if any, becomes the target and the party
///   sees the warning on it.
/// - `Omen`: the snapshot clock runs down; when it runs out a dead or
///   departed target is dropped, the hits are fixed, the party sees both
///   parts of the attack, and the effect clock starts running.
/// - `Attack`: the effect clock runs down; when it runs out every affected
///   player with a hit beyond the first is stunned, and the mechanic is
///   complete.
pub fn tick(
    m: &mut MechanicEntity,
    players: &Vec<PlayerEntity>,
    chosen: Option<EntityId>,
    out: &mut Vec<Dispatch>,
)
    requires
        old(m).valid(),
        entities_unique(players@),
        old(m).behaviour is Enumeration,
    ensures
        tick_post(
            *old(m),
            *final(m),
            players@,
            chosen,
            dispatches_view(old(out)@),
            dispatches_view(final(out)@),
        ),
{
    let mut en = match m.behaviour {
        Behaviour::Enumeration(en) => en,
        _ => {
            return;
        },
    };
    match m.phase {
        Phase::Assign => {
            let mut targets: Vec<EntityId> = Vec::new();
            if let Some(e) = chosen {
                targets.push(e);
            }
            assert(targets@ == picked(chosen));
            let ids = get_target_ids(players, &targets);
            let sockets = member_socket_list(players, &m.party.id);
            let message = Outbound::PlayActorVfxOnTarget {
                vfx_path: owned(OMEN_VFX_PATH),
                content_id_targets: ids,
            };
            broadcast(out, &sockets, &message);
            m.targets = Targets { player_entities: targets };
            m.phase = Phase::Omen;
        },
        Phase::Omen => {
            en.time_to_snapshot = en.time_to_snapshot - TICK_MICROS;
            if en.time_to_snapshot <= 0 {
                let live = prune_targets(players, &m.targets.player_entities);
                proof {
                    lemma_live_targets_len(players@, m.targets.player_entities@);
                }
                let hits = shared_hits(players, &m.party.id, &live, RADIUS_SQ);
                proof {
                    lemma_enumeration_affects_unique(players@, m.party.id@, live@, RADIUS_SQ as int);
                }
                let ids = get_target_ids(players, &live);
                let sockets = member_socket_list(players, &m.party.id);
                let first = Outbound::PlayActorVfxOnTarget {
                    vfx_path: owned(ATTACK_VFX_PATH_FIRST),
                    content_id_targets: ids,
                };
                broadcast(out, &sockets, &first);
                let second = Outbound::PlayActorVfxOnTarget {
                    vfx_path: owned(ATTACK_VFX_PATH_SECOND),
                    content_id_targets: get_target_ids(players, &live),
                };
                broadcast(out, &sockets, &second);
                en.effect_delay = en.effect_delay - TICK_MICROS;
                if en.effect_delay <= 0 {
                    send_stuns(players, &hits, None, out);
                    m.phase = Phase::Complete;
                } else {
                    m.phase = Phase::Attack;
                }
                m.targets = Targets { player_entities: live };
                m.affects = Affects { player_entities: hits };
            }
        },
        Phase::Attack => {
            en.effect_delay = en.effect_delay - TICK_MICROS;
            if en.effect_delay <= 0 {
                send_stuns(players, &m.affects.player_entities, None, out);
                m.phase = Phase::Complete;
            }
        },
        Phase::Complete => {},
    }
    m.behaviour = Behaviour::Enumeration(en);
}

} // verus!
