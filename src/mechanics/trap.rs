//! Stationary trap. After an arming delay it checks at a coarse interval
//! whether a party member stands within the activation radius; the first time
//! one does, every member within the wider effect radius is caught. A trap that
//! never goes off is removed at its expiration.

use vstd::prelude::*;

use crate::affects::{entities_unique, lemma_members_within_unique, members_near, members_within, send_stuns, stun_dispatches};
use crate::components::{Affects, Vfx};
use crate::mechanics::{Behaviour, MechanicEntity, Phase, TICK_MICROS};
use crate::notify::{broadcast, broadcast_of, dispatches_view, owned, Dispatch, DispatchView, Outbound, OutboundView};
use crate::query::member_socket_list;
use crate::world::{member_sockets, PlayerEntity};

verus! {

/// Interval between activation checks, in microseconds.
pub const ACTIVATION_CHECK_INTERVAL: i64 = 200_000;

/// Time before the first activation check, in microseconds.
pub const ACTIVATION_DELAY: i64 = 1_000_000;

/// Time from the activation to the effects, in microseconds.
pub const EFFECT_DELAY: i64 = 200_000;

/// Lifetime of a trap that never goes off: sixty minutes, in microseconds.
pub const EXPIRATION: i64 = 3_600_000_000;

/// Square of the activation radius of 3 world units, in squared thousandths.
pub const ACTIVATION_RADIUS_SQ: i64 = 9_000_000;

/// Square of the effect radius of 5 world units, in squared thousandths.
pub const EFFECT_RADIUS_SQ: i64 = 25_000_000;

/// Length of the stun of a caught player, in milliseconds.
pub const STUN_MS: u64 = 10_000;

pub const OMEN_VFX_PATH: &'static str = "bg/ex3/01_nvt_n4/common/vfx/eff/b2155trp01_o.avfx";

pub const ATTACK_VFX_PATH: &'static str = "vfx/monster/gimmick/eff/kappa_hard_bakudan_c0h.avfx";

/// Timers and state of a trap.
#[derive(Clone, Copy, Debug, PartialEq, Eq, Structural)]
pub struct Trap {
    pub activation_delay: i64,
    pub time_to_next_activation_check: i64,
    pub effect_delay: i64,
    pub time_to_expiration: i64,
    pub activated: bool,
}

/// Bounds of the timers: a trap that has not gone off is still waiting for a
/// player, and one that has is waiting for its effects.
pub open spec fn timers_ok(t: Trap, phase: Phase) -> bool {
    &&& 0 <= t.activation_delay <= ACTIVATION_DELAY
    &&& -TICK_MICROS < t.time_to_next_activation_check <= ACTIVATION_CHECK_INTERVAL
    &&& 0 < t.effect_delay <= EFFECT_DELAY
    &&& 0 < t.time_to_expiration <= EXPIRATION
    &&& (phase == Phase::Assign || phase == Phase::Omen) <==> !t.activated
}

pub fn create_mechanic() -> (r: Trap)
    ensures
        r.activation_delay == ACTIVATION_DELAY,
        r.time_to_next_activation_check == 0,
        r.effect_delay == EFFECT_DELAY,
        r.time_to_expiration == EXPIRATION,
        !r.activated,
        timers_ok(r, Phase::Assign),
{
    Trap {
        activation_delay: ACTIVATION_DELAY,
        time_to_next_activation_check: 0,
        effect_delay: EFFECT_DELAY,
        time_to_expiration: EXPIRATION,
        activated: false,
    }
}

/// The timers of a trap.
pub open spec fn timers(m: MechanicEntity) -> Trap {
    match m.behaviour {
        Behaviour::Trap(tr) => tr,
        _ => Trap {
            activation_delay: 0,
            time_to_next_activation_check: 0,
            effect_delay: 0,
            time_to_expiration: 0,
            activated: false,
        },
    }
}

/// The same message to every member of party `pid`.
pub open spec fn to_party(players: Seq<PlayerEntity>, pid: Seq<char>, message: OutboundView) -> Seq<
    DispatchView,
> {
    broadcast_of(member_sockets(players, pid), message)
}

/// What one tick does to mechanic `o`, giving `m`, with the player table
/// `players` and the messages going from `before` to `after`.
pub open spec fn tick_post(
    o: MechanicEntity,
    m: MechanicEntity,
    players: Seq<PlayerEntity>,
    vfx_id: u128,
    before: Seq<DispatchView>,
    after: Seq<DispatchView>,
) -> bool {
    &&& m.valid()
    &&& m.behaviour is Trap
    &&& crate::mechanics::advanced(o, m)
    &&& m.targets == o.targets
    &&& ({
            let pid = o.party.id@;
            let t = timers(o);
            let place = o.transform->0;
            let life = t.time_to_expiration - TICK_MICROS;
            if o.phase == Phase::Complete {
                &&& m.phase == Phase::Complete
                &&& m.affects == o.affects
                &&& m.vfx == o.vfx
                &&& timers(m) == t
                &&& after == before
            } else if life <= 0 {
                &&& m.phase == Phase::Complete
                &&& m.affects == o.affects
                &&& m.vfx == o.vfx
                &&& after == before
            } else if o.phase == Phase::Attack {
                let delay = t.effect_delay - TICK_MICROS;
                &&& m.affects == o.affects
                &&& m.vfx == o.vfx
                &&& delay > 0 ==> m.phase == Phase::Attack && after == before && timers(
                    m,
                ) == Trap { effect_delay: delay as i64, time_to_expiration: life as i64, ..t }
                &&& delay <= 0 ==> m.phase == Phase::Complete && after == before
                    + stun_dispatches(players, o.affects.player_entities@, Some(STUN_MS))
            } else {
                let shown = o.vfx is None;
                let id = if shown {
                    vfx_id
                } else {
                    o.vfx->0.id
                };
                let omen = if shown {
                    to_party(
                        players,
                        pid,
                        OutboundView::PlayStaticVfx {
                            id,
                            vfx_path: OMEN_VFX_PATH@,
                            is_omen: true,
                            transform: place,
                        },
                    )
                } else {
                    Seq::empty()
                };
                let check = t.time_to_next_activation_check - TICK_MICROS;
                let triggered = members_within(
                    players,
                    pid,
                    place.position(),
                    ACTIVATION_RADIUS_SQ as int,
                    false,
                ).len() > 0;
                if t.activation_delay > 0 {
                    &&& m.phase == Phase::Omen
                    &&& m.affects == o.affects
                    &&& m.vfx == Some(Vfx { id })
                    &&& timers(m) == Trap {
                        activation_delay: if t.activation_delay > TICK_MICROS {
                            (t.activation_delay - TICK_MICROS) as i64
                        } else {
                            0
                        },
                        time_to_expiration: life as i64,
                        ..t
                    }
                    &&& after == before + omen
                } else if check > 0 {
                    &&& m.phase == Phase::Omen
                    &&& m.affects == o.affects
                    &&& m.vfx == Some(Vfx { id })
                    &&& timers(m) == Trap {
                        time_to_next_activation_check: check as i64,
                        time_to_expiration: life as i64,
                        ..t
                    }
                    &&& after == before + omen
                } else if !triggered {
                    &&& m.phase == Phase::Omen
                    &&& m.affects == o.affects
                    &&& m.vfx == Some(Vfx { id })
                    &&& timers(m) == Trap {
                        time_to_next_activation_check: (check + ACTIVATION_CHECK_INTERVAL) as i64,
                        time_to_expiration: life as i64,
                        ..t
                    }
                    &&& after == before + omen
                } else {
                    &&& m.phase == Phase::Attack
                    &&& m.affects.player_entities@ == members_within(
                        players,
                        pid,
                        place.position(),
                        EFFECT_RADIUS_SQ as int,
                        false,
                    )
                    &&& m.vfx is None
                    &&& timers(m) == Trap {
                        time_to_next_activation_check: (check + ACTIVATION_CHECK_INTERVAL) as i64,
                        time_to_expiration: life as i64,
                        activated: true,
                        ..t
                    }
                    &&& after == before + omen + to_party(players, pid, OutboundView::StopVfx { id })
                        + to_party(
                        players,
                        pid,
                        OutboundView::PlayActorVfxOnPosition {
                            vfx_path: ATTACK_VFX_PATH@,
                            transform: place,
                        },
                    )
                }
            }
    })
}

/// One tick of a trap. `vfx_id` identifies the trap's lasting effect when it
/// is first shown.
///
/// - A trap whose lifetime runs out is complete, whatever its phase.
/// - Until it goes off, the party sees the trap (once), the arming delay runs
///   down, and then every check interval the trap looks for a party member
///   within its activation radius. When there is one, the members within the
///   effect radius are caught, the lasting effect is stopped and the party
///   sees the explosion.
/// - Once it went off, the effect clock runs down; when it runs out every
///   caught player is stunned, and the trap is complete.
pub fn tick(m: &mut MechanicEntity, players: &Vec<PlayerEntity>, vfx_id: u128, out: &mut Vec<Dispatch>)
    requires
        old(m).valid(),
        entities_unique(players@),
        old(m).behaviour is Trap,
    ensures
        tick_post(
            *old(m),
            *final(m),
            players@,
            vfx_id,
            dispatches_view(old(out)@),
            dispatches_view(final(out)@),
        ),
{
    let mut tr = match m.behaviour {
        Behaviour::Trap(tr) => tr,
        _ => {
            return;
        },
    };
    let place = match m.transform {
        Some(t) => t,
        None => {
            return;
        },
    };
    if m.phase == Phase::Complete {
        return;
    }
    tr.time_to_expiration = tr.time_to_expiration - TICK_MICROS;
    if tr.time_to_expiration <= 0 {
        m.phase = Phase::Complete;
        m.behaviour = Behaviour::Trap(tr);
        return;
    }
    if m.phase == Phase::Attack {
        tr.effect_delay = tr.effect_delay - TICK_MICROS;
        if tr.effect_delay <= 0 {
            send_stuns(players, &m.affects.player_entities, Some(STUN_MS), out);
            m.phase = Phase::Complete;
        }
        m.behaviour = Behaviour::Trap(tr);
        return;
    }
    let sockets = member_socket_list(players, &m.party.id);
    let id = match m.vfx {
        Some(v) => v.id,
        None => {
            let message = Outbound::PlayStaticVfx {
                id: vfx_id,
                vfx_path: owned(OMEN_VFX_PATH),
                is_omen: true,
                transform: place,
            };
            broadcast(out, &sockets, &message);
            vfx_id
        },
    };
    m.vfx = Some(Vfx { id });
    m.phase = Phase::Omen;
    if tr.activation_delay > 0 {
        tr.activation_delay = if tr.activation_delay > TICK_MICROS {
            tr.activation_delay - TICK_MICROS
        } else {
            0
        };
        m.behaviour = Behaviour::Trap(tr);
        return;
    }
    tr.time_to_next_activation_check = tr.time_to_next_activation_check - TICK_MICROS;
    if tr.time_to_next_activation_check > 0 {
        m.behaviour = Behaviour::Trap(tr);
        return;
    }
    tr.time_to_next_activation_check = tr.time_to_next_activation_check + ACTIVATION_CHECK_INTERVAL;
    let center = place.get_position();
    let (near, _) = members_near(players, &m.party.id, &center, ACTIVATION_RADIUS_SQ, false, 0);
    if near.len() > 0 {
        let (caught, _) = members_near(players, &m.party.id, &center, EFFECT_RADIUS_SQ, false, 0);
        proof {
            lemma_members_within_unique(players@, m.party.id@, center, EFFECT_RADIUS_SQ as int, false);
        }
        broadcast(out, &sockets, &Outbound::StopVfx { id });
        let explosion = Outbound::PlayActorVfxOnPosition {
            vfx_path: owned(ATTACK_VFX_PATH),
            transform: place,
        };
        broadcast(out, &sockets, &explosion);
        m.affects = Affects { player_entities: caught };
        m.vfx = None;
        tr.activated = true;
        m.phase = Phase::Attack;
    }
    m.behaviour = Behaviour::Trap(tr);
}

} // verus!
