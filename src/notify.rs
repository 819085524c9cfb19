//! Messages that the simulation addresses to connections. The transport sends
//! them after the tick that produced them; a failed send changes nothing here.

use vstd::prelude::*;

use socketioxide::socket::Sid;

use crate::components::{Condition, Transform};

verus! {

pub enum Outbound {
    /// Play an effect on the players with these content ids.
    PlayActorVfxOnTarget { vfx_path: String, content_id_targets: Vec<u64> },
    /// Play an effect once at a place.
    PlayActorVfxOnPosition { vfx_path: String, transform: Transform },
    /// Start a lasting effect at a place, to be stopped by its id.
    PlayStaticVfx { id: u128, vfx_path: String, is_omen: bool, transform: Transform },
    StopVfx { id: u128 },
    /// Apply a condition for a number of milliseconds.
    ApplyCondition { condition: Condition, duration_ms: u64 },
    /// How many players are connected in the receiver's party.
    PartyStatus { connected_player_count: u64 },
}

pub enum OutboundView {
    PlayActorVfxOnTarget { vfx_path: Seq<char>, content_id_targets: Seq<u64> },
    PlayActorVfxOnPosition { vfx_path: Seq<char>, transform: Transform },
    PlayStaticVfx { id: u128, vfx_path: Seq<char>, is_omen: bool, transform: Transform },
    StopVfx { id: u128 },
    ApplyCondition { condition: Condition, duration_ms: u64 },
    PartyStatus { connected_player_count: u64 },
}

impl View for Outbound {
    type V = OutboundView;

    open spec fn view(&self) -> OutboundView {
        match self {
            Outbound::PlayActorVfxOnTarget { vfx_path, content_id_targets } =>
                OutboundView::PlayActorVfxOnTarget {
                vfx_path: vfx_path@,
                content_id_targets: content_id_targets@,
            },
            Outbound::PlayActorVfxOnPosition { vfx_path, transform } =>
                OutboundView::PlayActorVfxOnPosition { vfx_path: vfx_path@, transform: *transform },
            Outbound::PlayStaticVfx { id, vfx_path, is_omen, transform } =>
                OutboundView::PlayStaticVfx {
                id: *id,
                vfx_path: vfx_path@,
                is_omen: *is_omen,
                transform: *transform,
            },
            Outbound::StopVfx { id } => OutboundView::StopVfx { id: *id },
            Outbound::ApplyCondition { condition, duration_ms } =>
                OutboundView::ApplyCondition { condition: *condition, duration_ms: *duration_ms },
            Outbound::PartyStatus { connected_player_count } =>
                OutboundView::PartyStatus { connected_player_count: *connected_player_count },
        }
    }
}

impl Outbound {
    /// An equal copy of this message.
    pub fn duplicate(&self) -> (r: Outbound)
        ensures
            r@ == self@,
    {
        match self {
            Outbound::PlayActorVfxOnTarget { vfx_path, content_id_targets } => {
                let mut ids: Vec<u64> = Vec::new();
                for i in 0..content_id_targets.len()
                    invariant
                        ids@ == content_id_targets@.subrange(0, i as int),
                {
                    ids.push(content_id_targets[i]);
                }
                assert(ids@ == content_id_targets@);
                Outbound::PlayActorVfxOnTarget {
                    vfx_path: vfx_path.clone(),
                    content_id_targets: ids,
                }
            },
            Outbound::PlayActorVfxOnPosition { vfx_path, transform } =>
                Outbound::PlayActorVfxOnPosition { vfx_path: vfx_path.clone(), transform: *transform },
            Outbound::PlayStaticVfx { id, vfx_path, is_omen, transform } => Outbound::PlayStaticVfx {
                id: *id,
                vfx_path: vfx_path.clone(),
                is_omen: *is_omen,
                transform: *transform,
            },
            Outbound::StopVfx { id } => Outbound::StopVfx { id: *id },
            Outbound::ApplyCondition { condition, duration_ms } =>
                Outbound::ApplyCondition { condition: *condition, duration_ms: *duration_ms },
            Outbound::PartyStatus { connected_player_count } =>
                Outbound::PartyStatus { connected_player_count: *connected_player_count },
        }
    }
}

/// A message with the connection it is addressed to.
pub struct Dispatch {
    pub socket: Sid,
    pub message: Outbound,
}

pub struct DispatchView {
    pub socket: Sid,
    pub message: OutboundView,
}

impl View for Dispatch {
    type V = DispatchView;

    open spec fn view(&self) -> DispatchView {
        DispatchView { socket: self.socket, message: self.message@ }
    }
}

pub open spec fn dispatches_view(d: Seq<Dispatch>) -> Seq<DispatchView> {
    d.map_values(|x: Dispatch| x@)
}

/// The same message for each of the connections, in their order.
pub open spec fn broadcast_of(sockets: Seq<Sid>, message: OutboundView) -> Seq<DispatchView> {
    sockets.map_values(|s: Sid| DispatchView { socket: s, message })
}

/// Appends a copy of `message` for each connection of `sockets`, in order.
pub fn broadcast(out: &mut Vec<Dispatch>, sockets: &Vec<Sid>, message: &Outbound)
    ensures
        dispatches_view(final(out)@) == dispatches_view(old(out)@) + broadcast_of(sockets@, message@),
{
    let ghost start = dispatches_view(out@);
    for i in 0..sockets.len()
        invariant
            dispatches_view(out@) == start + broadcast_of(sockets@.subrange(0, i as int), message@),
    {
        let ghost before = out@;
        out.push(Dispatch { socket: sockets[i], message: message.duplicate() });
        assert(dispatches_view(out@) == dispatches_view(before).push(out@.last()@));
        assert(sockets@.subrange(0, i + 1) == sockets@.subrange(0, i as int).push(sockets@[i as int]));
    }
    assert(sockets@.subrange(0, sockets@.len() as int) == sockets@);
}

/// An owned copy of a string slice.
pub fn owned(s: &str) -> (r: String)
    ensures
        r@ == s@,
{
    s.to_owned()
}

} // verus!
