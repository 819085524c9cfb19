//! Commands that the network side queues for the simulation.

use vstd::prelude::*;

use socketioxide::socket::Sid;

use crate::components::Role;

verus! {

/// A command for the simulation, applied at the start of the next tick.
/// Positions are in thousandths of a world unit, rotations in thousandths of
/// a radian.
pub enum MessageToEcs {
    /// Roster update: who plays on a connection, in what role and party.
    UpdatePlayer { socket_id: Sid, content_id: u64, name: String, role: Role, party: String },
    /// Last reported place and alive state of the player on a connection.
    UpdateStatus {
        socket_id: Sid,
        world_position_x: i32,
        world_position_y: i32,
        world_position_z: i32,
        is_alive: bool,
    },
    /// The connection has gone.
    RemovePlayer { socket_id: Sid },
    /// Start a mechanic for the connection's party, at a place when all four
    /// values are given.
    StartMechanic {
        socket_id: Sid,
        request_id: String,
        mechanic_id: u32,
        x: Option<i32>,
        y: Option<i32>,
        z: Option<i32>,
        rotation: Option<i32>,
    },
    /// Destroy every live mechanic of the connection's party.
    ClearMechanics { socket_id: Sid },
}

} // verus!
