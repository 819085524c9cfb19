use std::str::FromStr;

use raidsrewritten_server::components::{convert_to_transform, Condition, Position, Role};
use raidsrewritten_server::mechanics::{Phase, ENUMERATION_ID, SPREAD_ID, TRAP_ID};
use raidsrewritten_server::messages::MessageToEcs;
use raidsrewritten_server::notify::{Dispatch, Outbound};
use raidsrewritten_server::world::{create_world, World};
use socketioxide::socket::Sid;

fn sid(s: &str) -> Sid {
    Sid::from_str(s).unwrap()
}

fn join(socket: Sid, content_id: u64, party: &str) -> MessageToEcs {
    MessageToEcs::UpdatePlayer {
        socket_id: socket,
        content_id,
        name: format!("player{}", content_id),
        role: Role::Dps,
        party: party.to_string(),
    }
}

fn status(socket: Sid, x: i32, z: i32, is_alive: bool) -> MessageToEcs {
    MessageToEcs::UpdateStatus {
        socket_id: socket,
        world_position_x: x,
        world_position_y: 0,
        world_position_z: z,
        is_alive,
    }
}

fn start(socket: Sid, request_id: &str, mechanic_id: u32) -> MessageToEcs {
    MessageToEcs::StartMechanic {
        socket_id: socket,
        request_id: request_id.to_string(),
        mechanic_id,
        x: None,
        y: None,
        z: None,
        rotation: None,
    }
}

fn start_at(socket: Sid, request_id: &str, mechanic_id: u32, x: i32, z: i32) -> MessageToEcs {
    MessageToEcs::StartMechanic {
        socket_id: socket,
        request_id: request_id.to_string(),
        mechanic_id,
        x: Some(x),
        y: Some(0),
        z: Some(z),
        rotation: Some(0),
    }
}

fn stuns_for(out: &[Dispatch], socket: Sid) -> Vec<u64> {
    out.iter()
        .filter(|d| d.socket == socket)
        .filter_map(|d| match &d.message {
            Outbound::ApplyCondition { condition, duration_ms } => {
                assert_eq!(*condition, Condition::Stun);
                Some(*duration_ms)
            }
            _ => None,
        })
        .collect()
}

/// Runs ticks without commands until no mechanic is left, collecting every
/// message; panics after `limit` ticks.
fn run_until_idle(world: &mut World, limit: usize) -> (Vec<Dispatch>, usize) {
    let mut all = Vec::new();
    for n in 1..=limit {
        all.extend(world.run_tick(Vec::new()));
        if world.mechanics.is_empty() {
            return (all, n);
        }
    }
    panic!("mechanics still running after {} ticks", limit);
}

#[test]
fn roster_updates_leave_one_player_per_connection() {
    let (a, b) = (sid("AAAAAAAAAAAAAAAA"), sid("BBBBBBBBBBBBBBBB"));
    let mut world = create_world();
    world.run_tick(vec![join(a, 1, "p1"), join(b, 2, "p1"), join(a, 1, "p2"), join(a, 1, "p3")]);
    assert_eq!(world.players.len(), 2);
    let pa = world.players.iter().find(|p| p.socket.id == a).unwrap();
    assert_eq!(pa.party.id, "p3");
    let pb = world.players.iter().find(|p| p.socket.id == b).unwrap();
    assert_eq!(pb.party.id, "p1");
    // p2 lost its only player, so only the containers of p1 and p3 remain.
    let mut parties: Vec<&str> = world.parties.iter().map(|c| c.party.id.as_str()).collect();
    parties.sort();
    assert_eq!(parties, vec!["p1", "p3"]);
    let container = world.parties.iter().find(|c| c.party.id == "p3").unwrap();
    assert_eq!(pa.parent, container.entity);
}

#[test]
fn roster_update_keeps_entity_and_status() {
    let a = sid("AAAAAAAAAAAAAAAA");
    let mut world = create_world();
    world.run_tick(vec![join(a, 1, "p1"), status(a, 1500, -2500, true)]);
    let entity = world.players[0].entity;
    world.run_tick(vec![MessageToEcs::UpdatePlayer {
        socket_id: a,
        content_id: 7,
        name: "renamed".to_string(),
        role: Role::Healer,
        party: "p1".to_string(),
    }]);
    let p = &world.players[0];
    assert_eq!(p.entity, entity);
    assert_eq!(p.player.content_id, 7);
    assert_eq!(p.player.name, "renamed");
    assert_eq!(p.role, Role::Healer);
    assert_eq!(p.position, Some(Position { x: 1500, y: 0, z: -2500 }));
}

#[test]
fn roster_update_tells_party_its_size() {
    let (a, b) = (sid("AAAAAAAAAAAAAAAA"), sid("BBBBBBBBBBBBBBBB"));
    let mut world = create_world();
    world.run_tick(vec![join(a, 1, "p1")]);
    let out = world.run_tick(vec![join(b, 2, "p1")]);
    assert_eq!(out.len(), 2);
    for d in &out {
        match d.message {
            Outbound::PartyStatus { connected_player_count } => assert_eq!(connected_player_count, 2),
            _ => panic!("unexpected message"),
        }
    }
}

#[test]
fn status_update_for_unknown_connection_is_ignored() {
    let (a, b) = (sid("AAAAAAAAAAAAAAAA"), sid("BBBBBBBBBBBBBBBB"));
    let mut world = create_world();
    world.run_tick(vec![join(a, 1, "p1"), status(b, 10, 10, false)]);
    assert_eq!(world.players[0].position, None);
    assert_eq!(world.players[0].state, None);
}

#[test]
fn status_update_stores_coordinates_as_given() {
    let a = sid("AAAAAAAAAAAAAAAA");
    let mut world = create_world();
    world.run_tick(vec![join(a, 1, "p1"), status(a, i32::MAX, i32::MIN, true)]);
    assert_eq!(world.players[0].position, Some(Position { x: i32::MAX, y: 0, z: i32::MIN }));
}

#[test]
fn last_player_leaving_destroys_party_and_mechanics() {
    let (a, b) = (sid("AAAAAAAAAAAAAAAA"), sid("BBBBBBBBBBBBBBBB"));
    let mut world = create_world();
    world.run_tick(vec![join(a, 1, "p1"), join(b, 2, "p2")]);
    world.run_tick(vec![
        start(a, "r1", SPREAD_ID),
        start_at(a, "r2", TRAP_ID, 0, 0),
        start(b, "r1", SPREAD_ID),
    ]);
    assert_eq!(world.mechanics.len(), 3);
    world.run_tick(vec![MessageToEcs::RemovePlayer { socket_id: a }]);
    assert!(world.players.iter().all(|p| p.socket.id != a));
    assert!(world.parties.iter().all(|c| c.party.id != "p1"));
    assert_eq!(world.mechanics.len(), 1);
    assert_eq!(world.mechanics[0].party.id, "p2");
}

#[test]
fn party_with_only_the_same_content_id_left_is_destroyed() {
    // A reconnect: two connections carry the same player identity.
    let (a, b, c) = (sid("AAAAAAAAAAAAAAAA"), sid("BBBBBBBBBBBBBBBB"), sid("CCCCCCCCCCCCCCCC"));
    let mut world = create_world();
    world.run_tick(vec![join(a, 1, "p1"), join(b, 1, "p1"), join(c, 3, "p2")]);
    world.run_tick(vec![start(a, "r1", SPREAD_ID), start_at(a, "r2", TRAP_ID, 0, 0), start(c, "r1", SPREAD_ID)]);
    let out = world.run_tick(vec![MessageToEcs::RemovePlayer { socket_id: a }]);
    assert!(world.players.iter().all(|p| p.party.id != "p1"));
    assert!(world.parties.iter().all(|p| p.party.id != "p1"));
    assert_eq!(world.mechanics.len(), 1);
    assert_eq!(world.mechanics[0].party.id, "p2");
    assert!(out.iter().all(|d| !matches!(d.message, Outbound::PartyStatus { .. })));
    assert_eq!(world.players.len(), 1);
}

#[test]
fn moving_away_from_a_same_content_party_destroys_it() {
    let (a, b) = (sid("AAAAAAAAAAAAAAAA"), sid("BBBBBBBBBBBBBBBB"));
    let mut world = create_world();
    world.run_tick(vec![join(a, 1, "p1"), join(b, 1, "p1"), start(a, "r1", SPREAD_ID)]);
    world.run_tick(vec![join(a, 1, "p2")]);
    assert_eq!(world.players.len(), 1);
    assert_eq!(world.players[0].socket.id, a);
    assert_eq!(world.players[0].party.id, "p2");
    assert!(world.parties.iter().all(|p| p.party.id != "p1"));
    assert!(world.mechanics.is_empty());
}

#[test]
fn a_member_with_another_content_id_keeps_the_party() {
    let (a, b) = (sid("AAAAAAAAAAAAAAAA"), sid("BBBBBBBBBBBBBBBB"));
    let mut world = create_world();
    world.run_tick(vec![join(a, 1, "p1"), join(b, 2, "p1"), start(a, "r1", SPREAD_ID)]);
    world.run_tick(vec![join(a, 1, "p2")]);
    assert_eq!(world.players.len(), 2);
    assert!(world.parties.iter().any(|p| p.party.id == "p1"));
    assert_eq!(world.mechanics.len(), 1);
}

#[test]
fn leaving_a_party_with_players_left_tells_them() {
    let (a, b) = (sid("AAAAAAAAAAAAAAAA"), sid("BBBBBBBBBBBBBBBB"));
    let mut world = create_world();
    world.run_tick(vec![join(a, 1, "p1"), join(b, 2, "p1"), start(a, "r1", SPREAD_ID)]);
    let out = world.run_tick(vec![MessageToEcs::RemovePlayer { socket_id: b }]);
    assert!(out.iter().any(|d| d.socket == a
        && matches!(d.message, Outbound::PartyStatus { connected_player_count: 1 })));
    assert_eq!(world.parties.len(), 1);
    assert_eq!(world.mechanics.len(), 1);
}

#[test]
fn duplicate_start_creates_nothing() {
    let a = sid("AAAAAAAAAAAAAAAA");
    let mut world = create_world();
    world.run_tick(vec![join(a, 1, "p1"), start(a, "r1", SPREAD_ID)]);
    let entity = world.mechanics[0].entity;
    world.run_tick(vec![start(a, "r1", SPREAD_ID), start(a, "r1", ENUMERATION_ID)]);
    assert_eq!(world.mechanics.len(), 1);
    assert_eq!(world.mechanics[0].entity, entity);
    world.run_tick(vec![start(a, "r2", SPREAD_ID)]);
    assert_eq!(world.mechanics.len(), 2);
}

#[test]
fn unknown_kind_and_trap_without_place_are_ignored() {
    let (a, b) = (sid("AAAAAAAAAAAAAAAA"), sid("BBBBBBBBBBBBBBBB"));
    let mut world = create_world();
    world.run_tick(vec![
        join(a, 1, "p1"),
        start(a, "r1", 99),
        start(a, "r2", TRAP_ID),
        start(b, "r3", SPREAD_ID),
    ]);
    assert!(world.mechanics.is_empty());
}

#[test]
fn clearing_mechanics_touches_only_own_party() {
    let (a, b) = (sid("AAAAAAAAAAAAAAAA"), sid("BBBBBBBBBBBBBBBB"));
    let mut world = create_world();
    world.run_tick(vec![
        join(a, 1, "p1"),
        join(b, 2, "p2"),
        start(a, "r1", SPREAD_ID),
        start(a, "r2", ENUMERATION_ID),
        start(b, "r1", SPREAD_ID),
    ]);
    for _ in 0..5 {
        world.run_tick(Vec::new());
    }
    world.run_tick(vec![MessageToEcs::ClearMechanics { socket_id: a }]);
    assert_eq!(world.mechanics.len(), 1);
    assert_eq!(world.mechanics[0].party.id, "p2");
    assert_eq!(world.mechanics[0].phase, Phase::Omen);
}

#[test]
fn proximity_mechanic_stuns_only_overlapping_players() {
    let ids = ["AAAAAAAAAAAAAAAA", "BBBBBBBBBBBBBBBB", "CCCCCCCCCCCCCCCC", "DDDDDDDDDDDDDDDD"];
    let s: Vec<Sid> = ids.iter().map(|i| sid(i)).collect();
    let mut world = create_world();
    world.run_tick(vec![
        join(s[0], 1, "p1"),
        join(s[1], 2, "p1"),
        join(s[2], 3, "p1"),
        join(s[3], 4, "p1"),
        status(s[0], 0, 0, true),
        status(s[1], 2000, 1000, true),
        status(s[2], 100_000, 0, true),
        status(s[3], -100_000, 0, true),
        start(s[0], "r1", SPREAD_ID),
    ]);
    let (out, _) = run_until_idle(&mut world, 1000);
    assert_eq!(stuns_for(&out, s[0]), vec![5000]);
    assert_eq!(stuns_for(&out, s[1]), vec![5000]);
    assert!(stuns_for(&out, s[2]).is_empty());
    assert!(stuns_for(&out, s[3]).is_empty());
}

#[test]
fn proximity_mechanic_runs_its_full_course() {
    let (a, b) = (sid("AAAAAAAAAAAAAAAA"), sid("BBBBBBBBBBBBBBBB"));
    let mut world = create_world();
    world.run_tick(vec![join(a, 1, "p1"), join(b, 2, "p1")]);
    let mut all = world.run_tick(vec![start(a, "r1", SPREAD_ID)]);
    assert_eq!(world.mechanics[0].phase, Phase::Omen);
    let mut ticks = 1;
    while !world.mechanics.is_empty() {
        all.extend(world.run_tick(vec![status(a, 0, 0, true), status(b, 3000, 4000, true)]));
        ticks += 1;
        assert!(ticks < 1000);
    }
    // One tick to assign, 320 to the snapshot, 12 more to the effects.
    assert_eq!(ticks, 333);
    assert_eq!(stuns_for(&all, a), vec![5000]);
    assert_eq!(stuns_for(&all, b), vec![5000]);
    let omens = all
        .iter()
        .filter(|d| matches!(&d.message, Outbound::PlayActorVfxOnTarget { vfx_path, content_id_targets }
            if vfx_path == "vfx/lockon/eff/target_ae_s5f.avfx" && content_id_targets == &vec![1, 2]))
        .count();
    assert_eq!(omens, 2);
}

#[test]
fn dead_players_are_not_hit() {
    let (a, b) = (sid("AAAAAAAAAAAAAAAA"), sid("BBBBBBBBBBBBBBBB"));
    let mut world = create_world();
    world.run_tick(vec![
        join(a, 1, "p1"),
        join(b, 2, "p1"),
        status(a, 0, 0, true),
        status(b, 100, 0, false),
        start(a, "r1", SPREAD_ID),
    ]);
    let (out, _) = run_until_idle(&mut world, 1000);
    assert!(stuns_for(&out, a).is_empty());
    assert!(stuns_for(&out, b).is_empty());
}

#[test]
fn shared_hit_on_a_lone_target_stuns_it() {
    let a = sid("AAAAAAAAAAAAAAAA");
    let mut world = create_world();
    world.run_tick(vec![join(a, 1, "p1"), status(a, 0, 0, true), start(a, "r1", ENUMERATION_ID)]);
    assert_eq!(world.mechanics[0].targets.player_entities, vec![world.players[0].entity]);
    let (out, ticks) = run_until_idle(&mut world, 1000);
    // 384 ticks to the snapshot and 12 more to the effects.
    assert_eq!(ticks, 396);
    assert_eq!(stuns_for(&out, a), vec![5000]);
    let attacks = out
        .iter()
        .filter(|d| matches!(&d.message, Outbound::PlayActorVfxOnTarget { content_id_targets, .. }
            if content_id_targets == &vec![1]))
        .count();
    assert_eq!(attacks, 2);
}

#[test]
fn shared_hit_with_company_stuns_nobody() {
    let (a, b) = (sid("AAAAAAAAAAAAAAAA"), sid("BBBBBBBBBBBBBBBB"));
    let mut world = create_world();
    world.run_tick(vec![
        join(a, 1, "p1"),
        join(b, 2, "p1"),
        status(a, 0, 0, true),
        status(b, 1000, 1000, true),
        start(a, "r1", ENUMERATION_ID),
    ]);
    assert_eq!(world.mechanics[0].targets.player_entities.len(), 1);
    let (out, _) = run_until_idle(&mut world, 1000);
    assert!(stuns_for(&out, a).is_empty());
    assert!(stuns_for(&out, b).is_empty());
}

#[test]
fn trap_goes_off_when_a_player_steps_near() {
    let (a, b) = (sid("AAAAAAAAAAAAAAAA"), sid("BBBBBBBBBBBBBBBB"));
    let mut world = create_world();
    world.run_tick(vec![
        join(a, 1, "p1"),
        join(b, 2, "p1"),
        status(a, 50_000, 0, true),
        status(b, 4000, 0, true),
        start_at(a, "trap", TRAP_ID, 0, 0),
    ]);
    assert_eq!(world.mechanics[0].phase, Phase::Omen);
    let vfx = world.mechanics[0].vfx.unwrap().id;
    for _ in 0..200 {
        world.run_tick(Vec::new());
    }
    assert_eq!(world.mechanics[0].phase, Phase::Omen);
    let mut out = world.run_tick(vec![status(a, 1000, 1000, true)]);
    let mut n = 0;
    while !world.mechanics.is_empty() {
        out.extend(world.run_tick(Vec::new()));
        n += 1;
        assert!(n < 100);
    }
    assert!(out.iter().any(|d| d.socket == a && matches!(d.message, Outbound::StopVfx { id } if id == vfx)));
    assert!(out.iter().any(|d| d.socket == b && matches!(d.message, Outbound::PlayActorVfxOnPosition { .. })));
    assert_eq!(stuns_for(&out, a), vec![10_000]);
    assert_eq!(stuns_for(&out, b), vec![10_000]);
}

#[test]
fn trap_that_never_goes_off_expires() {
    let a = sid("AAAAAAAAAAAAAAAA");
    let mut world = create_world();
    world.run_tick(vec![join(a, 1, "p1"), status(a, 90_000, 0, true), start_at(a, "trap", TRAP_ID, 0, 0)]);
    let (out, ticks) = run_until_idle(&mut world, 300_000);
    assert_eq!(ticks, 230_399);
    assert!(stuns_for(&out, a).is_empty());
}

#[test]
fn trap_shows_a_fresh_effect_id_to_the_party() {
    let a = sid("AAAAAAAAAAAAAAAA");
    let mut world = create_world();
    let out = world.run_tick(vec![join(a, 1, "p1"), start_at(a, "t1", TRAP_ID, 100, 200)]);
    let shown: Vec<u128> = out
        .iter()
        .filter_map(|d| match &d.message {
            Outbound::PlayStaticVfx { id, is_omen, transform, .. } => {
                assert!(*is_omen);
                assert_eq!((transform.x, transform.z), (100, 200));
                Some(*id)
            }
            _ => None,
        })
        .collect();
    assert_eq!(shown.len(), 1);
    assert_eq!(world.mechanics[0].vfx.unwrap().id, shown[0]);
}

#[test]
fn transform_needs_all_four_values() {
    assert_eq!(convert_to_transform(Some(1), Some(2), None, Some(4)), None);
    let t = convert_to_transform(Some(1), Some(-2), Some(3), Some(4)).unwrap();
    assert_eq!((t.x, t.y, t.z, t.rotation), (1, -2, 3, 4));
    let c = convert_to_transform(Some(i32::MIN), Some(2_000_000_000), Some(i32::MAX), Some(-7)).unwrap();
    assert_eq!((c.x, c.y, c.z, c.rotation), (i32::MIN, 2_000_000_000, i32::MAX, -7));
}
