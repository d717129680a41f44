use game_relay::codec::{decode, encode, DecodeError};
use game_relay::ids::IdAllocator;
use game_relay::messages::{GameServerMessage, Position, RemoteState, State};
use game_relay::relay::{pause_after, parse_message, Inbound, Relay};

fn pose(x: f32, y: f32, rotation: f32) -> (Position, u32) {
    (Position { x: x.to_bits(), y: y.to_bits() }, rotation.to_bits())
}

fn client_update(claimed_id: u16, x: f32, y: f32, rotation: f32) -> Vec<u8> {
    let (position, rotation) = pose(x, y, rotation);
    encode(&GameServerMessage::ClientUpdate(State { id: claimed_id, position, rotation }))
}

fn sorted(mut v: Vec<RemoteState>) -> Vec<RemoteState> {
    v.sort_by_key(|s| s.id);
    v
}

fn sorted_ids(mut v: Vec<u16>) -> Vec<u16> {
    v.sort();
    v
}

fn new_relay() -> Relay<&'static str> {
    Relay::new(IdAllocator::new())
}

#[test]
fn connect_welcomes_each_peer_with_a_fresh_id() {
    let mut relay = new_relay();
    let (a, welcome_a) = relay.connect("a").unwrap();
    let (b, welcome_b) = relay.connect("b").unwrap();
    assert_eq!(a, 1);
    assert_eq!(b, 2);
    assert_eq!(decode(&welcome_a), Ok(GameServerMessage::Welcome(1)));
    assert_eq!(decode(&welcome_b), Ok(GameServerMessage::Welcome(2)));
    assert_eq!(relay.handle(1), Some(&"a"));
    assert_eq!(relay.handle(2), Some(&"b"));
}

#[test]
fn new_peer_starts_at_the_spawn_pose() {
    let mut relay = new_relay();
    relay.connect("a").unwrap();
    let snap = relay.snapshot();
    assert_eq!(snap, vec![RemoteState { id: 1, position: Position { x: 0, y: 0 }, rotation: 0 }]);
}

#[test]
fn ids_are_not_reused_after_a_disconnect() {
    let mut relay = new_relay();
    let (a, _) = relay.connect("a").unwrap();
    relay.disconnect(a).unwrap();
    let (b, _) = relay.connect("b").unwrap();
    assert_ne!(a, b);
}

#[test]
fn connect_is_refused_once_ids_run_out() {
    let mut relay: Relay<u8> = Relay::new(IdAllocator::starting_at(65535));
    assert_eq!(relay.connect(1).map(|(id, _)| id), Some(65535));
    assert!(relay.connect(2).is_none());
    assert_eq!(relay.recipients(), vec![65535]);
}

#[test]
fn registry_and_store_hold_the_same_ids() {
    let mut relay = new_relay();
    relay.connect("a").unwrap();
    relay.connect("b").unwrap();
    relay.connect("c").unwrap();
    relay.disconnect(2).unwrap();
    let ids = sorted_ids(relay.recipients());
    let stored: Vec<u16> = sorted(relay.snapshot()).iter().map(|s| s.id).collect();
    assert_eq!(ids, vec![1, 3]);
    assert_eq!(stored, ids);
    assert!(relay.handle(2).is_none());
}

#[test]
fn broadcast_carries_every_stored_pose() {
    let mut relay = new_relay();
    relay.connect("a").unwrap();
    relay.connect("b").unwrap();
    assert_eq!(relay.receive(1, &client_update(1, 0.0, 0.0, 0.0)), Inbound::Applied);
    assert_eq!(relay.receive(2, &client_update(2, 5.0, 5.0, 1.57)), Inbound::Applied);
    let d = relay.tick().unwrap();
    assert_eq!(sorted_ids(d.recipients.clone()), vec![1, 2]);
    let (p1, r1) = pose(0.0, 0.0, 0.0);
    let (p2, r2) = pose(5.0, 5.0, 1.57);
    match decode(&d.frame) {
        Ok(GameServerMessage::ServerUpdate(v)) => assert_eq!(
            sorted(v),
            vec![
                RemoteState { id: 1, position: p1, rotation: r1 },
                RemoteState { id: 2, position: p2, rotation: r2 },
            ]
        ),
        _ => panic!("expected a server update"),
    }
}

#[test]
fn empty_store_sends_no_update() {
    let mut relay = new_relay();
    assert!(relay.tick().is_none());
    relay.connect("a").unwrap();
    assert!(relay.tick().is_some());
    relay.disconnect(1).unwrap();
    assert!(relay.tick().is_none());
}

#[test]
fn goodbye_goes_once_to_each_remaining_peer() {
    let mut relay = new_relay();
    relay.connect("a").unwrap();
    relay.connect("b").unwrap();
    relay.connect("c").unwrap();
    let d = relay.disconnect(1).unwrap();
    assert_eq!(decode(&d.frame), Ok(GameServerMessage::Goodbye(1)));
    assert_eq!(sorted_ids(d.recipients), vec![2, 3]);
    match decode(&relay.tick().unwrap().frame) {
        Ok(GameServerMessage::ServerUpdate(v)) => {
            assert_eq!(v.len(), 2);
            assert!(v.iter().all(|s| s.id != 1));
        }
        _ => panic!("expected a server update"),
    }
}

#[test]
fn last_peer_leaving_has_nobody_to_tell() {
    let mut relay = new_relay();
    relay.connect("a").unwrap();
    let d = relay.disconnect(1).unwrap();
    assert!(d.recipients.is_empty());
}

#[test]
fn disconnect_of_unknown_peer_changes_nothing() {
    let mut relay = new_relay();
    relay.connect("a").unwrap();
    assert!(relay.disconnect(7).is_none());
    assert_eq!(relay.recipients(), vec![1]);
}

#[test]
fn client_update_touches_only_the_sender() {
    let mut relay = new_relay();
    relay.connect("a").unwrap();
    relay.connect("b").unwrap();
    // peer 1 claims to be peer 2
    assert_eq!(relay.receive(1, &client_update(2, 9.0, 8.0, 0.5)), Inbound::Applied);
    let snap = sorted(relay.snapshot());
    let (p, r) = pose(9.0, 8.0, 0.5);
    assert_eq!(snap[0], RemoteState { id: 1, position: p, rotation: r });
    assert_eq!(snap[1], RemoteState { id: 2, position: Position { x: 0, y: 0 }, rotation: 0 });
}

#[test]
fn later_update_replaces_earlier_one() {
    let mut relay = new_relay();
    relay.connect("a").unwrap();
    relay.receive(1, &client_update(1, 1.0, 1.0, 1.0));
    relay.receive(1, &client_update(1, 2.0, 3.0, 4.0));
    let (p, r) = pose(2.0, 3.0, 4.0);
    assert_eq!(relay.snapshot(), vec![RemoteState { id: 1, position: p, rotation: r }]);
}

#[test]
fn malformed_frame_is_dropped_and_the_peer_stays() {
    let mut relay = new_relay();
    relay.connect("a").unwrap();
    let before = relay.snapshot();
    assert_eq!(relay.receive(1, &[7, 7, 7]), Inbound::Malformed(DecodeError::UnknownTag(7)));
    assert_eq!(relay.receive(1, &[]), Inbound::Malformed(DecodeError::Empty));
    assert_eq!(relay.receive(1, &[3, 0]), Inbound::Malformed(DecodeError::BadLength));
    assert_eq!(relay.snapshot(), before);
    assert_eq!(relay.recipients(), vec![1]);
    assert_eq!(relay.receive(1, &client_update(1, 1.0, 2.0, 3.0)), Inbound::Applied);
}

#[test]
fn server_messages_from_a_client_are_ignored() {
    let mut relay = new_relay();
    relay.connect("a").unwrap();
    let before = relay.snapshot();
    let frame = encode(&GameServerMessage::Welcome(5));
    assert_eq!(relay.receive(1, &frame), Inbound::Ignored);
    assert_eq!(relay.snapshot(), before);
}

#[test]
fn update_from_unknown_peer_is_ignored() {
    let mut relay = new_relay();
    relay.connect("a").unwrap();
    assert_eq!(relay.receive(4, &client_update(4, 1.0, 1.0, 1.0)), Inbound::Ignored);
    assert_eq!(relay.recipients(), vec![1]);
}

#[test]
fn user_message_applies_client_update_with_own_id() {
    let mut relay = new_relay();
    relay.connect("a").unwrap();
    let (position, rotation) = pose(3.0, 4.0, 0.25);
    let msg = GameServerMessage::ClientUpdate(State { id: 99, position, rotation });
    assert!(relay.user_message(1, &msg));
    assert_eq!(relay.snapshot(), vec![RemoteState { id: 1, position, rotation }]);
    assert!(!relay.user_message(1, &GameServerMessage::Goodbye(1)));
}

#[test]
fn parse_message_accepts_only_well_formed_frames() {
    assert_eq!(parse_message(&[0, 0, 5]), Some(GameServerMessage::Welcome(5)));
    assert_eq!(parse_message(&[0, 0]), None);
    assert_eq!(parse_message(&[4]), None);
}

#[test]
fn pause_fills_up_the_interval_with_a_floor() {
    assert_eq!(pause_after(0), 50_000);
    assert_eq!(pause_after(10_000), 40_000);
    assert_eq!(pause_after(45_000), 5_000);
    assert_eq!(pause_after(48_000), 5_000);
    assert_eq!(pause_after(50_000), 5_000);
    assert_eq!(pause_after(u64::MAX), 5_000);
}
