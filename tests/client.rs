use game_relay::client::{client_update_frame, LocalPlayer, Player, RemotePlayer, Roster};
use game_relay::codec::decode;
use game_relay::messages::{GameServerMessage, Position, RemoteState, State};

fn at(x: f32, y: f32) -> Position {
    Position { x: x.to_bits(), y: y.to_bits() }
}

fn roster() -> Roster {
    Roster::new(LocalPlayer { player: Player::new(0, at(100.0, 100.0), 0) })
}

#[test]
fn welcome_sets_the_local_id() {
    let mut r = roster();
    r.update_from_server(GameServerMessage::Welcome(4));
    let local = r.local_player_state();
    assert_eq!(local.player.id, 4);
    assert_eq!(local.player.position, at(100.0, 100.0));
}

#[test]
fn server_update_moves_local_and_creates_remotes() {
    let mut r = roster();
    r.update_from_server(GameServerMessage::Welcome(1));
    r.update_from_server(GameServerMessage::ServerUpdate(vec![
        RemoteState { id: 1, position: at(1.0, 2.0), rotation: 3 },
        RemoteState { id: 2, position: at(5.0, 5.0), rotation: 1.57f32.to_bits() },
    ]));
    assert_eq!(r.local_player_state().player, Player::new(1, at(1.0, 2.0), 3));
    assert_eq!(r.remote(2), Some(RemotePlayer::new(2, at(5.0, 5.0), 1.57f32.to_bits())));
    assert_eq!(r.remote(1), None);
    assert_eq!(r.remote_ids(), vec![2]);
}

#[test]
fn server_update_moves_known_remote() {
    let mut r = roster();
    r.update_from_server(GameServerMessage::ServerUpdate(vec![RemoteState { id: 2, position: at(1.0, 1.0), rotation: 0 }]));
    r.update_from_server(GameServerMessage::ServerUpdate(vec![RemoteState { id: 2, position: at(7.0, 8.0), rotation: 9 }]));
    assert_eq!(r.remote(2), Some(RemotePlayer::new(2, at(7.0, 8.0), 9)));
    assert_eq!(r.remote_ids(), vec![2]);
}

#[test]
fn goodbye_forgets_the_remote() {
    let mut r = roster();
    r.update_from_server(GameServerMessage::ServerUpdate(vec![
        RemoteState { id: 2, position: at(1.0, 1.0), rotation: 0 },
        RemoteState { id: 3, position: at(2.0, 2.0), rotation: 0 },
    ]));
    r.update_from_server(GameServerMessage::Goodbye(2));
    assert_eq!(r.remote(2), None);
    assert_eq!(r.remote_ids(), vec![3]);
    r.update_from_server(GameServerMessage::Goodbye(9));
    assert_eq!(r.remote_ids(), vec![3]);
}

#[test]
fn client_update_from_server_is_ignored() {
    let mut r = roster();
    r.update_from_server(GameServerMessage::ClientUpdate(State { id: 0, position: at(3.0, 3.0), rotation: 1 }));
    assert_eq!(r.local_player_state().player.position, at(100.0, 100.0));
    assert!(r.remote_ids().is_empty());
}

#[test]
fn move_local_keeps_the_id() {
    let mut r = roster();
    r.update_from_server(GameServerMessage::Welcome(6));
    r.move_local(at(4.0, 5.0), 7);
    assert_eq!(r.local_player_state().player, Player::new(6, at(4.0, 5.0), 7));
}

#[test]
fn client_update_frame_reports_local_pose() {
    let local = LocalPlayer { player: Player::new(3, at(1.5, -2.0), 0.75f32.to_bits()) };
    let frame = client_update_frame(&local);
    assert_eq!(
        decode(&frame),
        Ok(GameServerMessage::ClientUpdate(State { id: 3, position: at(1.5, -2.0), rotation: 0.75f32.to_bits() }))
    );
}
