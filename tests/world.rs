use game_relay::client_data::ClientPosition;
use game_relay::game_world::{GameWorld, PeerPlayerInfo};

fn pos(x: f32, y: f32) -> ClientPosition {
    ClientPosition { x: x.to_bits(), y: y.to_bits() }
}

#[test]
fn default_world_holds_two() {
    let w = GameWorld::default();
    assert_eq!(w.max_players_count(), 2);
    assert_eq!(w.len(), 0);
}

#[test]
fn add_player_stops_at_capacity() {
    let mut w = GameWorld::new(2);
    assert!(w.add_player(1, pos(0.0, 0.0)));
    assert!(w.add_player(2, pos(1.0, 2.0)));
    assert!(!w.add_player(3, pos(0.0, 0.0)));
    assert_eq!(w.len(), 2);
    assert!(!w.contains_player(3));
}

#[test]
fn add_player_refuses_a_present_id() {
    let mut w = GameWorld::new(3);
    assert!(w.add_player(1, pos(0.0, 0.0)));
    assert!(!w.add_player(1, pos(4.0, 4.0)));
    assert_eq!(w.len(), 1);
    assert_eq!(w.get_player_position(1), Some(pos(0.0, 0.0)));
}

#[test]
fn zero_capacity_admits_no_one() {
    let mut w = GameWorld::new(0);
    assert!(!w.add_player(1, pos(0.0, 0.0)));
    assert_eq!(w.len(), 0);
}

#[test]
fn remove_player_returns_the_position() {
    let mut w = GameWorld::new(2);
    w.add_player(1, pos(3.0, 4.0));
    assert_eq!(w.remove_player(1), Some(pos(3.0, 4.0)));
    assert_eq!(w.remove_player(1), None);
    assert_eq!(w.len(), 0);
}

#[test]
fn update_player_position_ignores_absent_ids() {
    let mut w = GameWorld::new(2);
    w.add_player(1, pos(0.0, 0.0));
    w.update_player_position(2, 9.0f32.to_bits(), 9.0f32.to_bits());
    assert_eq!(w.get_world_update(0), vec![PeerPlayerInfo { player_id: 1, x: 0, y: 0 }]);
    w.update_player_position(1, 5.0f32.to_bits(), 7.0f32.to_bits());
    assert_eq!(w.get_player_position(1), Some(pos(5.0, 7.0)));
}

#[test]
fn world_update_skips_one_id_in_join_order() {
    let mut w = GameWorld::new(3);
    w.add_player(30, pos(1.0, 1.0));
    w.add_player(10, pos(2.0, 2.0));
    w.add_player(20, pos(3.0, 3.0));
    let others: Vec<u64> = w.get_world_update(10).iter().map(|e| e.player_id).collect();
    assert_eq!(others, vec![30, 20]);
    assert_eq!(w.get_world_update(99).len(), 3);
}
