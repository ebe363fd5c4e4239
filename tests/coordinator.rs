use game_relay::client_data::ClientPosition;
use game_relay::game_server::{Admission, GameServer, JoinError};
use game_relay::game_world::PeerPlayerInfo;
use game_relay::message_types::{
    Connect, Delivery, Disconnect, PeerPlayerData, PeerPlayerPositionUpdate,
};

fn pos(x: f32, y: f32) -> ClientPosition {
    ClientPosition { x: x.to_bits(), y: y.to_bits() }
}

fn origin() -> ClientPosition {
    pos(0.0, 0.0)
}

fn admitted(r: Result<Admission, JoinError>) -> Admission {
    match r {
        Ok(a) => a,
        Err(e) => panic!("join refused: {:?}", e),
    }
}

#[test]
fn scenario_room_of_two() {
    let mut g: GameServer<&str> = GameServer::with_capacity(2);
    let a1 = admitted(g.join_as(1, "s1"));
    assert_eq!(a1.player_id, 1);
    assert_eq!(
        a1.deliveries,
        vec![Delivery { to: 1, data: PeerPlayerData::WorldUpdate { world_data: vec![] } }]
    );
    let a2 = admitted(g.join_as(2, "s2"));
    assert_eq!(
        a2.deliveries,
        vec![
            Delivery {
                to: 1,
                data: PeerPlayerData::RemotePeerJoined { player_id: 2, player_position: origin() },
            },
            Delivery {
                to: 2,
                data: PeerPlayerData::WorldUpdate {
                    world_data: vec![PeerPlayerInfo { player_id: 1, x: 0, y: 0 }],
                },
            },
        ]
    );
    assert!(matches!(g.join_as(3, "s3"), Err(JoinError::RoomFull)));
    assert_eq!(g.players_online(), 2);
    assert!(g.peer_addr(3).is_none());
}

#[test]
fn scenario_update_reaches_only_the_other() {
    let mut g: GameServer<&str> = GameServer::new();
    admitted(g.join_as(1, "s1"));
    admitted(g.join_as(2, "s2"));
    let out = g.handle_position_update(PeerPlayerPositionUpdate {
        player_position: pos(5.0, 7.0),
        player_id: 1,
    });
    assert_eq!(
        out,
        vec![Delivery {
            to: 2,
            data: PeerPlayerData::RemotePeerPositionUpdate {
                player_id: 1,
                player_position: pos(5.0, 7.0),
            },
        }]
    );
    assert_eq!(g.world().get_player_position(1), Some(pos(5.0, 7.0)));
}

#[test]
fn update_from_unknown_id_goes_nowhere() {
    let mut g: GameServer<u8> = GameServer::new();
    admitted(g.join_as(1, 0));
    let out = g.handle_position_update(PeerPlayerPositionUpdate {
        player_position: pos(1.0, 1.0),
        player_id: 5,
    });
    assert!(out.is_empty());
    assert_eq!(g.world().get_player_position(1), Some(origin()));
}

#[test]
fn leave_twice_tells_others_once() {
    let mut g: GameServer<u8> = GameServer::with_capacity(3);
    admitted(g.join_as(1, 0));
    admitted(g.join_as(2, 0));
    admitted(g.join_as(3, 0));
    let first = g.handle_disconnect(Disconnect { id: 2 });
    assert_eq!(
        first,
        vec![
            Delivery { to: 1, data: PeerPlayerData::RemotePeerLeft { player_id: 2 } },
            Delivery { to: 3, data: PeerPlayerData::RemotePeerLeft { player_id: 2 } },
        ]
    );
    let second = g.handle_disconnect(Disconnect { id: 2 });
    assert!(second.is_empty());
    assert_eq!(g.players_online(), 2);
    assert!(!g.is_admitted(2));
    assert!(g.peer_addr(2).is_none());
}

#[test]
fn leave_of_unknown_id_is_a_no_op() {
    let mut g: GameServer<u8> = GameServer::new();
    admitted(g.join_as(1, 0));
    assert!(g.handle_disconnect(Disconnect { id: 0 }).is_empty());
    assert_eq!(g.players_online(), 1);
}

#[test]
fn a_freed_slot_admits_again() {
    let mut g: GameServer<u8> = GameServer::with_capacity(1);
    admitted(g.join_as(1, 0));
    assert!(matches!(g.join_as(2, 0), Err(JoinError::RoomFull)));
    g.handle_disconnect(Disconnect { id: 1 });
    let a = admitted(g.join_as(2, 0));
    assert_eq!(
        a.deliveries,
        vec![Delivery { to: 2, data: PeerPlayerData::WorldUpdate { world_data: vec![] } }]
    );
}

#[test]
fn join_refuses_zero_and_taken_ids() {
    let mut g: GameServer<u8> = GameServer::new();
    assert!(matches!(g.join_as(0, 0), Err(JoinError::IdUnavailable)));
    admitted(g.join_as(4, 0));
    assert!(matches!(g.join_as(4, 0), Err(JoinError::IdUnavailable)));
    assert_eq!(g.players_online(), 1);
}

#[test]
fn connect_draws_distinct_nonzero_ids() {
    let mut g: GameServer<u8> = GameServer::new();
    let a = admitted(g.handle_connect(Connect { peer_addr: 1 }));
    let b = admitted(g.handle_connect(Connect { peer_addr: 2 }));
    assert_ne!(a.player_id, 0);
    assert_ne!(b.player_id, 0);
    assert_ne!(a.player_id, b.player_id);
    assert_eq!(g.peer_addr(a.player_id), Some(&1));
    assert_eq!(g.peer_addr(b.player_id), Some(&2));
    assert!(matches!(g.handle_connect(Connect { peer_addr: 3 }), Err(JoinError::RoomFull)));
}

#[test]
fn capacity_holds_over_many_joins_and_leaves() {
    let mut g: GameServer<u8> = GameServer::with_capacity(3);
    for round in 0..50u64 {
        let _ = g.join_as(round % 7 + 1, 0);
        if round % 3 == 0 {
            g.handle_disconnect(Disconnect { id: round % 5 + 1 });
        }
        assert!(g.players_online() <= 3);
    }
}
