use game_relay::client_data::{ClientControls, ClientData, ClientPosition};
use game_relay::codec::{create_peer_left_bytes, create_player_moved_bytes};
use game_relay::game_server::GameServer;
use game_relay::message_types::{Disconnect, PeerPlayerData, PeerPlayerPositionUpdate};
use game_relay::peer::{CloseReason, Peer, PeerAction, PeerInput, PeerState};

fn pos(x: f32, y: f32) -> ClientPosition {
    ClientPosition { x: x.to_bits(), y: y.to_bits() }
}

fn active(id: u64) -> Peer {
    let mut p = Peer::create(0, 10);
    assert!(p.handle(0, PeerInput::Joined { id }).is_empty());
    assert_eq!(p.state, PeerState::Active);
    p
}

#[test]
fn scenario_silent_drop_leaves_once_after_timeout() {
    let mut g: GameServer<u8> = GameServer::new();
    let id = match g.join_as(1, 0) {
        Ok(a) => a.player_id,
        Err(e) => panic!("{:?}", e),
    };
    let mut p = Peer::create(0, 10);
    p.handle(0, PeerInput::Joined { id });
    assert!(p.handle(5, PeerInput::Tick).is_empty());
    assert!(p.handle(10, PeerInput::Tick).is_empty());
    let actions = p.handle(11, PeerInput::Tick);
    assert_eq!(
        actions,
        vec![
            PeerAction::Close { reason: CloseReason::Timeout },
            PeerAction::Leave { disconnect: Disconnect { id: 1 } },
        ]
    );
    g.handle_disconnect(Disconnect { id: 1 });
    assert!(!g.is_admitted(1));
    assert!(p.handle(30, PeerInput::Tick).is_empty());
    assert!(p.handle(31, PeerInput::Failure).is_empty());
    assert_eq!(p.state, PeerState::Closed);
}

#[test]
fn pings_keep_the_session_alive() {
    let mut p = active(3);
    assert_eq!(p.handle(8, PeerInput::Ping), vec![PeerAction::WritePong]);
    assert!(p.handle(15, PeerInput::Tick).is_empty());
    assert!(p.handle(18, PeerInput::Pong).is_empty());
    assert!(p.handle(28, PeerInput::Tick).is_empty());
    assert_eq!(p.handle(29, PeerInput::Tick).len(), 2);
}

#[test]
fn binary_frames_become_position_updates() {
    let mut p = active(4);
    let bytes = create_player_moved_bytes(ClientData {
        player_controls: ClientControls::released(),
        player_position: pos(5.0, 7.0),
    });
    assert_eq!(
        p.handle(1, PeerInput::Binary { bytes }),
        vec![PeerAction::UpdatePosition {
            update: PeerPlayerPositionUpdate { player_position: pos(5.0, 7.0), player_id: 4 },
        }]
    );
}

#[test]
fn malformed_frames_are_dropped() {
    let mut p = active(4);
    assert!(p.handle(1, PeerInput::Binary { bytes: vec![7, 7, 7] }).is_empty());
    assert!(p.handle(1, PeerInput::Text).is_empty());
    assert_eq!(p.state, PeerState::Active);
}

#[test]
fn outbound_events_are_encoded() {
    let mut p = active(4);
    assert_eq!(
        p.handle(1, PeerInput::Outbound { data: PeerPlayerData::RemotePeerLeft { player_id: 9 } }),
        vec![PeerAction::WriteBinary { bytes: create_peer_left_bytes(9) }]
    );
}

#[test]
fn close_frame_closes_and_leaves() {
    let mut p = active(6);
    assert_eq!(
        p.handle(2, PeerInput::CloseFrame),
        vec![
            PeerAction::Close { reason: CloseReason::Normal },
            PeerAction::Leave { disconnect: Disconnect { id: 6 } },
        ]
    );
    assert!(p.handle(3, PeerInput::CloseFrame).is_empty());
}

#[test]
fn refused_join_closes_with_room_full() {
    let mut p = Peer::create(0, 10);
    assert_eq!(
        p.handle(1, PeerInput::JoinRefused),
        vec![
            PeerAction::Close { reason: CloseReason::RoomFull },
            PeerAction::Leave { disconnect: Disconnect { id: 0 } },
        ]
    );
    assert_eq!(p.state, PeerState::Closed);
}

#[test]
fn drop_before_join_answer_leaves_when_it_comes() {
    let mut p = Peer::create(0, 10);
    assert_eq!(p.handle(1, PeerInput::Failure), vec![PeerAction::Close { reason: CloseReason::Error }]);
    assert_eq!(p.state, PeerState::Closing);
    assert_eq!(
        p.handle(2, PeerInput::Joined { id: 8 }),
        vec![PeerAction::Leave { disconnect: Disconnect { id: 8 } }]
    );
    assert_eq!(p.state, PeerState::Closed);
    assert!(p.handle(3, PeerInput::Joined { id: 8 }).is_empty());
}
