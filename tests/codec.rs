use game_relay::client_data::{ClientControls, ClientData, ClientPosition};
use game_relay::codec::{
    create_peer_joined_bytes, create_peer_left_bytes, create_peer_position_bytes,
    create_player_moved_bytes, create_world_update_bytes, decode_server_frame,
    encode_server_frame, read_gameplay_data, DecodeError,
};
use game_relay::game_world::PeerPlayerInfo;
use game_relay::message_types::PeerPlayerData;

fn pos(x: f32, y: f32) -> ClientPosition {
    ClientPosition { x: x.to_bits(), y: y.to_bits() }
}

#[test]
fn peer_left_frame_bytes() {
    assert_eq!(create_peer_left_bytes(0x0102), vec![2, 2, 1, 0, 0, 0, 0, 0, 0]);
}

#[test]
fn peer_joined_frame_bytes() {
    let b = create_peer_joined_bytes(7, pos(1.0, -2.0));
    let mut expected = vec![1, 7, 0, 0, 0, 0, 0, 0, 0];
    expected.extend_from_slice(&1.0f32.to_bits().to_le_bytes());
    expected.extend_from_slice(&(-2.0f32).to_bits().to_le_bytes());
    assert_eq!(b, expected);
}

#[test]
fn peer_position_frame_bytes() {
    let b = create_peer_position_bytes(u64::MAX, pos(0.0, 0.0));
    assert_eq!(b.len(), 17);
    assert_eq!(b[0], 3);
    assert_eq!(&b[1..9], &[255u8; 8]);
    assert_eq!(&b[9..17], &[0u8; 8]);
}

#[test]
fn world_update_frame_is_length_prefixed() {
    let data = vec![
        PeerPlayerInfo { player_id: 1, x: 2, y: 3 },
        PeerPlayerInfo { player_id: 4, x: 5, y: 6 },
    ];
    let b = create_world_update_bytes(data);
    assert_eq!(b.len(), 9 + 32);
    assert_eq!(&b[0..9], &[4, 2, 0, 0, 0, 0, 0, 0, 0]);
    assert_eq!(&b[9..25], &[1, 0, 0, 0, 0, 0, 0, 0, 2, 0, 0, 0, 3, 0, 0, 0]);
    assert_eq!(create_world_update_bytes(Vec::new()), vec![4, 0, 0, 0, 0, 0, 0, 0, 0]);
}

#[test]
fn server_frames_round_trip() {
    let events = vec![
        PeerPlayerData::RemotePeerJoined { player_id: 9, player_position: pos(1.5, 2.5) },
        PeerPlayerData::RemotePeerLeft { player_id: 12345678901 },
        PeerPlayerData::RemotePeerPositionUpdate { player_id: 3, player_position: pos(-5.0, 7.0) },
        PeerPlayerData::WorldUpdate { world_data: vec![] },
        PeerPlayerData::WorldUpdate {
            world_data: vec![
                PeerPlayerInfo { player_id: 1, x: 1.0f32.to_bits(), y: 2.0f32.to_bits() },
                PeerPlayerInfo { player_id: 2, x: 0, y: u32::MAX },
            ],
        },
    ];
    for v in events {
        let copy = v.duplicate();
        let bytes = encode_server_frame(v);
        assert_eq!(decode_server_frame(&bytes), Ok(copy));
    }
}

#[test]
fn client_frames_round_trip() {
    let d = ClientData {
        player_controls: ClientControls { up: true, down: false, left: true, right: false },
        player_position: pos(5.0, 7.0),
    };
    let bytes = create_player_moved_bytes(d);
    assert_eq!(&bytes[0..6], &[1, 3, 1, 0, 1, 0]);
    assert_eq!(read_gameplay_data(&bytes), Ok(d));
}

#[test]
fn absent_parts_read_as_zero() {
    assert_eq!(
        read_gameplay_data(&[1, 0]),
        Ok(ClientData { player_controls: ClientControls::released(), player_position: pos(0.0, 0.0) })
    );
    let mut only_position = vec![1, 2];
    only_position.extend_from_slice(&3.0f32.to_bits().to_le_bytes());
    only_position.extend_from_slice(&4.0f32.to_bits().to_le_bytes());
    assert_eq!(
        read_gameplay_data(&only_position),
        Ok(ClientData { player_controls: ClientControls::released(), player_position: pos(3.0, 4.0) })
    );
    assert_eq!(
        read_gameplay_data(&[1, 1, 0, 1, 0, 1]),
        Ok(ClientData {
            player_controls: ClientControls { up: false, down: true, left: false, right: true },
            player_position: ClientPosition::origin(),
        })
    );
}

#[test]
fn client_frame_errors() {
    assert_eq!(read_gameplay_data(&[]), Err(DecodeError::Empty));
    assert_eq!(read_gameplay_data(&[2, 0]), Err(DecodeError::UnknownKind));
    assert_eq!(read_gameplay_data(&[1]), Err(DecodeError::BadLength));
    assert_eq!(read_gameplay_data(&[1, 4]), Err(DecodeError::InvalidField));
    assert_eq!(read_gameplay_data(&[1, 1, 0, 0, 0]), Err(DecodeError::BadLength));
    assert_eq!(read_gameplay_data(&[1, 0, 0]), Err(DecodeError::BadLength));
    assert_eq!(read_gameplay_data(&[1, 1, 0, 2, 0, 0]), Err(DecodeError::InvalidField));
}

#[test]
fn server_frame_errors() {
    assert_eq!(decode_server_frame(&[]), Err(DecodeError::Empty));
    assert_eq!(decode_server_frame(&[9, 0]), Err(DecodeError::UnknownKind));
    assert_eq!(decode_server_frame(&[2, 0, 0]), Err(DecodeError::BadLength));
    assert_eq!(decode_server_frame(&[1; 16]), Err(DecodeError::BadLength));
    // a world update that announces one entry but carries none
    assert_eq!(decode_server_frame(&[4, 1, 0, 0, 0, 0, 0, 0, 0]), Err(DecodeError::BadLength));
}
