//! The binary frame format.
//!
//! Every frame starts with a one-byte kind. Integers are little-endian;
//! coordinates travel as the bit patterns of their `f32` values.
//!
//! Client to server, kind `PLAYER_MOVED`: a flags byte (`HAS_CONTROLS`,
//! `HAS_POSITION`, or `HAS_BOTH`), then four control bytes (each 0 or 1) when the controls
//! are present, then the position (x, y) when it is present. An absent part
//! reads as released controls or the origin.
//!
//! Server to client: kind, player id (8 bytes), position (8 bytes) for a
//! join or a move; kind and player id for a departure; for a world update,
//! kind, entry count (8 bytes), then 16 bytes per entry (id, x, y).
use vstd::bytes::*;
use vstd::prelude::*;
use vstd::slice::slice_subrange;

use crate::client_data::{ClientControls, ClientData, ClientPosition};
use crate::game_world::PeerPlayerInfo;
use crate::message_types::{OutboundEvent, PeerPlayerData};

verus! {

pub const PLAYER_MOVED: u8 = 1;

pub const HAS_CONTROLS: u8 = 1;

pub const HAS_POSITION: u8 = 2;

pub const HAS_BOTH: u8 = HAS_CONTROLS + HAS_POSITION;

pub const PEER_JOINED: u8 = 1;

pub const PEER_LEFT: u8 = 2;

pub const PEER_POSITION_UPDATE: u8 = 3;

pub const WORLD_UPDATE: u8 = 4;

/// Why a frame was refused.
#[derive(Debug, Clone, Copy, PartialEq, Eq, Structural)]
pub enum DecodeError {
    /// The frame holds no byte.
    Empty,
    /// The first byte names no known kind.
    UnknownKind,
    /// The frame is longer or shorter than its kind and flags call for.
    BadLength,
    /// A flags or control byte holds a value outside its range.
    InvalidField,
}

pub open spec fn position_bytes(p: ClientPosition) -> Seq<u8> {
    spec_u32_to_le_bytes(p.x) + spec_u32_to_le_bytes(p.y)
}

pub open spec fn position_from(s: Seq<u8>) -> ClientPosition {
    ClientPosition {
        x: spec_u32_from_le_bytes(s.subrange(0, 4)),
        y: spec_u32_from_le_bytes(s.subrange(4, 8)),
    }
}

pub open spec fn flag_byte(b: bool) -> u8 {
    if b {
        1
    } else {
        0
    }
}

pub open spec fn controls_bytes(c: ClientControls) -> Seq<u8> {
    seq![flag_byte(c.up), flag_byte(c.down), flag_byte(c.left), flag_byte(c.right)]
}

pub open spec fn entry_bytes(e: PeerPlayerInfo) -> Seq<u8> {
    spec_u64_to_le_bytes(e.player_id) + position_bytes(e.position())
}

pub open spec fn entry_from(s: Seq<u8>) -> PeerPlayerInfo {
    PeerPlayerInfo::at(spec_u64_from_le_bytes(s.subrange(0, 8)), position_from(s.subrange(8, 16)))
}

/// The entries laid end to end.
pub open spec fn entries_bytes(s: Seq<PeerPlayerInfo>) -> Seq<u8>
    decreases s.len(),
{
    if s.len() == 0 {
        Seq::empty()
    } else {
        entries_bytes(s.drop_last()) + entry_bytes(s.last())
    }
}

/// `n` entries read from consecutive 16-byte blocks of `s`.
pub open spec fn entries_from(s: Seq<u8>, n: nat) -> Seq<PeerPlayerInfo> {
    Seq::new(n, |i: int| entry_from(s.subrange(16 * i, 16 * i + 16)))
}

/// The frame that carries `e` to a client.
pub open spec fn server_frame(e: OutboundEvent) -> Seq<u8> {
    match e {
        OutboundEvent::RemotePeerJoined { player_id, player_position } => seq![PEER_JOINED]
            + spec_u64_to_le_bytes(player_id) + position_bytes(player_position),
        OutboundEvent::RemotePeerLeft { player_id } => seq![PEER_LEFT] + spec_u64_to_le_bytes(
            player_id,
        ),
        OutboundEvent::RemotePeerPositionUpdate { player_id, player_position } => seq![
            PEER_POSITION_UPDATE,
        ] + spec_u64_to_le_bytes(player_id) + position_bytes(player_position),
        OutboundEvent::WorldUpdate { world_data } => seq![WORLD_UPDATE] + spec_u64_to_le_bytes(
            world_data.len() as u64,
        ) + entries_bytes(world_data),
    }
}

/// What a server frame carries, or why it is refused.
pub open spec fn parse_server_frame(b: Seq<u8>) -> Result<OutboundEvent, DecodeError> {
    if b.len() == 0 {
        Err(DecodeError::Empty)
    } else if b[0] == PEER_JOINED || b[0] == PEER_POSITION_UPDATE {
        if b.len() != 17 {
            Err(DecodeError::BadLength)
        } else {
            let player_id = spec_u64_from_le_bytes(b.subrange(1, 9));
            let player_position = position_from(b.subrange(9, 17));
            if b[0] == PEER_JOINED {
                Ok(OutboundEvent::RemotePeerJoined { player_id, player_position })
            } else {
                Ok(OutboundEvent::RemotePeerPositionUpdate { player_id, player_position })
            }
        }
    } else if b[0] == PEER_LEFT {
        if b.len() != 9 {
            Err(DecodeError::BadLength)
        } else {
            Ok(OutboundEvent::RemotePeerLeft { player_id: spec_u64_from_le_bytes(b.subrange(1, 9)) })
        }
    } else if b[0] == WORLD_UPDATE {
        if b.len() < 9 {
            Err(DecodeError::BadLength)
        } else {
            let n = spec_u64_from_le_bytes(b.subrange(1, 9));
            let body = b.len() - 9;
            if body % 16 != 0 || body / 16 != n {
                Err(DecodeError::BadLength)
            } else {
                Ok(
                    OutboundEvent::WorldUpdate {
                        world_data: entries_from(b.subrange(9, b.len() as int), n as nat),
                    },
                )
            }
        }
    } else {
        Err(DecodeError::UnknownKind)
    }
}

/// The frame a client sends for `d`, with both parts present.
pub open spec fn client_frame(d: ClientData) -> Seq<u8> {
    seq![PLAYER_MOVED, HAS_BOTH] + controls_bytes(d.player_controls)
        + position_bytes(d.player_position)
}

/// What a client frame carries, or why it is refused.
pub open spec fn parse_client_frame(b: Seq<u8>) -> Result<ClientData, DecodeError> {
    if b.len() == 0 {
        Err(DecodeError::Empty)
    } else if b[0] != PLAYER_MOVED {
        Err(DecodeError::UnknownKind)
    } else if b.len() < 2 {
        Err(DecodeError::BadLength)
    } else if b[1] > HAS_BOTH {
        Err(DecodeError::InvalidField)
    } else {
        let has_controls = b[1] == HAS_CONTROLS || b[1] == HAS_BOTH;
        let has_position = b[1] >= HAS_POSITION;
        let at = if has_controls {
            6int
        } else {
            2int
        };
        let len = if has_position {
            at + 8
        } else {
            at
        };
        if b.len() != len {
            Err(DecodeError::BadLength)
        } else if has_controls && !(b[2] <= 1 && b[3] <= 1 && b[4] <= 1 && b[5] <= 1) {
            Err(DecodeError::InvalidField)
        } else {
            let player_controls = if has_controls {
                ClientControls { up: b[2] == 1, down: b[3] == 1, left: b[4] == 1, right: b[5] == 1 }
            } else {
                ClientControls::spec_released()
            };
            let player_position = if has_position {
                position_from(b.subrange(at, at + 8))
            } else {
                ClientPosition::spec_origin()
            };
            Ok(ClientData { player_controls, player_position })
        }
    }
}

fn push_u64(out: &mut Vec<u8>, v: u64)
    ensures
        final(out)@ == old(out)@ + spec_u64_to_le_bytes(v),
{
    let mut b = u64_to_le_bytes(v);
    out.append(&mut b);
}

fn push_u32(out: &mut Vec<u8>, v: u32)
    ensures
        final(out)@ == old(out)@ + spec_u32_to_le_bytes(v),
{
    let mut b = u32_to_le_bytes(v);
    out.append(&mut b);
}

fn push_position(out: &mut Vec<u8>, p: ClientPosition)
    ensures
        final(out)@ == old(out)@ + position_bytes(p),
{
    push_u32(out, p.x);
    push_u32(out, p.y);
    proof {
        assert(final(out)@ =~= old(out)@ + position_bytes(p));
    }
}

fn read_u64(b: &[u8], at: usize) -> (r: u64)
    requires
        at + 8 <= b@.len(),
    ensures
        r == spec_u64_from_le_bytes(b@.subrange(at as int, at + 8)),
{
    let len = b.len();
    assert(at + 8 <= len);
    u64_from_le_bytes(slice_subrange(b, at, at + 8))
}

fn read_u32(b: &[u8], at: usize) -> (r: u32)
    requires
        at + 4 <= b@.len(),
    ensures
        r == spec_u32_from_le_bytes(b@.subrange(at as int, at + 4)),
{
    let len = b.len();
    assert(at + 4 <= len);
    u32_from_le_bytes(slice_subrange(b, at, at + 4))
}

fn read_position(b: &[u8], at: usize) -> (r: ClientPosition)
    requires
        at + 8 <= b@.len(),
    ensures
        r == position_from(b@.subrange(at as int, at + 8)),
{
    let len = b.len();
    assert(at + 8 <= len);
    let x = read_u32(b, at);
    let y = read_u32(b, at + 4);
    proof {
        let s = b@.subrange(at as int, at + 8);
        assert(s.subrange(0, 4) =~= b@.subrange(at as int, at + 4));
        assert(s.subrange(4, 8) =~= b@.subrange(at + 4, at + 8));
    }
    ClientPosition { x, y }
}

/// The frame announcing that `player_id` joined at `player_position`.
pub fn create_peer_joined_bytes(player_id: u64, player_position: ClientPosition) -> (r: Vec<u8>)
    ensures
        r@ == server_frame(OutboundEvent::RemotePeerJoined { player_id, player_position }),
{
    let mut out: Vec<u8> = Vec::new();
    out.push(PEER_JOINED);
    push_u64(&mut out, player_id);
    push_position(&mut out, player_position);
    proof {
        assert(out@ =~= server_frame(OutboundEvent::RemotePeerJoined { player_id, player_position }));
    }
    out
}

/// The frame announcing that `player_id` left.
pub fn create_peer_left_bytes(player_id: u64) -> (r: Vec<u8>)
    ensures
        r@ == server_frame(OutboundEvent::RemotePeerLeft { player_id }),
{
    let mut out: Vec<u8> = Vec::new();
    out.push(PEER_LEFT);
    push_u64(&mut out, player_id);
    proof {
        assert(out@ =~= server_frame(OutboundEvent::RemotePeerLeft { player_id }));
    }
    out
}

/// The frame announcing that `player_id` moved to `player_position`.
pub fn create_peer_position_bytes(player_id: u64, player_position: ClientPosition) -> (r: Vec<u8>)
    ensures
        r@ == server_frame(OutboundEvent::RemotePeerPositionUpdate { player_id, player_position }),
{
    let mut out: Vec<u8> = Vec::new();
    out.push(PEER_POSITION_UPDATE);
    push_u64(&mut out, player_id);
    push_position(&mut out, player_position);
    proof {
        assert(out@ =~= server_frame(
            OutboundEvent::RemotePeerPositionUpdate { player_id, player_position },
        ));
    }
    out
}

/// The frame carrying the snapshot `world_data`, a length-prefixed list.
pub fn create_world_update_bytes(world_data: Vec<PeerPlayerInfo>) -> (r: Vec<u8>)
    ensures
        r@ == server_frame(OutboundEvent::WorldUpdate { world_data: world_data@ }),
{
    let mut out: Vec<u8> = Vec::new();
    out.push(WORLD_UPDATE);
    push_u64(&mut out, world_data.len() as u64);
    let ghost head = out@;
    let mut i: usize = 0;
    while i < world_data.len()
        invariant
            i <= world_data@.len(),
            out@ == head + entries_bytes(world_data@.subrange(0, i as int)),
        decreases world_data@.len() - i,
    {
        let e = world_data[i];
        push_u64(&mut out, e.player_id);
        push_position(&mut out, ClientPosition { x: e.x, y: e.y });
        proof {
            let s = world_data@.subrange(0, i + 1);
            assert(s.drop_last() =~= world_data@.subrange(0, i as int));
            assert(s.last() == e);
        }
        i += 1;
        proof {
            assert(out@ =~= head + entries_bytes(world_data@.subrange(0, i as int)));
        }
    }
    proof {
        assert(world_data@.subrange(0, world_data@.len() as int) =~= world_data@);
        assert(out@ =~= server_frame(OutboundEvent::WorldUpdate { world_data: world_data@ }));
    }
    out
}

/// The frame that carries `data` to a client.
pub fn encode_server_frame(data: PeerPlayerData) -> (r: Vec<u8>)
    ensures
        r@ == server_frame(data@),
{
    match data {
        PeerPlayerData::RemotePeerJoined { player_id, player_position } => {
            create_peer_joined_bytes(player_id, player_position)
        },
        PeerPlayerData::RemotePeerLeft { player_id } => create_peer_left_bytes(player_id),
        PeerPlayerData::RemotePeerPositionUpdate { player_id, player_position } => {
            create_peer_position_bytes(player_id, player_position)
        },
        PeerPlayerData::WorldUpdate { world_data } => create_world_update_bytes(world_data),
    }
}

/// The frame a client sends to report `data`.
pub fn create_player_moved_bytes(data: ClientData) -> (r: Vec<u8>)
    ensures
        r@ == client_frame(data),
{
    let mut out: Vec<u8> = Vec::new();
    out.push(PLAYER_MOVED);
    out.push(HAS_BOTH);
    let c = data.player_controls;
    out.push(if c.up { 1u8 } else { 0u8 });
    out.push(if c.down { 1u8 } else { 0u8 });
    out.push(if c.left { 1u8 } else { 0u8 });
    out.push(if c.right { 1u8 } else { 0u8 });
    push_position(&mut out, data.player_position);
    proof {
        assert(out@ =~= client_frame(data));
    }
    out
}

/// Decodes a client frame. A malformed frame is refused with the reason;
/// a well-formed one yields its movement report, with released controls or
/// the origin standing in for a part that the flags mark absent.
pub fn read_gameplay_data(buf: &[u8]) -> (r: Result<ClientData, DecodeError>)
    ensures
        r == parse_client_frame(buf@),
{
    let len = buf.len();
    if len == 0 {
        return Err(DecodeError::Empty);
    }
    if buf[0] != PLAYER_MOVED {
        return Err(DecodeError::UnknownKind);
    }
    if len < 2 {
        return Err(DecodeError::BadLength);
    }
    let flags = buf[1];
    if flags > HAS_BOTH {
        return Err(DecodeError::InvalidField);
    }
    let has_controls = flags == HAS_CONTROLS || flags == HAS_BOTH;
    let has_position = flags >= HAS_POSITION;
    let at: usize = if has_controls {
        6
    } else {
        2
    };
    let expected: usize = if has_position {
        at + 8
    } else {
        at
    };
    if len != expected {
        return Err(DecodeError::BadLength);
    }
    let player_controls = if has_controls {
        if buf[2] > 1 || buf[3] > 1 || buf[4] > 1 || buf[5] > 1 {
            return Err(DecodeError::InvalidField);
        }
        ClientControls { up: buf[2] == 1, down: buf[3] == 1, left: buf[4] == 1, right: buf[5] == 1 }
    } else {
        ClientControls::released()
    };
    let player_position = if has_position {
        read_position(buf, at)
    } else {
        ClientPosition::origin()
    };
    Ok(ClientData { player_controls, player_position })
}

/// Decodes a server frame, as a client does.
pub fn decode_server_frame(buf: &[u8]) -> (r: Result<PeerPlayerData, DecodeError>)
    ensures
        match r {
            Ok(d) => parse_server_frame(buf@) == Ok::<OutboundEvent, DecodeError>(d@),
            Err(e) => parse_server_frame(buf@) == Err::<OutboundEvent, DecodeError>(e),
        },
{
    let len = buf.len();
    if len == 0 {
        return Err(DecodeError::Empty);
    }
    let kind = buf[0];
    if kind == PEER_JOINED || kind == PEER_POSITION_UPDATE {
        if len != 17 {
            return Err(DecodeError::BadLength);
        }
        let player_id = read_u64(buf, 1);
        let player_position = read_position(buf, 9);
        if kind == PEER_JOINED {
            Ok(PeerPlayerData::RemotePeerJoined { player_id, player_position })
        } else {
            Ok(PeerPlayerData::RemotePeerPositionUpdate { player_id, player_position })
        }
    } else if kind == PEER_LEFT {
        if len != 9 {
            return Err(DecodeError::BadLength);
        }
        Ok(PeerPlayerData::RemotePeerLeft { player_id: read_u64(buf, 1) })
    } else if kind == WORLD_UPDATE {
        if len < 9 {
            return Err(DecodeError::BadLength);
        }
        let n = read_u64(buf, 1);
        let body = len - 9;
        if body % 16 != 0 || (body / 16) as u64 != n {
            return Err(DecodeError::BadLength);
        }
        let count = body / 16;
        let ghost s = buf@.subrange(9, len as int);
        let mut world_data: Vec<PeerPlayerInfo> = Vec::new();
        let mut i: usize = 0;
        let mut off: usize = 9;
        while i < count
            invariant
                len == buf@.len(),
                s == buf@.subrange(9, len as int),
                count * 16 == len - 9,
                i <= count,
                off == 9 + 16 * i,
                world_data@ == entries_from(s, i as nat),
            decreases count - i,
        {
            let player_id = read_u64(buf, off);
            let p = read_position(buf, off + 8);
            world_data.push(PeerPlayerInfo { player_id, x: p.x, y: p.y });
            proof {
                let t = s.subrange(16 * i, 16 * i + 16);
                assert(t.subrange(0, 8) =~= buf@.subrange(off as int, off + 8));
                assert(t.subrange(8, 16) =~= buf@.subrange(off + 8, off + 16));
                assert(world_data@ =~= entries_from(s, (i + 1) as nat));
            }
            i += 1;
            off += 16;
        }
        Ok(PeerPlayerData::WorldUpdate { world_data })
    } else {
        Err(DecodeError::UnknownKind)
    }
}

pub proof fn lemma_position_bytes(p: ClientPosition)
    ensures
        position_bytes(p).len() == 8,
        position_from(position_bytes(p)) == p,
{
    lemma_auto_spec_u32_to_from_le_bytes();
    assert(position_bytes(p).subrange(0, 4) =~= spec_u32_to_le_bytes(p.x));
    assert(position_bytes(p).subrange(4, 8) =~= spec_u32_to_le_bytes(p.y));
}

pub proof fn lemma_entry_bytes(e: PeerPlayerInfo)
    ensures
        entry_bytes(e).len() == 16,
        entry_from(entry_bytes(e)) == e,
{
    lemma_auto_spec_u64_to_from_le_bytes();
    lemma_position_bytes(e.position());
    assert(entry_bytes(e).subrange(0, 8) =~= spec_u64_to_le_bytes(e.player_id));
    assert(entry_bytes(e).subrange(8, 16) =~= position_bytes(e.position()));
}

pub proof fn lemma_entries_bytes(s: Seq<PeerPlayerInfo>)
    ensures
        entries_bytes(s).len() == 16 * s.len(),
        forall|i: int|
            0 <= i < s.len() ==> #[trigger] entries_bytes(s).subrange(16 * i, 16 * i + 16)
                == entry_bytes(s[i]),
    decreases s.len(),
{
    if s.len() > 0 {
        let d = s.drop_last();
        lemma_entries_bytes(d);
        lemma_entry_bytes(s.last());
        let b = entries_bytes(s);
        assert forall|i: int| 0 <= i < s.len() implies #[trigger] b.subrange(16 * i, 16 * i + 16)
            == entry_bytes(s[i]) by {
            if i < s.len() - 1 {
                assert(d[i] == s[i]);
                assert(b.subrange(16 * i, 16 * i + 16) =~= entries_bytes(d).subrange(
                    16 * i,
                    16 * i + 16,
                ));
            } else {
                assert(b.subrange(16 * i, 16 * i + 16) =~= entry_bytes(s.last()));
            }
        }
    }
}

/// Decoding a server frame gives back the event it was encoded from.
pub proof fn law_server_frame_round_trip(v: PeerPlayerData)
    ensures
        parse_server_frame(server_frame(v@)) == Ok::<OutboundEvent, DecodeError>(v@),
{
    lemma_auto_spec_u64_to_from_le_bytes();
    let b = server_frame(v@);
    match v {
        PeerPlayerData::RemotePeerJoined { player_id, player_position } => {
            lemma_position_bytes(player_position);
            assert(b.subrange(1, 9) =~= spec_u64_to_le_bytes(player_id));
            assert(b.subrange(9, 17) =~= position_bytes(player_position));
        },
        PeerPlayerData::RemotePeerLeft { player_id } => {
            assert(b.subrange(1, 9) =~= spec_u64_to_le_bytes(player_id));
        },
        PeerPlayerData::RemotePeerPositionUpdate { player_id, player_position } => {
            lemma_position_bytes(player_position);
            assert(b.subrange(1, 9) =~= spec_u64_to_le_bytes(player_id));
            assert(b.subrange(9, 17) =~= position_bytes(player_position));
        },
        PeerPlayerData::WorldUpdate { world_data } => {
            let es = world_data@;
            assert(world_data.len() == es.len());
            let n = es.len() as u64;
            assert(n == es.len());
            lemma_entries_bytes(es);
            assert(b.subrange(1, 9) =~= spec_u64_to_le_bytes(n));
            let body = b.subrange(9, b.len() as int);
            assert(body =~= entries_bytes(es));
            assert forall|i: int| 0 <= i < es.len() implies #[trigger] entries_from(body, n as nat)[i]
                == es[i] by {
                assert(body.subrange(16 * i, 16 * i + 16) == entry_bytes(es[i]));
                lemma_entry_bytes(es[i]);
            }
            assert(entries_from(body, n as nat) =~= es);
        },
    }
}

/// Decoding a client frame gives back the report it was encoded from.
pub proof fn law_client_frame_round_trip(d: ClientData)
    ensures
        parse_client_frame(client_frame(d)) == Ok::<ClientData, DecodeError>(d),
{
    let b = client_frame(d);
    lemma_position_bytes(d.player_position);
    assert(b.subrange(6, 14) =~= position_bytes(d.player_position));
}

} // verus!
