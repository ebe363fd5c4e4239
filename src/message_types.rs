use vstd::prelude::*;

use crate::client_data::ClientPosition;
use crate::game_world::PeerPlayerInfo;

verus! {

/// An event the coordinator hands to one session, for that session to
/// write to its client.
#[derive(Debug, PartialEq, Eq)]
pub enum PeerPlayerData {
    RemotePeerJoined { player_id: u64, player_position: ClientPosition },
    RemotePeerLeft { player_id: u64 },
    RemotePeerPositionUpdate { player_id: u64, player_position: ClientPosition },
    WorldUpdate { world_data: Vec<PeerPlayerInfo> },
}

/// What a `PeerPlayerData` value means: the same event with the snapshot
/// entries as a sequence.
pub enum OutboundEvent {
    RemotePeerJoined { player_id: u64, player_position: ClientPosition },
    RemotePeerLeft { player_id: u64 },
    RemotePeerPositionUpdate { player_id: u64, player_position: ClientPosition },
    WorldUpdate { world_data: Seq<PeerPlayerInfo> },
}

impl View for PeerPlayerData {
    type V = OutboundEvent;

    open spec fn view(&self) -> OutboundEvent {
        match self {
            PeerPlayerData::RemotePeerJoined { player_id, player_position } => {
                OutboundEvent::RemotePeerJoined {
                    player_id: *player_id,
                    player_position: *player_position,
                }
            },
            PeerPlayerData::RemotePeerLeft { player_id } => OutboundEvent::RemotePeerLeft {
                player_id: *player_id,
            },
            PeerPlayerData::RemotePeerPositionUpdate { player_id, player_position } => {
                OutboundEvent::RemotePeerPositionUpdate {
                    player_id: *player_id,
                    player_position: *player_position,
                }
            },
            PeerPlayerData::WorldUpdate { world_data } => OutboundEvent::WorldUpdate {
                world_data: world_data@,
            },
        }
    }
}

/// A copy of a list of entries.
pub fn copy_entries(v: &Vec<PeerPlayerInfo>) -> (r: Vec<PeerPlayerInfo>)
    ensures
        r@ == v@,
{
    let mut out: Vec<PeerPlayerInfo> = Vec::new();
    let mut i: usize = 0;
    while i < v.len()
        invariant
            i <= v@.len(),
            out@ == v@.subrange(0, i as int),
        decreases v@.len() - i,
    {
        out.push(v[i]);
        i += 1;
        proof {
            assert(out@ =~= v@.subrange(0, i as int));
        }
    }
    proof {
        assert(v@.subrange(0, v@.len() as int) =~= v@);
    }
    out
}

impl PeerPlayerData {
    /// A copy of the event with the same meaning.
    pub fn duplicate(&self) -> (r: PeerPlayerData)
        ensures
            r@ == self@,
    {
        match self {
            PeerPlayerData::RemotePeerJoined { player_id, player_position } => {
                PeerPlayerData::RemotePeerJoined {
                    player_id: *player_id,
                    player_position: *player_position,
                }
            },
            PeerPlayerData::RemotePeerLeft { player_id } => PeerPlayerData::RemotePeerLeft {
                player_id: *player_id,
            },
            PeerPlayerData::RemotePeerPositionUpdate { player_id, player_position } => {
                PeerPlayerData::RemotePeerPositionUpdate {
                    player_id: *player_id,
                    player_position: *player_position,
                }
            },
            PeerPlayerData::WorldUpdate { world_data } => PeerPlayerData::WorldUpdate {
                world_data: copy_entries(world_data),
            },
        }
    }
}

/// A request to join, carrying the endpoint through which the new session
/// is to receive its events.
pub struct Connect<E> {
    pub peer_addr: E,
}

/// A session has gone: its player leaves.
#[derive(Debug, Clone, Copy, PartialEq, Eq, Structural)]
pub struct Disconnect {
    pub id: u64,
}

/// A session reports a new position for its player.
#[derive(Debug, Clone, Copy, PartialEq, Eq, Structural)]
pub struct PeerPlayerPositionUpdate {
    pub player_position: ClientPosition,
    pub player_id: u64,
}

/// One event addressed to one session.
#[derive(Debug, PartialEq, Eq)]
pub struct Delivery {
    pub to: u64,
    pub data: PeerPlayerData,
}

impl View for Delivery {
    type V = (u64, OutboundEvent);

    open spec fn view(&self) -> (u64, OutboundEvent) {
        (self.to, self.data@)
    }
}

/// What a list of deliveries means, in order.
pub open spec fn deliveries_view(v: Seq<Delivery>) -> Seq<(u64, OutboundEvent)> {
    v.map_values(|d: Delivery| d@)
}

/// The same event for each recipient in turn.
pub open spec fn notify(to: Seq<u64>, ev: OutboundEvent) -> Seq<(u64, OutboundEvent)> {
    to.map_values(|id: u64| (id, ev))
}

} // verus!
