use vstd::prelude::*;

use crate::client_data::ClientPosition;
use crate::game_world::{
    GameWorld, PeerPlayerInfo, has_player, ids_unique, lemma_lookup_absent, lemma_lookup_at,
    lemma_lookup_found, lemma_without_at, lemma_without_excludes, lookup, moved, without_player,
};
use crate::message_types::{
    Connect, Delivery, Disconnect, OutboundEvent, PeerPlayerData, PeerPlayerPositionUpdate,
    deliveries_view, notify,
};

verus! {

/// How many ids a join draws before giving up on finding a free one.
pub const MAX_ID_DRAWS: u32 = 4;

/// Relies on `rand::random`: a `u64` from the thread-local generator, which
/// rand seeds from the operating system (it panics only when the system
/// cannot supply a seed). Nothing is promised of the value.
#[verifier::external_body]
fn draw_player_id() -> (r: u64) {
    rand::random::<u64>()
}

/// Why a join was refused.
#[derive(Debug, Clone, Copy, PartialEq, Eq, Structural)]
pub enum JoinError {
    /// The room already holds as many players as it may.
    RoomFull,
    /// The id is zero or already taken.
    IdUnavailable,
}

/// A successful join: the id given to the new player and the events to
/// deliver because of it.
#[derive(Debug, PartialEq, Eq)]
pub struct Admission {
    pub player_id: u64,
    pub deliveries: Vec<Delivery>,
}

/// A connected session as the coordinator knows it: its player id and the
/// endpoint its events go to.
#[derive(Debug)]
pub struct PeerHandle<E> {
    pub id: u64,
    pub addr: E,
}

/// The ids an event goes to: those of `s` in order, leaving out `skip`.
pub open spec fn recipients(s: Seq<PeerPlayerInfo>, skip: Option<u64>) -> Seq<u64>
    decreases s.len(),
{
    if s.len() == 0 {
        Seq::empty()
    } else if skip == Some(s.last().player_id) {
        recipients(s.drop_last(), skip)
    } else {
        recipients(s.drop_last(), skip).push(s.last().player_id)
    }
}

/// The entry a newly admitted player starts with.
pub open spec fn newcomer(id: u64) -> PeerPlayerInfo {
    PeerPlayerInfo::at(id, ClientPosition::spec_origin())
}

/// The players after a join under `id`: the newcomer is appended when the
/// room has space and `id` is nonzero and free; otherwise nothing changes.
pub open spec fn after_join(s: Seq<PeerPlayerInfo>, capacity: nat, id: u64) -> Seq<PeerPlayerInfo> {
    if s.len() < capacity && id != 0 && !has_player(s, id) {
        s.push(newcomer(id))
    } else {
        s
    }
}

/// One change of membership.
pub enum Membership {
    Join { id: u64 },
    Leave { id: u64 },
}

/// The players after one change of membership.
pub open spec fn apply_membership(s: Seq<PeerPlayerInfo>, capacity: nat, op: Membership) -> Seq<
    PeerPlayerInfo,
> {
    match op {
        Membership::Join { id } => after_join(s, capacity, id),
        Membership::Leave { id } => without_player(s, id),
    }
}

/// The players after the changes of `ops`, in order.
pub open spec fn apply_all(s: Seq<PeerPlayerInfo>, capacity: nat, ops: Seq<Membership>) -> Seq<
    PeerPlayerInfo,
>
    decreases ops.len(),
{
    if ops.len() == 0 {
        s
    } else {
        apply_membership(apply_all(s, capacity, ops.drop_last()), capacity, ops.last())
    }
}

/// The events of admitting `id` into `s`: the news to every other player,
/// then the snapshot of the others to the newcomer alone.
pub open spec fn join_deliveries(s: Seq<PeerPlayerInfo>, id: u64) -> Seq<(u64, OutboundEvent)> {
    notify(
        recipients(s, Some(id)),
        OutboundEvent::RemotePeerJoined {
            player_id: id,
            player_position: ClientPosition::spec_origin(),
        },
    ).push((id, OutboundEvent::WorldUpdate { world_data: s }))
}

/// The events of `id` leaving `s`: the news to every remaining player, or
/// nothing when `id` was not admitted.
pub open spec fn leave_deliveries(s: Seq<PeerPlayerInfo>, id: u64) -> Seq<(u64, OutboundEvent)> {
    if has_player(s, id) {
        notify(
            recipients(without_player(s, id), None),
            OutboundEvent::RemotePeerLeft { player_id: id },
        )
    } else {
        Seq::empty()
    }
}

/// The events of `id` moving to `p` in `s`: the news to every other
/// player, or nothing when `id` is not admitted.
pub open spec fn update_deliveries(s: Seq<PeerPlayerInfo>, id: u64, p: ClientPosition) -> Seq<
    (u64, OutboundEvent),
> {
    if has_player(s, id) {
        notify(
            recipients(s, Some(id)),
            OutboundEvent::RemotePeerPositionUpdate { player_id: id, player_position: p },
        )
    } else {
        Seq::empty()
    }
}

pub proof fn lemma_recipients_skip(s: Seq<PeerPlayerInfo>, id: u64)
    ensures
        forall|k: int|
            0 <= k < recipients(s, Some(id)).len() ==> #[trigger] recipients(s, Some(id))[k]
                != id,
    decreases s.len(),
{
    if s.len() > 0 {
        lemma_recipients_skip(s.drop_last(), id);
        let r = recipients(s.drop_last(), Some(id));
        assert forall|k: int| 0 <= k < recipients(s, Some(id)).len() implies #[trigger] recipients(
            s,
            Some(id),
        )[k] != id by {
            if k < r.len() {
                assert(recipients(s, Some(id))[k] == r[k]);
            }
        }
    }
}

/// The coordinator: sole owner of the world state and of the handles of
/// the connected sessions. Each handle exists exactly when its player's
/// entry does, at the same place in join order.
pub struct GameServer<E> {
    peer_addr_map: Vec<PeerHandle<E>>,
    game_world: GameWorld,
}

impl<E> GameServer<E> {
    /// The admitted players in join order, with their last positions.
    pub closed spec fn players(&self) -> Seq<PeerPlayerInfo> {
        self.game_world@
    }

    pub closed spec fn capacity(&self) -> nat {
        self.game_world.capacity()
    }

    /// The handle ids, in order.
    pub closed spec fn handle_ids(&self) -> Seq<u64> {
        self.peer_addr_map@.map_values(|h: PeerHandle<E>| h.id)
    }

    pub closed spec fn handles_match(&self) -> bool {
        &&& self.peer_addr_map@.len() == self.game_world@.len()
        &&& forall|i: int|
            0 <= i < self.peer_addr_map@.len() ==> #[trigger] self.peer_addr_map@[i].id
                == self.game_world@[i].player_id
    }

    /// Every handle has its entry and every entry its handle; the room
    /// never holds more than its capacity; ids are distinct.
    pub open spec fn wf(&self) -> bool {
        &&& self.handles_match()
        &&& self.players().len() <= self.capacity()
        &&& ids_unique(self.players())
        &&& self.handle_ids() == self.players().map_values(|e: PeerPlayerInfo| e.player_id)
    }

    proof fn lemma_handle_ids(&self)
        requires
            self.handles_match(),
        ensures
            self.handle_ids() == self.players().map_values(|e: PeerPlayerInfo| e.player_id),
    {
        assert(self.handle_ids() =~= self.players().map_values(|e: PeerPlayerInfo| e.player_id));
    }

    /// A room for `max_players_count` players, empty.
    pub fn with_capacity(max_players_count: usize) -> (r: GameServer<E>)
        ensures
            r.wf(),
            r.players() == Seq::<PeerPlayerInfo>::empty(),
            r.capacity() == max_players_count,
    {
        let r = GameServer { peer_addr_map: Vec::new(), game_world: GameWorld::new(max_players_count) };
        proof {
            r.lemma_handle_ids();
        }
        r
    }

    /// An empty room of the default size.
    pub fn new() -> (r: GameServer<E>)
        ensures
            r.wf(),
            r.players() == Seq::<PeerPlayerInfo>::empty(),
            r.capacity() == crate::game_world::DEFAULT_MAX_PLAYERS,
    {
        GameServer::with_capacity(crate::game_world::DEFAULT_MAX_PLAYERS)
    }

    /// How many players are admitted.
    pub fn players_online(&self) -> (r: usize)
        requires
            self.wf(),
        ensures
            r == self.players().len(),
    {
        self.game_world.len()
    }

    pub fn is_admitted(&self, id: u64) -> (r: bool)
        requires
            self.wf(),
        ensures
            r == has_player(self.players(), id),
    {
        self.game_world.contains_player(id)
    }

    /// The world state, to read.
    pub fn world(&self) -> (r: &GameWorld)
        requires
            self.wf(),
        ensures
            r@ == self.players(),
            r.wf(),
            r.capacity() == self.capacity(),
    {
        &self.game_world
    }

    /// The index of `id`'s handle and entry.
    fn slot(&self, id: u64) -> (r: Option<usize>)
        requires
            self.wf(),
        ensures
            match r {
                Some(i) => i < self.players().len() && self.players()[i as int].player_id == id,
                None => !has_player(self.players(), id),
            },
    {
        let mut i: usize = 0;
        while i < self.peer_addr_map.len()
            invariant
                self.wf(),
                i <= self.players().len(),
                forall|k: int| 0 <= k < i ==> self.players()[k].player_id != id,
            decreases self.players().len() - i,
        {
            if self.peer_addr_map[i].id == id {
                return Some(i);
            }
            i += 1;
        }
        proof {
            lemma_lookup_absent(self.players(), id);
        }
        None
    }

    /// The endpoint of `id`'s session, if `id` is admitted.
    pub fn peer_addr(&self, id: u64) -> (r: Option<&E>)
        requires
            self.wf(),
        ensures
            r is Some <==> has_player(self.players(), id),
    {
        match self.slot(id) {
            Some(i) => {
                proof {
                    lemma_lookup_at(self.players(), i as int);
                }
                Some(&self.peer_addr_map[i].addr)
            },
            None => None,
        }
    }

    /// One copy of `data` for each admitted player but `skip_id`, in join
    /// order.
    pub fn send_position_to_other_players(&self, data: &PeerPlayerData, skip_id: Option<u64>) -> (r:
        Vec<Delivery>)
        requires
            self.wf(),
        ensures
            deliveries_view(r@) == notify(recipients(self.players(), skip_id), data@),
    {
        let ghost s = self.players();
        let mut out: Vec<Delivery> = Vec::new();
        let mut i: usize = 0;
        while i < self.peer_addr_map.len()
            invariant
                self.wf(),
                s == self.players(),
                i <= s.len(),
                deliveries_view(out@) == notify(recipients(s.subrange(0, i as int), skip_id), data@),
            decreases s.len() - i,
        {
            let id = self.peer_addr_map[i].id;
            proof {
                let t = s.subrange(0, i + 1);
                assert(t.drop_last() =~= s.subrange(0, i as int));
                assert(t.last().player_id == id);
            }
            let skip = match skip_id {
                Some(k) => k == id,
                None => false,
            };
            if !skip {
                let ghost before = out@;
                out.push(Delivery { to: id, data: data.duplicate() });
                proof {
                    assert(deliveries_view(out@) =~= deliveries_view(before).push((id, data@)));
                    let r = recipients(s.subrange(0, i as int), skip_id);
                    assert(notify(r.push(id), data@) =~= notify(r, data@).push((id, data@)));
                }
            }
            i += 1;
        }
        proof {
            assert(s.subrange(0, s.len() as int) =~= s);
        }
        out
    }

    /// Admits a player under `id`, bound to `peer_addr`. Refused with
    /// `RoomFull` when the room is at capacity, else with `IdUnavailable`
    /// when `id` is zero or taken; a refusal changes nothing. On admission
    /// the player starts at the origin, every other player hears of it, and
    /// the newcomer receives a snapshot of the others.
    pub fn join_as(&mut self, id: u64, peer_addr: E) -> (r: Result<Admission, JoinError>)
        requires
            old(self).wf(),
        ensures
            final(self).wf(),
            final(self).capacity() == old(self).capacity(),
            r is Ok <==> (old(self).players().len() < old(self).capacity() && id != 0
                && !has_player(old(self).players(), id)),
            match r {
                Ok(a) => {
                    &&& a.player_id == id
                    &&& final(self).players() == old(self).players().push(newcomer(id))
                    &&& final(self).players() == after_join(
                        old(self).players(),
                        old(self).capacity(),
                        id,
                    )
                    &&& deliveries_view(a.deliveries@) == join_deliveries(old(self).players(), id)
                },
                Err(e) => {
                    &&& final(self).players() == old(self).players()
                    &&& final(self).players() == after_join(
                        old(self).players(),
                        old(self).capacity(),
                        id,
                    )
                    &&& e == if old(self).players().len() >= old(self).capacity() {
                        JoinError::RoomFull
                    } else {
                        JoinError::IdUnavailable
                    }
                },
            },
    {
        let ghost s = self.players();
        if self.game_world.len() >= self.game_world.max_players_count() {
            return Err(JoinError::RoomFull);
        }
        if id == 0 || self.game_world.contains_player(id) {
            return Err(JoinError::IdUnavailable);
        }
        let origin = ClientPosition::origin();
        let added = self.game_world.add_player(id, origin);
        self.peer_addr_map.push(PeerHandle { id, addr: peer_addr });
        proof {
            assert(added);
            assert(self.handles_match()) by {
                assert forall|i: int| 0 <= i < self.peer_addr_map@.len() implies #[trigger] self.peer_addr_map@[i].id
                    == self.game_world@[i].player_id by {
                    if i < s.len() {
                        assert(old(self).peer_addr_map@[i].id == s[i].player_id);
                    }
                }
            }
            self.lemma_handle_ids();
            let t = s.push(newcomer(id));
            assert(t.drop_last() =~= s);
            lemma_lookup_found(s, id);
            lemma_lookup_absent(s, id);
        }
        let joined = PeerPlayerData::RemotePeerJoined { player_id: id, player_position: origin };
        let mut deliveries = self.send_position_to_other_players(&joined, Some(id));
        let world_data = self.game_world.get_world_update(id);
        let ghost before = deliveries@;
        deliveries.push(Delivery { to: id, data: PeerPlayerData::WorldUpdate { world_data } });
        proof {
            assert(deliveries_view(deliveries@) =~= deliveries_view(before).push(
                (id, OutboundEvent::WorldUpdate { world_data: s }),
            ));
        }
        Ok(Admission { player_id: id, deliveries })
    }

    /// Admits a player under a freshly drawn random id, bound to the
    /// endpoint of `msg`. Refused with `RoomFull` exactly when the room is
    /// at capacity; with `IdUnavailable` when every draw hit zero or a
    /// taken id. A refusal changes nothing; an admission is as for
    /// `join_as` with the id drawn.
    pub fn handle_connect(&mut self, msg: Connect<E>) -> (r: Result<Admission, JoinError>)
        requires
            old(self).wf(),
        ensures
            final(self).wf(),
            final(self).capacity() == old(self).capacity(),
            (r == Err::<Admission, JoinError>(JoinError::RoomFull)) <==> old(self).players().len()
                >= old(self).capacity(),
            match r {
                Ok(a) => {
                    &&& a.player_id != 0
                    &&& !has_player(old(self).players(), a.player_id)
                    &&& final(self).players() == old(self).players().push(newcomer(a.player_id))
                    &&& final(self).players() == after_join(
                        old(self).players(),
                        old(self).capacity(),
                        a.player_id,
                    )
                    &&& deliveries_view(a.deliveries@) == join_deliveries(
                        old(self).players(),
                        a.player_id,
                    )
                },
                Err(_) => final(self).players() == old(self).players(),
            },
    {
        if self.game_world.len() >= self.game_world.max_players_count() {
            return Err(JoinError::RoomFull);
        }
        let mut draws: u32 = 0;
        let mut id: u64 = 0;
        while draws < MAX_ID_DRAWS
            invariant
                self.wf(),
                self.players() == old(self).players(),
                self.capacity() == old(self).capacity(),
                draws <= MAX_ID_DRAWS,
            decreases MAX_ID_DRAWS - draws,
        {
            id = draw_player_id();
            if id != 0 && !self.game_world.contains_player(id) {
                break;
            }
            draws += 1;
        }
        self.join_as(id, msg.peer_addr)
    }

    /// Removes `msg.id`'s handle and entry together and tells every
    /// remaining player. Nothing happens for an id that is not admitted.
    pub fn handle_disconnect(&mut self, msg: Disconnect) -> (r: Vec<Delivery>)
        requires
            old(self).wf(),
        ensures
            final(self).wf(),
            final(self).capacity() == old(self).capacity(),
            final(self).players() == without_player(old(self).players(), msg.id),
            deliveries_view(r@) == leave_deliveries(old(self).players(), msg.id),
    {
        let id = msg.id;
        let ghost s = self.players();
        match self.slot(id) {
            Some(i) => {
                proof {
                    lemma_lookup_at(s, i as int);
                    lemma_without_at(s, i as int);
                }
                let _ = self.peer_addr_map.remove(i);
                let _ = self.game_world.remove_player(id);
                proof {
                    assert(self.handles_match()) by {
                        assert forall|k: int| 0 <= k < self.peer_addr_map@.len() implies #[trigger] self.peer_addr_map@[k].id
                            == self.game_world@[k].player_id by {
                            let o = if k < i { k } else { k + 1 };
                            assert(old(self).peer_addr_map@[o].id == s[o].player_id);
                        }
                    }
                    self.lemma_handle_ids();
                }
                let left = PeerPlayerData::RemotePeerLeft { player_id: id };
                self.send_position_to_other_players(&left, None)
            },
            None => {
                proof {
                    lemma_lookup_found(s, id);
                    lemma_lookup_absent(s, id);
                    assert(deliveries_view(Seq::<Delivery>::empty()) =~= Seq::empty());
                }
                Vec::new()
            },
        }
    }

    /// Stores the reported position of an admitted player and tells every
    /// other player; the sender hears nothing back. An update from an id
    /// that is not admitted changes nothing and goes nowhere.
    pub fn handle_position_update(&mut self, msg: PeerPlayerPositionUpdate) -> (r: Vec<Delivery>)
        requires
            old(self).wf(),
        ensures
            final(self).wf(),
            final(self).capacity() == old(self).capacity(),
            final(self).players() == moved(old(self).players(), msg.player_id, msg.player_position),
            deliveries_view(r@) == update_deliveries(
                old(self).players(),
                msg.player_id,
                msg.player_position,
            ),
    {
        let id = msg.player_id;
        let p = msg.player_position;
        let ghost s = self.players();
        let admitted = self.game_world.contains_player(id);
        self.game_world.update_player_position(id, p.x, p.y);
        proof {
            assert forall|k: int| 0 <= k < self.peer_addr_map@.len() implies #[trigger] self.peer_addr_map@[k].id
                == self.game_world@[k].player_id by {
                assert(old(self).peer_addr_map@[k].id == s[k].player_id);
            }
            self.lemma_handle_ids();
        }
        if !admitted {
            proof {
                assert(deliveries_view(Seq::<Delivery>::empty()) =~= Seq::empty());
            }
            return Vec::new();
        }
        let update = PeerPlayerData::RemotePeerPositionUpdate { player_id: id, player_position: p };
        let r = self.send_position_to_other_players(&update, Some(id));
        proof {
            assert(recipients(self.players(), Some(id)) == recipients(s, Some(id))) by {
                lemma_recipients_moved(s, id, p, Some(id));
            }
        }
        r
    }
}

/// Moving a player changes no one's id, so the recipients stay the same.
pub proof fn lemma_recipients_moved(
    s: Seq<PeerPlayerInfo>,
    id: u64,
    p: ClientPosition,
    skip: Option<u64>,
)
    ensures
        recipients(moved(s, id, p), skip) == recipients(s, skip),
    decreases s.len(),
{
    if s.len() > 0 {
        lemma_recipients_moved(s.drop_last(), id, p, skip);
        let m = moved(s, id, p);
        assert(m.drop_last() =~= moved(s.drop_last(), id, p));
        assert(m.last().player_id == s.last().player_id);
    }
}

/// However joins and leaves follow one another, the room never holds more
/// players than its capacity, and no two of them share an id.
pub proof fn law_capacity_invariant(s: Seq<PeerPlayerInfo>, capacity: nat, ops: Seq<Membership>)
    requires
        s.len() <= capacity,
        ids_unique(s),
    ensures
        apply_all(s, capacity, ops).len() <= capacity,
        ids_unique(apply_all(s, capacity, ops)),
    decreases ops.len(),
{
    if ops.len() > 0 {
        law_capacity_invariant(s, capacity, ops.drop_last());
        let t = apply_all(s, capacity, ops.drop_last());
        match ops.last() {
            Membership::Join { id } => {
                if t.len() < capacity && id != 0 && !has_player(t, id) {
                    lemma_lookup_found(t, id);
                }
            },
            Membership::Leave { id } => {
                if has_player(t, id) {
                    lemma_lookup_found(t, id);
                    let i = choose|i: int| 0 <= i < t.len() && t[i].player_id == id && lookup(t, id) == Some(t[i]);
                    lemma_without_at(t, i);
                    let u = t.remove(i);
                    assert forall|a: int, b: int|
                        0 <= a < u.len() && 0 <= b < u.len() && a != b implies u[a].player_id
                        != u[b].player_id by {
                        let oa = if a < i { a } else { a + 1 };
                        let ob = if b < i { b } else { b + 1 };
                        assert(u[a] == t[oa]);
                        assert(u[b] == t[ob]);
                    }
                } else {
                    lemma_lookup_found(t, id);
                    lemma_lookup_absent(t, id);
                }
            },
        }
    }
}

/// A second leave under the same id changes nothing and tells no one; the
/// first tells each remaining player once that `id` left, or no one when
/// `id` was never admitted.
pub proof fn law_leave_idempotent(s: Seq<PeerPlayerInfo>, id: u64)
    ensures
        without_player(without_player(s, id), id) == without_player(s, id),
        leave_deliveries(without_player(s, id), id) == Seq::<(u64, OutboundEvent)>::empty(),
        !has_player(s, id) ==> leave_deliveries(s, id) == Seq::<(u64, OutboundEvent)>::empty(),
        has_player(s, id) ==> leave_deliveries(s, id) == notify(
            recipients(without_player(s, id), None),
            OutboundEvent::RemotePeerLeft { player_id: id },
        ),
{
    lemma_without_excludes(s, id);
    lemma_lookup_absent(without_player(s, id), id);
}

/// A position update is never delivered to the player who sent it.
pub proof fn law_update_skips_sender(s: Seq<PeerPlayerInfo>, id: u64, p: ClientPosition)
    ensures
        forall|k: int|
            0 <= k < update_deliveries(s, id, p).len() ==> #[trigger] update_deliveries(s, id, p)[k].0
                != id,
{
    lemma_recipients_skip(s, id);
}

} // verus!
