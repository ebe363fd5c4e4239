use vstd::prelude::*;

use crate::client_data::ClientPosition;

verus! {

/// The room size used when none is given.
pub const DEFAULT_MAX_PLAYERS: usize = 2;

/// One admitted player and the last position it reported.
#[derive(Debug, Clone, Copy, PartialEq, Eq, Structural)]
pub struct PeerPlayerInfo {
    pub player_id: u64,
    pub x: u32,
    pub y: u32,
}

impl PeerPlayerInfo {
    pub open spec fn position(self) -> ClientPosition {
        ClientPosition { x: self.x, y: self.y }
    }

    pub open spec fn at(player_id: u64, p: ClientPosition) -> PeerPlayerInfo {
        PeerPlayerInfo { player_id, x: p.x, y: p.y }
    }
}

/// No two entries share a player id.
pub open spec fn ids_unique(s: Seq<PeerPlayerInfo>) -> bool {
    forall|i: int, j: int|
        0 <= i < s.len() && 0 <= j < s.len() && i != j ==> s[i].player_id != s[j].player_id
}

/// The entry for `id`, if there is one.
pub open spec fn lookup(s: Seq<PeerPlayerInfo>, id: u64) -> Option<PeerPlayerInfo>
    decreases s.len(),
{
    if s.len() == 0 {
        None
    } else if s.last().player_id == id {
        Some(s.last())
    } else {
        lookup(s.drop_last(), id)
    }
}

pub open spec fn has_player(s: Seq<PeerPlayerInfo>, id: u64) -> bool {
    lookup(s, id) is Some
}

/// The entries other than the one for `id`, in their order.
pub open spec fn without_player(s: Seq<PeerPlayerInfo>, id: u64) -> Seq<PeerPlayerInfo>
    decreases s.len(),
{
    if s.len() == 0 {
        s
    } else if s.last().player_id == id {
        without_player(s.drop_last(), id)
    } else {
        without_player(s.drop_last(), id).push(s.last())
    }
}

/// The entries with the one for `id` (if any) moved to `p`.
pub open spec fn moved(s: Seq<PeerPlayerInfo>, id: u64, p: ClientPosition) -> Seq<PeerPlayerInfo> {
    s.map_values(
        |e: PeerPlayerInfo|
            if e.player_id == id {
                PeerPlayerInfo::at(id, p)
            } else {
                e
            },
    )
}

pub proof fn lemma_lookup_at(s: Seq<PeerPlayerInfo>, i: int)
    requires
        ids_unique(s),
        0 <= i < s.len(),
    ensures
        lookup(s, s[i].player_id) == Some(s[i]),
    decreases s.len(),
{
    if i != s.len() - 1 {
        assert(s.drop_last()[i] == s[i]);
        lemma_lookup_at(s.drop_last(), i);
    }
}

pub proof fn lemma_lookup_absent(s: Seq<PeerPlayerInfo>, id: u64)
    requires
        forall|i: int| 0 <= i < s.len() ==> s[i].player_id != id,
    ensures
        lookup(s, id) is None,
        without_player(s, id) == s,
    decreases s.len(),
{
    if s.len() > 0 {
        lemma_lookup_absent(s.drop_last(), id);
        assert(s.drop_last().push(s.last()) =~= s);
    }
}

/// The entry that `lookup` finds sits at some index and carries the id.
pub proof fn lemma_lookup_found(s: Seq<PeerPlayerInfo>, id: u64)
    ensures
        lookup(s, id) is Some ==> exists|i: int|
            0 <= i < s.len() && s[i].player_id == id && lookup(s, id) == Some(s[i]),
        lookup(s, id) is None ==> forall|i: int| 0 <= i < s.len() ==> s[i].player_id != id,
    decreases s.len(),
{
    if s.len() > 0 {
        lemma_lookup_found(s.drop_last(), id);
        if s.last().player_id != id {
            if lookup(s, id) is Some {
                let i = choose|i: int|
                    0 <= i < s.drop_last().len() && s.drop_last()[i].player_id == id && lookup(
                        s.drop_last(),
                        id,
                    ) == Some(s.drop_last()[i]);
                assert(s[i] == s.drop_last()[i]);
            } else {
                assert forall|i: int| 0 <= i < s.len() implies s[i].player_id != id by {
                    if i < s.len() - 1 {
                        assert(s[i] == s.drop_last()[i]);
                    }
                }
            }
        }
    }
}

pub proof fn lemma_without_at(s: Seq<PeerPlayerInfo>, i: int)
    requires
        ids_unique(s),
        0 <= i < s.len(),
    ensures
        without_player(s, s[i].player_id) == s.remove(i),
    decreases s.len(),
{
    let id = s[i].player_id;
    if i == s.len() - 1 {
        assert forall|k: int| 0 <= k < s.drop_last().len() implies s.drop_last()[k].player_id
            != id by {
            assert(s.drop_last()[k] == s[k]);
        }
        lemma_lookup_absent(s.drop_last(), id);
        assert(s.remove(i) =~= s.drop_last());
    } else {
        assert(s.drop_last()[i] == s[i]);
        lemma_without_at(s.drop_last(), i);
        assert(s.drop_last().remove(i).push(s.last()) =~= s.remove(i));
    }
}

pub proof fn lemma_without_excludes(s: Seq<PeerPlayerInfo>, id: u64)
    ensures
        forall|k: int|
            0 <= k < without_player(s, id).len() ==> #[trigger] without_player(s, id)[k].player_id
                != id,
        without_player(s, id).len() <= s.len(),
    decreases s.len(),
{
    if s.len() > 0 {
        lemma_without_excludes(s.drop_last(), id);
    }
}

/// The world state: the admitted players in the order they joined, bounded
/// by a fixed capacity.
#[derive(Debug)]
pub struct GameWorld {
    max_players_count: usize,
    player_map: Vec<PeerPlayerInfo>,
}

impl View for GameWorld {
    type V = Seq<PeerPlayerInfo>;

    closed spec fn view(&self) -> Seq<PeerPlayerInfo> {
        self.player_map@
    }
}

impl GameWorld {
    pub closed spec fn capacity(&self) -> nat {
        self.max_players_count as nat
    }

    /// At most `capacity` entries, with distinct player ids.
    pub open spec fn wf(&self) -> bool {
        &&& self@.len() <= self.capacity()
        &&& ids_unique(self@)
    }

    pub fn new(max_players_count: usize) -> (r: GameWorld)
        ensures
            r.wf(),
            r@ == Seq::<PeerPlayerInfo>::empty(),
            r.capacity() == max_players_count,
    {
        GameWorld { max_players_count, player_map: Vec::new() }
    }

    pub fn max_players_count(&self) -> (r: usize)
        ensures
            r == self.capacity(),
    {
        self.max_players_count
    }

    pub fn len(&self) -> (r: usize)
        ensures
            r == self@.len(),
    {
        self.player_map.len()
    }

    /// The index of the entry for `player_id`.
    fn find(&self, player_id: u64) -> (r: Option<usize>)
        requires
            self.wf(),
        ensures
            match r {
                Some(i) => i < self@.len() && self@[i as int].player_id == player_id,
                None => !has_player(self@, player_id),
            },
            r is Some <==> has_player(self@, player_id),
    {
        let mut i: usize = 0;
        while i < self.player_map.len()
            invariant
                self.wf(),
                i <= self@.len(),
                forall|k: int| 0 <= k < i ==> self@[k].player_id != player_id,
            decreases self@.len() - i,
        {
            if self.player_map[i].player_id == player_id {
                proof {
                    lemma_lookup_at(self@, i as int);
                }
                return Some(i);
            }
            i += 1;
        }
        proof {
            lemma_lookup_absent(self@, player_id);
        }
        None
    }

    pub fn contains_player(&self, player_id: u64) -> (r: bool)
        requires
            self.wf(),
        ensures
            r == has_player(self@, player_id),
    {
        self.find(player_id).is_some()
    }

    pub fn get_player_position(&self, player_id: u64) -> (r: Option<ClientPosition>)
        requires
            self.wf(),
        ensures
            r == match lookup(self@, player_id) {
                Some(e) => Some(e.position()),
                None => None::<ClientPosition>,
            },
    {
        match self.find(player_id) {
            Some(i) => {
                proof {
                    lemma_lookup_at(self@, i as int);
                }
                let e = self.player_map[i];
                Some(ClientPosition { x: e.x, y: e.y })
            },
            None => None,
        }
    }

    /// Admits `player_id` at `position` when the room has space and the id
    /// is not yet present; otherwise changes nothing and returns `false`.
    pub fn add_player(&mut self, player_id: u64, position: ClientPosition) -> (r: bool)
        requires
            old(self).wf(),
        ensures
            final(self).wf(),
            final(self).capacity() == old(self).capacity(),
            r == (old(self)@.len() < old(self).capacity() && !has_player(old(self)@, player_id)),
            final(self)@ == if r {
                old(self)@.push(PeerPlayerInfo::at(player_id, position))
            } else {
                old(self)@
            },
    {
        if self.player_map.len() >= self.max_players_count {
            return false;
        }
        if self.find(player_id).is_some() {
            return false;
        }
        proof {
            lemma_lookup_found(self@, player_id);
        }
        self.player_map.push(PeerPlayerInfo { player_id, x: position.x, y: position.y });
        true
    }

    /// Removes the entry for `player_id` and returns its position; `None`
    /// and no change when there is none.
    pub fn remove_player(&mut self, player_id: u64) -> (r: Option<ClientPosition>)
        requires
            old(self).wf(),
        ensures
            final(self).wf(),
            final(self).capacity() == old(self).capacity(),
            final(self)@ == without_player(old(self)@, player_id),
            r == match lookup(old(self)@, player_id) {
                Some(e) => Some(e.position()),
                None => None::<ClientPosition>,
            },
    {
        match self.find(player_id) {
            Some(i) => {
                proof {
                    lemma_lookup_at(self@, i as int);
                    lemma_without_at(self@, i as int);
                }
                let e = self.player_map.remove(i);
                proof {
                    assert forall|a: int, b: int|
                        0 <= a < self@.len() && 0 <= b < self@.len() && a != b implies self@[a].player_id
                        != self@[b].player_id by {
                        let oa = if a < i { a } else { a + 1 };
                        let ob = if b < i { b } else { b + 1 };
                        assert(self@[a] == old(self)@[oa]);
                        assert(self@[b] == old(self)@[ob]);
                    }
                }
                Some(ClientPosition { x: e.x, y: e.y })
            },
            None => {
                proof {
                    lemma_lookup_found(self@, player_id);
                    lemma_lookup_absent(self@, player_id);
                }
                None
            },
        }
    }

    /// Moves the entry for `player_id` to `(x, y)`; no change when there is
    /// none.
    pub fn update_player_position(&mut self, player_id: u64, x: u32, y: u32)
        requires
            old(self).wf(),
        ensures
            final(self).wf(),
            final(self).capacity() == old(self).capacity(),
            final(self)@ == moved(old(self)@, player_id, ClientPosition { x, y }),
    {
        let p = ClientPosition { x, y };
        match self.find(player_id) {
            Some(i) => {
                self.player_map.set(i, PeerPlayerInfo { player_id, x, y });
                proof {
                    assert forall|k: int| 0 <= k < self@.len() implies self@[k] == moved(
                        old(self)@,
                        player_id,
                        p,
                    )[k] by {
                        if k != i {
                            assert(old(self)@[k].player_id != player_id);
                        }
                    }
                    assert(self@ =~= moved(old(self)@, player_id, p));
                }
            },
            None => {
                proof {
                    lemma_lookup_found(self@, player_id);
                    assert(self@ =~= moved(old(self)@, player_id, p));
                }
            },
        }
    }

    /// The entries of every player but `skip_id`, in join order.
    pub fn get_world_update(&self, skip_id: u64) -> (r: Vec<PeerPlayerInfo>)
        ensures
            r@ == without_player(self@, skip_id),
    {
        let mut out: Vec<PeerPlayerInfo> = Vec::new();
        let mut i: usize = 0;
        while i < self.player_map.len()
            invariant
                i <= self@.len(),
                out@ == without_player(self@.subrange(0, i as int), skip_id),
            decreases self@.len() - i,
        {
            let e = self.player_map[i];
            proof {
                assert(self@.subrange(0, i + 1).drop_last() =~= self@.subrange(0, i as int));
            }
            if e.player_id != skip_id {
                out.push(e);
            }
            i += 1;
        }
        proof {
            assert(self@.subrange(0, self@.len() as int) =~= self@);
        }
        out
    }
}

impl Default for GameWorld {
    fn default() -> (r: GameWorld)
        ensures
            r.wf(),
            r@ == Seq::<PeerPlayerInfo>::empty(),
            r.capacity() == DEFAULT_MAX_PLAYERS,
    {
        GameWorld::new(DEFAULT_MAX_PLAYERS)
    }
}

} // verus!
