use vstd::prelude::*;

use crate::codec::{encode_server_frame, parse_client_frame, read_gameplay_data, server_frame};
use crate::message_types::{Disconnect, PeerPlayerData, PeerPlayerPositionUpdate};

verus! {

/// Where a session stands.
#[derive(Debug, Clone, Copy, PartialEq, Eq, Structural)]
pub enum PeerState {
    /// The join request is out; its answer has not come.
    Connecting,
    /// Joined: frames flow both ways.
    Active,
    /// The connection is gone but the join answer has not come, so the
    /// session cannot yet say which id leaves.
    Closing,
    /// The connection is gone and the leave has been sent.
    Closed,
}

/// Why the runtime closes the connection.
#[derive(Debug, Clone, Copy, PartialEq, Eq, Structural)]
pub enum CloseReason {
    /// The client asked to close.
    Normal,
    /// The room was full.
    RoomFull,
    /// No ping or pong came within the timeout.
    Timeout,
    /// The stream failed or broke the protocol.
    Error,
}

/// What reaches a session: an answer from the coordinator, something from
/// the network, an event to forward, or a timer tick.
#[derive(Debug)]
pub enum PeerInput {
    /// The coordinator admitted the session under `id`.
    Joined { id: u64 },
    /// The coordinator refused the join.
    JoinRefused,
    /// A binary frame from the client.
    Binary { bytes: Vec<u8> },
    /// A text frame from the client; it carries nothing the relay uses.
    Text,
    Ping,
    Pong,
    /// The client sent a close frame.
    CloseFrame,
    /// The stream failed, or sent a frame the runtime does not take.
    Failure,
    /// An event from the coordinator for this session's client.
    Outbound { data: PeerPlayerData },
    /// Time to check liveness.
    Tick,
}

/// What the runtime asks its surroundings to do.
#[derive(Debug, PartialEq, Eq)]
pub enum PeerAction {
    /// Write a binary frame to the client.
    WriteBinary { bytes: Vec<u8> },
    /// Answer the ping just received.
    WritePong,
    /// Report the client's new position to the coordinator.
    UpdatePosition { update: PeerPlayerPositionUpdate },
    /// Tell the coordinator the session has gone.
    Leave { disconnect: Disconnect },
    /// Close the connection.
    Close { reason: CloseReason },
}

/// What a `PeerAction` means, with the frame as a sequence.
pub enum ActionModel {
    WriteBinary { bytes: Seq<u8> },
    WritePong,
    UpdatePosition { update: PeerPlayerPositionUpdate },
    Leave { disconnect: Disconnect },
    Close { reason: CloseReason },
}

impl View for PeerAction {
    type V = ActionModel;

    open spec fn view(&self) -> ActionModel {
        match self {
            PeerAction::WriteBinary { bytes } => ActionModel::WriteBinary { bytes: bytes@ },
            PeerAction::WritePong => ActionModel::WritePong,
            PeerAction::UpdatePosition { update } => ActionModel::UpdatePosition { update: *update },
            PeerAction::Leave { disconnect } => ActionModel::Leave { disconnect: *disconnect },
            PeerAction::Close { reason } => ActionModel::Close { reason: *reason },
        }
    }
}

pub open spec fn actions_view(v: Seq<PeerAction>) -> Seq<ActionModel> {
    v.map_values(|a: PeerAction| a@)
}

/// One session's runtime state. `id` is zero until the coordinator assigns
/// one; `heart_beat` is when the last ping or pong came, and the session
/// counts as dead once more than `timeout` has passed since.
#[derive(Debug, Clone, Copy, PartialEq, Eq, Structural)]
pub struct Peer {
    pub id: u64,
    pub heart_beat: u64,
    pub timeout: u64,
    pub state: PeerState,
}

/// More than `p.timeout` has passed since the last sign of life.
pub open spec fn timed_out(p: Peer, now: u64) -> bool {
    now > p.heart_beat && now - p.heart_beat > p.timeout
}

/// The connection goes away for `reason`. An active session closes and
/// leaves at once; one still waiting for its join answer closes and leaves
/// when the answer comes; a closed one does nothing more.
pub open spec fn shut(p: Peer, reason: CloseReason) -> (Peer, Seq<ActionModel>) {
    match p.state {
        PeerState::Connecting => (
            Peer { state: PeerState::Closing, ..p },
            seq![ActionModel::Close { reason }],
        ),
        PeerState::Active => (
            Peer { state: PeerState::Closed, ..p },
            seq![ActionModel::Close { reason }, ActionModel::Leave { disconnect: Disconnect { id: p.id } }],
        ),
        _ => (p, Seq::empty()),
    }
}

/// The state after `input` at time `now`, and what the runtime does.
pub open spec fn peer_step(p: Peer, now: u64, input: PeerInput) -> (Peer, Seq<ActionModel>) {
    let live = p.state == PeerState::Connecting || p.state == PeerState::Active;
    match input {
        PeerInput::Joined { id } => match p.state {
            PeerState::Connecting => (Peer { id, state: PeerState::Active, ..p }, Seq::empty()),
            PeerState::Closing => (
                Peer { id, state: PeerState::Closed, ..p },
                seq![ActionModel::Leave { disconnect: Disconnect { id } }],
            ),
            _ => (p, Seq::empty()),
        },
        PeerInput::JoinRefused => match p.state {
            PeerState::Connecting => (
                Peer { state: PeerState::Closed, ..p },
                seq![
                    ActionModel::Close { reason: CloseReason::RoomFull },
                    ActionModel::Leave { disconnect: Disconnect { id: p.id } },
                ],
            ),
            PeerState::Closing => (
                Peer { state: PeerState::Closed, ..p },
                seq![ActionModel::Leave { disconnect: Disconnect { id: p.id } }],
            ),
            _ => (p, Seq::empty()),
        },
        PeerInput::Binary { bytes } => if p.state == PeerState::Active {
            match parse_client_frame(bytes@) {
                Ok(d) => (
                    p,
                    seq![
                        ActionModel::UpdatePosition {
                            update: PeerPlayerPositionUpdate {
                                player_position: d.player_position,
                                player_id: p.id,
                            },
                        },
                    ],
                ),
                Err(_) => (p, Seq::empty()),
            }
        } else {
            (p, Seq::empty())
        },
        PeerInput::Text => (p, Seq::empty()),
        PeerInput::Ping => if live {
            (Peer { heart_beat: now, ..p }, seq![ActionModel::WritePong])
        } else {
            (p, Seq::empty())
        },
        PeerInput::Pong => if live {
            (Peer { heart_beat: now, ..p }, Seq::empty())
        } else {
            (p, Seq::empty())
        },
        PeerInput::CloseFrame => shut(p, CloseReason::Normal),
        PeerInput::Failure => shut(p, CloseReason::Error),
        PeerInput::Outbound { data } => if p.state == PeerState::Active {
            (p, seq![ActionModel::WriteBinary { bytes: server_frame(data@) }])
        } else {
            (p, Seq::empty())
        },
        PeerInput::Tick => if timed_out(p, now) {
            shut(p, CloseReason::Timeout)
        } else {
            (p, Seq::empty())
        },
    }
}

impl Peer {
    /// A session whose join request has just gone out at time `now`.
    pub fn create(now: u64, timeout: u64) -> (r: Peer)
        ensures
            r == (Peer { id: 0, heart_beat: now, timeout, state: PeerState::Connecting }),
    {
        Peer { id: 0, heart_beat: now, timeout, state: PeerState::Connecting }
    }

    fn shut(&mut self, reason: CloseReason) -> (r: Vec<PeerAction>)
        ensures
            (*final(self), actions_view(r@)) == shut(*old(self), reason),
    {
        let mut out: Vec<PeerAction> = Vec::new();
        match self.state {
            PeerState::Connecting => {
                self.state = PeerState::Closing;
                out.push(PeerAction::Close { reason });
                proof {
                    assert(actions_view(out@) =~= seq![ActionModel::Close { reason }]);
                }
            },
            PeerState::Active => {
                self.state = PeerState::Closed;
                out.push(PeerAction::Close { reason });
                out.push(PeerAction::Leave { disconnect: Disconnect { id: self.id } });
                proof {
                    assert(actions_view(out@) =~= seq![
                        ActionModel::Close { reason },
                        ActionModel::Leave { disconnect: Disconnect { id: self.id } },
                    ]);
                }
            },
            _ => {
                proof {
                    assert(actions_view(out@) =~= Seq::empty());
                }
            },
        }
        out
    }

    /// Takes one input at time `now`: moves to the next state and returns
    /// what to do, in order. Malformed client frames are dropped; the
    /// coordinator hears of the session's end exactly once.
    pub fn handle(&mut self, now: u64, input: PeerInput) -> (r: Vec<PeerAction>)
        ensures
            (*final(self), actions_view(r@)) == peer_step(*old(self), now, input),
    {
        let ghost input_copy = input;
        let mut out: Vec<PeerAction> = Vec::new();
        let live = self.state == PeerState::Connecting || self.state == PeerState::Active;
        match input {
            PeerInput::Joined { id } => {
                match self.state {
                    PeerState::Connecting => {
                        self.id = id;
                        self.state = PeerState::Active;
                    },
                    PeerState::Closing => {
                        self.id = id;
                        self.state = PeerState::Closed;
                        out.push(PeerAction::Leave { disconnect: Disconnect { id } });
                    },
                    _ => {},
                }
            },
            PeerInput::JoinRefused => {
                match self.state {
                    PeerState::Connecting => {
                        self.state = PeerState::Closed;
                        out.push(PeerAction::Close { reason: CloseReason::RoomFull });
                        out.push(PeerAction::Leave { disconnect: Disconnect { id: self.id } });
                    },
                    PeerState::Closing => {
                        self.state = PeerState::Closed;
                        out.push(PeerAction::Leave { disconnect: Disconnect { id: self.id } });
                    },
                    _ => {},
                }
            },
            PeerInput::Binary { bytes } => {
                if self.state == PeerState::Active {
                    match read_gameplay_data(bytes.as_slice()) {
                        Ok(d) => {
                            out.push(
                                PeerAction::UpdatePosition {
                                    update: PeerPlayerPositionUpdate {
                                        player_position: d.player_position,
                                        player_id: self.id,
                                    },
                                },
                            );
                        },
                        Err(_) => {},
                    }
                }
            },
            PeerInput::Text => {},
            PeerInput::Ping => {
                if live {
                    self.heart_beat = now;
                    out.push(PeerAction::WritePong);
                }
            },
            PeerInput::Pong => {
                if live {
                    self.heart_beat = now;
                }
            },
            PeerInput::CloseFrame => {
                out = self.shut(CloseReason::Normal);
            },
            PeerInput::Failure => {
                out = self.shut(CloseReason::Error);
            },
            PeerInput::Outbound { data } => {
                if self.state == PeerState::Active {
                    out.push(PeerAction::WriteBinary { bytes: encode_server_frame(data) });
                }
            },
            PeerInput::Tick => {
                if now > self.heart_beat && now - self.heart_beat > self.timeout {
                    out = self.shut(CloseReason::Timeout);
                }
            },
        }
        proof {
            let expected = peer_step(*old(self), now, input_copy).1;
            assert(actions_view(out@) =~= expected);
        }
        out
    }
}

/// The state after the timed inputs of `steps`, in order, and everything
/// the runtime did along the way.
pub open spec fn run(p: Peer, steps: Seq<(u64, PeerInput)>) -> (Peer, Seq<ActionModel>)
    decreases steps.len(),
{
    if steps.len() == 0 {
        (p, Seq::empty())
    } else {
        let (q, done) = run(p, steps.drop_last());
        let (r, more) = peer_step(q, steps.last().0, steps.last().1);
        (r, done + more)
    }
}

/// How many leave notices `a` holds.
pub open spec fn leave_count(a: Seq<ActionModel>) -> nat
    decreases a.len(),
{
    if a.len() == 0 {
        0
    } else {
        leave_count(a.drop_last()) + if a.last() is Leave {
            1nat
        } else {
            0nat
        }
    }
}

pub proof fn lemma_leave_count_concat(a: Seq<ActionModel>, b: Seq<ActionModel>)
    ensures
        leave_count(a + b) == leave_count(a) + leave_count(b),
    decreases b.len(),
{
    if b.len() > 0 {
        lemma_leave_count_concat(a, b.drop_last());
        assert((a + b).drop_last() =~= a + b.drop_last());
    }
}

/// One step sends a leave exactly when it enters `Closed`.
pub proof fn lemma_step_leaves(p: Peer, now: u64, input: PeerInput)
    ensures
        leave_count(peer_step(p, now, input).1) == if p.state != PeerState::Closed && peer_step(
            p,
            now,
            input,
        ).0.state == PeerState::Closed {
            1nat
        } else {
            0nat
        },
        p.state == PeerState::Closed ==> peer_step(p, now, input).0.state == PeerState::Closed,
{
    reveal_with_fuel(leave_count, 3);
    let a = peer_step(p, now, input).1;
    assert(a.len() <= 2);
    if a.len() == 1 {
        assert(a.drop_last() =~= Seq::<ActionModel>::empty());
    }
    if a.len() == 2 {
        assert(a.drop_last() =~= seq![a[0]]);
        assert(seq![a[0]].drop_last() =~= Seq::<ActionModel>::empty());
    }
}

/// Whatever happens to a session, it tells the coordinator that it left
/// exactly once if it ends closed, and never otherwise; a session that
/// starts closed sends no leave at all.
pub proof fn law_leave_exactly_once(p: Peer, steps: Seq<(u64, PeerInput)>)
    ensures
        leave_count(run(p, steps).1) == if p.state != PeerState::Closed && run(p, steps).0.state
            == PeerState::Closed {
            1nat
        } else {
            0nat
        },
        p.state == PeerState::Closed ==> run(p, steps).0.state == PeerState::Closed,
    decreases steps.len(),
{
    if steps.len() > 0 {
        law_leave_exactly_once(p, steps.drop_last());
        let (q, done) = run(p, steps.drop_last());
        let (now, input) = steps.last();
        lemma_step_leaves(q, now, input);
        lemma_leave_count_concat(done, peer_step(q, now, input).1);
    }
}

} // verus!
