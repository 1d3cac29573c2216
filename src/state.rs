//! The four protocol phases of a connection and the moves between them.
use vstd::prelude::*;

verus! {

/// The protocol phase a connection is in.
#[derive(Debug, Clone, Copy, PartialEq, Eq, Structural)]
pub enum ConnectionState {
    Handshake,
    Status,
    Login,
    Play,
}

/// How far along the phases a state is: a connection never moves to a lower
/// rank.
pub open spec fn rank(s: ConnectionState) -> nat {
    match s {
        ConnectionState::Handshake => 0,
        ConnectionState::Status => 1,
        ConnectionState::Login => 1,
        ConnectionState::Play => 2,
    }
}

/// The moves a connection may make: staying put, leaving the handshake for
/// status or login, and leaving login for play.
pub open spec fn legal_transition(from: ConnectionState, to: ConnectionState) -> bool {
    ||| from == to
    ||| from == ConnectionState::Handshake && (to == ConnectionState::Status || to
        == ConnectionState::Login)
    ||| from == ConnectionState::Login && to == ConnectionState::Play
}

/// A run of states in which each one follows from the one before by a legal move.
pub open spec fn legal_run(states: Seq<ConnectionState>) -> bool {
    forall|i: int| 0 <= i < states.len() - 1 ==> legal_transition(#[trigger] states[i], states[i + 1])
}

/// Along any legal run the rank never decreases; in particular a connection
/// that has reached play stays in play.
pub proof fn lemma_state_monotonic(states: Seq<ConnectionState>, i: int, j: int)
    requires
        legal_run(states),
        0 <= i <= j < states.len(),
    ensures
        rank(states[i]) <= rank(states[j]),
        states[i] == ConnectionState::Play ==> states[j] == ConnectionState::Play,
    decreases j - i,
{
    if i < j {
        lemma_state_monotonic(states, i, j - 1);
        assert(legal_transition(states[j - 1], states[j]));
    }
}

/// Whether a connection can get from `from` to `to` by legal moves.
pub open spec fn reachable(from: ConnectionState, to: ConnectionState) -> bool {
    legal_transition(from, to) || (from == ConnectionState::Handshake && to
        == ConnectionState::Play)
}

/// Reachability composes, and every legal move is reachable.
pub proof fn lemma_reachable_trans(a: ConnectionState, b: ConnectionState, c: ConnectionState)
    ensures
        legal_transition(a, b) ==> reachable(a, b),
        reachable(a, b) && reachable(b, c) ==> reachable(a, c),
        reachable(a, b) ==> rank(a) <= rank(b),
{
}

/// The first and last states of a legal run are reachable from one another.
pub proof fn lemma_run_reachable(states: Seq<ConnectionState>, j: int)
    requires
        legal_run(states),
        0 <= j < states.len(),
    ensures
        reachable(states[0], states[j]),
    decreases j,
{
    if j > 0 {
        lemma_run_reachable(states, j - 1);
        assert(legal_transition(states[j - 1], states[j]));
        lemma_reachable_trans(states[0], states[j - 1], states[j]);
    }
}

} // verus!
