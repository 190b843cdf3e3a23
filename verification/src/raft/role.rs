//! What the three roles have in common: the shape of their answer to a
//! message, and their answer to a request for a vote.

use super::state::StateView;
use super::timer::{Timer, TimerCommand, TimerState};
use super::{Effect, NodeId, RaftMessage, RoleState, Term};
use vstd::prelude::*;

verus! {

/// The effects that carrying out `command` takes: one, or none where there is
/// no command.
pub open spec fn timer_effects(command: Option<TimerCommand>) -> Seq<Effect> {
    match command {
        Some(command) => seq![Effect::Timer(command)],
        None => Seq::empty(),
    }
}

/// Adds the effect of `command` to `effects`, if there is a command.
pub fn push_command(effects: &mut Vec<Effect>, command: Option<TimerCommand>)
    ensures
        final(effects)@ == old(effects)@ + timer_effects(command),
{
    match command {
        Some(command) => {
            effects.push(Effect::Timer(command));
            proof {
                assert(effects@ =~= old(effects)@ + timer_effects(Some(command)));
            }
        },
        None => {
            proof {
                assert(effects@ =~= old(effects)@ + timer_effects(None));
            }
        },
    }
}

/// What a role answers to one message: what the node has to do, and the
/// role that the node has to take up next, if it has to change or to take up
/// its role anew.
pub struct Step {
    pub effects: Vec<Effect>,
    pub next: Option<RoleState>,
}

/// What a role makes of one message, as plain mathematics: the state of the
/// node afterwards, what the node has to do, and the role to take up next.
pub struct Reaction {
    pub state: StateView,
    pub effects: Seq<Effect>,
    pub next: Option<RoleState>,
}

/// The reaction that every role has to a request for a vote: the shared rule
/// decides, and the answer goes back to the candidate. `steps_down` says
/// whether a greater term makes the role give way to a follower.
pub open spec fn vote_reaction(
    state: StateView,
    term: Term,
    candidate: NodeId,
    last_log_term: Term,
    log_len: u64,
    steps_down: bool,
) -> Reaction {
    Reaction {
        state: state.after_vote_request(term, candidate, last_log_term, log_len),
        effects: seq![
            Effect::Send {
                to: candidate,
                message: state.vote_response(term, candidate, last_log_term, log_len),
            },
        ],
        next: if steps_down && term > state.current_term {
            Some(RoleState::Follower)
        } else {
            None
        },
    }
}

/// The reaction that every role has to a message of a leader that it
/// refuses as stale: nothing changes, and the leader is told the term of the
/// node.
pub open spec fn refusal(state: StateView, term: Term, leader: NodeId) -> Reaction {
    Reaction {
        state,
        effects: seq![Effect::Send { to: leader, message: state.leader_response(term, false) }],
        next: None,
    }
}

/// The reaction that every role has to an answer that a node gave to a
/// leader: a greater term is adopted, and makes a role other than the
/// follower give way to a follower.
pub open spec fn answer_reaction(state: StateView, term: Term, steps_down: bool) -> Reaction {
    Reaction {
        state: state.observed(term),
        effects: Seq::empty(),
        next: if steps_down && term > state.current_term {
            Some(RoleState::Follower)
        } else {
            None
        },
    }
}

/// The reaction to a message that the role has no use for.
pub open spec fn ignored(state: StateView) -> Reaction {
    Reaction { state, effects: Seq::empty(), next: None }
}

/// An election timer that has not been started, with a period of `timeout`
/// milliseconds.
pub open spec fn election_timer(timeout: u64) -> Timer {
    Timer {
        timeout,
        timeout_message: RaftMessage::ElectionTimeOut,
        state: TimerState::Unstarted,
    }
}

} // verus!
