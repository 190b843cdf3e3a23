//! The follower: it waits for a leader to make itself heard and stands for
//! election when none does before its election timer fires.

use super::role::{
    answer_reaction, election_timer, ignored, push_command, refusal, timer_effects,
    vote_reaction, Reaction, Step,
};
use super::state::{RaftState, StateView};
use super::timer::Timer;
use super::{Effect, RaftMessage, RoleState};
use vstd::prelude::*;

verus! {

#[derive(Debug)]
pub struct Follower {
    election_timer: Timer,
}

impl Follower {
    /// The election timer of the follower.
    pub closed spec fn timer(self) -> Timer {
        self.election_timer
    }

    /// What a follower whose election timer is `timer` makes of `message`.
    ///
    /// A heartbeat of the current term or a later one starts the election
    /// timer anew, and its term is adopted; a heartbeat of an earlier term is
    /// stale and changes nothing. Either way the leader is answered. When
    /// the election timer fires the follower becomes a candidate. A request
    /// for a vote is decided by the shared rule and always answered. Of an
    /// answer that was meant for another role only a greater term is taken.
    pub open spec fn reacts(timer: Timer, state: StateView, message: RaftMessage) -> Reaction {
        match message {
            RaftMessage::ElectionTimeOut => Reaction {
                state,
                effects: Seq::empty(),
                next: Some(RoleState::Candidate),
            },
            RaftMessage::AppendEntries { term, leader } => if term >= state.current_term {
                Reaction {
                    state: state.observed(term),
                    effects: timer_effects(timer.reset_command()).push(
                        Effect::Send { to: leader, message: state.leader_response(term, true) },
                    ),
                    next: None,
                }
            } else {
                refusal(state, term, leader)
            },
            RaftMessage::RequestVote { term, candidate, last_log_term, log_len } => vote_reaction(
                state,
                term,
                candidate,
                last_log_term,
                log_len,
                false,
            ),
            RaftMessage::RequestVoteResponse { term, granted, voter } => ignored(
                state.observed(term),
            ),
            RaftMessage::HeartTimeOut => ignored(state),
            RaftMessage::AppendEntriesResponse { term, status } => answer_reaction(
                state,
                term,
                false,
            ),
        }
    }

    /// A follower whose election timer has a period of `timeout`
    /// milliseconds and has not been started.
    pub fn with_timeout(timeout: u64) -> (follower: Follower)
        ensures
            follower.timer() == election_timer(timeout),
    {
        Follower { election_timer: Timer::new(timeout, RaftMessage::ElectionTimeOut) }
    }

    /// A follower for the node of `state`, with an election timeout drawn
    /// from the range that the node was configured with.
    pub fn new(state: &RaftState) -> (follower: Follower)
        ensures
            state@.config.yields(follower.timer().period()),
            follower.timer() == election_timer(follower.timer().period()),
    {
        let config = state.config();
        Follower::with_timeout(config.election_timeout())
    }

    /// The election timer of the follower.
    pub fn election_timer(&self) -> (timer: Timer)
        ensures
            timer == self.timer(),
    {
        self.election_timer
    }

    /// Takes up the role: the election timer is started, or started anew if
    /// it runs.
    pub fn enter(&mut self) -> (effects: Vec<Effect>)
        ensures
            final(self).timer() == old(self).timer().in_state(old(self).timer().restarted().0),
            effects@ == timer_effects(old(self).timer().restarted().1),
    {
        let mut effects: Vec<Effect> = Vec::new();
        let command = self.election_timer.restart();
        push_command(&mut effects, command);
        effects
    }

    /// Takes one message.
    pub fn handle_message(&self, state: &mut RaftState, message: RaftMessage) -> (step: Step)
        requires
            old(state).wf(),
        ensures
            final(state).wf(),
            final(state).log_image() == old(state).log_image(),
            (Reaction { state: final(state)@, effects: step.effects@, next: step.next })
                == Self::reacts(self.timer(), old(state)@, message),
    {
        let mut effects: Vec<Effect> = Vec::new();
        let mut next: Option<RoleState> = None;
        match message {
            RaftMessage::ElectionTimeOut => {
                // switch to candidate & start election
                next = Some(RoleState::Candidate);
            },
            RaftMessage::AppendEntries { term, leader } => {
                let taken = term >= state.current_term();
                if taken {
                    state.observe_term(term);
                    push_command(&mut effects, self.election_timer.reset());
                }
                effects.push(Effect::Send { to: leader, message: state.leader_response(taken) });
            },
            RaftMessage::RequestVote { term, candidate, last_log_term, log_len } => {
                let response = state.handle_request_vote(term, candidate, last_log_term, log_len);
                effects.push(Effect::Send { to: candidate, message: response });
            },
            RaftMessage::RequestVoteResponse { term, granted, voter } => {
                state.observe_term(term);
            },
            RaftMessage::HeartTimeOut => {},
            RaftMessage::AppendEntriesResponse { term, status } => {
                state.observe_term(term);
            },
        }
        Step { effects, next }
    }

    /// Gives up the role: the election timer is stopped for good.
    pub fn stop(&mut self) -> (effects: Vec<Effect>)
        ensures
            final(self).timer() == old(self).timer().in_state(old(self).timer().stopped().0),
            effects@ == timer_effects(old(self).timer().stopped().1),
    {
        let mut effects: Vec<Effect> = Vec::new();
        let command = self.election_timer.stop();
        push_command(&mut effects, command);
        effects
    }
}

} // verus!
