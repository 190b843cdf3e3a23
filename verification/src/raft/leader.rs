//! The leader: it asserts its authority with a heartbeat at every expiry of
//! its heartbeat timer, and gives way as soon as it hears of a later term.

use super::role::{
    answer_reaction, ignored, push_command, refusal, timer_effects, vote_reaction, Reaction, Step,
};
use super::state::{RaftState, StateView};
use super::timer::{Timer, TimerState};
use super::{Effect, NodeId, RaftMessage, RoleState};
use std::collections::HashMap;
use vstd::prelude::*;
use vstd::std_specs::hash::group_hash_axioms;

verus! {

broadcast use group_hash_axioms;

/// The table that holds `value` for each of `peers` and nothing else.
pub open spec fn index_table(peers: Seq<NodeId>, value: usize) -> Map<NodeId, usize> {
    Map::new(|peer: NodeId| peers.contains(peer), |peer: NodeId| value)
}

/// A heartbeat timer that has not been started, with a period of `interval`
/// milliseconds.
pub open spec fn heartbeat_timer(interval: u64) -> Timer {
    Timer {
        timeout: interval,
        timeout_message: RaftMessage::HeartTimeOut,
        state: TimerState::Unstarted,
    }
}

/// A table that holds `value` for each of `peers`.
fn table_of(peers: &Vec<NodeId>, value: usize) -> (table: HashMap<NodeId, usize>)
    ensures
        table@ == index_table(peers@, value),
{
    let mut table: HashMap<NodeId, usize> = HashMap::new();
    let mut i: usize = 0;
    while i < peers.len()
        invariant
            i <= peers@.len(),
            table@ == index_table(peers@.take(i as int), value),
        decreases peers@.len() - i,
    {
        let peer = peers[i];
        proof {
            let before = peers@.take(i as int);
            let after = peers@.take(i + 1);
            assert(after =~= before.push(peer));
            assert forall|other: NodeId| after.contains(other) <==> (before.contains(other)
                || other == peer) by {
                if before.contains(other) {
                    let j = choose|j: int| 0 <= j < before.len() && before[j] == other;
                    assert(after[j] == other);
                }
                if other == peer {
                    assert(after[i as int] == other);
                }
            }
            assert(index_table(after, value) =~= index_table(before, value).insert(peer, value));
        }
        table.insert(peer, value);
        i = i + 1;
    }
    proof {
        assert(peers@.take(peers@.len() as int) =~= peers@);
    }
    table
}

#[derive(Debug)]
pub struct Leader {
    heartbeat_timer: Timer,
    //volatile state on leader
    // For each server, index of the next log entry to send to that server.
    // initialized to leader last log index + 1
    next_index: HashMap<NodeId, usize>,
    // For each server, index of the highest log entry known to replicated on server.
    // initialized to 0, increases monotonically
    match_index: HashMap<NodeId, usize>,
}

impl Leader {
    /// The heartbeat timer of the leader.
    pub closed spec fn timer(self) -> Timer {
        self.heartbeat_timer
    }

    /// For each peer, the index of the next log entry to send to it.
    pub closed spec fn next_index(self) -> Map<NodeId, usize> {
        self.next_index@
    }

    /// For each peer, the index of the highest log entry known to be
    /// replicated on it.
    pub closed spec fn match_index(self) -> Map<NodeId, usize> {
        self.match_index@
    }

    /// What a leader whose heartbeat timer is `timer` makes of `message`.
    ///
    /// When the heartbeat timer fires every peer is sent a heartbeat and
    /// the interval starts anew. A heartbeat of a greater term makes the
    /// leader a follower in that term; any other heartbeat changes nothing;
    /// either way the sender is answered. An answer of another node that
    /// carries a greater term makes the leader a follower in that term too,
    /// be it an answer to a heartbeat or to a request for a vote. A request
    /// for a vote is decided by the shared rule and always answered, and a
    /// greater term in it makes the leader a follower. All else is passed
    /// over.
    pub open spec fn reacts(timer: Timer, state: StateView, message: RaftMessage) -> Reaction {
        match message {
            RaftMessage::HeartTimeOut => Reaction {
                state: StateView { failed_sends: Seq::empty(), ..state },
                effects: state.sends(state.heartbeat()) + timer_effects(timer.reset_command()),
                next: None,
            },
            RaftMessage::AppendEntries { term, leader } => if term > state.current_term {
                Reaction {
                    state: state.observed(term),
                    effects: seq![
                        Effect::Send { to: leader, message: state.leader_response(term, true) },
                    ],
                    next: Some(RoleState::Follower),
                }
            } else {
                refusal(state, term, leader)
            },
            RaftMessage::RequestVote { term, candidate, last_log_term, log_len } => vote_reaction(
                state,
                term,
                candidate,
                last_log_term,
                log_len,
                true,
            ),
            RaftMessage::RequestVoteResponse { term, granted, voter } => answer_reaction(
                state,
                term,
                true,
            ),
            RaftMessage::AppendEntriesResponse { term, status } => answer_reaction(
                state,
                term,
                true,
            ),
            RaftMessage::ElectionTimeOut => ignored(state),
        }
    }

    /// A leader for the node of `state`. Its heartbeat timer has the
    /// interval that the node was configured with and has not been started.
    /// For every peer the next entry to send is the one after the last of
    /// the log of the node, and no entry is known to be replicated.
    pub fn new(state: &RaftState) -> (leader: Leader)
        requires
            state.wf(),
        ensures
            leader.timer() == heartbeat_timer(state@.config.heartbeat_interval),
            leader.next_index() == index_table(state@.peers, state@.log.len() as usize),
            leader.match_index() == index_table(state@.peers, 0),
    {
        let config = state.config();
        let heartbeat_timer = Timer::new(config.heartbeat_interval, RaftMessage::HeartTimeOut);
        let next_index = table_of(state.peers(), state.log_len());
        let match_index = table_of(state.peers(), 0);
        Leader { heartbeat_timer, next_index, match_index }
    }

    /// The index of the next log entry to send to `peer`, if the leader
    /// knows the peer.
    pub fn next_index_of(&self, peer: NodeId) -> (index: Option<usize>)
        ensures
            index == if self.next_index().contains_key(peer) {
                Some(self.next_index()[peer])
            } else {
                None
            },
    {
        match self.next_index.get(&peer) {
            Some(index) => Some(*index),
            None => None,
        }
    }

    /// The index of the highest log entry known to be replicated on `peer`,
    /// if the leader knows the peer.
    pub fn match_index_of(&self, peer: NodeId) -> (index: Option<usize>)
        ensures
            index == if self.match_index().contains_key(peer) {
                Some(self.match_index()[peer])
            } else {
                None
            },
    {
        match self.match_index.get(&peer) {
            Some(index) => Some(*index),
            None => None,
        }
    }

    /// The heartbeat timer of the leader.
    pub fn heartbeat_timer(&self) -> (timer: Timer)
        ensures
            timer == self.timer(),
    {
        self.heartbeat_timer
    }

    /// Starts the heartbeat timer, or starts it anew if it runs.
    pub fn restart_timer(&mut self) -> (effects: Vec<Effect>)
        ensures
            final(self).timer() == old(self).timer().in_state(old(self).timer().restarted().0),
            final(self).next_index() == old(self).next_index(),
            final(self).match_index() == old(self).match_index(),
            effects@ == timer_effects(old(self).timer().restarted().1),
    {
        let mut effects: Vec<Effect> = Vec::new();
        let command = self.heartbeat_timer.restart();
        push_command(&mut effects, command);
        effects
    }

    /// Takes up the role: the heartbeat timer is started.
    pub fn enter(&mut self) -> (effects: Vec<Effect>)
        ensures
            final(self).timer() == old(self).timer().in_state(old(self).timer().started().0),
            final(self).next_index() == old(self).next_index(),
            final(self).match_index() == old(self).match_index(),
            effects@ == timer_effects(old(self).timer().started().1),
    {
        let mut effects: Vec<Effect> = Vec::new();
        let command = self.heartbeat_timer.start();
        push_command(&mut effects, command);
        effects
    }

    /// One heartbeat for each peer, in the current term of the node. One
    /// peer that cannot be reached does not keep the others from being sent
    /// theirs.
    pub fn send_heartbeat(&self, state: &mut RaftState) -> (sends: Vec<Effect>)
        ensures
            old(state).wf() ==> final(state).wf(),
            final(state).log_image() == old(state).log_image(),
            final(state)@ == (StateView { failed_sends: Seq::empty(), ..old(state)@ }),
            sends@ == old(state)@.sends(old(state)@.heartbeat()),
    {
        let heartbeat = state.heartbeat();
        state.broadcast(heartbeat)
    }

    /// Takes one message.
    pub fn handle_message(&self, state: &mut RaftState, message: RaftMessage) -> (step: Step)
        requires
            old(state).wf(),
        ensures
            final(state).wf(),
            final(state).log_image() == old(state).log_image(),
            (Reaction { state: final(state)@, effects: step.effects@, next: step.next })
                == Self::reacts(self.timer(), old(state)@, message),
    {
        let mut effects: Vec<Effect> = Vec::new();
        let mut next: Option<RoleState> = None;
        match message {
            RaftMessage::HeartTimeOut => {
                effects = self.send_heartbeat(state);
                push_command(&mut effects, self.heartbeat_timer.reset());
            },
            RaftMessage::AppendEntries { term, leader } => {
                let taken = term > state.current_term();
                if taken {
                    state.observe_term(term);
                    next = Some(RoleState::Follower);
                }
                effects.push(Effect::Send { to: leader, message: state.leader_response(taken) });
            },
            RaftMessage::RequestVote { term, candidate, last_log_term, log_len } => {
                if term > state.current_term() {
                    next = Some(RoleState::Follower);
                }
                let response = state.handle_request_vote(term, candidate, last_log_term, log_len);
                effects.push(Effect::Send { to: candidate, message: response });
            },
            RaftMessage::RequestVoteResponse { term, granted, voter } => {
                if state.observe_term(term) {
                    next = Some(RoleState::Follower);
                }
            },
            RaftMessage::AppendEntriesResponse { term, status } => {
                if state.observe_term(term) {
                    next = Some(RoleState::Follower);
                }
            },
            RaftMessage::ElectionTimeOut => {},
        }
        Step { effects, next }
    }

    /// Gives up the role: the heartbeat timer is stopped for good.
    pub fn stop(&mut self) -> (effects: Vec<Effect>)
        ensures
            final(self).timer() == old(self).timer().in_state(old(self).timer().stopped().0),
            final(self).next_index() == old(self).next_index(),
            final(self).match_index() == old(self).match_index(),
            effects@ == timer_effects(old(self).timer().stopped().1),
    {
        let mut effects: Vec<Effect> = Vec::new();
        let command = self.heartbeat_timer.stop();
        push_command(&mut effects, command);
        effects
    }
}

} // verus!
