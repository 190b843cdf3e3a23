//! The candidate: it stands for election in a new term, asks every peer for
//! its vote, and counts the answers until more than half of the cluster has
//! granted, a leader makes itself heard, or its election timer fires.

use super::role::{
    answer_reaction, election_timer, ignored, push_command, refusal, timer_effects,
    vote_reaction, Reaction, Step,
};
use super::state::{RaftState, StateView};
use super::timer::Timer;
use super::{Effect, NodeId, RaftMessage, RoleState};
use std::collections::HashMap;
use vstd::prelude::*;
use vstd::set_lib::lemma_len_subset;
use vstd::std_specs::hash::group_hash_axioms;

verus! {

broadcast use group_hash_axioms;

/// The nodes that `votes` records as having granted.
pub open spec fn granted_voters(votes: Map<NodeId, bool>) -> Set<NodeId> {
    Set::new(|voter: NodeId| votes.dom().contains(voter) && votes[voter])
}

/// The votes of a candidate that has only voted for itself.
pub open spec fn self_vote(id: NodeId) -> Map<NodeId, bool> {
    Map::<NodeId, bool>::empty().insert(id, true)
}

/// What a candidate makes of one message or of taking up its role: the votes
/// it has recorded afterwards, and the rest.
pub struct Count {
    pub votes: Map<NodeId, bool>,
    pub reaction: Reaction,
}

/// Recording a vote changes the granted voters by that voter alone.
pub proof fn lemma_vote_recorded(votes: Map<NodeId, bool>, voter: NodeId, granted: bool)
    requires
        votes.dom().finite(),
    ensures
        granted_voters(votes).finite(),
        granted_voters(votes).len() <= votes.dom().len(),
        granted ==> granted_voters(votes.insert(voter, granted)) == granted_voters(votes).insert(
            voter,
        ),
        !granted ==> granted_voters(votes.insert(voter, granted)) == granted_voters(
            votes,
        ).remove(voter),
{
    lemma_len_subset(granted_voters(votes), votes.dom());
    if granted {
        assert(granted_voters(votes.insert(voter, granted)) =~= granted_voters(votes).insert(
            voter,
        ));
    } else {
        assert(granted_voters(votes.insert(voter, granted)) =~= granted_voters(votes).remove(
            voter,
        ));
    }
}

#[derive(Debug)]
pub struct Candidate {
    votes_received: HashMap<NodeId, bool>,
    granted: usize,
    election_timer: Timer,
}

impl Candidate {
    /// The answers recorded so far: for each voter that was heard, whether
    /// it granted.
    pub closed spec fn votes(self) -> Map<NodeId, bool> {
        self.votes_received@
    }

    /// The election timer of the candidate.
    pub closed spec fn timer(self) -> Timer {
        self.election_timer
    }

    /// The count of granted votes is kept up with the answers recorded.
    pub closed spec fn wf(self) -> bool {
        self.granted == granted_voters(self.votes_received@).len()
    }

    /// What taking up the role does to a node in `state` whose candidate
    /// holds the election timer `timer`.
    ///
    /// The node moves to the next term and votes for itself; that vote is
    /// the only one recorded. The election timer is started, and every peer
    /// is asked for its vote. Where the vote of the node alone is more than
    /// half of the cluster, the node is to lead at once.
    pub open spec fn entered(timer: Timer, state: StateView) -> Count {
        let campaign = StateView { failed_sends: Seq::empty(), ..state.campaigning() };
        Count {
            votes: self_vote(state.id),
            reaction: Reaction {
                state: campaign,
                effects: timer_effects(timer.restarted().1) + campaign.sends(
                    campaign.vote_request(),
                ),
                next: if 1 >= campaign.quorum() {
                    Some(RoleState::Leader)
                } else {
                    None
                },
            },
        }
    }

    /// What a candidate that has recorded `votes` makes of `message`.
    ///
    /// An answer of a greater term, be it to a request for a vote or to a
    /// heartbeat, makes the candidate a follower in that term. An answer to
    /// its request that is of an earlier term, or of a node outside the
    /// cluster, is passed over; one of the current term is recorded, and
    /// once the voters that granted are as many as the quorum the candidate
    /// is to lead. A heartbeat of the current term or a later one makes the
    /// candidate a follower in that term; a heartbeat of an earlier term
    /// changes nothing; either way the leader is answered. When the election
    /// timer fires the candidate is to stand again, in the next term. A
    /// request for a vote is decided by the shared rule and always answered,
    /// and a greater term in it makes the candidate a follower.
    pub open spec fn reacts(votes: Map<NodeId, bool>, state: StateView, message: RaftMessage)
        -> Count {
        match message {
            RaftMessage::RequestVoteResponse { term, granted, voter } => if term
                > state.current_term {
                Count {
                    votes,
                    reaction: Reaction {
                        state: state.observed(term),
                        effects: Seq::empty(),
                        next: Some(RoleState::Follower),
                    },
                }
            } else if term == state.current_term && state.is_member(voter) {
                let recorded = votes.insert(voter, granted);
                Count {
                    votes: recorded,
                    reaction: Reaction {
                        state,
                        effects: Seq::empty(),
                        next: if granted_voters(recorded).len() >= state.quorum() {
                            Some(RoleState::Leader)
                        } else {
                            None
                        },
                    },
                }
            } else {
                Count { votes, reaction: ignored(state) }
            },
            RaftMessage::ElectionTimeOut => Count {
                votes,
                reaction: Reaction {
                    state,
                    effects: Seq::empty(),
                    next: Some(RoleState::Candidate),
                },
            },
            RaftMessage::AppendEntries { term, leader } => if term >= state.current_term {
                Count {
                    votes,
                    reaction: Reaction {
                        state: state.observed(term),
                        effects: seq![
                            Effect::Send {
                                to: leader,
                                message: state.leader_response(term, true),
                            },
                        ],
                        next: Some(RoleState::Follower),
                    },
                }
            } else {
                Count { votes, reaction: refusal(state, term, leader) }
            },
            RaftMessage::RequestVote { term, candidate, last_log_term, log_len } => Count {
                votes,
                reaction: vote_reaction(state, term, candidate, last_log_term, log_len, true),
            },
            RaftMessage::HeartTimeOut => Count { votes, reaction: ignored(state) },
            RaftMessage::AppendEntriesResponse { term, status } => Count {
                votes,
                reaction: answer_reaction(state, term, true),
            },
        }
    }

    /// A candidate that has recorded no vote, whose election timer has a
    /// period of `timeout` milliseconds and has not been started.
    pub fn with_timeout(timeout: u64) -> (candidate: Candidate)
        ensures
            candidate.wf(),
            candidate.votes() == Map::<NodeId, bool>::empty(),
            candidate.timer() == election_timer(timeout),
    {
        let candidate = Candidate {
            votes_received: HashMap::new(),
            granted: 0,
            election_timer: Timer::new(timeout, RaftMessage::ElectionTimeOut),
        };
        proof {
            assert(granted_voters(Map::<NodeId, bool>::empty()) =~= Set::<NodeId>::empty());
        }
        candidate
    }

    /// A candidate for the node of `state`, with an election timeout drawn
    /// from the range that the node was configured with.
    pub fn new(state: &RaftState) -> (candidate: Candidate)
        ensures
            candidate.wf(),
            candidate.votes() == Map::<NodeId, bool>::empty(),
            state@.config.yields(candidate.timer().period()),
            candidate.timer() == election_timer(candidate.timer().period()),
    {
        let config = state.config();
        Candidate::with_timeout(config.election_timeout())
    }

    /// The election timer of the candidate.
    pub fn election_timer(&self) -> (timer: Timer)
        ensures
            timer == self.timer(),
    {
        self.election_timer
    }

    /// Starts the election timer, or starts it anew if it runs.
    pub fn restart_timer(&mut self) -> (effects: Vec<Effect>)
        ensures
            final(self).votes() == old(self).votes(),
            old(self).wf() ==> final(self).wf(),
            final(self).timer() == old(self).timer().in_state(old(self).timer().restarted().0),
            effects@ == timer_effects(old(self).timer().restarted().1),
    {
        let mut effects: Vec<Effect> = Vec::new();
        let command = self.election_timer.restart();
        push_command(&mut effects, command);
        effects
    }

    /// The number of voters that have granted.
    pub fn granted_votes(&self) -> (count: usize)
        requires
            self.wf(),
        ensures
            count == granted_voters(self.votes()).len(),
    {
        self.granted
    }

    /// Records the answer of `voter`. A later answer of the same voter
    /// takes the place of an earlier one.
    pub fn record_vote(&mut self, voter: NodeId, granted: bool)
        requires
            old(self).wf(),
        ensures
            final(self).wf(),
            final(self).votes() == old(self).votes().insert(voter, granted),
            final(self).timer() == old(self).timer(),
    {
        let before: bool = match self.votes_received.get(&voter) {
            Some(answer) => *answer,
            None => false,
        };
        proof {
            lemma_vote_recorded(self.votes_received@, voter, granted);
            lemma_vote_recorded(self.votes_received@.insert(voter, granted), voter, granted);
            assert(before == granted_voters(self.votes_received@).contains(voter));
        }
        self.votes_received.insert(voter, granted);
        // no more voters have granted than were heard, so the count fits
        let heard: usize = self.votes_received.len();
        assert(granted_voters(self.votes_received@).len() <= heard);
        if before && !granted {
            self.granted = self.granted - 1;
        } else if !before && granted {
            self.granted = self.granted + 1;
        }
    }

    /// Starts a round of the election: forgets the answers of the round
    /// before and asks every peer for its vote in the current term of the
    /// node. One peer that cannot be reached does not keep the others from
    /// being asked.
    pub fn send_requests_vote(&mut self, state: &mut RaftState) -> (sends: Vec<Effect>)
        requires
            old(state).wf(),
        ensures
            final(self).wf(),
            final(self).votes() == Map::<NodeId, bool>::empty(),
            final(self).timer() == old(self).timer(),
            final(state).wf(),
            final(state).log_image() == old(state).log_image(),
            final(state)@ == (StateView { failed_sends: Seq::empty(), ..old(state)@ }),
            sends@ == old(state)@.sends(old(state)@.vote_request()),
    {
        self.votes_received.clear();
        self.granted = 0;
        proof {
            assert(granted_voters(Map::<NodeId, bool>::empty()) =~= Set::<NodeId>::empty());
        }
        let request = state.vote_request();
        state.broadcast(request)
    }

    /// Takes up the role. The node must have a term left to stand in.
    pub fn enter(&mut self, state: &mut RaftState) -> (step: Step)
        requires
            old(state).wf(),
            old(state)@.can_campaign(),
        ensures
            final(self).wf(),
            final(state).wf(),
            final(state).log_image() == old(state).log_image(),
            final(self).timer() == old(self).timer().in_state(old(self).timer().restarted().0),
            (Count {
                votes: final(self).votes(),
                reaction: Reaction {
                    state: final(state)@,
                    effects: step.effects@,
                    next: step.next,
                },
            }) == Self::entered(old(self).timer(), old(state)@),
    {
        let mut effects: Vec<Effect> = Vec::new();
        let command = self.election_timer.restart();
        push_command(&mut effects, command);
        state.start_election();
        let mut sends = self.send_requests_vote(state);
        effects.append(&mut sends);
        self.record_vote(state.id(), true);
        let next = if self.granted >= state.quorum() {
            Some(RoleState::Leader)
        } else {
            None
        };
        proof {
            assert(granted_voters(self_vote(state@.id)) =~= set![state@.id]);
            assert(final(self).votes() =~= self_vote(state@.id));
        }
        Step { effects, next }
    }

    /// Takes one message.
    pub fn handle_message(&mut self, state: &mut RaftState, message: RaftMessage) -> (step: Step)
        requires
            old(self).wf(),
            old(state).wf(),
        ensures
            final(self).wf(),
            final(state).wf(),
            final(state).log_image() == old(state).log_image(),
            final(self).timer() == old(self).timer(),
            (Count {
                votes: final(self).votes(),
                reaction: Reaction {
                    state: final(state)@,
                    effects: step.effects@,
                    next: step.next,
                },
            }) == Self::reacts(old(self).votes(), old(state)@, message),
    {
        let mut effects: Vec<Effect> = Vec::new();
        let mut next: Option<RoleState> = None;
        match message {
            RaftMessage::RequestVoteResponse { term, granted, voter } => {
                if term > state.current_term() {
                    state.observe_term(term);
                    next = Some(RoleState::Follower);
                } else if term == state.current_term() && state.is_member(voter) {
                    self.record_vote(voter, granted);
                    if self.granted >= state.quorum() {
                        next = Some(RoleState::Leader);
                    }
                }
            },
            RaftMessage::ElectionTimeOut => {
                // start a new election
                next = Some(RoleState::Candidate);
            },
            RaftMessage::AppendEntries { term, leader } => {
                let taken = term >= state.current_term();
                if taken {
                    state.observe_term(term);
                    next = Some(RoleState::Follower);
                }
                effects.push(Effect::Send { to: leader, message: state.leader_response(taken) });
            },
            RaftMessage::RequestVote { term, candidate, last_log_term, log_len } => {
                if term > state.current_term() {
                    next = Some(RoleState::Follower);
                }
                let response = state.handle_request_vote(term, candidate, last_log_term, log_len);
                effects.push(Effect::Send { to: candidate, message: response });
            },
            RaftMessage::HeartTimeOut => {},
            RaftMessage::AppendEntriesResponse { term, status } => {
                if state.observe_term(term) {
                    next = Some(RoleState::Follower);
                }
            },
        }
        Step { effects, next }
    }

    /// Gives up the role: the election timer is stopped for good.
    pub fn stop(&mut self) -> (effects: Vec<Effect>)
        ensures
            final(self).votes() == old(self).votes(),
            old(self).wf() ==> final(self).wf(),
            final(self).timer() == old(self).timer().in_state(old(self).timer().stopped().0),
            effects@ == timer_effects(old(self).timer().stopped().1),
    {
        let mut effects: Vec<Effect> = Vec::new();
        let command = self.election_timer.stop();
        push_command(&mut effects, command);
        effects
    }
}

} // verus!
