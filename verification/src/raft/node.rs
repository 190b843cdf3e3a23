//! The node: the consensus state of one replica together with the role it
//! plays. A node takes one message at a time; between two messages it may
//! change its role, retiring the timer of the old role and starting the
//! timer of the new one.

use super::candidate::{granted_voters, lemma_vote_recorded, self_vote, Candidate};
use super::codec::encoded;
use super::error::{RaftError, RaftResult};
use super::follower::Follower;
use super::leader::{heartbeat_timer, index_table, Leader};
use super::log::accepts;
use super::state::{
    ballot_moves_on, distinct_peers, lemma_votes_never_clash, majority, RaftState, StateView,
};
use super::timer::Timer;
use super::role::{election_timer, timer_effects, Reaction};
use super::{Effect, NodeId, RaftConfig, RaftMessage, RoleState, Term, REFUSED};
use vstd::prelude::*;

verus! {

/// The role that a node plays, with what belongs to the role alone.
#[derive(Debug)]
pub enum Role {
    Follower(Follower),
    Candidate(Candidate),
    Leader(Leader),
}

/// A role as plain mathematics.
pub enum RoleView {
    Follower { timer: Timer },
    Candidate { votes: Map<NodeId, bool>, timer: Timer },
    Leader { next_index: Map<NodeId, usize>, match_index: Map<NodeId, usize>, timer: Timer },
}

impl RoleView {
    /// Which of the three roles this is.
    pub open spec fn kind(self) -> RoleState {
        match self {
            RoleView::Follower { .. } => RoleState::Follower,
            RoleView::Candidate { .. } => RoleState::Candidate,
            RoleView::Leader { .. } => RoleState::Leader,
        }
    }

    /// The one timer of the role.
    pub open spec fn timer(self) -> Timer {
        match self {
            RoleView::Follower { timer } => timer,
            RoleView::Candidate { timer, .. } => timer,
            RoleView::Leader { timer, .. } => timer,
        }
    }

    /// The role with `timer` in place of its own.
    pub open spec fn with_timer(self, timer: Timer) -> RoleView {
        match self {
            RoleView::Follower { .. } => RoleView::Follower { timer },
            RoleView::Candidate { votes, .. } => RoleView::Candidate { votes, timer },
            RoleView::Leader { next_index, match_index, .. } => RoleView::Leader {
                next_index,
                match_index,
                timer,
            },
        }
    }
}

impl View for Role {
    type V = RoleView;

    open spec fn view(&self) -> RoleView {
        match self {
            Role::Follower(follower) => RoleView::Follower { timer: follower.timer() },
            Role::Candidate(candidate) => RoleView::Candidate {
                votes: candidate.votes(),
                timer: candidate.timer(),
            },
            Role::Leader(leader) => RoleView::Leader {
                next_index: leader.next_index(),
                match_index: leader.match_index(),
                timer: leader.timer(),
            },
        }
    }
}

/// A node as plain mathematics: its consensus state and its role.
pub struct NodeView {
    pub state: StateView,
    pub role: RoleView,
}

impl NodeView {
    /// The state is sound, the role is the one that the state names, and a
    /// candidate has recorded answers of members of the cluster only.
    pub open spec fn wf(self) -> bool {
        &&& self.state.wf()
        &&& self.role.kind() == self.state.role
        &&& self.role matches RoleView::Candidate { votes, .. } ==> {
            &&& votes.dom().finite()
            &&& forall|voter: NodeId| votes.dom().contains(voter) ==> self.state.is_member(voter)
        }
    }

    /// `message` asks the node to stand for election, and the node has no
    /// term left to stand in: its term is the last that a `u64` can hold.
    pub open spec fn exhausted(self, message: RaftMessage) -> bool {
        &&& message == RaftMessage::ElectionTimeOut
        &&& self.role.kind() != RoleState::Leader
        &&& !self.state.can_campaign()
    }

    /// What the active role makes of `message`: the role afterwards, and
    /// the rest.
    pub open spec fn reaction(self, message: RaftMessage) -> (RoleView, Reaction) {
        match self.role {
            RoleView::Follower { timer } => (
                self.role,
                Follower::reacts(timer, self.state, message),
            ),
            RoleView::Candidate { votes, timer } => {
                let count = Candidate::reacts(votes, self.state, message);
                (RoleView::Candidate { votes: count.votes, timer }, count.reaction)
            },
            RoleView::Leader { timer, .. } => (
                self.role,
                Leader::reacts(timer, self.state, message),
            ),
        }
    }

    /// A node in `state` that takes up the role of a follower with an
    /// election timeout of `timeout`: its election timer is started.
    pub open spec fn following(state: StateView, timeout: u64) -> (NodeView, Seq<Effect>) {
        let timer = election_timer(timeout);
        (
            NodeView {
                state: StateView { role: RoleState::Follower, ..state },
                role: RoleView::Follower { timer: timer.in_state(timer.restarted().0) },
            },
            timer_effects(timer.restarted().1),
        )
    }

    /// A node in `state` that takes up the role of a leader: its heartbeat
    /// timer is started, and its tables are set up for every peer.
    pub open spec fn leading(state: StateView) -> (NodeView, Seq<Effect>) {
        let timer = heartbeat_timer(state.config.heartbeat_interval);
        (
            NodeView {
                state: StateView { role: RoleState::Leader, ..state },
                role: RoleView::Leader {
                    next_index: index_table(state.peers, state.log.len() as usize),
                    match_index: index_table(state.peers, 0),
                    timer: timer.in_state(timer.started().0),
                },
            },
            timer_effects(timer.started().1),
        )
    }

    /// A node in `state` that stands for election with an election timeout
    /// of `timeout`. Where its own vote makes a quorum it goes on to lead at
    /// once, and the election timer that it has just started is retired.
    pub open spec fn standing(state: StateView, timeout: u64) -> (NodeView, Seq<Effect>) {
        let timer = election_timer(timeout);
        let started = timer.in_state(timer.restarted().0);
        let count = Candidate::entered(timer, StateView { role: RoleState::Candidate, ..state });
        if count.reaction.next is Some {
            let (leader, more) = Self::leading(count.reaction.state);
            (leader, count.reaction.effects + timer_effects(started.stopped().1) + more)
        } else {
            (
                NodeView {
                    state: count.reaction.state,
                    role: RoleView::Candidate { votes: count.votes, timer: started },
                },
                count.reaction.effects,
            )
        }
    }

    /// The node after it has given up its role for the role `kind`: the
    /// timer of the old role is retired, then the new role is taken up.
    /// `timeout` is the election timeout of the new role, if it has one.
    pub open spec fn switched(self, kind: RoleState, timeout: u64) -> (NodeView, Seq<Effect>) {
        let retire = timer_effects(self.role.timer().stopped().1);
        let (node, enter) = match kind {
            RoleState::Follower => Self::following(self.state, timeout),
            RoleState::Candidate => Self::standing(self.state, timeout),
            RoleState::Leader => Self::leading(self.state),
        };
        (node, retire + enter)
    }

    /// The node after `message`, and what it has to do. The active role
    /// takes the message; where it says so, the node changes its role before
    /// the next message is taken.
    pub open spec fn stepped(self, message: RaftMessage, timeout: u64) -> (NodeView, Seq<Effect>) {
        let (role, reaction) = self.reaction(message);
        let reacted = NodeView { state: reaction.state, role };
        match reaction.next {
            Some(kind) => {
                let (node, more) = reacted.switched(kind, timeout);
                (node, reaction.effects + more)
            },
            None => (reacted, reaction.effects),
        }
    }
}

/// What the error says when a node in the last term is asked to stand for
/// election.
pub open spec fn exhausted_text() -> Seq<char> {
    "no term left to stand in"@
}

/// One replica.
#[derive(Debug)]
pub struct Node {
    state: RaftState,
    role: Role,
}

impl View for Node {
    type V = NodeView;

    closed spec fn view(&self) -> NodeView {
        NodeView { state: self.state@, role: self.role@ }
    }
}

impl Node {
    /// The state is sound, the role is the one that the state names, and a
    /// candidate has counted its votes right.
    pub closed spec fn wf(&self) -> bool {
        &&& self.state.wf()
        &&& self@.wf()
        &&& self.role matches Role::Candidate(candidate) ==> candidate.wf()
    }

    /// The content of the file of the log of the node.
    pub closed spec fn log_image(&self) -> Seq<u8> {
        self.state.log_image()
    }

    /// A node that has just come up: a follower in term zero that has not
    /// voted, with an empty log, whose election timer is not started yet and
    /// has a period drawn from the range of `config`. Of `peers` the node
    /// keeps each node once and drops itself.
    pub fn new(id: NodeId, peers: Vec<NodeId>, config: RaftConfig) -> (node: Node)
        ensures
            node.wf(),
            node@.state == (StateView {
                id,
                peers: distinct_peers(peers@, id),
                config,
                role: RoleState::Follower,
                current_term: 0,
                voted_for: None,
                log: Seq::empty(),
                last_log_term: 0,
                commit_index: 0,
                last_applied: 0,
                failed_sends: Seq::empty(),
            }),
            node@.role == (RoleView::Follower {
                timer: election_timer(node@.role.timer().timeout),
            }),
            config.yields(node@.role.timer().timeout),
    {
        let state = RaftState::new(id, peers, config);
        let follower = Follower::new(&state);
        Node { state, role: Role::Follower(follower) }
    }

    /// The consensus state of the node.
    pub fn state(&self) -> (state: &RaftState)
        ensures
            state@ == self@.state,
            self.wf() ==> state.wf(),
            state.log_image() == self.log_image(),
    {
        &self.state
    }

    /// The active role, with what belongs to it.
    pub fn role(&self) -> (role: &Role)
        ensures
            role@ == self@.role,
    {
        &self.role
    }

    /// The role that the node plays.
    pub fn role_state(&self) -> (role: RoleState)
        requires
            self.wf(),
        ensures
            role == self@.role.kind(),
    {
        self.state.role_state()
    }

    /// The timer of the active role.
    pub fn timer(&self) -> (timer: Timer)
        ensures
            timer == self@.role.timer(),
    {
        match &self.role {
            Role::Follower(follower) => follower.election_timer(),
            Role::Candidate(candidate) => candidate.election_timer(),
            Role::Leader(leader) => leader.heartbeat_timer(),
        }
    }

    /// Brings the node to life: the timer of its role is started, or
    /// started anew if it runs.
    pub fn start(&mut self) -> (effects: Vec<Effect>)
        requires
            old(self).wf(),
        ensures
            final(self).wf(),
            final(self).log_image() == old(self).log_image(),
            final(self)@.state == old(self)@.state,
            final(self)@.role == old(self)@.role.with_timer(
                old(self)@.role.timer().in_state(old(self)@.role.timer().restarted().0),
            ),
            effects@ == timer_effects(old(self)@.role.timer().restarted().1),
    {
        match &mut self.role {
            Role::Follower(follower) => follower.enter(),
            Role::Candidate(candidate) => candidate.restart_timer(),
            Role::Leader(leader) => leader.restart_timer(),
        }
    }

    /// Retires the timer of the active role.
    fn retire(&mut self) -> (effects: Vec<Effect>)
        requires
            old(self).wf(),
        ensures
            final(self).wf(),
            final(self).log_image() == old(self).log_image(),
            final(self)@.state == old(self)@.state,
            final(self)@.role == old(self)@.role.with_timer(
                old(self)@.role.timer().in_state(old(self)@.role.timer().stopped().0),
            ),
            effects@ == timer_effects(old(self)@.role.timer().stopped().1),
    {
        match &mut self.role {
            Role::Follower(follower) => follower.stop(),
            Role::Candidate(candidate) => candidate.stop(),
            Role::Leader(leader) => leader.stop(),
        }
    }

    /// Shuts the node down: the timer of its role is stopped for good, so
    /// that nothing is delivered to a mailbox that is gone.
    pub fn stop(&mut self) -> (effects: Vec<Effect>)
        requires
            old(self).wf(),
        ensures
            final(self).wf(),
            final(self).log_image() == old(self).log_image(),
            final(self)@.state == old(self)@.state,
            final(self)@.role == old(self)@.role.with_timer(
                old(self)@.role.timer().in_state(old(self)@.role.timer().stopped().0),
            ),
            effects@ == timer_effects(old(self)@.role.timer().stopped().1),
    {
        self.retire()
    }

    /// Takes up the role of a follower.
    fn follow(&mut self, timeout: u64) -> (effects: Vec<Effect>)
        requires
            old(self).state.wf(),
        ensures
            final(self).wf(),
            final(self).log_image() == old(self).log_image(),
            (final(self)@, effects@) == NodeView::following(old(self)@.state, timeout),
    {
        let mut follower = Follower::with_timeout(timeout);
        self.state.set_role(RoleState::Follower);
        let effects = follower.enter();
        self.role = Role::Follower(follower);
        effects
    }

    /// Takes up the role of a leader.
    fn lead(&mut self) -> (effects: Vec<Effect>)
        requires
            old(self).state.wf(),
        ensures
            final(self).wf(),
            final(self).log_image() == old(self).log_image(),
            (final(self)@, effects@) == NodeView::leading(old(self)@.state),
    {
        let mut leader = Leader::new(&self.state);
        self.state.set_role(RoleState::Leader);
        let effects = leader.enter();
        self.role = Role::Leader(leader);
        effects
    }

    /// Stands for election, and goes on to lead where that is won at once.
    fn stand(&mut self, timeout: u64) -> (effects: Vec<Effect>)
        requires
            old(self).state.wf(),
            old(self)@.state.can_campaign(),
        ensures
            final(self).wf(),
            final(self).log_image() == old(self).log_image(),
            (final(self)@, effects@) == NodeView::standing(old(self)@.state, timeout),
    {
        let mut candidate = Candidate::with_timeout(timeout);
        self.state.set_role(RoleState::Candidate);
        let step = candidate.enter(&mut self.state);
        let mut effects = step.effects;
        match step.next {
            Some(_) => {
                let mut retired = candidate.stop();
                effects.append(&mut retired);
                let mut more = self.lead();
                effects.append(&mut more);
            },
            None => {
                self.role = Role::Candidate(candidate);
            },
        }
        effects
    }

    /// Gives up the active role for the role `kind`.
    fn switch_role(&mut self, kind: RoleState, timeout: u64) -> (effects: Vec<Effect>)
        requires
            old(self).wf(),
            kind == RoleState::Candidate ==> old(self)@.state.can_campaign(),
        ensures
            final(self).wf(),
            final(self).log_image() == old(self).log_image(),
            (final(self)@, effects@) == old(self)@.switched(kind, timeout),
    {
        let mut effects = self.retire();
        let mut more = match kind {
            RoleState::Follower => self.follow(timeout),
            RoleState::Candidate => self.stand(timeout),
            RoleState::Leader => self.lead(),
        };
        effects.append(&mut more);
        effects
    }

    /// Takes one message. `timeout` is the election timeout, in
    /// milliseconds, of the role that the node takes up, if the message
    /// makes it a follower or a candidate. A message that asks a node in the
    /// last term to stand for election is refused, and the node left as it
    /// was.
    pub fn step_with(&mut self, message: RaftMessage, timeout: u64) -> (result: RaftResult<
        Vec<Effect>,
    >)
        requires
            old(self).wf(),
        ensures
            final(self).wf(),
            final(self).log_image() == old(self).log_image(),
            match result {
                Ok(effects) => {
                    &&& !old(self)@.exhausted(message)
                    &&& (final(self)@, effects@) == old(self)@.stepped(message, timeout)
                },
                Err(error) => {
                    &&& old(self)@.exhausted(message)
                    &&& final(self)@ == old(self)@
                    &&& error.message() == exhausted_text()
                },
            },
    {
        let leads = match &self.role {
            Role::Leader(_) => true,
            _ => false,
        };
        let fires = match message {
            RaftMessage::ElectionTimeOut => true,
            _ => false,
        };
        if fires && !leads && self.state.current_term() == u64::MAX {
            return Err(RaftError::new("no term left to stand in".to_owned()));
        }
        let step = match &mut self.role {
            Role::Follower(follower) => follower.handle_message(&mut self.state, message),
            Role::Candidate(candidate) => candidate.handle_message(&mut self.state, message),
            Role::Leader(leader) => leader.handle_message(&mut self.state, message),
        };
        let mut effects = step.effects;
        match step.next {
            Some(kind) => {
                let mut more = self.switch_role(kind, timeout);
                effects.append(&mut more);
            },
            None => {},
        }
        Ok(effects)
    }

    /// Takes one message, with an election timeout drawn from the range
    /// that the node was configured with for the role that the node takes
    /// up, if it takes one up.
    pub fn step(&mut self, message: RaftMessage) -> (result: RaftResult<Vec<Effect>>)
        requires
            old(self).wf(),
        ensures
            final(self).wf(),
            final(self).log_image() == old(self).log_image(),
            match result {
                Ok(effects) => {
                    &&& !old(self)@.exhausted(message)
                    &&& exists|timeout: u64|
                        old(self)@.state.config.yields(timeout) && #[trigger] old(
                            self,
                        )@.stepped(message, timeout) == (final(self)@, effects@)
                },
                Err(error) => {
                    &&& old(self)@.exhausted(message)
                    &&& final(self)@ == old(self)@
                    &&& error.message() == exhausted_text()
                },
            },
    {
        let config = self.state.config();
        let timeout = config.election_timeout();
        self.step_with(message, timeout)
    }

    /// Appends an entry of `term` that holds `item` to the log of the node.
    /// Where the log refuses the item nothing changes.
    pub fn append_entry(&mut self, term: Term, item: Vec<u8>) -> (result: RaftResult<()>)
        requires
            old(self).wf(),
        ensures
            final(self).wf(),
            final(self)@.role == old(self)@.role,
            match result {
                Ok(_) => {
                    &&& accepts(old(self).log_image().len() as int, item@.len() as int)
                    &&& final(self)@.state == (StateView {
                        log: old(self)@.state.log.push(encoded(item@)),
                        last_log_term: term,
                        ..old(self)@.state
                    })
                },
                Err(_) => {
                    &&& !accepts(old(self).log_image().len() as int, item@.len() as int)
                    &&& final(self)@ == old(self)@
                },
            },
    {
        self.state.append_entry(term, item)
    }

    /// Takes note that the first `count` entries of the log are committed.
    /// The number of committed entries never falls and never passes the end
    /// of the log.
    pub fn commit(&mut self, count: usize)
        requires
            old(self).wf(),
        ensures
            final(self).wf(),
            final(self).log_image() == old(self).log_image(),
            final(self)@.role == old(self)@.role,
            final(self)@.state == (StateView {
                commit_index: old(self)@.state.committed_to(count),
                ..old(self)@.state
            }),
    {
        self.state.commit(count);
    }

    /// Hands out the next entry to apply, with its index: the first
    /// committed entry that was not handed out before. Each committed entry
    /// is handed out once, and the entries come in the order of the log.
    pub fn next_to_apply(&mut self) -> (entry: Option<(usize, Vec<u8>)>)
        requires
            old(self).wf(),
        ensures
            final(self).wf(),
            final(self).log_image() == old(self).log_image(),
            final(self)@.role == old(self)@.role,
            match entry {
                Some((index, payload)) => {
                    &&& index == old(self)@.state.last_applied
                    &&& index < old(self)@.state.commit_index
                    &&& payload@ == old(self)@.state.log[index as int]
                    &&& final(self)@.state == (StateView {
                        last_applied: (index + 1) as usize,
                        ..old(self)@.state
                    })
                },
                None => {
                    &&& old(self)@.state.last_applied == old(self)@.state.commit_index
                    &&& final(self)@ == old(self)@
                },
            },
    {
        self.state.next_to_apply()
    }

    /// Records that a send to `peer` has failed. The node goes on as it
    /// was: its role, its term and its votes are untouched.
    pub fn record_send_failure(&mut self, peer: NodeId)
        requires
            old(self).wf(),
        ensures
            final(self).wf(),
            final(self).log_image() == old(self).log_image(),
            final(self)@.role == old(self)@.role,
            final(self)@.state == (StateView {
                failed_sends: old(self)@.state.with_failure(peer),
                ..old(self)@.state
            }),
    {
        self.state.record_send_failure(peer);
    }
}

/// A message that is not refused leaves a sound node sound, and moves its
/// ballot on: the term does not fall, and a vote on record is only ever
/// replaced by a vote for a later term.
pub proof fn lemma_step_moves_on(node: NodeView, message: RaftMessage, timeout: u64)
    requires
        node.wf(),
        !node.exhausted(message),
    ensures
        node.stepped(message, timeout).0.wf(),
        ballot_moves_on(node.state, node.stepped(message, timeout).0.state),
{
    let (role, reaction) = node.reaction(message);
    let reacted = NodeView { state: reaction.state, role };
    assert(reacted.state.wf());
    assert(ballot_moves_on(node.state, reacted.state));
    match reaction.next {
        Some(kind) => {
            let after = reacted.switched(kind, timeout).0;
            if kind == RoleState::Candidate {
                assert(message == RaftMessage::ElectionTimeOut);
                assert(reacted.state == node.state);
                let campaign = reacted.state.campaigning();
                assert(self_vote(node.state.id).dom() =~= set![node.state.id]);
            }
            assert(after.wf());
        },
        None => {
            assert(reacted.wf());
        },
    }
}

/// A vote that a node grants is the vote on record once the message is
/// dealt with, for the term that the answer carries: no granted answer
/// leaves a node that it does not stand by.
pub proof fn lemma_grant_is_on_record(
    node: NodeView,
    message: RaftMessage,
    timeout: u64,
    i: int,
    term: Term,
    to: NodeId,
    voter: NodeId,
)
    requires
        node.wf(),
        !node.exhausted(message),
        0 <= i < node.stepped(message, timeout).1.len(),
        node.stepped(message, timeout).1[i] == (Effect::Send {
            to,
            message: RaftMessage::RequestVoteResponse { term, granted: true, voter },
        }),
    ensures
        voter == node.state.id,
        node.stepped(message, timeout).0.state.voted_for == Some((term, to)),
{
    let (role, reaction) = node.reaction(message);
    let reacted = NodeView { state: reaction.state, role };
    match reaction.next {
        Some(kind) => {
            let (after, more) = reacted.switched(kind, timeout);
            lemma_switch_sends_no_answer(reacted, kind, timeout);
            assert(node.stepped(message, timeout).1 == reaction.effects + more);
            if i >= reaction.effects.len() {
                assert(more[i - reaction.effects.len()] == node.stepped(message, timeout).1[i]);
            } else {
                assert(reaction.effects[i] == node.stepped(message, timeout).1[i]);
            }
        },
        None => {},
    }
}

/// Taking up a role sends no answer to a request for a vote, and leaves the
/// vote on record alone unless the node stands for election.
proof fn lemma_switch_sends_no_answer(node: NodeView, kind: RoleState, timeout: u64)
    ensures
        forall|i: int|
            0 <= i < node.switched(kind, timeout).1.len() ==> !(#[trigger] node.switched(
                kind,
                timeout,
            ).1[i] matches Effect::Send { message: RaftMessage::RequestVoteResponse { .. }, .. }),
        kind != RoleState::Candidate ==> node.switched(kind, timeout).0.state.voted_for
            == node.state.voted_for,
{
}

/// A node never grants more than one vote in a term. Take any run of a
/// sound node through messages that are not refused: two votes that are on
/// record at any two moments of the run for the same term are for the same
/// candidate.
pub proof fn lemma_vote_safety(
    run: Seq<NodeView>,
    messages: Seq<RaftMessage>,
    timeouts: Seq<u64>,
    i: int,
    j: int,
)
    requires
        run.len() > 0,
        run[0].wf(),
        messages.len() == run.len() - 1,
        timeouts.len() == run.len() - 1,
        forall|k: int|
            0 <= k < run.len() - 1 ==> !(#[trigger] run[k]).exhausted(messages[k]) && run[k + 1]
                == run[k].stepped(messages[k], timeouts[k]).0,
        0 <= i <= j < run.len(),
        run[i].state.voted_for is Some,
        run[j].state.voted_for is Some,
        run[i].state.voted_for.unwrap().0 == run[j].state.voted_for.unwrap().0,
    ensures
        run[i].state.voted_for == run[j].state.voted_for,
{
    let moments = run.map_values(|node: NodeView| node.state);
    assert forall|k: int| 0 <= k < moments.len() - 1 implies ballot_moves_on(
        #[trigger] moments[k],
        moments[k + 1],
    ) by {
        lemma_run_stays_sound(run, messages, timeouts, k);
        assert(!run[k].exhausted(messages[k]));
        lemma_step_moves_on(run[k], messages[k], timeouts[k]);
    }
    lemma_votes_never_clash(moments, i, j);
}

/// Every moment of a run of a sound node through messages that are not
/// refused is sound.
pub proof fn lemma_run_stays_sound(
    run: Seq<NodeView>,
    messages: Seq<RaftMessage>,
    timeouts: Seq<u64>,
    k: int,
)
    requires
        run.len() > 0,
        run[0].wf(),
        messages.len() == run.len() - 1,
        timeouts.len() == run.len() - 1,
        forall|k: int|
            0 <= k < run.len() - 1 ==> !(#[trigger] run[k]).exhausted(messages[k]) && run[k + 1]
                == run[k].stepped(messages[k], timeouts[k]).0,
        0 <= k < run.len(),
    ensures
        run[k].wf(),
    decreases k,
{
    if k > 0 {
        lemma_run_stays_sound(run, messages, timeouts, k - 1);
        assert(!run[k - 1].exhausted(messages[k - 1]));
        lemma_step_moves_on(run[k - 1], messages[k - 1], timeouts[k - 1]);
    }
}

/// A follower that hears from a leader stays a follower: a heartbeat, of
/// whatever term, never makes it give up its role or its timer, and a
/// heartbeat that is not stale starts its election timer anew. The leader is
/// answered either way, with the term of the follower.
pub proof fn lemma_follower_stays(node: NodeView, term: Term, leader: NodeId, timeout: u64)
    requires
        node.role is Follower,
    ensures
        node.stepped(RaftMessage::AppendEntries { term, leader }, timeout).0.role == node.role,
        node.stepped(RaftMessage::AppendEntries { term, leader }, timeout).0.state
            == node.state.observed(term),
        term >= node.state.current_term ==> node.stepped(
            RaftMessage::AppendEntries { term, leader },
            timeout,
        ).1 == timer_effects(node.role.timer().reset_command()).push(
            Effect::Send { to: leader, message: node.state.leader_response(term, true) },
        ),
        term < node.state.current_term ==> node.stepped(
            RaftMessage::AppendEntries { term, leader },
            timeout,
        ).1 == seq![
            Effect::Send { to: leader, message: node.state.leader_response(term, false) },
        ],
{
}

/// A stale message of a leader changes nothing, whatever the role of the node,
/// and is still answered: the leader is told the term of the node, which is
/// later than its own.
pub proof fn lemma_stale_leader_is_told(node: NodeView, term: Term, leader: NodeId, timeout: u64)
    requires
        term < node.state.current_term,
    ensures
        node.stepped(RaftMessage::AppendEntries { term, leader }, timeout).0 == node,
        node.stepped(RaftMessage::AppendEntries { term, leader }, timeout).1 == seq![
            Effect::Send {
                to: leader,
                message: RaftMessage::AppendEntriesResponse {
                    term: node.state.current_term,
                    status: REFUSED,
                },
            },
        ],
{
    let message = RaftMessage::AppendEntries { term, leader };
    assert(node.reaction(message).0 == node.role);
}

/// A stale request for a vote changes nothing, whatever the role of the
/// node, and is still answered: the vote is denied, and the candidate is
/// told the term of the node, which is later than its own.
pub proof fn lemma_stale_candidate_is_told(
    node: NodeView,
    term: Term,
    candidate: NodeId,
    last_log_term: Term,
    log_len: u64,
    timeout: u64,
)
    requires
        term < node.state.current_term,
    ensures
        node.stepped(
            RaftMessage::RequestVote { term, candidate, last_log_term, log_len },
            timeout,
        ).0 == node,
        node.stepped(
            RaftMessage::RequestVote { term, candidate, last_log_term, log_len },
            timeout,
        ).1 == seq![
            Effect::Send {
                to: candidate,
                message: RaftMessage::RequestVoteResponse {
                    term: node.state.current_term,
                    granted: false,
                    voter: node.state.id,
                },
            },
        ],
{
    let message = RaftMessage::RequestVote { term, candidate, last_log_term, log_len };
    assert(node.reaction(message).0 == node.role);
}

/// A stale answer, be it to a request for a vote or to a heartbeat, changes
/// nothing and asks for nothing, whatever the role of the node.
pub proof fn lemma_stale_answer_is_passed_over(node: NodeView, message: RaftMessage, timeout: u64)
    requires
        match message {
            RaftMessage::RequestVoteResponse { term, .. } => term < node.state.current_term,
            RaftMessage::AppendEntriesResponse { term, .. } => term < node.state.current_term,
            _ => false,
        },
    ensures
        node.stepped(message, timeout) == (node, Seq::<Effect>::empty()),
{
    assert(node.reaction(message).0 == node.role);
}

/// The node after it has taken `messages` one after the other, the role
/// that it takes up at the `k`-th of them having the election timeout that
/// `timeouts` holds at `k`.
pub open spec fn after_all(node: NodeView, messages: Seq<RaftMessage>, timeouts: Seq<u64>)
    -> NodeView
    decreases messages.len(),
{
    if messages.len() == 0 {
        node
    } else {
        after_all(
            node.stepped(messages[0], timeouts[0]).0,
            messages.skip(1),
            timeouts.skip(1),
        )
    }
}

/// However many heartbeats a follower receives, it never moves away from
/// being a follower, and its election timer stays the one it has.
pub proof fn lemma_follower_stays_for_good(
    node: NodeView,
    heartbeats: Seq<RaftMessage>,
    timeouts: Seq<u64>,
)
    requires
        node.role is Follower,
        forall|k: int| 0 <= k < heartbeats.len() ==> #[trigger] heartbeats[k] is AppendEntries,
    ensures
        after_all(node, heartbeats, timeouts).role == node.role,
    decreases heartbeats.len(),
{
    if heartbeats.len() > 0 {
        let first = heartbeats[0];
        assert(first is AppendEntries);
        let next = node.stepped(first, timeouts[0]).0;
        assert(next.role == node.role);
        assert forall|k: int| 0 <= k < heartbeats.skip(1).len() implies #[trigger] heartbeats.skip(
            1,
        )[k] is AppendEntries by {
            assert(heartbeats[k + 1] is AppendEntries);
        }
        lemma_follower_stays_for_good(next, heartbeats.skip(1), timeouts.skip(1));
    }
}

/// When the election timer of a follower fires, the follower stands for
/// election: once, in the next term, with its own vote. It is a candidate
/// afterwards, or already the leader where its own vote is a quorum.
pub proof fn lemma_election_trigger(node: NodeView, timeout: u64)
    requires
        node.wf(),
        node.role is Follower,
        node.state.can_campaign(),
    ensures
        node.stepped(RaftMessage::ElectionTimeOut, timeout).0.state.current_term
            == node.state.current_term + 1,
        node.stepped(RaftMessage::ElectionTimeOut, timeout).0.state.voted_for == Some(
            ((node.state.current_term + 1) as u64, node.state.id),
        ),
        node.stepped(RaftMessage::ElectionTimeOut, timeout).0.role.kind() == if node.state.quorum()
            <= 1 {
            RoleState::Leader
        } else {
            RoleState::Candidate
        },
{
}

/// A candidate that hears from a leader whose term is not behind its own
/// becomes a follower and adopts the term of that leader.
pub proof fn lemma_candidate_yields(node: NodeView, term: Term, leader: NodeId, timeout: u64)
    requires
        node.role is Candidate,
        term >= node.state.current_term,
    ensures
        node.stepped(RaftMessage::AppendEntries { term, leader }, timeout).0.role.kind()
            == RoleState::Follower,
        node.stepped(RaftMessage::AppendEntries { term, leader }, timeout).0.state.role
            == RoleState::Follower,
        node.stepped(RaftMessage::AppendEntries { term, leader }, timeout).0.state.current_term
            == term,
{
}

/// In a cluster of `2 * f + 1` nodes the quorum is `f + 1`.
pub proof fn lemma_majority_of_odd(f: nat)
    ensures
        majority(2 * f + 1) == f + 1,
{
}

/// A candidate in a cluster of `2 * f + 1` nodes becomes the leader if and
/// only if at least `f + 1` distinct nodes of the cluster have granted it
/// their vote, its own vote among them.
///
/// The candidate counts the voters that have granted; each of them is a
/// member of the cluster and has voted in the term of the candidate. It
/// leads after an answer exactly when that answer brings the count to
/// `f + 1` or more.
pub proof fn lemma_quorum(
    node: NodeView,
    granted: bool,
    voter: NodeId,
    timeout: u64,
    f: nat,
)
    requires
        node.wf(),
        node.role is Candidate,
        node.state.cluster_size() == 2 * f + 1,
        node.state.is_member(voter),
    ensures
        ({
            let answer = RaftMessage::RequestVoteResponse {
                term: node.state.current_term,
                granted,
                voter,
            };
            let counted = granted_voters(node.role->Candidate_votes.insert(voter, granted));
            &&& counted.finite()
            &&& forall|member: NodeId| counted.contains(member) ==> node.state.is_member(member)
            &&& node.stepped(answer, timeout).0.role.kind() == RoleState::Leader <==> counted.len()
                >= f + 1
            &&& node.stepped(answer, timeout).0.role.kind() != RoleState::Leader ==> node.stepped(
                answer,
                timeout,
            ).0.role.kind() == RoleState::Candidate
        }),
{
    let votes = node.role->Candidate_votes;
    lemma_vote_recorded(votes.insert(voter, granted), voter, granted);
}

} // verus!
