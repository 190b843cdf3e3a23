//! The consensus state of one node: who it is, whom it knows, which term it
//! is in, whom it voted for, and where its log ends. The rules that every
//! role shares live here: how a term is adopted and when a vote is granted.

use super::error::RaftResult;
use super::log::{accepts, scan, RaftLog};
use super::codec::encoded;
use super::{Effect, NodeId, RaftConfig, RaftMessage, RoleState, Term, REFUSED, TAKEN};
use vstd::prelude::*;

verus! {

/// The consensus state as plain mathematics.
pub struct StateView {
    pub id: NodeId,
    pub peers: Seq<NodeId>,
    pub config: RaftConfig,
    pub role: RoleState,
    pub current_term: Term,
    pub voted_for: Option<(Term, NodeId)>,
    pub log: Seq<Seq<u8>>,
    pub last_log_term: Term,
    /// The number of entries of the log that are known to be committed.
    pub commit_index: usize,
    /// The number of entries of the log that were handed out to be applied.
    pub last_applied: usize,
    pub failed_sends: Seq<NodeId>,
}

/// A log that ends in an entry of `term` and holds `len` entries is at least
/// as up to date as one that ends in `own_term` and holds `own_len`: the
/// later last term wins, and with equal last terms the longer log.
pub open spec fn log_up_to_date(term: Term, len: u64, own_term: Term, own_len: nat) -> bool {
    term > own_term || (term == own_term && len >= own_len)
}

/// The least number of members that is more than half of a cluster of
/// `members` nodes.
pub open spec fn majority(members: nat) -> nat {
    members / 2 + 1
}

/// The peers that a node `id` keeps of the list `raw`: each node once, at
/// the place where it first stands, and never the node itself.
pub open spec fn distinct_peers(raw: Seq<NodeId>, id: NodeId) -> Seq<NodeId>
    decreases raw.len(),
{
    if raw.len() == 0 {
        Seq::empty()
    } else {
        let before = distinct_peers(raw.drop_last(), id);
        if raw.last() == id || before.contains(raw.last()) {
            before
        } else {
            before.push(raw.last())
        }
    }
}

impl StateView {
    /// No peer is listed twice, the node is no peer of itself, a vote was
    /// never cast for a term that the node has not reached, and of the
    /// entries of the log no more are applied than committed.
    pub open spec fn wf(self) -> bool {
        &&& self.peers.no_duplicates()
        &&& !self.peers.contains(self.id)
        &&& self.voted_for matches Some((term, _)) ==> term <= self.current_term
        &&& self.last_applied <= self.commit_index <= self.log.len()
    }

    /// The number of committed entries once the first `count` entries are
    /// known to be committed: it never falls, and never passes the end of
    /// the log.
    pub open spec fn committed_to(self, count: usize) -> usize {
        if count <= self.commit_index {
            self.commit_index
        } else if count <= self.log.len() {
            count
        } else {
            self.log.len() as usize
        }
    }

    /// The size of the cluster: the peers and the node itself.
    pub open spec fn cluster_size(self) -> nat {
        self.peers.len() + 1
    }

    /// The number of votes that makes a leader.
    pub open spec fn quorum(self) -> nat {
        majority(self.cluster_size())
    }

    /// `node` belongs to the cluster.
    pub open spec fn is_member(self, node: NodeId) -> bool {
        node == self.id || self.peers.contains(node)
    }

    /// The state after a message of `term` was seen: a greater term is
    /// adopted, and nothing else changes.
    pub open spec fn observed(self, term: Term) -> StateView {
        if term > self.current_term {
            StateView { current_term: term, ..self }
        } else {
            self
        }
    }

    /// Whether the node has a vote left for `candidate` in `term`: it has
    /// not voted in that term, or voted for that same candidate.
    pub open spec fn vote_free_for(self, term: Term, candidate: NodeId) -> bool {
        match self.voted_for {
            Some((voted_term, voted_candidate)) => voted_term != term || voted_candidate
                == candidate,
            None => true,
        }
    }

    /// The vote-granting rule.
    pub open spec fn grants(
        self,
        term: Term,
        candidate: NodeId,
        last_log_term: Term,
        log_len: u64,
    ) -> bool {
        &&& term >= self.current_term
        &&& self.vote_free_for(term, candidate)
        &&& log_up_to_date(last_log_term, log_len, self.last_log_term, self.log.len())
    }

    /// The state after a request for a vote: the term of the request is
    /// adopted where it is greater, and a granted vote is recorded.
    pub open spec fn after_vote_request(
        self,
        term: Term,
        candidate: NodeId,
        last_log_term: Term,
        log_len: u64,
    ) -> StateView {
        let seen = self.observed(term);
        if self.grants(term, candidate, last_log_term, log_len) {
            StateView { voted_for: Some((term, candidate)), ..seen }
        } else {
            seen
        }
    }

    /// The answer to a request for a vote. It carries the term of the node
    /// after the request, so that a stale candidate learns of it.
    pub open spec fn vote_response(
        self,
        term: Term,
        candidate: NodeId,
        last_log_term: Term,
        log_len: u64,
    ) -> RaftMessage {
        RaftMessage::RequestVoteResponse {
            term: self.observed(term).current_term,
            granted: self.grants(term, candidate, last_log_term, log_len),
            voter: self.id,
        }
    }

    /// The node can start an election: there is a term after its own.
    pub open spec fn can_campaign(self) -> bool {
        self.current_term < u64::MAX
    }

    /// The state of a node that has just started an election: it is in the
    /// next term and has voted for itself.
    pub open spec fn campaigning(self) -> StateView {
        let term = (self.current_term + 1) as u64;
        StateView { current_term: term, voted_for: Some((term, self.id)), ..self }
    }

    /// The request that a candidate sends for its current term.
    pub open spec fn vote_request(self) -> RaftMessage {
        RaftMessage::RequestVote {
            term: self.current_term,
            candidate: self.id,
            last_log_term: self.last_log_term,
            log_len: self.log.len() as u64,
        }
    }

    /// The answer to a leader that has sent a message of `term`. It carries
    /// the term of the node after the message, so that a stale leader learns
    /// of it, and says whether the message was taken.
    pub open spec fn leader_response(self, term: Term, taken: bool) -> RaftMessage {
        RaftMessage::AppendEntriesResponse {
            term: self.observed(term).current_term,
            status: if taken {
                TAKEN
            } else {
                REFUSED
            },
        }
    }

    /// The heartbeat that a leader sends for its current term.
    pub open spec fn heartbeat(self) -> RaftMessage {
        RaftMessage::AppendEntries { term: self.current_term, leader: self.id }
    }

    /// One send of `message` to each peer, in the order of the peers.
    pub open spec fn sends(self, message: RaftMessage) -> Seq<Effect> {
        Seq::new(self.peers.len(), |i: int| Effect::Send { to: self.peers[i], message })
    }

    /// The record of failed sends after one more send has failed: a peer is
    /// listed once, and a node that is no peer is not listed.
    pub open spec fn with_failure(self, peer: NodeId) -> Seq<NodeId> {
        if self.peers.contains(peer) && !self.failed_sends.contains(peer) {
            self.failed_sends.push(peer)
        } else {
            self.failed_sends
        }
    }
}

/// The consensus state of one node.
#[derive(Debug)]
pub struct RaftState {
    id: NodeId,
    peers: Vec<NodeId>,
    config: RaftConfig,
    role_state: RoleState,
    // persisted state on all servers
    current_term: Term,
    voted_for: Option<(Term, NodeId)>,
    log: RaftLog,
    last_log_term: Term,
    // volatile state on all servers
    commit_index: usize,  // initialized at 0 & increases monotonically
    last_applied: usize,  // initialized at 0 & increases monotonically
    failed_sends: Vec<NodeId>,
}

impl View for RaftState {
    type V = StateView;

    closed spec fn view(&self) -> StateView {
        StateView {
            id: self.id,
            peers: self.peers@,
            config: self.config,
            role: self.role_state,
            current_term: self.current_term,
            voted_for: self.voted_for,
            log: self.log@,
            last_log_term: self.last_log_term,
            commit_index: self.commit_index,
            last_applied: self.last_applied,
            failed_sends: self.failed_sends@,
        }
    }
}

/// Whether `list` holds `node`.
pub fn holds(list: &Vec<NodeId>, node: NodeId) -> (found: bool)
    ensures
        found == list@.contains(node),
{
    let mut i: usize = 0;
    while i < list.len()
        invariant
            i <= list@.len(),
            forall|j: int| 0 <= j < i ==> list@[j] != node,
        decreases list@.len() - i,
    {
        if list[i] == node {
            return true;
        }
        i = i + 1;
    }
    false
}

impl RaftState {
    /// The state is sound, and so is the log it holds.
    pub open spec fn wf(&self) -> bool {
        self@.wf() && self.log_wf()
    }

    /// The index of the log matches its image.
    pub closed spec fn log_wf(&self) -> bool {
        self.log.wf()
    }

    /// The content of the file of the log.
    pub closed spec fn log_image(&self) -> Seq<u8> {
        self.log.image()
    }

    /// The state of a node that has just come up: a follower in term zero
    /// that has not voted, with an empty log. Of `peers` it keeps each node
    /// once and drops itself.
    pub fn new(id: NodeId, peers: Vec<NodeId>, config: RaftConfig) -> (state: RaftState)
        ensures
            state.wf(),
            state@ == (StateView {
                id,
                peers: distinct_peers(peers@, id),
                config,
                role: RoleState::Follower,
                current_term: 0,
                voted_for: None,
                log: Seq::empty(),
                last_log_term: 0,
                commit_index: 0,
                last_applied: 0,
                failed_sends: Seq::empty(),
            }),
    {
        let mut kept: Vec<NodeId> = Vec::new();
        let mut i: usize = 0;
        while i < peers.len()
            invariant
                i <= peers@.len(),
                kept@ == distinct_peers(peers@.take(i as int), id),
                kept@.no_duplicates(),
                !kept@.contains(id),
            decreases peers@.len() - i,
        {
            let peer = peers[i];
            proof {
                assert(peers@.take(i + 1).drop_last() =~= peers@.take(i as int));
                assert(peers@.take(i + 1).last() == peer);
            }
            if peer != id && !holds(&kept, peer) {
                kept.push(peer);
            }
            i = i + 1;
        }
        let log = RaftLog::open(Vec::new());
        proof {
            assert(peers@.take(peers@.len() as int) =~= peers@);
            assert(scan(Seq::<u8>::empty()) =~= Seq::<Seq<u8>>::empty());
        }
        RaftState {
            id,
            peers: kept,
            config,
            role_state: RoleState::Follower,
            current_term: 0,
            voted_for: None,
            log,
            last_log_term: 0,
            commit_index: 0,
            last_applied: 0,
            failed_sends: Vec::new(),
        }
    }

    pub fn id(&self) -> (id: NodeId)
        ensures
            id == self@.id,
    {
        self.id
    }

    pub fn peers(&self) -> (peers: &Vec<NodeId>)
        ensures
            peers@ == self@.peers,
    {
        &self.peers
    }

    pub fn config(&self) -> (config: RaftConfig)
        ensures
            config == self@.config,
    {
        self.config
    }

    pub fn role_state(&self) -> (role: RoleState)
        ensures
            role == self@.role,
    {
        self.role_state
    }

    pub fn current_term(&self) -> (term: Term)
        ensures
            term == self@.current_term,
    {
        self.current_term
    }

    pub fn voted_for(&self) -> (vote: Option<(Term, NodeId)>)
        ensures
            vote == self@.voted_for,
    {
        self.voted_for
    }

    pub fn last_log_term(&self) -> (term: Term)
        ensures
            term == self@.last_log_term,
    {
        self.last_log_term
    }

    /// The number of entries in the log.
    pub fn log_len(&self) -> (len: usize)
        requires
            self.wf(),
        ensures
            len == self@.log.len(),
    {
        self.log.len()
    }

    pub fn commit_index(&self) -> (index: usize)
        ensures
            index == self@.commit_index,
    {
        self.commit_index
    }

    pub fn last_applied(&self) -> (index: usize)
        ensures
            index == self@.last_applied,
    {
        self.last_applied
    }

    /// The peers to which a send has failed since the last broadcast began.
    pub fn failed_sends(&self) -> (failed: &Vec<NodeId>)
        ensures
            failed@ == self@.failed_sends,
    {
        &self.failed_sends
    }

    /// The log of the node.
    pub fn log(&self) -> (log: &RaftLog)
        ensures
            log@ == self@.log,
            log.image() == self.log_image(),
            self.wf() ==> log.wf(),
    {
        &self.log
    }

    /// Whether `node` belongs to the cluster.
    pub fn is_member(&self, node: NodeId) -> (member: bool)
        ensures
            member == self@.is_member(node),
    {
        node == self.id || holds(&self.peers, node)
    }

    /// The number of votes that makes a leader: more than half of the
    /// cluster, the node itself counted.
    pub fn quorum(&self) -> (votes: usize)
        ensures
            votes == self@.quorum(),
    {
        let peers: usize = self.peers.len();
        peers / 2 + peers % 2 + 1
    }

    /// Records the role that the node plays.
    pub fn set_role(&mut self, role: RoleState)
        ensures
            final(self)@ == (StateView { role, ..old(self)@ }),
            old(self).wf() ==> final(self).wf(),
            final(self).log_image() == old(self).log_image(),
    {
        self.role_state = role;
    }

    /// Takes note of the term of a message: a greater term is adopted.
    /// Says whether the term was greater.
    pub fn observe_term(&mut self, term: Term) -> (newer: bool)
        ensures
            newer == (term > old(self)@.current_term),
            final(self)@ == old(self)@.observed(term),
            old(self).wf() ==> final(self).wf(),
            final(self).log_image() == old(self).log_image(),
    {
        if term > self.current_term {
            self.current_term = term;
            true
        } else {
            false
        }
    }

    /// Starts an election: the node moves to the next term and votes for
    /// itself.
    pub fn start_election(&mut self)
        requires
            old(self)@.can_campaign(),
        ensures
            final(self)@ == old(self)@.campaigning(),
            old(self).wf() ==> final(self).wf(),
            final(self).log_image() == old(self).log_image(),
    {
        let term: Term = self.current_term + 1;
        self.current_term = term;
        self.voted_for = Some((term, self.id));
    }

    /// Decides on a request for a vote and returns the answer, which is owed
    /// to the candidate whatever was decided.
    pub fn handle_request_vote(
        &mut self,
        term: Term,
        candidate: NodeId,
        last_log_term: Term,
        log_len: u64,
    ) -> (response: RaftMessage)
        requires
            old(self).wf(),
        ensures
            final(self).wf(),
            final(self)@ == old(self)@.after_vote_request(term, candidate, last_log_term, log_len),
            response == old(self)@.vote_response(term, candidate, last_log_term, log_len),
            final(self).log_image() == old(self).log_image(),
    {
        let vote_free = match self.voted_for {
            Some((voted_term, voted_candidate)) => voted_term != term || voted_candidate
                == candidate,
            None => true,
        };
        let own_len: usize = self.log.len();
        let up_to_date = last_log_term > self.last_log_term || (last_log_term
            == self.last_log_term && log_len >= own_len as u64);
        let granted = term >= self.current_term && vote_free && up_to_date;
        if term > self.current_term {
            self.current_term = term;
        }
        if granted {
            self.voted_for = Some((term, candidate));
        }
        RaftMessage::RequestVoteResponse { term: self.current_term, granted, voter: self.id }
    }

    /// The request for a vote that the node sends as a candidate.
    pub fn vote_request(&self) -> (request: RaftMessage)
        requires
            self.wf(),
        ensures
            request == self@.vote_request(),
    {
        RaftMessage::RequestVote {
            term: self.current_term,
            candidate: self.id,
            last_log_term: self.last_log_term,
            log_len: self.log.len() as u64,
        }
    }

    /// The answer of the node to a leader, for after the term of the
    /// message of the leader was taken note of.
    pub fn leader_response(&self, taken: bool) -> (response: RaftMessage)
        ensures
            response == (RaftMessage::AppendEntriesResponse {
                term: self@.current_term,
                status: if taken {
                    TAKEN
                } else {
                    REFUSED
                },
            }),
    {
        RaftMessage::AppendEntriesResponse {
            term: self.current_term,
            status: if taken {
                TAKEN
            } else {
                REFUSED
            },
        }
    }

    /// The heartbeat that the node sends as a leader.
    pub fn heartbeat(&self) -> (heartbeat: RaftMessage)
        ensures
            heartbeat == self@.heartbeat(),
    {
        RaftMessage::AppendEntries { term: self.current_term, leader: self.id }
    }

    /// Begins a broadcast: forgets the failures of the one before and
    /// returns one send of `message` for each peer. Each send stands for
    /// itself: none depends on how another one fares.
    pub fn broadcast(&mut self, message: RaftMessage) -> (sends: Vec<Effect>)
        ensures
            sends@ == old(self)@.sends(message),
            final(self)@ == (StateView { failed_sends: Seq::empty(), ..old(self)@ }),
            old(self).wf() ==> final(self).wf(),
            final(self).log_image() == old(self).log_image(),
    {
        self.failed_sends = Vec::new();
        let mut sends: Vec<Effect> = Vec::new();
        let mut i: usize = 0;
        while i < self.peers.len()
            invariant
                i <= self.peers@.len(),
                sends@.len() == i,
                forall|j: int|
                    0 <= j < i ==> sends@[j] == (Effect::Send { to: self.peers@[j], message }),
            decreases self.peers@.len() - i,
        {
            sends.push(Effect::Send { to: self.peers[i], message });
            i = i + 1;
        }
        proof {
            assert(sends@ =~= old(self)@.sends(message));
        }
        sends
    }

    /// Records that a send to `peer` has failed. Nothing else changes: the
    /// node goes on with the peers that can be reached.
    pub fn record_send_failure(&mut self, peer: NodeId)
        ensures
            final(self)@ == (StateView {
                failed_sends: old(self)@.with_failure(peer),
                ..old(self)@
            }),
            old(self).wf() ==> final(self).wf(),
            final(self).log_image() == old(self).log_image(),
    {
        if holds(&self.peers, peer) && !holds(&self.failed_sends, peer) {
            self.failed_sends.push(peer);
        }
    }

    /// Takes note that the first `count` entries of the log are committed.
    /// The number of committed entries never falls and never passes the end
    /// of the log.
    pub fn commit(&mut self, count: usize)
        requires
            old(self).wf(),
        ensures
            final(self).wf(),
            final(self)@ == (StateView {
                commit_index: old(self)@.committed_to(count),
                ..old(self)@
            }),
            final(self).log_image() == old(self).log_image(),
    {
        let len: usize = self.log.len();
        if count > self.commit_index {
            self.commit_index = if count <= len {
                count
            } else {
                len
            };
        }
    }

    /// Hands out the next entry to apply, with its index: the first
    /// committed entry that was not handed out before. Each committed entry
    /// is handed out once, and the entries come in the order of the log.
    pub fn next_to_apply(&mut self) -> (entry: Option<(usize, Vec<u8>)>)
        requires
            old(self).wf(),
        ensures
            final(self).wf(),
            final(self).log_image() == old(self).log_image(),
            match entry {
                Some((index, payload)) => {
                    &&& index == old(self)@.last_applied
                    &&& index < old(self)@.commit_index
                    &&& payload@ == old(self)@.log[index as int]
                    &&& final(self)@ == (StateView {
                        last_applied: (index + 1) as usize,
                        ..old(self)@
                    })
                },
                None => {
                    &&& old(self)@.last_applied == old(self)@.commit_index
                    &&& final(self)@ == old(self)@
                },
            },
    {
        if self.last_applied >= self.commit_index {
            return None;
        }
        let index: usize = self.last_applied;
        match self.log.get_payload(index) {
            Ok(payload) => {
                self.last_applied = index + 1;
                Some((index, payload))
            },
            Err(_) => None,
        }
    }

    /// Appends an entry of `term` that holds `item` to the log of the node.
    /// Where the log refuses the item nothing changes.
    pub fn append_entry(&mut self, term: Term, item: Vec<u8>) -> (result: RaftResult<()>)
        requires
            old(self).wf(),
        ensures
            final(self).wf(),
            match result {
                Ok(_) => {
                    &&& accepts(old(self).log_image().len() as int, item@.len() as int)
                    &&& final(self)@ == (StateView {
                        log: old(self)@.log.push(encoded(item@)),
                        last_log_term: term,
                        ..old(self)@
                    })
                },
                Err(_) => {
                    &&& !accepts(old(self).log_image().len() as int, item@.len() as int)
                    &&& final(self)@ == old(self)@
                },
            },
    {
        match self.log.append(item) {
            Ok(()) => {
                self.last_log_term = term;
                Ok(())
            },
            Err(error) => Err(error),
        }
    }
}

/// How the term and the vote of a node may differ between an earlier and a
/// later moment: the term never falls, a vote is never for a term that the
/// node has not reached, and a vote is only ever replaced by one for a later
/// term.
pub open spec fn ballot_moves_on(before: StateView, after: StateView) -> bool {
    &&& before.current_term <= after.current_term
    &&& after.voted_for matches Some((term, _)) ==> term <= after.current_term
    &&& after.voted_for != before.voted_for ==> {
        &&& after.voted_for matches Some((term, _))
        &&& before.voted_for matches Some((earlier, _)) ==> earlier < term
    }
}

/// A node grants at most one vote in a term: of two requests for the same
/// term from different candidates, handled one after the other, at most one
/// is granted.
pub proof fn lemma_one_vote_per_term(
    state: StateView,
    term: Term,
    first: NodeId,
    first_log_term: Term,
    first_log_len: u64,
    second: NodeId,
    second_log_term: Term,
    second_log_len: u64,
)
    requires
        state.wf(),
        first != second,
    ensures
        !(state.grants(term, first, first_log_term, first_log_len) && state.after_vote_request(
            term,
            first,
            first_log_term,
            first_log_len,
        ).grants(term, second, second_log_term, second_log_len)),
{
}

/// Handling a request for a vote keeps the state sound and moves the ballot
/// on, and a vote that is granted is the vote on record afterwards, for the
/// term that the answer carries.
pub proof fn lemma_vote_request_moves_on(
    state: StateView,
    term: Term,
    candidate: NodeId,
    last_log_term: Term,
    log_len: u64,
)
    requires
        state.wf(),
    ensures
        state.after_vote_request(term, candidate, last_log_term, log_len).wf(),
        ballot_moves_on(state, state.after_vote_request(term, candidate, last_log_term, log_len)),
        state.grants(term, candidate, last_log_term, log_len) ==> {
            &&& state.after_vote_request(term, candidate, last_log_term, log_len).voted_for
                == Some((term, candidate))
            &&& state.vote_response(term, candidate, last_log_term, log_len)
                == (RaftMessage::RequestVoteResponse { term, granted: true, voter: state.id })
        },
{
}

/// Along any run of moments in which the ballot moves on from each to the
/// next, two votes on record for the same term are for the same candidate.
pub proof fn lemma_votes_never_clash(moments: Seq<StateView>, i: int, j: int)
    requires
        forall|k: int|
            0 <= k < moments.len() - 1 ==> ballot_moves_on(
                #[trigger] moments[k],
                moments[k + 1],
            ),
        0 <= i <= j < moments.len(),
        moments[i].voted_for is Some,
    ensures
        moments[j].voted_for is Some,
        moments[i].voted_for.unwrap().0 <= moments[j].voted_for.unwrap().0,
        moments[i].voted_for.unwrap().0 == moments[j].voted_for.unwrap().0 ==> moments[i].voted_for
            == moments[j].voted_for,
    decreases j - i,
{
    if i < j {
        lemma_votes_never_clash(moments, i, j - 1);
        assert(ballot_moves_on(moments[j - 1], moments[j - 1 + 1]));
    }
}

} // verus!
