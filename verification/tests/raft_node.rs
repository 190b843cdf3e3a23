use tinykv::raft::node::{Node, Role};
use tinykv::raft::timer::{TimerCommand, TimerState};
use tinykv::raft::{
    heartbeat_interval, rand_election_timeout, Effect, NodeId, RaftConfig, RaftMessage, RoleState,
    REFUSED, TAKEN,
};

const HEARTBEAT: u64 = 300;
const ELECTION: u64 = 500;

fn node_of(id: NodeId, peers: Vec<NodeId>) -> Node {
    let mut node = Node::new(id, peers, RaftConfig::fixed(HEARTBEAT, ELECTION));
    node.start();
    node
}

fn candidate_of(id: NodeId, peers: Vec<NodeId>) -> Node {
    let mut node = node_of(id, peers);
    node.step(RaftMessage::ElectionTimeOut).unwrap();
    assert_eq!(node.role_state(), RoleState::Candidate);
    node
}

fn leader_of_three() -> Node {
    let mut node = candidate_of(1, vec![2, 3]);
    node.step(grant(1, 2)).unwrap();
    assert_eq!(node.role_state(), RoleState::Leader);
    node
}

fn grant(term: u64, voter: NodeId) -> RaftMessage {
    RaftMessage::RequestVoteResponse { term, granted: true, voter }
}

fn denial(term: u64, voter: NodeId) -> RaftMessage {
    RaftMessage::RequestVoteResponse { term, granted: false, voter }
}

fn request(term: u64, candidate: NodeId) -> RaftMessage {
    RaftMessage::RequestVote { term, candidate, last_log_term: 0, log_len: 0 }
}

fn answer(to: NodeId, term: u64, granted: bool, voter: NodeId) -> Effect {
    Effect::Send { to, message: RaftMessage::RequestVoteResponse { term, granted, voter } }
}

fn heartbeat(term: u64, leader: NodeId) -> RaftMessage {
    RaftMessage::AppendEntries { term, leader }
}

fn taken(to: NodeId, term: u64) -> Effect {
    Effect::Send { to, message: RaftMessage::AppendEntriesResponse { term, status: TAKEN } }
}

fn refused(to: NodeId, term: u64) -> Effect {
    Effect::Send { to, message: RaftMessage::AppendEntriesResponse { term, status: REFUSED } }
}

fn spawn_election() -> Effect {
    Effect::Timer(TimerCommand::Spawn { period: ELECTION, message: RaftMessage::ElectionTimeOut })
}

#[test]
fn node_setup() {
    let mut node = Node::new(1, vec![2, 3], RaftConfig::standard());
    assert_eq!(node.role_state(), RoleState::Follower);
    assert!(matches!(node.role(), Role::Follower(_)));
    assert_eq!(node.state().id(), 1);
    assert_eq!(node.state().peers(), &vec![2, 3]);
    assert_eq!(node.state().current_term(), 0);
    assert_eq!(node.state().voted_for(), None);
    assert_eq!(node.state().log_len(), 0);
    assert_eq!(node.state().last_log_term(), 0);
    assert_eq!(node.state().commit_index(), 0);
    assert_eq!(node.state().last_applied(), 0);
    assert_eq!(node.state().quorum(), 2);
    assert!(node.state().failed_sends().is_empty());

    let timer = node.timer();
    assert_eq!(timer.state, TimerState::Unstarted);
    assert_eq!(timer.timeout_message, RaftMessage::ElectionTimeOut);
    assert!(1000 <= timer.timeout && timer.timeout < 2000);

    let effects = node.start();
    assert_eq!(
        effects,
        vec![Effect::Timer(TimerCommand::Spawn {
            period: timer.timeout,
            message: RaftMessage::ElectionTimeOut,
        })]
    );
    assert_eq!(node.timer().state, TimerState::Running);
}

#[test]
fn a_node_keeps_each_peer_once_and_not_itself() {
    let node = Node::new(1, vec![2, 2, 1, 3, 2, 3, 4], RaftConfig::standard());
    assert_eq!(node.state().peers(), &vec![2, 3, 4]);
    assert_eq!(node.state().quorum(), 3);
    assert!(node.state().is_member(1));
    assert!(node.state().is_member(4));
    assert!(!node.state().is_member(5));
}

#[test]
fn quorum_is_more_than_half_of_the_cluster() {
    let sizes: Vec<(Vec<NodeId>, usize)> = vec![
        (vec![], 1),
        (vec![2], 2),
        (vec![2, 3], 2),
        (vec![2, 3, 4], 3),
        (vec![2, 3, 4, 5], 3),
        (vec![2, 3, 4, 5, 6], 4),
        (vec![2, 3, 4, 5, 6, 7], 4),
    ];
    for (peers, quorum) in sizes {
        let node = Node::new(1, peers, RaftConfig::standard());
        assert_eq!(node.state().quorum(), quorum);
    }
}

#[test]
fn a_follower_that_hears_its_leader_stays_a_follower() {
    let mut node = node_of(1, vec![2, 3]);
    for _ in 0..5 {
        let effects = node.step(RaftMessage::AppendEntries { term: 1, leader: 2 }).unwrap();
        assert_eq!(effects, vec![Effect::Timer(TimerCommand::Reset), taken(2, 1)]);
        assert_eq!(node.role_state(), RoleState::Follower);
        assert_eq!(node.state().current_term(), 1);
    }
    assert_eq!(node.timer().state, TimerState::Running);
    assert_eq!(node.timer().timeout, ELECTION);
}

#[test]
fn a_follower_adopts_the_greater_term_of_a_leader() {
    let mut node = node_of(1, vec![2, 3]);
    node.step(RaftMessage::AppendEntries { term: 4, leader: 2 }).unwrap();
    assert_eq!(node.state().current_term(), 4);
    node.step(RaftMessage::AppendEntries { term: 4, leader: 2 }).unwrap();
    assert_eq!(node.state().current_term(), 4);
    node.step(RaftMessage::AppendEntries { term: 9, leader: 3 }).unwrap();
    assert_eq!(node.state().current_term(), 9);
}

#[test]
fn a_follower_passes_over_a_stale_heartbeat() {
    let mut node = node_of(1, vec![2, 3]);
    node.step(RaftMessage::AppendEntries { term: 4, leader: 2 }).unwrap();
    let effects = node.step(RaftMessage::AppendEntries { term: 3, leader: 3 }).unwrap();
    // the election timer is left alone, and the stale leader is told the term
    assert_eq!(effects, vec![refused(3, 4)]);
    assert_eq!(node.state().current_term(), 4);
    assert_eq!(node.role_state(), RoleState::Follower);
}

#[test]
fn a_follower_stands_for_election_once_per_timeout() {
    let mut node = node_of(1, vec![2, 3]);
    let effects = node.step(RaftMessage::ElectionTimeOut).unwrap();
    assert_eq!(node.role_state(), RoleState::Candidate);
    assert_eq!(node.state().role_state(), RoleState::Candidate);
    assert_eq!(node.state().current_term(), 1);
    assert_eq!(node.state().voted_for(), Some((1, 1)));
    assert_eq!(
        effects,
        vec![
            Effect::Timer(TimerCommand::Stop),
            spawn_election(),
            Effect::Send { to: 2, message: request(1, 1) },
            Effect::Send { to: 3, message: request(1, 1) },
        ]
    );
    match node.role() {
        Role::Candidate(candidate) => assert_eq!(candidate.granted_votes(), 1),
        _ => panic!("the node is no candidate"),
    }
}

#[test]
fn a_candidate_stands_again_when_its_election_times_out() {
    let mut node = candidate_of(1, vec![2, 3, 4, 5]);
    node.step(grant(1, 2)).unwrap();
    let effects = node.step(RaftMessage::ElectionTimeOut).unwrap();
    assert_eq!(node.role_state(), RoleState::Candidate);
    assert_eq!(node.state().current_term(), 2);
    assert_eq!(node.state().voted_for(), Some((2, 1)));
    assert_eq!(effects.len(), 6);
    assert_eq!(effects[0], Effect::Timer(TimerCommand::Stop));
    assert_eq!(effects[1], spawn_election());
    assert_eq!(effects[2], Effect::Send { to: 2, message: request(2, 1) });
    assert_eq!(effects[5], Effect::Send { to: 5, message: request(2, 1) });
    // the votes of the election before are forgotten
    match node.role() {
        Role::Candidate(candidate) => assert_eq!(candidate.granted_votes(), 1),
        _ => panic!("the node is no candidate"),
    }
    node.step(grant(2, 2)).unwrap();
    assert_eq!(node.role_state(), RoleState::Candidate);
    node.step(grant(2, 3)).unwrap();
    assert_eq!(node.role_state(), RoleState::Leader);
}

#[test]
fn a_candidate_yields_to_a_leader_of_its_term() {
    let mut node = candidate_of(1, vec![2, 3]);
    let effects = node.step(RaftMessage::AppendEntries { term: 1, leader: 2 }).unwrap();
    assert_eq!(node.role_state(), RoleState::Follower);
    assert_eq!(node.state().current_term(), 1);
    assert_eq!(
        effects,
        vec![taken(2, 1), Effect::Timer(TimerCommand::Stop), spawn_election()]
    );
    assert_eq!(node.timer().state, TimerState::Running);
}

#[test]
fn a_candidate_yields_to_a_leader_of_a_later_term() {
    let mut node = candidate_of(1, vec![2, 3]);
    node.step(RaftMessage::AppendEntries { term: 7, leader: 3 }).unwrap();
    assert_eq!(node.role_state(), RoleState::Follower);
    assert_eq!(node.state().current_term(), 7);
}

#[test]
fn a_candidate_passes_over_a_stale_leader() {
    let mut node = candidate_of(1, vec![2, 3]);
    let effects = node.step(RaftMessage::AppendEntries { term: 0, leader: 2 }).unwrap();
    assert_eq!(effects, vec![refused(2, 1)]);
    assert_eq!(node.role_state(), RoleState::Candidate);
    assert_eq!(node.state().current_term(), 1);
}

#[test]
fn a_candidate_of_three_leads_with_one_more_vote() {
    let mut node = candidate_of(1, vec![2, 3]);
    let effects = node.step(grant(1, 3)).unwrap();
    assert_eq!(node.role_state(), RoleState::Leader);
    assert_eq!(node.state().current_term(), 1);
    assert_eq!(
        effects,
        vec![
            Effect::Timer(TimerCommand::Stop),
            Effect::Timer(TimerCommand::Spawn {
                period: HEARTBEAT,
                message: RaftMessage::HeartTimeOut,
            }),
        ]
    );
}

#[test]
fn a_candidate_of_five_leads_with_three_votes_and_not_with_two() {
    let mut node = candidate_of(1, vec![2, 3, 4, 5]);
    assert_eq!(node.state().quorum(), 3);
    node.step(grant(1, 2)).unwrap();
    assert_eq!(node.role_state(), RoleState::Candidate);
    node.step(grant(1, 4)).unwrap();
    assert_eq!(node.role_state(), RoleState::Leader);
}

#[test]
fn one_voter_counts_once() {
    let mut node = candidate_of(1, vec![2, 3, 4, 5]);
    for _ in 0..4 {
        node.step(grant(1, 2)).unwrap();
        assert_eq!(node.role_state(), RoleState::Candidate);
    }
    // the own vote is on record already
    node.step(grant(1, 1)).unwrap();
    assert_eq!(node.role_state(), RoleState::Candidate);
    match node.role() {
        Role::Candidate(candidate) => assert_eq!(candidate.granted_votes(), 2),
        _ => panic!("the node is no candidate"),
    }
}

#[test]
fn a_denial_is_no_vote() {
    let mut node = candidate_of(1, vec![2, 3, 4, 5]);
    node.step(denial(1, 2)).unwrap();
    node.step(denial(1, 3)).unwrap();
    node.step(grant(1, 4)).unwrap();
    assert_eq!(node.role_state(), RoleState::Candidate);
    node.step(denial(1, 5)).unwrap();
    assert_eq!(node.role_state(), RoleState::Candidate);
    match node.role() {
        Role::Candidate(candidate) => assert_eq!(candidate.granted_votes(), 2),
        _ => panic!("the node is no candidate"),
    }
}

#[test]
fn a_later_answer_of_a_voter_replaces_its_earlier_one() {
    let mut node = candidate_of(1, vec![2, 3, 4, 5]);
    node.step(grant(1, 2)).unwrap();
    node.step(denial(1, 2)).unwrap();
    node.step(grant(1, 3)).unwrap();
    assert_eq!(node.role_state(), RoleState::Candidate);
    node.step(grant(1, 2)).unwrap();
    assert_eq!(node.role_state(), RoleState::Leader);
}

#[test]
fn a_vote_from_outside_the_cluster_does_not_count() {
    let mut node = candidate_of(1, vec![2, 3, 4, 5]);
    node.step(grant(1, 2)).unwrap();
    node.step(grant(1, 9)).unwrap();
    assert_eq!(node.role_state(), RoleState::Candidate);
}

#[test]
fn a_vote_of_an_earlier_term_does_not_count() {
    let mut node = candidate_of(1, vec![2, 3]);
    node.step(RaftMessage::ElectionTimeOut).unwrap();
    assert_eq!(node.state().current_term(), 2);
    node.step(grant(1, 2)).unwrap();
    assert_eq!(node.role_state(), RoleState::Candidate);
    node.step(grant(2, 2)).unwrap();
    assert_eq!(node.role_state(), RoleState::Leader);
}

#[test]
fn an_answer_of_a_later_term_makes_a_candidate_follow() {
    let mut node = candidate_of(1, vec![2, 3]);
    node.step(denial(6, 2)).unwrap();
    assert_eq!(node.role_state(), RoleState::Follower);
    assert_eq!(node.state().current_term(), 6);
}

#[test]
fn a_node_alone_leads_as_soon_as_it_stands() {
    let mut node = node_of(1, vec![]);
    let effects = node.step(RaftMessage::ElectionTimeOut).unwrap();
    assert_eq!(node.role_state(), RoleState::Leader);
    assert_eq!(node.state().current_term(), 1);
    assert_eq!(node.state().voted_for(), Some((1, 1)));
    assert_eq!(
        effects,
        vec![
            Effect::Timer(TimerCommand::Stop),
            spawn_election(),
            Effect::Timer(TimerCommand::Stop),
            Effect::Timer(TimerCommand::Spawn {
                period: HEARTBEAT,
                message: RaftMessage::HeartTimeOut,
            }),
        ]
    );
}

#[test]
fn a_node_grants_one_vote_in_a_term() {
    let mut node = node_of(1, vec![2, 3]);
    assert_eq!(node.step(request(1, 2)).unwrap(), vec![answer(2, 1, true, 1)]);
    assert_eq!(node.state().voted_for(), Some((1, 2)));
    assert_eq!(node.state().current_term(), 1);
    assert_eq!(node.step(request(1, 3)).unwrap(), vec![answer(3, 1, false, 1)]);
    assert_eq!(node.state().voted_for(), Some((1, 2)));
    // the candidate that has the vote is told so again
    assert_eq!(node.step(request(1, 2)).unwrap(), vec![answer(2, 1, true, 1)]);
    assert_eq!(node.role_state(), RoleState::Follower);
}

#[test]
fn a_node_votes_anew_in_a_later_term() {
    let mut node = node_of(1, vec![2, 3]);
    node.step(request(1, 2)).unwrap();
    assert_eq!(node.step(request(2, 3)).unwrap(), vec![answer(3, 2, true, 1)]);
    assert_eq!(node.state().voted_for(), Some((2, 3)));
    assert_eq!(node.state().current_term(), 2);
    assert_eq!(node.step(request(2, 2)).unwrap(), vec![answer(2, 2, false, 1)]);
}

#[test]
fn a_stale_request_is_answered_with_the_current_term() {
    let mut node = node_of(1, vec![2, 3]);
    node.step(RaftMessage::AppendEntries { term: 5, leader: 2 }).unwrap();
    assert_eq!(node.step(request(4, 3)).unwrap(), vec![answer(3, 5, false, 1)]);
    assert_eq!(node.state().voted_for(), None);
    assert_eq!(node.state().current_term(), 5);
}

#[test]
fn a_vote_goes_only_to_a_log_that_is_up_to_date() {
    let mut node = node_of(1, vec![2, 3]);
    node.append_entry(1, vec![1]).unwrap();
    node.append_entry(2, vec![2]).unwrap();
    assert_eq!(node.state().log_len(), 2);
    assert_eq!(node.state().last_log_term(), 2);

    let ask = |term, last_log_term, log_len| RaftMessage::RequestVote {
        term,
        candidate: 2,
        last_log_term,
        log_len,
    };
    // an earlier last term loses, however long the log
    assert_eq!(node.step(ask(3, 1, 9)).unwrap(), vec![answer(2, 3, false, 1)]);
    // the same last term and a shorter log loses
    assert_eq!(node.step(ask(4, 2, 1)).unwrap(), vec![answer(2, 4, false, 1)]);
    assert_eq!(node.state().voted_for(), None);
    // the term of a request is adopted even where the vote is denied
    assert_eq!(node.state().current_term(), 4);
    // the same last term and the same length wins
    assert_eq!(node.step(ask(5, 2, 2)).unwrap(), vec![answer(2, 5, true, 1)]);
    // a later last term wins, however short the log
    assert_eq!(node.step(ask(6, 3, 0)).unwrap(), vec![answer(2, 6, true, 1)]);
    assert_eq!(node.state().voted_for(), Some((6, 2)));
}

#[test]
fn a_candidate_denies_its_rival_and_stays() {
    let mut node = candidate_of(1, vec![2, 3]);
    assert_eq!(node.step(request(1, 2)).unwrap(), vec![answer(2, 1, false, 1)]);
    assert_eq!(node.role_state(), RoleState::Candidate);
    assert_eq!(node.state().voted_for(), Some((1, 1)));
}

#[test]
fn a_candidate_gives_way_to_a_request_of_a_later_term() {
    let mut node = candidate_of(1, vec![2, 3]);
    let effects = node.step(request(3, 2)).unwrap();
    assert_eq!(
        effects,
        vec![answer(2, 3, true, 1), Effect::Timer(TimerCommand::Stop), spawn_election()]
    );
    assert_eq!(node.role_state(), RoleState::Follower);
    assert_eq!(node.state().current_term(), 3);
    assert_eq!(node.state().voted_for(), Some((3, 2)));
}

#[test]
fn a_leader_sets_up_its_tables_for_every_peer() {
    let mut node = node_of(1, vec![2, 3]);
    node.append_entry(1, vec![1]).unwrap();
    node.append_entry(1, vec![2]).unwrap();
    node.step(RaftMessage::ElectionTimeOut).unwrap();
    node.step(grant(1, 2)).unwrap();
    match node.role() {
        Role::Leader(leader) => {
            assert_eq!(leader.next_index_of(2), Some(2));
            assert_eq!(leader.next_index_of(3), Some(2));
            assert_eq!(leader.next_index_of(1), None);
            assert_eq!(leader.match_index_of(2), Some(0));
            assert_eq!(leader.match_index_of(3), Some(0));
            assert_eq!(leader.match_index_of(9), None);
        }
        _ => panic!("the node is no leader"),
    }
    let timer = node.timer();
    assert_eq!(timer.timeout, HEARTBEAT);
    assert_eq!(timer.timeout_message, RaftMessage::HeartTimeOut);
    assert_eq!(timer.state, TimerState::Running);
}

#[test]
fn a_leader_sends_a_heartbeat_to_every_peer() {
    let mut node = leader_of_three();
    let effects = node.step(RaftMessage::HeartTimeOut).unwrap();
    assert_eq!(
        effects,
        vec![
            Effect::Send { to: 2, message: RaftMessage::AppendEntries { term: 1, leader: 1 } },
            Effect::Send { to: 3, message: RaftMessage::AppendEntries { term: 1, leader: 1 } },
            Effect::Timer(TimerCommand::Reset),
        ]
    );
    assert_eq!(node.role_state(), RoleState::Leader);
}

#[test]
fn a_leader_gives_way_to_a_leader_of_a_later_term_only() {
    let mut node = leader_of_three();
    assert_eq!(node.step(heartbeat(1, 2)).unwrap(), vec![refused(2, 1)]);
    assert_eq!(node.step(heartbeat(0, 3)).unwrap(), vec![refused(3, 1)]);
    assert_eq!(node.role_state(), RoleState::Leader);
    let effects = node.step(heartbeat(2, 2)).unwrap();
    assert_eq!(
        effects,
        vec![taken(2, 2), Effect::Timer(TimerCommand::Stop), spawn_election()]
    );
    assert_eq!(node.role_state(), RoleState::Follower);
    assert_eq!(node.state().current_term(), 2);
}

#[test]
fn a_leader_passes_over_late_votes_and_election_timeouts() {
    let mut node = leader_of_three();
    assert!(node.step(grant(1, 3)).unwrap().is_empty());
    assert!(node.step(RaftMessage::ElectionTimeOut).unwrap().is_empty());
    let late = RaftMessage::AppendEntriesResponse { term: 1, status: TAKEN };
    assert!(node.step(late).unwrap().is_empty());
    let stale = RaftMessage::AppendEntriesResponse { term: 0, status: REFUSED };
    assert!(node.step(stale).unwrap().is_empty());
    assert_eq!(node.role_state(), RoleState::Leader);
    assert_eq!(node.state().current_term(), 1);
}

#[test]
fn a_leader_gives_way_to_a_request_of_a_later_term() {
    let mut node = leader_of_three();
    assert_eq!(node.step(request(1, 2)).unwrap(), vec![answer(2, 1, false, 1)]);
    assert_eq!(node.role_state(), RoleState::Leader);
    let effects = node.step(request(2, 3)).unwrap();
    assert_eq!(effects[0], answer(3, 2, true, 1));
    assert_eq!(node.role_state(), RoleState::Follower);
    assert_eq!(node.state().voted_for(), Some((2, 3)));
}

#[test]
fn a_failed_send_is_recorded_and_changes_nothing_else() {
    let mut node = candidate_of(1, vec![2, 3, 4, 5]);
    node.step(grant(1, 2)).unwrap();
    node.record_send_failure(3);
    node.record_send_failure(3);
    node.record_send_failure(9);
    node.record_send_failure(5);
    assert_eq!(node.state().failed_sends(), &vec![3, 5]);
    assert_eq!(node.role_state(), RoleState::Candidate);
    assert_eq!(node.state().current_term(), 1);
    // the peers that can be reached still make a quorum
    node.step(grant(1, 4)).unwrap();
    assert_eq!(node.role_state(), RoleState::Leader);
    // the next broadcast starts a record of its own
    node.step(RaftMessage::HeartTimeOut).unwrap();
    assert!(node.state().failed_sends().is_empty());
}

#[test]
fn a_node_in_the_last_term_cannot_stand() {
    let mut node = node_of(1, vec![2, 3]);
    node.step(RaftMessage::AppendEntries { term: u64::MAX, leader: 2 }).unwrap();
    assert_eq!(node.state().current_term(), u64::MAX);
    let error = node.step(RaftMessage::ElectionTimeOut).unwrap_err();
    assert_eq!(error.0, "no term left to stand in");
    assert_eq!(node.role_state(), RoleState::Follower);
    assert_eq!(node.state().current_term(), u64::MAX);
    assert_eq!(node.state().voted_for(), None);
    assert_eq!(node.timer().state, TimerState::Running);
}

#[test]
fn stopping_a_node_stops_its_timer_for_good() {
    let mut node = node_of(1, vec![2, 3]);
    assert_eq!(node.stop(), vec![Effect::Timer(TimerCommand::Stop)]);
    assert_eq!(node.timer().state, TimerState::Stopped);
    assert!(node.stop().is_empty());
    assert!(node.start().is_empty());
    assert_eq!(node.timer().state, TimerState::Stopped);
}

#[test]
fn step_with_takes_the_timeout_it_is_given() {
    let mut node = Node::new(1, vec![2], RaftConfig::standard());
    node.start();
    let effects = node.step_with(RaftMessage::ElectionTimeOut, 1234).unwrap();
    assert_eq!(
        effects[1],
        Effect::Timer(TimerCommand::Spawn { period: 1234, message: RaftMessage::ElectionTimeOut })
    );
    assert_eq!(node.timer().timeout, 1234);
}

#[test]
fn step_draws_its_timeout_from_the_configured_range() {
    for _ in 0..20 {
        let mut node = Node::new(1, vec![2], RaftConfig::standard());
        node.start();
        node.step(RaftMessage::ElectionTimeOut).unwrap();
        let timeout = node.timer().timeout;
        assert!(1000 <= timeout && timeout < 2000);
    }
}

#[test]
fn election_timeouts_lie_in_their_range_and_vary() {
    let draws: Vec<u64> = (0..200).map(|_| rand_election_timeout()).collect();
    assert!(draws.iter().all(|&drawn| 1000 <= drawn && drawn < 2000));
    assert!(draws.iter().any(|&drawn| drawn != draws[0]));
    let config = RaftConfig { heartbeat_interval: 1, election_timeout_min: 10, election_timeout_max: 13 };
    let draws: Vec<u64> = (0..200).map(|_| config.election_timeout()).collect();
    assert!(draws.iter().all(|&drawn| 10 <= drawn && drawn < 13));
    assert!(draws.iter().any(|&drawn| drawn != 10));
}

#[test]
fn a_fixed_configuration_always_gives_its_timeout() {
    let config = RaftConfig::fixed(300, 777);
    assert_eq!(config.heartbeat_interval, 300);
    for _ in 0..20 {
        assert_eq!(config.election_timeout(), 777);
    }
    assert_eq!(RaftConfig::fixed(1, u64::MAX).election_timeout(), u64::MAX);
    let empty = RaftConfig { heartbeat_interval: 1, election_timeout_min: 9, election_timeout_max: 3 };
    assert_eq!(empty.election_timeout(), 9);
}

#[test]
fn the_standard_timing() {
    assert_eq!(heartbeat_interval(), 300);
    let config = RaftConfig::standard();
    assert_eq!(config.heartbeat_interval, 300);
    assert_eq!(config.election_timeout_min, 1000);
    assert_eq!(config.election_timeout_max, 2000);
}

#[test]
fn committed_entries_are_handed_out_once_and_in_order() {
    let mut node = node_of(1, vec![2, 3]);
    for item in [vec![10u8], vec![20], vec![30]] {
        node.append_entry(1, item).unwrap();
    }
    assert_eq!(node.next_to_apply(), None);

    node.commit(2);
    assert_eq!(node.state().commit_index(), 2);
    // an entry is stored in its encoding
    assert_eq!(node.next_to_apply(), Some((0, vec![1, 0, 0, 0, 0, 0, 0, 0, 10])));
    assert_eq!(node.next_to_apply(), Some((1, vec![1, 0, 0, 0, 0, 0, 0, 0, 20])));
    assert_eq!(node.next_to_apply(), None);
    assert_eq!(node.state().last_applied(), 2);

    // the number of committed entries never falls and never passes the log
    node.commit(1);
    assert_eq!(node.state().commit_index(), 2);
    node.commit(9);
    assert_eq!(node.state().commit_index(), 3);
    assert_eq!(node.next_to_apply(), Some((2, vec![1, 0, 0, 0, 0, 0, 0, 0, 30])));
    assert_eq!(node.next_to_apply(), None);
    assert_eq!(node.state().last_applied(), 3);
    assert_eq!(node.role_state(), RoleState::Follower);
}

#[test]
fn a_follower_takes_the_greater_term_of_a_late_answer() {
    let mut node = node_of(1, vec![2, 3]);
    assert!(node.step(grant(3, 2)).unwrap().is_empty());
    assert_eq!(node.state().current_term(), 3);
    assert_eq!(node.role_state(), RoleState::Follower);
    assert!(node.step(RaftMessage::HeartTimeOut).unwrap().is_empty());
    let answer = RaftMessage::AppendEntriesResponse { term: 5, status: REFUSED };
    assert!(node.step(answer).unwrap().is_empty());
    assert_eq!(node.state().current_term(), 5);
    assert_eq!(node.role_state(), RoleState::Follower);
}

#[test]
fn a_stale_leader_gives_way_when_it_is_told_a_later_term() {
    let mut node = leader_of_three();
    let answer = RaftMessage::AppendEntriesResponse { term: 4, status: REFUSED };
    let effects = node.step(answer).unwrap();
    assert_eq!(effects, vec![Effect::Timer(TimerCommand::Stop), spawn_election()]);
    assert_eq!(node.role_state(), RoleState::Follower);
    assert_eq!(node.state().current_term(), 4);

    let mut node = candidate_of(1, vec![2, 3]);
    let answer = RaftMessage::AppendEntriesResponse { term: 2, status: TAKEN };
    node.step(answer).unwrap();
    assert_eq!(node.role_state(), RoleState::Follower);
    assert_eq!(node.state().current_term(), 2);
}

#[test]
fn the_log_of_a_node_can_be_read() {
    let mut node = node_of(1, vec![2]);
    node.append_entry(4, vec![7, 7]).unwrap();
    let log = node.state().log();
    assert_eq!(log.len(), 1);
    assert_eq!(log.get(0).unwrap(), vec![7, 7]);
    assert_eq!(node.state().last_log_term(), 4);
    let ask = node.step(RaftMessage::ElectionTimeOut).unwrap();
    assert_eq!(
        ask[2],
        Effect::Send {
            to: 2,
            message: RaftMessage::RequestVote {
                term: 1,
                candidate: 1,
                last_log_term: 4,
                log_len: 1
            }
        }
    );
}

#[test]
fn test_follower() {
    let mut node = Node::new(1, vec![], RaftConfig::fixed(HEARTBEAT, ELECTION));
    assert_eq!(
        node.start(),
        vec![spawn_election()]
    );
    for _ in 0..5 {
        let effects = node.step(RaftMessage::AppendEntries { term: 0, leader: 2 }).unwrap();
        assert_eq!(effects, vec![Effect::Timer(TimerCommand::Reset), taken(2, 0)]);
        assert_eq!(node.role_state(), RoleState::Follower);
    }
    assert_eq!(node.state().current_term(), 0);
    assert_eq!(node.timer().state, TimerState::Running);
}

#[test]
fn test_candidate() {
    let mut node = candidate_of(1, vec![2, 3]);
    assert_eq!(node.state().current_term(), 1);
    assert!(matches!(node.role(), Role::Candidate(_)));
    assert_eq!(node.timer().timeout_message, RaftMessage::ElectionTimeOut);
    assert_eq!(node.timer().state, TimerState::Running);
    assert_eq!(node.stop(), vec![Effect::Timer(TimerCommand::Stop)]);
}

#[test]
fn test_leader() {
    let mut node = leader_of_three();
    assert!(matches!(node.role(), Role::Leader(_)));
    assert_eq!(node.timer().timeout_message, RaftMessage::HeartTimeOut);
    assert_eq!(node.timer().state, TimerState::Running);
    assert_eq!(node.stop(), vec![Effect::Timer(TimerCommand::Stop)]);
}
