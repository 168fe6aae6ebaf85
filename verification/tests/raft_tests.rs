//! Consensus tests: elections, replication, and the non-leader answers.

use nulldb::errors::NullDbReadError;
use nulldb::nulldb::{create_db, Config};
use nulldb::raft::{
    AppendEntriesRequest, RaftAction, RaftConfig, RaftEvent, RaftNode, RaftResponse, VoteReply,
    VoteRequest,
};

fn node(id: &str, peers: Vec<&str>, timeout: u64) -> RaftNode {
    let config = RaftConfig::new(
        id.to_string(),
        peers.into_iter().map(|p| p.to_string()).collect(),
    )
    .with_election_timeout(timeout);
    let db = create_db(Config::new("/tmp/null".to_string(), false, "json".to_string()));
    RaftNode::new(config, db)
}

fn copy_vote_request(req: &VoteRequest) -> VoteRequest {
    VoteRequest {
        term: req.term,
        candidate_id: req.candidate_id.clone(),
        last_log_index: req.last_log_index,
        last_log_term: req.last_log_term,
    }
}

fn copy_append_request(req: &AppendEntriesRequest) -> AppendEntriesRequest {
    AppendEntriesRequest {
        term: req.term,
        leader_id: req.leader_id.clone(),
        prev_log_index: req.prev_log_index,
        prev_log_term: req.prev_log_term,
        entries: req
            .entries
            .iter()
            .map(|e| nulldb::raft::LogEntry { key: e.key.clone(), value: e.value.clone() })
            .collect(),
        leader_commit: req.leader_commit,
    }
}

#[test]
fn writes_to_follower_are_not_leader() {
    let mut n = node("a:1", vec!["b:1", "c:1"], 1000);
    assert!(n.is_follower());
    let r = n.on_message(
        RaftEvent::NewEntry { key: "k".to_string(), value: "v".to_string() },
        10,
    );
    assert!(matches!(r, RaftResponse::Write(Err(NullDbReadError::NotLeader))));
    let r = n.on_message(RaftEvent::GetEntry("k".to_string()), 11);
    assert!(matches!(r, RaftResponse::Read(Err(NullDbReadError::NotLeader))));
}

#[test]
fn writes_to_candidate_are_not_leader() {
    let mut n = node("a:1", vec!["b:1", "c:1"], 100);
    n.tick(500);
    assert!(n.is_candidate());
    let r = n.on_message(
        RaftEvent::NewEntry { key: "k".to_string(), value: "v".to_string() },
        501,
    );
    assert!(matches!(r, RaftResponse::Write(Err(NullDbReadError::NotLeader))));
    let r = n.on_message(RaftEvent::GetEntry("k".to_string()), 502);
    assert!(matches!(r, RaftResponse::Read(Err(NullDbReadError::NotLeader))));
}

/// A three-node election under reliable synchronous delivery: the node with
/// the shortest timeout stands, wins, and every node converges to its term.
#[test]
fn three_node_election_converges() {
    let mut a = node("a:1", vec!["b:1", "c:1"], 150);
    let mut b = node("b:1", vec!["a:1", "c:1"], 400);
    let mut c = node("c:1", vec!["a:1", "b:1"], 900);

    // a's timeout fires first under a synchronized clock
    a.tick(200);
    assert!(a.is_candidate());
    let req = match a.tick(201) {
        RaftAction::RequestVotes(req) => req,
        _ => panic!("a new candidate broadcasts vote requests"),
    };
    assert_eq!(req.term, 1);

    // deliver the requests; both peers grant
    let rb = b.on_message(RaftEvent::VoteRequest(copy_vote_request(&req)), 202);
    let reply_b = match rb {
        RaftResponse::Vote(v) => v,
        _ => panic!("a vote request draws a vote reply"),
    };
    assert!(reply_b.vote_granted);
    let rc = c.on_message(RaftEvent::VoteRequest(copy_vote_request(&req)), 203);
    let reply_c = match rc {
        RaftResponse::Vote(v) => v,
        _ => panic!("a vote request draws a vote reply"),
    };
    assert!(reply_c.vote_granted);

    // the first granted reply gives a its majority (2 of 3)
    a.on_message(RaftEvent::VoteReply(reply_b), 204);
    assert!(a.is_leader());
    // the straggler reply changes nothing
    a.on_message(RaftEvent::VoteReply(reply_c), 205);
    assert!(a.is_leader());

    // heartbeats keep the followers following
    let hb = match a.tick(400) {
        RaftAction::Heartbeat(req) => req,
        _ => panic!("a leader heartbeats after its interval"),
    };
    b.on_message(RaftEvent::AppendEntriesRequest(copy_append_request(&hb)), 401);
    c.on_message(RaftEvent::AppendEntriesRequest(copy_append_request(&hb)), 402);

    // exactly one leader, and all nodes hold the leader's term
    assert!(a.is_leader());
    assert!(b.is_follower());
    assert!(c.is_follower());
    assert_eq!(a.current_term(), 1);
    assert_eq!(b.current_term(), 1);
    assert_eq!(c.current_term(), 1);
}

/// A node grants one vote per term: the second candidate of the same term
/// is denied.
#[test]
fn one_vote_per_term() {
    let mut b = node("b:1", vec!["a:1", "c:1"], 1000);
    let first = VoteRequest {
        term: 5,
        candidate_id: "a:1".to_string(),
        last_log_index: 0,
        last_log_term: 5,
    };
    let r = b.on_message(RaftEvent::VoteRequest(first), 10);
    assert!(matches!(r, RaftResponse::Vote(VoteReply { vote_granted: true, .. })));
    let second = VoteRequest {
        term: 5,
        candidate_id: "c:1".to_string(),
        last_log_index: 0,
        last_log_term: 5,
    };
    let r = b.on_message(RaftEvent::VoteRequest(second), 11);
    assert!(matches!(r, RaftResponse::Vote(VoteReply { vote_granted: false, .. })));
    // a later term is a fresh vote
    let third = VoteRequest {
        term: 6,
        candidate_id: "c:1".to_string(),
        last_log_index: 0,
        last_log_term: 6,
    };
    let r = b.on_message(RaftEvent::VoteRequest(third), 12);
    assert!(matches!(r, RaftResponse::Vote(VoteReply { vote_granted: true, .. })));
    assert_eq!(b.current_term(), 6);
}

/// A write the leader accepts is stored locally, replicated, and present on
/// every follower that processed the append.
#[test]
fn replicated_write_reaches_followers() {
    let mut a = node("a:1", vec!["b:1", "c:1"], 150);
    let mut b = node("b:1", vec!["a:1", "c:1"], 800);
    let mut c = node("c:1", vec!["a:1", "b:1"], 900);

    a.tick(200);
    let req = match a.tick(201) {
        RaftAction::RequestVotes(req) => req,
        _ => panic!("vote requests expected"),
    };
    let rb = b.on_message(RaftEvent::VoteRequest(copy_vote_request(&req)), 202);
    let reply_b = match rb {
        RaftResponse::Vote(v) => v,
        _ => panic!("vote reply expected"),
    };
    a.on_message(RaftEvent::VoteReply(reply_b), 203);
    assert!(a.is_leader());

    // the client writes at the leader
    let resp = a.on_message(
        RaftEvent::NewEntry { key: "name".to_string(), value: "name:marek".to_string() },
        210,
    );
    let replicate = match resp {
        RaftResponse::Replicate(req) => req,
        _ => panic!("the leader hands the entry back for replication"),
    };
    assert_eq!(replicate.entries.len(), 1);

    // the leader already holds the write locally
    let rec = a.store_ref().get_value_for_key("name").expect("local write");
    assert_eq!(rec.get_value(), Some("name:marek".to_string()));

    // both followers acknowledge
    let ack_b = b.on_message(
        RaftEvent::AppendEntriesRequest(copy_append_request(&replicate)),
        211,
    );
    assert!(matches!(
        ack_b,
        RaftResponse::AppendEntries(nulldb::raft::AppendEntriesReply { success: true, .. })
    ));
    let ack_c = c.on_message(
        RaftEvent::AppendEntriesRequest(copy_append_request(&replicate)),
        212,
    );
    assert!(matches!(
        ack_c,
        RaftResponse::AppendEntries(nulldb::raft::AppendEntriesReply { success: true, .. })
    ));

    // two acknowledgments plus the leader's own copy are a majority of 3
    assert!(a.replication_outcome(2).is_ok());
    assert!(matches!(
        a.replication_outcome(0),
        Err(NullDbReadError::FailedToReplicate)
    ));

    // the write is present via a read on every follower's store
    let rec = b.store_ref().get_value_for_key("name").expect("replicated");
    assert_eq!(rec.get_value(), Some("name:marek".to_string()));
    let rec = c.store_ref().get_value_for_key("name").expect("replicated");
    assert_eq!(rec.get_value(), Some("name:marek".to_string()));

    // the leader serves reads locally
    let read = a.on_message(RaftEvent::GetEntry("name".to_string()), 220);
    match read {
        RaftResponse::Read(Ok(rec)) => {
            assert_eq!(rec.get_value(), Some("name:marek".to_string()))
        },
        _ => panic!("the leader serves reads"),
    }
}

/// A leader steps down to a higher-term vote request or another leader.
#[test]
fn leader_steps_down() {
    let mut a = node("a:1", vec!["b:1"], 150);
    a.tick(200);
    let req = match a.tick(201) {
        RaftAction::RequestVotes(req) => req,
        _ => panic!("vote requests expected"),
    };
    let _ = req;
    a.on_message(
        RaftEvent::VoteReply(VoteReply { term: 1, vote_granted: true }),
        202,
    );
    assert!(a.is_leader());
    let r = a.on_message(
        RaftEvent::VoteRequest(VoteRequest {
            term: 9,
            candidate_id: "b:1".to_string(),
            last_log_index: 0,
            last_log_term: 9,
        }),
        300,
    );
    assert!(matches!(r, RaftResponse::Vote(VoteReply { vote_granted: true, .. })));
    assert!(a.is_follower());
    assert_eq!(a.current_term(), 9);
}
