//! The consensus layer: a pure follower/candidate/leader state machine.
//!
//! The node decides; the caller moves bytes.  Every transition is driven
//! either by a clock tick ([`RaftNode::tick`]) or by one inbound event
//! ([`RaftNode::on_message`]).  Outbound requests are returned as values for
//! the caller to deliver, and peers' replies come back as further events.
//! Time is a millisecond count supplied by the caller, so the machine is
//! deterministic and the rules about terms, votes and majorities are proved
//! rather than tested.
//!
//! Cluster arithmetic: the roster holds the *other* nodes, so a cluster of
//! `N` nodes has a roster of `N - 1`, and a majority needs `2 * count > N`,
//! counting the node's own vote or acknowledgment.
//!
//! Election timeouts must not be synchronized across nodes, or elections
//! repeatedly split; give each node's configuration a distinct timeout —
//! the base interval plus a per-node random jitter — when building it.

use vstd::prelude::*;

use crate::errors::NullDbReadError;
use crate::file::{record_v, Record};
use crate::nulldb::{apply_entries, NullDB};

verus! {

/// One replicated log entry: a key and the value to store under it.
pub struct LogEntry {
    pub key: String,
    pub value: String,
}

/// A request for a vote in `term`.
pub struct VoteRequest {
    pub term: u32,
    pub candidate_id: String,
    pub last_log_index: u64,
    pub last_log_term: u32,
}

/// The answer to a [`VoteRequest`].
pub struct VoteReply {
    pub term: u32,
    pub vote_granted: bool,
}

/// A leader's replication or heartbeat message.
pub struct AppendEntriesRequest {
    pub term: u32,
    pub leader_id: String,
    pub prev_log_index: u64,
    pub prev_log_term: u32,
    pub entries: Vec<LogEntry>,
    pub leader_commit: u64,
}

/// The answer to an [`AppendEntriesRequest`].
pub struct AppendEntriesReply {
    pub term: u32,
    pub success: bool,
}

/// One inbound event: a peer's request, a peer's vote reply, or a client
/// operation.
pub enum RaftEvent {
    VoteRequest(VoteRequest),
    AppendEntriesRequest(AppendEntriesRequest),
    VoteReply(VoteReply),
    NewEntry { key: String, value: String },
    GetEntry(String),
}

/// The node's answer to one event.  `Replicate` means the leader stored the
/// entry locally; the caller broadcasts the carried request, counts the
/// successful replies, and settles the client's answer with
/// [`RaftNode::replication_outcome`].
pub enum RaftResponse {
    Vote(VoteReply),
    AppendEntries(AppendEntriesReply),
    Write(Result<(), NullDbReadError>),
    Replicate(AppendEntriesRequest),
    Read(Result<Record, NullDbReadError>),
    NoReply,
}

/// What a tick asks the caller to send.
pub enum RaftAction {
    Idle,
    RequestVotes(VoteRequest),
    Heartbeat(AppendEntriesRequest),
}

/// A node's identity, peers and timers.
pub struct RaftConfig {
    /// The *other* nodes, as `host:port` strings.
    pub roster: Vec<String>,
    pub candidate_id: String,
    /// How long a follower waits for a heartbeat before standing as a
    /// candidate.  Give every node a different value (base plus jitter).
    pub election_timeout_ms: u64,
    /// How often a leader sends heartbeats.
    pub heartbeat_interval_ms: u64,
}

impl RaftConfig {
    /// A configuration with the default timers.
    pub fn new(candidate_id: String, roster: Vec<String>) -> (r: RaftConfig)
        ensures
            r.candidate_id@ == candidate_id@,
            r.roster == roster,
            r.election_timeout_ms == 1000,
            r.heartbeat_interval_ms == 100,
    {
        RaftConfig { roster, candidate_id, election_timeout_ms: 1000, heartbeat_interval_ms: 100 }
    }

    /// The same configuration with another election timeout; use this to
    /// give each node its jittered value.
    pub fn with_election_timeout(self, election_timeout_ms: u64) -> (r: RaftConfig)
        ensures
            r.candidate_id@ == self.candidate_id@,
            r.roster == self.roster,
            r.election_timeout_ms == election_timeout_ms,
            r.heartbeat_interval_ms == self.heartbeat_interval_ms,
    {
        RaftConfig { election_timeout_ms, ..self }
    }

    /// The number of nodes in the cluster: the roster and this node.
    pub open spec fn cluster_size(self) -> int {
        self.roster@.len() as int + 1
    }
}

/// Whether `count` voices out of a cluster of `cluster` nodes are a
/// majority: strictly more than half.
pub open spec fn majority(count: int, cluster: int) -> bool {
    2 * count > cluster
}

// ---------------------------------------------------------------------------
// Follower
// ---------------------------------------------------------------------------

/// A follower: it answers votes and applies the leader's entries.
pub struct FollowerState {
    /// When the last heartbeat arrived, caller's clock.
    pub last_heartbeat: u64,
    pub term: u32,
    /// Whether this node has granted a vote in `term`.
    pub voted: bool,
}

/// Whether a follower grants a vote to a candidate of term `req_term`: the
/// request must not be from a past term, and the follower must not have
/// voted in that term already.  A higher term is a term the follower has
/// not voted in.
pub open spec fn vote_granted(f: FollowerState, req_term: u32) -> bool {
    req_term > f.term || (req_term == f.term && !f.voted)
}

/// A write the leader accepted is visible on every follower that applied
/// the replicating request: applying the one-entry batch the leader hands
/// back puts exactly the written record — never a tombstone — under the
/// written key, and a read returns the view's record for its key.
pub proof fn lemma_replicated_write_visible(
    m: Map<Seq<char>, crate::file::RecordV>,
    e: crate::file::FileEngine,
    entries: Seq<LogEntry>,
    index: u64,
)
    requires
        entries.len() == 1,
        index < u64::MAX,
    ensures
        apply_entries(m, e, entries, index).contains_key(entries[0].key@),
        apply_entries(m, e, entries, index)[entries[0].key@] == record_v(
            e,
            entries[0].key@,
            (index + 1) as u64,
            None,
            Some(entries[0].value@),
        ),
        !apply_entries(m, e, entries, index)[entries[0].key@].is_tombstone(),
{
    assert(entries.drop_last() =~= Seq::<LogEntry>::empty());
    assert(entries.last() == entries[0]);
    reveal_strlit("tombstone");
}

/// Granting a vote for a term forbids granting another in the same term,
/// and a follower's term never decreases: together, a node grants at most
/// one vote per term.
pub proof fn lemma_one_vote_per_term(before: FollowerState, after: FollowerState, req_term: u32)
    requires
        vote_granted(before, req_term),
        after.term == req_term,
        after.voted,
    ensures
        !vote_granted(after, req_term),
        after.term >= before.term,
{
}

/// Election safety at the cluster level: since every node grants at most
/// one vote per term, the voter sets of two distinct candidates in one term
/// are disjoint subsets of the cluster — and two disjoint subsets cannot
/// both be strict majorities, so at most one candidate can win the term.
pub proof fn lemma_at_most_one_majority<A>(voters1: Set<A>, voters2: Set<A>, cluster: Set<A>)
    requires
        cluster.finite(),
        voters1.subset_of(cluster),
        voters2.subset_of(cluster),
        voters1.disjoint(voters2),
        majority(voters1.len() as int, cluster.len() as int),
    ensures
        !majority(voters2.len() as int, cluster.len() as int),
{
    vstd::set_lib::lemma_len_subset(voters1, cluster);
    vstd::set_lib::lemma_len_subset(voters2, cluster);
    vstd::set_lib::lemma_set_disjoint_lens(voters1, voters2);
    assert(voters1.union(voters2).subset_of(cluster));
    vstd::set_lib::lemma_len_subset(voters1.union(voters2), cluster);
    assert(voters1.len() + voters2.len() <= cluster.len());
}

impl FollowerState {
    /// A fresh follower that has not voted in its term.
    pub fn new(last_heartbeat: u64, term: u32) -> (r: FollowerState)
        ensures
            r == (FollowerState { last_heartbeat, term, voted: false }),
    {
        FollowerState { last_heartbeat, term, voted: false }
    }

    /// Stand as a candidate once the leader has been silent longer than the
    /// election timeout.  The candidate enters the next term with its own
    /// vote already counted.  At the top of the term space the follower
    /// stays put.
    pub fn tick(&self, config: &RaftConfig, now: u64) -> (r: Option<State>)
        ensures
            r == if now > self.last_heartbeat + config.election_timeout_ms && self.term
                < u32::MAX {
                Some(
                    State::Candidate(
                        CandidateState {
                            has_voted: false,
                            yes_votes: 1,
                            no_votes: 0,
                            current_term: (self.term + 1) as u32,
                        },
                    ),
                )
            } else {
                None::<State>
            },
    {
        let elapsed = if now > self.last_heartbeat {
            now - self.last_heartbeat
        } else {
            0
        };
        if elapsed > config.election_timeout_ms && self.term < u32::MAX {
            Some(
                State::Candidate(
                    CandidateState {
                        has_voted: false,
                        yes_votes: 1,
                        no_votes: 0,
                        current_term: self.term + 1,
                    },
                ),
            )
        } else {
            None
        }
    }

    /// Handle one event as a follower: grant or deny votes, apply the
    /// leader's entries, and turn client operations away with `NotLeader`.
    pub fn on_message(&mut self, message: RaftEvent, now: u64, log: &mut NullDB) -> (r:
        RaftResponse)
        requires
            old(log).wf(),
            match message {
                RaftEvent::AppendEntriesRequest(req) => old(log).stamps_left()
                    >= req.entries@.len(),
                _ => true,
            },
        ensures
            final(log).wf(),
            final(log).engine() == old(log).engine(),
            old(log).fully_indexed() ==> final(log).fully_indexed(),
            final(self).term >= old(self).term,
            match message {
                RaftEvent::VoteRequest(req) => {
                    &&& (vote_granted(*old(self), req.term) ==> *final(self) == (FollowerState {
                        last_heartbeat: now,
                        term: req.term,
                        voted: true,
                    }))
                    &&& (!vote_granted(*old(self), req.term) ==> *final(self) == *old(self))
                    &&& r == RaftResponse::Vote(
                        VoteReply {
                            term: final(self).term,
                            vote_granted: vote_granted(*old(self), req.term),
                        },
                    )
                    &&& *final(log) == *old(log)
                },
                RaftEvent::AppendEntriesRequest(req) => {
                    if old(log).raft_index() + req.entries@.len() <= u64::MAX {
                        &&& final(log)@ == apply_entries(
                            old(log)@,
                            old(log).engine(),
                            req.entries@,
                            old(log).raft_index(),
                        )
                        &&& r == RaftResponse::AppendEntries(
                            AppendEntriesReply { term: old(self).term, success: true },
                        )
                        &&& *final(self) == (FollowerState {
                            last_heartbeat: now,
                            ..*old(self)
                        })
                    } else {
                        &&& *final(log) == *old(log)
                        &&& r == RaftResponse::AppendEntries(
                            AppendEntriesReply { term: old(self).term, success: false },
                        )
                        &&& *final(self) == *old(self)
                    }
                },
                RaftEvent::VoteReply(_) => r == RaftResponse::NoReply && *final(self) == *old(self)
                    && *final(log) == *old(log),
                RaftEvent::NewEntry { .. } => r == RaftResponse::Write(
                    Err(NullDbReadError::NotLeader),
                ) && *final(self) == *old(self) && *final(log) == *old(log),
                RaftEvent::GetEntry(_) => r == RaftResponse::Read(
                    Err(NullDbReadError::NotLeader),
                ) && *final(self) == *old(self) && *final(log) == *old(log),
            },
    {
        match message {
            RaftEvent::VoteRequest(req) => {
                if req.term > self.term || (req.term == self.term && !self.voted) {
                    self.term = req.term;
                    self.voted = true;
                    self.last_heartbeat = now;
                    RaftResponse::Vote(VoteReply { term: self.term, vote_granted: true })
                } else {
                    RaftResponse::Vote(VoteReply { term: self.term, vote_granted: false })
                }
            },
            RaftEvent::AppendEntriesRequest(req) => {
                let idx = log.get_current_raft_index();
                if req.entries.len() as u64 <= u64::MAX - idx {
                    let res = log.log_entries(req.entries, idx);
                    match res {
                        Ok(_) => {
                            self.last_heartbeat = now;
                            RaftResponse::AppendEntries(
                                AppendEntriesReply { term: self.term, success: true },
                            )
                        },
                        Err(_) => RaftResponse::AppendEntries(
                            AppendEntriesReply { term: self.term, success: false },
                        ),
                    }
                } else {
                    RaftResponse::AppendEntries(
                        AppendEntriesReply { term: self.term, success: false },
                    )
                }
            },
            RaftEvent::VoteReply(_) => RaftResponse::NoReply,
            RaftEvent::NewEntry { .. } => RaftResponse::Write(Err(NullDbReadError::NotLeader)),
            RaftEvent::GetEntry(_) => RaftResponse::Read(Err(NullDbReadError::NotLeader)),
        }
    }
}

// ---------------------------------------------------------------------------
// Candidate
// ---------------------------------------------------------------------------

/// A candidate: it asks the cluster for votes and tallies the replies.
pub struct CandidateState {
    /// Whether this candidate has already broadcast its vote requests.
    pub has_voted: bool,
    /// Granted votes, this node's own included.
    pub yes_votes: u32,
    /// Denied votes.
    pub no_votes: u32,
    pub current_term: u32,
}

impl CandidateState {
    /// A fresh candidacy for the term after `term`, with the candidate's
    /// own vote counted.
    pub fn new(term: u32) -> (r: CandidateState)
        requires
            term < u32::MAX,
        ensures
            r == (CandidateState {
                has_voted: false,
                yes_votes: 1,
                no_votes: 0,
                current_term: (term + 1) as u32,
            }),
    {
        CandidateState { has_voted: false, yes_votes: 1, no_votes: 0, current_term: term + 1 }
    }

    /// Broadcast vote requests on the first tick of the candidacy; later
    /// ticks wait for replies.
    pub fn tick(&mut self, config: &RaftConfig, last_log_index: u64) -> (r: Option<VoteRequest>)
        ensures
            old(self).has_voted ==> r is None && *final(self) == *old(self),
            !old(self).has_voted ==> {
                &&& *final(self) == (CandidateState { has_voted: true, ..*old(self) })
                &&& match r {
                    Some(req) => req.term == old(self).current_term && req.candidate_id@
                        == config.candidate_id@ && req.last_log_index == last_log_index
                        && req.last_log_term == old(self).current_term,
                    None => false,
                }
            },
    {
        if self.has_voted {
            None
        } else {
            self.has_voted = true;
            Some(
                VoteRequest {
                    term: self.current_term,
                    candidate_id: self.candidate_id_copy(config),
                    last_log_index,
                    last_log_term: self.current_term,
                },
            )
        }
    }

    /// A copy of the configured node id.
    fn candidate_id_copy(&self, config: &RaftConfig) -> (r: String)
        ensures
            r@ == config.candidate_id@,
    {
        config.candidate_id.clone()
    }

    /// Handle one event as a candidate: deny competing candidates, step
    /// down to a leader that already exists, tally vote replies, and turn
    /// client operations away with `NotLeader`.
    pub fn on_message(&mut self, message: RaftEvent, now: u64, config: &RaftConfig) -> (rr: (
        Option<State>,
        RaftResponse,
    ))
        ensures
            match message {
                RaftEvent::VoteRequest(_) => rr.0 is None && rr.1 == RaftResponse::Vote(
                    VoteReply { term: old(self).current_term, vote_granted: false },
                ) && *final(self) == *old(self),
                RaftEvent::AppendEntriesRequest(req) => {
                    &&& rr.1 == RaftResponse::AppendEntries(
                        AppendEntriesReply { term: old(self).current_term, success: true },
                    )
                    &&& rr.0 == Some(
                        State::Follower(
                            FollowerState {
                                last_heartbeat: now,
                                term: if req.term > old(self).current_term {
                                    req.term
                                } else {
                                    old(self).current_term
                                },
                                voted: true,
                            },
                        ),
                    )
                },
                RaftEvent::VoteReply(rep) => {
                    &&& rr.1 == RaftResponse::NoReply
                    &&& {
                        let yes2: u32 = if rep.vote_granted && old(self).yes_votes < u32::MAX {
                            (old(self).yes_votes + 1) as u32
                        } else {
                            old(self).yes_votes
                        };
                        let no2: u32 = if !rep.vote_granted && old(self).no_votes < u32::MAX {
                            (old(self).no_votes + 1) as u32
                        } else {
                            old(self).no_votes
                        };
                        if rep.term > old(self).current_term {
                            rr.0 == Some(
                                State::Follower(
                                    FollowerState {
                                        last_heartbeat: now,
                                        term: rep.term,
                                        voted: false,
                                    },
                                ),
                            )
                        } else if majority(yes2 as int, config.cluster_size()) {
                            rr.0 == Some(
                                State::Leader(
                                    LeaderState {
                                        term: old(self).current_term,
                                        log_index: 0,
                                        last_heartbeat: now,
                                    },
                                ),
                            )
                        } else if majority(no2 as int, config.cluster_size()) {
                            rr.0 == Some(
                                State::Follower(
                                    FollowerState {
                                        last_heartbeat: now,
                                        term: old(self).current_term,
                                        voted: true,
                                    },
                                ),
                            )
                        } else {
                            rr.0 is None && *final(self) == (CandidateState {
                                yes_votes: yes2,
                                no_votes: no2,
                                ..*old(self)
                            })
                        }
                    }
                },
                RaftEvent::NewEntry { .. } => rr.0 is None && rr.1 == RaftResponse::Write(
                    Err(NullDbReadError::NotLeader),
                ) && *final(self) == *old(self),
                RaftEvent::GetEntry(_) => rr.0 is None && rr.1 == RaftResponse::Read(
                    Err(NullDbReadError::NotLeader),
                ) && *final(self) == *old(self),
            },
    {
        match message {
            RaftEvent::VoteRequest(_) => {
                (
                    None,
                    RaftResponse::Vote(
                        VoteReply { term: self.current_term, vote_granted: false },
                    ),
                )
            },
            RaftEvent::AppendEntriesRequest(req) => {
                let new_term = if req.term > self.current_term {
                    req.term
                } else {
                    self.current_term
                };
                (
                    Some(
                        State::Follower(
                            FollowerState { last_heartbeat: now, term: new_term, voted: true },
                        ),
                    ),
                    RaftResponse::AppendEntries(
                        AppendEntriesReply { term: self.current_term, success: true },
                    ),
                )
            },
            RaftEvent::VoteReply(rep) => {
                if rep.vote_granted {
                    if self.yes_votes < u32::MAX {
                        self.yes_votes = self.yes_votes + 1;
                    }
                } else {
                    if self.no_votes < u32::MAX {
                        self.no_votes = self.no_votes + 1;
                    }
                }
                if rep.term > self.current_term {
                    (
                        Some(
                            State::Follower(
                                FollowerState {
                                    last_heartbeat: now,
                                    term: rep.term,
                                    voted: false,
                                },
                            ),
                        ),
                        RaftResponse::NoReply,
                    )
                } else if 2 * (self.yes_votes as u128) > config.roster.len() as u128 + 1 {
                    (
                        Some(
                            State::Leader(
                                LeaderState {
                                    term: self.current_term,
                                    log_index: 0,
                                    last_heartbeat: now,
                                },
                            ),
                        ),
                        RaftResponse::NoReply,
                    )
                } else if 2 * (self.no_votes as u128) > config.roster.len() as u128 + 1 {
                    (
                        Some(
                            State::Follower(
                                FollowerState {
                                    last_heartbeat: now,
                                    term: self.current_term,
                                    voted: true,
                                },
                            ),
                        ),
                        RaftResponse::NoReply,
                    )
                } else {
                    (None, RaftResponse::NoReply)
                }
            },
            RaftEvent::NewEntry { .. } => {
                (None, RaftResponse::Write(Err(NullDbReadError::NotLeader)))
            },
            RaftEvent::GetEntry(_) => {
                (None, RaftResponse::Read(Err(NullDbReadError::NotLeader)))
            },
        }
    }

}

// ---------------------------------------------------------------------------
// Leader
// ---------------------------------------------------------------------------

/// A leader: it accepts client writes, replicates them, and keeps the
/// cluster alive with heartbeats.
pub struct LeaderState {
    pub term: u32,
    /// The last logical index this leader assigned.
    pub log_index: u64,
    /// When the last heartbeat round was sent, caller's clock.
    pub last_heartbeat: u64,
}

impl LeaderState {
    /// A fresh leadership of `term`.
    pub fn new(last_heartbeat: u64, term: u32) -> (r: LeaderState)
        ensures
            r == (LeaderState { term, log_index: 0, last_heartbeat }),
    {
        LeaderState { term, log_index: 0, last_heartbeat }
    }

    /// Send an empty `AppendEntries` round once the heartbeat interval has
    /// elapsed.
    pub fn tick(&mut self, config: &RaftConfig, now: u64) -> (r: Option<AppendEntriesRequest>)
        ensures
            final(self).term == old(self).term,
            final(self).log_index == old(self).log_index,
            match r {
                Some(req) => now > old(self).last_heartbeat + config.heartbeat_interval_ms
                    && final(self).last_heartbeat == now && req.term == old(self).term
                    && req.leader_id@ == config.candidate_id@ && req.entries@.len() == 0
                    && req.prev_log_index == old(self).log_index && req.prev_log_term == old(
                    self,
                ).term && req.leader_commit == 0,
                None => !(now > old(self).last_heartbeat + config.heartbeat_interval_ms)
                    && *final(self) == *old(self),
            },
    {
        let elapsed = if now > self.last_heartbeat {
            now - self.last_heartbeat
        } else {
            0
        };
        if elapsed > config.heartbeat_interval_ms {
            self.last_heartbeat = now;
            Some(
                AppendEntriesRequest {
                    term: self.term,
                    leader_id: config.candidate_id.clone(),
                    prev_log_index: self.log_index,
                    prev_log_term: self.term,
                    entries: Vec::new(),
                    leader_commit: 0,
                },
            )
        } else {
            None
        }
    }

    /// Handle one event as a leader: step down to higher terms or to
    /// another leader, store and replicate client writes, and serve reads
    /// from the local store.
    pub fn on_message(
        &mut self,
        message: RaftEvent,
        now: u64,
        config: &RaftConfig,
        log: &mut NullDB,
    ) -> (rr: (Option<State>, RaftResponse))
        requires
            old(log).wf(),
            match message {
                RaftEvent::NewEntry { .. } => old(log).stamps_left() >= 1,
                _ => true,
            },
        ensures
            final(log).wf(),
            final(log).engine() == old(log).engine(),
            old(log).fully_indexed() ==> final(log).fully_indexed(),
            final(self).term >= old(self).term,
            match message {
                RaftEvent::VoteRequest(req) => {
                    &&& *final(log) == *old(log)
                    &&& if req.term > old(self).term {
                        &&& rr.1 == RaftResponse::Vote(
                            VoteReply { term: req.term, vote_granted: true },
                        )
                        &&& rr.0 == Some(
                            State::Follower(
                                FollowerState { last_heartbeat: now, term: req.term, voted: true },
                            ),
                        )
                    } else {
                        &&& rr.1 == RaftResponse::Vote(
                            VoteReply { term: old(self).term, vote_granted: false },
                        )
                        &&& rr.0 is None
                        &&& *final(self) == *old(self)
                    }
                },
                RaftEvent::AppendEntriesRequest(req) => {
                    &&& *final(log) == *old(log)
                    &&& rr.1 == RaftResponse::AppendEntries(
                        AppendEntriesReply { term: old(self).term, success: true },
                    )
                    &&& rr.0 == Some(
                        State::Follower(
                            FollowerState {
                                last_heartbeat: now,
                                term: if req.term > old(self).term {
                                    req.term
                                } else {
                                    old(self).term
                                },
                                voted: true,
                            },
                        ),
                    )
                },
                RaftEvent::VoteReply(_) => rr.0 is None && rr.1 == RaftResponse::NoReply
                    && *final(self) == *old(self) && *final(log) == *old(log),
                RaftEvent::NewEntry { key, value } => {
                    &&& rr.0 is None
                    &&& if old(log).raft_index() < u64::MAX {
                        // the write is applied locally and handed back for
                        // replication, whatever the peers then answer
                        &&& final(log)@ == old(log)@.insert(
                            key@,
                            record_v(
                                old(log).engine(),
                                key@,
                                (old(log).raft_index() + 1) as u64,
                                None,
                                Some(value@),
                            ),
                        )
                        &&& match rr.1 {
                            RaftResponse::Replicate(req) => {
                                &&& req.term == old(self).term
                                &&& req.entries@.len() == 1
                                &&& req.entries@[0].key@ == key@
                                &&& req.entries@[0].value@ == value@
                            },
                            _ => false,
                        }
                    } else {
                        rr.1 == RaftResponse::Write(Err(NullDbReadError::IOError))
                            && *final(log) == *old(log)
                    }
                },
                RaftEvent::GetEntry(k) => {
                    &&& rr.0 is None
                    &&& *final(log) == *old(log)
                    &&& match rr.1 {
                        RaftResponse::Read(res) => match res {
                            Ok(rec) => old(log)@.contains_key(k@) && rec@ == old(log)@[k@]
                                && !old(log)@[k@].is_tombstone(),
                            Err(NullDbReadError::ValueDeleted) => old(log)@.contains_key(k@)
                                && old(log)@[k@].is_tombstone(),
                            Err(NullDbReadError::ValueNotFound) => !old(log)@.contains_key(k@),
                            Err(NullDbReadError::Corrupted) => !old(log).fully_indexed(),
                            _ => false,
                        },
                        _ => false,
                    }
                },
            },
    {
        match message {
            RaftEvent::VoteRequest(req) => {
                if req.term > self.term {
                    self.term = req.term;
                    (
                        Some(
                            State::Follower(
                                FollowerState { last_heartbeat: now, term: req.term, voted: true },
                            ),
                        ),
                        RaftResponse::Vote(VoteReply { term: req.term, vote_granted: true }),
                    )
                } else {
                    (
                        None,
                        RaftResponse::Vote(VoteReply { term: self.term, vote_granted: false }),
                    )
                }
            },
            RaftEvent::AppendEntriesRequest(req) => {
                let new_term = if req.term > self.term {
                    req.term
                } else {
                    self.term
                };
                (
                    Some(
                        State::Follower(
                            FollowerState { last_heartbeat: now, term: new_term, voted: true },
                        ),
                    ),
                    RaftResponse::AppendEntries(
                        AppendEntriesReply { term: self.term, success: true },
                    ),
                )
            },
            RaftEvent::VoteReply(_) => (None, RaftResponse::NoReply),
            RaftEvent::NewEntry { key, value } => {
                let idx = log.get_current_raft_index();
                if idx == u64::MAX {
                    return (None, RaftResponse::Write(Err(NullDbReadError::IOError)));
                }
                let key_copy = key.clone();
                let value_copy = value.clone();
                let res = log.log(key, value, idx);
                match res {
                    Ok(_) => {},
                    Err(_) => {
                        proof {
                            assert(false);
                        }
                    },
                }
                self.log_index = idx + 1;
                let mut entries: Vec<LogEntry> = Vec::new();
                entries.push(LogEntry { key: key_copy, value: value_copy });
                (
                    None,
                    RaftResponse::Replicate(
                        AppendEntriesRequest {
                            term: self.term,
                            leader_id: config.candidate_id.clone(),
                            prev_log_index: self.log_index,
                            prev_log_term: self.term,
                            entries,
                            leader_commit: 0,
                        },
                    ),
                )
            },
            RaftEvent::GetEntry(k) => {
                let res = log.get_value_for_key(k.as_str());
                (None, RaftResponse::Read(res))
            },
        }
    }
}

// ---------------------------------------------------------------------------
// The node
// ---------------------------------------------------------------------------

/// One of the three roles a node can hold.
pub enum State {
    Follower(FollowerState),
    Candidate(CandidateState),
    Leader(LeaderState),
}

/// The term a state carries.
pub open spec fn term_of(s: State) -> u32 {
    match s {
        State::Follower(f) => f.term,
        State::Candidate(c) => c.current_term,
        State::Leader(l) => l.term,
    }
}

/// One consensus node: its role, its peers, and its local store — the only
/// write path into that store for replicated entries.
pub struct RaftNode {
    state: State,
    config: RaftConfig,
    log: NullDB,
}

impl RaftNode {
    /// The node's current role.
    pub closed spec fn state_of(self) -> State {
        self.state
    }

    /// The node's local store.
    pub closed spec fn store(self) -> NullDB {
        self.log
    }

    /// The node's configuration.
    pub closed spec fn config_of(self) -> RaftConfig {
        self.config
    }

    /// The node's standing invariant: its store is well formed.
    pub open spec fn inv(self) -> bool {
        self.store().wf()
    }

    /// A fresh node: a follower at term zero over the given store.  Drive
    /// it with a monotonic millisecond clock that starts near zero.
    pub fn new(config: RaftConfig, log: NullDB) -> (r: RaftNode)
        requires
            log.wf(),
        ensures
            r.inv(),
            r.state_of() == State::Follower(
                FollowerState { last_heartbeat: 0, term: 0, voted: false },
            ),
            r.store() == log,
            r.config_of() == config,
    {
        RaftNode {
            state: State::Follower(FollowerState { last_heartbeat: 0, term: 0, voted: false }),
            config,
            log,
        }
    }

    /// Read access to the local store, for the surrounding request layer.
    pub fn store_ref(&self) -> (r: &NullDB)
        ensures
            r == self.store(),
    {
        &self.log
    }

    /// Whether the node currently leads.
    pub fn is_leader(&self) -> (r: bool)
        ensures
            r == (self.state_of() is Leader),
    {
        match &self.state {
            State::Leader(_) => true,
            _ => false,
        }
    }

    /// Whether the node currently follows.
    pub fn is_follower(&self) -> (r: bool)
        ensures
            r == (self.state_of() is Follower),
    {
        match &self.state {
            State::Follower(_) => true,
            _ => false,
        }
    }

    /// Whether the node currently stands for election.
    pub fn is_candidate(&self) -> (r: bool)
        ensures
            r == (self.state_of() is Candidate),
    {
        match &self.state {
            State::Candidate(_) => true,
            _ => false,
        }
    }

    /// The node's current term.
    pub fn current_term(&self) -> (r: u32)
        ensures
            r == term_of(self.state_of()),
    {
        match &self.state {
            State::Follower(f) => f.term,
            State::Candidate(c) => c.current_term,
            State::Leader(l) => l.term,
        }
    }

    /// Write access to the local store, for deletes and compaction driven
    /// by the surrounding request layer.  Every public store operation
    /// preserves the store's well-formedness, so the node's invariant
    /// survives any use of this handle.
    pub fn store_mut(&mut self) -> (r: &mut NullDB)
        ensures
            *r == old(self).store(),
            final(self).store() == *final(r),
            final(self).state_of() == old(self).state_of(),
            final(self).config_of() == old(self).config_of(),
    {
        &mut self.log
    }

    /// Advance the node's clock: followers may stand for election, new
    /// candidates broadcast their vote requests, leaders send heartbeats.
    pub fn tick(&mut self, now: u64) -> (r: RaftAction)
        requires
            old(self).inv(),
        ensures
            final(self).inv(),
            final(self).store() == old(self).store(),
            final(self).config_of() == old(self).config_of(),
            term_of(final(self).state_of()) >= term_of(old(self).state_of()),
            match old(self).state_of() {
                State::Follower(f) => {
                    &&& r is Idle
                    &&& final(self).state_of() == if now > f.last_heartbeat + old(
                        self,
                    ).config_of().election_timeout_ms && f.term < u32::MAX {
                        State::Candidate(
                            CandidateState {
                                has_voted: false,
                                yes_votes: 1,
                                no_votes: 0,
                                current_term: (f.term + 1) as u32,
                            },
                        )
                    } else {
                        old(self).state_of()
                    }
                },
                State::Candidate(c) => {
                    &&& (!c.has_voted ==> (match r {
                        RaftAction::RequestVotes(req) => {
                            &&& req.term == c.current_term
                            &&& req.candidate_id@ == old(self).config_of().candidate_id@
                            &&& req.last_log_index == old(self).store().raft_index()
                            &&& req.last_log_term == c.current_term
                        },
                        _ => false,
                    }) && final(self).state_of() == State::Candidate(
                        CandidateState { has_voted: true, ..c },
                    ))
                    &&& (c.has_voted ==> r is Idle && final(self).state_of() == old(
                        self,
                    ).state_of())
                },
                State::Leader(l) => {
                    &&& (now > l.last_heartbeat + old(self).config_of().heartbeat_interval_ms
                        ==> (match r {
                        RaftAction::Heartbeat(req) => {
                            &&& req.term == l.term
                            &&& req.leader_id@ == old(self).config_of().candidate_id@
                            &&& req.entries@.len() == 0
                            &&& req.prev_log_index == l.log_index
                            &&& req.prev_log_term == l.term
                            &&& req.leader_commit == 0
                        },
                        _ => false,
                    }) && final(self).state_of() == State::Leader(
                        LeaderState { last_heartbeat: now, ..l },
                    ))
                    &&& (!(now > l.last_heartbeat + old(self).config_of().heartbeat_interval_ms)
                        ==> r is Idle && final(self).state_of() == old(self).state_of())
                },
            },
    {
        let last_log_index = self.log.get_current_raft_index();
        let next_and_action: (Option<State>, RaftAction) = match &mut self.state {
            State::Follower(f) => {
                let next = f.tick(&self.config, now);
                (next, RaftAction::Idle)
            },
            State::Candidate(c) => {
                match c.tick(&self.config, last_log_index) {
                    Some(req) => (None, RaftAction::RequestVotes(req)),
                    None => (None, RaftAction::Idle),
                }
            },
            State::Leader(l) => {
                match l.tick(&self.config, now) {
                    Some(req) => (None, RaftAction::Heartbeat(req)),
                    None => (None, RaftAction::Idle),
                }
            },
        };
        let (next, action) = next_and_action;
        match next {
            Some(s) => {
                self.state = s;
            },
            None => {},
        }
        action
    }

    /// Feed the node one event and take its answer.  Client operations
    /// sent to a node that is not the leader answer `NotLeader`; a write
    /// accepted by the leader is stored locally and handed back as a
    /// `Replicate` request for the caller to broadcast.
    pub fn on_message(&mut self, message: RaftEvent, now: u64) -> (r: RaftResponse)
        requires
            old(self).inv(),
            old(self).store().stamps_left() >= match message {
                RaftEvent::AppendEntriesRequest(req) => req.entries@.len() as int,
                RaftEvent::NewEntry { .. } => 1,
                _ => 0,
            },
        ensures
            final(self).inv(),
            final(self).config_of() == old(self).config_of(),
            final(self).store().engine() == old(self).store().engine(),
            old(self).store().fully_indexed() ==> final(self).store().fully_indexed(),
            term_of(final(self).state_of()) >= term_of(old(self).state_of()),
            // a write or read sent to a non-leader answers NotLeader and
            // changes nothing
            !(old(self).state_of() is Leader) ==> match message {
                RaftEvent::NewEntry { .. } => r == RaftResponse::Write(
                    Err(NullDbReadError::NotLeader),
                ) && final(self).store() == old(self).store(),
                RaftEvent::GetEntry(_) => r == RaftResponse::Read(
                    Err(NullDbReadError::NotLeader),
                ) && final(self).store() == old(self).store(),
                _ => true,
            },
            // a follower grants each term's vote once
            match old(self).state_of() {
                State::Follower(f) => match message {
                    RaftEvent::VoteRequest(req) => {
                        &&& r == RaftResponse::Vote(
                            VoteReply {
                                term: if vote_granted(f, req.term) {
                                    req.term
                                } else {
                                    f.term
                                },
                                vote_granted: vote_granted(f, req.term),
                            },
                        )
                        &&& final(self).state_of() == State::Follower(
                            if vote_granted(f, req.term) {
                                FollowerState { last_heartbeat: now, term: req.term, voted: true }
                            } else {
                                f
                            },
                        )
                        &&& final(self).store() == old(self).store()
                    },
                    _ => true,
                },
                _ => true,
            },
            // a follower applies the leader's entries and acknowledges
            match old(self).state_of() {
                State::Follower(f) => match message {
                    RaftEvent::AppendEntriesRequest(req) => {
                        if old(self).store().raft_index() + req.entries@.len() <= u64::MAX {
                            &&& final(self).store()@ == apply_entries(
                                old(self).store()@,
                                old(self).store().engine(),
                                req.entries@,
                                old(self).store().raft_index(),
                            )
                            &&& r == RaftResponse::AppendEntries(
                                AppendEntriesReply { term: f.term, success: true },
                            )
                        } else {
                            r == RaftResponse::AppendEntries(
                                AppendEntriesReply { term: f.term, success: false },
                            )
                        }
                    },
                    _ => true,
                },
                _ => true,
            },
            // a candidate wins with a majority of granted votes, loses to a
            // majority of denials or a higher term, and yields to a leader
            // that already exists
            match old(self).state_of() {
                State::Candidate(c) => match message {
                    RaftEvent::VoteRequest(_) => {
                        &&& r == RaftResponse::Vote(
                            VoteReply { term: c.current_term, vote_granted: false },
                        )
                        &&& final(self).state_of() == old(self).state_of()
                        &&& final(self).store() == old(self).store()
                    },
                    RaftEvent::AppendEntriesRequest(_) => final(self).state_of() is Follower,
                    RaftEvent::VoteReply(rep) => {
                        let yes2: u32 = if rep.vote_granted && c.yes_votes < u32::MAX {
                            (c.yes_votes + 1) as u32
                        } else {
                            c.yes_votes
                        };
                        let no2: u32 = if !rep.vote_granted && c.no_votes < u32::MAX {
                            (c.no_votes + 1) as u32
                        } else {
                            c.no_votes
                        };
                        if rep.term > c.current_term {
                            final(self).state_of() == State::Follower(
                                FollowerState { last_heartbeat: now, term: rep.term, voted: false },
                            )
                        } else if majority(yes2 as int, old(self).config_of().cluster_size()) {
                            final(self).state_of() == State::Leader(
                                LeaderState {
                                    term: c.current_term,
                                    log_index: 0,
                                    last_heartbeat: now,
                                },
                            )
                        } else if majority(no2 as int, old(self).config_of().cluster_size()) {
                            final(self).state_of() == State::Follower(
                                FollowerState {
                                    last_heartbeat: now,
                                    term: c.current_term,
                                    voted: true,
                                },
                            )
                        } else {
                            final(self).state_of() == State::Candidate(
                                CandidateState { yes_votes: yes2, no_votes: no2, ..c },
                            )
                        }
                    },
                    _ => true,
                },
                _ => true,
            },
            // a leader yields to a higher term or to another leader
            match old(self).state_of() {
                State::Leader(l) => match message {
                    RaftEvent::AppendEntriesRequest(_) => final(self).state_of() is Follower,
                    RaftEvent::VoteRequest(req) => {
                        &&& (req.term > l.term ==> final(self).state_of() == State::Follower(
                            FollowerState { last_heartbeat: now, term: req.term, voted: true },
                        ) && r == RaftResponse::Vote(
                            VoteReply { term: req.term, vote_granted: true },
                        ))
                        &&& (!(req.term > l.term) ==> final(self).state_of() == old(
                            self,
                        ).state_of() && r == RaftResponse::Vote(
                            VoteReply { term: l.term, vote_granted: false },
                        ))
                    },
                    _ => true,
                },
                _ => true,
            },
            // the leader stores a write locally and hands it back to be
            // replicated, whatever the peers then answer
            match old(self).state_of() {
                State::Leader(l) => match message {
                    RaftEvent::NewEntry { key, value } => {
                        if old(self).store().raft_index() < u64::MAX {
                            &&& final(self).store()@ == old(self).store()@.insert(
                                key@,
                                record_v(
                                    old(self).store().engine(),
                                    key@,
                                    (old(self).store().raft_index() + 1) as u64,
                                    None,
                                    Some(value@),
                                ),
                            )
                            &&& match r {
                                RaftResponse::Replicate(req) => {
                                    &&& req.term == l.term
                                    &&& req.entries@.len() == 1
                                    &&& req.entries@[0].key@ == key@
                                    &&& req.entries@[0].value@ == value@
                                },
                                _ => false,
                            }
                        } else {
                            r == RaftResponse::Write(Err(NullDbReadError::IOError))
                        }
                    },
                    RaftEvent::GetEntry(k) => match r {
                        RaftResponse::Read(res) => match res {
                            Ok(rec) => old(self).store()@.contains_key(k@) && rec@ == old(
                                self,
                            ).store()@[k@] && !old(self).store()@[k@].is_tombstone(),
                            Err(NullDbReadError::ValueDeleted) => old(
                                self,
                            ).store()@.contains_key(k@) && old(self).store()@[k@].is_tombstone(),
                            Err(NullDbReadError::ValueNotFound) => !old(
                                self,
                            ).store()@.contains_key(k@),
                            Err(NullDbReadError::Corrupted) => !old(self).store().fully_indexed(),
                            _ => false,
                        },
                        _ => false,
                    },
                    _ => true,
                },
                _ => true,
            },
    {
        let next_and_reply: (Option<State>, RaftResponse) = match &mut self.state {
            State::Follower(f) => {
                let reply = f.on_message(message, now, &mut self.log);
                (None, reply)
            },
            State::Candidate(c) => c.on_message(message, now, &self.config),
            State::Leader(l) => l.on_message(message, now, &self.config, &mut self.log),
        };
        let (next, reply) = next_and_reply;
        match next {
            Some(s) => {
                self.state = s;
            },
            None => {},
        }
        reply
    }

    /// Settle a replicated write: the leader's own copy counts, and the
    /// write stands once strictly more than half the cluster holds it;
    /// otherwise the client is told the write reached the leader but not a
    /// majority.
    pub fn replication_outcome(&self, acks: usize) -> (r: Result<(), NullDbReadError>)
        ensures
            r is Ok <==> majority(acks + 1, self.config_of().cluster_size()),
            r is Err ==> r == Err::<(), NullDbReadError>(NullDbReadError::FailedToReplicate),
    {
        let a = acks as u128;
        let n = self.config.roster.len() as u128;
        if 2 * (a + 1) > n + 1 {
            Ok(())
        } else {
            Err(NullDbReadError::FailedToReplicate)
        }
    }
}

} // verus!
