//! The state of a Raft consensus node.

use vstd::prelude::*;

verus! {

/// The id of a node.
pub type NodeId = u64;

/// An error of the Raft node.
#[derive(Debug)]
pub enum RaftError {
    /// Storage error
    Storage(String),
    /// Transport error
    Transport(String),
    /// Invalid state
    InvalidState(String),
    /// Invalid term
    InvalidTerm(String),
}

/// The role of a node.
#[derive(Debug, Clone, Copy, PartialEq, Eq, Structural)]
pub enum Role {
    /// Follows a leader.
    Follower,
    /// Stands for election.
    Candidate,
    /// Leads the cluster.
    Leader,
}

/// The persistent and volatile state of a node.
#[derive(Debug)]
pub struct RaftState {
    /// The latest term the node has seen.
    pub current_term: u64,
    /// The node voted for in the current term, if any.
    pub voted_for: Option<NodeId>,
    /// The highest log entry known to be committed.
    pub commit_index: u64,
    /// The highest log entry applied.
    pub last_applied: u64,
    /// Leader only: next index to send to each follower
    pub next_index: Vec<u64>,
    /// Leader only: highest log entry known to be replicated
    pub match_index: Vec<u64>,
}

/// The timing of a node, in milliseconds.
#[derive(Debug)]
pub struct RaftConfig {
    /// The shortest election timeout, in milliseconds.
    pub election_timeout_min: u64,
    /// The longest election timeout, in milliseconds.
    pub election_timeout_max: u64,
    /// The interval between heartbeats, in milliseconds.
    pub heartbeat_interval: u64,
}

impl RaftConfig {
    /// The default timing: election timeouts between 150 and 300 milliseconds, heartbeats
    /// every 50 milliseconds.
    pub fn default_config() -> (c: RaftConfig)
        ensures
            c.election_timeout_min == 150,
            c.election_timeout_max == 300,
            c.heartbeat_interval == 50,
    {
        RaftConfig { election_timeout_min: 150, election_timeout_max: 300, heartbeat_interval: 50 }
    }
}

impl RaftState {
    /// The state of a node that has just started: term 0, no vote, nothing committed or
    /// applied, no follower indices.
    pub fn initial() -> (s: RaftState)
        ensures
            s.current_term == 0,
            s.voted_for is None,
            s.commit_index == 0,
            s.last_applied == 0,
            s.next_index@.len() == 0,
            s.match_index@.len() == 0,
    {
        RaftState {
            current_term: 0,
            voted_for: None,
            commit_index: 0,
            last_applied: 0,
            next_index: Vec::new(),
            match_index: Vec::new(),
        }
    }

    /// Takes the term and vote read back from storage when the node starts.
    pub fn restore(&mut self, term: u64, voted_for: Option<NodeId>)
        ensures
            final(self).current_term == term,
            final(self).voted_for == voted_for,
            final(self).commit_index == old(self).commit_index,
            final(self).last_applied == old(self).last_applied,
            final(self).next_index@ == old(self).next_index@,
            final(self).match_index@ == old(self).match_index@,
    {
        self.current_term = term;
        self.voted_for = voted_for;
    }
}

} // verus!
