//! The state that a Raft group keeps between restarts, and the bytes it is stored as:
//! four integers of eight octets each, most significant octet first.

use vstd::prelude::*;
use crate::errors::Error;
use crate::keys::{be64, be64_value, lemma_be64_value, push_be64, read_be64};

verus! {

/// What a Raft peer must remember: its term, its vote and the index it has committed.
#[derive(Clone, Copy, Debug, PartialEq, Eq, Structural)]
pub struct HardState {
    pub term: u64,
    pub vote: u64,
    pub commit: u64,
}

/// The state of a Raft group as the engine stores it.
#[derive(Clone, Copy, Debug, PartialEq, Eq, Structural)]
pub struct RaftLocalState {
    pub hard_state: HardState,
    pub last_index: u64,
}

/// The number of bytes of a stored state.
pub const RAFT_STATE_LEN: usize = 32;

/// The bytes that a state is stored as.
pub open spec fn state_encoding(s: RaftLocalState) -> Seq<u8> {
    be64(s.hard_state.term) + be64(s.hard_state.vote) + be64(s.hard_state.commit) + be64(
        s.last_index,
    )
}

/// The state that stored bytes spell; none where they are not as many as a state takes.
pub open spec fn state_decoding(bytes: Seq<u8>) -> Option<RaftLocalState> {
    if bytes.len() == RAFT_STATE_LEN {
        Some(
            RaftLocalState {
                hard_state: HardState {
                    term: be64_value(bytes.subrange(0, 8)),
                    vote: be64_value(bytes.subrange(8, 16)),
                    commit: be64_value(bytes.subrange(16, 24)),
                },
                last_index: be64_value(bytes.subrange(24, 32)),
            },
        )
    } else {
        None
    }
}

/// A state written and read back is the state that was written.
pub proof fn lemma_state_round_trip(s: RaftLocalState)
    ensures
        state_decoding(state_encoding(s)) == Some(s),
{
    let bytes = state_encoding(s);
    assert(bytes.len() == 32);
    assert(bytes.subrange(0, 8) =~= be64(s.hard_state.term));
    assert(bytes.subrange(8, 16) =~= be64(s.hard_state.vote));
    assert(bytes.subrange(16, 24) =~= be64(s.hard_state.commit));
    assert(bytes.subrange(24, 32) =~= be64(s.last_index));
    lemma_be64_value(s.hard_state.term);
    lemma_be64_value(s.hard_state.vote);
    lemma_be64_value(s.hard_state.commit);
    lemma_be64_value(s.last_index);
}

impl RaftLocalState {
    /// The state of a group that has neither voted nor logged anything.
    pub fn new() -> (s: RaftLocalState)
        ensures
            s == (RaftLocalState {
                hard_state: HardState { term: 0, vote: 0, commit: 0 },
                last_index: 0,
            }),
    {
        RaftLocalState { hard_state: HardState { term: 0, vote: 0, commit: 0 }, last_index: 0 }
    }

    /// Writes the state as bytes.
    pub fn encode(&self) -> (bytes: Vec<u8>)
        ensures
            bytes@ == state_encoding(*self),
    {
        let mut bytes: Vec<u8> = Vec::with_capacity(RAFT_STATE_LEN);
        assert(bytes@ =~= Seq::<u8>::empty());
        push_be64(&mut bytes, self.hard_state.term);
        push_be64(&mut bytes, self.hard_state.vote);
        push_be64(&mut bytes, self.hard_state.commit);
        push_be64(&mut bytes, self.last_index);
        assert(bytes@ =~= state_encoding(*self));
        bytes
    }

    /// Reads a state from bytes. Bytes that are not as many as a state takes are refused.
    pub fn decode(bytes: &[u8]) -> (r: Result<RaftLocalState, Error>)
        ensures
            match r {
                Ok(s) => state_decoding(bytes@) == Some(s),
                Err(e) => state_decoding(bytes@) is None && e is Codec,
            },
    {
        if bytes.len() != RAFT_STATE_LEN {
            return Err(Error::Codec("stored raft state has a wrong length".to_string()));
        }
        let term = read_be64(bytes, 0);
        let vote = read_be64(bytes, 8);
        let commit = read_be64(bytes, 16);
        let last_index = read_be64(bytes, 24);
        Ok(RaftLocalState { hard_state: HardState { term, vote, commit }, last_index })
    }
}

} // verus!
