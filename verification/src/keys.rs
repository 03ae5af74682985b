//! The byte layout of the keys under which the state and the log of a Raft group are kept.
//!
//! Every integer in a key is written as eight octets, most significant first, so that
//! keys sort like the numbers they hold.

use vstd::prelude::*;
use crate::errors::Error;
use crate::lex::{lemma_lex_common_prefix, lex_lt, lt_from};

verus! {

/// The key of the record that identifies the local store.
pub const STORE_IDENT_KEY: [u8; 2] = [0x01, 0x01];

/// The key of the marker left while a cluster bootstrap is pending.
pub const PREPARE_BOOTSTRAP_KEY: [u8; 2] = [0x01, 0x02];

/// The octets before the group in every log key.
pub const RAFT_LOG_PREFIX: [u8; 2] = [0x01, 0x03];

/// The octets before the group in every state key.
pub const RAFT_STATE_PREFIX: [u8; 2] = [0x01, 0x04];

/// The length of a log key: prefix, group and index.
pub const RAFT_LOG_KEY_LEN: usize = 18;

/// The octet of `x` at position `i`, position 0 holding the most significant one.
pub open spec fn be_octet(x: u64, i: int) -> u8 {
    ((x >> ((8 * (7 - i)) as u64)) & 0xff) as u8
}

/// The eight octets of `x`, most significant first.
pub open spec fn be64(x: u64) -> Seq<u8> {
    Seq::new(8, |i: int| be_octet(x, i))
}

/// The number that eight octets spell, most significant first.
pub open spec fn be64_value(b: Seq<u8>) -> u64
    recommends
        b.len() == 8,
{
    ((b[0] as u64) << 56) | ((b[1] as u64) << 48) | ((b[2] as u64) << 40) | ((b[3] as u64) << 32)
        | ((b[4] as u64) << 24) | ((b[5] as u64) << 16) | ((b[6] as u64) << 8) | (b[7] as u64)
}

pub open spec fn log_prefix_octets() -> Seq<u8> {
    seq![0x01u8, 0x03u8]
}

pub open spec fn state_prefix_octets() -> Seq<u8> {
    seq![0x01u8, 0x04u8]
}

/// The key of the state record of `group`.
pub open spec fn state_key(group: u64) -> Seq<u8> {
    state_prefix_octets() + be64(group)
}

/// What every log key of `group` begins with.
pub open spec fn log_prefix(group: u64) -> Seq<u8> {
    log_prefix_octets() + be64(group)
}

/// The key of the log entry of `group` at `index`.
pub open spec fn log_key(group: u64, index: u64) -> Seq<u8> {
    log_prefix(group) + be64(index)
}

/// The index that a log key holds in its last eight octets, if the key is long enough to
/// hold a prefix, a group and an index.
pub open spec fn log_index(key: Seq<u8>) -> Option<u64> {
    if key.len() >= RAFT_LOG_KEY_LEN {
        Some(be64_value(key.subrange(key.len() - 8, key.len() as int)))
    } else {
        None
    }
}

proof fn lemma_octets_in_range(x: u64)
    ensures
        (x >> 56) & 0xff < 256,
        (x >> 48) & 0xff < 256,
        (x >> 40) & 0xff < 256,
        (x >> 32) & 0xff < 256,
        (x >> 24) & 0xff < 256,
        (x >> 16) & 0xff < 256,
        (x >> 8) & 0xff < 256,
        (x >> 0) & 0xff < 256,
{
    assert((x >> 56) & 0xff < 256 && (x >> 48) & 0xff < 256 && (x >> 40) & 0xff < 256 && (x >> 32)
        & 0xff < 256 && (x >> 24) & 0xff < 256 && (x >> 16) & 0xff < 256 && (x >> 8) & 0xff < 256
        && (x >> 0) & 0xff < 256) by (bit_vector);
}

/// Reading back the eight octets of a number gives the number.
pub proof fn lemma_be64_value(x: u64)
    ensures
        be64_value(be64(x)) == x,
{
    lemma_octets_in_range(x);
    let b = be64(x);
    assert(b[0] as u64 == (x >> 56) & 0xff);
    assert(b[1] as u64 == (x >> 48) & 0xff);
    assert(b[2] as u64 == (x >> 40) & 0xff);
    assert(b[3] as u64 == (x >> 32) & 0xff);
    assert(b[4] as u64 == (x >> 24) & 0xff);
    assert(b[5] as u64 == (x >> 16) & 0xff);
    assert(b[6] as u64 == (x >> 8) & 0xff);
    assert(b[7] as u64 == (x >> 0) & 0xff);
    assert((((x >> 56) & 0xff) << 56) | (((x >> 48) & 0xff) << 48) | (((x >> 40) & 0xff) << 40)
        | (((
    x >> 32) & 0xff) << 32) | (((x >> 24) & 0xff) << 24) | (((x >> 16) & 0xff) << 16) | (((x >> 8)
        & 0xff) << 8) | ((x >> 0) & 0xff) == x) by (bit_vector);
}

/// Eight-octet encodings sort like the numbers they encode.
pub proof fn lemma_be64_order(x: u64, y: u64)
    ensures
        lex_lt(be64(x), be64(y)) == (x < y),
        (be64(x) == be64(y)) == (x == y),
{
    lemma_octets_in_range(x);
    lemma_octets_in_range(y);
    let a = be64(x);
    let b = be64(y);
    assert(a[0] as u64 == (x >> 56) & 0xff && b[0] as u64 == (y >> 56) & 0xff);
    assert(a[1] as u64 == (x >> 48) & 0xff && b[1] as u64 == (y >> 48) & 0xff);
    assert(a[2] as u64 == (x >> 40) & 0xff && b[2] as u64 == (y >> 40) & 0xff);
    assert(a[3] as u64 == (x >> 32) & 0xff && b[3] as u64 == (y >> 32) & 0xff);
    assert(a[4] as u64 == (x >> 24) & 0xff && b[4] as u64 == (y >> 24) & 0xff);
    assert(a[5] as u64 == (x >> 16) & 0xff && b[5] as u64 == (y >> 16) & 0xff);
    assert(a[6] as u64 == (x >> 8) & 0xff && b[6] as u64 == (y >> 8) & 0xff);
    assert(a[7] as u64 == (x >> 0) & 0xff && b[7] as u64 == (y >> 0) & 0xff);
    assert((x < y) == ({
        let x0 = (x >> 56) & 0xff;
        let y0 = (y >> 56) & 0xff;
        let x1 = (x >> 48) & 0xff;
        let y1 = (y >> 48) & 0xff;
        let x2 = (x >> 40) & 0xff;
        let y2 = (y >> 40) & 0xff;
        let x3 = (x >> 32) & 0xff;
        let y3 = (y >> 32) & 0xff;
        let x4 = (x >> 24) & 0xff;
        let y4 = (y >> 24) & 0xff;
        let x5 = (x >> 16) & 0xff;
        let y5 = (y >> 16) & 0xff;
        let x6 = (x >> 8) & 0xff;
        let y6 = (y >> 8) & 0xff;
        let x7 = (x >> 0) & 0xff;
        let y7 = (y >> 0) & 0xff;
        if x0 != y0 {
            x0 < y0
        } else if x1 != y1 {
            x1 < y1
        } else if x2 != y2 {
            x2 < y2
        } else if x3 != y3 {
            x3 < y3
        } else if x4 != y4 {
            x4 < y4
        } else if x5 != y5 {
            x5 < y5
        } else if x6 != y6 {
            x6 < y6
        } else {
            x7 < y7
        }
    })) by (bit_vector);
    reveal_with_fuel(lt_from, 9);
    if x == y {
        assert(a =~= b);
    }
    if a == b {
        lemma_be64_value(x);
        lemma_be64_value(y);
    }
}

/// Appends the eight octets of `x`, most significant first.
pub fn push_be64(buf: &mut Vec<u8>, x: u64)
    ensures
        final(buf)@ == old(buf)@ + be64(x),
{
    proof {
        lemma_octets_in_range(x);
    }
    buf.push(((x >> 56) & 0xff) as u8);
    buf.push(((x >> 48) & 0xff) as u8);
    buf.push(((x >> 40) & 0xff) as u8);
    buf.push(((x >> 32) & 0xff) as u8);
    buf.push(((x >> 24) & 0xff) as u8);
    buf.push(((x >> 16) & 0xff) as u8);
    buf.push(((x >> 8) & 0xff) as u8);
    buf.push(((x >> 0) & 0xff) as u8);
    assert(buf@ =~= old(buf)@ + be64(x));
}

/// Reads the number that the eight octets of `key` from `at` on spell.
pub fn read_be64(key: &[u8], at: usize) -> (x: u64)
    requires
        at + 8 <= key@.len(),
    ensures
        x == be64_value(key@.subrange(at as int, at + 8)),
{
    let x: u64 = ((key[at] as u64) << 56) | ((key[at + 1] as u64) << 48) | ((key[at + 2] as u64)
        << 40) | ((key[at + 3] as u64) << 32) | ((key[at + 4] as u64) << 24) | ((key[at
        + 5] as u64) << 16) | ((key[at + 6] as u64) << 8) | (key[at + 7] as u64);
    x
}

/// The key under which the state of `group` is stored.
pub fn raft_state_key(group: u64) -> (key: Vec<u8>)
    ensures
        key@ == state_key(group),
{
    let mut key: Vec<u8> = Vec::with_capacity(10);
    key.push(RAFT_STATE_PREFIX[0]);
    key.push(RAFT_STATE_PREFIX[1]);
    assert(key@ =~= state_prefix_octets());
    push_be64(&mut key, group);
    key
}

/// What the key of every log entry of `group` begins with.
pub fn raft_log_prefix(group: u64) -> (key: Vec<u8>)
    ensures
        key@ == log_prefix(group),
{
    let mut key: Vec<u8> = Vec::with_capacity(10);
    key.push(RAFT_LOG_PREFIX[0]);
    key.push(RAFT_LOG_PREFIX[1]);
    assert(key@ =~= log_prefix_octets());
    push_be64(&mut key, group);
    key
}

/// The key under which the log entry of `group` at `index` is stored.
pub fn raft_log_key(group: u64, index: u64) -> (key: Vec<u8>)
    ensures
        key@ == log_key(group, index),
{
    let mut key: Vec<u8> = Vec::with_capacity(RAFT_LOG_KEY_LEN);
    key.push(RAFT_LOG_PREFIX[0]);
    key.push(RAFT_LOG_PREFIX[1]);
    assert(key@ =~= log_prefix_octets());
    push_be64(&mut key, group);
    push_be64(&mut key, index);
    key
}

/// Reads the log index out of the last eight octets of `key`. A key too short to hold a
/// prefix, a group and an index is refused.
pub fn raft_log_index(key: &[u8]) -> (r: Result<u64, Error>)
    ensures
        match r {
            Ok(index) => log_index(key@) == Some(index),
            Err(e) => log_index(key@) is None && e is Codec,
        },
{
    if key.len() < RAFT_LOG_KEY_LEN {
        return Err(Error::Codec("key is not a valid raft log key".to_string()));
    }
    Ok(read_be64(key, key.len() - 8))
}

/// The index written into a log key is the index read back from it.
pub proof fn lemma_log_index_of_log_key(group: u64, index: u64)
    ensures
        log_index(log_key(group, index)) == Some(index),
{
    let key = log_key(group, index);
    assert(key.len() == 18);
    assert(key.subrange(key.len() - 8, key.len() as int) =~= be64(index));
    lemma_be64_value(index);
}

/// Within one group, log keys sort like their indices.
pub proof fn lemma_log_key_order(group: u64, i: u64, j: u64)
    ensures
        lex_lt(log_key(group, i), log_key(group, j)) == (i < j),
        (log_key(group, i) == log_key(group, j)) == (i == j),
{
    lemma_lex_common_prefix(log_prefix(group), be64(i), be64(j));
    lemma_be64_order(i, j);
    if log_key(group, i) == log_key(group, j) {
        assert(log_key(group, i).subrange(10, 18) =~= be64(i));
        assert(log_key(group, j).subrange(10, 18) =~= be64(j));
    }
}

} // verus!
