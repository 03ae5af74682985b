//! What holds of the engine whatever is written to it: the laws that relate its
//! operations to each other.

use vstd::prelude::*;
use crate::engine::{
    bytes_at, delete_entries, delete_range_entries, put_entries, SkiplistEngine,
};
use crate::keys::{log_key, log_prefix};
use crate::lex::{is_prefix_of, lex_le, lex_lt};
use crate::model::{
    entry_size, first_in, lemma_map_bytes_insert, lemma_map_bytes_remove, lemma_none_in_range,
    map_bytes, Entries,
};
use crate::raft_engine::{gc_start, GcStart};
use crate::table::Limit;
use crate::write_batch::{apply_ops, op_cf, Op};

verus! {

/// What a read of `key` in the family `cf` finds among the families `s`.
pub open spec fn lookup(s: Map<Seq<char>, Entries>, cf: Seq<char>,
    key: Seq<u8>) -> Option<Seq<u8>> {
    if s[cf].dom().contains(key) {
        Some(s[cf][key])
    } else {
        None
    }
}

/// Whether the operation writes or removes the entry of `key` in the family `cf`.
pub open spec fn touches(op: Op, cf: Seq<char>, key: Seq<u8>) -> bool {
    match op {
        Op::Put { cf: c, key: k, value } => c == cf && k == key,
        Op::Delete { cf: c, key: k } => c == cf && k == key,
        Op::DeleteRange { cf: c, begin, end } => c == cf && lex_le(begin, key) && lex_lt(key, end),
    }
}

/// The value that the operation leaves under a key that it touches: the value stored, or
/// none where the operation removes.
pub open spec fn leaves(op: Op) -> Option<Seq<u8>> {
    match op {
        Op::Put { cf, key, value } => Some(value),
        _ => None,
    }
}

/// The value that `key` of `cf` has after `ops`: what the last operation that touches it
/// leaves, or what it had before where none touches it.
pub open spec fn value_after(
    s: Map<Seq<char>, Entries>,
    ops: Seq<Op>,
    cf: Seq<char>,
    key: Seq<u8>,
) -> Option<Seq<u8>>
    decreases ops.len(),
{
    if ops.len() == 0 {
        lookup(s, cf, key)
    } else if touches(ops.last(), cf, key) {
        leaves(ops.last())
    } else {
        value_after(s, ops.drop_last(), cf, key)
    }
}

/// Operations on known families leave the set of families as it is.
pub proof fn lemma_apply_ops_keeps_families(s: Map<Seq<char>, Entries>, ops: Seq<Op>)
    requires
        forall|i: int| 0 <= i < ops.len() ==> s.dom().contains(op_cf(#[trigger] ops[i])),
    ensures
        apply_ops(s, ops).dom() == s.dom(),
    decreases ops.len(),
{
    if ops.len() > 0 {
        assert forall|i: int| 0 <= i < ops.drop_last().len() implies s.dom().contains(
            op_cf(#[trigger] ops.drop_last()[i]),
        ) by {
            assert(ops.drop_last()[i] == ops[i]);
        }
        lemma_apply_ops_keeps_families(s, ops.drop_last());
        assert(s.dom().contains(op_cf(ops[ops.len() - 1])));
        assert(apply_ops(s, ops).dom() =~= s.dom());
    }
}

/// The last write wins: after any row of stores and removals, a read finds under every
/// key the value last stored there, and nothing where the key was removed since.
pub proof fn lemma_last_write_wins(
    s: Map<Seq<char>, Entries>,
    ops: Seq<Op>,
    cf: Seq<char>,
    key: Seq<u8>,
)
    requires
        s.dom().contains(cf),
        forall|i: int| 0 <= i < ops.len() ==> s.dom().contains(op_cf(#[trigger] ops[i])),
    ensures
        lookup(apply_ops(s, ops), cf, key) == value_after(s, ops, cf, key),
    decreases ops.len(),
{
    if ops.len() > 0 {
        assert forall|i: int| 0 <= i < ops.drop_last().len() implies s.dom().contains(
            op_cf(#[trigger] ops.drop_last()[i]),
        ) by {
            assert(ops.drop_last()[i] == ops[i]);
        }
        lemma_last_write_wins(s, ops.drop_last(), cf, key);
        lemma_apply_ops_keeps_families(s, ops.drop_last());
        assert(s.dom().contains(op_cf(ops[ops.len() - 1])));
    }
}

/// After a range of keys was removed, no key of the range has an entry.
pub proof fn lemma_delete_range_clears(m: Entries, begin: Seq<u8>, end: Seq<u8>, key: Seq<u8>)
    requires
        lex_le(begin, key),
        lex_lt(key, end),
    ensures
        !delete_range_entries(m, begin, end).dom().contains(key),
{
}

/// The removal of a range leaves every entry outside the range as it was.
pub proof fn lemma_delete_range_keeps(m: Entries, begin: Seq<u8>, end: Seq<u8>, key: Seq<u8>)
    requires
        !(lex_le(begin, key) && lex_lt(key, end)),
    ensures
        delete_range_entries(m, begin, end).dom().contains(key) == m.dom().contains(key),
        m.dom().contains(key) ==> delete_range_entries(m, begin, end)[key] == m[key],
{
}

/// The removal of a range in which the family has no key changes nothing.
pub proof fn lemma_delete_range_of_nothing(m: Entries, begin: Seq<u8>, end: Seq<u8>)
    requires
        forall|k: Seq<u8>| #[trigger] m.dom().contains(k) ==> !(lex_le(begin, k) && lex_lt(k, end)),
    ensures
        delete_range_entries(m, begin, end) == m,
{
    assert(delete_range_entries(m, begin, end) =~= m);
}

/// Storing the same value under the same key twice is storing it once: the entries are
/// the same, and so are the bytes they take.
pub proof fn lemma_put_twice(m: Entries, key: Seq<u8>, value: Seq<u8>)
    requires
        m.dom().finite(),
    ensures
        put_entries(put_entries(m, key, value), key, value) == put_entries(m, key, value),
        put_entries(m, key, value)[key] == value,
        bytes_at(put_entries(m, key, value), key) == entry_size(key, value),
{
    assert(m.insert(key, value).insert(key, value) =~= m.insert(key, value));
}

/// Removing the same key twice is removing it once: the second removal finds no entry
/// and takes no bytes off.
pub proof fn lemma_delete_twice(m: Entries, key: Seq<u8>)
    ensures
        delete_entries(delete_entries(m, key), key) == delete_entries(m, key),
        bytes_at(delete_entries(m, key), key) == 0,
{
    assert(m.remove(key).remove(key) =~= m.remove(key));
}

/// One store changes the bytes of a family by the bytes of the new entry less those of
/// the entry replaced; one removal takes off the bytes of the entry removed.
pub proof fn lemma_bytes_follow_writes(m: Entries, key: Seq<u8>, value: Seq<u8>)
    requires
        m.dom().finite(),
    ensures
        map_bytes(put_entries(m, key, value)) == map_bytes(m) - bytes_at(m, key) + entry_size(
            key,
            value,
        ),
        map_bytes(delete_entries(m, key)) == map_bytes(m) - bytes_at(m, key),
{
    lemma_map_bytes_insert(m, key, value);
    if m.dom().contains(key) {
        lemma_map_bytes_remove(m, key);
    } else {
        assert(m.remove(key) =~= m);
    }
}

/// In an engine that is in order the counter shows the bytes of all entries of all
/// column families, as long as they are no more than the counter can show.
pub proof fn lemma_counter_is_sum(engine: &SkiplistEngine)
    requires
        engine.wf(),
        engine.live_bytes() <= usize::MAX,
    ensures
        engine.counted_bytes() == engine.live_bytes(),
{
    vstd::arithmetic::div_mod::lemma_small_mod(
        engine.live_bytes(),
        (usize::MAX as int + 1) as nat,
    );
}

/// A family without entries has no first and no last key: a cursor over it is invalid
/// from the start.
pub proof fn lemma_empty_family_has_no_first(lo: Limit, hi: Limit)
    ensures
        first_in(Map::<Seq<u8>, Seq<u8>>::empty(), lo, hi) is None,
        crate::model::last_in(Map::<Seq<u8>, Seq<u8>>::empty(), lo, hi) is None,
{
    lemma_none_in_range(Map::<Seq<u8>, Seq<u8>>::empty(), lo, hi);
}

/// Where no stored key begins with the log prefix of a group, there is nothing of that
/// group to remove.
pub proof fn lemma_gc_of_empty_log(log: Entries, group: u64)
    requires
        forall|k: Seq<u8>| #[trigger] log.dom().contains(k) ==> !is_prefix_of(log_prefix(group), k),
    ensures
        gc_start(log, group, 0) == GcStart::Nothing,
{
    match first_in(log, Limit::Included(log_key(group, 0)), Limit::Unbounded) {
        Some(k) => {
            crate::model::lemma_first_in_of(
                log,
                Limit::Included(log_key(group, 0)),
                Limit::Unbounded,
            );
        },
        None => {},
    }
}

} // verus!
