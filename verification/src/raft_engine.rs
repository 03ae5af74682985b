//! The Raft log adaptor: the states and the logs of Raft groups, kept in the default
//! column family of the engine under the keys of the key schema.

use vstd::prelude::*;
use crate::engine::{delete_entries, SkiplistEngine, CF_DEFAULT};
use crate::entry::{
    decode_entry, encode_entry, entry_decoding, entry_encoding, entry_views, fits_message, Entry,
    EntryView,
};
use crate::errors::{no_such_cf, Error};
use crate::fetch::{
    after_all, ends, fetch_model, grown_by, is_fetch_result, judge_fetched, large_fetch,
    size_limit, small_fetch, stored_range, FetchEnd, Judged, RAFT_LOG_MULTI_GET_CNT,
};
use crate::keys::{
    log_index, log_key, log_prefix, raft_log_index, raft_log_key, raft_log_prefix, raft_state_key,
    state_key,
};
use crate::lex::{is_prefix_of, starts_with};
use crate::options::WriteOptions;
use crate::state::{state_decoding, state_encoding, RaftLocalState};
use crate::write_batch::{apply_ops, known_prefix, op_cf, ops_size, Op, SkiplistWriteBatch};
use crate::model::{first_in, listing, wrapped, Entries};
use crate::seek::first_entry_in;
use crate::table::{table_entries, table_get, KeyBound, Limit};

verus! {

impl SkiplistEngine {
    /// The stored log: the entries of the default column family.
    pub open spec fn log(&self) -> Entries {
        self@[CF_DEFAULT@]
    }

    /// Whether the engine has the column family that holds the logs.
    pub open spec fn has_log(&self) -> bool {
        self@.dom().contains(CF_DEFAULT@)
    }

    /// Fetches into `buf` and tells how the fetch ended and how many entries it took.
    fn fetch_core(
        &self,
        group: u64,
        low: u64,
        high: u64,
        max_size: Option<usize>,
        buf: &mut Vec<Entry>,
    ) -> (r: Result<(FetchEnd, usize), Error>)
        requires
            self.wf(),
        ensures
            high <= low ==> r == Ok::<(FetchEnd, usize), Error>((FetchEnd::Done, 0)) && final(buf)@
                == old(buf)@,
            match r {
                Ok((end, count)) => {
                    &&& self.has_log() || high <= low
                    &&& end == fetch_model(self.log(), group, low, high, max_size).end
                    &&& count == fetch_model(self.log(), group, low, high, max_size).entries.len()
                    &&& grown_by(
                        final(buf)@,
                        old(buf)@,
                        fetch_model(self.log(), group, low, high, max_size).entries,
                    )
                },
                Err(e) => !self.has_log() && low < high && no_such_cf(e, CF_DEFAULT@)
                    && final(buf)@ == old(buf)@,
            },
    {
        if high <= low {
            proof {
                assert(buf@.take(buf@.len() as int) =~= buf@);
                assert(entry_views(buf@.skip(buf@.len() as int)) =~= Seq::<EntryView>::empty());
            }
            return Ok((FetchEnd::Done, 0));
        }
        let table = match self.table_of(CF_DEFAULT) {
            Ok(t) => t,
            Err(e) => {
                return Err(e);
            },
        };
        let max: usize = match max_size {
            Some(m) => m,
            None => usize::MAX,
        };
        let ghost log = self.log();
        let ghost whole = fetch_model(log, group, low, high, max_size);
        let ghost start_len = buf@.len();
        let mut total: usize = 0;
        let ghost mut read: nat = 0;
        let mut count: usize = 0;
        proof {
            self.lemma_families(CF_DEFAULT@);
            assert(buf@.take(start_len as int) =~= old(buf)@);
            assert(entry_views(buf@.skip(start_len as int)) =~= Seq::<EntryView>::empty());
        }
        if high <= low || high - low <= RAFT_LOG_MULTI_GET_CNT {
            let mut i: u64 = low;
            while i < high
                invariant
                    self.has_log(),
                    log == self.log(),
                    whole == fetch_model(log, group, low, high, max_size),
                    high <= low || high - low <= RAFT_LOG_MULTI_GET_CNT,
                    table_entries(*table) == log,
                    max == size_limit(max_size),
                    i == low + count,
                    low <= i,
                    i <= high || high <= low,
                    total == if read > usize::MAX {
                        usize::MAX as nat
                    } else {
                        read
                    },
                    buf@.len() == start_len + count,
                    buf@.take(start_len as int) == old(buf)@,
                    whole == after_all(
                        entry_views(buf@.skip(start_len as int)),
                        small_fetch(log, group, low, high, max as nat, count as nat, read),
                    ),
                decreases high - i,
            {
                let ghost taken = entry_views(buf@.skip(start_len as int));
                if total > 0 && total >= max {
                    proof {
                        assert(whole.entries =~= taken);
                    }
                    return Ok((FetchEnd::Done, count));
                }
                let key = raft_log_key(group, i);
                let value = match table_get(table, key.as_slice()) {
                    Some(v) => v,
                    None => {
                        proof {
                            assert(whole.entries =~= taken);
                        }
                        return Ok((FetchEnd::Unavailable, count));
                    },
                };
                let entry = match judge_fetched(decode_entry(value.as_slice()), low, count, false) {
                    Judged::Take(e) => e,
                    Judged::Undecodable => {
                        proof {
                            assert(whole.entries =~= taken);
                        }
                        return Ok((FetchEnd::Undecodable, count));
                    },
                    _ => {
                        proof {
                            assert(whole.entries =~= taken);
                        }
                        return Ok((FetchEnd::Misnumbered, count));
                    },
                };
                let ghost before = buf@;
                buf.push(entry);
                let filled: usize = buf.len();
                proof {
                    let rest = small_fetch(
                        log,
                        group,
                        low,
                        high,
                        max as nat,
                        (count + 1) as nat,
                        read + value@.len(),
                    );
                    assert(buf@.take(start_len as int) =~= before.take(start_len as int));
                    assert(entry_views(buf@.skip(start_len as int)) =~= entry_views(
                        before.skip(start_len as int),
                    ).push(entry@));
                    assert(after_all(entry_views(buf@.skip(start_len as int)), rest).entries
                        =~= whole.entries);
                    read = read + value@.len();
                }
                total = total.saturating_add(value.len());
                count += 1;
                i += 1;
            }
            proof {
                let rest = small_fetch(log, group, low, high, max as nat, count as nat, read);
                assert(rest == ends(FetchEnd::Done));
                assert(whole.entries =~= entry_views(buf@.skip(start_len as int)));
            }
            return Ok((FetchEnd::Done, count));
        }
        let start = raft_log_key(group, low);
        let end = raft_log_key(group, high);
        let ghost lo = Limit::Included(start@);
        let ghost hi = Limit::Excluded(end@);
        let ghost stored = stored_range(log, group, low, high);
        let mut cursor = first_entry_in(
            table,
            KeyBound::Included(start.as_slice()),
            KeyBound::Excluded(end.as_slice()),
        );
        proof {
            assert(stored.skip(0) =~= stored);
        }
        loop
            invariant
                self.has_log(),
                log == self.log(),
                whole == fetch_model(log, group, low, high, max_size),
                table_entries(*table) == log,
                log.dom().finite(),
                max == size_limit(max_size),
                hi == Limit::Excluded(end@),
                stored == stored_range(log, group, low, high),
                count <= stored.len(),
                stored.skip(count as int) == match cursor {
                    Some((k, v)) => seq![(k@, v@)] + listing(log, Limit::Excluded(k@), hi),
                    None => Seq::<(Seq<u8>, Seq<u8>)>::empty(),
                },
                total == if read > usize::MAX {
                    usize::MAX as nat
                } else {
                    read
                },
                buf@.len() == start_len + count,
                buf@.take(start_len as int) == old(buf)@,
                high - low > RAFT_LOG_MULTI_GET_CNT,
                whole == after_all(
                    entry_views(buf@.skip(start_len as int)),
                    large_fetch(stored, low, high, max as nat, count as nat, read),
                ),
            decreases stored.len() - count,
        {
            let (key, value) = match cursor {
                Some(kv) => kv,
                None => {
                    proof {
                        assert(stored.skip(count as int).len() == 0);
                        assert(whole.entries =~= entry_views(buf@.skip(start_len as int)));
                    }
                    if count as u64 == high - low || total >= max {
                        return Ok((FetchEnd::Done, count));
                    }
                    return Ok((FetchEnd::Unavailable, count));
                },
            };
            proof {
                assert(stored.skip(count as int).len() >= 1);
                assert(stored.skip(count as int)[0] == (key@, value@));
                assert(stored[count as int] == (key@, value@));
            }
            let entry = match judge_fetched(decode_entry(value.as_slice()), low, count, count
                == 0) {
                Judged::Take(e) => e,
                Judged::Gap => {
                    proof {
                        assert(whole.entries =~= entry_views(buf@.skip(start_len as int)));
                    }
                    return Ok((FetchEnd::Done, count));
                },
                Judged::Undecodable => {
                    proof {
                        assert(whole.entries =~= entry_views(buf@.skip(start_len as int)));
                    }
                    return Ok((FetchEnd::Undecodable, count));
                },
                Judged::Misnumbered => {
                    proof {
                        assert(whole.entries =~= entry_views(buf@.skip(start_len as int)));
                    }
                    return Ok((FetchEnd::Misnumbered, count));
                },
            };
            let ghost before = buf@;
            buf.push(entry);
            let filled: usize = buf.len();
            proof {
                assert(buf@.take(start_len as int) =~= before.take(start_len as int));
                assert(entry_views(buf@.skip(start_len as int)) =~= entry_views(
                    before.skip(start_len as int),
                ).push(entry@));
            }
            total = total.saturating_add(value.len());
            if total >= max {
                proof {
                    assert(whole.entries =~= entry_views(buf@.skip(start_len as int)));
                }
                return Ok((FetchEnd::Done, count + 1));
            }
            let next = first_entry_in(
                table,
                KeyBound::Excluded(key.as_slice()),
                KeyBound::Excluded(end.as_slice()),
            );
            proof {
                let rest = large_fetch(
                    stored,
                    low,
                    high,
                    max as nat,
                    (count + 1) as nat,
                    read + value@.len(),
                );
                assert(after_all(entry_views(buf@.skip(start_len as int)), rest).entries
                    =~= whole.entries);
                read = read + value@.len();
                assert(stored.skip(count + 1) =~= stored.skip(count as int).skip(1));
                assert(stored.skip(count as int).skip(1) =~= listing(
                    log,
                    Limit::Excluded(key@),
                    hi,
                ));
            }
            count += 1;
            cursor = next;
        }
    }
}

/// A fetch of an empty range takes nothing and succeeds, whatever is stored.
pub proof fn lemma_fetch_empty_range(
    log: Entries,
    group: u64,
    low: u64,
    high: u64,
    max_size: Option<usize>,
)
    requires
        high <= low,
    ensures
        fetch_model(log, group, low, high, max_size) == ends(FetchEnd::Done),
        is_fetch_result(Ok::<usize, Error>(0), fetch_model(log, group, low, high, max_size)),
{
}

/// A fetch of a short range whose first entry the log lacks takes nothing and finds the
/// entries unavailable.
pub proof fn lemma_fetch_small_missing(
    log: Entries,
    group: u64,
    low: u64,
    high: u64,
    max_size: Option<usize>,
)
    requires
        low < high,
        high - low <= RAFT_LOG_MULTI_GET_CNT,
        !log.dom().contains(log_key(group, low)),
    ensures
        fetch_model(log, group, low, high, max_size) == ends(FetchEnd::Unavailable),
        is_fetch_result(
            Err::<usize, Error>(Error::Unavailable),
            fetch_model(log, group, low, high, max_size),
        ),
{
}

/// A fetch of a long range whose first stored value is an entry other than the first one
/// asked for takes nothing and succeeds.
pub proof fn lemma_fetch_large_gap(
    log: Entries,
    group: u64,
    low: u64,
    high: u64,
    max_size: Option<usize>,
)
    requires
        high - low > RAFT_LOG_MULTI_GET_CNT,
        stored_range(log, group, low, high).len() > 0,
        entry_decoding(stored_range(log, group, low, high)[0].1) is Some,
        entry_decoding(stored_range(log, group, low, high)[0].1)->Some_0.index != low,
    ensures
        fetch_model(log, group, low, high, max_size) == ends(FetchEnd::Done),
        is_fetch_result(Ok::<usize, Error>(0), fetch_model(log, group, low, high, max_size)),
{
}

impl SkiplistEngine {
    /// Fetches the entries of `group` with the indices from `low` up to, and without,
    /// `high`, and appends them to `buf` in the order of their indices. Returns the
    /// number of entries appended. A fetch of an empty range looks nothing up: it
    /// returns 0 on every engine.
    ///
    /// The log must be numbered as far as the fetch reads it: an entry that is stored
    /// out of place is not accepted here.
    pub fn fetch_entries_to(
        &self,
        group: u64,
        low: u64,
        high: u64,
        max_size: Option<usize>,
        buf: &mut Vec<Entry>,
    ) -> (r: Result<usize, Error>)
        requires
            self.wf(),
            self.has_log() ==> fetch_model(self.log(), group, low, high, max_size).end
                != FetchEnd::Misnumbered,
        ensures
            high <= low ==> r == Ok::<usize, Error>(0) && final(buf)@ == old(buf)@,
            self.has_log() || high <= low ==> is_fetch_result(
                r,
                fetch_model(self.log(), group, low, high, max_size),
            ) && grown_by(
                final(buf)@,
                old(buf)@,
                fetch_model(self.log(), group, low, high, max_size).entries,
            ),
            !self.has_log() && low < high ==> r is Err && no_such_cf(r->Err_0, CF_DEFAULT@)
                && final(buf)@ == old(buf)@,
    {
        match self.fetch_core(group, low, high, max_size, buf) {
            Ok((end, count)) => match end {
                FetchEnd::Done => Ok(count),
                FetchEnd::Unavailable => Err(Error::Unavailable),
                FetchEnd::Undecodable => Err(
                    Error::Codec("stored bytes are no log entry".to_string()),
                ),
                FetchEnd::Misnumbered => {
                    proof {
                        assert(false);
                    }
                    Err(Error::Unavailable)
                },
            },
            Err(e) => Err(e),
        }
    }

    /// Tells whether the log is numbered as far as a fetch of the given range reads it.
    pub fn fetch_is_numbered(&self, group: u64, low: u64, high: u64, max_size: Option<usize>) -> (b:
        bool)
        requires
            self.wf(),
        ensures
            b == (self.has_log() ==> fetch_model(self.log(), group, low, high, max_size).end
                != FetchEnd::Misnumbered),
    {
        let mut scratch: Vec<Entry> = Vec::new();
        match self.fetch_core(group, low, high, max_size, &mut scratch) {
            Ok((end, count)) => match end {
                FetchEnd::Misnumbered => false,
                _ => true,
            },
            Err(e) => true,
        }
    }

    /// Fetches as `fetch_entries_to` does where the log is numbered as far as the fetch
    /// reads it. Where it is not, nothing is fetched and nothing is returned.
    pub fn fetch_entries_checked(
        &self,
        group: u64,
        low: u64,
        high: u64,
        max_size: Option<usize>,
        buf: &mut Vec<Entry>,
    ) -> (r: Option<Result<usize, Error>>)
        requires
            self.wf(),
        ensures
            r is Some <==> (self.has_log() ==> fetch_model(
                self.log(),
                group,
                low,
                high,
                max_size,
            ).end != FetchEnd::Misnumbered),
            r is None ==> final(buf)@ == old(buf)@,
            high <= low ==> r == Some(Ok::<usize, Error>(0)) && final(buf)@ == old(buf)@,
            r is Some && (self.has_log() || high <= low) ==> is_fetch_result(
                r->Some_0,
                fetch_model(self.log(), group, low, high, max_size),
            ) && grown_by(
                final(buf)@,
                old(buf)@,
                fetch_model(self.log(), group, low, high, max_size).entries,
            ),
            r is Some && !self.has_log() && low < high ==> r->Some_0 is Err && no_such_cf(
                r->Some_0->Err_0,
                CF_DEFAULT@,
            ) && final(buf)@ == old(buf)@,
    {
        if self.fetch_is_numbered(group, low, high, max_size) {
            Some(self.fetch_entries_to(group, low, high, max_size, buf))
        } else {
            None
        }
    }

    /// What reading the log entry of `group` at `index` gives, from what is stored under
    /// its key and what that decodes to.
    pub open spec fn entry_at(&self, group: u64, index: u64) -> Option<Option<EntryView>> {
        if self.log().dom().contains(log_key(group, index)) {
            Some(entry_decoding(self.log()[log_key(group, index)]))
        } else {
            None
        }
    }

    /// Reads the log entry of `group` at `index`; nothing where the log has none there.
    pub fn get_entry(&self, group: u64, index: u64) -> (r: Result<Option<Entry>, Error>)
        requires
            self.wf(),
        ensures
            match r {
                Ok(Some(e)) => self.has_log() && self.entry_at(group, index) == Some(Some(e@)),
                Ok(None) => self.has_log() && self.entry_at(group, index) is None,
                Err(e) => if self.has_log() {
                    self.entry_at(group, index) == Some(None::<EntryView>) && e is Codec
                } else {
                    no_such_cf(e, CF_DEFAULT@)
                },
            },
    {
        let key = raft_log_key(group, index);
        match self.get_value_cf(CF_DEFAULT, key.as_slice()) {
            Err(e) => Err(e),
            Ok(None) => Ok(None),
            Ok(Some(bytes)) => entry_from_stored(decode_entry(bytes.as_slice())),
        }
    }

    /// Reads the state of `group`; nothing where none is stored.
    pub fn get_raft_state(&self, group: u64) -> (r: Result<Option<RaftLocalState>, Error>)
        requires
            self.wf(),
        ensures
            match r {
                Ok(Some(s)) => self.has_log() && self.log().dom().contains(state_key(group))
                    && state_decoding(self.log()[state_key(group)]) == Some(s),
                Ok(None) => self.has_log() && !self.log().dom().contains(state_key(group)),
                Err(e) => if self.has_log() {
                    self.log().dom().contains(state_key(group)) && state_decoding(
                        self.log()[state_key(group)],
                    ) is None && e is Codec
                } else {
                    no_such_cf(e, CF_DEFAULT@)
                },
            },
    {
        let key = raft_state_key(group);
        match self.get_value_cf(CF_DEFAULT, key.as_slice()) {
            Err(e) => Err(e),
            Ok(None) => Ok(None),
            Ok(Some(bytes)) => match RaftLocalState::decode(bytes.as_slice()) {
                Ok(s) => Ok(Some(s)),
                Err(e) => Err(e),
            },
        }
    }

    /// Stores `state` as the state of `group`.
    pub fn put_raft_state(&mut self, group: u64, state: &RaftLocalState) -> (r: Result<(), Error>)
        requires
            old(self).wf(),
        ensures
            final(self).wf(),
            final(self).names() == old(self).names(),
            match r {
                Ok(()) => old(self).has_log() && final(self)@ == old(self)@.insert(
                    CF_DEFAULT@,
                    old(self).log().insert(state_key(group), state_encoding(*state)),
                ),
                Err(e) => !old(self).has_log() && no_such_cf(e, CF_DEFAULT@) && final(self)@ == old(
                    self,
                )@,
            },
    {
        let key = raft_state_key(group);
        let bytes = state.encode();
        self.put_cf(CF_DEFAULT, key.as_slice(), bytes.as_slice())
    }

    /// The engine keeps no cache of entries of its own.
    pub fn has_builtin_entry_cache(&self) -> (b: bool)
        ensures
            !b,
    {
        false
    }

    /// The statistics of the entry cache: the engine has none, and counts nothing.
    pub fn flush_stats(&self) -> (stats: CacheStats)
        ensures
            stats == (CacheStats { hit: 0, miss: 0, cache_size: 0 }),
    {
        CacheStats { hit: 0, miss: 0, cache_size: 0 }
    }

    /// A new batch for log writes, made to have room for `capacity` bytes of operations.
    pub fn log_batch(&self, capacity: usize) -> (b: SkiplistWriteBatch)
        ensures
            b.wf(),
            b@ == Seq::<Op>::empty(),
            b.reported_size() == 0,
            b.capacity() == capacity,
    {
        SkiplistWriteBatch::with_capacity(capacity)
    }
}

/// What a read of a log entry returns for what the stored bytes decoded to.
pub fn entry_from_stored(decoded: Option<Entry>) -> (r: Result<Option<Entry>, Error>)
    ensures
        match decoded {
            Some(e) => r == Ok::<Option<Entry>, Error>(Some(e)),
            None => r is Err && r->Err_0 is Codec,
        },
{
    match decoded {
        Some(e) => Ok(Some(e)),
        None => Err(Error::Codec("stored bytes are no log entry".to_string())),
    }
}

/// The counters of an entry cache.
#[derive(Clone, Copy, Debug, PartialEq, Eq, Structural)]
pub struct CacheStats {
    pub hit: usize,
    pub miss: usize,
    pub cache_size: usize,
}

/// The staged removals of the log entries of `group` with the indices from `from` up to,
/// and without, `to`, in the order of the indices.
pub open spec fn delete_ops(group: u64, from: int, to: int) -> Seq<Op> {
    Seq::new(
        if to >= from {
            (to - from) as nat
        } else {
            0
        },
        |i: int| Op::Delete { cf: CF_DEFAULT@, key: log_key(group, (from + i) as u64) },
    )
}

/// The keys of the log entries of `group` with the indices from `from` up to, and
/// without, `to`.
pub open spec fn log_keys(group: u64, from: int, to: int) -> Set<Seq<u8>> {
    Set::new(|k: Seq<u8>| exists|i: u64| from <= i < to && k == log_key(group, i))
}

/// Whether an entry can be written as bytes: it is short enough for a message, and
/// writing the message does not fail.
pub open spec fn encodable(e: EntryView) -> bool {
    fits_message(e) && entry_encoding(e) is Some
}

/// Whether every entry of the row can be written as bytes.
pub open spec fn all_encodable(entries: Seq<EntryView>) -> bool {
    forall|i: int| 0 <= i < entries.len() ==> encodable(#[trigger] entries[i])
}

/// The staged stores of the entries of `group`, each under the key of its index, in the
/// order of the row.
pub open spec fn entry_puts(group: u64, entries: Seq<EntryView>) -> Seq<Op> {
    Seq::new(
        entries.len(),
        |i: int|
            Op::Put {
                cf: CF_DEFAULT@,
                key: log_key(group, entries[i].index),
                value: entry_encoding(entries[i])->Some_0,
            },
    )
}

/// Operations that all work on one family are all known or all unknown.
pub proof fn lemma_known_prefix_uniform(cfs: Set<Seq<char>>, ops: Seq<Op>, cf: Seq<char>)
    requires
        forall|i: int| 0 <= i < ops.len() ==> op_cf(#[trigger] ops[i]) == cf,
    ensures
        known_prefix(cfs, ops) == if cfs.contains(cf) || ops.len() == 0 {
            ops.len()
        } else {
            0
        },
    decreases ops.len(),
{
    if ops.len() > 0 {
        assert forall|i: int| 0 <= i < ops.drop_last().len() implies op_cf(
            #[trigger] ops.drop_last()[i],
        ) == cf by {
            assert(ops.drop_last()[i] == ops[i]);
        }
        lemma_known_prefix_uniform(cfs, ops.drop_last(), cf);
        assert(op_cf(ops[ops.len() - 1]) == cf);
    }
}

/// Staged removals of log entries, applied, remove the keys of those entries from the
/// log and change nothing else.
pub proof fn lemma_apply_delete_ops(s: Map<Seq<char>, Entries>, group: u64, from: int, to: int)
    requires
        s.dom().contains(CF_DEFAULT@),
        0 <= from <= to <= u64::MAX + 1,
    ensures
        apply_ops(s, delete_ops(group, from, to)) == s.insert(
            CF_DEFAULT@,
            s[CF_DEFAULT@].remove_keys(log_keys(group, from, to)),
        ),
    decreases to - from,
{
    let log = s[CF_DEFAULT@];
    if to == from {
        assert(delete_ops(group, from, to) =~= Seq::<Op>::empty());
        assert(log.remove_keys(log_keys(group, from, to)) =~= log);
        assert(s.insert(CF_DEFAULT@, log) =~= s);
    } else {
        lemma_apply_delete_ops(s, group, from, to - 1);
        let ops = delete_ops(group, from, to);
        let key = log_key(group, (to - 1) as u64);
        assert(ops.drop_last() =~= delete_ops(group, from, to - 1));
        assert(ops.last() == Op::Delete { cf: CF_DEFAULT@, key });
        let before = s.insert(CF_DEFAULT@, log.remove_keys(log_keys(group, from, to - 1)));
        assert(log.remove_keys(log_keys(group, from, to - 1)).remove(key) =~= log.remove_keys(
            log_keys(group, from, to),
        )) by {
            assert(log_keys(group, from, to) =~= log_keys(group, from, to - 1).insert(key)) by {
                assert forall|k: Seq<u8>| log_keys(group, from, to).contains(k) implies log_keys(
                    group,
                    from,
                    to - 1,
                ).insert(key).contains(k) by {
                    let i = choose|i: u64| from <= i < to && k == log_key(group, i);
                    if i < to - 1 {
                        assert(from <= i < to - 1 && k == log_key(group, i));
                    }
                }
                assert forall|k: Seq<u8>|
                    log_keys(group, from, to - 1).insert(key).contains(k) implies log_keys(
                    group,
                    from,
                    to,
                ).contains(k) by {
                    if k == key {
                        let i = (to - 1) as u64;
                        assert(from <= i < to && k == log_key(group, i));
                    } else {
                        let i = choose|i: u64| from <= i < to - 1 && k == log_key(group, i);
                        assert(from <= i < to && k == log_key(group, i));
                    }
                }
            }
        }
        assert(before.insert(CF_DEFAULT@, delete_entries(before[CF_DEFAULT@], key)) =~= s.insert(
            CF_DEFAULT@,
            log.remove_keys(log_keys(group, from, to)),
        ));
    }
}

impl SkiplistWriteBatch {
    /// Stages the removal of the log entries of `group` with the indices from `from` up
    /// to, and without, `to`.
    pub fn cut_logs(&mut self, group: u64, from: u64, to: u64)
        requires
            old(self).wf(),
        ensures
            final(self).wf(),
            final(self).capacity() == old(self).capacity(),
            final(self)@ == old(self)@ + delete_ops(group, from as int, to as int),
    {
        let mut index: u64 = from;
        proof {
            assert(delete_ops(group, from as int, from as int) =~= Seq::<Op>::empty());
            if to < from {
                assert(delete_ops(group, from as int, to as int) =~= Seq::<Op>::empty());
                assert(self@ + delete_ops(group, from as int, to as int) =~= self@);
            } else {
                assert(self@ + delete_ops(group, from as int, from as int) =~= self@);
            }
        }
        while index < to
            invariant
                from <= index,
                index <= to || to < from,
                self.wf(),
                self.capacity() == old(self).capacity(),
                self@ == old(self)@ + delete_ops(group, from as int, index as int),
                to < from ==> self@ == old(self)@ + delete_ops(group, from as int, to as int),
            decreases to - index,
        {
            let key = raft_log_key(group, index);
            let ghost before = self@;
            let _ = self.delete(key.as_slice());
            proof {
                assert(before.push(Op::Delete { cf: CF_DEFAULT@, key: key@ }) =~= old(self)@
                    + delete_ops(group, from as int, index + 1));
            }
            index += 1;
        }
    }

    /// Stages the store of `state` as the state of `group`.
    pub fn put_raft_state(&mut self, group: u64, state: &RaftLocalState) -> (r: Result<(), Error>)
        requires
            old(self).wf(),
        ensures
            r is Ok,
            final(self).wf(),
            final(self).capacity() == old(self).capacity(),
            final(self)@ == old(self)@.push(
                Op::Put { cf: CF_DEFAULT@, key: state_key(group), value: state_encoding(*state) },
            ),
    {
        let key = raft_state_key(group);
        let bytes = state.encode();
        self.put(key.as_slice(), bytes.as_slice())
    }

    /// Stages the stores of `entries` as log entries of `group`, each under the key of
    /// its index. Where an entry cannot be written as bytes, because it is too long for
    /// a message or because writing the message fails, nothing is staged.
    pub fn append_slice(&mut self, group: u64, entries: &[Entry]) -> (r: Result<(), Error>)
        requires
            old(self).wf(),
        ensures
            final(self).wf(),
            final(self).capacity() == old(self).capacity(),
            match r {
                Ok(()) => all_encodable(entry_views(entries@)) && final(self)@ == old(self)@
                    + entry_puts(group, entry_views(entries@)),
                Err(e) => !all_encodable(entry_views(entries@)) && e is Codec && final(self)@
                    == old(self)@,
            },
    {
        let ghost views = entry_views(entries@);
        let mut encoded: Vec<Vec<u8>> = Vec::new();
        let mut i: usize = 0;
        while i < entries.len()
            invariant
                self.wf(),
                self@ == old(self)@,
                self.capacity() == old(self).capacity(),
                i <= entries@.len(),
                views == entry_views(entries@),
                encoded@.len() == i,
                forall|j: int| 0 <= j < i ==> fits_message(views[j]),
                forall|j: int| 0 <= j < i
                    ==> entry_encoding(#[trigger] views[j]) == Some(encoded@[j]@),
            decreases entries.len() - i,
        {
            if !entries[i].fits_message() {
                proof {
                    assert(!encodable(views[i as int]));
                }
                return Err(Error::Codec("log entry is too long to be encoded".to_string()));
            }
            match encode_entry(&entries[i]) {
                Some(bytes) => {
                    encoded.push(bytes);
                },
                None => {
                    proof {
                        assert(!encodable(views[i as int]));
                    }
                    return Err(Error::Codec("log entry cannot be encoded".to_string()));
                },
            }
            i += 1;
        }
        proof {
            assert forall|j: int| 0 <= j < entries@.len() implies entry_encoding(
                #[trigger] entries@[j]@,
            ) == Some(encoded@[j]@) by {
                assert(views[j] == entries@[j]@);
            }
            assert forall|j: int| 0 <= j < views.len() implies encodable(#[trigger] views[j]) by {
                assert(entry_encoding(views[j]) == Some(encoded@[j]@));
            }
        }
        self.append_impl(group, entries, &encoded);
        Ok(())
    }

    /// Stages the stores of `entries` as log entries of `group`.
    pub fn append(&mut self, group: u64, entries: Vec<Entry>) -> (r: Result<(), Error>)
        requires
            old(self).wf(),
        ensures
            final(self).wf(),
            final(self).capacity() == old(self).capacity(),
            match r {
                Ok(()) => all_encodable(entry_views(entries@)) && final(self)@ == old(self)@
                    + entry_puts(group, entry_views(entries@)),
                Err(e) => !all_encodable(entry_views(entries@)) && e is Codec && final(self)@
                    == old(self)@,
            },
    {
        self.append_slice(group, entries.as_slice())
    }

    /// Stages the store of each entry, written as the bytes that stand at its place in
    /// `encoded`.
    fn append_impl(&mut self, group: u64, entries: &[Entry], encoded: &Vec<Vec<u8>>)
        requires
            old(self).wf(),
            encoded@.len() == entries@.len(),
            forall|j: int| 0 <= j < entries@.len()
                ==> entry_encoding(#[trigger] entries@[j]@) == Some(encoded@[j]@),
        ensures
            final(self).wf(),
            final(self).capacity() == old(self).capacity(),
            final(self)@ == old(self)@ + entry_puts(group, entry_views(entries@)),
    {
        let ghost views = entry_views(entries@);
        let mut i: usize = 0;
        proof {
            assert(self@ + entry_puts(group, views.take(0)) =~= self@);
        }
        while i < entries.len()
            invariant
                i <= entries@.len(),
                views == entry_views(entries@),
                encoded@.len() == entries@.len(),
                forall|j: int| 0 <= j < entries@.len()
                    ==> entry_encoding(#[trigger] entries@[j]@) == Some(encoded@[j]@),
                self.wf(),
                self.capacity() == old(self).capacity(),
                self@ == old(self)@ + entry_puts(group, views.take(i as int)),
            decreases entries.len() - i,
        {
            let key = raft_log_key(group, entries[i].index);
            let ghost before = self@;
            let _ = self.put(key.as_slice(), encoded[i].as_slice());
            proof {
                assert(views[i as int] == entries@[i as int]@);
                assert(before.push(
                    Op::Put { cf: CF_DEFAULT@, key: key@, value: encoded@[i as int]@ },
                ) =~= old(self)@ + entry_puts(group, views.take(i + 1)));
            }
            i += 1;
        }
        proof {
            assert(views.take(i as int) =~= views);
        }
    }
}

/// The size at which a batch of removals is applied before more are staged.
pub const MAX_DELETE_BATCH_SIZE: usize = 32768;

/// Where the removal of a log starts.
pub enum GcStart {
    /// At this index.
    At(u64),
    /// Nowhere: the group has no log.
    Nothing,
    /// Nowhere: the first key of the log is too short to hold an index.
    BadKey,
}

/// Where the removal of the log of `group` from `from` on starts: at `from`, or, where
/// `from` is 0, at the index of the first key stored with the log prefix of the group.
pub open spec fn gc_start(log: Entries, group: u64, from: u64) -> GcStart {
    if from != 0 {
        GcStart::At(from)
    } else {
        match first_in(log, Limit::Included(log_key(group, 0)), Limit::Unbounded) {
            Some(k) => if is_prefix_of(log_prefix(group), k) {
                match log_index(k) {
                    Some(i) => GcStart::At(i),
                    None => GcStart::BadKey,
                }
            } else {
                GcStart::Nothing
            },
            None => GcStart::Nothing,
        }
    }
}

/// The number of indices from `from` up to, and without, `to`.
pub open spec fn gc_count(from: u64, to: u64) -> usize {
    if from < to {
        (to - from) as usize
    } else {
        0
    }
}

/// Removing two adjoining runs of log keys is removing the run that they make together.
pub proof fn lemma_remove_log_keys_twice(log: Entries, group: u64, a: int, b: int, c: int)
    requires
        a <= b <= c,
    ensures
        log.remove_keys(log_keys(group, a, b)).remove_keys(log_keys(group, b, c))
            == log.remove_keys(log_keys(group, a, c)),
{
    assert forall|k: Seq<u8>| log_keys(group, a, c).contains(k) <==> log_keys(group, a, b).contains(
        k,
    ) || log_keys(group, b, c).contains(k) by {
        if log_keys(group, a, c).contains(k) {
            let i = choose|i: u64| a <= i < c && k == log_key(group, i);
            if i < b {
                assert(a <= i < b && k == log_key(group, i));
            } else {
                assert(b <= i < c && k == log_key(group, i));
            }
        }
        if log_keys(group, a, b).contains(k) {
            let i = choose|i: u64| a <= i < b && k == log_key(group, i);
            assert(a <= i < c && k == log_key(group, i));
        }
        if log_keys(group, b, c).contains(k) {
            let i = choose|i: u64| b <= i < c && k == log_key(group, i);
            assert(a <= i < c && k == log_key(group, i));
        }
    }
    assert(log.remove_keys(log_keys(group, a, b)).remove_keys(log_keys(group, b, c))
        =~= log.remove_keys(log_keys(group, a, c)));
}

impl SkiplistEngine {
    /// Applies `batch` and empties it. Returns the size that the batch reported. Where
    /// the batch stops at an operation on an unknown family, it is left as it is.
    pub fn consume(&mut self, batch: &mut SkiplistWriteBatch, sync_log: bool) -> (r: Result<
        usize,
        Error,
    >)
        requires
            old(self).wf(),
            old(batch).wf(),
        ensures
            final(self).wf(),
            final(batch).wf(),
            final(self).names() == old(self).names(),
            final(self).seq_nos() == old(self).seq_nos(),
            final(self)@ == apply_ops(
                old(self)@,
                old(batch)@.take(known_prefix(old(self)@.dom(), old(batch)@) as int),
            ),
            match r {
                Ok(n) => {
                    &&& known_prefix(old(self)@.dom(), old(batch)@) == old(batch)@.len()
                    &&& n == old(batch).reported_size()
                    &&& final(batch)@ == Seq::<Op>::empty()
                    &&& final(batch).reported_size() == 0
                    &&& final(batch).capacity() == old(batch).capacity()
                },
                Err(e) => {
                    &&& known_prefix(old(self)@.dom(), old(batch)@) < old(batch)@.len()
                    &&& no_such_cf(
                        e,
                        op_cf(old(batch)@[known_prefix(old(self)@.dom(), old(batch)@) as int]),
                    )
                    &&& final(batch)@ == old(batch)@
                    &&& final(batch).reported_size() == old(batch).reported_size()
                    &&& final(batch).capacity() == old(batch).capacity()
                },
            },
    {
        let bytes = batch.data_size();
        let mut opts = WriteOptions::default();
        opts.set_sync(sync_log);
        match self.write_opt(batch, &opts) {
            Ok(()) => {},
            Err(e) => {
                return Err(e);
            },
        }
        batch.clear();
        Ok(bytes)
    }

    /// Applies `batch` and empties it, as `consume` does. A batch that reported more than
    /// `max_capacity` bytes is replaced by a new one made to have room for `shrink_to`.
    pub fn consume_and_shrink(
        &mut self,
        batch: &mut SkiplistWriteBatch,
        sync_log: bool,
        max_capacity: usize,
        shrink_to: usize,
    ) -> (r: Result<usize, Error>)
        requires
            old(self).wf(),
            old(batch).wf(),
        ensures
            final(self).wf(),
            final(batch).wf(),
            final(self).names() == old(self).names(),
            final(self).seq_nos() == old(self).seq_nos(),
            final(self)@ == apply_ops(
                old(self)@,
                old(batch)@.take(known_prefix(old(self)@.dom(), old(batch)@) as int),
            ),
            match r {
                Ok(n) => {
                    &&& known_prefix(old(self)@.dom(), old(batch)@) == old(batch)@.len()
                    &&& n == old(batch).reported_size()
                    &&& final(batch)@ == Seq::<Op>::empty()
                    &&& final(batch).reported_size() == 0
                    &&& final(batch).capacity() == if n > max_capacity {
                        shrink_to
                    } else {
                        old(batch).capacity()
                    }
                },
                Err(e) => {
                    &&& known_prefix(old(self)@.dom(), old(batch)@) < old(batch)@.len()
                    &&& no_such_cf(
                        e,
                        op_cf(old(batch)@[known_prefix(old(self)@.dom(), old(batch)@) as int]),
                    )
                    &&& final(batch)@ == old(batch)@
                    &&& final(batch).reported_size() == old(batch).reported_size()
                    &&& final(batch).capacity() == old(batch).capacity()
                },
            },
    {
        let data_size = match self.consume(batch, sync_log) {
            Ok(n) => n,
            Err(e) => {
                return Err(e);
            },
        };
        if data_size > max_capacity {
            *batch = SkiplistWriteBatch::with_capacity(shrink_to);
        }
        Ok(data_size)
    }

    /// Stores `entries` as log entries of `group`, each under the key of its index, in the
    /// order of the row. Returns the bytes written: those of the keys and of the encoded
    /// entries. Where an entry cannot be written as bytes, nothing is stored.
    pub fn append_slice(&mut self, group: u64, entries: &[Entry]) -> (r: Result<usize, Error>)
        requires
            old(self).wf(),
        ensures
            final(self).wf(),
            final(self).names() == old(self).names(),
            match r {
                Ok(n) => {
                    &&& all_encodable(entry_views(entries@))
                    &&& old(self).has_log() || entries@.len() == 0
                    &&& final(self)@ == apply_ops(
                        old(self)@,
                        entry_puts(group, entry_views(entries@)),
                    )
                    &&& n as int == wrapped(
                        ops_size(entry_puts(group, entry_views(entries@))) as int,
                    )
                },
                Err(e) => {
                    &&& final(self)@ == old(self)@
                    &&& if all_encodable(entry_views(entries@)) {
                        !old(self).has_log() && entries@.len() > 0 && no_such_cf(e, CF_DEFAULT@)
                    } else {
                        e is Codec
                    }
                },
            },
    {
        let mut wb = SkiplistWriteBatch::new();
        match wb.append_slice(group, entries) {
            Ok(()) => {},
            Err(e) => {
                return Err(e);
            },
        }
        proof {
            let ops = entry_puts(group, entry_views(entries@));
            assert(wb@ =~= ops);
            lemma_known_prefix_uniform(self@.dom(), ops, CF_DEFAULT@);
            assert(ops.take(ops.len() as int) =~= ops);
            assert(ops.take(0) =~= Seq::<Op>::empty());
        }
        self.consume(&mut wb, false)
    }

    /// Stores `entries` as log entries of `group`, as `append_slice` does.
    pub fn append(&mut self, group: u64, entries: Vec<Entry>) -> (r: Result<usize, Error>)
        requires
            old(self).wf(),
        ensures
            final(self).wf(),
            final(self).names() == old(self).names(),
            match r {
                Ok(n) => {
                    &&& all_encodable(entry_views(entries@))
                    &&& old(self).has_log() || entries@.len() == 0
                    &&& final(self)@ == apply_ops(
                        old(self)@,
                        entry_puts(group, entry_views(entries@)),
                    )
                    &&& n as int == wrapped(
                        ops_size(entry_puts(group, entry_views(entries@))) as int,
                    )
                },
                Err(e) => {
                    &&& final(self)@ == old(self)@
                    &&& if all_encodable(entry_views(entries@)) {
                        !old(self).has_log() && entries@.len() > 0 && no_such_cf(e, CF_DEFAULT@)
                    } else {
                        e is Codec
                    }
                },
            },
    {
        self.append_slice(group, entries.as_slice())
    }

    /// Finds where the removal of the log of `group` from `from` on starts.
    pub fn find_gc_start(&self, group: u64, from: u64) -> (r: Result<Option<u64>, Error>)
        requires
            self.wf(),
            self.has_log(),
        ensures
            match gc_start(self.log(), group, from) {
                GcStart::At(i) => r == Ok::<Option<u64>, Error>(Some(i)),
                GcStart::Nothing => r == Ok::<Option<u64>, Error>(None),
                GcStart::BadKey => r is Err && r->Err_0 is Codec,
            },
    {
        if from != 0 {
            return Ok(Some(from));
        }
        let start_key = raft_log_key(group, 0);
        let prefix = raft_log_prefix(group);
        match self.seek(start_key.as_slice()) {
            Ok(Some((k, v))) => {
                if starts_with(k.as_slice(), prefix.as_slice()) {
                    match raft_log_index(k.as_slice()) {
                        Ok(i) => Ok(Some(i)),
                        Err(e) => Err(e),
                    }
                } else {
                    Ok(None)
                }
            },
            Ok(None) => Ok(None),
            Err(e) => {
                proof {
                    assert(false);
                }
                Err(e)
            },
        }
    }

    /// Removes the log entries of `group` with the indices from `from` up to, and
    /// without, `to`. A `from` of 0 stands for the first index that the log holds.
    /// Returns the number of indices covered.
    pub fn gc(&mut self, group: u64, from: u64, to: u64) -> (r: Result<usize, Error>)
        requires
            old(self).wf(),
        ensures
            final(self).wf(),
            final(self).names() == old(self).names(),
            from >= to ==> r == Ok::<usize, Error>(0) && final(self)@ == old(self)@,
            from < to && !old(self).has_log() ==> r is Err && no_such_cf(r->Err_0, CF_DEFAULT@)
                && final(self)@ == old(self)@,
            from < to && old(self).has_log() ==> match gc_start(old(self).log(), group, from) {
                GcStart::At(first) => r == Ok::<usize, Error>(gc_count(first, to)) && final(self)@
                    == old(self)@.insert(
                    CF_DEFAULT@,
                    old(self).log().remove_keys(log_keys(group, first as int, to as int)),
                ),
                GcStart::Nothing => r == Ok::<usize, Error>(0) && final(self)@ == old(self)@,
                GcStart::BadKey => r is Err && r->Err_0 is Codec && final(self)@ == old(self)@,
            },
    {
        if from >= to {
            return Ok(0);
        }
        if self.find_cf(CF_DEFAULT).is_none() {
            return Err(Error::CFName(CF_DEFAULT.to_owned()));
        }
        let first = match self.find_gc_start(group, from) {
            Ok(Some(i)) => i,
            Ok(None) => {
                return Ok(0);
            },
            Err(e) => {
                return Err(e);
            },
        };
        let ghost log = self.log();
        let mut batch = SkiplistWriteBatch::with_capacity(MAX_DELETE_BATCH_SIZE);
        let mut idx: u64 = first;
        let ghost mut flushed: int = first as int;
        proof {
            assert(delete_ops(group, first as int, first as int) =~= Seq::<Op>::empty());
            assert(log.remove_keys(log_keys(group, first as int, first as int)) =~= log);
            assert(self@.insert(CF_DEFAULT@, log) =~= self@);
            if first >= to {
                assert(log_keys(group, first as int, to as int) =~= log_keys(
                    group,
                    first as int,
                    first as int,
                ));
            }
        }
        while idx < to
            invariant
                old(self).wf(),
                old(self).has_log(),
                log == old(self).log(),
                self.wf(),
                self.names() == old(self).names(),
                self.has_log(),
                first <= flushed <= idx,
                idx <= to || to <= first,
                to <= first ==> idx == first,
                batch.wf(),
                batch@ == delete_ops(group, flushed, idx as int),
                self@ == old(self)@.insert(
                    CF_DEFAULT@,
                    log.remove_keys(log_keys(group, first as int, flushed)),
                ),
            decreases to - idx,
        {
            let key = raft_log_key(group, idx);
            let ghost staged = batch@;
            let _ = batch.delete(key.as_slice());
            proof {
                assert(staged.push(Op::Delete { cf: CF_DEFAULT@, key: key@ }) =~= delete_ops(
                    group,
                    flushed,
                    idx + 1,
                ));
            }
            idx += 1;
            if batch.data_size() >= MAX_DELETE_BATCH_SIZE {
                let ghost before = self@;
                proof {
                    lemma_known_prefix_uniform(before.dom(), batch@, CF_DEFAULT@);
                    assert(batch@.take(batch@.len() as int) =~= batch@);
                    lemma_apply_delete_ops(before, group, flushed, idx as int);
                    lemma_remove_log_keys_twice(log, group, first as int, flushed, idx as int);
                }
                match self.write(&batch) {
                    Ok(()) => {},
                    Err(e) => {
                        proof {
                            assert(false);
                        }
                        return Err(e);
                    },
                }
                batch.clear();
                proof {
                    flushed = idx as int;
                    assert(delete_ops(group, flushed, idx as int) =~= Seq::<Op>::empty());
                    assert(self@ =~= old(self)@.insert(
                        CF_DEFAULT@,
                        log.remove_keys(log_keys(group, first as int, flushed)),
                    ));
                }
            }
        }
        if !batch.is_empty() {
            let ghost before = self@;
            proof {
                lemma_known_prefix_uniform(before.dom(), batch@, CF_DEFAULT@);
                assert(batch@.take(batch@.len() as int) =~= batch@);
                lemma_apply_delete_ops(before, group, flushed, idx as int);
                lemma_remove_log_keys_twice(log, group, first as int, flushed, idx as int);
            }
            match self.write(&batch) {
                Ok(()) => {},
                Err(e) => {
                    proof {
                        assert(false);
                    }
                    return Err(e);
                },
            }
            proof {
                assert(self@ =~= old(self)@.insert(
                    CF_DEFAULT@,
                    log.remove_keys(log_keys(group, first as int, idx as int)),
                ));
            }
        } else {
            proof {
                assert(flushed == idx);
            }
        }
        if first >= to {
            proof {
                assert(log_keys(group, first as int, to as int) =~= log_keys(
                    group,
                    first as int,
                    idx as int,
                ));
            }
            return Ok(0);
        }
        let covered: u64 = to - first;
        Ok(
            #[verifier::truncate]
            (covered as usize),
        )
    }

    /// Stages into `batch` the removal of all that the engine holds of `group`: the
    /// state record, and the log entries from the first one that the log holds up to the
    /// last index that `state` names. Nothing is applied here.
    pub fn clean(&self, group: u64, state: &RaftLocalState, batch: &mut SkiplistWriteBatch) -> (r:
        Result<(), Error>)
        requires
            self.wf(),
            old(batch).wf(),
        ensures
            final(batch).wf(),
            final(batch).capacity() == old(batch).capacity(),
            match r {
                Ok(()) => self.has_log() && final(batch)@ == old(batch)@.push(
                    Op::Delete { cf: CF_DEFAULT@, key: state_key(group) },
                ) + match gc_start(self.log(), group, 0) {
                    GcStart::At(first) => delete_ops(group, first as int, state.last_index + 1),
                    _ => Seq::<Op>::empty(),
                },
                Err(e) => !self.has_log() && no_such_cf(e, CF_DEFAULT@) && final(batch)@ == old(
                    batch,
                )@.push(Op::Delete { cf: CF_DEFAULT@, key: state_key(group) }),
            },
    {
        let state_key = raft_state_key(group);
        let _ = batch.delete(state_key.as_slice());
        let ghost base = batch@;
        if self.find_cf(CF_DEFAULT).is_none() {
            return Err(Error::CFName(CF_DEFAULT.to_owned()));
        }
        let first = match self.find_gc_start(group, 0) {
            Ok(Some(i)) => i,
            _ => {
                proof {
                    assert(base + Seq::<Op>::empty() =~= base);
                }
                return Ok(());
            },
        };
        let last = state.last_index;
        proof {
            assert(delete_ops(group, first as int, first as int) =~= Seq::<Op>::empty());
            assert(base + Seq::<Op>::empty() =~= base);
        }
        if first > last {
            proof {
                assert(delete_ops(group, first as int, last + 1) =~= Seq::<Op>::empty());
            }
            return Ok(());
        }
        let mut index: u64 = first;
        while index < last
            invariant
                first <= index <= last,
                batch.wf(),
                batch.capacity() == old(batch).capacity(),
                batch@ == base + delete_ops(group, first as int, index as int),
            decreases last - index,
        {
            let key = raft_log_key(group, index);
            let ghost staged = batch@;
            let _ = batch.delete(key.as_slice());
            proof {
                assert(staged.push(Op::Delete { cf: CF_DEFAULT@, key: key@ }) =~= base + delete_ops(
                    group,
                    first as int,
                    index + 1,
                ));
            }
            index += 1;
        }
        let key = raft_log_key(group, last);
        let ghost staged = batch@;
        let _ = batch.delete(key.as_slice());
        proof {
            assert(staged.push(Op::Delete { cf: CF_DEFAULT@, key: key@ }) =~= base + delete_ops(
                group,
                first as int,
                last + 1,
            ));
        }
        Ok(())
    }
}

} // verus!
