//! What a fetch of log entries returns, stated over the stored bytes and over what they
//! decode to.
//!
//! A short range is read index by index; a long range is read as the stored values of the
//! key range in key order. Either way the entries must be numbered without a gap from the
//! first index asked for.

use vstd::prelude::*;
use crate::entry::{entry_decoding, entry_views, Entry, EntryView};
use crate::errors::Error;
use crate::keys::log_key;
use crate::model::{listing, Entries};
use crate::table::Limit;

verus! {

/// The longest range that is read index by index.
pub const RAFT_LOG_MULTI_GET_CNT: u64 = 8;

/// How a fetch ends.
#[derive(Clone, Copy, Debug, PartialEq, Eq, Structural)]
pub enum FetchEnd {
    /// With the entries it could take.
    Done,
    /// Short of entries that the log no longer, or not yet, has.
    Unavailable,
    /// At stored bytes that are no entry.
    Undecodable,
    /// At an entry whose index is not the one that its place in the log calls for.
    Misnumbered,
}

/// What is to be done with one stored value.
#[derive(Clone, Copy, Debug, PartialEq, Eq, Structural)]
pub enum Verdict {
    /// It is the entry expected: take it.
    Take,
    /// It is the first value read and not the entry asked for: the log starts later.
    Gap,
    /// It is no entry.
    Undecodable,
    /// It is an entry out of place.
    Misnumbered,
}

/// The verdict on a stored value that decodes to `decoded`, where the entry with index
/// `expected` is due. Only the first value of a long range may show a gap.
pub open spec fn verdict(decoded: Option<EntryView>, expected: int, may_gap: bool) -> Verdict {
    match decoded {
        None => Verdict::Undecodable,
        Some(e) => if e.index == expected {
            Verdict::Take
        } else if may_gap {
            Verdict::Gap
        } else {
            Verdict::Misnumbered
        },
    }
}

/// What a fetch hands over: the entries in the order in which they are fetched, and how
/// the fetch ends.
pub struct Fetched {
    pub entries: Seq<EntryView>,
    pub end: FetchEnd,
}

/// A fetch that ends at once.
pub open spec fn ends(end: FetchEnd) -> Fetched {
    Fetched { entries: Seq::empty(), end }
}

/// The fetch `f` with the entry `e` taken before it.
pub open spec fn after(e: EntryView, f: Fetched) -> Fetched {
    Fetched { entries: seq![e] + f.entries, end: f.end }
}

/// The fetch of a short range from its `n`-th index on, `total` bytes having been read:
/// every index up to `high` is looked up under its key. The fetch ends when `total` has
/// reached `max` and is not zero, and fails at the first index that the log lacks.
pub open spec fn small_fetch(
    log: Entries,
    group: u64,
    low: u64,
    high: u64,
    max: nat,
    n: nat,
    total: nat,
) -> Fetched
    decreases high - low - n,
{
    if low + n >= high || (total > 0 && total >= max) {
        ends(FetchEnd::Done)
    } else {
        let key = log_key(group, (low + n) as u64);
        if !log.dom().contains(key) {
            ends(FetchEnd::Unavailable)
        } else {
            match verdict(entry_decoding(log[key]), low + n, false) {
                Verdict::Take => after(
                    entry_decoding(log[key])->Some_0,
                    small_fetch(log, group, low, high, max, n + 1, total + log[key].len()),
                ),
                Verdict::Undecodable => ends(FetchEnd::Undecodable),
                _ => ends(FetchEnd::Misnumbered),
            }
        }
    }
}

/// The fetch of a long range from the `n`-th stored value of its key range on, `total`
/// bytes having been read. A first value that is not the entry asked for ends the fetch
/// with nothing; so does, with what was taken, the value with which `total` reaches
/// `max`. Where the values run out, the fetch has succeeded if it took as many entries as
/// were asked for, or if `total` has reached `max`.
pub open spec fn large_fetch(
    stored: Seq<(Seq<u8>, Seq<u8>)>,
    low: u64,
    high: u64,
    max: nat,
    n: nat,
    total: nat,
) -> Fetched
    decreases stored.len() - n,
{
    if n >= stored.len() {
        if n == high - low || total >= max {
            ends(FetchEnd::Done)
        } else {
            ends(FetchEnd::Unavailable)
        }
    } else {
        let value = stored[n as int].1;
        match verdict(entry_decoding(value), low + n, n == 0) {
            Verdict::Take => if total + value.len() >= max {
                after(entry_decoding(value)->Some_0, ends(FetchEnd::Done))
            } else {
                after(
                    entry_decoding(value)->Some_0,
                    large_fetch(stored, low, high, max, n + 1, total + value.len()),
                )
            },
            Verdict::Gap => ends(FetchEnd::Done),
            Verdict::Undecodable => ends(FetchEnd::Undecodable),
            Verdict::Misnumbered => ends(FetchEnd::Misnumbered),
        }
    }
}

/// The limit on the bytes of a fetch: the one given, or the greatest there is.
pub open spec fn size_limit(max_size: Option<usize>) -> nat {
    match max_size {
        Some(m) => m as nat,
        None => usize::MAX as nat,
    }
}

/// The stored entries of the key range of the indices from `low` up to, and without,
/// `high`, in key order.
pub open spec fn stored_range(log: Entries, group: u64, low: u64, high: u64) -> Seq<
    (Seq<u8>, Seq<u8>),
> {
    listing(log, Limit::Included(log_key(group, low)), Limit::Excluded(log_key(group, high)))
}

/// What a fetch of the entries of `group` from `low` up to, and without, `high` hands
/// over, from a log stored as `log`.
pub open spec fn fetch_model(
    log: Entries,
    group: u64,
    low: u64,
    high: u64,
    max_size: Option<usize>,
) -> Fetched {
    if high - low <= RAFT_LOG_MULTI_GET_CNT {
        small_fetch(log, group, low, high, size_limit(max_size), 0, 0)
    } else {
        large_fetch(stored_range(log, group, low, high), low, high, size_limit(max_size), 0, 0)
    }
}

/// The fetch `f` with the entries `taken` before it.
pub open spec fn after_all(taken: Seq<EntryView>, f: Fetched) -> Fetched {
    Fetched { entries: taken + f.entries, end: f.end }
}

/// Whether `r` is what a fetch that ended as `f` returns: the number of entries taken,
/// or the failure that stopped it.
pub open spec fn is_fetch_result(r: Result<usize, Error>, f: Fetched) -> bool {
    match f.end {
        FetchEnd::Done => r == Ok::<usize, Error>(f.entries.len() as usize),
        FetchEnd::Unavailable => r == Err::<usize, Error>(Error::Unavailable),
        FetchEnd::Undecodable => r is Err && r->Err_0 is Codec,
        FetchEnd::Misnumbered => false,
    }
}

/// Whether `buf` has grown from `before` by `entries`, in their order, and by nothing else.
pub open spec fn grown_by(buf: Seq<Entry>, before: Seq<Entry>, entries: Seq<EntryView>) -> bool {
    &&& buf.len() == before.len() + entries.len()
    &&& buf.take(before.len() as int) == before
    &&& entry_views(buf.skip(before.len() as int)) == entries
}

/// What became of one stored value.
pub enum Judged {
    /// The entry was due and is handed on.
    Take(Entry),
    Gap,
    Undecodable,
    Misnumbered,
}

/// Judges what a stored value decoded to, where `taken` entries from index `low` on have
/// been taken: the entry is due if its index is `low + taken`.
pub fn judge_fetched(decoded: Option<Entry>, low: u64, taken: usize, may_gap: bool) -> (j: Judged)
    ensures
        match j {
            Judged::Take(e) => decoded == Some(e) && verdict(Some(e@), low + taken, may_gap)
                == Verdict::Take,
            Judged::Gap => decoded is Some && verdict(Some(decoded->Some_0@), low + taken, may_gap)
                == Verdict::Gap,
            Judged::Undecodable => decoded is None,
            Judged::Misnumbered => decoded is Some && verdict(
                Some(decoded->Some_0@),
                low + taken,
                may_gap,
            ) == Verdict::Misnumbered,
        },
{
    match decoded {
        None => Judged::Undecodable,
        Some(e) => {
            if e.index >= low && e.index - low == taken as u64 {
                Judged::Take(e)
            } else if may_gap {
                Judged::Gap
            } else {
                Judged::Misnumbered
            }
        },
    }
}

} // verus!
