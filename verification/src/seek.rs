//! Reads of one table: the value of a key, and the first and the last entry of an
//! interval of keys.

use vstd::prelude::*;
use crossbeam_skiplist::SkipMap;
use crate::lex::{bytes_eq, bytes_lt};
use crate::model::{
    first_in, is_first_in, is_last_in, last_in, lemma_above_behind, lemma_below_before,
    lemma_first_in_unique, lemma_last_in_unique, lemma_none_in_range, Entries,
};
use crate::table::{
    above, below, table_entries, table_get, table_lower_bound, table_upper_bound, KeyBound,
};

verus! {

/// Tells whether `key` lies on the upper side of the lower limit `bound`.
pub fn key_above(bound: KeyBound<'_>, key: &[u8]) -> (r: bool)
    ensures
        r == above(bound@, key@),
{
    match bound {
        KeyBound::Unbounded => true,
        KeyBound::Included(x) => bytes_eq(x, key) || bytes_lt(x, key),
        KeyBound::Excluded(x) => bytes_lt(x, key),
    }
}

/// Tells whether `key` lies on the lower side of the upper limit `bound`.
pub fn key_below(bound: KeyBound<'_>, key: &[u8]) -> (r: bool)
    ensures
        r == below(bound@, key@),
{
    match bound {
        KeyBound::Unbounded => true,
        KeyBound::Included(x) => bytes_eq(key, x) || bytes_lt(key, x),
        KeyBound::Excluded(x) => bytes_lt(key, x),
    }
}

/// The entry with the smallest key between `lo` and `hi`, copied out of the table.
pub fn first_entry_in(t: &SkipMap<Vec<u8>, Vec<u8>>, lo: KeyBound<'_>, hi: KeyBound<'_>) -> (r:
    Option<(Vec<u8>, Vec<u8>)>)
    ensures
        match r {
            Some((k, v)) => {
                &&& first_in(table_entries(*t), lo@, hi@) == Some(k@)
                &&& is_first_in(table_entries(*t), lo@, hi@, k@)
                &&& table_entries(*t)[k@] == v@
            },
            None => {
                &&& first_in(table_entries(*t), lo@, hi@) is None
                &&& forall|j: Seq<u8>| #[trigger]
                    table_entries(*t).dom().contains(j) ==> !(above(lo@, j) && below(hi@, j))
            },
        },
{
    let ghost m = table_entries(*t);
    match table_lower_bound(t, lo) {
        None => {
            proof {
                lemma_none_in_range(m, lo@, hi@);
            }
            None
        },
        Some((k, v)) => {
            if key_below(hi, k.as_slice()) {
                proof {
                    lemma_first_in_unique(m, lo@, hi@, k@);
                }
                Some((k, v))
            } else {
                proof {
                    assert forall|j: Seq<u8>| #[trigger] m.dom().contains(j) implies !(above(
                        lo@,
                        j,
                    ) && below(hi@, j)) by {
                        if above(lo@, j) && below(hi@, j) {
                            lemma_below_before(hi@, k@, j);
                        }
                    }
                    lemma_none_in_range(m, lo@, hi@);
                }
                None
            }
        },
    }
}

/// The entry with the greatest key between `lo` and `hi`, copied out of the table.
pub fn last_entry_in(t: &SkipMap<Vec<u8>, Vec<u8>>, lo: KeyBound<'_>, hi: KeyBound<'_>) -> (r:
    Option<(Vec<u8>, Vec<u8>)>)
    ensures
        match r {
            Some((k, v)) => {
                &&& last_in(table_entries(*t), lo@, hi@) == Some(k@)
                &&& is_last_in(table_entries(*t), lo@, hi@, k@)
                &&& table_entries(*t)[k@] == v@
            },
            None => {
                &&& last_in(table_entries(*t), lo@, hi@) is None
                &&& forall|j: Seq<u8>| #[trigger]
                    table_entries(*t).dom().contains(j) ==> !(above(lo@, j) && below(hi@, j))
            },
        },
{
    let ghost m = table_entries(*t);
    match table_upper_bound(t, hi) {
        None => {
            proof {
                lemma_none_in_range(m, lo@, hi@);
            }
            None
        },
        Some((k, v)) => {
            if key_above(lo, k.as_slice()) {
                proof {
                    lemma_last_in_unique(m, lo@, hi@, k@);
                }
                Some((k, v))
            } else {
                proof {
                    assert forall|j: Seq<u8>| #[trigger] m.dom().contains(j) implies !(above(
                        lo@,
                        j,
                    ) && below(hi@, j)) by {
                        if above(lo@, j) && below(hi@, j) {
                            lemma_above_behind(lo@, j, k@);
                        }
                    }
                    lemma_none_in_range(m, lo@, hi@);
                }
                None
            }
        },
    }
}

/// One table, to read from. The handle offers no way to write to the table.
pub struct SkiplistTable<'a> {
    table: &'a SkipMap<Vec<u8>, Vec<u8>>,
}

impl<'a> SkiplistTable<'a> {
    /// The entries of the table.
    pub closed spec fn entries(&self) -> Entries {
        table_entries(*self.table)
    }

    /// A handle on `table`.
    pub(crate) fn of(table: &'a SkipMap<Vec<u8>, Vec<u8>>) -> (t: SkiplistTable<'a>)
        ensures
            t.entries() == table_entries(*table),
    {
        SkiplistTable { table }
    }

    /// The value stored under `key`; nothing where the key has no entry.
    pub fn get(&self, key: &[u8]) -> (r: Option<Vec<u8>>)
        ensures
            match r {
                Some(v) => self.entries().dom().contains(key@) && self.entries()[key@] == v@,
                None => !self.entries().dom().contains(key@),
            },
    {
        table_get(self.table, key)
    }

    /// The entry with the smallest key between `lo` and `hi`.
    pub fn first_entry_in(&self, lo: KeyBound<'_>, hi: KeyBound<'_>) -> (r: Option<
        (Vec<u8>, Vec<u8>),
    >)
        ensures
            match r {
                Some((k, v)) => {
                    &&& first_in(self.entries(), lo@, hi@) == Some(k@)
                    &&& is_first_in(self.entries(), lo@, hi@, k@)
                    &&& self.entries()[k@] == v@
                },
                None => {
                    &&& first_in(self.entries(), lo@, hi@) is None
                    &&& forall|j: Seq<u8>| #[trigger]
                        self.entries().dom().contains(j) ==> !(above(lo@, j) && below(hi@, j))
                },
            },
    {
        first_entry_in(self.table, lo, hi)
    }

    /// The entry with the greatest key between `lo` and `hi`.
    pub fn last_entry_in(&self, lo: KeyBound<'_>, hi: KeyBound<'_>) -> (r: Option<
        (Vec<u8>, Vec<u8>),
    >)
        ensures
            match r {
                Some((k, v)) => {
                    &&& last_in(self.entries(), lo@, hi@) == Some(k@)
                    &&& is_last_in(self.entries(), lo@, hi@, k@)
                    &&& self.entries()[k@] == v@
                },
                None => {
                    &&& last_in(self.entries(), lo@, hi@) is None
                    &&& forall|j: Seq<u8>| #[trigger]
                        self.entries().dom().contains(j) ==> !(above(lo@, j) && below(hi@, j))
                },
            },
    {
        last_entry_in(self.table, lo, hi)
    }
}

} // verus!
