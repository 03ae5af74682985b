//! A cursor over one column family that moves both ways between two bounds.
//!
//! The cursor is either invalid or stands on an entry of the table whose key lies within
//! the bounds. It holds a copy of that entry: what it shows does not change until it moves.

use vstd::prelude::*;
use crossbeam_skiplist::SkipMap;
use crate::errors::Error;
use crate::lex::{lemma_lex_le_transitive, lemma_lex_trichotomy, lex_le};
use crate::model::{
    first_in, in_range, keys_in, last_in, lemma_above_behind, lemma_below_before,
    lemma_fewer_keys_after_first, lemma_first_in_of, listing, Entries,
};
use crate::options::SeekKey;
use crate::seek::{first_entry_in, key_above, key_below, last_entry_in};
use crate::table::{above, below, table_entries, KeyBound, Limit};

verus! {

/// The lower limit for a seek to `key` between `lower` and anything: the key itself, or
/// `lower` where the key lies before it.
pub open spec fn seek_lower(lower: Limit, key: Seq<u8>) -> Limit {
    if above(lower, key) {
        Limit::Included(key)
    } else {
        lower
    }
}

/// The upper limit for a backward seek to `key`: the key itself, or `upper` where the key
/// lies behind it.
pub open spec fn seek_upper(upper: Limit, key: Seq<u8>) -> Limit {
    if below(upper, key) {
        Limit::Included(key)
    } else {
        upper
    }
}

/// The keys above the lower limit of a seek to `key` are the keys above `lower` that are
/// `key` or greater.
pub proof fn lemma_seek_lower(lower: Limit, key: Seq<u8>, j: Seq<u8>)
    ensures
        above(seek_lower(lower, key), j) == (above(lower, j) && lex_le(key, j)),
{
    lemma_lex_trichotomy(key, j);
    if above(lower, key) {
        if lex_le(key, j) {
            lemma_above_behind(lower, key, j);
        }
    } else if above(lower, j) {
        match lower {
            Limit::Unbounded => {},
            Limit::Included(x) => {
                lemma_lex_trichotomy(x, key);
                lemma_lex_le_transitive(key, x, j);
            },
            Limit::Excluded(x) => {
                lemma_lex_trichotomy(x, key);
                lemma_lex_le_transitive(key, x, j);
            },
        }
    }
}

/// The keys below the upper limit of a backward seek to `key` are the keys below `upper`
/// that are `key` or smaller.
pub proof fn lemma_seek_upper(upper: Limit, key: Seq<u8>, j: Seq<u8>)
    ensures
        below(seek_upper(upper, key), j) == (below(upper, j) && lex_le(j, key)),
{
    lemma_lex_trichotomy(key, j);
    if below(upper, key) {
        if lex_le(j, key) {
            lemma_below_before(upper, j, key);
        }
    } else if below(upper, j) {
        match upper {
            Limit::Unbounded => {},
            Limit::Included(x) => {
                lemma_lex_trichotomy(x, key);
                lemma_lex_le_transitive(j, x, key);
            },
            Limit::Excluded(x) => {
                lemma_lex_trichotomy(x, key);
                lemma_lex_le_transitive(j, x, key);
            },
        }
    }
}

/// The limit that an optional inclusive bound sets.
pub open spec fn limit_of(bound: Option<Seq<u8>>) -> Limit {
    match bound {
        Some(k) => Limit::Included(k),
        None => Limit::Unbounded,
    }
}

/// A cursor over the entries of one table between two inclusive bounds.
pub struct SkiplistEngineIterator<'a> {
    table: &'a SkipMap<Vec<u8>, Vec<u8>>,
    lower_bound: Option<Vec<u8>>,
    upper_bound: Option<Vec<u8>>,
    cursor: Option<(Vec<u8>, Vec<u8>)>,
}

impl<'a> SkiplistEngineIterator<'a> {
    /// The entries of the table that the cursor walks.
    pub closed spec fn entries(&self) -> Entries {
        table_entries(*self.table)
    }

    /// The lower end of the cursor's interval.
    pub closed spec fn lower(&self) -> Limit {
        match self.lower_bound {
            Some(k) => Limit::Included(k@),
            None => Limit::Unbounded,
        }
    }

    /// The upper end of the cursor's interval.
    pub closed spec fn upper(&self) -> Limit {
        match self.upper_bound {
            Some(k) => Limit::Included(k@),
            None => Limit::Unbounded,
        }
    }

    /// The key on which the cursor stands; none where it is invalid.
    pub closed spec fn position(&self) -> Option<Seq<u8>> {
        match self.cursor {
            Some((k, v)) => Some(k@),
            None => None,
        }
    }

    /// The value that the cursor shows; empty where it is invalid.
    pub closed spec fn shown_value(&self) -> Seq<u8> {
        match self.cursor {
            Some((k, v)) => v@,
            None => Seq::empty(),
        }
    }

    /// Whether the cursor is in order: where it is valid, it stands on an entry of the
    /// table within the bounds and shows that entry's value.
    pub open spec fn wf(&self) -> bool {
        match self.position() {
            Some(k) => in_range(self.entries(), self.lower(), self.upper(), k)
                && self.shown_value() == self.entries()[k],
            None => self.shown_value() == Seq::<u8>::empty(),
        }
    }

    /// Whether `other` walks the same table between the same bounds.
    pub open spec fn same_walk(&self, other: &Self) -> bool {
        &&& self.entries() == other.entries()
        &&& self.lower() == other.lower()
        &&& self.upper() == other.upper()
    }

    fn lower_limit(&self) -> (b: KeyBound<'_>)
        ensures
            b@ == self.lower(),
    {
        match &self.lower_bound {
            Some(k) => KeyBound::Included(k.as_slice()),
            None => KeyBound::Unbounded,
        }
    }

    fn upper_limit(&self) -> (b: KeyBound<'_>)
        ensures
            b@ == self.upper(),
    {
        match &self.upper_bound {
            Some(k) => KeyBound::Included(k.as_slice()),
            None => KeyBound::Unbounded,
        }
    }

    /// A cursor over `table` between the two bounds, each of which belongs to the
    /// interval. It starts on the first entry of the interval, and invalid where the
    /// interval holds none.
    pub fn new(
        table: &'a SkipMap<Vec<u8>, Vec<u8>>,
        lower_bound: Option<Vec<u8>>,
        upper_bound: Option<Vec<u8>>,
    ) -> (it: SkiplistEngineIterator<'a>)
        ensures
            it.wf(),
            it.entries() == table_entries(*table),
            it.lower() == limit_of(
                match lower_bound {
                    Some(k) => Some(k@),
                    None => None,
                },
            ),
            it.upper() == limit_of(
                match upper_bound {
                    Some(k) => Some(k@),
                    None => None,
                },
            ),
            it.position() == first_in(it.entries(), it.lower(), it.upper()),
    {
        let mut it = SkiplistEngineIterator { table, lower_bound, upper_bound, cursor: None };
        let found = first_entry_in(it.table, it.lower_limit(), it.upper_limit());
        it.cursor = found;
        it
    }

    /// Moves the cursor to the start or the end of its interval, or to the first entry of
    /// the interval whose key is `key` or greater. Tells whether the cursor is valid then.
    pub fn seek(&mut self, key: SeekKey<'_>) -> (r: Result<bool, Error>)
        requires
            old(self).wf(),
        ensures
            final(self).wf(),
            final(self).same_walk(old(self)),
            final(self).position() == match key {
                SeekKey::Start => first_in(old(self).entries(), old(self).lower(),
                    old(self).upper()),
                SeekKey::End => last_in(old(self).entries(), old(self).lower(), old(self).upper()),
                SeekKey::Key(k) => first_in(
                    old(self).entries(),
                    seek_lower(old(self).lower(), k@),
                    old(self).upper(),
                ),
            },
            r == Ok::<bool, Error>(final(self).position() is Some),
    {
        let found = match key {
            SeekKey::Start => first_entry_in(self.table, self.lower_limit(), self.upper_limit()),
            SeekKey::End => last_entry_in(self.table, self.lower_limit(), self.upper_limit()),
            SeekKey::Key(k) => {
                if key_above(self.lower_limit(), k) {
                    first_entry_in(self.table, KeyBound::Included(k), self.upper_limit())
                } else {
                    first_entry_in(self.table, self.lower_limit(), self.upper_limit())
                }
            },
        };
        proof {
            match &found {
                Some((k, v)) => {
                    if let SeekKey::Key(target) = key {
                        if above(self.lower(), target@) {
                            lemma_above_behind(self.lower(), target@, k@);
                        }
                    }
                },
                None => {},
            }
        }
        let valid = found.is_some();
        self.cursor = found;
        Ok(valid)
    }

    /// Moves the cursor to the start or the end of its interval, or to the last entry of
    /// the interval whose key is `key` or smaller. Tells whether the cursor is valid then.
    pub fn seek_for_prev(&mut self, key: SeekKey<'_>) -> (r: Result<bool, Error>)
        requires
            old(self).wf(),
        ensures
            final(self).wf(),
            final(self).same_walk(old(self)),
            final(self).position() == match key {
                SeekKey::Start => first_in(old(self).entries(), old(self).lower(),
                    old(self).upper()),
                SeekKey::End => last_in(old(self).entries(), old(self).lower(), old(self).upper()),
                SeekKey::Key(k) => last_in(
                    old(self).entries(),
                    old(self).lower(),
                    seek_upper(old(self).upper(), k@),
                ),
            },
            r == Ok::<bool, Error>(final(self).position() is Some),
    {
        let found = match key {
            SeekKey::Start => first_entry_in(self.table, self.lower_limit(), self.upper_limit()),
            SeekKey::End => last_entry_in(self.table, self.lower_limit(), self.upper_limit()),
            SeekKey::Key(k) => {
                if key_below(self.upper_limit(), k) {
                    last_entry_in(self.table, self.lower_limit(), KeyBound::Included(k))
                } else {
                    last_entry_in(self.table, self.lower_limit(), self.upper_limit())
                }
            },
        };
        proof {
            match &found {
                Some((k, v)) => {
                    if let SeekKey::Key(target) = key {
                        if below(self.upper(), target@) {
                            lemma_below_before(self.upper(), k@, target@);
                        }
                    }
                },
                None => {},
            }
        }
        let valid = found.is_some();
        self.cursor = found;
        Ok(valid)
    }

    /// Moves the cursor to the next entry of its interval: the one with the smallest key
    /// greater than the key it stands on. Past the last entry the cursor is invalid, and
    /// an invalid cursor stays so. Tells whether the cursor is valid then.
    pub fn next(&mut self) -> (r: Result<bool, Error>)
        requires
            old(self).wf(),
        ensures
            final(self).wf(),
            final(self).same_walk(old(self)),
            final(self).position() == match old(self).position() {
                Some(k) => first_in(old(self).entries(), Limit::Excluded(k), old(self).upper()),
                None => None,
            },
            r == Ok::<bool, Error>(final(self).position() is Some),
    {
        let found = match &self.cursor {
            Some((k, v)) => first_entry_in(
                self.table,
                KeyBound::Excluded(k.as_slice()),
                self.upper_limit(),
            ),
            None => None,
        };
        proof {
            match (&found, old(self).position()) {
                (Some((j, v)), Some(k)) => {
                    lemma_above_behind(self.lower(), k, j@);
                },
                _ => {},
            }
        }
        let valid = found.is_some();
        self.cursor = found;
        Ok(valid)
    }

    /// Moves the cursor to the previous entry of its interval: the one with the greatest
    /// key smaller than the key it stands on. Before the first entry the cursor is
    /// invalid, and an invalid cursor stays so. Tells whether the cursor is valid then.
    pub fn prev(&mut self) -> (r: Result<bool, Error>)
        requires
            old(self).wf(),
        ensures
            final(self).wf(),
            final(self).same_walk(old(self)),
            final(self).position() == match old(self).position() {
                Some(k) => last_in(old(self).entries(), old(self).lower(), Limit::Excluded(k)),
                None => None,
            },
            r == Ok::<bool, Error>(final(self).position() is Some),
    {
        let found = match &self.cursor {
            Some((k, v)) => last_entry_in(
                self.table,
                self.lower_limit(),
                KeyBound::Excluded(k.as_slice()),
            ),
            None => None,
        };
        proof {
            match (&found, old(self).position()) {
                (Some((j, v)), Some(k)) => {
                    lemma_below_before(self.upper(), j@, k);
                },
                _ => {},
            }
        }
        let valid = found.is_some();
        self.cursor = found;
        Ok(valid)
    }

    /// The key on which the cursor stands; no bytes where it is invalid.
    pub fn key(&self) -> (k: &[u8])
        ensures
            k@ == match self.position() {
                Some(p) => p,
                None => Seq::<u8>::empty(),
            },
    {
        match &self.cursor {
            Some((k, v)) => k.as_slice(),
            None => &[],
        }
    }

    /// The value of the entry on which the cursor stands; no bytes where it is invalid.
    pub fn value(&self) -> (v: &[u8])
        ensures
            v@ == self.shown_value(),
    {
        match &self.cursor {
            Some((k, v)) => v.as_slice(),
            None => &[],
        }
    }

    /// Whether the cursor stands on an entry.
    pub fn valid(&self) -> (r: Result<bool, Error>)
        ensures
            r == Ok::<bool, Error>(self.position() is Some),
    {
        Ok(self.cursor.is_some())
    }
}

/// The keys and values of a row of entries, as mathematical values.
pub open spec fn pairs_view(entries: Seq<(Vec<u8>, Vec<u8>)>) -> Seq<(Seq<u8>, Seq<u8>)> {
    Seq::new(entries.len(), |i: int| (entries[i].0@, entries[i].1@))
}

impl<'a> SkiplistEngineIterator<'a> {
    /// What is left of the walk: the entry on which the cursor stands and the entries of
    /// the interval behind it, in ascending order of their keys.
    pub open spec fn remaining(&self) -> Seq<(Seq<u8>, Seq<u8>)> {
        match self.position() {
            Some(k) => seq![(k, self.entries()[k])] + listing(
                self.entries(),
                Limit::Excluded(k),
                self.upper(),
            ),
            None => Seq::empty(),
        }
    }

    /// A cursor at the start of its interval has the whole interval before it.
    pub proof fn lemma_remaining_at_start(&self)
        requires
            self.entries().dom().finite(),
            self.position() == first_in(self.entries(), self.lower(), self.upper()),
        ensures
            self.remaining() == listing(self.entries(), self.lower(), self.upper()),
    {
        match first_in(self.entries(), self.lower(), self.upper()) {
            Some(k) => {},
            None => {},
        }
    }

    /// Walks the cursor to the end of its interval and returns the entries that it
    /// visits, the one on which it stands first.
    pub fn collect_rest(&mut self) -> (out: Vec<(Vec<u8>, Vec<u8>)>)
        requires
            old(self).wf(),
            old(self).entries().dom().finite(),
        ensures
            final(self).wf(),
            final(self).same_walk(old(self)),
            final(self).position() is None,
            pairs_view(out@) == old(self).remaining(),
    {
        let mut out: Vec<(Vec<u8>, Vec<u8>)> = Vec::new();
        proof {
            assert(pairs_view(out@) + self.remaining() =~= old(self).remaining());
        }
        while self.cursor.is_some()
            invariant
                self.wf(),
                self.same_walk(old(self)),
                self.entries().dom().finite(),
                pairs_view(out@) + self.remaining() == old(self).remaining(),
            decreases
                    match self.position() {
                        Some(k) => keys_in(self.entries(), Limit::Excluded(k), self.upper()).len()
                            + 1,
                        None => 0,
                    },
        {
            let ghost before = *self;
            let ghost collected = pairs_view(out@);
            let key = vstd::slice::slice_to_vec(self.key());
            let value = vstd::slice::slice_to_vec(self.value());
            out.push((key, value));
            let _ = self.next();
            proof {
                let k = before.position()->Some_0;
                let m = self.entries();
                assert(pairs_view(out@) =~= collected.push((k, m[k])));
                match self.position() {
                    Some(j) => {
                        lemma_first_in_of(m, Limit::Excluded(k), self.upper());
                        lemma_fewer_keys_after_first(m, Limit::Excluded(k), self.upper(), j);
                    },
                    None => {},
                }
                assert(pairs_view(out@) + self.remaining() =~= collected + before.remaining());
            }
        }
        proof {
            assert(pairs_view(out@) + self.remaining() =~= pairs_view(out@));
        }
        out
    }
}

} // verus!
