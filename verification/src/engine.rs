//! The engine: a set of named column families, each an ordered table of its own, with a
//! count of the bytes that all their entries take.

use vstd::prelude::*;
use vstd::slice::slice_to_vec;
use crossbeam_skiplist::SkipMap;
use crate::errors::{no_such_cf, Error};
use crate::model::{first_in, is_first_in, lemma_wrapped_distinct, 
    entry_size, lemma_map_bytes_empty, lemma_map_bytes_insert, lemma_map_bytes_remove,
    lemma_tables_bytes_update, lemma_wrapped_add, lemma_wrapped_sub, map_bytes, tables_bytes,
    wrapped, Entries,
};
use crate::iterator::{limit_of, SkiplistEngineIterator};
use crate::options::{IterOptions, ReadOptions};
use crate::lex::{lex_le, lex_lt};
use crate::seek::{first_entry_in, SkiplistTable};
use crate::table::{
    table_entries, table_get, table_insert, table_new, table_remove, KeyBound, Limit,
};

verus! {

/// The name of the column family that every engine built without names has.
pub const CF_DEFAULT: &'static str = "default";

/// The token that stands for one column family: its name, and a sequence number that
/// no other family of the engine has.
#[derive(Clone, Debug)]
pub struct SkiplistCFHandle {
    pub cf_name: String,
    pub seq_no: usize,
}

/// Collects the names of the column families of an engine to be built.
pub struct SkiplistEngineBuilder {
    cf_names: Vec<String>,
    first_seq_no: usize,
}

/// The names in `s` in their order, each at its first place only.
pub open spec fn distinct_names(s: Seq<Seq<char>>) -> Seq<Seq<char>>
    decreases s.len(),
{
    if s.len() == 0 {
        Seq::empty()
    } else {
        let d = distinct_names(s.drop_last());
        if d.contains(s.last()) {
            d
        } else {
            d.push(s.last())
        }
    }
}

/// Every name of `s`, and no other, is among `distinct_names(s)`, once.
pub proof fn lemma_distinct_names(s: Seq<Seq<char>>)
    ensures
        distinct_names(s).no_duplicates(),
        forall|n: Seq<char>| distinct_names(s).contains(n) <==> s.contains(n),
    decreases s.len(),
{
    if s.len() > 0 {
        let d = distinct_names(s.drop_last());
        lemma_distinct_names(s.drop_last());
        assert forall|n: Seq<char>| distinct_names(s).contains(n) <==> s.contains(n) by {
            if s.contains(n) {
                let i = choose|i: int| 0 <= i < s.len() && s[i] == n;
                if i < s.len() - 1 {
                    assert(s.drop_last()[i] == n);
                    assert(s.drop_last().contains(n));
                    assert(d.contains(n));
                    let j = choose|j: int| 0 <= j < d.len() && d[j] == n;
                    assert(distinct_names(s)[j] == n);
                } else {
                    if !d.contains(n) {
                        assert(d.push(n)[d.len() as int] == n);
                    }
                }
            }
            if distinct_names(s).contains(n) {
                let j = choose|j: int| 0 <= j < distinct_names(s).len()
                    && distinct_names(s)[j] == n;
                if j < d.len() {
                    assert(d[j] == n);
                    assert(d.contains(n));
                    assert(s.drop_last().contains(n));
                    let i = choose|i: int| 0 <= i < s.drop_last().len() && s.drop_last()[i] == n;
                    assert(s[i] == n);
                } else {
                    assert(s[s.len() - 1] == n);
                }
            }
        }
    }
}

/// The sequence number of the family at place `i` of an engine whose first family got
/// `first`: numbers are given out in order and wrap around past the greatest.
pub open spec fn seq_no_at(first: usize, i: int) -> int {
    wrapped(first + i)
}

impl SkiplistEngineBuilder {
    /// The names collected so far.
    pub closed spec fn names(&self) -> Seq<Seq<char>> {
        Seq::new(self.cf_names@.len(), |i: int| self.cf_names@[i]@)
    }

    /// The sequence number that the first family of the engine will get.
    pub closed spec fn first_seq_no(&self) -> usize {
        self.first_seq_no
    }

    /// A builder without names, whose families are numbered from 0.
    pub fn new() -> (b: SkiplistEngineBuilder)
        ensures
            b.names() == Seq::<Seq<char>>::empty(),
            b.first_seq_no() == 0,
    {
        let b = SkiplistEngineBuilder { cf_names: Vec::new(), first_seq_no: 0 };
        assert(b.names() =~= Seq::<Seq<char>>::empty());
        b
    }

    /// Replaces the names collected so far by `names`.
    pub fn cf_names(self, names: &[&str]) -> (b: SkiplistEngineBuilder)
        ensures
            b.names() == Seq::new(names@.len(), |i: int| names@[i]@),
            b.first_seq_no() == self.first_seq_no(),
    {
        let mut owned: Vec<String> = Vec::new();
        let mut i: usize = 0;
        while i < names.len()
            invariant
                i <= names@.len(),
                owned@.len() == i,
                forall|j: int| 0 <= j < i ==> owned@[j]@ == names@[j]@,
            decreases names.len() - i,
        {
            owned.push(names[i].to_owned());
            i += 1;
        }
        let b = SkiplistEngineBuilder { cf_names: owned, first_seq_no: self.first_seq_no };
        assert(b.names() =~= Seq::new(names@.len(), |i: int| names@[i]@));
        b
    }

    /// Sets the sequence number that the first family of the engine will get. Engines
    /// that are to be told apart are given ranges of numbers that do not meet.
    pub fn seq_no_start(self, first: usize) -> (b: SkiplistEngineBuilder)
        ensures
            b.names() == self.names(),
            b.first_seq_no() == first,
    {
        SkiplistEngineBuilder { cf_names: self.cf_names, first_seq_no: first }
    }

    /// The names of the families that `build` will make: the collected names, each once,
    /// or `default` alone where none was collected.
    pub open spec fn family_names(&self) -> Seq<Seq<char>> {
        if self.names().len() == 0 {
            seq![CF_DEFAULT@]
        } else {
            distinct_names(self.names())
        }
    }

    /// Builds the engine: one empty table for each name, and no bytes counted.
    pub fn build(self) -> (engine: SkiplistEngine)
        ensures
            engine.wf(),
            engine.names() == self.family_names(),
            forall|n: Seq<char>| engine@.dom().contains(n) <==> self.family_names().contains(n),
            forall|n: Seq<char>| engine@.dom().contains(n)
                ==> engine@[n] == Map::<Seq<u8>, Seq<u8>>::empty(),
            forall|i: int| 0 <= i < engine.tables().len()
                ==> engine.tables()[i] == Map::<Seq<u8>, Seq<u8>>::empty(),
            forall|i: int| 0 <= i < engine.seq_nos().len()
                ==> engine.seq_nos()[i] as int == seq_no_at(self.first_seq_no(), i),
            engine.counted_bytes() == 0,
            engine.live_bytes() == 0,
    {
        let mut engine = SkiplistEngine { total_bytes: 0, handles: Vec::new(), tables: Vec::new() };
        let mut next_seq_no: usize = self.first_seq_no;
        proof {
            assert(engine.names() =~= Seq::<Seq<char>>::empty());
            assert(engine.tables() =~= Seq::<Entries>::empty());
            assert(engine.seq_nos() =~= Seq::<usize>::empty());
            vstd::arithmetic::div_mod::lemma_small_mod(0, (usize::MAX as int + 1) as nat);
            vstd::arithmetic::div_mod::lemma_small_mod(
                self.first_seq_no as nat,
                (usize::MAX as int + 1) as nat,
            );
        }
        if self.cf_names.len() == 0 {
            engine.register(CF_DEFAULT.to_owned(), next_seq_no);
            proof {
                assert(engine.names() =~= seq![CF_DEFAULT@]);
                engine.lemma_all_empty();
            }
            return engine;
        }
        let mut i: usize = 0;
        while i < self.cf_names.len()
            invariant
                i <= self.cf_names@.len(),
                engine.wf(),
                engine.names() == distinct_names(self.names().take(i as int)),
                forall|j: int| 0 <= j < engine.tables().len()
                    ==> engine.tables()[j] == Map::<Seq<u8>, Seq<u8>>::empty(),
                forall|j: int| 0 <= j < engine.seq_nos().len()
                    ==> engine.seq_nos()[j] as int == seq_no_at(self.first_seq_no, j),
                next_seq_no as int == seq_no_at(self.first_seq_no, engine.names().len() as int),
                engine.counted_bytes() == 0,
                engine.live_bytes() == 0,
            decreases self.cf_names.len() - i,
        {
            let name = self.cf_names[i].clone();
            proof {
                assert(self.names().take(i + 1).drop_last() =~= self.names().take(i as int));
                assert(self.names().take(i + 1).last() == name@);
            }
            if engine.find_cf(name.as_str()).is_none() {
                let count: usize = engine.handles.len();
                proof {
                    let n = engine.names().len() as int;
                    assert(n == count);
                    lemma_wrapped_add(next_seq_no, self.first_seq_no + n, 1);
                    assert forall|j: int| 0 <= j < n implies engine.seq_nos()[j] != next_seq_no by {
                        lemma_wrapped_distinct(self.first_seq_no + j, self.first_seq_no + n);
                    }
                }
                engine.register(name, next_seq_no);
                next_seq_no = next_seq_no.wrapping_add(1);
            }
            i += 1;
        }
        proof {
            assert(self.names().take(i as int) =~= self.names());
            engine.lemma_all_empty();
        }
        engine
    }
}

/// The engine: its column families and the count of the bytes their entries take.
#[derive(Debug)]
pub struct SkiplistEngine {
    total_bytes: usize,
    handles: Vec<SkiplistCFHandle>,
    tables: Vec<SkipMap<Vec<u8>, Vec<u8>>>,
}

impl View for SkiplistEngine {
    type V = Map<Seq<char>, Entries>;

    /// The entries of each column family, by the family's name.
    open spec fn view(&self) -> Map<Seq<char>, Entries> {
        Map::new(
            |n: Seq<char>| self.names().contains(n),
            |n: Seq<char>| self.tables()[self.names().index_of(n)],
        )
    }
}

impl SkiplistEngine {
    /// The names of the column families, in the order in which they were made.
    pub closed spec fn names(&self) -> Seq<Seq<char>> {
        Seq::new(self.handles@.len(), |i: int| self.handles@[i].cf_name@)
    }

    /// The sequence numbers of the column families, in the same order.
    pub closed spec fn seq_nos(&self) -> Seq<usize> {
        Seq::new(self.handles@.len(), |i: int| self.handles@[i].seq_no)
    }

    /// The entries of the column families, in the same order.
    pub closed spec fn tables(&self) -> Seq<Entries> {
        Seq::new(self.tables@.len(), |i: int| table_entries(self.tables@[i]))
    }

    /// What the byte counter shows.
    pub closed spec fn counted_bytes(&self) -> usize {
        self.total_bytes
    }

    /// The bytes that the entries of all column families take together.
    pub open spec fn live_bytes(&self) -> nat {
        tables_bytes(self.tables())
    }

    /// Whether the engine is in order: every family has one table and a name and a
    /// sequence number of its own, every table is finite and has no empty key, and the
    /// byte counter shows the bytes of all entries, wrapped to the counter's width.
    pub open spec fn wf(&self) -> bool {
        &&& self.names().len() == self.tables().len()
        &&& self.names().len() == self.seq_nos().len()
        &&& self.names().no_duplicates()
        &&& self.seq_nos().no_duplicates()
        &&& forall|i: int| 0 <= i < self.tables().len()
            ==> (#[trigger] self.tables()[i]).dom().finite()
        &&& forall|i: int, k: Seq<u8>| 0 <= i < self.tables().len()
            && #[trigger] self.tables()[i].dom().contains(k) ==> k.len() >= 1
        &&& self.counted_bytes() as int == wrapped(self.live_bytes() as int)
    }

    /// The place of the family called `n` among the families.
    pub open spec fn place_of(&self, n: Seq<char>) -> int {
        self.names().index_of(n)
    }

    /// In an engine that is in order, a family stands at one place only.
    pub proof fn lemma_place(&self, i: int)
        requires
            self.wf(),
            0 <= i < self.names().len(),
        ensures
            self.place_of(self.names()[i]) == i,
            self@.dom().contains(self.names()[i]),
            self@[self.names()[i]] == self.tables()[i],
    {
        let n = self.names()[i];
        assert(self.names().contains(n));
        let j = self.names().index_of(n);
        assert(0 <= j < self.names().len() && self.names()[j] == n);
    }

    /// An engine whose tables are all empty shows every family empty.
    proof fn lemma_all_empty(&self)
        requires
            self.wf(),
            forall|i: int| 0 <= i < self.tables().len()
                ==> self.tables()[i] == Map::<Seq<u8>, Seq<u8>>::empty(),
        ensures
            forall|n: Seq<char>| self@.dom().contains(n)
                ==> self@[n] == Map::<Seq<u8>, Seq<u8>>::empty(),
    {
        assert forall|n: Seq<char>| self@.dom().contains(n)
            implies self@[n] == Map::<Seq<u8>, Seq<u8>>::empty() by {
            let j = self.names().index_of(n);
            assert(0 <= j < self.names().len() && self.names()[j] == n);
        }
    }

    /// Adds an empty family. The name and the number must be new to the engine.
    fn register(&mut self, name: String, seq_no: usize)
        requires
            old(self).wf(),
            !old(self).names().contains(name@),
            !old(self).seq_nos().contains(seq_no),
        ensures
            final(self).wf(),
            final(self).names() == old(self).names().push(name@),
            final(self).seq_nos() == old(self).seq_nos().push(seq_no),
            final(self).tables() == old(self).tables().push(Map::<Seq<u8>, Seq<u8>>::empty()),
            final(self).counted_bytes() == old(self).counted_bytes(),
            final(self).live_bytes() == old(self).live_bytes(),
    {
        let table = table_new();
        self.handles.push(SkiplistCFHandle { cf_name: name, seq_no });
        self.tables.push(table);
        proof {
            assert(self.names() =~= old(self).names().push(name@));
            assert(self.seq_nos() =~= old(self).seq_nos().push(seq_no));
            assert(self.tables() =~= old(self).tables().push(Map::<Seq<u8>, Seq<u8>>::empty()));
            assert(self.tables().drop_last() =~= old(self).tables());
            lemma_map_bytes_empty(Map::<Seq<u8>, Seq<u8>>::empty());
        }
    }

    /// Finds the place of the family called `cf`.
    pub fn find_cf(&self, cf: &str) -> (r: Option<usize>)
        requires
            self.wf(),
        ensures
            match r {
                Some(i) => i < self.names().len() && self.names()[i as int] == cf@
                    && self.place_of(cf@) == i && self@.dom().contains(cf@),
                None => !self.names().contains(cf@) && !self@.dom().contains(cf@),
            },
    {
        let name = cf.to_owned();
        let mut i: usize = 0;
        while i < self.handles.len()
            invariant
                self.wf(),
                i <= self.handles@.len(),
                name@ == cf@,
                forall|j: int| 0 <= j < i ==> self.names()[j] != cf@,
            decreases self.handles.len() - i,
        {
            if self.handles[i].cf_name == name {
                proof {
                    self.lemma_place(i as int);
                }
                return Some(i);
            }
            i += 1;
        }
        None
    }

    /// What the byte counter shows.
    pub fn total_bytes(&self) -> (n: usize)
        ensures
            n == self.counted_bytes(),
    {
        self.total_bytes
    }

    /// The names of the column families, in the order in which they were made.
    pub fn cf_names(&self) -> (names: Vec<String>)
        ensures
            names@.len() == self.names().len(),
            forall|i: int| 0 <= i < names@.len() ==> names@[i]@ == self.names()[i],
    {
        let mut names: Vec<String> = Vec::new();
        let mut i: usize = 0;
        while i < self.handles.len()
            invariant
                i <= self.handles@.len(),
                names@.len() == i,
                forall|j: int| 0 <= j < i ==> names@[j]@ == self.names()[j],
            decreases self.handles.len() - i,
        {
            names.push(self.handles[i].cf_name.clone());
            i += 1;
        }
        names
    }

    /// The handle of the family called `cf`.
    pub fn cf_handle(&self, cf: &str) -> (r: Result<&SkiplistCFHandle, Error>)
        requires
            self.wf(),
        ensures
            match r {
                Ok(h) => self@.dom().contains(cf@) && h.cf_name@ == cf@
                    && h.seq_no == self.seq_nos()[self.place_of(cf@)],
                Err(e) => !self@.dom().contains(cf@) && no_such_cf(e, cf@),
            },
    {
        match self.find_cf(cf) {
            Some(i) => Ok(&self.handles[i]),
            None => Err(Error::CFName(cf.to_owned())),
        }
    }

    /// The skip list of the family called `cf`.
    pub(crate) fn table_of(&self, cf: &str) -> (r: Result<&SkipMap<Vec<u8>, Vec<u8>>, Error>)
        requires
            self.wf(),
        ensures
            match r {
                Ok(t) => self@.dom().contains(cf@) && table_entries(*t) == self@[cf@],
                Err(e) => !self@.dom().contains(cf@) && no_such_cf(e, cf@),
            },
    {
        match self.find_cf(cf) {
            Some(i) => Ok(&self.tables[i]),
            None => Err(Error::CFName(cf.to_owned())),
        }
    }

    /// The table of the family called `cf`, to read from. The handle shows the entries
    /// of the family and offers no way to write to them: the engine is written to through
    /// its own methods only, which keep its counter right.
    pub fn get_cf_engine(&self, cf: &str) -> (r: Result<SkiplistTable<'_>, Error>)
        requires
            self.wf(),
        ensures
            match r {
                Ok(t) => self@.dom().contains(cf@) && t.entries() == self@[cf@],
                Err(e) => !self@.dom().contains(cf@) && no_such_cf(e, cf@),
            },
    {
        match self.table_of(cf) {
            Ok(table) => Ok(SkiplistTable::of(table)),
            Err(e) => Err(e),
        }
    }
}

/// What one store of `value` under `key` makes of the entries of a family.
pub open spec fn put_entries(m: Entries, key: Seq<u8>, value: Seq<u8>) -> Entries {
    m.insert(key, value)
}

/// What one delete of `key` makes of the entries of a family.
pub open spec fn delete_entries(m: Entries, key: Seq<u8>) -> Entries {
    m.remove(key)
}

/// What a delete of every key from `begin` up to, and without, `end` makes of the entries
/// of a family.
pub open spec fn delete_range_entries(m: Entries, begin: Seq<u8>, end: Seq<u8>) -> Entries {
    Map::new(
        |k: Seq<u8>| m.dom().contains(k) && !(lex_le(begin, k) && lex_lt(k, end)),
        |k: Seq<u8>| m[k],
    )
}

/// The bytes that the entry of `key` takes in `m`: none where `m` has no such entry.
pub open spec fn bytes_at(m: Entries, key: Seq<u8>) -> nat {
    if m.dom().contains(key) {
        entry_size(key, m[key])
    } else {
        0
    }
}

/// Whether `r` is what a read of `key` in the family called `cf` returns from the
/// families `s`: the value stored under the key, nothing where the key has no entry, and
/// a failure that names the family where there is no such family.
pub open spec fn is_read(
    r: Result<Option<Vec<u8>>, Error>,
    s: Map<Seq<char>, Entries>,
    cf: Seq<char>,
    key: Seq<u8>,
) -> bool {
    match r {
        Ok(Some(v)) => s.dom().contains(cf) && s[cf].dom().contains(key) && v@ == s[cf][key],
        Ok(None) => s.dom().contains(cf) && !s[cf].dom().contains(key),
        Err(e) => !s.dom().contains(cf) && no_such_cf(e, cf),
    }
}

/// Whether `after` and `r` are what a write to the family called `cf` of `before` leaves
/// and returns, where the write makes `entries` of the family. The write succeeds where
/// the engine has the family: then only this family changes. Otherwise nothing changes,
/// and the failure names the family. Either way the engine stays in order, so that its
/// counter follows the bytes of its entries.
pub open spec fn is_write(
    r: Result<(), Error>,
    before: SkiplistEngine,
    after: SkiplistEngine,
    cf: Seq<char>,
    entries: Entries,
) -> bool {
    &&& after.wf()
    &&& after.names() == before.names()
    &&& after.seq_nos() == before.seq_nos()
    &&& match r {
        Ok(()) => {
            &&& before@.dom().contains(cf)
            &&& after@ == before@.insert(cf, entries)
            &&& after.live_bytes() + map_bytes(before@[cf]) == before.live_bytes() + map_bytes(
                entries,
            )
        },
        Err(e) => {
            &&& !before@.dom().contains(cf)
            &&& no_such_cf(e, cf)
            &&& after@ == before@
            &&& after.live_bytes() == before.live_bytes()
            &&& after.counted_bytes() == before.counted_bytes()
        },
    }
}

/// Whether `r` is a new cursor over the family called `cf` of the families `s`, between
/// the inclusive bounds given: the cursor stands on the first entry of the interval.
pub open spec fn is_cursor(
    r: Result<SkiplistEngineIterator<'_>, Error>,
    s: Map<Seq<char>, Entries>,
    cf: Seq<char>,
    lower: Option<Seq<u8>>,
    upper: Option<Seq<u8>>,
) -> bool {
    match r {
        Ok(it) => {
            &&& s.dom().contains(cf)
            &&& it.wf()
            &&& it.entries() == s[cf]
            &&& it.lower() == limit_of(lower)
            &&& it.upper() == limit_of(upper)
            &&& it.position() == first_in(it.entries(), it.lower(), it.upper())
        },
        Err(e) => !s.dom().contains(cf) && no_such_cf(e, cf),
    }
}

/// Whether `r` is what a search for the first entry of the family called `cf` with a key
/// not below `key` returns from the families `s`.
pub open spec fn is_sought(
    r: Result<Option<(Vec<u8>, Vec<u8>)>, Error>,
    s: Map<Seq<char>, Entries>,
    cf: Seq<char>,
    key: Seq<u8>,
) -> bool {
    match r {
        Ok(Some((k, v))) => {
            &&& s.dom().contains(cf)
            &&& first_in(s[cf], Limit::Included(key), Limit::Unbounded) == Some(k@)
            &&& is_first_in(s[cf], Limit::Included(key), Limit::Unbounded, k@)
            &&& s[cf][k@] == v@
        },
        Ok(None) => {
            &&& s.dom().contains(cf)
            &&& first_in(s[cf], Limit::Included(key), Limit::Unbounded) is None
            &&& forall|j: Seq<u8>| #[trigger] s[cf].dom().contains(j) ==> !lex_le(key, j)
        },
        Err(e) => !s.dom().contains(cf) && no_such_cf(e, cf),
    }
}

impl SkiplistEngine {
    /// An engine whose families are those of `before`, one table replaced, and whose
    /// counter follows the bytes, is in order, and differs from `before` in that one family.
    proof fn lemma_table_replaced(&self, before: &SkiplistEngine, i: int, m: Entries)
        requires
            before.wf(),
            0 <= i < before.names().len(),
            self.names() == before.names(),
            self.seq_nos() == before.seq_nos(),
            self.tables() == before.tables().update(i, m),
            m.dom().finite(),
            forall|k: Seq<u8>| m.dom().contains(k) ==> k.len() >= 1,
            self.counted_bytes() as int == wrapped(
                before.live_bytes() + map_bytes(m) - map_bytes(before.tables()[i]),
            ),
        ensures
            self.wf(),
            self@ == before@.insert(before.names()[i], m),
            self.live_bytes() + map_bytes(before.tables()[i]) == before.live_bytes() + map_bytes(m),
    {
        lemma_tables_bytes_update(before.tables(), i, m);
        assert forall|n: Seq<char>| self@.dom().contains(n) implies #[trigger] self@[n]
            == before@.insert(before.names()[i], m)[n] by {
            let j = self.names().index_of(n);
            assert(0 <= j < self.names().len() && self.names()[j] == n);
        }
        assert(self@ =~= before@.insert(before.names()[i], m));
    }

    /// In an engine that is in order every family is a finite map without an empty key.
    pub proof fn lemma_families(&self, cf: Seq<char>)
        requires
            self.wf(),
            self@.dom().contains(cf),
        ensures
            self@[cf].dom().finite(),
            forall|k: Seq<u8>| self@[cf].dom().contains(k) ==> k.len() >= 1,
    {
        let j = self.names().index_of(cf);
        assert(0 <= j < self.names().len() && self.names()[j] == cf);
        assert(self@[cf] == self.tables()[j]);
    }

    /// Reads the value stored under `key` in the family called `cf`.
    pub fn get_value_cf_opt(&self, opts: &ReadOptions, cf: &str, key: &[u8]) -> (r: Result<
        Option<Vec<u8>>,
        Error,
    >)
        requires
            self.wf(),
        ensures
            is_read(r, self@, cf@, key@),
    {
        match self.table_of(cf) {
            Ok(table) => Ok(table_get(table, key)),
            Err(e) => Err(e),
        }
    }

    /// Reads the value stored under `key` in the default family.
    pub fn get_value_opt(&self, opts: &ReadOptions, key: &[u8]) -> (r: Result<
        Option<Vec<u8>>,
        Error,
    >)
        requires
            self.wf(),
        ensures
            is_read(r, self@, CF_DEFAULT@, key@),
    {
        self.get_value_cf_opt(opts, CF_DEFAULT, key)
    }

    /// Reads the value stored under `key` in the family called `cf`, with the options
    /// that a read has when none are given.
    pub fn get_value_cf(&self, cf: &str, key: &[u8]) -> (r: Result<Option<Vec<u8>>, Error>)
        requires
            self.wf(),
        ensures
            is_read(r, self@, cf@, key@),
    {
        let opts = ReadOptions::new();
        self.get_value_cf_opt(&opts, cf, key)
    }

    /// Reads the value stored under `key` in the default family.
    pub fn get_value(&self, key: &[u8]) -> (r: Result<Option<Vec<u8>>, Error>)
        requires
            self.wf(),
        ensures
            is_read(r, self@, CF_DEFAULT@, key@),
    {
        self.get_value_cf(CF_DEFAULT, key)
    }

    /// Stores `value` under `key` in the family called `cf`, in place of what the key had
    /// before. The counter gains the bytes of the new entry and loses those of the entry
    /// that it replaces.
    pub fn put_cf(&mut self, cf: &str, key: &[u8], value: &[u8]) -> (r: Result<(), Error>)
        requires
            old(self).wf(),
            key@.len() >= 1,
        ensures
            is_write(
                r,
                *old(self),
                *final(self),
                cf@,
                put_entries(old(self)@[cf@], key@, value@),
            ),
            r is Ok ==> final(self).live_bytes() == old(self).live_bytes() - bytes_at(
                old(self)@[cf@],
                key@,
            ) + entry_size(key@, value@),
    {
        let i = match self.find_cf(cf) {
            Some(i) => i,
            None => {
                return Err(Error::CFName(cf.to_owned()));
            },
        };
        let ghost before = *self;
        let ghost m = self.tables()[i as int];
        let ghost live = self.live_bytes() as int;
        proof {
            self.lemma_place(i as int);
        }
        let replaced = table_get(&self.tables[i], key);
        table_insert(&mut self.tables[i], slice_to_vec(key), slice_to_vec(value));
        proof {
            lemma_map_bytes_insert(m, key@, value@);
            if m.dom().contains(key@) {
                lemma_map_bytes_remove(m, key@);
            } else {
                assert(m.remove(key@) =~= m);
            }
        }
        let mut total: usize = self.total_bytes;
        match replaced {
            Some(v) => {
                proof {
                    lemma_wrapped_sub(total, live, key.len());
                    lemma_wrapped_sub(total.wrapping_sub(key.len()), live - key@.len(), v.len());
                }
                total = total.wrapping_sub(key.len()).wrapping_sub(v.len());
            },
            None => {},
        }
        let ghost rest = live - bytes_at(m, key@);
        proof {
            lemma_wrapped_add(total, rest, key.len());
            lemma_wrapped_add(total.wrapping_add(key.len()), rest + key@.len(), value.len());
        }
        self.total_bytes = total.wrapping_add(key.len()).wrapping_add(value.len());
        proof {
            assert(self.names() =~= before.names());
            assert(self.seq_nos() =~= before.seq_nos());
            assert(self.tables() =~= before.tables().update(i as int, m.insert(key@, value@)));
            self.lemma_table_replaced(&before, i as int, m.insert(key@, value@));
        }
        Ok(())
    }

    /// Stores `value` under `key` in the default family.
    pub fn put(&mut self, key: &[u8], value: &[u8]) -> (r: Result<(), Error>)
        requires
            old(self).wf(),
            key@.len() >= 1,
        ensures
            is_write(
                r,
                *old(self),
                *final(self),
                CF_DEFAULT@,
                put_entries(old(self)@[CF_DEFAULT@], key@, value@),
            ),
            r is Ok ==> final(self).live_bytes() == old(self).live_bytes() - bytes_at(
                old(self)@[CF_DEFAULT@],
                key@,
            ) + entry_size(key@, value@),
    {
        self.put_cf(CF_DEFAULT, key, value)
    }

    /// Removes the entry of `key` from the family called `cf`; a key without an entry is
    /// no failure. The counter loses the bytes of the entry removed.
    pub fn delete_cf(&mut self, cf: &str, key: &[u8]) -> (r: Result<(), Error>)
        requires
            old(self).wf(),
        ensures
            is_write(r, *old(self), *final(self), cf@, delete_entries(old(self)@[cf@], key@)),
            r is Ok ==> final(self).live_bytes() == old(self).live_bytes() - bytes_at(
                old(self)@[cf@],
                key@,
            ),
            !old(self)@[cf@].dom().contains(key@) ==> final(self).counted_bytes() == old(
                self,
            ).counted_bytes(),
    {
        let i = match self.find_cf(cf) {
            Some(i) => i,
            None => {
                return Err(Error::CFName(cf.to_owned()));
            },
        };
        let ghost before = *self;
        let ghost m = self.tables()[i as int];
        let ghost live = self.live_bytes() as int;
        proof {
            self.lemma_place(i as int);
        }
        let removed = table_remove(&mut self.tables[i], key);
        match removed {
            Some(v) => {
                proof {
                    lemma_map_bytes_remove(m, key@);
                    lemma_wrapped_sub(self.total_bytes, live, key.len());
                    lemma_wrapped_sub(
                        self.total_bytes.wrapping_sub(key.len()),
                        live - key@.len(),
                        v.len(),
                    );
                }
                self.total_bytes = self.total_bytes.wrapping_sub(key.len()).wrapping_sub(v.len());
            },
            None => {
                proof {
                    assert(m.remove(key@) =~= m);
                }
            },
        }
        proof {
            assert(self.names() =~= before.names());
            assert(self.seq_nos() =~= before.seq_nos());
            assert(self.tables() =~= before.tables().update(i as int, m.remove(key@)));
            self.lemma_table_replaced(&before, i as int, m.remove(key@));
        }
        Ok(())
    }

    /// Removes the entry of `key` from the default family.
    pub fn delete(&mut self, key: &[u8]) -> (r: Result<(), Error>)
        requires
            old(self).wf(),
        ensures
            is_write(
                r,
                *old(self),
                *final(self),
                CF_DEFAULT@,
                delete_entries(old(self)@[CF_DEFAULT@], key@),
            ),
            r is Ok ==> final(self).live_bytes() == old(self).live_bytes() - bytes_at(
                old(self)@[CF_DEFAULT@],
                key@,
            ),
            !old(self)@[CF_DEFAULT@].dom().contains(key@) ==> final(self).counted_bytes() == old(
                self,
            ).counted_bytes(),
    {
        self.delete_cf(CF_DEFAULT, key)
    }

    /// Removes from the family called `cf` every entry whose key lies from `begin_key` up
    /// to, and without, `end_key`. The counter loses the bytes of the entries removed.
    pub fn delete_range_cf(&mut self, cf: &str, begin_key: &[u8], end_key: &[u8]) -> (r: Result<
        (),
        Error,
    >)
        requires
            old(self).wf(),
        ensures
            is_write(
                r,
                *old(self),
                *final(self),
                cf@,
                delete_range_entries(old(self)@[cf@], begin_key@, end_key@),
            ),
    {
        let i = match self.find_cf(cf) {
            Some(i) => i,
            None => {
                return Err(Error::CFName(cf.to_owned()));
            },
        };
        let ghost before = *self;
        let ghost m0 = self.tables()[i as int];
        proof {
            self.lemma_place(i as int);
            assert(self.tables() =~= before.tables().update(i as int, m0));
        }
        loop
            invariant
                before.wf(),
                self.wf(),
                0 <= i < before.names().len(),
                m0 == before.tables()[i as int],
                self.names() == before.names(),
                self.seq_nos() == before.seq_nos(),
                self.tables() == before.tables().update(i as int, self.tables()[i as int]),
                forall|k: Seq<u8>| #[trigger]
                    self.tables()[i as int].dom().contains(k) ==> m0.dom().contains(k)
                        && self.tables()[i as int][k] == m0[k],
                forall|k: Seq<u8>| #[trigger]
                    m0.dom().contains(k) && !(lex_le(begin_key@, k) && lex_lt(k, end_key@))
                        ==> self.tables()[i as int].dom().contains(k),
                self.live_bytes() + map_bytes(m0) == before.live_bytes() + map_bytes(
                    self.tables()[i as int],
                ),
            ensures
                self.wf(),
                self.names() == before.names(),
                self.seq_nos() == before.seq_nos(),
                self.tables() == before.tables().update(
                    i as int,
                    delete_range_entries(m0, begin_key@, end_key@),
                ),
                self.live_bytes() + map_bytes(m0) == before.live_bytes() + map_bytes(
                    delete_range_entries(m0, begin_key@, end_key@),
                ),
            decreases self.tables()[i as int].dom().len(),
        {
            let ghost prev = *self;
            let ghost m = self.tables()[i as int];
            let found = first_entry_in(
                &self.tables[i],
                KeyBound::Included(begin_key),
                KeyBound::Excluded(end_key),
            );
            match found {
                None => {
                    proof {
                        assert(m =~= delete_range_entries(m0, begin_key@, end_key@));
                    }
                    break ;
                },
                Some((k, v)) => {
                    let _ = table_remove(&mut self.tables[i], k.as_slice());
                    proof {
                        lemma_map_bytes_remove(m, k@);
                        lemma_wrapped_sub(self.total_bytes, prev.live_bytes() as int, k.len());
                        lemma_wrapped_sub(
                            self.total_bytes.wrapping_sub(k.len()),
                            prev.live_bytes() - k@.len(),
                            v.len(),
                        );
                    }
                    self.total_bytes = self.total_bytes.wrapping_sub(k.len()).wrapping_sub(v.len());
                    proof {
                        assert(self.names() =~= prev.names());
                        assert(self.seq_nos() =~= prev.seq_nos());
                        assert(self.tables() =~= prev.tables().update(i as int, m.remove(k@)));
                        self.lemma_table_replaced(&prev, i as int, m.remove(k@));
                        assert(self.tables() =~= before.tables().update(i as int, m.remove(k@)));
                    }
                },
            }
        }
        proof {
            let m1 = delete_range_entries(m0, begin_key@, end_key@);
            assert(self@ =~= before@.insert(cf@, m1)) by {
                assert forall|n: Seq<char>| self@.dom().contains(n) implies #[trigger] self@[n]
                    == before@.insert(cf@, m1)[n] by {
                    let j = self.names().index_of(n);
                    assert(0 <= j < self.names().len() && self.names()[j] == n);
                }
            }
        }
        Ok(())
    }

    /// Does nothing: there is nothing to write out.
    pub fn sync(&self) -> (r: Result<(), Error>)
        ensures
            r is Ok,
    {
        Ok(())
    }

    /// A cursor over the family called `cf` between the bounds that `opts` gives, each of
    /// which belongs to the interval. The cursor starts on the first entry of the interval.
    pub fn iterator_cf_opt(&self, cf: &str, opts: IterOptions) -> (r: Result<
        SkiplistEngineIterator<'_>,
        Error,
    >)
        requires
            self.wf(),
        ensures
            is_cursor(r, self@, cf@, opts.lower(), opts.upper()),
    {
        match self.table_of(cf) {
            Ok(table) => {
                let (lower, upper) = opts.into_bounds();
                Ok(SkiplistEngineIterator::new(table, lower, upper))
            },
            Err(e) => Err(e),
        }
    }

    /// A cursor over the default family between the bounds that `opts` gives.
    pub fn iterator_opt(&self, opts: IterOptions) -> (r: Result<SkiplistEngineIterator<'_>, Error>)
        requires
            self.wf(),
        ensures
            is_cursor(r, self@, CF_DEFAULT@, opts.lower(), opts.upper()),
    {
        self.iterator_cf_opt(CF_DEFAULT, opts)
    }

    /// A cursor over all of the family called `cf`.
    pub fn iterator_cf(&self, cf: &str) -> (r: Result<SkiplistEngineIterator<'_>, Error>)
        requires
            self.wf(),
        ensures
            is_cursor(r, self@, cf@, None, None),
    {
        self.iterator_cf_opt(cf, IterOptions::unbounded())
    }

    /// A cursor over all of the default family.
    pub fn iterator(&self) -> (r: Result<SkiplistEngineIterator<'_>, Error>)
        requires
            self.wf(),
        ensures
            is_cursor(r, self@, CF_DEFAULT@, None, None),
    {
        self.iterator_cf(CF_DEFAULT)
    }

    /// The first entry of the family called `cf` whose key is `key` or greater.
    pub fn seek_cf(&self, cf: &str, key: &[u8]) -> (r: Result<Option<(Vec<u8>, Vec<u8>)>, Error>)
        requires
            self.wf(),
        ensures
            is_sought(r, self@, cf@, key@),
    {
        match self.table_of(cf) {
            Ok(table) => Ok(first_entry_in(table, KeyBound::Included(key), KeyBound::Unbounded)),
            Err(e) => Err(e),
        }
    }

    /// The first entry of the default family whose key is `key` or greater.
    pub fn seek(&self, key: &[u8]) -> (r: Result<Option<(Vec<u8>, Vec<u8>)>, Error>)
        requires
            self.wf(),
        ensures
            is_sought(r, self@, CF_DEFAULT@, key@),
    {
        self.seek_cf(CF_DEFAULT, key)
    }
}

} // verus!
