//! A snapshot: a read handle on an engine. While a snapshot is held the engine is not
//! written to, so every read through it sees the engine as it was when the snapshot was
//! taken.

use vstd::prelude::*;
use crate::engine::{is_cursor, is_read, SkiplistEngine, CF_DEFAULT};
use crate::errors::Error;
use crate::iterator::SkiplistEngineIterator;
use crate::model::Entries;
use crate::options::{IterOptions, ReadOptions};

verus! {

/// A read handle on an engine.
pub struct SkiplistSnapshot<'a> {
    engine: &'a SkiplistEngine,
}

impl<'a> View for SkiplistSnapshot<'a> {
    type V = Map<Seq<char>, Entries>;

    /// The entries of each column family that the snapshot shows.
    closed spec fn view(&self) -> Map<Seq<char>, Entries> {
        self.engine@
    }
}

impl<'a> SkiplistSnapshot<'a> {
    /// Whether the snapshot is in order: the engine it reads is.
    pub closed spec fn wf(&self) -> bool {
        self.engine.wf()
    }

    /// A snapshot of `engine`.
    pub fn new(engine: &'a SkiplistEngine) -> (s: SkiplistSnapshot<'a>)
        requires
            engine.wf(),
        ensures
            s.wf(),
            s@ == engine@,
    {
        SkiplistSnapshot { engine }
    }

    /// Reads the value stored under `key` in the family called `cf`.
    pub fn get_value_cf_opt(&self, opts: &ReadOptions, cf: &str, key: &[u8]) -> (r: Result<
        Option<Vec<u8>>,
        Error,
    >)
        requires
            self.wf(),
        ensures
            is_read(r, self@, cf@, key@),
    {
        self.engine.get_value_cf_opt(opts, cf, key)
    }

    /// Reads the value stored under `key` in the default family.
    pub fn get_value_opt(&self, opts: &ReadOptions, key: &[u8]) -> (r: Result<
        Option<Vec<u8>>,
        Error,
    >)
        requires
            self.wf(),
        ensures
            is_read(r, self@, CF_DEFAULT@, key@),
    {
        self.engine.get_value_opt(opts, key)
    }

    /// Reads the value stored under `key` in the family called `cf`.
    pub fn get_value_cf(&self, cf: &str, key: &[u8]) -> (r: Result<Option<Vec<u8>>, Error>)
        requires
            self.wf(),
        ensures
            is_read(r, self@, cf@, key@),
    {
        self.engine.get_value_cf(cf, key)
    }

    /// Reads the value stored under `key` in the default family.
    pub fn get_value(&self, key: &[u8]) -> (r: Result<Option<Vec<u8>>, Error>)
        requires
            self.wf(),
        ensures
            is_read(r, self@, CF_DEFAULT@, key@),
    {
        self.engine.get_value(key)
    }

    /// A cursor over the family called `cf` between the bounds that `opts` gives.
    pub fn iterator_cf_opt(&self, cf: &str, opts: IterOptions) -> (r: Result<
        SkiplistEngineIterator<'a>,
        Error,
    >)
        requires
            self.wf(),
        ensures
            is_cursor(r, self@, cf@, opts.lower(), opts.upper()),
    {
        self.engine.iterator_cf_opt(cf, opts)
    }

    /// A cursor over the default family between the bounds that `opts` gives.
    pub fn iterator_opt(&self, opts: IterOptions) -> (r: Result<SkiplistEngineIterator<'a>, Error>)
        requires
            self.wf(),
        ensures
            is_cursor(r, self@, CF_DEFAULT@, opts.lower(), opts.upper()),
    {
        self.engine.iterator_opt(opts)
    }
}

impl SkiplistEngine {
    /// A snapshot of the engine.
    pub fn snapshot(&self) -> (s: SkiplistSnapshot<'_>)
        requires
            self.wf(),
        ensures
            s.wf(),
            s@ == self@,
    {
        SkiplistSnapshot::new(self)
    }
}

} // verus!
