//! The options that reads, writes and iterators take.

use vstd::prelude::*;

verus! {

/// Options of a read. An engine that keeps everything in memory has no cache to fill:
/// the option is kept and has no effect.
#[derive(Clone, Copy, Debug)]
pub struct ReadOptions {
    fill_cache: bool,
}

impl ReadOptions {
    pub fn new() -> (o: ReadOptions)
        ensures
            o.fill_cache(),
    {
        ReadOptions { fill_cache: true }
    }

    pub closed spec fn spec_fill_cache(&self) -> bool {
        self.fill_cache
    }

    #[verifier::when_used_as_spec(spec_fill_cache)]
    pub fn fill_cache(&self) -> (b: bool)
        ensures
            b == self.fill_cache(),
    {
        self.fill_cache
    }

    pub fn set_fill_cache(&mut self, v: bool)
        ensures
            final(self).fill_cache() == v,
    {
        self.fill_cache = v;
    }
}

impl Default for ReadOptions {
    /// The options of a read when none are given: the cache is filled.
    fn default() -> (o: ReadOptions)
        ensures
            o.fill_cache(),
    {
        ReadOptions::new()
    }
}

/// Options of a write. Nothing is written to disk, so `sync` is kept and has no effect.
#[derive(Clone, Copy, Debug)]
pub struct WriteOptions {
    sync: bool,
}

impl WriteOptions {
    pub fn new() -> (o: WriteOptions)
        ensures
            !o.sync(),
    {
        WriteOptions { sync: false }
    }

    pub closed spec fn spec_sync(&self) -> bool {
        self.sync
    }

    #[verifier::when_used_as_spec(spec_sync)]
    pub fn sync(&self) -> (b: bool)
        ensures
            b == self.sync(),
    {
        self.sync
    }

    pub fn set_sync(&mut self, sync: bool)
        ensures
            final(self).sync() == sync,
    {
        self.sync = sync;
    }
}

impl Default for WriteOptions {
    /// The options of a write when none are given: the write is not synced.
    fn default() -> (o: WriteOptions)
        ensures
            !o.sync(),
    {
        WriteOptions::new()
    }
}

/// The interval of keys that an iterator walks. Each bound that is given belongs to the
/// interval; a bound that is not given leaves that side open.
#[derive(Clone, Debug)]
pub struct IterOptions {
    lower_bound: Option<Vec<u8>>,
    upper_bound: Option<Vec<u8>>,
    fill_cache: bool,
}

impl IterOptions {
    pub closed spec fn lower(&self) -> Option<Seq<u8>> {
        match self.lower_bound {
            Some(k) => Some(k@),
            None => None,
        }
    }

    pub closed spec fn upper(&self) -> Option<Seq<u8>> {
        match self.upper_bound {
            Some(k) => Some(k@),
            None => None,
        }
    }

    pub closed spec fn spec_fill_cache(&self) -> bool {
        self.fill_cache
    }

    pub fn new(lower_bound: Option<Vec<u8>>, upper_bound: Option<Vec<u8>>, fill_cache: bool) -> (o:
        IterOptions)
        ensures
            o.lower() == match lower_bound {
                Some(k) => Some(k@),
                None => None,
            },
            o.upper() == match upper_bound {
                Some(k) => Some(k@),
                None => None,
            },
            o.fill_cache() == fill_cache,
    {
        IterOptions { lower_bound, upper_bound, fill_cache }
    }

    /// Options without bounds.
    pub fn unbounded() -> (o: IterOptions)
        ensures
            o.lower() is None,
            o.upper() is None,
            o.fill_cache(),
    {
        IterOptions { lower_bound: None, upper_bound: None, fill_cache: true }
    }

    #[verifier::when_used_as_spec(spec_fill_cache)]
    pub fn fill_cache(&self) -> (b: bool)
        ensures
            b == self.fill_cache(),
    {
        self.fill_cache
    }

    pub fn set_fill_cache(&mut self, v: bool)
        ensures
            final(self).fill_cache() == v,
            final(self).lower() == old(self).lower(),
            final(self).upper() == old(self).upper(),
    {
        self.fill_cache = v;
    }

    pub fn lower_bound(&self) -> (r: Option<&[u8]>)
        ensures
            match r {
                Some(k) => self.lower() == Some(k@),
                None => self.lower() is None,
            },
    {
        match &self.lower_bound {
            Some(k) => Some(k.as_slice()),
            None => None,
        }
    }

    pub fn upper_bound(&self) -> (r: Option<&[u8]>)
        ensures
            match r {
                Some(k) => self.upper() == Some(k@),
                None => self.upper() is None,
            },
    {
        match &self.upper_bound {
            Some(k) => Some(k.as_slice()),
            None => None,
        }
    }

    /// Gives up the two bounds.
    pub fn into_bounds(self) -> (r: (Option<Vec<u8>>, Option<Vec<u8>>))
        ensures
            self.lower() == match r.0 {
                Some(k) => Some(k@),
                None => None,
            },
            self.upper() == match r.1 {
                Some(k) => Some(k@),
                None => None,
            },
    {
        (self.lower_bound, self.upper_bound)
    }

    pub fn set_lower_bound(&mut self, bound: &[u8])
        ensures
            final(self).lower() == Some(bound@),
            final(self).upper() == old(self).upper(),
            final(self).fill_cache() == old(self).fill_cache(),
    {
        self.lower_bound = Some(vstd::slice::slice_to_vec(bound));
    }

    pub fn set_upper_bound(&mut self, bound: &[u8])
        ensures
            final(self).upper() == Some(bound@),
            final(self).lower() == old(self).lower(),
            final(self).fill_cache() == old(self).fill_cache(),
    {
        self.upper_bound = Some(vstd::slice::slice_to_vec(bound));
    }
}

impl Default for IterOptions {
    /// The options of an iterator when none are given: no bounds, and the cache is filled.
    fn default() -> (o: IterOptions)
        ensures
            o.lower() is None,
            o.upper() is None,
            o.fill_cache(),
    {
        IterOptions::unbounded()
    }
}

/// Where a seek places an iterator.
#[derive(Clone, Copy, Debug)]
pub enum SeekKey<'a> {
    /// At the first entry of the iterator's interval.
    Start,
    /// At the last entry of the iterator's interval.
    End,
    /// At the entry nearest to the given key.
    Key(&'a [u8]),
}

} // verus!
