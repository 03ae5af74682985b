//! Compaction. An engine that keeps everything in memory has nothing to compact: every
//! request is accepted and changes nothing.

use vstd::prelude::*;
use crate::engine::SkiplistEngine;
use crate::errors::Error;

verus! {

impl SkiplistEngine {
    /// Whether compaction in the background is switched off: it always is.
    pub fn auto_compactions_is_disabled(&self) -> (r: Result<bool, Error>)
        ensures
            r == Ok::<bool, Error>(true),
    {
        Ok(true)
    }

    /// Accepts a request to compact a range of a column family, and does nothing.
    pub fn compact_range(
        &self,
        cf: &str,
        start_key: Option<&[u8]>,
        end_key: Option<&[u8]>,
        exclusive_manual: bool,
        max_subcompactions: u32,
    ) -> (r: Result<(), Error>)
        ensures
            r is Ok,
    {
        Ok(())
    }

    /// Accepts a request to compact the files of a range, and does nothing.
    pub fn compact_files_in_range(
        &self,
        start: Option<&[u8]>,
        end: Option<&[u8]>,
        output_level: Option<i32>,
    ) -> (r: Result<(), Error>)
        ensures
            r is Ok,
    {
        Ok(())
    }

    /// Accepts a request to compact the files of a range of a column family, and does
    /// nothing.
    pub fn compact_files_in_range_cf(
        &self,
        cf_name: &str,
        start: Option<&[u8]>,
        end: Option<&[u8]>,
        output_level: Option<i32>,
    ) -> (r: Result<(), Error>)
        ensures
            r is Ok,
    {
        Ok(())
    }
}

} // verus!
