//! One column family: an ordered map from byte keys to byte values, kept in a lock-free
//! skip list. The skip list is not verified here; this module states what each of its
//! operations is taken to do, over the map of entries that the list holds.
//!
//! The list keeps its keys in the order of `Ord` for `Vec<u8>`, which compares octet by
//! octet and puts a proper prefix first: the order that `lex_lt` states. A table is
//! written to through an exclusive reference only, so that between two writes its
//! entries are what the last write left.

use vstd::prelude::*;
use crossbeam_skiplist::SkipMap;
use std::ops::Bound;
use crate::lex::{lex_le, lex_lt};

verus! {

/// The skip list map of `crossbeam_skiplist`, opaque to the verifier.
#[verifier::external_type_specification]
#[verifier::external_body]
#[verifier::reject_recursive_types(K)]
#[verifier::reject_recursive_types(V)]
pub struct ExSkipMap<K, V>(SkipMap<K, V>);

/// The entries that a table holds: each key with its value.
pub uninterp spec fn table_entries(t: SkipMap<Vec<u8>, Vec<u8>>) -> Map<Seq<u8>, Seq<u8>>;

/// The map without entries.
pub open spec fn no_entries() -> Map<Seq<u8>, Seq<u8>> {
    Map::empty()
}

/// One end of an interval of keys.
#[derive(Clone, Copy)]
pub enum KeyBound<'a> {
    /// No limit on this side.
    Unbounded,
    /// The interval reaches the key and holds it.
    Included(&'a [u8]),
    /// The interval reaches the key and leaves it out.
    Excluded(&'a [u8]),
}

/// One end of an interval of keys, as a mathematical value.
pub enum Limit {
    Unbounded,
    Included(Seq<u8>),
    Excluded(Seq<u8>),
}

impl<'a> View for KeyBound<'a> {
    type V = Limit;

    open spec fn view(&self) -> Limit {
        match self {
            KeyBound::Unbounded => Limit::Unbounded,
            KeyBound::Included(k) => Limit::Included(k@),
            KeyBound::Excluded(k) => Limit::Excluded(k@),
        }
    }
}

/// Whether key `k` lies on the upper side of the lower limit `b`.
pub open spec fn above(b: Limit, k: Seq<u8>) -> bool {
    match b {
        Limit::Unbounded => true,
        Limit::Included(x) => lex_le(x, k),
        Limit::Excluded(x) => lex_lt(x, k),
    }
}

/// Whether key `k` lies on the lower side of the upper limit `b`.
pub open spec fn below(b: Limit, k: Seq<u8>) -> bool {
    match b {
        Limit::Unbounded => true,
        Limit::Included(x) => lex_le(k, x),
        Limit::Excluded(x) => lex_lt(k, x),
    }
}

/// Whether `k` is the smallest key of `m` above `b`.
pub open spec fn is_lowest_above(m: Map<Seq<u8>, Seq<u8>>, b: Limit, k: Seq<u8>) -> bool {
    &&& m.dom().contains(k)
    &&& above(b, k)
    &&& forall|j: Seq<u8>| #[trigger] m.dom().contains(j) && above(b, j) ==> lex_le(k, j)
}

/// Whether `k` is the greatest key of `m` below `b`.
pub open spec fn is_highest_below(m: Map<Seq<u8>, Seq<u8>>, b: Limit, k: Seq<u8>) -> bool {
    &&& m.dom().contains(k)
    &&& below(b, k)
    &&& forall|j: Seq<u8>| #[trigger] m.dom().contains(j) && below(b, j) ==> lex_le(j, k)
}

/// Makes an empty table with `SkipMap::new`: the new list holds no entry.
#[verifier::external_body]
pub(crate) fn table_new() -> (t: SkipMap<Vec<u8>, Vec<u8>>)
    ensures
        table_entries(t) == no_entries(),
{
    SkipMap::new()
}

/// Looks `key` up with `SkipMap::get` and copies the value found: the value stored under
/// the key, or nothing where the list holds no such key.
#[verifier::external_body]
pub(crate) fn table_get(t: &SkipMap<Vec<u8>, Vec<u8>>, key: &[u8]) -> (r: Option<Vec<u8>>)
    ensures
        match r {
            Some(v) => table_entries(*t).dom().contains(key@) && table_entries(*t)[key@] == v@,
            None => !table_entries(*t).dom().contains(key@),
        },
{
    t.get(key).map(|e| e.value().clone())
}

/// Stores `value` under `key` with `SkipMap::insert`, which first removes an entry that
/// has the same key: afterwards the key maps to the new value and every other entry is as
/// before.
#[verifier::external_body]
pub(crate) fn table_insert(t: &mut SkipMap<Vec<u8>, Vec<u8>>, key: Vec<u8>, value: Vec<u8>)
    ensures
        table_entries(*final(t)) == table_entries(*old(t)).insert(key@, value@),
{
    t.insert(key, value);
}

/// Takes the entry of `key` out with `SkipMap::remove` and copies its value: the list
/// loses that entry and no other, and hands back the value it held, or nothing where the
/// key was absent.
#[verifier::external_body]
pub(crate) fn table_remove(t: &mut SkipMap<Vec<u8>, Vec<u8>>, key: &[u8]) -> (r: Option<Vec<u8>>)
    ensures
        table_entries(*final(t)) == table_entries(*old(t)).remove(key@),
        match r {
            Some(v) => table_entries(*old(t)).dom().contains(key@) && table_entries(*old(t))[key@]
                == v@,
            None => !table_entries(*old(t)).dom().contains(key@),
        },
{
    t.remove(key).map(|e| e.value().clone())
}

/// Finds, with `SkipMap::lower_bound`, the entry with the smallest key above `bound`, and
/// copies its key and value; nothing where no key lies above the bound.
#[verifier::external_body]
pub(crate) fn table_lower_bound(t: &SkipMap<Vec<u8>, Vec<u8>>, bound: KeyBound<'_>) -> (r: Option<
    (Vec<u8>, Vec<u8>),
>)
    ensures
        match r {
            Some((k, v)) => is_lowest_above(table_entries(*t), bound@, k@) && table_entries(
                *t,
            )[k@] == v@,
            None => forall|j: Seq<u8>| #[trigger]
                table_entries(*t).dom().contains(j) ==> !above(bound@, j),
        },
{
    let b: Bound<&[u8]> = match bound {
        KeyBound::Unbounded => Bound::Unbounded,
        KeyBound::Included(k) => Bound::Included(k),
        KeyBound::Excluded(k) => Bound::Excluded(k),
    };
    t.lower_bound(b).map(|e| (e.key().clone(), e.value().clone()))
}

/// Finds, with `SkipMap::upper_bound`, the entry with the greatest key below `bound`, and
/// copies its key and value; nothing where no key lies below the bound.
#[verifier::external_body]
pub(crate) fn table_upper_bound(t: &SkipMap<Vec<u8>, Vec<u8>>, bound: KeyBound<'_>) -> (r: Option<
    (Vec<u8>, Vec<u8>),
>)
    ensures
        match r {
            Some((k, v)) => is_highest_below(table_entries(*t), bound@, k@) && table_entries(
                *t,
            )[k@] == v@,
            None => forall|j: Seq<u8>| #[trigger]
                table_entries(*t).dom().contains(j) ==> !below(bound@, j),
        },
{
    let b: Bound<&[u8]> = match bound {
        KeyBound::Unbounded => Bound::Unbounded,
        KeyBound::Included(k) => Bound::Included(k),
        KeyBound::Excluded(k) => Bound::Excluded(k),
    };
    t.upper_bound(b).map(|e| (e.key().clone(), e.value().clone()))
}

} // verus!
