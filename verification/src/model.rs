//! The mathematical model of a table: a finite map from keys to values, the bytes that
//! its entries take, and its entries listed in key order.

use vstd::prelude::*;
use crate::lex::{lemma_lex_le_transitive, lemma_lex_trichotomy, lex_le, lex_lt};
use crate::table::{above, below, Limit};

verus! {

/// The entries of one table.
pub type Entries = Map<Seq<u8>, Seq<u8>>;

/// The bytes that one entry takes: those of its key and those of its value.
pub open spec fn entry_size(k: Seq<u8>, v: Seq<u8>) -> nat {
    k.len() + v.len()
}

/// The bytes that all entries of a finite map take together.
pub open spec fn map_bytes(m: Entries) -> nat
    decreases m.dom().len(),
    when m.dom().finite()
    via map_bytes_decreases
{
    if m.dom().len() == 0 {
        0
    } else {
        let k = m.dom().choose();
        entry_size(k, m[k]) + map_bytes(m.remove(k))
    }
}

#[via_fn]
proof fn map_bytes_decreases(m: Entries) {
    if m.dom().len() != 0 {
        let k = m.dom().choose();
        vstd::set_lib::lemma_set_empty_equivalency_len(m.dom());
        assert(m.dom().contains(k));
        assert(m.remove(k).dom() =~= m.dom().remove(k));
    }
}

/// An empty map takes no bytes.
pub proof fn lemma_map_bytes_empty(m: Entries)
    requires
        m.dom() =~= Set::<Seq<u8>>::empty(),
    ensures
        map_bytes(m) == 0,
{
}

/// Any one entry can be counted apart from the rest.
pub proof fn lemma_map_bytes_remove(m: Entries, k: Seq<u8>)
    requires
        m.dom().finite(),
        m.dom().contains(k),
    ensures
        map_bytes(m) == entry_size(k, m[k]) + map_bytes(m.remove(k)),
    decreases m.dom().len(),
{
    let c = m.dom().choose();
    assert(m.dom().len() != 0) by {
        vstd::set_lib::lemma_set_empty_equivalency_len(m.dom());
    }
    if c != k {
        vstd::set_lib::lemma_set_empty_equivalency_len(m.dom());
        assert(m.dom().contains(c));
        assert(m.remove(c).dom() =~= m.dom().remove(c));
        assert(m.remove(k).dom() =~= m.dom().remove(k));
        lemma_map_bytes_remove(m.remove(c), k);
        lemma_map_bytes_remove(m.remove(k), c);
        assert(m.remove(c).remove(k) =~= m.remove(k).remove(c));
    }
}

/// Storing a value under a key adds the new entry's bytes to those of all other entries.
pub proof fn lemma_map_bytes_insert(m: Entries, k: Seq<u8>, v: Seq<u8>)
    requires
        m.dom().finite(),
    ensures
        map_bytes(m.insert(k, v)) == entry_size(k, v) + map_bytes(m.remove(k)),
{
    lemma_map_bytes_remove(m.insert(k, v), k);
    assert(m.insert(k, v).remove(k) =~= m.remove(k));
}

/// The bytes that the entries of a row of tables take together.
pub open spec fn tables_bytes(tables: Seq<Entries>) -> nat
    decreases tables.len(),
{
    if tables.len() == 0 {
        0
    } else {
        tables_bytes(tables.drop_last()) + map_bytes(tables.last())
    }
}

/// Replacing one table of a row changes the total by the difference between the new
/// table and the old.
pub proof fn lemma_tables_bytes_update(tables: Seq<Entries>, i: int, m: Entries)
    requires
        0 <= i < tables.len(),
    ensures
        tables_bytes(tables.update(i, m)) + map_bytes(tables[i]) == tables_bytes(tables)
            + map_bytes(m),
    decreases tables.len(),
{
    let updated = tables.update(i, m);
    if i == tables.len() - 1 {
        assert(updated.drop_last() =~= tables.drop_last());
    } else {
        assert(updated.drop_last() =~= tables.drop_last().update(i, m));
        lemma_tables_bytes_update(tables.drop_last(), i, m);
    }
}

/// Whether `k` is a key of `m` between `lo` and `hi`.
pub open spec fn in_range(m: Entries, lo: Limit, hi: Limit, k: Seq<u8>) -> bool {
    m.dom().contains(k) && above(lo, k) && below(hi, k)
}

/// Whether `k` is the smallest key of `m` between `lo` and `hi`.
pub open spec fn is_first_in(m: Entries, lo: Limit, hi: Limit, k: Seq<u8>) -> bool {
    &&& in_range(m, lo, hi, k)
    &&& forall|j: Seq<u8>| #[trigger] m.dom().contains(j) && above(lo, j) && below(hi, j)
        ==> lex_le(k, j)
}

/// Whether `k` is the greatest key of `m` between `lo` and `hi`.
pub open spec fn is_last_in(m: Entries, lo: Limit, hi: Limit, k: Seq<u8>) -> bool {
    &&& in_range(m, lo, hi, k)
    &&& forall|j: Seq<u8>| #[trigger] m.dom().contains(j) && above(lo, j) && below(hi, j)
        ==> lex_le(j, k)
}

/// The smallest key of `m` between `lo` and `hi`, if there is one.
pub open spec fn first_in(m: Entries, lo: Limit, hi: Limit) -> Option<Seq<u8>> {
    if exists|k: Seq<u8>| is_first_in(m, lo, hi, k) {
        Some(choose|k: Seq<u8>| is_first_in(m, lo, hi, k))
    } else {
        None
    }
}

/// The greatest key of `m` between `lo` and `hi`, if there is one.
pub open spec fn last_in(m: Entries, lo: Limit, hi: Limit) -> Option<Seq<u8>> {
    if exists|k: Seq<u8>| is_last_in(m, lo, hi, k) {
        Some(choose|k: Seq<u8>| is_last_in(m, lo, hi, k))
    } else {
        None
    }
}

/// A smallest key is the only one: whoever finds it has found `first_in`.
pub proof fn lemma_first_in_unique(m: Entries, lo: Limit, hi: Limit, k: Seq<u8>)
    requires
        is_first_in(m, lo, hi, k),
    ensures
        first_in(m, lo, hi) == Some(k),
{
    let c = choose|c: Seq<u8>| is_first_in(m, lo, hi, c);
    assert(lex_le(c, k) && lex_le(k, c));
    lemma_lex_trichotomy(c, k);
}

/// A greatest key is the only one: whoever finds it has found `last_in`.
pub proof fn lemma_last_in_unique(m: Entries, lo: Limit, hi: Limit, k: Seq<u8>)
    requires
        is_last_in(m, lo, hi, k),
    ensures
        last_in(m, lo, hi) == Some(k),
{
    let c = choose|c: Seq<u8>| is_last_in(m, lo, hi, c);
    assert(lex_le(c, k) && lex_le(k, c));
    lemma_lex_trichotomy(c, k);
}

/// Where no key lies in the interval, there is no smallest and no greatest one.
pub proof fn lemma_none_in_range(m: Entries, lo: Limit, hi: Limit)
    requires
        forall|j: Seq<u8>| #[trigger] m.dom().contains(j) ==> !(above(lo, j) && below(hi, j)),
    ensures
        first_in(m, lo, hi) is None,
        last_in(m, lo, hi) is None,
{
}

/// What `first_in` names is the smallest key of the interval.
pub proof fn lemma_first_in_of(m: Entries, lo: Limit, hi: Limit)
    ensures
        first_in(m, lo, hi) is Some ==> is_first_in(m, lo, hi, first_in(m, lo, hi)->Some_0),
{
}

/// A key above a lower limit keeps every greater key above that limit.
pub proof fn lemma_above_behind(lo: Limit, k: Seq<u8>, j: Seq<u8>)
    requires
        above(lo, k),
        lex_le(k, j),
    ensures
        above(lo, j),
{
    match lo {
        Limit::Unbounded => {},
        Limit::Included(x) => {
            lemma_lex_le_transitive(x, k, j);
        },
        Limit::Excluded(x) => {
            lemma_lex_le_transitive(x, k, j);
        },
    }
}

/// A key below an upper limit keeps every smaller key below that limit.
pub proof fn lemma_below_before(hi: Limit, k: Seq<u8>, j: Seq<u8>)
    requires
        below(hi, j),
        lex_le(k, j),
    ensures
        below(hi, k),
{
    match hi {
        Limit::Unbounded => {},
        Limit::Included(x) => {
            lemma_lex_le_transitive(k, j, x);
        },
        Limit::Excluded(x) => {
            lemma_lex_le_transitive(k, j, x);
        },
    }
}

/// The keys of `m` between `lo` and `hi`.
pub open spec fn keys_in(m: Entries, lo: Limit, hi: Limit) -> Set<Seq<u8>> {
    m.dom().filter(|k: Seq<u8>| above(lo, k) && below(hi, k))
}

/// The entries of a finite map whose keys lie between `lo` and `hi`, in ascending order of
/// their keys.
pub open spec fn listing(m: Entries, lo: Limit, hi: Limit) -> Seq<(Seq<u8>, Seq<u8>)>
    decreases keys_in(m, lo, hi).len(),
    when m.dom().finite()
    via listing_decreases
{
    match first_in(m, lo, hi) {
        None => Seq::empty(),
        Some(k) => seq![(k, m[k])] + listing(m, Limit::Excluded(k), hi),
    }
}

/// Past the smallest key of an interval lie fewer keys than in the interval.
pub proof fn lemma_fewer_keys_after_first(m: Entries, lo: Limit, hi: Limit, k: Seq<u8>)
    requires
        m.dom().finite(),
        in_range(m, lo, hi, k),
    ensures
        keys_in(m, lo, hi).finite(),
        keys_in(m, Limit::Excluded(k), hi).len() < keys_in(m, lo, hi).len(),
{
    let before = keys_in(m, lo, hi);
    let after = keys_in(m, Limit::Excluded(k), hi);
    m.dom().lemma_len_filter(|j: Seq<u8>| above(lo, j) && below(hi, j));
    assert(before.contains(k));
    lemma_lex_trichotomy(k, k);
    assert(!after.contains(k));
    assert forall|j: Seq<u8>| after.contains(j) implies before.remove(k).contains(j) by {
        lemma_above_behind(lo, k, j);
        lemma_lex_trichotomy(k, j);
    }
    vstd::set_lib::lemma_len_subset(after, before.remove(k));
}

#[via_fn]
proof fn listing_decreases(m: Entries, lo: Limit, hi: Limit) {
    match first_in(m, lo, hi) {
        None => {},
        Some(k) => {
            lemma_fewer_keys_after_first(m, lo, hi, k);
        },
    }
}

/// What a byte counter of machine width shows when `n` bytes have been counted: the
/// counter wraps around past its greatest value.
pub open spec fn wrapped(n: int) -> int {
    n % (usize::MAX as int + 1)
}

/// A counter that shows `wrapped(n)` shows `wrapped(n + d)` after `d` was added with
/// wrap-around.
pub proof fn lemma_wrapped_add(c: usize, n: int, d: usize)
    requires
        c as int == wrapped(n),
    ensures
        (if c + d > usize::MAX {
            c + d - (usize::MAX + 1)
        } else {
            c + d
        }) == wrapped(n + d),
{
    let m = usize::MAX as int + 1;
    vstd::arithmetic::div_mod::lemma_add_mod_noop(n, d as int, m);
    vstd::arithmetic::div_mod::lemma_small_mod(d as nat, m as nat);
    if c + d > usize::MAX {
        vstd::arithmetic::div_mod::lemma_mod_sub_multiples_vanish(c + d, m);
        vstd::arithmetic::div_mod::lemma_small_mod((c + d - m) as nat, m as nat);
    } else {
        vstd::arithmetic::div_mod::lemma_small_mod((c + d) as nat, m as nat);
    }
}

/// A counter that shows `wrapped(n)` shows `wrapped(n - d)` after `d` was taken off with
/// wrap-around.
pub proof fn lemma_wrapped_sub(c: usize, n: int, d: usize)
    requires
        c as int == wrapped(n),
    ensures
        (if c - d < 0 {
            c - d + (usize::MAX + 1)
        } else {
            c - d
        }) == wrapped(n - d),
{
    let m = usize::MAX as int + 1;
    vstd::arithmetic::div_mod::lemma_sub_mod_noop(n, d as int, m);
    vstd::arithmetic::div_mod::lemma_small_mod(d as nat, m as nat);
    if c - d < 0 {
        vstd::arithmetic::div_mod::lemma_mod_add_multiples_vanish(c - d, m);
        vstd::arithmetic::div_mod::lemma_small_mod((c - d + m) as nat, m as nat);
    } else {
        vstd::arithmetic::div_mod::lemma_small_mod((c - d) as nat, m as nat);
    }
}

/// Two counts less than a full turn of the counter apart do not show the same.
pub proof fn lemma_wrapped_distinct(a: int, b: int)
    requires
        a < b < a + usize::MAX + 1,
    ensures
        wrapped(a) != wrapped(b),
{
    let m = usize::MAX as int + 1;
    vstd::arithmetic::div_mod::lemma_fundamental_div_mod(a, m);
    vstd::arithmetic::div_mod::lemma_fundamental_div_mod(b, m);
    if a % m == b % m {
        let q = b / m - a / m;
        assert(b - a == m * q) by (nonlinear_arith)
            requires
                a == m * (a / m) + a % m,
                b == m * (b / m) + b % m,
                a % m == b % m,
                q == b / m - a / m,
        ;
        assert(false) by (nonlinear_arith)
            requires
                0 < m * q < m,
        ;
    }
}

/// Before a key of an interval lie fewer keys than in the interval.
pub proof fn lemma_fewer_keys_before(m: Entries, lo: Limit, hi: Limit, k: Seq<u8>)
    requires
        m.dom().finite(),
        in_range(m, lo, hi, k),
    ensures
        keys_in(m, lo, hi).finite(),
        keys_in(m, lo, Limit::Excluded(k)).len() < keys_in(m, lo, hi).len(),
{
    let all = keys_in(m, lo, hi);
    let before = keys_in(m, lo, Limit::Excluded(k));
    m.dom().lemma_len_filter(|j: Seq<u8>| above(lo, j) && below(hi, j));
    assert(all.contains(k));
    lemma_lex_trichotomy(k, k);
    assert(!before.contains(k));
    assert forall|j: Seq<u8>| before.contains(j) implies all.remove(k).contains(j) by {
        lemma_below_before(hi, j, k);
        lemma_lex_trichotomy(j, k);
    }
    vstd::set_lib::lemma_len_subset(before, all.remove(k));
}

/// An interval of a finite map that holds a key has a smallest key.
pub proof fn lemma_first_exists(m: Entries, lo: Limit, hi: Limit, k: Seq<u8>)
    requires
        m.dom().finite(),
        in_range(m, lo, hi, k),
    ensures
        first_in(m, lo, hi) is Some,
        is_first_in(m, lo, hi, first_in(m, lo, hi)->Some_0),
    decreases keys_in(m, lo, hi).len(),
{
    if forall|j: Seq<u8>| #[trigger] m.dom().contains(j) && above(lo, j) && below(hi, j)
        ==> lex_le(k, j) {
        lemma_first_in_unique(m, lo, hi, k);
    } else {
        let j = choose|j: Seq<u8>| #[trigger] m.dom().contains(j) && above(lo, j) && below(hi, j)
            && !lex_le(k, j);
        lemma_lex_trichotomy(j, k);
        lemma_fewer_keys_before(m, lo, hi, k);
        lemma_first_exists(m, lo, Limit::Excluded(k), j);
        let f = first_in(m, lo, Limit::Excluded(k))->Some_0;
        lemma_below_before(hi, f, k);
        assert forall|x: Seq<u8>| #[trigger] m.dom().contains(x) && above(lo, x) && below(hi, x)
            implies lex_le(f, x) by {
            lemma_lex_trichotomy(x, k);
            if !lex_lt(x, k) {
                lemma_lex_le_transitive(f, k, x);
            }
        }
        lemma_first_in_unique(m, lo, hi, f);
    }
}

/// The listing of an interval holds the entries of the interval and nothing else, each
/// once, in ascending order of the keys.
pub proof fn lemma_listing_exact(m: Entries, lo: Limit, hi: Limit)
    requires
        m.dom().finite(),
    ensures
        forall|i: int| 0 <= i < listing(m, lo, hi).len()
            ==> in_range(m, lo, hi, (#[trigger] listing(m, lo, hi)[i]).0)
            && listing(m, lo, hi)[i].1 == m[listing(m, lo, hi)[i].0],
        forall|i: int, j: int| 0 <= i < j < listing(m, lo, hi).len() ==> lex_lt(
            (#[trigger] listing(m, lo, hi)[i]).0,
            (#[trigger] listing(m, lo, hi)[j]).0,
        ),
        forall|k: Seq<u8>| in_range(m, lo, hi, k)
            ==> exists|i: int| 0 <= i < listing(m, lo, hi).len()
                && (#[trigger] listing(m, lo, hi)[i]).0 == k,
    decreases keys_in(m, lo, hi).len(),
{
    let all = listing(m, lo, hi);
    match first_in(m, lo, hi) {
        None => {
            assert forall|k: Seq<u8>| in_range(m, lo, hi, k)
                implies exists|i: int| 0 <= i < all.len() && (#[trigger] all[i]).0 == k by {
                lemma_first_exists(m, lo, hi, k);
            }
        },
        Some(f) => {
            let lo2 = Limit::Excluded(f);
            let rest = listing(m, lo2, hi);
            lemma_fewer_keys_after_first(m, lo, hi, f);
            lemma_listing_exact(m, lo2, hi);
            assert(all == seq![(f, m[f])] + rest);
            assert forall|i: int| 0 <= i < all.len()
                implies in_range(m, lo, hi, (#[trigger] all[i]).0)
                && all[i].1 == m[all[i].0] by {
                if i > 0 {
                    assert(all[i] == rest[i - 1]);
                    lemma_above_behind(lo, f, rest[i - 1].0);
                }
            }
            assert forall|i: int, j: int| 0 <= i < j < all.len() implies lex_lt(
                (#[trigger] all[i]).0,
                (#[trigger] all[j]).0,
            ) by {
                assert(all[j] == rest[j - 1]);
                if i > 0 {
                    assert(all[i] == rest[i - 1]);
                }
            }
            assert forall|k: Seq<u8>| in_range(m, lo, hi, k)
                implies exists|i: int| 0 <= i < all.len() && (#[trigger] all[i]).0 == k by {
                if k == f {
                    assert(all[0].0 == k);
                } else {
                    lemma_lex_trichotomy(f, k);
                    assert(in_range(m, lo2, hi, k));
                    let i = choose|i: int| 0 <= i < rest.len() && (#[trigger] rest[i]).0 == k;
                    assert(all[i + 1] == rest[i]);
                }
            }
        },
    }
}

} // verus!
