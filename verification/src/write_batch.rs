//! A write batch: operations staged in order, and applied to an engine in that order.

use vstd::prelude::*;
use vstd::slice::slice_to_vec;
use crate::engine::{
    delete_entries, delete_range_entries, put_entries, SkiplistEngine, CF_DEFAULT,
};
use crate::errors::{no_such_cf, Error};
use crate::model::{lemma_wrapped_add, wrapped, Entries};
use crate::options::WriteOptions;

verus! {

/// One staged operation.
#[derive(Clone, Debug)]
pub enum WriteOp {
    /// Store a value under a key of a column family.
    Put { cf: String, key: Vec<u8>, value: Vec<u8> },
    /// Remove the entry of a key from a column family.
    Delete { cf: String, key: Vec<u8> },
    /// Remove from a column family every entry from `begin` up to, and without, `end`.
    DeleteRange { cf: String, begin: Vec<u8>, end: Vec<u8> },
}

/// One staged operation, as a mathematical value.
pub enum Op {
    Put { cf: Seq<char>, key: Seq<u8>, value: Seq<u8> },
    Delete { cf: Seq<char>, key: Seq<u8> },
    DeleteRange { cf: Seq<char>, begin: Seq<u8>, end: Seq<u8> },
}

impl View for WriteOp {
    type V = Op;

    open spec fn view(&self) -> Op {
        match self {
            WriteOp::Put { cf, key, value } => Op::Put { cf: cf@, key: key@, value: value@ },
            WriteOp::Delete { cf, key } => Op::Delete { cf: cf@, key: key@ },
            WriteOp::DeleteRange { cf, begin, end } => Op::DeleteRange {
                cf: cf@,
                begin: begin@,
                end: end@,
            },
        }
    }
}

/// The column family that an operation works on.
pub open spec fn op_cf(op: Op) -> Seq<char> {
    match op {
        Op::Put { cf, key, value } => cf,
        Op::Delete { cf, key } => cf,
        Op::DeleteRange { cf, begin, end } => cf,
    }
}

/// The bytes that an operation adds to the size of a batch: those of its keys and of its
/// value.
pub open spec fn op_size(op: Op) -> nat {
    match op {
        Op::Put { cf, key, value } => key.len() + value.len(),
        Op::Delete { cf, key } => key.len(),
        Op::DeleteRange { cf, begin, end } => begin.len() + end.len(),
    }
}

/// The bytes that a row of operations adds to the size of a batch.
pub open spec fn ops_size(ops: Seq<Op>) -> nat
    decreases ops.len(),
{
    if ops.len() == 0 {
        0
    } else {
        ops_size(ops.drop_last()) + op_size(ops.last())
    }
}

/// Whether an engine takes the operation: a key to store under is not empty.
pub open spec fn op_ok(op: Op) -> bool {
    match op {
        Op::Put { cf, key, value } => key.len() >= 1,
        _ => true,
    }
}

/// What one operation makes of the families of an engine that has the operation's family.
pub open spec fn apply_op(s: Map<Seq<char>, Entries>, op: Op) -> Map<Seq<char>, Entries> {
    match op {
        Op::Put { cf, key, value } => s.insert(cf, put_entries(s[cf], key, value)),
        Op::Delete { cf, key } => s.insert(cf, delete_entries(s[cf], key)),
        Op::DeleteRange { cf, begin, end } => s.insert(
            cf,
            delete_range_entries(s[cf], begin, end),
        ),
    }
}

/// What a row of operations, applied one after the other from the first on, makes of the
/// families of an engine.
pub open spec fn apply_ops(s: Map<Seq<char>, Entries>, ops: Seq<Op>) -> Map<Seq<char>, Entries>
    decreases ops.len(),
{
    if ops.len() == 0 {
        s
    } else {
        apply_op(apply_ops(s, ops.drop_last()), ops.last())
    }
}

/// How many operations at the head of `ops` work on families among `cfs`: the place of
/// the first operation on an unknown family, or the length of `ops`.
pub open spec fn known_prefix(cfs: Set<Seq<char>>, ops: Seq<Op>) -> nat
    decreases ops.len(),
{
    if ops.len() == 0 {
        0
    } else {
        let p = known_prefix(cfs, ops.drop_last());
        if p == ops.len() - 1 && cfs.contains(op_cf(ops.last())) {
            p + 1
        } else {
            p
        }
    }
}

/// The known prefix of a row of operations is no longer than the row, every operation in
/// it works on a known family, and the operation behind it, if there is one, does not.
pub proof fn lemma_known_prefix(cfs: Set<Seq<char>>, ops: Seq<Op>)
    ensures
        known_prefix(cfs, ops) <= ops.len(),
        forall|j: int| 0 <= j < known_prefix(cfs, ops) ==> cfs.contains(op_cf(#[trigger] ops[j])),
        known_prefix(cfs, ops) < ops.len() ==> !cfs.contains(
            op_cf(ops[known_prefix(cfs, ops) as int]),
        ),
    decreases ops.len(),
{
    if ops.len() > 0 {
        lemma_known_prefix(cfs, ops.drop_last());
        let p = known_prefix(cfs, ops.drop_last());
        assert forall|j: int| 0 <= j < known_prefix(cfs, ops) implies cfs.contains(
            op_cf(#[trigger] ops[j]),
        ) by {
            if j < ops.len() - 1 {
                assert(ops.drop_last()[j] == ops[j]);
            }
        }
        if p < ops.len() - 1 {
            assert(ops.drop_last()[p as int] == ops[p as int]);
        }
    }
}

/// A row of operations that stops being known at place `n` stops there however it goes on.
pub proof fn lemma_known_prefix_stops(cfs: Set<Seq<char>>, ops: Seq<Op>, n: int, len: int)
    requires
        0 <= n < len <= ops.len(),
        known_prefix(cfs, ops.take(n)) == n,
        !cfs.contains(op_cf(ops[n])),
    ensures
        known_prefix(cfs, ops.take(len)) == n,
    decreases len - n,
{
    assert(ops.take(len).drop_last() =~= ops.take(len - 1));
    if len - 1 > n {
        lemma_known_prefix_stops(cfs, ops, n, len - 1);
    }
}

/// A batch applied is its operations applied one after the other: no operation leaves
/// the engine as it was before the batch, and one operation more is applied to what the
/// operations before it have made.
pub proof fn lemma_apply_ops_in_order(s: Map<Seq<char>, Entries>, ops: Seq<Op>, op: Op)
    ensures
        apply_ops(s, Seq::<Op>::empty()) == s,
        apply_ops(s, ops.push(op)) == apply_op(apply_ops(s, ops), op),
        apply_ops(s, seq![op]) == apply_op(s, op),
{
    assert(ops.push(op).drop_last() =~= ops);
    assert(seq![op].drop_last() =~= Seq::<Op>::empty());
}

/// The bytes of keys and values for which a new batch reserves the room of one operation.
pub const RESERVED_BYTES_PER_OP: usize = 32;

/// The most operations for which a new batch reserves room.
pub const MAX_RESERVED_OPS: usize = 65536;

/// Operations staged to be applied together, with the bytes they take and the bytes for
/// which the batch was made to have room.
pub struct SkiplistWriteBatch {
    ops: Vec<WriteOp>,
    data_size: usize,
    capacity: usize,
}

impl View for SkiplistWriteBatch {
    type V = Seq<Op>;

    /// The staged operations, in the order in which they were staged.
    closed spec fn view(&self) -> Seq<Op> {
        Seq::new(self.ops@.len(), |i: int| self.ops@[i]@)
    }
}

impl SkiplistWriteBatch {
    /// The size that the batch reports.
    pub closed spec fn reported_size(&self) -> usize {
        self.data_size
    }

    /// The bytes of operations for which the batch was made to have room.
    pub closed spec fn spec_capacity(&self) -> usize {
        self.capacity
    }

    /// The bytes of operations for which the batch was made to have room. Staging and
    /// clearing leave it as it is.
    #[verifier::when_used_as_spec(spec_capacity)]
    pub fn capacity(&self) -> (n: usize)
        ensures
            n == self.capacity(),
    {
        self.capacity
    }

    /// Whether the batch is in order: it reports the bytes of its operations, wrapped to
    /// the width of the counter, and stores under no empty key.
    pub open spec fn wf(&self) -> bool {
        &&& self.reported_size() as int == wrapped(ops_size(self@) as int)
        &&& forall|i: int| 0 <= i < self@.len() ==> op_ok(#[trigger] self@[i])
    }

    /// An empty batch, made without room for operations.
    pub fn new() -> (b: SkiplistWriteBatch)
        ensures
            b.wf(),
            b@ == Seq::<Op>::empty(),
            b.reported_size() == 0,
            b.capacity() == 0,
    {
        let b = SkiplistWriteBatch { ops: Vec::new(), data_size: 0, capacity: 0 };
        proof {
            assert(b@ =~= Seq::<Op>::empty());
            vstd::arithmetic::div_mod::lemma_small_mod(0, (usize::MAX as int + 1) as nat);
        }
        b
    }

    /// An empty batch made to have room for `cap` bytes of operations: it reserves the
    /// room of one operation for every `RESERVED_BYTES_PER_OP` bytes, and of no more than
    /// `MAX_RESERVED_OPS` operations.
    pub fn with_capacity(cap: usize) -> (b: SkiplistWriteBatch)
        ensures
            b.wf(),
            b@ == Seq::<Op>::empty(),
            b.reported_size() == 0,
            b.capacity() == cap,
    {
        let room: usize = if cap / RESERVED_BYTES_PER_OP > MAX_RESERVED_OPS {
            MAX_RESERVED_OPS
        } else {
            cap / RESERVED_BYTES_PER_OP
        };
        let b = SkiplistWriteBatch { ops: Vec::with_capacity(room), data_size: 0, capacity: cap };
        proof {
            assert(b@ =~= Seq::<Op>::empty());
            vstd::arithmetic::div_mod::lemma_small_mod(0, (usize::MAX as int + 1) as nat);
        }
        b
    }

    fn stage(&mut self, op: WriteOp, size_a: usize, size_b: usize)
        requires
            old(self).wf(),
            op_ok(op@),
            op_size(op@) == size_a + size_b,
        ensures
            final(self).wf(),
            final(self).capacity() == old(self).capacity(),
            final(self)@ == old(self)@.push(op@),
    {
        proof {
            let n = ops_size(self@) as int;
            lemma_wrapped_add(self.data_size, n, size_a);
            lemma_wrapped_add(self.data_size.wrapping_add(size_a), n + size_a, size_b);
        }
        self.data_size = self.data_size.wrapping_add(size_a).wrapping_add(size_b);
        self.ops.push(op);
        proof {
            assert(self@ =~= old(self)@.push(op@));
            assert(self@.drop_last() =~= old(self)@);
        }
    }

    /// Stages a store of `value` under `key` in the family called `cf`.
    pub fn put_cf(&mut self, cf: &str, key: &[u8], value: &[u8]) -> (r: Result<(), Error>)
        requires
            old(self).wf(),
            key@.len() >= 1,
        ensures
            r is Ok,
            final(self).wf(),
            final(self).capacity() == old(self).capacity(),
            final(self)@ == old(self)@.push(Op::Put { cf: cf@, key: key@, value: value@ }),
    {
        let op = WriteOp::Put { cf: cf.to_owned(), key: slice_to_vec(key),
            value: slice_to_vec(value) };
        self.stage(op, key.len(), value.len());
        Ok(())
    }

    /// Stages a store of `value` under `key` in the default family.
    pub fn put(&mut self, key: &[u8], value: &[u8]) -> (r: Result<(), Error>)
        requires
            old(self).wf(),
            key@.len() >= 1,
        ensures
            r is Ok,
            final(self).wf(),
            final(self).capacity() == old(self).capacity(),
            final(self)@ == old(self)@.push(Op::Put { cf: CF_DEFAULT@, key: key@, value: value@ }),
    {
        self.put_cf(CF_DEFAULT, key, value)
    }

    /// Stages the removal of the entry of `key` from the family called `cf`.
    pub fn delete_cf(&mut self, cf: &str, key: &[u8]) -> (r: Result<(), Error>)
        requires
            old(self).wf(),
        ensures
            r is Ok,
            final(self).wf(),
            final(self).capacity() == old(self).capacity(),
            final(self)@ == old(self)@.push(Op::Delete { cf: cf@, key: key@ }),
    {
        let op = WriteOp::Delete { cf: cf.to_owned(), key: slice_to_vec(key) };
        self.stage(op, key.len(), 0);
        Ok(())
    }

    /// Stages the removal of the entry of `key` from the default family.
    pub fn delete(&mut self, key: &[u8]) -> (r: Result<(), Error>)
        requires
            old(self).wf(),
        ensures
            r is Ok,
            final(self).wf(),
            final(self).capacity() == old(self).capacity(),
            final(self)@ == old(self)@.push(Op::Delete { cf: CF_DEFAULT@, key: key@ }),
    {
        self.delete_cf(CF_DEFAULT, key)
    }

    /// Stages the removal, from the family called `cf`, of every entry from `begin_key`
    /// up to, and without, `end_key`.
    pub fn delete_range_cf(&mut self, cf: &str, begin_key: &[u8], end_key: &[u8]) -> (r: Result<
        (),
        Error,
    >)
        requires
            old(self).wf(),
        ensures
            r is Ok,
            final(self).wf(),
            final(self).capacity() == old(self).capacity(),
            final(self)@ == old(self)@.push(
                Op::DeleteRange { cf: cf@, begin: begin_key@, end: end_key@ },
            ),
    {
        let op = WriteOp::DeleteRange {
            cf: cf.to_owned(),
            begin: slice_to_vec(begin_key),
            end: slice_to_vec(end_key),
        };
        self.stage(op, begin_key.len(), end_key.len());
        Ok(())
    }

    /// Stages the removal, from the default family, of every entry from `begin_key` up
    /// to, and without, `end_key`.
    pub fn delete_range(&mut self, begin_key: &[u8], end_key: &[u8]) -> (r: Result<(), Error>)
        requires
            old(self).wf(),
        ensures
            r is Ok,
            final(self).wf(),
            final(self).capacity() == old(self).capacity(),
            final(self)@ == old(self)@.push(
                Op::DeleteRange { cf: CF_DEFAULT@, begin: begin_key@, end: end_key@ },
            ),
    {
        self.delete_range_cf(CF_DEFAULT, begin_key, end_key)
    }

    /// The bytes that the staged operations take.
    pub fn data_size(&self) -> (n: usize)
        ensures
            n == self.reported_size(),
    {
        self.data_size
    }

    /// The number of staged operations.
    pub fn count(&self) -> (n: usize)
        ensures
            n == self@.len(),
    {
        self.ops.len()
    }

    /// Whether no operation is staged.
    pub fn is_empty(&self) -> (b: bool)
        ensures
            b == (self@.len() == 0),
    {
        self.ops.len() == 0
    }

    /// Drops the staged operations.
    pub fn clear(&mut self)
        ensures
            final(self).wf(),
            final(self).capacity() == old(self).capacity(),
            final(self)@ == Seq::<Op>::empty(),
            final(self).reported_size() == 0,
    {
        self.ops.clear();
        self.data_size = 0;
        proof {
            assert(self@ =~= Seq::<Op>::empty());
            vstd::arithmetic::div_mod::lemma_small_mod(0, (usize::MAX as int + 1) as nat);
        }
    }
}

impl SkiplistEngine {
    /// Applies the operations of `batch` in the order in which they were staged. An
    /// operation on a family that the engine does not have stops the batch: the
    /// operations before it stay applied, and the failure names the family.
    pub fn write_opt(&mut self, batch: &SkiplistWriteBatch, opts: &WriteOptions) -> (r: Result<
        (),
        Error,
    >)
        requires
            old(self).wf(),
            batch.wf(),
        ensures
            final(self).wf(),
            final(self).names() == old(self).names(),
            final(self).seq_nos() == old(self).seq_nos(),
            final(self)@ == apply_ops(
                old(self)@,
                batch@.take(known_prefix(old(self)@.dom(), batch@) as int),
            ),
            match r {
                Ok(()) => known_prefix(old(self)@.dom(), batch@) == batch@.len(),
                Err(e) => known_prefix(old(self)@.dom(), batch@) < batch@.len() && no_such_cf(
                    e,
                    op_cf(batch@[known_prefix(old(self)@.dom(), batch@) as int]),
                ),
            },
    {
        let ghost cfs = self@.dom();
        let ghost ops = batch@;
        let mut i: usize = 0;
        proof {
            assert(ops.take(0) =~= Seq::<Op>::empty());
        }
        while i < batch.ops.len()
            invariant
                i <= batch.ops@.len(),
                ops == batch@,
                ops.len() == batch.ops@.len(),
                batch.wf(),
                self.wf(),
                self.names() == old(self).names(),
                self.seq_nos() == old(self).seq_nos(),
                cfs == old(self)@.dom(),
                self@.dom() == cfs,
                known_prefix(cfs, ops.take(i as int)) == i,
                self@ == apply_ops(old(self)@, ops.take(i as int)),
            decreases batch.ops.len() - i,
        {
            let ghost before = self@;
            proof {
                assert(ops.take(i + 1).drop_last() =~= ops.take(i as int));
                assert(ops.take(i + 1).last() == ops[i as int]);
                assert(ops[i as int] == batch.ops@[i as int]@);
                assert(op_ok(batch@[i as int]));
            }
            let done = match &batch.ops[i] {
                WriteOp::Put { cf, key, value } => self.put_cf(
                    cf.as_str(),
                    key.as_slice(),
                    value.as_slice(),
                ),
                WriteOp::Delete { cf, key } => self.delete_cf(cf.as_str(), key.as_slice()),
                WriteOp::DeleteRange { cf, begin, end } => self.delete_range_cf(
                    cf.as_str(),
                    begin.as_slice(),
                    end.as_slice(),
                ),
            };
            match done {
                Ok(()) => {
                    proof {
                        assert(self@.dom() =~= cfs);
                    }
                },
                Err(e) => {
                    proof {
                        lemma_known_prefix_stops(cfs, ops, i as int, ops.len() as int);
                        assert(ops.take(ops.len() as int) =~= ops);
                    }
                    return Err(e);
                },
            }
            i += 1;
        }
        proof {
            assert(ops.take(i as int) =~= ops);
        }
        Ok(())
    }

    /// Applies the operations of `batch` in the order in which they were staged, with the
    /// options that a write has when none are given.
    pub fn write(&mut self, batch: &SkiplistWriteBatch) -> (r: Result<(), Error>)
        requires
            old(self).wf(),
            batch.wf(),
        ensures
            final(self).wf(),
            final(self).names() == old(self).names(),
            final(self).seq_nos() == old(self).seq_nos(),
            final(self)@ == apply_ops(
                old(self)@,
                batch@.take(known_prefix(old(self)@.dom(), batch@) as int),
            ),
            match r {
                Ok(()) => known_prefix(old(self)@.dom(), batch@) == batch@.len(),
                Err(e) => known_prefix(old(self)@.dom(), batch@) < batch@.len() && no_such_cf(
                    e,
                    op_cf(batch@[known_prefix(old(self)@.dom(), batch@) as int]),
                ),
            },
    {
        let opts = WriteOptions::new();
        self.write_opt(batch, &opts)
    }
}

} // verus!
