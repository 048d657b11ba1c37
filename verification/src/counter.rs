//! The shared counter store: a single unsigned value mutated only through
//! its accessor methods. The surrounding process holds the store behind
//! one exclusive lock; each method is then one critical section, so calls
//! from concurrent requests take effect as some sequence of these
//! operations, and the lemma below accounts for any such sequence.

use vstd::prelude::*;

verus! {

/// The mutex-guarded shared counter. Callers never see the raw value
/// except through the accessors.
pub struct Counter {
    value: u32,
}

impl Counter {
    /// A counter starting at `value`.
    pub fn new(value: u32) -> (r: Counter)
        ensures
            r@ == value,
    {
        Counter { value }
    }

    /// Read the value.
    pub fn get(&self) -> (r: u32)
        ensures
            r == self@,
    {
        self.value
    }

    /// Overwrite the value.
    pub fn set(&mut self, value: u32)
        ensures
            final(self)@ == value,
    {
        self.value = value;
    }

    /// Add one to the value.
    pub fn increment(&mut self)
        requires
            old(self)@ < u32::MAX,
        ensures
            final(self)@ == old(self)@ + 1,
    {
        self.value = self.value + 1;
    }

    /// Put the value back to zero.
    pub fn reset(&mut self)
        ensures
            final(self)@ == 0,
    {
        self.value = 0;
    }
}

impl View for Counter {
    type V = u32;

    closed spec fn view(&self) -> u32 {
        self.value
    }
}

/// One counter operation, as serialized by the store's lock.
pub enum CounterOp {
    Get,
    Put(u32),
    Increment,
    Reset,
}

/// The value after one operation.
pub open spec fn apply_op(v: int, op: CounterOp) -> int {
    match op {
        CounterOp::Get => v,
        CounterOp::Put(x) => x as int,
        CounterOp::Increment => v + 1,
        CounterOp::Reset => 0,
    }
}

/// The value after a sequence of operations, applied front to back.
pub open spec fn apply_ops(v: int, ops: Seq<CounterOp>) -> int
    decreases ops.len(),
{
    if ops.len() == 0 {
        v
    } else {
        apply_ops(apply_op(v, ops[0]), ops.drop_first())
    }
}

/// No lost updates: every sequence of N increments — and, each operation
/// being one critical section, every interleaving of N concurrent
/// increment calls is such a sequence — leaves the counter at its initial
/// value plus N.
pub proof fn lemma_increments_add_up(v: int, ops: Seq<CounterOp>)
    requires
        forall|i: int| 0 <= i < ops.len() ==> ops[i] == CounterOp::Increment,
    ensures
        apply_ops(v, ops) == v + ops.len(),
    decreases ops.len(),
{
    if ops.len() > 0 {
        assert(ops[0] == CounterOp::Increment);
        assert forall|i: int| 0 <= i < ops.drop_first().len() implies ops.drop_first()[i]
            == CounterOp::Increment by {
            assert(ops.drop_first()[i] == ops[i + 1]);
        }
        lemma_increments_add_up(v + 1, ops.drop_first());
    }
}

} // verus!
