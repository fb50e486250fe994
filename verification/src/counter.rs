//! A 64-bit counter with wrapping increment and decrement.
//!
//! Each operation returns the value after its own mutation. Underflow and
//! overflow wrap modulo 2^64 and are not errors.

use vstd::prelude::*;

verus! {

use vstd::arithmetic::div_mod::lemma_add_mod_noop;
use vstd::arithmetic::div_mod::lemma_add_mod_noop_right;
use vstd::arithmetic::div_mod::lemma_small_mod;

/// The counter state. A fresh counter reads zero.
pub struct Counter {
    pub value: u64,
}

impl Counter {
    pub fn new() -> (c: Counter)
        ensures
            c.value == 0,
    {
        Counter { value: 0 }
    }
}

/// The current value of the counter.
pub fn get_counter(c: &Counter) -> (r: u64)
    ensures
        r == c.value,
{
    c.value
}

/// Adds one, wrapping modulo 2^64, and returns the value after the addition.
pub fn increment(c: &mut Counter) -> (r: u64)
    ensures
        final(c).value == (old(c).value + 1) % 0x1_0000_0000_0000_0000,
        r == final(c).value,
{
    if c.value == 0xFFFF_FFFF_FFFF_FFFF {
        c.value = 0;
    } else {
        c.value = c.value + 1;
    }
    c.value
}

/// Subtracts one, wrapping modulo 2^64, and returns the value after the
/// subtraction.
pub fn decrement(c: &mut Counter) -> (r: u64)
    ensures
        final(c).value == (old(c).value - 1) % 0x1_0000_0000_0000_0000,
        r == final(c).value,
{
    if c.value == 0 {
        c.value = 0xFFFF_FFFF_FFFF_FFFF;
    } else {
        c.value = c.value - 1;
    }
    c.value
}

/// One counter operation.
pub enum CounterOp {
    Increment,
    Decrement,
}

/// The value one operation leaves, wrapping modulo 2^64.
pub open spec fn counter_step(v: nat, op: CounterOp) -> nat {
    match op {
        CounterOp::Increment => ((v as int + 1) % 0x1_0000_0000_0000_0000int) as nat,
        CounterOp::Decrement => ((v as int - 1) % 0x1_0000_0000_0000_0000int) as nat,
    }
}

/// The value a sequence of operations leaves, applied left to right.
pub open spec fn counter_after(init: nat, ops: Seq<CounterOp>) -> nat
    decreases ops.len(),
{
    if ops.len() == 0 {
        init
    } else {
        counter_after(counter_step(init, ops[0]), ops.drop_first())
    }
}

/// How many operations of the sequence are increments.
pub open spec fn count_increments(ops: Seq<CounterOp>) -> nat
    decreases ops.len(),
{
    if ops.len() == 0 {
        0
    } else {
        (if ops[0] is Increment {
            1nat
        } else {
            0nat
        }) + count_increments(ops.drop_first())
    }
}

/// How many operations of the sequence are decrements.
pub open spec fn count_decrements(ops: Seq<CounterOp>) -> nat
    decreases ops.len(),
{
    if ops.len() == 0 {
        0
    } else {
        (if ops[0] is Decrement {
            1nat
        } else {
            0nat
        }) + count_decrements(ops.drop_first())
    }
}

/// After `n` increments and `m` decrements have been applied in any order to
/// a counter starting at `init`, the counter reads `(init + n - m) mod 2^64`:
/// only the counts matter, not the interleaving.
pub proof fn lemma_counter_linearizable(init: nat, ops: Seq<CounterOp>)
    requires
        init < 0x1_0000_0000_0000_0000,
    ensures
        counter_after(init, ops) == (init + count_increments(ops) - count_decrements(ops))
            % 0x1_0000_0000_0000_0000int,
    decreases ops.len(),
{
    let m: int = 0x1_0000_0000_0000_0000int;
    if ops.len() == 0 {
        lemma_small_mod(init, m as nat);
    } else {
        let init1 = counter_step(init, ops[0]);
        let tail = ops.drop_first();
        vstd::arithmetic::div_mod::lemma_mod_bound(init as int + 1, m);
        vstd::arithmetic::div_mod::lemma_mod_bound(init as int - 1, m);
        lemma_counter_linearizable(init1, tail);
        let shift: int = if ops[0] is Increment {
            1
        } else {
            -1
        };
        assert(init1 == (init + shift) % m);
        let rest: int = count_increments(tail) - count_decrements(tail);
        assert(count_increments(ops) - count_decrements(ops) == shift + rest);
        assert(counter_after(init, ops) == ((init + shift) % m + rest) % m);
        lemma_add_mod_noop_right((init + shift) % m, rest, m);
        lemma_add_mod_noop(init + shift, rest, m);
        assert(((init + shift) % m + rest) % m == (init + shift + rest) % m);
    }
}

} // verus!
