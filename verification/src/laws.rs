//! The machine's stated laws: flag behaviour of the logical and subtraction
//! instructions, the block store/load round trip, the blocking-wait protocol,
//! and the delay-timer schedule, each proved against the step semantics.

use crate::data::RegisterIndex;
use crate::interpreter::{
    exec_op, fetched_code, flag_value, lemma_wrap_offset, load_block, step, step_pc, store_block,
    vm_wf, VmView,
};
use crate::managed::delay_tick_at;
use crate::ops::{decode, Operation};
use vstd::prelude::*;

verus! {

/// Every instruction but random-and-mask is deterministic: the step does not
/// depend on what the random source would have handed out.
pub proof fn lemma_step_ignores_randomness(v: VmView, r1: u8, r2: u8)
    requires
        !(decode(fetched_code(v)) matches Some(Operation::SetToRandom(x, kk))),
    ensures
        step(v, r1) == step(v, r2),
{
    reveal(exec_op);
}

/// OR, AND and XOR always leave the flag register at zero afterwards,
/// regardless of its prior value and of which registers they combine.
pub proof fn lemma_logical_ops_reset_flag(v: VmView, x: RegisterIndex, y: RegisterIndex, rand: u8)
    requires
        vm_wf(v),
        0 <= x@ < 16,
        0 <= y@ < 16,
    ensures
        exec_op(v, Operation::Or(x, y), rand).0.regs[15] == 0,
        exec_op(v, Operation::And(x, y), rand).0.regs[15] == 0,
        exec_op(v, Operation::Xor(x, y), rand).0.regs[15] == 0,
        exec_op(v, Operation::Or(x, y), rand).1 is Ok,
        exec_op(v, Operation::And(x, y), rand).1 is Ok,
        exec_op(v, Operation::Xor(x, y), rand).1 is Ok,
{
    reveal(exec_op);
}

/// Subtract-with-borrow sets the flag register to 1 exactly when the
/// minuend is at least the subtrahend (no borrow), and to 0 otherwise —
/// the negation of the subtraction's overflow, for every byte pair.
pub proof fn lemma_subtract_borrow_flag(v: VmView, x: RegisterIndex, y: RegisterIndex, rand: u8)
    requires
        vm_wf(v),
        0 <= x@ < 16,
        0 <= y@ < 16,
    ensures
        exec_op(v, Operation::SubRegister(x, y), rand).0.regs[15] == flag_value(
            v.regs[x@] >= v.regs[y@],
        ),
        exec_op(v, Operation::SubRegisterReversed(x, y), rand).0.regs[15] == flag_value(
            v.regs[y@] >= v.regs[x@],
        ),
{
    reveal(exec_op);
}

/// Storing registers 0..=x to memory at the index register and loading them
/// back from the same index restores the original register values, and both
/// operations leave the index register advanced by x+1.
pub proof fn lemma_store_load_round_trip(v: VmView, x: RegisterIndex, rand: u8)
    requires
        vm_wf(v),
        0 <= x@ < 16,
    ensures
        ({
            let stored = exec_op(v, Operation::WriteMemory(x), rand).0;
            let reset = VmView { index: v.index, ..stored };
            let loaded = exec_op(reset, Operation::ReadMemory(x), rand).0;
            &&& stored.index == (v.index + x@ + 1) % 4096
            &&& loaded.index == (v.index + x@ + 1) % 4096
            &&& loaded.regs == v.regs
        }),
{
    reveal(exec_op);
    let stored = exec_op(v, Operation::WriteMemory(x), rand).0;
    let reset = VmView { index: v.index, ..stored };
    let loaded = exec_op(reset, Operation::ReadMemory(x), rand).0;
    let c = x@ + 1;
    assert(stored.mem == store_block(v.mem, v.regs, v.index, c));
    assert(loaded.regs == load_block(v.regs, stored.mem, v.index, c));
    assert forall|k: int| 0 <= k < 16 implies loaded.regs[k] == v.regs[k] by {
        if k < c {
            lemma_wrap_offset(v.index, k);
        }
    }
    assert(loaded.regs =~= v.regs);
}

/// Arming the blocking wait: the first invocation after entering the waiting
/// state discards any latched press, writes the sentinel 16 into the target
/// register, and does not advance the counter.
pub proof fn lemma_wait_for_key_arms(v: VmView, x: RegisterIndex, rand: u8)
    requires
        vm_wf(v),
        0 <= x@ < 16,
        v.first_wait,
    ensures
        ({
            let (v1, res) = exec_op(v, Operation::WaitForKey(x), rand);
            &&& v1.regs[x@] == 16
            &&& v1.pc == v.pc
            &&& !v1.first_wait
            &&& v1.latched is None
            &&& res is Ok
        }),
{
    reveal(exec_op);
}

/// Polling the blocking wait with no press latched leaves the machine
/// unchanged: the counter does not advance and the instruction is retried.
pub proof fn lemma_wait_for_key_stalls(v: VmView, x: RegisterIndex, rand: u8)
    requires
        vm_wf(v),
        0 <= x@ < 16,
        !v.first_wait,
        v.latched is None,
    ensures
        exec_op(v, Operation::WaitForKey(x), rand).0 == v,
        exec_op(v, Operation::WaitForKey(x), rand).1 is Ok,
{
    reveal(exec_op);
}

/// Capturing a press: a latched press is consumed and written into the
/// target register while it holds the sentinel; the counter advances only
/// once the captured key is no longer held.
pub proof fn lemma_wait_for_key_captures(v: VmView, x: RegisterIndex, rand: u8)
    requires
        vm_wf(v),
        0 <= x@ < 16,
        !v.first_wait,
        v.latched is Some,
        v.regs[x@] == 16,
    ensures
        ({
            let k = v.latched.unwrap();
            let (v1, res) = exec_op(v, Operation::WaitForKey(x), rand);
            &&& v1.regs[x@] == k@ as u8
            &&& v1.latched is None
            &&& (v.keys[k@] ==> v1.pc == v.pc)
            &&& (!v.keys[k@] ==> v1.pc == step_pc(v.pc))
            &&& res is Ok
        }),
{
    reveal(exec_op);
    let k = v.latched.unwrap();
    let w = k@ as u8;
    assert(w & 0xf == w) by (bit_vector)
        requires
            w < 16,
    ;
}

/// Over the first 48 cumulative counts the delay timer is scheduled to
/// decrement exactly at counts 8, 16, 24, 32 and 40 — five times; 48 itself
/// is skipped, being a multiple of 48.
pub proof fn lemma_delay_schedule_first_48()
    ensures
        forall|c: int|
            1 <= c <= 48 ==> (#[trigger] delay_tick_at(c) <==> (c == 8 || c == 16 || c == 24 || c
                == 32 || c == 40)),
{
}

/// The delay timer's value after `n` single-steps from count position `c`,
/// when no instruction writes the timer: each scheduled tick decrements it
/// while it is above zero.
pub open spec fn timer_after(t: u8, c: int, n: nat) -> u8
    decreases n,
{
    if n == 0 {
        t
    } else {
        let c1 = c + 1;
        let t1 = if delay_tick_at(c1) && t > 0 {
            (t - 1) as u8
        } else {
            t
        };
        timer_after(t1, c1, (n - 1) as nat)
    }
}

/// Over 48 consecutive single-steps from count 0 with no other mutation, a
/// delay timer starting at 5 or more loses exactly 5.
#[verifier::rlimit(100)]
#[verifier::spinoff_prover]
pub proof fn lemma_timer_over_48_steps(t: u8)
    requires
        t >= 5,
    ensures
        timer_after(t, 0, 48) == t - 5,
{
    reveal_with_fuel(timer_after, 49);
}

} // verus!
