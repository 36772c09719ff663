//! The executor: fetches the two bytes at the program counter, decodes them,
//! and applies exactly one operation to the machine state and the capability
//! interface. The whole transition is pinned by the pure specification
//! function [`step`] over the combined machine-and-device view [`VmView`].

use crate::data::{Address, Nibble, OpCode, RegisterIndex, Word};
use crate::error::VmError;
use crate::image::{Image, FONT_SPRITES};
use crate::ops::{decode, Operation};
use crate::platform::{
    blank_screen, draw_collision, draw_screen, screen_wf, Platform, Point, Sprite,
};
use vstd::prelude::*;

verus! {

broadcast use Nibble::lemma_from_view, Address::lemma_from_view, OpCode::lemma_from_view;

/// The index of the flag register.
pub const FLAG_REGISTER: usize = 0xf;

/// The combined machine-and-device state, as mathematics: the register file,
/// the index register, the address space, the program counter, the call
/// stack with its depth, the blocking-wait latch, and the capability model.
#[verifier::ext_equal]
pub struct VmView {
    pub regs: Seq<u8>,
    pub index: int,
    pub mem: Seq<u8>,
    pub pc: int,
    pub stack: Seq<int>,
    pub sp: int,
    pub first_wait: bool,
    pub screen: Seq<Seq<bool>>,
    pub delay: u8,
    pub sound: u8,
    pub keys: Seq<bool>,
    pub latched: Option<Nibble>,
}

/// Shape of a well-formed machine view.
pub open spec fn vm_wf(v: VmView) -> bool {
    &&& v.regs.len() == 16
    &&& v.mem.len() == 4096
    &&& v.stack.len() == 16
    &&& 0 <= v.index < 4096
    &&& 0 <= v.pc < 4096
    &&& 0 <= v.sp <= 16
    &&& forall|i: int| 0 <= i < 16 ==> 0 <= #[trigger] v.stack[i] < 4096
    &&& screen_wf(v.screen)
    &&& v.keys.len() == 16
    &&& (v.latched matches Some(k) ==> 0 <= k@ < 16)
}

/// Wrapping 8-bit addition.
pub open spec fn byte_add(a: u8, b: u8) -> u8 {
    ((a + b) % 256) as u8
}

/// Wrapping 8-bit subtraction.
pub open spec fn byte_sub(a: u8, b: u8) -> u8 {
    if a >= b {
        (a - b) as u8
    } else {
        (a - b + 256) as u8
    }
}

/// 1 for true, 0 for false: the value written to the flag register.
pub open spec fn flag_value(b: bool) -> u8 {
    if b {
        1
    } else {
        0
    }
}

/// The key selected by a register value: its low nibble. (Register values of
/// 16 or more select no key of their own; only the low four bits are read.)
pub open spec fn key_index(w: u8) -> int {
    (w & 0xf) as int
}

/// The program counter after an instruction that does not redirect control.
pub open spec fn step_pc(pc: int) -> int {
    (pc + 2) % 4096
}

/// The program counter after a taken skip.
pub open spec fn skip_pc(pc: int) -> int {
    (pc + 4) % 4096
}

/// The raw instruction word fetched at the program counter, big-endian.
pub open spec fn fetched_code(v: VmView) -> u16 {
    (v.mem[v.pc] * 256 + v.mem[(v.pc + 1) % 4096]) as u16
}

/// The sprite rows read from memory at the index register.
pub open spec fn sprite_rows(v: VmView, n: int) -> Seq<u8> {
    Seq::new(n as nat, |i: int| v.mem[(v.index + i) % 4096])
}

/// Memory after storing `count` register values from `regs` at `base`,
/// addresses wrapping into the 12-bit domain.
pub open spec fn store_block(mem: Seq<u8>, regs: Seq<u8>, base: int, count: int) -> Seq<u8> {
    Seq::new(
        4096,
        |i: int|
            {
                let o = (i - base) % 4096;
                if o < count {
                    regs[o]
                } else {
                    mem[i]
                }
            },
    )
}

/// Registers after loading `count` memory cells starting at `base`,
/// addresses wrapping into the 12-bit domain.
pub open spec fn load_block(regs: Seq<u8>, mem: Seq<u8>, base: int, count: int) -> Seq<u8> {
    Seq::new(
        16,
        |k: int|
            if k < count {
                mem[(base + k) % 4096]
            } else {
                regs[k]
            },
    )
}

/// The semantics of one decoded operation: the machine view after applying
/// `op` to `v`, and what the step reports. `rand` is the word the random
/// source hands out, read only by the random-and-mask operation.
#[verifier::opaque]
pub open spec fn exec_op(v: VmView, op: Operation, rand: u8) -> (VmView, Result<(), VmError>) {
    match op {
        Operation::ClearScreen => (
            VmView { screen: blank_screen(), pc: step_pc(v.pc), ..v },
            Ok(()),
        ),
        Operation::Return => if v.sp <= 0 {
            (v, Err(VmError::StackUnderflow))
        } else {
            (
                VmView {
                    pc: (v.stack[v.sp - 1] + 2) % 4096,
                    stack: v.stack.update(v.sp - 1, 0),
                    sp: v.sp - 1,
                    ..v
                },
                Ok(()),
            )
        },
        Operation::Jump(a) => (VmView { pc: a@, ..v }, Ok(())),
        Operation::Call(a) => if v.sp >= 16 {
            (v, Err(VmError::StackOverflow))
        } else {
            (
                VmView { stack: v.stack.update(v.sp, v.pc), sp: v.sp + 1, pc: a@, ..v },
                Ok(()),
            )
        },
        Operation::SkipIfEqual(x, kk) => (
            VmView {
                pc: if v.regs[x@] == kk {
                    skip_pc(v.pc)
                } else {
                    step_pc(v.pc)
                },
                ..v
            },
            Ok(()),
        ),
        Operation::SkipIfNotEqual(x, kk) => (
            VmView {
                pc: if v.regs[x@] != kk {
                    skip_pc(v.pc)
                } else {
                    step_pc(v.pc)
                },
                ..v
            },
            Ok(()),
        ),
        Operation::SkipIfRegistersEqual(x, y) => (
            VmView {
                pc: if v.regs[x@] == v.regs[y@] {
                    skip_pc(v.pc)
                } else {
                    step_pc(v.pc)
                },
                ..v
            },
            Ok(()),
        ),
        Operation::SetRegister(x, kk) => (
            VmView { regs: v.regs.update(x@, kk), pc: step_pc(v.pc), ..v },
            Ok(()),
        ),
        Operation::AddValue(x, kk) => (
            VmView { regs: v.regs.update(x@, byte_add(v.regs[x@], kk)), pc: step_pc(v.pc), ..v },
            Ok(()),
        ),
        Operation::SetToRegister(x, y) => (
            VmView { regs: v.regs.update(x@, v.regs[y@]), pc: step_pc(v.pc), ..v },
            Ok(()),
        ),
        Operation::Or(x, y) => (
            VmView {
                regs: v.regs.update(x@, v.regs[x@] | v.regs[y@]).update(15, 0),
                pc: step_pc(v.pc),
                ..v
            },
            Ok(()),
        ),
        Operation::And(x, y) => (
            VmView {
                regs: v.regs.update(x@, v.regs[x@] & v.regs[y@]).update(15, 0),
                pc: step_pc(v.pc),
                ..v
            },
            Ok(()),
        ),
        Operation::Xor(x, y) => (
            VmView {
                regs: v.regs.update(x@, v.regs[x@] ^ v.regs[y@]).update(15, 0),
                pc: step_pc(v.pc),
                ..v
            },
            Ok(()),
        ),
        Operation::AddRegister(x, y) => (
            VmView {
                regs: v.regs.update(x@, byte_add(v.regs[x@], v.regs[y@])).update(
                    15,
                    flag_value(v.regs[x@] + v.regs[y@] >= 256),
                ),
                pc: step_pc(v.pc),
                ..v
            },
            Ok(()),
        ),
        Operation::SubRegister(x, y) => (
            VmView {
                regs: v.regs.update(x@, byte_sub(v.regs[x@], v.regs[y@])).update(
                    15,
                    flag_value(v.regs[x@] >= v.regs[y@]),
                ),
                pc: step_pc(v.pc),
                ..v
            },
            Ok(()),
        ),
        Operation::ShiftRight(x, y) => (
            VmView {
                regs: v.regs.update(x@, v.regs[y@] / 2).update(15, v.regs[y@] % 2),
                pc: step_pc(v.pc),
                ..v
            },
            Ok(()),
        ),
        Operation::SubRegisterReversed(x, y) => (
            VmView {
                regs: v.regs.update(x@, byte_sub(v.regs[y@], v.regs[x@])).update(
                    15,
                    flag_value(v.regs[y@] >= v.regs[x@]),
                ),
                pc: step_pc(v.pc),
                ..v
            },
            Ok(()),
        ),
        Operation::ShiftLeft(x, y) => (
            VmView {
                regs: v.regs.update(x@, ((v.regs[y@] % 128) * 2) as u8).update(
                    15,
                    v.regs[y@] / 128,
                ),
                pc: step_pc(v.pc),
                ..v
            },
            Ok(()),
        ),
        Operation::SkipIfRegistersNotEqual(x, y) => (
            VmView {
                pc: if v.regs[x@] != v.regs[y@] {
                    skip_pc(v.pc)
                } else {
                    step_pc(v.pc)
                },
                ..v
            },
            Ok(()),
        ),
        Operation::SetIndexRegister(a) => (
            VmView { index: a@, pc: step_pc(v.pc), ..v },
            Ok(()),
        ),
        Operation::JumpV0(a) => (VmView { pc: (a@ + v.regs[0]) % 4096, ..v }, Ok(())),
        Operation::SetToRandom(x, kk) => (
            VmView { regs: v.regs.update(x@, rand & kk), pc: step_pc(v.pc), ..v },
            Ok(()),
        ),
        Operation::Draw(x, y, n) => (
            VmView {
                screen: draw_screen(v.screen, v.regs[x@], v.regs[y@], sprite_rows(v, n@)),
                regs: v.regs.update(
                    15,
                    flag_value(draw_collision(v.screen, v.regs[x@], v.regs[y@], sprite_rows(v, n@))),
                ),
                pc: step_pc(v.pc),
                ..v
            },
            Ok(()),
        ),
        Operation::SkipIfKeyDown(x) => (
            VmView {
                pc: if v.keys[key_index(v.regs[x@])] {
                    skip_pc(v.pc)
                } else {
                    step_pc(v.pc)
                },
                ..v
            },
            Ok(()),
        ),
        Operation::SkipIfKeyUp(x) => (
            VmView {
                pc: if !v.keys[key_index(v.regs[x@])] {
                    skip_pc(v.pc)
                } else {
                    step_pc(v.pc)
                },
                ..v
            },
            Ok(()),
        ),
        Operation::GetDelayTimer(x) => (
            VmView { regs: v.regs.update(x@, v.delay), pc: step_pc(v.pc), ..v },
            Ok(()),
        ),
        Operation::WaitForKey(x) => exec_wait_for_key(v, x),
        Operation::SetDelayTimer(x) => (
            VmView { delay: v.regs[x@], pc: step_pc(v.pc), ..v },
            Ok(()),
        ),
        Operation::SetSoundTimer(x) => (
            VmView { sound: v.regs[x@], pc: step_pc(v.pc), ..v },
            Ok(()),
        ),
        Operation::IncrementIndexRegister(x) => (
            VmView { index: (v.index + v.regs[x@]) % 4096, pc: step_pc(v.pc), ..v },
            Ok(()),
        ),
        Operation::SetIndexRegisterToSprite(n) => (
            v,
            Err(VmError::UnsupportedOperation(Operation::SetIndexRegisterToSprite(n))),
        ),
        Operation::ToDecimal(x) => (
            VmView {
                mem: v.mem.update(v.index, v.regs[x@] / 100).update(
                    (v.index + 1) % 4096,
                    (v.regs[x@] / 10) % 10,
                ).update((v.index + 2) % 4096, v.regs[x@] % 10),
                pc: step_pc(v.pc),
                ..v
            },
            Ok(()),
        ),
        Operation::WriteMemory(x) => (
            VmView {
                mem: store_block(v.mem, v.regs, v.index, x@ + 1),
                index: (v.index + x@ + 1) % 4096,
                pc: step_pc(v.pc),
                ..v
            },
            Ok(()),
        ),
        Operation::ReadMemory(x) => (
            VmView {
                regs: load_block(v.regs, v.mem, v.index, x@ + 1),
                index: (v.index + x@ + 1) % 4096,
                pc: step_pc(v.pc),
                ..v
            },
            Ok(()),
        ),
    }
}

/// The two-phase blocking wait. The first invocation after entering the
/// waiting state discards any latched press, writes the sentinel 16 into the
/// target register, and stalls. Later invocations poll the latch: with no
/// press latched they stall; a latched press is consumed and captured into
/// the target register while it still holds the sentinel, and the counter
/// advances only once the captured key is no longer held.
pub open spec fn exec_wait_for_key(v: VmView, x: RegisterIndex) -> (VmView, Result<(), VmError>) {
    if v.first_wait {
        (
            VmView { first_wait: false, latched: None, regs: v.regs.update(x@, 16), ..v },
            Ok(()),
        )
    } else {
        match v.latched {
            None => (v, Ok(())),
            Some(k) => {
                let regs1 = if v.regs[x@] == 16 {
                    v.regs.update(x@, k@ as u8)
                } else {
                    v.regs
                };
                if v.keys[key_index(regs1[x@])] {
                    (VmView { regs: regs1, latched: None, ..v }, Ok(()))
                } else {
                    (VmView { regs: regs1, latched: None, pc: step_pc(v.pc), ..v }, Ok(()))
                }
            },
        }
    }
}

/// One whole machine step: fetch, decode, execute. A word outside the decode
/// table is reported as `UnknownOpCode` with no mutation.
pub open spec fn step(v: VmView, rand: u8) -> (VmView, Result<(), VmError>) {
    match decode(fetched_code(v)) {
        None => (v, Err(VmError::UnknownOpCode(OpCode::from_u16(fetched_code(v))))),
        Some(op) => exec_op(v, op, rand),
    }
}

/// Whether `post` with report `res` is one legal step from `pre`: the
/// machine's transition for some word the random source may hand out.
pub open spec fn step_rel(pre: VmView, post: VmView, res: Result<(), VmError>) -> bool {
    exists|r: u8| step(pre, r) == (post, res)
}

/// The memory contents before any image is loaded: the font table at address
/// 0x0, zeroes elsewhere.
pub open spec fn initial_memory() -> Seq<u8> {
    Seq::new(
        4096,
        |i: int|
            if i < 80 {
                FONT_SPRITES@[i]
            } else {
                0
            },
    )
}

/// Offsets added to a 12-bit base reach each cell exactly once.
pub(crate) proof fn lemma_wrap_offset(base: int, j: int)
    requires
        0 <= base < 4096,
        0 <= j < 4096,
    ensures
        0 <= (base + j) % 4096 < 4096,
        ((base + j) % 4096 - base) % 4096 == j,
{
    if base + j < 4096 {
        assert((base + j) % 4096 == base + j);
    } else {
        assert((base + j) % 4096 == base + j - 4096);
    }
}

/// Wrapping the offset of a cell back from a 12-bit base returns the cell.
proof fn lemma_wrap_inverse(base: int, i: int)
    requires
        0 <= base < 4096,
        0 <= i < 4096,
    ensures
        0 <= (i - base) % 4096 < 4096,
        (base + (i - base) % 4096) % 4096 == i,
{
    if i >= base {
        assert((i - base) % 4096 == i - base);
        assert((base + (i - base)) % 4096 == i);
    } else {
        assert((i - base) % 4096 == i - base + 4096);
        assert((base + (i - base + 4096)) % 4096 == i);
    }
}

/// The machine: address space, register file, call stack, program counter,
/// blocking-wait latch, and the capability interface it drives.
pub struct Interpreter<P: Platform> {
    platform: P,
    register: [u8; 16],
    index: Address,
    memory: [u8; 4096],
    instruction_counter: Address,
    stack: [Address; 16],
    stack_top_index: usize,
    is_first_wait: bool,
}

impl<P: Platform> View for Interpreter<P> {
    type V = VmView;

    closed spec fn view(&self) -> VmView {
        VmView {
            regs: self.register@,
            index: self.index@,
            mem: self.memory@,
            pc: self.instruction_counter@,
            stack: Seq::new(16, |i: int| self.stack@[i]@),
            sp: self.stack_top_index as int,
            first_wait: self.is_first_wait,
            screen: self.platform.screen(),
            delay: self.platform.delay_timer_value(),
            sound: self.platform.sound_timer_value(),
            keys: self.platform.keys_held(),
            latched: self.platform.latched_key(),
        }
    }
}

impl<P: Platform> Interpreter<P> {
    /// The machine is well formed: its view has the right shape and the
    /// platform satisfies its own invariant.
    pub closed spec fn wf(&self) -> bool {
        &&& vm_wf(self@)
        &&& self.platform.inv()
    }

    /// Well-formedness of the machine gives well-formedness of its view.
    pub proof fn lemma_wf_view(&self)
        requires
            self.wf(),
        ensures
            vm_wf(self@),
    {
    }

    /// Builds the machine: zeroed registers, stack and timers, the font
    /// table at address 0x0, the image loaded over it, and the program
    /// counter at the image's entry point.
    pub fn new<I: Image>(image: I, platform: P) -> (r: Self)
        requires
            platform.inv(),
        ensures
            r.wf(),
            r@.regs == Seq::new(16, |i: int| 0u8),
            r@.index == 0,
            r@.mem == image.loaded(initial_memory()),
            r@.pc == image.entry_point_value(),
            r@.stack == Seq::new(16, |i: int| 0int),
            r@.sp == 0,
            r@.first_wait,
            r@.screen == platform.screen(),
            r@.delay == platform.delay_timer_value(),
            r@.sound == platform.sound_timer_value(),
            r@.keys == platform.keys_held(),
            r@.latched == platform.latched_key(),
    {
        let mut memory: [u8; 4096] = [0; 4096];
        let mut k: usize = 0;
        while k < 80
            invariant
                k <= 80,
                memory@.len() == 4096,
                forall|i: int|
                    0 <= i < 4096 ==> #[trigger] memory@[i] == (if i < k {
                        FONT_SPRITES@[i]
                    } else {
                        0u8
                    }),
            decreases 80 - k,
        {
            memory[k] = FONT_SPRITES[k];
            k += 1;
        }
        proof {
            assert(memory@ =~= initial_memory());
        }
        image.load_into_memory(&mut memory);
        proof {
            image.loaded_wf(initial_memory());
        }
        let entry = image.entry_point();
        let r = Interpreter {
            platform,
            register: [0; 16],
            index: Address::new(0),
            memory,
            instruction_counter: entry,
            stack: [Address::new(0); 16],
            stack_top_index: 0,
            is_first_wait: true,
        };
        proof {
            image.loaded_wf(initial_memory());
            r.platform.inv_implies_model_wf();
            assert(r@.regs =~= Seq::new(16, |i: int| 0u8));
            assert(r@.stack =~= Seq::new(16, |i: int| 0int));
        }
        r
    }

    /// A shared view of the capability implementation.
    pub fn platform(&self) -> (r: &P)
        ensures
            r.screen() == self@.screen,
            r.delay_timer_value() == self@.delay,
            r.sound_timer_value() == self@.sound,
            r.keys_held() == self@.keys,
            r.latched_key() == self@.latched,
            self.wf() ==> r.inv(),
    {
        &self.platform
    }

    /// An exclusive view of the capability implementation. The machine's
    /// device model follows whatever the caller does through it; the machine
    /// part of the state is untouched.
    pub fn platform_mut(&mut self) -> (r: &mut P)
        ensures
            (*r).screen() == old(self)@.screen,
            (*r).delay_timer_value() == old(self)@.delay,
            (*r).sound_timer_value() == old(self)@.sound,
            (*r).keys_held() == old(self)@.keys,
            (*r).latched_key() == old(self)@.latched,
            old(self).wf() ==> (*r).inv(),
            final (self)@ == (VmView {
                screen: final (r).screen(),
                delay: final (r).delay_timer_value(),
                sound: final (r).sound_timer_value(),
                keys: final (r).keys_held(),
                latched: final (r).latched_key(),
                ..old(self)@
            }),
            old(self).wf() && final (r).inv() && (final (r).latched_key() matches Some(k) ==> 0
                <= k@ < 16) && final (r).keys_held().len() == 16 && screen_wf(final (r).screen())
                ==> final (self).wf(),
    {
        &mut self.platform
    }

    /// Saves a return address; the stack must have room.
    fn push_to_stack(&mut self, address: Address)
        requires
            old(self).wf(),
            old(self)@.sp < 16,
        ensures
            final (self).wf(),
            final (self)@ == (VmView {
                stack: old(self)@.stack.update(old(self)@.sp, address@),
                sp: old(self)@.sp + 1,
                ..old(self)@
            }),
    {
        proof {
            use_type_invariant(address);
            address.lemma_in_domain();
        }
        self.stack[self.stack_top_index] = address;
        self.stack_top_index += 1;
        proof {
            assert(self@.stack =~= old(self)@.stack.update(old(self)@.sp, address@));
            assert(self@ =~= (VmView {
                stack: old(self)@.stack.update(old(self)@.sp, address@),
                sp: old(self)@.sp + 1,
                ..old(self)@
            }));
        }
    }

    /// Takes the most recent return address, zeroing its slot; the stack must
    /// be non-empty.
    fn pop_from_stack(&mut self) -> (r: Address)
        requires
            old(self).wf(),
            old(self)@.sp > 0,
        ensures
            final (self).wf(),
            r@ == old(self)@.stack[old(self)@.sp - 1],
            final (self)@ == (VmView {
                stack: old(self)@.stack.update(old(self)@.sp - 1, 0),
                sp: old(self)@.sp - 1,
                ..old(self)@
            }),
    {
        self.stack_top_index -= 1;
        let addr = self.stack[self.stack_top_index];
        self.stack[self.stack_top_index] = Address::new(0);
        proof {
            assert(self@.stack =~= old(self)@.stack.update(old(self)@.sp - 1, 0));
            assert(self@ =~= (VmView {
                stack: old(self)@.stack.update(old(self)@.sp - 1, 0),
                sp: old(self)@.sp - 1,
                ..old(self)@
            }));
        }
        addr
    }

    /// Fetches, decodes and executes exactly one instruction: the machine
    /// takes one legal step of [`step`], and what the step reports is
    /// returned.
    #[verifier::rlimit(100)]
    #[verifier::spinoff_prover]
    pub fn run_next_instruction(&mut self) -> (res: Result<(), VmError>)
        requires
            old(self).wf(),
        ensures
            final (self).wf(),
            step_rel(old(self)@, final (self)@, res),
    {
        proof {
            reveal(crate::ops::decode);
            reveal(exec_op);
            self.platform.inv_implies_model_wf();
        }
        let ghost pre = self@;
        let i = self.instruction_counter.as_usize();
        let hi = self.memory[i];
        let lo = self.memory[(i + 1) % 4096];
        let code = OpCode::from_bytes(hi, lo);
        proof {
            assert(code@ == fetched_code(pre));
        }
        let op = match Operation::try_from(code) {
            Ok(op) => op,
            Err(()) => {
                proof {
                    assert(step(pre, 0u8) == (pre, Err::<(), VmError>(VmError::UnknownOpCode(code))));
                }
                return Err(VmError::UnknownOpCode(code));
            },
        };
        let ghost mut g_rand: u8 = 0;
        match op {
            Operation::ClearScreen => {
                self.platform.clear_screen();
            },
            Operation::SetRegister(x, w) => {
                self.register[x.as_usize()] = w;
            },
            Operation::SetIndexRegister(address) => {
                self.index = address;
                proof {
                    use_type_invariant(address);
                    address.lemma_in_domain();
                }
            },
            Operation::AddValue(x, w) => {
                let xi = x.as_usize();
                let sum: u16 = self.register[xi] as u16 + w as u16;
                self.register[xi] = (sum % 256) as u8;
            },
            Operation::SkipIfRegistersEqual(x, y) => {
                if self.register[x.as_usize()] == self.register[y.as_usize()] {
                    self.instruction_counter = self.instruction_counter.wrapping_add(2);
                }
            },
            Operation::SkipIfRegistersNotEqual(x, y) => {
                if self.register[x.as_usize()] != self.register[y.as_usize()] {
                    self.instruction_counter = self.instruction_counter.wrapping_add(2);
                }
            },
            Operation::SkipIfEqual(x, w) => {
                if self.register[x.as_usize()] == w {
                    self.instruction_counter = self.instruction_counter.wrapping_add(2);
                }
            },
            Operation::SkipIfNotEqual(x, w) => {
                if self.register[x.as_usize()] != w {
                    self.instruction_counter = self.instruction_counter.wrapping_add(2);
                }
            },
            Operation::SetToRegister(x, y) => {
                self.register[x.as_usize()] = self.register[y.as_usize()];
            },
            Operation::Or(x, y) => {
                self.register[x.as_usize()] = self.register[x.as_usize()] | self.register[y.as_usize()];
                self.register[FLAG_REGISTER] = 0;
            },
            Operation::Xor(x, y) => {
                self.register[x.as_usize()] = self.register[x.as_usize()] ^ self.register[y.as_usize()];
                self.register[FLAG_REGISTER] = 0;
            },
            Operation::And(x, y) => {
                self.register[x.as_usize()] = self.register[x.as_usize()] & self.register[y.as_usize()];
                self.register[FLAG_REGISTER] = 0;
            },
            Operation::AddRegister(x, y) => {
                let xi = x.as_usize();
                let sum: u16 = self.register[xi] as u16 + self.register[y.as_usize()] as u16;
                self.register[xi] = (sum % 256) as u8;
                self.register[FLAG_REGISTER] = if sum >= 256 {
                    1
                } else {
                    0
                };
            },
            Operation::SubRegister(x, y) => {
                let xi = x.as_usize();
                let a = self.register[xi];
                let b = self.register[y.as_usize()];
                self.register[xi] = if a >= b {
                    a - b
                } else {
                    (a as u16 + 256 - b as u16) as u8
                };
                self.register[FLAG_REGISTER] = if a >= b {
                    1
                } else {
                    0
                };
            },
            Operation::SubRegisterReversed(x, y) => {
                let xi = x.as_usize();
                let a = self.register[xi];
                let b = self.register[y.as_usize()];
                self.register[xi] = if b >= a {
                    b - a
                } else {
                    (b as u16 + 256 - a as u16) as u8
                };
                self.register[FLAG_REGISTER] = if b >= a {
                    1
                } else {
                    0
                };
            },
            Operation::ShiftRight(x, y) => {
                let b = self.register[y.as_usize()];
                self.register[x.as_usize()] = b / 2;
                self.register[FLAG_REGISTER] = b % 2;
            },
            Operation::ShiftLeft(x, y) => {
                let b = self.register[y.as_usize()];
                self.register[x.as_usize()] = (b % 128) * 2;
                self.register[FLAG_REGISTER] = b / 128;
            },
            Operation::WriteMemory(x) => {
                let count = x.as_usize() + 1;
                let base = self.index.as_usize();
                let ghost mem0 = pre.mem;
                let mut j: usize = 0;
                while j < count
                    invariant
                        count <= 16,
                        base == pre.index,
                        0 <= base < 4096,
                        j <= count,
                        self@ == (VmView { mem: self@.mem, ..pre }),
                        self@.mem.len() == 4096,
                        self.wf(),
                        forall|i: int|
                            0 <= i < 4096 ==> #[trigger] self@.mem[i] == {
                                let o = (i - base) % 4096;
                                if o < j {
                                    pre.regs[o]
                                } else {
                                    mem0[i]
                                }
                            },
                    decreases count - j,
                {
                    let target: usize = (base + j) % 4096;
                    proof {
                        lemma_wrap_offset(base as int, j as int);
                    }
                    self.memory[target] = self.register[j];
                    proof {
                        assert forall|i: int| 0 <= i < 4096 implies #[trigger] self@.mem[i] == ({
                            let o = (i - base) % 4096;
                            if o < j + 1 {
                                pre.regs[o]
                            } else {
                                mem0[i]
                            }
                        }) by {
                            if i != target {
                                lemma_wrap_inverse(base as int, i);
                            }
                        }
                    }
                    j += 1;
                }
                proof {
                    assert(self@.mem =~= store_block(pre.mem, pre.regs, pre.index, x@ + 1));
                }
                self.index = self.index.wrapping_add(x.as_u8() as u16 + 1);
            },
            Operation::ReadMemory(x) => {
                let count = x.as_usize() + 1;
                let base = self.index.as_usize();
                let ghost regs0 = pre.regs;
                let mut j: usize = 0;
                while j < count
                    invariant
                        count <= 16,
                        base == pre.index,
                        0 <= base < 4096,
                        j <= count,
                        self@ == (VmView { regs: self@.regs, ..pre }),
                        self@.regs.len() == 16,
                        self.wf(),
                        forall|k: int|
                            0 <= k < 16 ==> #[trigger] self@.regs[k] == (if k < j {
                                pre.mem[(base + k) % 4096]
                            } else {
                                regs0[k]
                            }),
                    decreases count - j,
                {
                    let source: usize = (base + j) % 4096;
                    self.register[j] = self.memory[source];
                    j += 1;
                }
                proof {
                    assert(self@.regs =~= load_block(pre.regs, pre.mem, pre.index, x@ + 1));
                }
                self.index = self.index.wrapping_add(x.as_u8() as u16 + 1);
            },
            Operation::Call(address) => {
                if self.stack_top_index >= 16 {
                    proof {
                        assert(step(pre, 0u8) == (pre, Err::<(), VmError>(VmError::StackOverflow)));
                    }
                    return Err(VmError::StackOverflow);
                }
                let here = self.instruction_counter;
                self.push_to_stack(here);
                self.instruction_counter = address;
                proof {
                    use_type_invariant(address);
                    address.lemma_in_domain();
                    assert(step(pre, 0u8) == (self@, Ok::<(), VmError>(())));
                }
                return Ok(());
            },
            Operation::Return => {
                if self.stack_top_index == 0 {
                    proof {
                        assert(step(pre, 0u8) == (pre, Err::<(), VmError>(VmError::StackUnderflow)));
                    }
                    return Err(VmError::StackUnderflow);
                }
                let addr = self.pop_from_stack();
                self.instruction_counter = addr;
            },
            Operation::Jump(address) => {
                self.instruction_counter = address;
                proof {
                    use_type_invariant(address);
                    address.lemma_in_domain();
                    assert(step(pre, 0u8) == (self@, Ok::<(), VmError>(())));
                }
                return Ok(());
            },
            Operation::ToDecimal(x) => {
                let value = self.register[x.as_usize()];
                let base = self.index.as_usize();
                self.memory[base] = value / 100;
                self.memory[(base + 1) % 4096] = (value / 10) % 10;
                self.memory[(base + 2) % 4096] = value % 10;
            },
            Operation::IncrementIndexRegister(x) => {
                let w = self.register[x.as_usize()];
                self.index = self.index.wrapping_add(w as u16);
            },
            Operation::Draw(x, y, n) => {
                let count = n.as_usize();
                let base = self.index.as_usize();
                let mut rows: Vec<u8> = Vec::new();
                let mut j: usize = 0;
                while j < count
                    invariant
                        j <= count <= 16,
                        0 <= base < 4096,
                        base == self@.index,
                        self@.mem.len() == 4096,
                        rows@.len() == j,
                        forall|k: int| 0 <= k < j ==> rows@[k] == self@.mem[(base + k) % 4096],
                    decreases count - j,
                {
                    rows.push(self.memory[(base + j) % 4096]);
                    j += 1;
                }
                proof {
                    assert(rows@ =~= sprite_rows(pre, n@));
                }
                let point = Point {
                    x: self.register[x.as_usize()],
                    y: self.register[y.as_usize()],
                };
                let sprite = Sprite::new(rows);
                let collision = self.platform.draw_sprite(point, &sprite);
                self.register[FLAG_REGISTER] = if collision {
                    1
                } else {
                    0
                };
            },
            Operation::SkipIfKeyDown(x) => {
                let kv = self.register[x.as_usize()] & 0xf;
                proof {
                    let w = self.register@[x@];
                    assert(w & 0xf < 16) by (bit_vector);
                }
                if self.platform.is_key_down(Nibble::new(kv)) {
                    self.instruction_counter = self.instruction_counter.wrapping_add(2);
                }
            },
            Operation::SkipIfKeyUp(x) => {
                let kv = self.register[x.as_usize()] & 0xf;
                proof {
                    let w = self.register@[x@];
                    assert(w & 0xf < 16) by (bit_vector);
                }
                if !self.platform.is_key_down(Nibble::new(kv)) {
                    self.instruction_counter = self.instruction_counter.wrapping_add(2);
                }
            },
            Operation::GetDelayTimer(x) => {
                self.register[x.as_usize()] = self.platform.get_delay_timer();
            },
            Operation::SetDelayTimer(x) => {
                let timer = self.register[x.as_usize()];
                self.platform.set_delay_timer(timer);
            },
            Operation::SetSoundTimer(x) => {
                let timer = self.register[x.as_usize()];
                self.platform.set_sound_timer(timer);
            },
            Operation::JumpV0(address) => {
                let w = self.register[0];
                self.instruction_counter = address.wrapping_add(w as u16);
                proof {
                    assert(step(pre, 0u8) == (self@, Ok::<(), VmError>(())));
                }
                return Ok(());
            },
            Operation::WaitForKey(x) => {
                if self.is_first_wait {
                    let _ = self.platform.consume_key_press();
                    self.is_first_wait = false;
                    self.register[x.as_usize()] = 16;
                    proof {
                        assert(step(pre, 0u8) == (self@, Ok::<(), VmError>(())));
                    }
                    return Ok(());
                }
                match self.platform.consume_key_press() {
                    Some(key) => {
                        if self.register[x.as_usize()] == 16 {
                            self.register[x.as_usize()] = key.as_u8();
                        }
                    },
                    None => {
                        proof {
                            assert(step(pre, 0u8) == (self@, Ok::<(), VmError>(())));
                        }
                        return Ok(());
                    },
                }
                let kv = self.register[x.as_usize()] & 0xf;
                proof {
                    let w = self.register@[x@];
                    assert(w & 0xf < 16) by (bit_vector);
                }
                if self.platform.is_key_down(Nibble::new(kv)) {
                    proof {
                        assert(step(pre, 0u8) == (self@, Ok::<(), VmError>(())));
                    }
                    return Ok(());
                }
            },
            Operation::SetToRandom(x, w) => {
                let drawn = self.platform.get_random_word();
                self.register[x.as_usize()] = drawn & w;
                proof {
                    g_rand = drawn;
                }
            },
            Operation::SetIndexRegisterToSprite(n) => {
                proof {
                    assert(step(pre, 0u8) == (
                        pre,
                        Err::<(), VmError>(
                            VmError::UnsupportedOperation(Operation::SetIndexRegisterToSprite(n)),
                        ),
                    ));
                }
                return Err(VmError::UnsupportedOperation(op));
            },
        }
        self.instruction_counter = self.instruction_counter.wrapping_add(2);
        proof {
            assert(step(pre, g_rand) == (self@, Ok::<(), VmError>(())));
        }
        Ok(())
    }
}

} // verus!
