//! The reference capability implementation — a concrete framebuffer, timers,
//! keypad and caller-supplied random source — and the timing driver that
//! wraps one executor and decrements the delay timer on a fixed schedule.

use crate::data::{Key, Word};
use crate::error::VmError;
use crate::image::Image;
use crate::interpreter::{initial_memory, step_rel, vm_wf, Interpreter, VmView};
use crate::platform::{
    blank_screen, draw_collision, draw_screen, screen_wf, sprite_bit, sprite_covers, Platform,
    Point, Sprite,
};
use core::time::Duration;
use vstd::prelude::*;

verus! {

broadcast use vstd::array::group_array_axioms;

/// A 64 by 32 monochrome display surface. A pixel is only ever flipped by
/// drawing, never directly set.
pub struct FrameBuffer {
    grid: [[bool; 64]; 32],
}

impl View for FrameBuffer {
    type V = Seq<Seq<bool>>;

    closed spec fn view(&self) -> Seq<Seq<bool>> {
        Seq::new(32, |y: int| self.grid@[y]@)
    }
}

impl Default for FrameBuffer {
    /// Every pixel starts off.
    fn default() -> (r: Self)
        ensures
            r@ == blank_screen(),
    {
        let row: [bool; 64] = vstd::array::array_fill_for_copy_types(false);
        let grid: [[bool; 64]; 32] = vstd::array::array_fill_for_copy_types(row);
        let r = FrameBuffer { grid };
        proof {
            assert forall|y: int| 0 <= y < 32 implies r@[y] =~= blank_screen()[y] by {
                assert(r.grid@[y] == row);
                assert forall|x: int| 0 <= x < 64 implies r@[y][x] == false by {
                    assert(row@[x] == false);
                }
            }
            assert(r@ =~= blank_screen());
        }
        r
    }
}

impl FrameBuffer {
    /// The pixel in row `i`, column `j`.
    pub fn get(&self, i: usize, j: usize) -> (r: bool)
        requires
            i < 32,
            j < 64,
        ensures
            r == self@[i as int][j as int],
    {
        self.grid[i][j]
    }

    /// Flips the pixel at column `x`, row `y`.
    pub fn change(&mut self, x: usize, y: usize)
        requires
            x < 64,
            y < 32,
        ensures
            final (self)@ == old(self)@.update(
                y as int,
                old(self)@[y as int].update(x as int, !old(self)@[y as int][x as int]),
            ),
    {
        let mut row: [bool; 64] = self.grid[y];
        row[x] = !row[x];
        self.grid[y] = row;
        proof {
            assert(self@ =~= old(self)@.update(
                y as int,
                old(self)@[y as int].update(x as int, !old(self)@[y as int][x as int]),
            ));
        }
    }

    /// The rows of the display, top first, as plain vectors.
    pub fn iter_rows(&self) -> (r: Vec<Vec<bool>>)
        ensures
            r@.len() == 32,
            forall|y: int| 0 <= y < 32 ==> #[trigger] r@[y]@ == self@[y],
    {
        let mut rows: Vec<Vec<bool>> = Vec::new();
        let mut y: usize = 0;
        while y < 32
            invariant
                y <= 32,
                rows@.len() == y,
                forall|i: int| 0 <= i < y ==> #[trigger] rows@[i]@ == self@[i],
            decreases 32 - y,
        {
            let mut row: Vec<bool> = Vec::new();
            let mut x: usize = 0;
            while x < 64
                invariant
                    y < 32,
                    x <= 64,
                    row@.len() == x,
                    forall|j: int| 0 <= j < x ==> #[trigger] row@[j] == self@[y as int][j],
                decreases 64 - x,
            {
                row.push(self.grid[y][x]);
                x += 1;
            }
            proof {
                assert(row@ =~= self@[y as int]);
            }
            rows.push(row);
            y += 1;
        }
        rows
    }
}

/// A source of random words for the random-and-mask instruction. Nothing is
/// assumed of the values it produces.
pub trait RandomNumberGenerator: Sized {
    /// The next random word.
    fn random_word(&mut self) -> Word;
}

/// A test-double random source: it hands out one fixed word, so runs that
/// use it are replayable.
pub struct FixedRandom {
    pub word: Word,
}

impl RandomNumberGenerator for FixedRandom {
    fn random_word(&mut self) -> Word {
        self.word
    }
}

/// The display after the first `k` sprite pixels, in row-major order, have
/// been processed.
pub open spec fn drawn_upto(
    s0: Seq<Seq<bool>>,
    ox: int,
    oy: int,
    sp: Seq<u8>,
    k: int,
) -> Seq<Seq<bool>> {
    Seq::new(
        32,
        |y: int|
            Seq::new(
                64,
                |x: int|
                    s0[y][x] != (sprite_covers(sp, ox, oy, x, y) && (y - oy) * 8 + (x - ox) < k),
            ),
    )
}

/// Whether any of the first `k` sprite pixels toggled a pixel that was on.
pub open spec fn collision_upto(
    s0: Seq<Seq<bool>>,
    ox: int,
    oy: int,
    sp: Seq<u8>,
    k: int,
) -> bool {
    exists|x: int, y: int|
        0 <= x < 64 && 0 <= y < 32 && sprite_covers(sp, ox, oy, x, y) && (y - oy) * 8 + (x - ox)
            < k && s0[y][x]
}

/// The concrete adapter behind the capability interface: it owns the
/// framebuffer, the two timers, the 16 key-held flags, the one-slot latch of
/// the last key pressed, and the caller-supplied random source.
pub(crate) struct ManagedPlatform<R: RandomNumberGenerator> {
    rand: R,
    frame_buffer: FrameBuffer,
    delay_timer: Word,
    sound_timer: Word,
    keys: [bool; 16],
    last_key: Option<Key>,
}

impl<R: RandomNumberGenerator> Platform for ManagedPlatform<R> {
    closed spec fn screen(&self) -> Seq<Seq<bool>> {
        self.frame_buffer@
    }

    closed spec fn delay_timer_value(&self) -> u8 {
        self.delay_timer
    }

    closed spec fn sound_timer_value(&self) -> u8 {
        self.sound_timer
    }

    closed spec fn keys_held(&self) -> Seq<bool> {
        self.keys@
    }

    closed spec fn latched_key(&self) -> Option<Key> {
        self.last_key
    }

    closed spec fn inv(&self) -> bool {
        self.last_key matches Some(k) ==> 0 <= k@ < 16
    }

    proof fn inv_implies_model_wf(&self) {
    }

    fn draw_sprite(&mut self, pos: Point, sprite: &Sprite) -> (collision: bool) {
        let ghost s0 = self.frame_buffer@;
        let ghost p0 = *self;
        let ox = (pos.x % 64) as usize;
        let oy = (pos.y % 32) as usize;
        let n = sprite.row_count();
        let mut collision = false;
        let mut r: usize = 0;
        proof {
            assert(self.frame_buffer@ =~~= drawn_upto(s0, ox as int, oy as int, sprite@, 0));
        }
        while r < n
            invariant
                n <= 15,
                *self == (ManagedPlatform { frame_buffer: self.frame_buffer, ..p0 }),
                s0 == p0.frame_buffer@,
                screen_wf(s0),
                ox == pos.x as int % 64,
                oy == pos.y as int % 32,
                n == sprite@.len(),
                r <= n,
                self.frame_buffer@ == drawn_upto(s0, ox as int, oy as int, sprite@, r * 8),
                collision == collision_upto(s0, ox as int, oy as int, sprite@, r * 8),
            decreases n - r,
        {
            let row = sprite.row(r);
            let mut b: usize = 0;
            while b < 8
                invariant
                    n <= 15,
                    *self == (ManagedPlatform { frame_buffer: self.frame_buffer, ..p0 }),
                    s0 == p0.frame_buffer@,
                    screen_wf(s0),
                    ox == pos.x as int % 64,
                    oy == pos.y as int % 32,
                    n == sprite@.len(),
                    r < n,
                    row == sprite@[r as int],
                    b <= 8,
                    self.frame_buffer@ == drawn_upto(s0, ox as int, oy as int, sprite@, r * 8 + b),
                    collision == collision_upto(s0, ox as int, oy as int, sprite@, r * 8 + b),
                decreases 8 - b,
            {
                let ghost k = r * 8 + b;
                let bit = (row >> ((7 - b) as u8)) & 1 == 1;
                let x = ox + b;
                let y = oy + r;
                proof {
                    lemma_draw_cell(s0, ox as int, oy as int, sprite@, r as int, b as int);
                }
                if bit && x < 64 && y < 32 {
                    if self.frame_buffer.get(y, x) {
                        collision = true;
                    }
                    self.frame_buffer.change(x, y);
                    proof {
                        assert(self.frame_buffer@ =~~= drawn_upto(
                            s0,
                            ox as int,
                            oy as int,
                            sprite@,
                            k + 1,
                        ));
                    }
                } else {
                    proof {
                        assert(self.frame_buffer@ =~~= drawn_upto(
                            s0,
                            ox as int,
                            oy as int,
                            sprite@,
                            k + 1,
                        ));
                    }
                }
                b += 1;
            }
            r += 1;
        }
        proof {
            assert(self.frame_buffer@ =~~= draw_screen(s0, pos.x, pos.y, sprite@));
            assert(collision == draw_collision(s0, pos.x, pos.y, sprite@));
        }
        collision
    }

    fn clear_screen(&mut self) {
        self.frame_buffer = FrameBuffer::default();
    }

    fn get_delay_timer(&self) -> Word {
        self.delay_timer
    }

    fn set_delay_timer(&mut self, value: Word) {
        self.delay_timer = value;
    }

    fn set_sound_timer(&mut self, value: Word) {
        self.sound_timer = value;
    }

    fn is_key_down(&self, key: Key) -> bool {
        self.keys[key.as_usize()]
    }

    fn consume_key_press(&mut self) -> Option<Key> {
        let key = self.last_key;
        self.last_key = None;
        key
    }

    fn get_random_word(&mut self) -> Word {
        self.rand.random_word()
    }
}

/// Processing one sprite pixel moves the partial-draw picture forward by one:
/// the pixel's own cell toggles exactly when its bit is on and it lies on the
/// display, and no other cell changes.
proof fn lemma_draw_cell(s0: Seq<Seq<bool>>, ox: int, oy: int, sp: Seq<u8>, r: int, b: int)
    requires
        screen_wf(s0),
        0 <= ox < 64,
        0 <= oy < 32,
        0 <= r < sp.len(),
        0 <= b < 8,
    ensures
        (sprite_bit(sp, r, b) && ox + b < 64 && oy + r < 32) ==> drawn_upto(
            s0,
            ox,
            oy,
            sp,
            r * 8 + b + 1,
        ) == drawn_upto(s0, ox, oy, sp, r * 8 + b).update(
            oy + r,
            drawn_upto(s0, ox, oy, sp, r * 8 + b)[oy + r].update(
                ox + b,
                !drawn_upto(s0, ox, oy, sp, r * 8 + b)[oy + r][ox + b],
            ),
        ),
        !(sprite_bit(sp, r, b) && ox + b < 64 && oy + r < 32) ==> drawn_upto(
            s0,
            ox,
            oy,
            sp,
            r * 8 + b + 1,
        ) == drawn_upto(s0, ox, oy, sp, r * 8 + b),
        (sprite_bit(sp, r, b) && ox + b < 64 && oy + r < 32) ==> (collision_upto(
            s0,
            ox,
            oy,
            sp,
            r * 8 + b + 1,
        ) == (collision_upto(s0, ox, oy, sp, r * 8 + b) || s0[oy + r][ox + b])),
        !(sprite_bit(sp, r, b) && ox + b < 64 && oy + r < 32) ==> (collision_upto(
            s0,
            ox,
            oy,
            sp,
            r * 8 + b + 1,
        ) == collision_upto(s0, ox, oy, sp, r * 8 + b)),
        drawn_upto(s0, ox, oy, sp, r * 8 + b)[oy + r][ox + b] == s0[oy + r][ox + b] || !(0 <= oy + r
            < 32 && 0 <= ox + b < 64),
{
    let k = r * 8 + b;
    let d0 = drawn_upto(s0, ox, oy, sp, k);
    let d1 = drawn_upto(s0, ox, oy, sp, k + 1);
    assert forall|x: int, y: int| 0 <= x < 64 && 0 <= y < 32 implies ((sprite_covers(
        sp,
        ox,
        oy,
        x,
        y,
    ) && (y - oy) * 8 + (x - ox) < k + 1) == ((sprite_covers(sp, ox, oy, x, y) && (y - oy) * 8 + (x
        - ox) < k) || (sprite_bit(sp, r, b) && x == ox + b && y == oy + r))) by {
        if sprite_covers(sp, ox, oy, x, y) {
            assert(oy <= y < oy + sp.len() && ox <= x < ox + 8);
            if (y - oy) * 8 + (x - ox) == k {
                assert(y - oy == r && x - ox == b) by (nonlinear_arith)
                    requires
                        (y - oy) * 8 + (x - ox) == r * 8 + b,
                        0 <= x - ox < 8,
                        0 <= b < 8,
                        0 <= y - oy,
                        0 <= r,
                ;
            }
        }
    }
    if sprite_bit(sp, r, b) && ox + b < 64 && oy + r < 32 {
        let xx = ox + b;
        let yy = oy + r;
        assert(sprite_covers(sp, ox, oy, xx, yy));
        assert((yy - oy) * 8 + (xx - ox) == k);
        assert forall|y: int| 0 <= y < 32 implies d1[y] == d0.update(
            yy,
            d0[yy].update(xx, !d0[yy][xx]),
        )[y] by {
            if y == yy {
                assert(d1[y] =~= d0[yy].update(xx, !d0[yy][xx]));
            } else {
                assert(d1[y] =~= d0[y]);
            }
        }
        assert(d1 =~= d0.update(yy, d0[yy].update(xx, !d0[yy][xx])));
        assert(collision_upto(s0, ox, oy, sp, k + 1) == (collision_upto(s0, ox, oy, sp, k)
            || s0[yy][xx]));
    } else {
        assert forall|y: int| 0 <= y < 32 implies d1[y] == d0[y] by {
            assert(d1[y] =~= d0[y]);
        }
        assert(d1 =~= d0);
        if collision_upto(s0, ox, oy, sp, k + 1) {
            let (x, y) = choose|x: int, y: int|
                0 <= x < 64 && 0 <= y < 32 && sprite_covers(sp, ox, oy, x, y) && (y - oy) * 8 + (x
                    - ox) < k + 1 && s0[y][x];
            assert(collision_upto(s0, ox, oy, sp, k));
        }
    }
}

impl<R: RandomNumberGenerator> ManagedPlatform<R> {
    fn new(rand: R) -> (r: Self)
        ensures
            r.inv(),
            r.screen() == blank_screen(),
            r.delay_timer_value() == 0,
            r.sound_timer_value() == 0,
            r.keys_held() == Seq::new(16, |i: int| false),
            r.latched_key() == None::<Key>,
    {
        let r = ManagedPlatform {
            rand,
            frame_buffer: FrameBuffer::default(),
            delay_timer: 0,
            sound_timer: 0,
            keys: [false;16],
            last_key: None,
        };
        proof {
            assert(r.keys_held() =~= Seq::new(16, |i: int| false));
        }
        r
    }
}

/// Whether the delay timer is scheduled to decrement at cumulative
/// instruction count `c`: once whenever the count is a multiple of 8 but not
/// of 48, and once whenever it is a multiple of 50.
pub open spec fn delay_tick_at(c: int) -> bool {
    (c % 8 == 0 && c % 48 != 0) || c % 50 == 0
}

/// The machine view after the scheduled timer work at count position `c`:
/// the delay timer decrements when a tick is due and it is above zero.
pub open spec fn tick_view(v: VmView, c: int) -> VmView {
    if delay_tick_at(c) && v.delay > 0 {
        VmView { delay: (v.delay - 1) as u8, ..v }
    } else {
        v
    }
}

/// The schedule repeats with period 1200 (the least common multiple of 8, 48
/// and 50), so only the count's position within that period matters.
pub proof fn lemma_schedule_periodic(c: int)
    requires
        c >= 0,
    ensures
        delay_tick_at(c % 1200) == delay_tick_at(c),
{
    let q = c / 1200;
    let p = c % 1200;
    assert(c == 1200 * q + p);
    assert((1200 * q + p) % 8 == p % 8) by (nonlinear_arith)
        requires
            0 <= p < 1200,
            q >= 0,
    ;
    assert((1200 * q + p) % 48 == p % 48) by (nonlinear_arith)
        requires
            0 <= p < 1200,
            q >= 0,
    ;
    assert((1200 * q + p) % 50 == p % 50) by (nonlinear_arith)
        requires
            0 <= p < 1200,
            q >= 0,
    ;
}

/// One successful driver step: the schedule position advances within its
/// period, the scheduled timer work is applied, and the machine then takes
/// one legal executor step that reports success.
pub open spec fn sim_step_ok(v0: VmView, c0: int, v1: VmView, c1: int) -> bool {
    &&& c1 == (c0 + 1) % 1200
    &&& exists|r: u8|
        crate::interpreter::step(tick_view(v0, c1), r).0 == v1 && crate::interpreter::step(
            tick_view(v0, c1),
            r,
        ).1 is Ok
}

/// `v1` at schedule position `c1` is reachable from `v0` at `c0` by `n`
/// successful driver steps.
pub open spec fn sim_reachable(v0: VmView, c0: int, v1: VmView, c1: int, n: nat) -> bool
    decreases n,
{
    if n == 0 {
        v1 == v0 && c1 == c0
    } else {
        exists|vm: VmView, cm: int|
            sim_reachable(v0, c0, vm, cm, (n - 1) as nat) && sim_step_ok(vm, cm, v1, c1)
    }
}

/// The number of whole milliseconds a duration holds: a function of the
/// duration alone, left uninterpreted and pinned to what
/// `Duration::as_millis` returns.
pub uninterp spec fn millis_of(d: Duration) -> u128;

/// Relies on core::time::Duration::as_millis: the number of whole
/// milliseconds in the duration, a function of the duration alone.
pub assume_specification[ core::time::Duration::as_millis ](d: &Duration) -> (r: u128)
    ensures
        r == millis_of(*d),
;

/// The timing driver: one executor over the reference capability adapter,
/// stepped one instruction at a time, with the delay timer decremented on the
/// fixed count schedule of [`delay_tick_at`].
pub struct ManagedInterpreter<R: RandomNumberGenerator> {
    inner: Interpreter<ManagedPlatform<R>>,
    counter: u16,
}

impl<R: RandomNumberGenerator> View for ManagedInterpreter<R> {
    type V = VmView;

    closed spec fn view(&self) -> VmView {
        self.inner@
    }
}

impl<R: RandomNumberGenerator> ManagedInterpreter<R> {
    /// The position of the cumulative instruction count within the schedule
    /// period of 1200.
    pub closed spec fn schedule_counter(&self) -> int {
        self.counter as int
    }

    /// The driver is well formed: the machine is, and the schedule position
    /// lies within its period.
    pub closed spec fn wf(&self) -> bool {
        &&& self.inner.wf()
        &&& self.counter < 1200
    }

    /// Well-formedness of the driver gives well-formedness of its view.
    pub proof fn lemma_wf_view(&self)
        requires
            self.wf(),
        ensures
            vm_wf(self@),
            0 <= self.schedule_counter() < 1200,
    {
        self.inner.lemma_wf_view();
    }

    /// Builds the driver over a fresh machine: blank display, zeroed timers
    /// and keys, the image loaded, and the cumulative count at zero.
    pub fn new<I: Image>(image: I, rand: R) -> (r: Self)
        ensures
            r.wf(),
            r.schedule_counter() == 0,
            r@.regs == Seq::new(16, |i: int| 0u8),
            r@.index == 0,
            r@.mem == image.loaded(initial_memory()),
            r@.pc == image.entry_point_value(),
            r@.stack == Seq::new(16, |i: int| 0int),
            r@.sp == 0,
            r@.first_wait,
            r@.screen == blank_screen(),
            r@.delay == 0,
            r@.sound == 0,
            r@.keys == Seq::new(16, |i: int| false),
            r@.latched == None::<Key>,
    {
        ManagedInterpreter { inner: Interpreter::new(image, ManagedPlatform::new(rand)), counter: 0 }
    }

    /// Builds the driver; the durations are accepted for interface parity and
    /// left unused, as the schedule is tied to the instruction count.
    pub fn new_with_durations<I: Image>(
        image: I,
        rand: R,
        operation_duration: Duration,
        delay_tick_duration: Duration,
        sound_tick_duration: Duration,
    ) -> (r: Self)
        ensures
            r.wf(),
            r.schedule_counter() == 0,
            r@.regs == Seq::new(16, |i: int| 0u8),
            r@.index == 0,
            r@.mem == image.loaded(initial_memory()),
            r@.pc == image.entry_point_value(),
            r@.stack == Seq::new(16, |i: int| 0int),
            r@.sp == 0,
            r@.first_wait,
            r@.screen == blank_screen(),
            r@.delay == 0,
            r@.sound == 0,
            r@.keys == Seq::new(16, |i: int| false),
            r@.latched == None::<Key>,
    {
        let _ = operation_duration;
        let _ = delay_tick_duration;
        let _ = sound_tick_duration;
        Self::new(image, rand)
    }

    /// Advances the cumulative count by one, applies the scheduled timer
    /// work, then executes one instruction.
    pub fn simulate_one_instruction(&mut self) -> (res: Result<(), VmError>)
        requires
            old(self).wf(),
        ensures
            final (self).wf(),
            final (self).schedule_counter() == (old(self).schedule_counter() + 1) % 1200,
            step_rel(
                tick_view(old(self)@, (old(self).schedule_counter() + 1) % 1200),
                final (self)@,
                res,
            ),
    {
        proof {
            self.inner.lemma_wf_view();
        }
        self.counter = if self.counter >= 1199 {
            0
        } else {
            self.counter + 1
        };
        let ghost c1 = self.counter as int;
        if (self.counter % 8 == 0 && self.counter % 48 != 0) || self.counter % 50 == 0 {
            let timer = self.inner.platform().get_delay_timer();
            if timer != 0 {
                let p = self.inner.platform_mut();
                p.set_delay_timer(timer - 1);
            }
        }
        proof {
            assert(self.inner@ =~= tick_view(old(self)@, c1));
        }
        self.inner.run_next_instruction()
    }

    /// Derives a bounded instruction count from the duration — one
    /// instruction per two milliseconds, the machine's nominal operation
    /// duration — and single-steps exactly that many times, stopping at and
    /// reporting the first failure.
    #[verifier::rlimit(100)]
    #[verifier::spinoff_prover]
    pub fn simulate_duration(&mut self, duration: Duration) -> (res: Result<(), VmError>)
        requires
            old(self).wf(),
        ensures
            final (self).wf(),
            res matches Ok(()) ==> sim_reachable(
                old(self)@,
                old(self).schedule_counter(),
                final (self)@,
                final (self).schedule_counter(),
                (millis_of(duration) / 2) as nat,
            ),
            res matches Err(e) ==> exists|n: nat, vm: VmView, cm: int|
                n < millis_of(duration) / 2 && sim_reachable(
                    old(self)@,
                    old(self).schedule_counter(),
                    vm,
                    cm,
                    n,
                ) && final (self).schedule_counter() == (cm + 1) % 1200 && step_rel(
                    tick_view(vm, (cm + 1) % 1200),
                    final (self)@,
                    Err(e),
                ),
    {
        let duration_millis = duration.as_millis();
        let ops_count: u128 = duration_millis / 2;
        let ghost v0 = self@;
        let ghost c0 = self.schedule_counter();
        let ghost mut n: nat = 0;
        let mut done: u128 = 0;
        while done < ops_count
            invariant
                self.wf(),
                v0 == old(self)@,
                c0 == old(self).schedule_counter(),
                ops_count == millis_of(duration) / 2,
                n == done,
                sim_reachable(v0, c0, self@, self.schedule_counter(), n),
                done <= ops_count,
            decreases ops_count - done,
        {
            let ghost pre = self@;
            let ghost cpre = self.schedule_counter();
            let stepped = self.simulate_one_instruction();
            match stepped {
                Ok(()) => {},
                Err(e) => {
                    proof {
                        assert(n < millis_of(duration) / 2 && sim_reachable(v0, c0, pre, cpre, n)
                            && self.schedule_counter() == (cpre + 1) % 1200 && step_rel(
                            tick_view(pre, (cpre + 1) % 1200),
                            self@,
                            Err(e),
                        ));
                    }
                    return Err(e);
                },
            }
            proof {
                let ghost c1 = self.schedule_counter();
                let r = choose|r: u8|
                    crate::interpreter::step(tick_view(pre, c1), r) == (self@, stepped);
                assert(crate::interpreter::step(tick_view(pre, c1), r).0 == self@
                    && crate::interpreter::step(tick_view(pre, c1), r).1 is Ok);
                assert(sim_step_ok(pre, cpre, self@, c1));
                n = n + 1;
                assert(sim_reachable(v0, c0, self@, self.schedule_counter(), n));
            }
            done += 1;
        }
        Ok(())
    }

    /// A shared view of the display surface.
    pub fn frame_buffer(&self) -> (r: &FrameBuffer)
        ensures
            r@ == self@.screen,
    {
        &self.inner.platform().frame_buffer
    }

    /// The delay timer's current value.
    pub fn delay_timer(&self) -> (r: u8)
        requires
            self.wf(),
        ensures
            r == self@.delay,
    {
        self.inner.platform().get_delay_timer()
    }

    /// Records a key going down or up: the held flag follows `is_down`, and
    /// a press is additionally latched as the most recent one.
    pub fn set_key_down(&mut self, key: Key, is_down: bool)
        requires
            old(self).wf(),
        ensures
            final (self).wf(),
            final (self).schedule_counter() == old(self).schedule_counter(),
            final (self)@ == (VmView {
                keys: old(self)@.keys.update(key@, is_down),
                latched: if is_down {
                    Some(key)
                } else {
                    old(self)@.latched
                },
                ..old(self)@
            }),
    {
        proof {
            self.inner.lemma_wf_view();
            use_type_invariant(key);
            key.lemma_in_domain();
        }
        let ki = key.as_usize();
        let p = self.inner.platform_mut();
        if is_down {
            p.last_key = Some(key);
        }
        p.keys[ki] = is_down;
        proof {
            assert(self.inner@ =~= (VmView {
                keys: old(self)@.keys.update(key@, is_down),
                latched: if is_down {
                    Some(key)
                } else {
                    old(self)@.latched
                },
                ..old(self)@
            }));
        }
    }
}

} // verus!
