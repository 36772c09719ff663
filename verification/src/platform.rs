//! The capability interface: the boundary through which the executor reaches
//! the display surface, the two timers, the keypad, and a random-word source.

use crate::data::{Key, Word};
use vstd::prelude::*;

verus! {

/// The display width in pixels.
pub const SCREEN_WIDTH: usize = 64;

/// The display height in pixels.
pub const SCREEN_HEIGHT: usize = 32;

/// A point on (or off) the display surface.
#[derive(Clone, Copy, Debug, PartialEq, Eq, Structural)]
pub struct Point {
    pub x: u8,
    pub y: u8,
}

/// A sprite: up to 15 rows of 8 pixels, one row per byte, the most
/// significant bit leftmost.
#[derive(Clone, Debug)]
pub struct Sprite {
    rows: Vec<u8>,
}

impl View for Sprite {
    type V = Seq<u8>;

    closed spec fn view(&self) -> Seq<u8> {
        self.rows@
    }
}

impl Sprite {
    pub fn new(rows: Vec<u8>) -> (r: Self)
        ensures
            r@ == rows@,
    {
        Sprite { rows }
    }

    pub fn row_count(&self) -> (r: usize)
        ensures
            r == self@.len(),
    {
        self.rows.len()
    }

    pub fn row(&self, i: usize) -> (r: u8)
        requires
            i < self@.len(),
        ensures
            r == self@[i as int],
    {
        self.rows[i]
    }
}

/// Whether row `r`, bit `b` (counting from the left) of `sprite` is on.
pub open spec fn sprite_bit(sprite: Seq<u8>, r: int, b: int) -> bool {
    &&& 0 <= r < sprite.len()
    &&& 0 <= b < 8
    &&& sprite[r] >> (7 - b) as u8 & 1 == 1
}

/// Whether drawing `sprite` with its origin at `(ox, oy)` touches the display
/// pixel `(x, y)` with an on bit. Pixels right of or below the origin window
/// are never touched: sprite pixels do not wrap.
pub open spec fn sprite_covers(sprite: Seq<u8>, ox: int, oy: int, x: int, y: int) -> bool {
    &&& oy <= y < oy + sprite.len()
    &&& ox <= x < ox + 8
    &&& sprite_bit(sprite, y - oy, x - ox)
}

/// A well-formed display: 32 rows of 64 pixels.
pub open spec fn screen_wf(s: Seq<Seq<bool>>) -> bool {
    &&& s.len() == 32
    &&& forall|y: int| 0 <= y < 32 ==> (#[trigger] s[y]).len() == 64
}

/// The display with every pixel off.
pub open spec fn blank_screen() -> Seq<Seq<bool>> {
    Seq::new(32, |y: int| Seq::new(64, |x: int| false))
}

/// The display after drawing `sprite` at `(px, py)`: the origin wraps modulo
/// the display size, every covered pixel toggles, and covered pixels outside
/// the display bounds are dropped.
pub open spec fn draw_screen(s: Seq<Seq<bool>>, px: u8, py: u8, sprite: Seq<u8>) -> Seq<
    Seq<bool>,
> {
    let ox = px as int % 64;
    let oy = py as int % 32;
    Seq::new(32, |y: int| Seq::new(64, |x: int| s[y][x] != sprite_covers(sprite, ox, oy, x, y)))
}

/// Whether drawing `sprite` at `(px, py)` toggles any pixel that was on
/// immediately before the toggle.
pub open spec fn draw_collision(s: Seq<Seq<bool>>, px: u8, py: u8, sprite: Seq<u8>) -> bool {
    let ox = px as int % 64;
    let oy = py as int % 32;
    exists|x: int, y: int|
        0 <= x < 64 && 0 <= y < 32 && sprite_covers(sprite, ox, oy, x, y) && s[y][x]
}

/// Drawing toggles: applying the same sprite at the same position twice
/// restores the display, and the second draw reports a collision exactly when
/// some covered in-bounds pixel was off before the first draw (those pixels
/// are the ones the first draw turned on).
pub proof fn lemma_draw_twice(s: Seq<Seq<bool>>, px: u8, py: u8, sprite: Seq<u8>)
    requires
        screen_wf(s),
    ensures
        draw_screen(draw_screen(s, px, py, sprite), px, py, sprite) == s,
        draw_collision(draw_screen(s, px, py, sprite), px, py, sprite) <==> (exists|x: int, y: int|
            0 <= x < 64 && 0 <= y < 32 && sprite_covers(
                sprite,
                px as int % 64,
                py as int % 32,
                x,
                y,
            ) && !s[y][x]),
{
    let s1 = draw_screen(s, px, py, sprite);
    let s2 = draw_screen(s1, px, py, sprite);
    let ox = px as int % 64;
    let oy = py as int % 32;
    assert forall|y: int| 0 <= y < 32 implies s2[y] == s[y] by {
        assert forall|x: int| 0 <= x < 64 implies s2[y][x] == s[y][x] by {
            assert(s1[y][x] == (s[y][x] != sprite_covers(sprite, ox, oy, x, y)));
        }
        assert(s2[y] =~= s[y]);
    }
    assert(s2 =~= s);
    assert forall|x: int, y: int|
        0 <= x < 64 && 0 <= y < 32 && sprite_covers(sprite, ox, oy, x, y) implies (s1[y][x] <==> !s[y][x]) by {
        assert(s1[y][x] == (s[y][x] != sprite_covers(sprite, ox, oy, x, y)));
    }
}

/// The capability interface. The executor is polymorphic over any
/// implementation, so a headless test double or real display hardware can be
/// substituted without touching executor logic.
///
/// Each implementation models itself as a display, two 8-bit timers, 16 held
/// keys, and a one-slot latch holding the most recent key press.
pub trait Platform: Sized {
    /// The display contents: 32 rows of 64 pixels.
    spec fn screen(&self) -> Seq<Seq<bool>>;

    /// The delay timer value.
    spec fn delay_timer_value(&self) -> u8;

    /// The sound timer value.
    spec fn sound_timer_value(&self) -> u8;

    /// Which of the 16 keys are currently held.
    spec fn keys_held(&self) -> Seq<bool>;

    /// The latched most recent key press, if not yet consumed.
    spec fn latched_key(&self) -> Option<Key>;

    /// The implementation's own well-formedness condition.
    spec fn inv(&self) -> bool;

    /// Well-formedness pins the model's shape.
    proof fn inv_implies_model_wf(&self)
        requires
            self.inv(),
        ensures
            screen_wf(self.screen()),
            self.keys_held().len() == 16,
            self.latched_key() matches Some(k) ==> 0 <= k@ < 16,
    ;

    /// Draws a sprite: wraps the origin, clips covered pixels to the display,
    /// toggles each covered pixel, and reports whether any toggled pixel was
    /// on immediately before the toggle.
    fn draw_sprite(&mut self, pos: Point, sprite: &Sprite) -> (collision: bool)
        requires
            old(self).inv(),
            sprite@.len() <= 15,
        ensures
            final (self).inv(),
            final (self).screen() == draw_screen(old(self).screen(), pos.x, pos.y, sprite@),
            collision == draw_collision(old(self).screen(), pos.x, pos.y, sprite@),
            final (self).delay_timer_value() == old(self).delay_timer_value(),
            final (self).sound_timer_value() == old(self).sound_timer_value(),
            final (self).keys_held() == old(self).keys_held(),
            final (self).latched_key() == old(self).latched_key(),
    ;

    /// Turns every pixel off.
    fn clear_screen(&mut self)
        requires
            old(self).inv(),
        ensures
            final (self).inv(),
            final (self).screen() == blank_screen(),
            final (self).delay_timer_value() == old(self).delay_timer_value(),
            final (self).sound_timer_value() == old(self).sound_timer_value(),
            final (self).keys_held() == old(self).keys_held(),
            final (self).latched_key() == old(self).latched_key(),
    ;

    /// Reads the delay timer.
    fn get_delay_timer(&self) -> (r: Word)
        requires
            self.inv(),
        ensures
            r == self.delay_timer_value(),
    ;

    /// Sets the delay timer.
    fn set_delay_timer(&mut self, value: Word)
        requires
            old(self).inv(),
        ensures
            final (self).inv(),
            final (self).delay_timer_value() == value,
            final (self).screen() == old(self).screen(),
            final (self).sound_timer_value() == old(self).sound_timer_value(),
            final (self).keys_held() == old(self).keys_held(),
            final (self).latched_key() == old(self).latched_key(),
    ;

    /// Sets the sound timer.
    fn set_sound_timer(&mut self, value: Word)
        requires
            old(self).inv(),
        ensures
            final (self).inv(),
            final (self).sound_timer_value() == value,
            final (self).screen() == old(self).screen(),
            final (self).delay_timer_value() == old(self).delay_timer_value(),
            final (self).keys_held() == old(self).keys_held(),
            final (self).latched_key() == old(self).latched_key(),
    ;

    /// Whether the given key is currently held down.
    fn is_key_down(&self, key: Key) -> (r: bool)
        requires
            self.inv(),
            0 <= key@ < 16,
        ensures
            r == self.keys_held()[key@],
    ;

    /// Takes the latched key press, clearing the latch.
    fn consume_key_press(&mut self) -> (r: Option<Key>)
        requires
            old(self).inv(),
        ensures
            final (self).inv(),
            r == old(self).latched_key(),
            final (self).latched_key() == None::<Key>,
            final (self).screen() == old(self).screen(),
            final (self).delay_timer_value() == old(self).delay_timer_value(),
            final (self).sound_timer_value() == old(self).sound_timer_value(),
            final (self).keys_held() == old(self).keys_held(),
    ;

    /// Produces one random word. Nothing is promised of the value; the rest
    /// of the model is untouched.
    fn get_random_word(&mut self) -> (r: Word)
        requires
            old(self).inv(),
        ensures
            final (self).inv(),
            final (self).screen() == old(self).screen(),
            final (self).delay_timer_value() == old(self).delay_timer_value(),
            final (self).sound_timer_value() == old(self).sound_timer_value(),
            final (self).keys_held() == old(self).keys_held(),
            final (self).latched_key() == old(self).latched_key(),
    ;
}

} // verus!
