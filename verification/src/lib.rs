//! A verified CHIP-8 virtual machine: bounded value domains, an instruction
//! decoder, a fetch-decode-execute engine over a 4096-byte address space, a
//! capability interface for display, timers, keys and randomness, a reference
//! capability implementation, and a timing driver.
//!
//! Alongside the machine live a few small verified libraries: a fixed-capacity
//! vector, a sorted association map, a persistent stack, an INI parser, a
//! single-threaded channel, directory-walk handles, a line matcher, and a
//! grid-game strategy.

pub mod arrayvec;
pub mod data;
pub mod error;
pub mod flatmap;
pub mod fswalk;
pub mod grep;
pub mod image;
pub mod ini;
pub mod interpreter;
pub mod laws;
pub mod managed;
pub mod mpsc;
pub mod ops;
pub mod platform;
pub mod pstack;
pub mod strategy;

pub use arrayvec::ArrayVec;
pub use data::{Address, Key, Nibble, OpCode, RegisterIndex, Word};
pub use error::VmError;
pub use flatmap::{FlatMap, OrderedKey};
pub use image::{Ch8Image, Ch8ImageError, Image, FONT_SPRITES};
pub use interpreter::{Interpreter, VmView};
pub use managed::{FixedRandom, FrameBuffer, ManagedInterpreter, RandomNumberGenerator};
pub use ops::Operation;
pub use platform::{Platform, Point, Sprite, SCREEN_HEIGHT, SCREEN_WIDTH};
pub use pstack::PStack;
