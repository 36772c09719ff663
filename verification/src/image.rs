//! Program images: how ROM bytes and the font table reach the 4096-byte
//! address space, and the size check that guards image construction.

use crate::data::Address;
use vstd::prelude::*;

verus! {

/// Rows per font glyph.
pub const FONT_HEIGHT: usize = 5;

/// The fixed read-only font table: 16 five-byte glyph sprites for the digits
/// 0 to F, resident at address 0x0.
pub const FONT_SPRITES: [u8; 80] = [
    0xf0,
    0x90,
    0x90,
    0x90,
    0xf0,  // 0
    0x20,
    0x60,
    0x20,
    0x20,
    0x70,  // 1
    0xf0,
    0x10,
    0xf0,
    0x80,
    0xf0,  // 2
    0xf0,
    0x10,
    0xf0,
    0x10,
    0xf0,  // 3
    0x90,
    0x90,
    0xf0,
    0x10,
    0x10,  // 4
    0xf0,
    0x80,
    0xf0,
    0x10,
    0xf0,  // 5
    0xf0,
    0x80,
    0xf0,
    0x90,
    0xf0,  // 6
    0xf0,
    0x10,
    0x20,
    0x40,
    0x40,  // 7
    0xf0,
    0x90,
    0xf0,
    0x90,
    0xf0,  // 8
    0xf0,
    0x90,
    0xf0,
    0x10,
    0xf0,  // 9
    0xf0,
    0x90,
    0xf0,
    0x90,
    0x90,  // A
    0xe0,
    0x90,
    0xe0,
    0x90,
    0xe0,  // B
    0xf0,
    0x80,
    0x80,
    0x80,
    0xf0,  // C
    0xe0,
    0x90,
    0x90,
    0x90,
    0xe0,  // D
    0xf0,
    0x80,
    0xf0,
    0x80,
    0xf0,  // E
    0xf0,
    0x80,
    0xf0,
    0x80,
    0x80,  // F
];

/// A loadable program image: it owns some bytes and knows where they go and
/// where execution starts.
pub trait Image: Sized {
    /// The memory contents after loading this image over `before`.
    spec fn loaded(&self, before: Seq<u8>) -> Seq<u8>;

    /// The initial program counter.
    spec fn entry_point_value(&self) -> int;

    /// Loading preserves the memory shape and the entry point is an address.
    proof fn loaded_wf(&self, before: Seq<u8>)
        requires
            before.len() == 4096,
        ensures
            self.loaded(before).len() == 4096,
            0 <= self.entry_point_value() < 4096,
    ;

    /// Copies the image bytes into memory, leaving the remainder of the
    /// address space at its prior value.
    fn load_into_memory(&self, memory: &mut [u8; 4096])
        ensures
            final (memory)@ == self.loaded(old(memory)@),
    ;

    /// Where execution starts.
    fn entry_point(&self) -> (r: Address)
        ensures
            r@ == self.entry_point_value(),
    ;
}

/// The condition on which image construction is rejected.
#[derive(Clone, Copy, Debug, PartialEq, Eq, Structural)]
pub enum Ch8ImageError {
    /// The image holds more bytes than the whole address space.
    TooBig,
}

/// A standard program image: raw bytes laid out contiguously from the entry
/// point 0x200.
#[derive(Debug)]
pub struct Ch8Image {
    data: Vec<u8>,
}

/// The fixed base address at which a standard image is loaded.
pub const IMAGE_BASE_ADDRESS: u16 = 0x200;

impl View for Ch8Image {
    type V = Seq<u8>;

    closed spec fn view(&self) -> Seq<u8> {
        self.data@
    }
}

impl Ch8Image {
    #[verifier::type_invariant]
    pub closed spec fn type_inv(self) -> bool {
        self.data@.len() <= 4096
    }

    /// Accepts at most 4096 bytes; rejects anything larger as `TooBig`.
    pub fn new(data: Vec<u8>) -> (r: Result<Self, Ch8ImageError>)
        ensures
            data@.len() <= 4096 ==> (r matches Ok(img) && img@ == data@),
            data@.len() > 4096 ==> (r matches Err(e) && e == Ch8ImageError::TooBig),
    {
        if data.len() > 4096 {
            Err(Ch8ImageError::TooBig)
        } else {
            Ok(Ch8Image { data })
        }
    }
}

impl Image for Ch8Image {
    open spec fn loaded(&self, before: Seq<u8>) -> Seq<u8> {
        Seq::new(
            4096,
            |i: int|
                {
                    let j = (i - 0x200) % 4096;
                    if j < self@.len() {
                        self@[j]
                    } else {
                        before[i]
                    }
                },
        )
    }

    open spec fn entry_point_value(&self) -> int {
        0x200
    }

    proof fn loaded_wf(&self, before: Seq<u8>) {
    }

    fn load_into_memory(&self, memory: &mut [u8; 4096]) {
        proof {
            use_type_invariant(self);
        }
        let len = self.data.len();
        let ghost pre = old(memory)@;
        for k in 0..len
            invariant
                len == self@.len() <= 4096,
                memory@.len() == 4096,
                forall|i: int|
                    0 <= i < 4096 ==> #[trigger] memory@[i] == {
                        let j = (i - 0x200) % 4096;
                        if j < k {
                            self@[j]
                        } else {
                            pre[i]
                        }
                    },
        {
            let target: usize = (0x200 + k) % 4096;
            memory[target] = self.data[k];
            proof {
                assert((target as int - 0x200) % 4096 == k) by {
                    if 0x200 + k < 4096 {
                        assert(target == 0x200 + k);
                    } else {
                        assert(target == 0x200 + k - 4096);
                    }
                }
            }
        }
        proof {
            assert(memory@ =~= self.loaded(pre));
        }
    }

    fn entry_point(&self) -> (r: Address) {
        Address::new(IMAGE_BASE_ADDRESS)
    }
}

} // verus!
