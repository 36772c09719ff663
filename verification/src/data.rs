//! Bounded value domains of the virtual machine: a 12-bit address, a 4-bit
//! nibble, an 8-bit word, and the raw 16-bit instruction word.

use vstd::prelude::*;

verus! {

/// A register or memory cell value; arithmetic on it wraps modulo 256.
pub type Word = u8;

/// A 4-bit value, 0..16.
#[derive(Clone, Copy, Debug, PartialEq, Eq, Structural)]
pub struct Nibble {
    value: u8,
}

/// Selects one of the 16 general registers; index 15 is the flag register.
pub type RegisterIndex = Nibble;

/// One of the 16 keypad keys.
pub type Key = Nibble;

impl View for Nibble {
    type V = int;

    closed spec fn view(&self) -> int {
        self.value as int
    }
}

impl Nibble {
    #[verifier::type_invariant]
    pub closed spec fn type_inv(self) -> bool {
        self.value < 16
    }

    pub open spec fn in_domain(self) -> bool {
        0 <= self@ < 16
    }

    pub fn new(value: u8) -> (r: Self)
        requires
            value < 16,
        ensures
            r@ == value as int,
    {
        Nibble { value }
    }

    /// Rejects construction from values outside the 4-bit domain.
    pub fn try_from(value: u8) -> (r: Result<Self, ()>)
        ensures
            value < 16 ==> (r matches Ok(n) && n@ == value as int),
            value >= 16 ==> (r matches Err(e) && e == ()),
    {
        if value < 16 {
            Ok(Nibble { value })
        } else {
            Err(())
        }
    }

    pub fn as_u8(self) -> (r: u8)
        ensures
            r as int == self@,
            r < 16,
    {
        proof {
            use_type_invariant(self);
        }
        self.value
    }

    pub fn as_usize(self) -> (r: usize)
        ensures
            r as int == self@,
            r < 16,
    {
        proof {
            use_type_invariant(self);
        }
        self.value as usize
    }

    /// Every nibble lies in the 4-bit domain.
    pub proof fn lemma_in_domain(self)
        requires
            self.type_inv(),
        ensures
            self.in_domain(),
    {
    }

    /// The nibble with the given value, at the specification level.
    pub closed spec fn from_int(v: int) -> Nibble {
        Nibble { value: v as u8 }
    }

    /// A nibble is determined by its view.
    pub broadcast proof fn lemma_from_view(self)
        ensures
            #[trigger] Nibble::from_int(self@) == self,
    {
    }

    /// The view of a freshly built nibble is its argument.
    pub broadcast proof fn lemma_from_int_view(v: int)
        requires
            0 <= v < 256,
        ensures
            (#[trigger] Nibble::from_int(v))@ == v,
    {
    }
}

/// A 12-bit memory address, 0..4096; arithmetic on it wraps into that domain.
#[derive(Clone, Copy, Debug, PartialEq, Eq, Structural)]
pub struct Address {
    value: u16,
}

/// The number of addressable memory cells.
pub const ADDRESS_DOMAIN_SIZE: usize = 4096;

impl View for Address {
    type V = int;

    closed spec fn view(&self) -> int {
        self.value as int
    }
}

impl Address {
    #[verifier::type_invariant]
    pub closed spec fn type_inv(self) -> bool {
        self.value < 4096
    }

    pub open spec fn in_domain(self) -> bool {
        0 <= self@ < 4096
    }

    pub fn new(value: u16) -> (r: Self)
        requires
            value < 4096,
        ensures
            r@ == value as int,
    {
        Address { value }
    }

    pub fn as_usize(self) -> (r: usize)
        ensures
            r as int == self@,
            r < 4096,
    {
        proof {
            use_type_invariant(self);
        }
        self.value as usize
    }

    pub fn as_u16(self) -> (r: u16)
        ensures
            r as int == self@,
            r < 4096,
    {
        proof {
            use_type_invariant(self);
        }
        self.value
    }

    /// Adds an offset, truncating into the 12-bit domain.
    pub fn wrapping_add(self, offset: u16) -> (r: Self)
        ensures
            r@ == (self@ + offset) % 4096,
    {
        proof {
            use_type_invariant(self);
        }
        let sum: u32 = self.value as u32 + offset as u32;
        Address { value: (sum % 4096) as u16 }
    }

    /// Every address lies in the 12-bit domain.
    pub proof fn lemma_in_domain(self)
        requires
            self.type_inv(),
        ensures
            self.in_domain(),
    {
    }

    /// The address with the given value, at the specification level.
    pub closed spec fn from_int(v: int) -> Address {
        Address { value: v as u16 }
    }

    /// An address is determined by its view.
    pub broadcast proof fn lemma_from_view(self)
        ensures
            #[trigger] Address::from_int(self@) == self,
    {
    }

    /// The view of a freshly built address is its argument.
    pub broadcast proof fn lemma_from_int_view(v: int)
        requires
            0 <= v < 65536,
        ensures
            (#[trigger] Address::from_int(v))@ == v,
    {
    }
}

impl Default for Address {
    fn default() -> (r: Self)
        ensures
            r@ == 0,
    {
        Address { value: 0 }
    }
}

/// The nibble of `code` at position `k`, counting from the least significant.
pub open spec fn nibble_at(code: u16, k: int) -> u8 {
    if k == 0 {
        (code & 0xf) as u8
    } else if k == 1 {
        ((code >> 4) & 0xf) as u8
    } else if k == 2 {
        ((code >> 8) & 0xf) as u8
    } else {
        ((code >> 12) & 0xf) as u8
    }
}

/// The low 12 bits of `code`.
pub open spec fn address_bits(code: u16) -> u16 {
    code & 0xfff
}

/// The low byte of `code`.
pub open spec fn low_byte(code: u16) -> u8 {
    (code & 0xff) as u8
}

/// A raw 16-bit fetched instruction word, decomposable into four nibbles,
/// most significant first.
#[derive(Clone, Copy, Debug, PartialEq, Eq, Structural)]
pub struct OpCode {
    value: u16,
}

impl View for OpCode {
    type V = u16;

    closed spec fn view(&self) -> u16 {
        self.value
    }
}

impl OpCode {
    /// Assembles the instruction word from its two big-endian bytes.
    pub fn from_bytes(high: u8, low: u8) -> (r: Self)
        ensures
            r@ == high as int * 256 + low as int,
    {
        let value: u16 = (high as u16) << 8 | (low as u16);
        proof {
            assert(value == high as u16 * 256 + low as u16) by (bit_vector)
                requires
                    value == (high as u16) << 8 | (low as u16),
            ;
        }
        OpCode { value }
    }

    pub fn as_u16(self) -> (r: u16)
        ensures
            r == self@,
    {
        self.value
    }

    /// The nibble at position `k`, counting from the least significant.
    pub fn extract_nibble(self, k: usize) -> (r: Nibble)
        requires
            k < 4,
        ensures
            r@ == nibble_at(self@, k as int) as int,
    {
        let bits: u8 = match k {
            0 => (self.value & 0xf) as u8,
            1 => ((self.value >> 4) & 0xf) as u8,
            2 => ((self.value >> 8) & 0xf) as u8,
            _ => ((self.value >> 12) & 0xf) as u8,
        };
        proof {
            let v = self.value;
            assert((v & 0xf) < 16 && ((v >> 4) & 0xf) < 16 && ((v >> 8) & 0xf) < 16 && ((v >> 12)
                & 0xf) < 16) by (bit_vector);
        }
        Nibble::new(bits)
    }

    /// The low 12 bits, as an address.
    pub fn extract_address(self) -> (r: Address)
        ensures
            r@ == address_bits(self@) as int,
    {
        let bits: u16 = self.value & 0xfff;
        proof {
            let v = self.value;
            assert((v & 0xfff) < 4096) by (bit_vector);
        }
        Address::new(bits)
    }

    /// The instruction word with the given value, at the specification level.
    pub closed spec fn from_u16(v: u16) -> OpCode {
        OpCode { value: v }
    }

    /// An instruction word is determined by its view.
    pub broadcast proof fn lemma_from_view(self)
        ensures
            #[trigger] OpCode::from_u16(self@) == self,
    {
    }

    /// The view of a freshly built instruction word is its argument.
    pub broadcast proof fn lemma_from_u16_view(v: u16)
        ensures
            (#[trigger] OpCode::from_u16(v))@ == v,
    {
    }

    /// The byte at position `k`, counting from the least significant.
    pub fn extract_word(self, k: usize) -> (r: Word)
        requires
            k < 2,
        ensures
            k == 0 ==> r == low_byte(self@),
            k == 1 ==> r as int == nibble_at(self@, 3) as int * 16 + nibble_at(self@, 2) as int,
    {
        let r: u8 = if k == 0 {
            (self.value & 0xff) as u8
        } else {
            ((self.value >> 8) & 0xff) as u8
        };
        proof {
            let v = self.value;
            assert(((v >> 8) & 0xff) == ((v >> 12) & 0xf) * 16 + ((v >> 8) & 0xf)) by (bit_vector);
            assert(((v >> 8) & 0xff) < 256 && ((v >> 12) & 0xf) < 16 && ((v >> 8) & 0xf)
                < 16) by (bit_vector);
        }
        r
    }
}

} // verus!
