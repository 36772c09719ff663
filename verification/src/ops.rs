//! The instruction decoder: a pure mapping from a raw 16-bit instruction word
//! to a typed operation, or a decode failure for any word outside the table.

use crate::data::{address_bits, low_byte, nibble_at, Address, Nibble, OpCode, RegisterIndex, Word};
use vstd::prelude::*;

verus! {

broadcast use Nibble::lemma_from_view, Address::lemma_from_view, OpCode::lemma_from_view;

/// A decoded instruction, carrying typed operands.
#[derive(Clone, Copy, Debug, PartialEq, Eq, Structural)]
pub enum Operation {
    ClearScreen,
    Return,
    Jump(Address),
    Call(Address),
    SkipIfEqual(RegisterIndex, Word),
    SkipIfNotEqual(RegisterIndex, Word),
    SkipIfRegistersEqual(RegisterIndex, RegisterIndex),
    SetRegister(RegisterIndex, Word),
    AddValue(RegisterIndex, Word),
    SetToRegister(RegisterIndex, RegisterIndex),
    Or(RegisterIndex, RegisterIndex),
    And(RegisterIndex, RegisterIndex),
    Xor(RegisterIndex, RegisterIndex),
    AddRegister(RegisterIndex, RegisterIndex),
    SubRegister(RegisterIndex, RegisterIndex),
    ShiftRight(RegisterIndex, RegisterIndex),
    SubRegisterReversed(RegisterIndex, RegisterIndex),
    ShiftLeft(RegisterIndex, RegisterIndex),
    SkipIfRegistersNotEqual(RegisterIndex, RegisterIndex),
    SetIndexRegister(Address),
    JumpV0(Address),
    SetToRandom(RegisterIndex, Word),
    Draw(RegisterIndex, RegisterIndex, Nibble),
    SkipIfKeyDown(RegisterIndex),
    SkipIfKeyUp(RegisterIndex),
    GetDelayTimer(RegisterIndex),
    WaitForKey(RegisterIndex),
    SetDelayTimer(RegisterIndex),
    SetSoundTimer(RegisterIndex),
    IncrementIndexRegister(RegisterIndex),
    SetIndexRegisterToSprite(Nibble),
    ToDecimal(RegisterIndex),
    WriteMemory(Nibble),
    ReadMemory(Nibble),
}

/// The decode table: the operation a raw instruction word denotes, or `None`
/// for any word the table does not list.
#[verifier::opaque]
pub open spec fn decode(code: u16) -> Option<Operation> {
    let n3 = nibble_at(code, 3) as int;
    let n1 = nibble_at(code, 1) as int;
    let n0 = nibble_at(code, 0) as int;
    let x = Nibble::from_int(nibble_at(code, 2) as int);
    let y = Nibble::from_int(nibble_at(code, 1) as int);
    let n = Nibble::from_int(nibble_at(code, 0) as int);
    let addr = Address::from_int(address_bits(code) as int);
    let kk = low_byte(code);
    if code == 0x00e0 {
        Some(Operation::ClearScreen)
    } else if code == 0x00ee {
        Some(Operation::Return)
    } else if n3 == 0x1 {
        Some(Operation::Jump(addr))
    } else if n3 == 0x2 {
        Some(Operation::Call(addr))
    } else if n3 == 0x3 {
        Some(Operation::SkipIfEqual(x, kk))
    } else if n3 == 0x4 {
        Some(Operation::SkipIfNotEqual(x, kk))
    } else if n3 == 0x5 && n0 == 0x0 {
        Some(Operation::SkipIfRegistersEqual(x, y))
    } else if n3 == 0x6 {
        Some(Operation::SetRegister(x, kk))
    } else if n3 == 0x7 {
        Some(Operation::AddValue(x, kk))
    } else if n3 == 0x8 && n0 == 0x0 {
        Some(Operation::SetToRegister(x, y))
    } else if n3 == 0x8 && n0 == 0x1 {
        Some(Operation::Or(x, y))
    } else if n3 == 0x8 && n0 == 0x2 {
        Some(Operation::And(x, y))
    } else if n3 == 0x8 && n0 == 0x3 {
        Some(Operation::Xor(x, y))
    } else if n3 == 0x8 && n0 == 0x4 {
        Some(Operation::AddRegister(x, y))
    } else if n3 == 0x8 && n0 == 0x5 {
        Some(Operation::SubRegister(x, y))
    } else if n3 == 0x8 && n0 == 0x6 {
        Some(Operation::ShiftRight(x, y))
    } else if n3 == 0x8 && n0 == 0x7 {
        Some(Operation::SubRegisterReversed(x, y))
    } else if n3 == 0x8 && n0 == 0xe {
        Some(Operation::ShiftLeft(x, y))
    } else if n3 == 0x9 && n0 == 0x0 {
        Some(Operation::SkipIfRegistersNotEqual(x, y))
    } else if n3 == 0xa {
        Some(Operation::SetIndexRegister(addr))
    } else if n3 == 0xb {
        Some(Operation::JumpV0(addr))
    } else if n3 == 0xc {
        Some(Operation::SetToRandom(x, kk))
    } else if n3 == 0xd {
        Some(Operation::Draw(x, y, n))
    } else if n3 == 0xe && n1 == 0x9 && n0 == 0xe {
        Some(Operation::SkipIfKeyDown(x))
    } else if n3 == 0xe && n1 == 0xa && n0 == 0x1 {
        Some(Operation::SkipIfKeyUp(x))
    } else if n3 == 0xf && n1 == 0x0 && n0 == 0x7 {
        Some(Operation::GetDelayTimer(x))
    } else if n3 == 0xf && n1 == 0x0 && n0 == 0xa {
        Some(Operation::WaitForKey(x))
    } else if n3 == 0xf && n1 == 0x1 && n0 == 0x5 {
        Some(Operation::SetDelayTimer(x))
    } else if n3 == 0xf && n1 == 0x1 && n0 == 0x8 {
        Some(Operation::SetSoundTimer(x))
    } else if n3 == 0xf && n1 == 0x1 && n0 == 0xe {
        Some(Operation::IncrementIndexRegister(x))
    } else if n3 == 0xf && n1 == 0x2 && n0 == 0x9 {
        Some(Operation::SetIndexRegisterToSprite(x))
    } else if n3 == 0xf && n1 == 0x3 && n0 == 0x3 {
        Some(Operation::ToDecimal(x))
    } else if n3 == 0xf && n1 == 0x5 && n0 == 0x5 {
        Some(Operation::WriteMemory(x))
    } else if n3 == 0xf && n1 == 0x6 && n0 == 0x5 {
        Some(Operation::ReadMemory(x))
    } else {
        None
    }
}

impl Operation {
    /// Decodes a raw instruction word; fails exactly on the words the decode
    /// table does not list.
    pub fn try_from(code: OpCode) -> (r: Result<Operation, ()>)
        ensures
            r == (match decode(code@) {
                Some(op) => Ok::<Operation, ()>(op),
                None => Err::<Operation, ()>(()),
            }),
    {
        proof {
            reveal(decode);
        }
        let v = code.as_u16();
        let n3 = code.extract_nibble(3).as_u8();
        let n1 = code.extract_nibble(1).as_u8();
        let n0 = code.extract_nibble(0).as_u8();
        let x = code.extract_nibble(2);
        let y = code.extract_nibble(1);
        let n = code.extract_nibble(0);
        let kk = code.extract_word(0);
        if v == 0x00e0 {
            Ok(Operation::ClearScreen)
        } else if v == 0x00ee {
            Ok(Operation::Return)
        } else if n3 == 0x1 {
            Ok(Operation::Jump(code.extract_address()))
        } else if n3 == 0x2 {
            Ok(Operation::Call(code.extract_address()))
        } else if n3 == 0x3 {
            Ok(Operation::SkipIfEqual(x, kk))
        } else if n3 == 0x4 {
            Ok(Operation::SkipIfNotEqual(x, kk))
        } else if n3 == 0x5 && n0 == 0x0 {
            Ok(Operation::SkipIfRegistersEqual(x, y))
        } else if n3 == 0x6 {
            Ok(Operation::SetRegister(x, kk))
        } else if n3 == 0x7 {
            Ok(Operation::AddValue(x, kk))
        } else if n3 == 0x8 && n0 == 0x0 {
            Ok(Operation::SetToRegister(x, y))
        } else if n3 == 0x8 && n0 == 0x1 {
            Ok(Operation::Or(x, y))
        } else if n3 == 0x8 && n0 == 0x2 {
            Ok(Operation::And(x, y))
        } else if n3 == 0x8 && n0 == 0x3 {
            Ok(Operation::Xor(x, y))
        } else if n3 == 0x8 && n0 == 0x4 {
            Ok(Operation::AddRegister(x, y))
        } else if n3 == 0x8 && n0 == 0x5 {
            Ok(Operation::SubRegister(x, y))
        } else if n3 == 0x8 && n0 == 0x6 {
            Ok(Operation::ShiftRight(x, y))
        } else if n3 == 0x8 && n0 == 0x7 {
            Ok(Operation::SubRegisterReversed(x, y))
        } else if n3 == 0x8 && n0 == 0xe {
            Ok(Operation::ShiftLeft(x, y))
        } else if n3 == 0x9 && n0 == 0x0 {
            Ok(Operation::SkipIfRegistersNotEqual(x, y))
        } else if n3 == 0xa {
            Ok(Operation::SetIndexRegister(code.extract_address()))
        } else if n3 == 0xb {
            Ok(Operation::JumpV0(code.extract_address()))
        } else if n3 == 0xc {
            Ok(Operation::SetToRandom(x, kk))
        } else if n3 == 0xd {
            Ok(Operation::Draw(x, y, n))
        } else if n3 == 0xe && n1 == 0x9 && n0 == 0xe {
            Ok(Operation::SkipIfKeyDown(x))
        } else if n3 == 0xe && n1 == 0xa && n0 == 0x1 {
            Ok(Operation::SkipIfKeyUp(x))
        } else if n3 == 0xf && n1 == 0x0 && n0 == 0x7 {
            Ok(Operation::GetDelayTimer(x))
        } else if n3 == 0xf && n1 == 0x0 && n0 == 0xa {
            Ok(Operation::WaitForKey(x))
        } else if n3 == 0xf && n1 == 0x1 && n0 == 0x5 {
            Ok(Operation::SetDelayTimer(x))
        } else if n3 == 0xf && n1 == 0x1 && n0 == 0x8 {
            Ok(Operation::SetSoundTimer(x))
        } else if n3 == 0xf && n1 == 0x1 && n0 == 0xe {
            Ok(Operation::IncrementIndexRegister(x))
        } else if n3 == 0xf && n1 == 0x2 && n0 == 0x9 {
            Ok(Operation::SetIndexRegisterToSprite(x))
        } else if n3 == 0xf && n1 == 0x3 && n0 == 0x3 {
            Ok(Operation::ToDecimal(x))
        } else if n3 == 0xf && n1 == 0x5 && n0 == 0x5 {
            Ok(Operation::WriteMemory(x))
        } else if n3 == 0xf && n1 == 0x6 && n0 == 0x5 {
            Ok(Operation::ReadMemory(x))
        } else {
            Err(())
        }
    }
}

} // verus!
