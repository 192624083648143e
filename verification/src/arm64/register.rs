//! The registers of AArch64 and their part in the calling convention.

use vstd::prelude::*;
use vstd::string::*;
use crate::ir::Size;
use crate::text::{decimal, to_decimal};

verus! {

/// The general-purpose registers and the stack pointer.
#[derive(Debug, Clone, Copy, PartialEq, Eq, Structural)]
pub enum RegisterNumber {
    R0,
    R1,
    R2,
    R3,
    R4,
    R5,
    R6,
    R7,
    R8,
    R9,
    R10,
    R11,
    R12,
    R13,
    R14,
    R15,
    R16,
    R17,
    R18,
    R19,
    R20,
    R21,
    R22,
    R23,
    R24,
    R25,
    R26,
    R27,
    R28,
    R29,
    R30,
    SP,
}

impl RegisterNumber {
    /// The number in the register's name; 31 for the stack pointer.
    pub open spec fn spec_index(self) -> u8 {
        match self {
            RegisterNumber::R0 => 0,
            RegisterNumber::R1 => 1,
            RegisterNumber::R2 => 2,
            RegisterNumber::R3 => 3,
            RegisterNumber::R4 => 4,
            RegisterNumber::R5 => 5,
            RegisterNumber::R6 => 6,
            RegisterNumber::R7 => 7,
            RegisterNumber::R8 => 8,
            RegisterNumber::R9 => 9,
            RegisterNumber::R10 => 10,
            RegisterNumber::R11 => 11,
            RegisterNumber::R12 => 12,
            RegisterNumber::R13 => 13,
            RegisterNumber::R14 => 14,
            RegisterNumber::R15 => 15,
            RegisterNumber::R16 => 16,
            RegisterNumber::R17 => 17,
            RegisterNumber::R18 => 18,
            RegisterNumber::R19 => 19,
            RegisterNumber::R20 => 20,
            RegisterNumber::R21 => 21,
            RegisterNumber::R22 => 22,
            RegisterNumber::R23 => 23,
            RegisterNumber::R24 => 24,
            RegisterNumber::R25 => 25,
            RegisterNumber::R26 => 26,
            RegisterNumber::R27 => 27,
            RegisterNumber::R28 => 28,
            RegisterNumber::R29 => 29,
            RegisterNumber::R30 => 30,
            RegisterNumber::SP => 31,
        }
    }

    #[verifier::when_used_as_spec(spec_index)]
    pub fn index(self) -> (index: u8)
        ensures
            index == self.spec_index(),
    {
        match self {
            RegisterNumber::R0 => 0,
            RegisterNumber::R1 => 1,
            RegisterNumber::R2 => 2,
            RegisterNumber::R3 => 3,
            RegisterNumber::R4 => 4,
            RegisterNumber::R5 => 5,
            RegisterNumber::R6 => 6,
            RegisterNumber::R7 => 7,
            RegisterNumber::R8 => 8,
            RegisterNumber::R9 => 9,
            RegisterNumber::R10 => 10,
            RegisterNumber::R11 => 11,
            RegisterNumber::R12 => 12,
            RegisterNumber::R13 => 13,
            RegisterNumber::R14 => 14,
            RegisterNumber::R15 => 15,
            RegisterNumber::R16 => 16,
            RegisterNumber::R17 => 17,
            RegisterNumber::R18 => 18,
            RegisterNumber::R19 => 19,
            RegisterNumber::R20 => 20,
            RegisterNumber::R21 => 21,
            RegisterNumber::R22 => 22,
            RegisterNumber::R23 => 23,
            RegisterNumber::R24 => 24,
            RegisterNumber::R25 => 25,
            RegisterNumber::R26 => 26,
            RegisterNumber::R27 => 27,
            RegisterNumber::R28 => 28,
            RegisterNumber::R29 => 29,
            RegisterNumber::R30 => 30,
            RegisterNumber::SP => 31,
        }
    }
}

/// A register as an operand: which one, and how wide it is read or written.
#[derive(Debug, Clone, Copy, PartialEq, Eq, Structural)]
pub struct Register {
    pub number: RegisterNumber,
    pub size: Size,
}

impl Register {
    pub fn new(number: RegisterNumber, size: Size) -> (reg: Self)
        ensures
            reg == (Register { number, size }),
    {
        Self { number, size }
    }

    pub fn number(self) -> (number: RegisterNumber)
        ensures
            number == self.number,
    {
        self.number
    }

    pub fn size(&self) -> (size: Size)
        ensures
            size == self.size,
    {
        self.size
    }

    /// The stack pointer.
    pub fn sp() -> (reg: Self)
        ensures
            reg == (Register { number: RegisterNumber::SP, size: Size::QuadWord }),
    {
        Self::new(RegisterNumber::SP, Size::QuadWord)
    }

    /// The frame pointer.
    pub fn x29() -> (reg: Self)
        ensures
            reg == (Register { number: RegisterNumber::R29, size: Size::QuadWord }),
    {
        Self::new(RegisterNumber::R29, Size::QuadWord)
    }

    /// The link register.
    pub fn x30() -> (reg: Self)
        ensures
            reg == (Register { number: RegisterNumber::R30, size: Size::QuadWord }),
    {
        Self::new(RegisterNumber::R30, Size::QuadWord)
    }

    /// The register of the first argument and of the result.
    pub fn r0(size: Size) -> (reg: Self)
        ensures
            reg == (Register { number: RegisterNumber::R0, size }),
    {
        Self::new(RegisterNumber::R0, size)
    }

    pub fn r1(size: Size) -> (reg: Self)
        ensures
            reg == (Register { number: RegisterNumber::R1, size }),
    {
        Self::new(RegisterNumber::R1, size)
    }

    pub fn r2(size: Size) -> (reg: Self)
        ensures
            reg == (Register { number: RegisterNumber::R2, size }),
    {
        Self::new(RegisterNumber::R2, size)
    }

    pub fn r3(size: Size) -> (reg: Self)
        ensures
            reg == (Register { number: RegisterNumber::R3, size }),
    {
        Self::new(RegisterNumber::R3, size)
    }

    pub fn r4(size: Size) -> (reg: Self)
        ensures
            reg == (Register { number: RegisterNumber::R4, size }),
    {
        Self::new(RegisterNumber::R4, size)
    }

    pub fn r5(size: Size) -> (reg: Self)
        ensures
            reg == (Register { number: RegisterNumber::R5, size }),
    {
        Self::new(RegisterNumber::R5, size)
    }

    pub fn r6(size: Size) -> (reg: Self)
        ensures
            reg == (Register { number: RegisterNumber::R6, size }),
    {
        Self::new(RegisterNumber::R6, size)
    }

    pub fn r7(size: Size) -> (reg: Self)
        ensures
            reg == (Register { number: RegisterNumber::R7, size }),
    {
        Self::new(RegisterNumber::R7, size)
    }

    /// The scratch register through which arguments move from the
    /// caller's stack to their slots.
    pub fn r9(size: Size) -> (reg: Self)
        ensures
            reg == (Register { number: RegisterNumber::R9, size }),
    {
        Self::new(RegisterNumber::R9, size)
    }

    /// The register's name in assembly: `sp`, or `x` and the number for
    /// the full 64 bits, or `w` and the number for anything narrower.
    pub open spec fn text(self) -> Seq<char> {
        if self.number == RegisterNumber::SP {
            "sp"@
        } else if self.size == Size::QuadWord {
            "x"@ + decimal(self.number.index() as nat)
        } else {
            "w"@ + decimal(self.number.index() as nat)
        }
    }

    pub fn to_text(&self) -> (s: String)
        ensures
            s@ == self.text(),
    {
        if self.number == RegisterNumber::SP {
            return String::from_str("sp");
        }
        let reg_num: u8 = self.number.index();
        let mut s = match self.size {
            Size::Byte | Size::Word | Size::DoubleWord => String::from_str("w"),
            Size::QuadWord => String::from_str("x"),
        };
        s.append(to_decimal(reg_num as u64).as_str());
        s
    }
}

/// The registers that the allocator may hand out, in the order in which it
/// tries them.
pub open spec fn palette() -> Seq<RegisterNumber> {
    seq![
        RegisterNumber::R8,
        RegisterNumber::R9,
        RegisterNumber::R10,
        RegisterNumber::R11,
        RegisterNumber::R12,
        RegisterNumber::R13,
        RegisterNumber::R14,
        RegisterNumber::R15,
        RegisterNumber::R19,
        RegisterNumber::R20,
        RegisterNumber::R21,
        RegisterNumber::R22,
        RegisterNumber::R23,
        RegisterNumber::R24,
        RegisterNumber::R25,
        RegisterNumber::R26,
        RegisterNumber::R27,
        RegisterNumber::R28,
    ]
}

pub fn usable_registers() -> (regs: Vec<RegisterNumber>)
    ensures
        regs@ == palette(),
{
    let regs = vec![
        RegisterNumber::R8,
        RegisterNumber::R9,
        RegisterNumber::R10,
        RegisterNumber::R11,
        RegisterNumber::R12,
        RegisterNumber::R13,
        RegisterNumber::R14,
        RegisterNumber::R15,
        RegisterNumber::R19,
        RegisterNumber::R20,
        RegisterNumber::R21,
        RegisterNumber::R22,
        RegisterNumber::R23,
        RegisterNumber::R24,
        RegisterNumber::R25,
        RegisterNumber::R26,
        RegisterNumber::R27,
        RegisterNumber::R28,
    ];
    assert(regs@ =~= palette());
    regs
}

/// The register in which the argument at position `arg_num` travels, at
/// the given size; none from the ninth argument on.
pub open spec fn spec_arg_register(arg_num: u8, size: Size) -> Option<Register> {
    if arg_num == 0 {
        Some(Register { number: RegisterNumber::R0, size })
    } else if arg_num == 1 {
        Some(Register { number: RegisterNumber::R1, size })
    } else if arg_num == 2 {
        Some(Register { number: RegisterNumber::R2, size })
    } else if arg_num == 3 {
        Some(Register { number: RegisterNumber::R3, size })
    } else if arg_num == 4 {
        Some(Register { number: RegisterNumber::R4, size })
    } else if arg_num == 5 {
        Some(Register { number: RegisterNumber::R5, size })
    } else if arg_num == 6 {
        Some(Register { number: RegisterNumber::R6, size })
    } else if arg_num == 7 {
        Some(Register { number: RegisterNumber::R7, size })
    } else {
        None
    }
}

#[verifier::when_used_as_spec(spec_arg_register)]
pub fn arg_register(arg_num: u8, size: Size) -> (reg: Option<Register>)
    ensures
        reg == spec_arg_register(arg_num, size),
{
    match arg_num {
        0 => Some(Register::r0(size)),
        1 => Some(Register::r1(size)),
        2 => Some(Register::r2(size)),
        3 => Some(Register::r3(size)),
        4 => Some(Register::r4(size)),
        5 => Some(Register::r5(size)),
        6 => Some(Register::r6(size)),
        7 => Some(Register::r7(size)),
        _ => None,
    }
}

/// The offset at which a slot is addressed from the stack pointer. The
/// saved frame and link registers lie above the slots, so the offset is
/// the same in a leaf and in a function that calls.
pub fn get_correct_offset(is_leaf: bool, offset: u16) -> (corrected: u16)
    ensures
        corrected == offset,
{
    if !is_leaf {
        offset
    } else {
        offset
    }
}

} // verus!
