//! The instructions of AArch64 that the back end emits, and their text in
//! GNU assembler syntax.

use vstd::prelude::*;
use vstd::string::*;
use crate::arm64::register::Register;
use crate::ir::{Label, Size};
use crate::text::{decimal, to_decimal};

verus! {

/// One line of the emitted assembly.
#[allow(inconsistent_fields)]
pub enum Instruction {
    /// An empty line.
    Empty,
    /// A line given as it is, such as a directive.
    Custom { string: String },
    Label { label: Label },
    MovReg { dest: Register, src: Register },
    MovImm { dest: Register, imm: u16 },
    /// Replaces the 16 bits of `dest` that lie `offset` bits up by `imm`.
    MovKImm { dest: Register, imm: u16, offset: u16 },
    Add { dest: Register, src_1: Register, src_2: Register },
    AddImm { dest: Register, src_1: Register, src_2: u16 },
    SubImm { dest: Register, src_1: Register, src_2: u16 },
    /// Loads `dest` from `offset` bytes above the address in `addr`,
    /// with sign extension if `signed`.
    Ldr { dest: Register, addr: Register, offset: u16, signed: bool },
    Ldp { dest_1: Register, dest_2: Register, addr: Register, offset: u16 },
    Str { src: Register, addr: Register, offset: u16 },
    Stp { src_1: Register, src_2: Register, addr: Register, offset: u16 },
    /// Branches to a label.
    Br { label: Label },
    /// Calls the function named `func`.
    Bl { func: String },
    Ret,
}

/// An instruction with its texts as sequences of characters.
#[allow(inconsistent_fields)]
pub enum InstructionView {
    Empty,
    Custom { string: Seq<char> },
    Label { label: Label },
    MovReg { dest: Register, src: Register },
    MovImm { dest: Register, imm: u16 },
    MovKImm { dest: Register, imm: u16, offset: u16 },
    Add { dest: Register, src_1: Register, src_2: Register },
    AddImm { dest: Register, src_1: Register, src_2: u16 },
    SubImm { dest: Register, src_1: Register, src_2: u16 },
    Ldr { dest: Register, addr: Register, offset: u16, signed: bool },
    Ldp { dest_1: Register, dest_2: Register, addr: Register, offset: u16 },
    Str { src: Register, addr: Register, offset: u16 },
    Stp { src_1: Register, src_2: Register, addr: Register, offset: u16 },
    Br { label: Label },
    Bl { func: Seq<char> },
    Ret,
}

impl View for Instruction {
    type V = InstructionView;

    open spec fn view(&self) -> InstructionView {
        match *self {
            Instruction::Empty => InstructionView::Empty,
            Instruction::Custom { string } => InstructionView::Custom { string: string@ },
            Instruction::Label { label } => InstructionView::Label { label },
            Instruction::MovReg { dest, src } => InstructionView::MovReg { dest, src },
            Instruction::MovImm { dest, imm } => InstructionView::MovImm { dest, imm },
            Instruction::MovKImm { dest, imm, offset } => InstructionView::MovKImm {
                dest,
                imm,
                offset,
            },
            Instruction::Add { dest, src_1, src_2 } => InstructionView::Add { dest, src_1, src_2 },
            Instruction::AddImm { dest, src_1, src_2 } => InstructionView::AddImm {
                dest,
                src_1,
                src_2,
            },
            Instruction::SubImm { dest, src_1, src_2 } => InstructionView::SubImm {
                dest,
                src_1,
                src_2,
            },
            Instruction::Ldr { dest, addr, offset, signed } => InstructionView::Ldr {
                dest,
                addr,
                offset,
                signed,
            },
            Instruction::Ldp { dest_1, dest_2, addr, offset } => InstructionView::Ldp {
                dest_1,
                dest_2,
                addr,
                offset,
            },
            Instruction::Str { src, addr, offset } => InstructionView::Str { src, addr, offset },
            Instruction::Stp { src_1, src_2, addr, offset } => InstructionView::Stp {
                src_1,
                src_2,
                addr,
                offset,
            },
            Instruction::Br { label } => InstructionView::Br { label },
            Instruction::Bl { func } => InstructionView::Bl { func: func@ },
            Instruction::Ret => InstructionView::Ret,
        }
    }
}

/// The views of a sequence of instructions.
pub open spec fn views(instructions: Seq<Instruction>) -> Seq<InstructionView> {
    instructions.map_values(|inst: Instruction| inst@)
}

/// The name of a label in assembly.
pub open spec fn label_text(label: Label) -> Seq<char> {
    "label_"@ + decimal(label.id as nat)
}

/// A memory operand: the address in `addr`, moved up by `offset` bytes.
/// An offset of zero is left out.
pub open spec fn address_text(addr: Register, offset: u16) -> Seq<char> {
    if offset != 0 {
        "["@ + addr.text() + ", #"@ + decimal(offset as nat) + "]"@
    } else {
        "["@ + addr.text() + "]"@
    }
}

/// The load that fills a register of the given size: a byte or half-word
/// load for the narrow sizes, in its sign-extending form if `signed`.
pub open spec fn load_mnemonic(size: Size, signed: bool) -> Seq<char> {
    match size {
        Size::Byte => if signed {
            "    ldrsb "@
        } else {
            "    ldrb "@
        },
        Size::Word => if signed {
            "    ldrsh "@
        } else {
            "    ldrh "@
        },
        Size::DoubleWord => "    ldr "@,
        Size::QuadWord => "    ldr "@,
    }
}

/// The store that writes a register of the given size.
pub open spec fn store_mnemonic(size: Size) -> Seq<char> {
    match size {
        Size::Byte => "    strb "@,
        Size::Word => "    strh "@,
        Size::DoubleWord => "    str "@,
        Size::QuadWord => "    str "@,
    }
}

impl InstructionView {
    /// The line of assembly for the instruction, without the line break.
    pub open spec fn text(self) -> Seq<char> {
        match self {
            InstructionView::Empty => ""@,
            InstructionView::Custom { string } => string,
            InstructionView::Label { label } => label_text(label) + ":"@,
            InstructionView::MovReg { dest, src } => "    mov "@ + dest.text() + ", "@
                + src.text(),
            InstructionView::MovImm { dest, imm } => "    mov "@ + dest.text() + ", #"@
                + decimal(imm as nat),
            InstructionView::MovKImm { dest, imm, offset } => "    movk "@ + dest.text()
                + ", #"@ + decimal(imm as nat) + ", lsl #"@ + decimal(offset as nat),
            InstructionView::Add { dest, src_1, src_2 } => "    add "@ + dest.text() + ", "@
                + src_1.text() + ", "@ + src_2.text(),
            InstructionView::AddImm { dest, src_1, src_2 } => "    add "@ + dest.text() + ", "@
                + src_1.text() + ", #"@ + decimal(src_2 as nat),
            InstructionView::SubImm { dest, src_1, src_2 } => "    sub "@ + dest.text() + ", "@
                + src_1.text() + ", #"@ + decimal(src_2 as nat),
            InstructionView::Br { label } => "    b "@ + label_text(label),
            InstructionView::Bl { func } => "    bl "@ + func,
            InstructionView::Ret => "    ret"@,
            InstructionView::Ldr { dest, addr, offset, signed } => load_mnemonic(
                dest.size,
                signed,
            ) + dest.text() + ", "@ + address_text(addr, offset),
            InstructionView::Ldp { dest_1, dest_2, addr, offset } => "    ldp "@ + dest_1.text()
                + ", "@ + dest_2.text() + ", "@ + address_text(addr, offset),
            InstructionView::Str { src, addr, offset } => store_mnemonic(src.size) + src.text()
                + ", "@ + address_text(addr, offset),
            InstructionView::Stp { src_1, src_2, addr, offset } => "    stp "@ + src_1.text()
                + ", "@ + src_2.text() + ", "@ + address_text(addr, offset),
        }
    }
}

/// The 16 bits of `value` that lie `16 * k` bits up, for `k` from 0 to 3.
pub open spec fn half(value: u64, k: int) -> u16 {
    if k == 0 {
        (value & 0xFFFF) as u16
    } else if k == 1 {
        ((value >> 16) & 0xFFFF) as u16
    } else if k == 2 {
        ((value >> 32) & 0xFFFF) as u16
    } else {
        ((value >> 48) & 0xFFFF) as u16
    }
}

/// How many halves of 16 bits a constant may fill in a register of the
/// given size: one in a byte or a half-word, two in 32 bits, four in 64.
pub open spec fn halves_of(size: Size) -> int {
    match size {
        Size::Byte => 1,
        Size::Word => 1,
        Size::DoubleWord => 2,
        Size::QuadWord => 4,
    }
}

/// How many of the halves of `value` at the positions from 1 to below `k`
/// are not zero.
pub open spec fn high_halves(value: u64, k: int) -> nat
    decreases k,
{
    if k <= 1 {
        0
    } else if half(value, k - 1) != 0 {
        high_halves(value, k - 1) + 1
    } else {
        high_halves(value, k - 1)
    }
}

/// The instructions that set the halves of `dest` at the positions from 1
/// to below `k`: a `movk` for each half of `value` that is not zero, from
/// the lowest up.
pub open spec fn movk_chain(dest: Register, value: u64, k: int) -> Seq<InstructionView>
    decreases k,
{
    if k <= 1 {
        seq![]
    } else if half(value, k - 1) != 0 {
        movk_chain(dest, value, k - 1).push(
            InstructionView::MovKImm {
                dest,
                imm: half(value, k - 1),
                offset: (16 * (k - 1)) as u16,
            },
        )
    } else {
        movk_chain(dest, value, k - 1)
    }
}

/// The instructions that put `value` into `dest`: a `mov` of the lowest
/// half, which clears the rest of the register, and a `movk` for each
/// higher half inside the register that is not zero.
pub open spec fn mov_imm_chain(dest: Register, value: u64) -> Seq<InstructionView> {
    seq![InstructionView::MovImm { dest, imm: half(value, 0) }] + movk_chain(
        dest,
        value,
        halves_of(dest.size),
    )
}

/// The bits that a sequence of `mov` and `movk` instructions leaves in a
/// register of 64 bits that held `before`: a `mov` replaces them all by
/// its constant, a `movk` replaces the half at its position.
pub open spec fn bits_after(chain: Seq<InstructionView>, before: u64) -> u64
    decreases chain.len(),
{
    if chain.len() == 0 {
        before
    } else {
        let bits = bits_after(chain.drop_last(), before);
        match chain.last() {
            InstructionView::MovImm { imm, .. } => imm as u64,
            InstructionView::MovKImm { imm, offset, .. } => if offset == 16 {
                (bits & !0xFFFF_0000u64) | ((imm as u64) << 16)
            } else if offset == 32 {
                (bits & !0xFFFF_0000_0000u64) | ((imm as u64) << 32)
            } else if offset == 48 {
                (bits & !0xFFFF_0000_0000_0000u64) | ((imm as u64) << 48)
            } else {
                bits
            },
            _ => bits,
        }
    }
}

/// The part of `value` that a register of the given size can take in
/// halves of 16 bits.
pub open spec fn fitted(size: Size, value: u64) -> u64 {
    match size {
        Size::Byte => value & 0xFFFF,
        Size::Word => value & 0xFFFF,
        Size::DoubleWord => value & 0xFFFF_FFFF,
        Size::QuadWord => value,
    }
}

/// A `movk` is emitted for each higher half that is not zero, and for no
/// other.
pub proof fn lemma_movk_chain_len(dest: Register, value: u64, k: int)
    ensures
        movk_chain(dest, value, k).len() == high_halves(value, k),
    decreases k,
{
    if k > 1 {
        lemma_movk_chain_len(dest, value, k - 1);
    }
}

/// As many instructions are emitted for a constant as are needed: the
/// `mov`, and one `movk` for each higher half inside the register that is
/// not zero. So a byte or a half-word takes one instruction, 32 bits
/// take two unless the higher half is zero, and 64 bits take one to four.
pub proof fn lemma_mov_imm_len(dest: Register, value: u64)
    ensures
        mov_imm_chain(dest, value).len() == 1 + high_halves(value, halves_of(dest.size)),
        1 <= mov_imm_chain(dest, value).len() <= halves_of(dest.size),
        halves_of(dest.size) == 1 ==> mov_imm_chain(dest, value).len() == 1,
        halves_of(dest.size) == 2 ==> mov_imm_chain(dest, value).len() == if half(value, 1) == 0 {
            1nat
        } else {
            2nat
        },
{
    lemma_movk_chain_len(dest, value, halves_of(dest.size));
    reveal_with_fuel(high_halves, 5);
}

/// The instructions leave in the register the part of the constant that
/// the register can take, whatever it held before.
pub proof fn lemma_mov_imm_bits(dest: Register, value: u64, before: u64)
    ensures
        bits_after(mov_imm_chain(dest, value), before) == fitted(dest.size, value),
{
    let h0 = half(value, 0);
    let h1 = half(value, 1);
    let h2 = half(value, 2);
    let h3 = half(value, 3);
    let first = seq![InstructionView::MovImm { dest, imm: h0 }];
    let m1 = InstructionView::MovKImm { dest, imm: h1, offset: 16 };
    let m2 = InstructionView::MovKImm { dest, imm: h2, offset: 32 };
    let m3 = InstructionView::MovKImm { dest, imm: h3, offset: 48 };
    let b0 = h0 as u64;
    assert(bits_after(first, before) == b0) by {
        assert(first.drop_last().len() == 0);
    }
    assert(b0 == value & 0xFFFF) by (bit_vector)
        requires
            b0 == ((value & 0xFFFF) as u16) as u64,
    ;
    if halves_of(dest.size) >= 2 {
        let c1 = first + movk_chain(dest, value, 2);
        let b1 = if h1 != 0 {
            (b0 & !0xFFFF_0000u64) | ((h1 as u64) << 16)
        } else {
            b0
        };
        assert(movk_chain(dest, value, 1) =~= seq![]);
        assert(bits_after(c1, before) == b1) by {
            if h1 != 0 {
                assert(c1 =~= first.push(m1));
                assert(c1.drop_last() =~= first);
            } else {
                assert(c1 =~= first);
            }
        }
        assert(b1 == value & 0xFFFF_FFFF) by (bit_vector)
            requires
                b0 == value & 0xFFFF,
                h1 == ((value >> 16) & 0xFFFF) as u16,
                b1 == if h1 != 0 {
                    (b0 & !0xFFFF_0000u64) | ((h1 as u64) << 16)
                } else {
                    b0
                },
        ;
        if halves_of(dest.size) == 4 {
            let c2 = first + movk_chain(dest, value, 3);
            let b2 = if h2 != 0 {
                (b1 & !0xFFFF_0000_0000u64) | ((h2 as u64) << 32)
            } else {
                b1
            };
            assert(bits_after(c2, before) == b2) by {
                if h2 != 0 {
                    assert(c2 =~= c1.push(m2));
                    assert(c2.drop_last() =~= c1);
                } else {
                    assert(c2 =~= c1);
                }
            }
            assert(b2 == value & 0xFFFF_FFFF_FFFF) by (bit_vector)
                requires
                    b1 == value & 0xFFFF_FFFF,
                    h2 == ((value >> 32) & 0xFFFF) as u16,
                    b2 == if h2 != 0 {
                        (b1 & !0xFFFF_0000_0000u64) | ((h2 as u64) << 32)
                    } else {
                        b1
                    },
            ;
            let c3 = first + movk_chain(dest, value, 4);
            let b3 = if h3 != 0 {
                (b2 & !0xFFFF_0000_0000_0000u64) | ((h3 as u64) << 48)
            } else {
                b2
            };
            assert(bits_after(c3, before) == b3) by {
                if h3 != 0 {
                    assert(c3 =~= c2.push(m3));
                    assert(c3.drop_last() =~= c2);
                } else {
                    assert(c3 =~= c2);
                }
            }
            assert(b3 == value) by (bit_vector)
                requires
                    b2 == value & 0xFFFF_FFFF_FFFF,
                    h3 == ((value >> 48) & 0xFFFF) as u16,
                    b3 == if h3 != 0 {
                        (b2 & !0xFFFF_0000_0000_0000u64) | ((h3 as u64) << 48)
                    } else {
                        b2
                    },
            ;
        }
    } else {
        assert(mov_imm_chain(dest, value) =~= first);
    }
}

/// Every instruction of `chain` is a `mov` of a constant or a `movk` at
/// one of the three higher halves.
pub open spec fn only_moves(chain: Seq<InstructionView>) -> bool {
    forall|i: int|
        0 <= i < chain.len() ==> match #[trigger] chain[i] {
            InstructionView::MovImm { .. } => true,
            InstructionView::MovKImm { offset, .. } => offset == 16 || offset == 32 || offset == 48,
            _ => false,
        }
}

/// Whether `chain` holds a `mov` of a constant.
pub open spec fn has_mov(chain: Seq<InstructionView>) -> bool {
    exists|i: int| 0 <= i < chain.len() && #[trigger] chain[i] is MovImm
}

/// Whether `chain` holds a `movk` at the half at position `k`.
pub open spec fn has_movk(chain: Seq<InstructionView>, k: int) -> bool {
    exists|i: int|
        0 <= i < chain.len() && (#[trigger] chain[i] matches InstructionView::MovKImm {
            offset,
            ..
        } && offset == 16 * k)
}

/// How many of the four kinds of instruction that set a half `chain`
/// holds: the `mov` and the `movk` at each higher half.
pub open spec fn kinds(chain: Seq<InstructionView>) -> nat {
    let mov: nat = if has_mov(chain) { 1 } else { 0 };
    let first: nat = if has_movk(chain, 1) { 1 } else { 0 };
    let second: nat = if has_movk(chain, 2) { 1 } else { 0 };
    let third: nat = if has_movk(chain, 3) { 1 } else { 0 };
    mov + first + second + third
}

/// What one instruction more does to the kinds that a chain holds.
proof fn lemma_kinds_step(chain: Seq<InstructionView>)
    requires
        chain.len() > 0,
    ensures
        has_mov(chain) <==> has_mov(chain.drop_last()) || chain.last() is MovImm,
        forall|k: int|
            has_movk(chain, k) <==> has_movk(chain.drop_last(), k) || (
            chain.last() matches InstructionView::MovKImm { offset, .. } && offset == 16 * k),
{
    let shorter = chain.drop_last();
    let last = chain.len() - 1;
    if has_mov(shorter) {
        let i = choose|i: int| 0 <= i < shorter.len() && #[trigger] shorter[i] is MovImm;
        assert(chain[i] is MovImm);
    }
    if chain.last() is MovImm {
        assert(chain[last] is MovImm);
    }
    if has_mov(chain) {
        let i = choose|i: int| 0 <= i < chain.len() && #[trigger] chain[i] is MovImm;
        if i < last {
            assert(shorter[i] is MovImm);
        }
    }
    assert forall|k: int|
        has_movk(chain, k) <==> has_movk(shorter, k) || (
        chain.last() matches InstructionView::MovKImm { offset, .. } && offset == 16 * k) by {
        if has_movk(shorter, k) {
            let i = choose|i: int|
                0 <= i < shorter.len() && (#[trigger] shorter[i] matches InstructionView::MovKImm {
                    offset,
                    ..
                } && offset == 16 * k);
            assert(chain[i] == shorter[i]);
        }
        if chain.last() matches InstructionView::MovKImm { offset, .. } && offset == 16 * k {
            assert(chain[last] == chain.last());
        }
        if has_movk(chain, k) {
            let i = choose|i: int|
                0 <= i < chain.len() && (#[trigger] chain[i] matches InstructionView::MovKImm {
                    offset,
                    ..
                } && offset == 16 * k);
            if i < last {
                assert(shorter[i] == chain[i]);
            }
        }
    }
}

/// A chain has at least as many instructions as it holds kinds of them.
proof fn lemma_kinds_bound(chain: Seq<InstructionView>)
    ensures
        kinds(chain) <= chain.len(),
    decreases chain.len(),
{
    if chain.len() > 0 {
        lemma_kinds_bound(chain.drop_last());
        lemma_kinds_step(chain);
    }
}

/// The half at position `k` that a chain leaves in a register: without a
/// `movk` at that half, it is zero after a `mov` and what the register
/// held before without one. The lowest half is what the register held
/// before unless the chain holds a `mov`.
proof fn lemma_untouched_half(chain: Seq<InstructionView>, before: u64, k: int)
    requires
        only_moves(chain),
        0 <= k <= 3,
    ensures
        k == 0 && !has_mov(chain) ==> half(bits_after(chain, before), 0) == half(before, 0),
        k >= 1 && !has_movk(chain, k) ==> half(bits_after(chain, before), k) == if has_mov(
            chain,
        ) {
            0u16
        } else {
            half(before, k)
        },
    decreases chain.len(),
{
    if chain.len() > 0 {
        let shorter = chain.drop_last();
        assert(only_moves(shorter)) by {
            assert forall|i: int| 0 <= i < shorter.len() implies match #[trigger] shorter[i] {
                InstructionView::MovImm { .. } => true,
                InstructionView::MovKImm { offset, .. } => offset == 16 || offset == 32 || offset
                    == 48,
                _ => false,
            } by {
                assert(shorter[i] == chain[i]);
            }
        }
        lemma_untouched_half(shorter, before, k);
        lemma_kinds_step(chain);
        let bits = bits_after(shorter, before);
        assert(chain[chain.len() - 1] == chain.last());
        match chain.last() {
            InstructionView::MovImm { imm, .. } => {
                assert((((imm as u64) >> 16) & 0xFFFF) as u16 == 0 && (((imm as u64) >> 32)
                    & 0xFFFF) as u16 == 0 && (((imm as u64) >> 48) & 0xFFFF) as u16 == 0)
                    by (bit_vector);
            },
            InstructionView::MovKImm { imm, offset, .. } => {
                if offset == 16 {
                    let after = (bits & !0xFFFF_0000u64) | ((imm as u64) << 16);
                    assert((after & 0xFFFF) as u16 == (bits & 0xFFFF) as u16 && ((after >> 32)
                        & 0xFFFF) as u16 == ((bits >> 32) & 0xFFFF) as u16 && ((after >> 48)
                        & 0xFFFF) as u16 == ((bits >> 48) & 0xFFFF) as u16) by (bit_vector)
                        requires
                            after == (bits & !0xFFFF_0000u64) | ((imm as u64) << 16),
                    ;
                } else if offset == 32 {
                    let after = (bits & !0xFFFF_0000_0000u64) | ((imm as u64) << 32);
                    assert((after & 0xFFFF) as u16 == (bits & 0xFFFF) as u16 && ((after >> 16)
                        & 0xFFFF) as u16 == ((bits >> 16) & 0xFFFF) as u16 && ((after >> 48)
                        & 0xFFFF) as u16 == ((bits >> 48) & 0xFFFF) as u16) by (bit_vector)
                        requires
                            after == (bits & !0xFFFF_0000_0000u64) | ((imm as u64) << 32),
                    ;
                } else {
                    let after = (bits & !0xFFFF_0000_0000_0000u64) | ((imm as u64) << 48);
                    assert((after & 0xFFFF) as u16 == (bits & 0xFFFF) as u16 && ((after >> 16)
                        & 0xFFFF) as u16 == ((bits >> 16) & 0xFFFF) as u16 && ((after >> 32)
                        & 0xFFFF) as u16 == ((bits >> 32) & 0xFFFF) as u16) by (bit_vector)
                        requires
                            after == (bits & !0xFFFF_0000_0000_0000u64) | ((imm as u64) << 48),
                    ;
                }
            },
            _ => {},
        }
    }
}

/// No shorter sequence of `mov` and `movk` instructions puts the constant
/// into the register: any that leaves there what the emitted instructions
/// leave, whatever the register held before, has at least as many
/// instructions as were emitted.
pub proof fn lemma_mov_imm_minimal(dest: Register, value: u64, other: Seq<InstructionView>)
    requires
        only_moves(other),
        forall|before: u64| #[trigger] bits_after(other, before) == fitted(dest.size, value),
    ensures
        mov_imm_chain(dest, value).len() <= other.len(),
{
    let target = fitted(dest.size, value);
    lemma_mov_imm_len(dest, value);
    lemma_kinds_bound(other);
    reveal_with_fuel(high_halves, 5);
    assert(has_mov(other)) by {
        if !has_mov(other) {
            lemma_untouched_half(other, 0, 0);
            lemma_untouched_half(other, 1, 0);
            assert(bits_after(other, 0) == target);
            assert(bits_after(other, 1) == target);
            assert((0u64 & 0xFFFF) as u16 != (1u64 & 0xFFFF) as u16) by (bit_vector);
        }
    }
    assert(bits_after(other, 0) == target);
    lemma_untouched_half(other, 0, 1);
    lemma_untouched_half(other, 0, 2);
    lemma_untouched_half(other, 0, 3);
    assert(half(target, 1) == (if halves_of(dest.size) >= 2 {
        half(value, 1)
    } else {
        0u16
    }) && half(target, 2) == (if halves_of(dest.size) == 4 {
        half(value, 2)
    } else {
        0u16
    }) && half(target, 3) == (if halves_of(dest.size) == 4 {
        half(value, 3)
    } else {
        0u16
    })) by {
        assert((((value & 0xFFFF) >> 16) & 0xFFFF) as u16 == 0 && (((value & 0xFFFF) >> 32)
            & 0xFFFF) as u16 == 0 && (((value & 0xFFFF) >> 48) & 0xFFFF) as u16 == 0)
            by (bit_vector);
        assert((((value & 0xFFFF_FFFF) >> 16) & 0xFFFF) as u16 == ((value >> 16) & 0xFFFF) as u16
            && (((value & 0xFFFF_FFFF) >> 32) & 0xFFFF) as u16 == 0 && (((value & 0xFFFF_FFFF)
            >> 48) & 0xFFFF) as u16 == 0) by (bit_vector);
    }
}

fn label_to_text(label: Label) -> (s: String)
    ensures
        s@ == label_text(label),
{
    let mut s = String::from_str("label_");
    s.append(to_decimal(label.id() as u64).as_str());
    s
}

fn address_to_text(addr: Register, offset: u16) -> (s: String)
    ensures
        s@ == address_text(addr, offset),
{
    let mut s = String::from_str("[");
    s.append(addr.to_text().as_str());
    if offset != 0 {
        s.append(", #");
        s.append(to_decimal(offset as u64).as_str());
    }
    s.append("]");
    s
}

impl Instruction {
    pub fn custom(string: String) -> (inst: Self)
        ensures
            inst == (Instruction::Custom { string }),
    {
        Self::Custom { string }
    }

    /// The instructions that put `value` into `dest`: a `mov` of the
    /// lowest 16 bits, and a `movk` for each higher half of 16 bits that is
    /// not zero and lies inside the register.
    pub fn mov_imm(dest: Register, value: u64) -> (chain: Vec<Instruction>)
        ensures
            views(chain@) == mov_imm_chain(dest, value),
            chain@.len() == 1 + high_halves(value, halves_of(dest.size)),
    {
        let mut chain: Vec<Instruction> = Vec::with_capacity(4);
        assert(value & 0xFFFF <= 0xFFFF) by (bit_vector);
        assert((value >> 16) & 0xFFFF <= 0xFFFF) by (bit_vector);
        assert((value >> 32) & 0xFFFF <= 0xFFFF) by (bit_vector);
        assert((value >> 48) & 0xFFFF <= 0xFFFF) by (bit_vector);
        proof {
            lemma_movk_chain_len(dest, value, halves_of(dest.size));
            reveal_with_fuel(movk_chain, 5);
        }

        let imm: u16 = (value & 0xFFFF) as u16;
        chain.push(Instruction::MovImm { dest, imm });
        if dest.size() == Size::Byte || dest.size() == Size::Word {
            assert(views(chain@) =~= mov_imm_chain(dest, value));
            return chain;
        }
        let imm: u16 = ((value >> 16) & 0xFFFF) as u16;
        if imm != 0 {
            chain.push(Instruction::MovKImm { dest, imm, offset: 16 });
        }
        if dest.size() == Size::DoubleWord {
            assert(views(chain@) =~= mov_imm_chain(dest, value));
            return chain;
        }
        let imm: u16 = ((value >> 32) & 0xFFFF) as u16;
        if imm != 0 {
            chain.push(Instruction::MovKImm { dest, imm, offset: 32 });
        }
        let imm: u16 = ((value >> 48) & 0xFFFF) as u16;
        if imm != 0 {
            chain.push(Instruction::MovKImm { dest, imm, offset: 48 });
        }
        assert(views(chain@) =~= mov_imm_chain(dest, value));
        chain
    }

    pub fn mov(dest: Register, src: Register) -> (inst: Self)
        ensures
            inst == (Instruction::MovReg { dest, src }),
    {
        Self::MovReg { dest, src }
    }

    pub fn add(dest: Register, src_1: Register, src_2: Register) -> (inst: Self)
        ensures
            inst == (Instruction::Add { dest, src_1, src_2 }),
    {
        Self::Add { dest, src_1, src_2 }
    }

    pub fn ldr(dest: Register, addr: Register, offset: u16, signed: bool) -> (inst: Self)
        ensures
            inst == (Instruction::Ldr { dest, addr, offset, signed }),
    {
        Self::Ldr { dest, addr, offset, signed }
    }

    pub fn ldp(dest_1: Register, dest_2: Register, addr: Register, offset: u16) -> (inst: Self)
        ensures
            inst == (Instruction::Ldp { dest_1, dest_2, addr, offset }),
    {
        Self::Ldp { dest_1, dest_2, addr, offset }
    }

    pub fn str(src: Register, addr: Register, offset: u16) -> (inst: Self)
        ensures
            inst == (Instruction::Str { src, addr, offset }),
    {
        Self::Str { src, addr, offset }
    }

    pub fn stp(src_1: Register, src_2: Register, addr: Register, offset: u16) -> (inst: Self)
        ensures
            inst == (Instruction::Stp { src_1, src_2, addr, offset }),
    {
        Self::Stp { src_1, src_2, addr, offset }
    }

    pub fn b(label: Label) -> (inst: Self)
        ensures
            inst == (Instruction::Br { label }),
    {
        Self::Br { label }
    }

    pub fn bl(func: String) -> (inst: Self)
        ensures
            inst == (Instruction::Bl { func }),
    {
        Self::Bl { func }
    }

    /// Subtracts a constant, which the instruction holds in 12 bits.
    pub fn sub_imm(dest: Register, src_1: Register, src_2: u16) -> (inst: Self)
        requires
            src_2 < 0x1000,
        ensures
            inst == (Instruction::SubImm { dest, src_1, src_2 }),
    {
        Self::SubImm { dest, src_1, src_2 }
    }

    /// Adds a constant, which the instruction holds in 12 bits.
    pub fn add_imm(dest: Register, src_1: Register, src_2: u16) -> (inst: Self)
        requires
            src_2 < 0x1000,
        ensures
            inst == (Instruction::AddImm { dest, src_1, src_2 }),
    {
        Self::AddImm { dest, src_1, src_2 }
    }

    pub fn label(label: Label) -> (inst: Self)
        ensures
            inst == (Instruction::Label { label }),
    {
        Self::Label { label }
    }

    pub fn ret() -> (inst: Self)
        ensures
            inst == Instruction::Ret,
    {
        Self::Ret
    }

    /// The line of assembly for the instruction, without the line break.
    pub fn to_text(&self) -> (s: String)
        ensures
            s@ == self@.text(),
    {
        match self {
            Instruction::Empty => String::from_str(""),
            Instruction::Custom { string } => string.clone(),
            Instruction::Label { label } => {
                let mut s = label_to_text(*label);
                s.append(":");
                s
            },
            Instruction::MovReg { dest, src } => {
                let mut s = String::from_str("    mov ");
                s.append(dest.to_text().as_str());
                s.append(", ");
                s.append(src.to_text().as_str());
                s
            },
            Instruction::MovImm { dest, imm } => {
                let mut s = String::from_str("    mov ");
                s.append(dest.to_text().as_str());
                s.append(", #");
                s.append(to_decimal(*imm as u64).as_str());
                s
            },
            Instruction::MovKImm { dest, imm, offset } => {
                let mut s = String::from_str("    movk ");
                s.append(dest.to_text().as_str());
                s.append(", #");
                s.append(to_decimal(*imm as u64).as_str());
                s.append(", lsl #");
                s.append(to_decimal(*offset as u64).as_str());
                s
            },
            Instruction::Add { dest, src_1, src_2 } => {
                let mut s = String::from_str("    add ");
                s.append(dest.to_text().as_str());
                s.append(", ");
                s.append(src_1.to_text().as_str());
                s.append(", ");
                s.append(src_2.to_text().as_str());
                s
            },
            Instruction::AddImm { dest, src_1, src_2 } => {
                let mut s = String::from_str("    add ");
                s.append(dest.to_text().as_str());
                s.append(", ");
                s.append(src_1.to_text().as_str());
                s.append(", #");
                s.append(to_decimal(*src_2 as u64).as_str());
                s
            },
            Instruction::SubImm { dest, src_1, src_2 } => {
                let mut s = String::from_str("    sub ");
                s.append(dest.to_text().as_str());
                s.append(", ");
                s.append(src_1.to_text().as_str());
                s.append(", #");
                s.append(to_decimal(*src_2 as u64).as_str());
                s
            },
            Instruction::Br { label } => {
                let mut s = String::from_str("    b ");
                s.append(label_to_text(*label).as_str());
                s
            },
            Instruction::Bl { func } => {
                let mut s = String::from_str("    bl ");
                s.append(func.as_str());
                s
            },
            Instruction::Ret => String::from_str("    ret"),
            Instruction::Ldr { dest, addr, offset, signed } => {
                let mut s = match dest.size() {
                    Size::Byte => if *signed {
                        String::from_str("    ldrsb ")
                    } else {
                        String::from_str("    ldrb ")
                    },
                    Size::Word => if *signed {
                        String::from_str("    ldrsh ")
                    } else {
                        String::from_str("    ldrh ")
                    },
                    Size::DoubleWord => String::from_str("    ldr "),
                    Size::QuadWord => String::from_str("    ldr "),
                };
                s.append(dest.to_text().as_str());
                s.append(", ");
                s.append(address_to_text(*addr, *offset).as_str());
                s
            },
            Instruction::Ldp { dest_1, dest_2, addr, offset } => {
                let mut s = String::from_str("    ldp ");
                s.append(dest_1.to_text().as_str());
                s.append(", ");
                s.append(dest_2.to_text().as_str());
                s.append(", ");
                s.append(address_to_text(*addr, *offset).as_str());
                s
            },
            Instruction::Str { src, addr, offset } => {
                let mut s = match src.size() {
                    Size::Byte => String::from_str("    strb "),
                    Size::Word => String::from_str("    strh "),
                    Size::DoubleWord => String::from_str("    str "),
                    Size::QuadWord => String::from_str("    str "),
                };
                s.append(src.to_text().as_str());
                s.append(", ");
                s.append(address_to_text(*addr, *offset).as_str());
                s
            },
            Instruction::Stp { src_1, src_2, addr, offset } => {
                let mut s = String::from_str("    stp ");
                s.append(src_1.to_text().as_str());
                s.append(", ");
                s.append(src_2.to_text().as_str());
                s.append(", ");
                s.append(address_to_text(*addr, *offset).as_str());
                s
            },
        }
    }
}

} // verus!
