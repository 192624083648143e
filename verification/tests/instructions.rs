use lube::arm64::{get_correct_offset, Instruction, Register, RegisterNumber};
use lube::ir::{Label, Size};
use lube::text::to_decimal;

fn x(number: RegisterNumber) -> Register {
    Register::new(number, Size::QuadWord)
}

fn w(number: RegisterNumber) -> Register {
    Register::new(number, Size::DoubleWord)
}

fn texts(instructions: &[Instruction]) -> Vec<String> {
    instructions.iter().map(|inst| inst.to_text()).collect()
}

#[test]
fn decimal_text() {
    assert_eq!(to_decimal(0), "0");
    assert_eq!(to_decimal(9), "9");
    assert_eq!(to_decimal(10), "10");
    assert_eq!(to_decimal(42), "42");
    assert_eq!(to_decimal(100), "100");
    assert_eq!(to_decimal(65535), "65535");
    assert_eq!(to_decimal(1234567890), "1234567890");
    assert_eq!(to_decimal(u64::MAX), "18446744073709551615");
}

#[test]
fn register_numbers() {
    assert_eq!(RegisterNumber::R0.index(), 0);
    assert_eq!(RegisterNumber::R9.index(), 9);
    assert_eq!(RegisterNumber::R19.index(), 19);
    assert_eq!(RegisterNumber::R30.index(), 30);
    assert_eq!(RegisterNumber::SP.index(), 31);
}

#[test]
fn register_names() {
    assert_eq!(Register::sp().to_text(), "sp");
    assert_eq!(Register::new(RegisterNumber::SP, Size::Byte).to_text(), "sp");
    assert_eq!(Register::x29().to_text(), "x29");
    assert_eq!(Register::x30().to_text(), "x30");
    assert_eq!(Register::r0(Size::QuadWord).to_text(), "x0");
    assert_eq!(Register::r0(Size::DoubleWord).to_text(), "w0");
    assert_eq!(Register::r0(Size::Word).to_text(), "w0");
    assert_eq!(Register::r0(Size::Byte).to_text(), "w0");
    assert_eq!(Register::r9(Size::Word).to_text(), "w9");
    assert_eq!(x(RegisterNumber::R28).to_text(), "x28");
    assert_eq!(w(RegisterNumber::R15).to_text(), "w15");
}

#[test]
fn named_registers() {
    assert_eq!(Register::sp().number(), RegisterNumber::SP);
    assert_eq!(Register::sp().size(), Size::QuadWord);
    assert_eq!(Register::x29(), x(RegisterNumber::R29));
    assert_eq!(Register::x30(), x(RegisterNumber::R30));
    assert_eq!(Register::r0(Size::Byte).number(), RegisterNumber::R0);
    assert_eq!(Register::r1(Size::Byte).number(), RegisterNumber::R1);
    assert_eq!(Register::r2(Size::Byte).number(), RegisterNumber::R2);
    assert_eq!(Register::r3(Size::Byte).number(), RegisterNumber::R3);
    assert_eq!(Register::r4(Size::Byte).number(), RegisterNumber::R4);
    assert_eq!(Register::r5(Size::Byte).number(), RegisterNumber::R5);
    assert_eq!(Register::r6(Size::Byte).number(), RegisterNumber::R6);
    assert_eq!(Register::r7(Size::Byte).number(), RegisterNumber::R7);
    assert_eq!(Register::r9(Size::Byte).number(), RegisterNumber::R9);
    assert_eq!(Register::r7(Size::Word).size(), Size::Word);
}

#[test]
fn slot_offsets_are_the_same_in_leaves_and_callers() {
    assert_eq!(get_correct_offset(true, 0), 0);
    assert_eq!(get_correct_offset(true, 12), 12);
    assert_eq!(get_correct_offset(false, 12), 12);
    assert_eq!(get_correct_offset(false, 4080), 4080);
}

#[test]
fn plain_lines() {
    assert_eq!(Instruction::Empty.to_text(), "");
    assert_eq!(Instruction::custom(".align 2".to_string()).to_text(), ".align 2");
    assert_eq!(Instruction::label(Label::new(0)).to_text(), "label_0:");
    assert_eq!(Instruction::label(Label::new(123)).to_text(), "label_123:");
    assert_eq!(Instruction::b(Label::new(17)).to_text(), "    b label_17");
    assert_eq!(Instruction::bl("_add".to_string()).to_text(), "    bl _add");
    assert_eq!(Instruction::ret().to_text(), "    ret");
}

#[test]
fn moves_and_sums() {
    assert_eq!(
        Instruction::mov(w(RegisterNumber::R0), w(RegisterNumber::R8)).to_text(),
        "    mov w0, w8"
    );
    assert_eq!(
        Instruction::mov(x(RegisterNumber::R19), Register::sp()).to_text(),
        "    mov x19, sp"
    );
    assert_eq!(
        Instruction::add(w(RegisterNumber::R8), w(RegisterNumber::R9), w(RegisterNumber::R10))
            .to_text(),
        "    add w8, w9, w10"
    );
    assert_eq!(
        Instruction::add_imm(Register::x29(), Register::sp(), 16).to_text(),
        "    add x29, sp, #16"
    );
    assert_eq!(
        Instruction::add_imm(Register::sp(), Register::sp(), 4095).to_text(),
        "    add sp, sp, #4095"
    );
    assert_eq!(
        Instruction::sub_imm(Register::sp(), Register::sp(), 48).to_text(),
        "    sub sp, sp, #48"
    );
    assert_eq!(
        Instruction::MovImm { dest: w(RegisterNumber::R8), imm: 0 }.to_text(),
        "    mov w8, #0"
    );
    assert_eq!(
        Instruction::MovKImm { dest: x(RegisterNumber::R8), imm: 65535, offset: 48 }.to_text(),
        "    movk x8, #65535, lsl #48"
    );
}

#[test]
fn loads_by_size_and_sign() {
    let sp = Register::sp();
    let load = |size, signed| {
        Instruction::ldr(Register::new(RegisterNumber::R8, size), sp, 8, signed).to_text()
    };
    assert_eq!(load(Size::Byte, false), "    ldrb w8, [sp, #8]");
    assert_eq!(load(Size::Byte, true), "    ldrsb w8, [sp, #8]");
    assert_eq!(load(Size::Word, false), "    ldrh w8, [sp, #8]");
    assert_eq!(load(Size::Word, true), "    ldrsh w8, [sp, #8]");
    assert_eq!(load(Size::DoubleWord, false), "    ldr w8, [sp, #8]");
    assert_eq!(load(Size::DoubleWord, true), "    ldr w8, [sp, #8]");
    assert_eq!(load(Size::QuadWord, false), "    ldr x8, [sp, #8]");
    assert_eq!(load(Size::QuadWord, true), "    ldr x8, [sp, #8]");
}

#[test]
fn stores_by_size() {
    let sp = Register::sp();
    let store =
        |size| Instruction::str(Register::new(RegisterNumber::R9, size), sp, 24).to_text();
    assert_eq!(store(Size::Byte), "    strb w9, [sp, #24]");
    assert_eq!(store(Size::Word), "    strh w9, [sp, #24]");
    assert_eq!(store(Size::DoubleWord), "    str w9, [sp, #24]");
    assert_eq!(store(Size::QuadWord), "    str x9, [sp, #24]");
}

#[test]
fn offset_zero_is_left_out() {
    let sp = Register::sp();
    assert_eq!(
        Instruction::ldr(x(RegisterNumber::R8), sp, 0, false).to_text(),
        "    ldr x8, [sp]"
    );
    assert_eq!(
        Instruction::str(w(RegisterNumber::R8), sp, 0).to_text(),
        "    str w8, [sp]"
    );
    assert_eq!(
        Instruction::ldp(Register::x29(), Register::x30(), sp, 0).to_text(),
        "    ldp x29, x30, [sp]"
    );
    assert_eq!(
        Instruction::stp(Register::x29(), Register::x30(), sp, 0).to_text(),
        "    stp x29, x30, [sp]"
    );
    assert_eq!(
        Instruction::ldr(x(RegisterNumber::R8), x(RegisterNumber::R29), 0, false).to_text(),
        "    ldr x8, [x29]"
    );
}

#[test]
fn pairs() {
    let sp = Register::sp();
    assert_eq!(
        Instruction::ldp(Register::x29(), Register::x30(), sp, 16).to_text(),
        "    ldp x29, x30, [sp, #16]"
    );
    assert_eq!(
        Instruction::stp(Register::x29(), Register::x30(), sp, 4064).to_text(),
        "    stp x29, x30, [sp, #4064]"
    );
}

#[test]
fn immediate_of_one_half() {
    let dest = x(RegisterNumber::R8);
    assert_eq!(texts(&Instruction::mov_imm(dest, 0)), vec!["    mov x8, #0"]);
    assert_eq!(texts(&Instruction::mov_imm(dest, 42)), vec!["    mov x8, #42"]);
    assert_eq!(texts(&Instruction::mov_imm(dest, 0xFFFF)), vec!["    mov x8, #65535"]);
}

#[test]
fn immediate_of_more_halves() {
    let dest = x(RegisterNumber::R8);
    assert_eq!(
        texts(&Instruction::mov_imm(dest, 0x1_0000)),
        vec!["    mov x8, #0", "    movk x8, #1, lsl #16"]
    );
    assert_eq!(
        texts(&Instruction::mov_imm(dest, 9876543210)),
        vec!["    mov x8, #5866", "    movk x8, #19632, lsl #16", "    movk x8, #2, lsl #32"]
    );
    assert_eq!(
        texts(&Instruction::mov_imm(dest, 0x0001_0002_0003_0004)),
        vec![
            "    mov x8, #4",
            "    movk x8, #3, lsl #16",
            "    movk x8, #2, lsl #32",
            "    movk x8, #1, lsl #48"
        ]
    );
    assert_eq!(
        texts(&Instruction::mov_imm(dest, u64::MAX)),
        vec![
            "    mov x8, #65535",
            "    movk x8, #65535, lsl #16",
            "    movk x8, #65535, lsl #32",
            "    movk x8, #65535, lsl #48"
        ]
    );
}

#[test]
fn zero_halves_get_no_instruction() {
    let dest = x(RegisterNumber::R8);
    assert_eq!(
        texts(&Instruction::mov_imm(dest, 0x1_0000_0000)),
        vec!["    mov x8, #0", "    movk x8, #1, lsl #32"]
    );
    assert_eq!(
        texts(&Instruction::mov_imm(dest, 0x8000_0000_0000_0000)),
        vec!["    mov x8, #0", "    movk x8, #32768, lsl #48"]
    );
    assert_eq!(
        texts(&Instruction::mov_imm(dest, 0x0007_0000_0000_0009)),
        vec!["    mov x8, #9", "    movk x8, #7, lsl #48"]
    );
    assert_eq!(
        texts(&Instruction::mov_imm(dest, 0x0000_0005_0000_0000)),
        vec!["    mov x8, #0", "    movk x8, #5, lsl #32"]
    );
    assert_eq!(
        texts(&Instruction::mov_imm(dest, 0x0003_0000_0002_0000)),
        vec!["    mov x8, #0", "    movk x8, #2, lsl #16", "    movk x8, #3, lsl #48"]
    );
}

#[test]
fn halves_above_the_register_get_no_instruction() {
    let word = w(RegisterNumber::R8);
    assert_eq!(
        texts(&Instruction::mov_imm(word, 0x1_0000_0000)),
        vec!["    mov w8, #0"]
    );
    assert_eq!(
        texts(&Instruction::mov_imm(word, 0xFFFF_FFFF_0000_0007)),
        vec!["    mov w8, #7"]
    );
    let byte = Register::new(RegisterNumber::R8, Size::Byte);
    assert_eq!(
        texts(&Instruction::mov_imm(byte, 0xFFFF_FFFF_FFFF_FFFF)),
        vec!["    mov w8, #65535"]
    );
}

#[test]
fn immediate_stops_at_the_width_of_the_register() {
    let value = 0xFFFF_FFFF_FFFF_FD66;
    let narrow = |size| {
        texts(&Instruction::mov_imm(Register::new(RegisterNumber::R10, size), value))
    };
    assert_eq!(narrow(Size::Byte), vec!["    mov w10, #64870"]);
    assert_eq!(narrow(Size::Word), vec!["    mov w10, #64870"]);
    assert_eq!(
        narrow(Size::DoubleWord),
        vec!["    mov w10, #64870", "    movk w10, #65535, lsl #16"]
    );
    assert_eq!(
        narrow(Size::QuadWord),
        vec![
            "    mov x10, #64870",
            "    movk x10, #65535, lsl #16",
            "    movk x10, #65535, lsl #32",
            "    movk x10, #65535, lsl #48"
        ]
    );
}

#[test]
fn immediate_count_by_size_and_value() {
    // For each value, the count for a register of one, two and four halves.
    let values: [(u64, [usize; 3]); 9] = [
        (0, [1, 1, 1]),
        (0xFFFF, [1, 1, 1]),
        (0x1_0000, [1, 2, 2]),
        (0xFFFF_FFFF, [1, 2, 2]),
        (0x1_0000_0000, [1, 1, 2]),
        (0xFFFF_FFFF_FFFF, [1, 2, 3]),
        (0x1_0000_0000_0000, [1, 1, 2]),
        (0x1_0000_0001_0000, [1, 2, 3]),
        (u64::MAX, [1, 2, 4]),
    ];
    for (value, counts) in values {
        let count = |size| {
            Instruction::mov_imm(Register::new(RegisterNumber::R8, size), value).len()
        };
        assert_eq!(count(Size::Byte), counts[0]);
        assert_eq!(count(Size::Word), counts[0]);
        assert_eq!(count(Size::DoubleWord), counts[1]);
        assert_eq!(count(Size::QuadWord), counts[2]);
    }
}
