use lube::arm64::{arg_register, usable_registers, Register, RegisterNumber};
use lube::ir::{Function, Module, Size, Temporary, Value};
use lube::util::RegisterAllocator;

fn registers_of(func: &Function) -> Option<Vec<Register>> {
    RegisterAllocator::new().allocate(func.instructions(), usable_registers())
}

fn word(number: RegisterNumber) -> Register {
    Register::new(number, Size::DoubleWord)
}

#[test]
fn palette_in_order() {
    assert_eq!(
        usable_registers(),
        vec![
            RegisterNumber::R8,
            RegisterNumber::R9,
            RegisterNumber::R10,
            RegisterNumber::R11,
            RegisterNumber::R12,
            RegisterNumber::R13,
            RegisterNumber::R14,
            RegisterNumber::R15,
            RegisterNumber::R19,
            RegisterNumber::R20,
            RegisterNumber::R21,
            RegisterNumber::R22,
            RegisterNumber::R23,
            RegisterNumber::R24,
            RegisterNumber::R25,
            RegisterNumber::R26,
            RegisterNumber::R27,
            RegisterNumber::R28,
        ]
    );
}

#[test]
fn argument_registers() {
    let numbers = [
        RegisterNumber::R0,
        RegisterNumber::R1,
        RegisterNumber::R2,
        RegisterNumber::R3,
        RegisterNumber::R4,
        RegisterNumber::R5,
        RegisterNumber::R6,
        RegisterNumber::R7,
    ];
    for (position, number) in numbers.iter().enumerate() {
        assert_eq!(
            arg_register(position as u8, Size::QuadWord),
            Some(Register::new(*number, Size::QuadWord))
        );
        assert_eq!(
            arg_register(position as u8, Size::Byte),
            Some(Register::new(*number, Size::Byte))
        );
    }
    assert_eq!(arg_register(8, Size::QuadWord), None);
    assert_eq!(arg_register(255, Size::Word), None);
}

#[test]
fn fresh_allocator_has_no_edges() {
    let allocator = RegisterAllocator::new();
    assert!(!allocator.is_edge(0, 0));
    assert!(!allocator.is_edge(0, 1));
    assert_eq!(
        allocator.allocate_registers(usable_registers(), vec![]),
        Some(vec![])
    );
}

#[test]
fn edges_join_what_is_alive_at_a_definition() {
    // %0 and %1 are both alive until the sum; %2 is defined when both
    // have been read for the last time.
    let mut func = Function::new("_f".to_string());
    let tmp_0 = func.add_inst_set(Value::I32(1));
    let tmp_1 = func.add_inst_set(Value::I32(2));
    let tmp_2 = func.add_inst_add(tmp_0, tmp_1);
    let tmp_3 = func.add_inst_set(Value::I32(3));
    func.add_inst_store(tmp_2);
    func.add_inst_return(Some(tmp_3));

    let mut allocator = RegisterAllocator::new();
    let restricted = allocator.generate_edges(func.instructions());
    let joined = [(0, 1), (2, 3)];
    for a in 0..4 {
        for b in 0..4 {
            let expected = joined.contains(&(a, b)) || joined.contains(&(b, a));
            assert_eq!(allocator.is_edge(a, b), expected, "edge between {a} and {b}");
        }
    }
    assert!(!allocator.is_edge(0, 4));
    assert!(!allocator.is_edge(4, 0));
    assert_eq!(
        restricted,
        vec![None, None, None, Some(word(RegisterNumber::R0))]
    );
}

#[test]
fn add_edge_joins_both_ways() {
    let mut func = Function::new("_f".to_string());
    let tmp_0 = func.add_inst_set(Value::I32(1));
    func.add_inst_store(tmp_0);
    let tmp_1 = func.add_inst_set(Value::I32(2));
    func.add_inst_store(tmp_1);
    let tmp_2 = func.add_inst_set(Value::I32(3));
    func.add_inst_store(tmp_2);

    let mut allocator = RegisterAllocator::new();
    allocator.generate_edges(func.instructions());
    assert!(!allocator.is_edge(0, 1));
    assert!(!allocator.is_edge(1, 2));
    allocator.add_edge(tmp_1, &vec![true, false, false]);
    assert!(allocator.is_edge(0, 1));
    assert!(allocator.is_edge(1, 0));
    assert!(!allocator.is_edge(1, 2));
    assert!(!allocator.is_edge(2, 1));
    assert!(!allocator.is_edge(0, 2));
    assert!(!allocator.is_edge(1, 1));

    let registers = allocator.allocate_registers(usable_registers(), vec![None, None, None]);
    assert_eq!(
        registers,
        Some(vec![
            word(RegisterNumber::R8),
            word(RegisterNumber::R9),
            word(RegisterNumber::R8)
        ])
    );
}

#[test]
fn restricted_register_wins_when_free() {
    let mut func = Function::new("_f".to_string());
    let tmp_0 = func.add_inst_set(Value::I32(1));
    let tmp_1 = func.add_inst_set(Value::I32(2));
    func.add_inst_store(tmp_0);
    func.add_inst_store(tmp_1);

    let mut allocator = RegisterAllocator::new();
    allocator.generate_edges(func.instructions());
    assert!(allocator.is_edge(0, 1));
    let wish = Register::new(RegisterNumber::R20, Size::QuadWord);
    let registers =
        allocator.allocate_registers(usable_registers(), vec![Some(wish), Some(wish)]);
    // The first node gets its wish as it is; the second finds it taken and
    // gets the first register of the palette at the size of its temporary.
    assert_eq!(registers, Some(vec![wish, word(RegisterNumber::R8)]));
}

#[test]
fn temporaries_with_disjoint_lives_share_a_register() {
    let mut func = Function::new("_f".to_string());
    let tmp_0 = func.add_inst_set(Value::I8(33));
    func.add_inst_store(tmp_0);
    let tmp_1 = func.add_inst_set(Value::U64(69));
    func.add_inst_store(tmp_1);
    assert_eq!(
        registers_of(&func),
        Some(vec![
            Register::new(RegisterNumber::R8, Size::Byte),
            Register::new(RegisterNumber::R8, Size::QuadWord)
        ])
    );
}

#[test]
fn sum_may_take_the_register_of_an_operand() {
    let mut func = Function::new("_f".to_string());
    let tmp_0 = func.add_inst_set(Value::I32(1));
    let tmp_1 = func.add_inst_set(Value::I32(2));
    let tmp_2 = func.add_inst_add(tmp_0, tmp_1);
    func.add_inst_store(tmp_2);
    assert_eq!(
        registers_of(&func),
        Some(vec![
            word(RegisterNumber::R8),
            word(RegisterNumber::R9),
            word(RegisterNumber::R8)
        ])
    );
}

#[test]
fn returned_temporary_lives_in_the_result_register() {
    let mut func = Function::new("_f".to_string());
    let tmp_0 = func.add_inst_set(Value::I64(1));
    let tmp_1 = func.add_inst_set(Value::I64(2));
    let tmp_2 = func.add_inst_add(tmp_0, tmp_1);
    func.add_inst_return(Some(tmp_2));
    let registers = registers_of(&func).unwrap();
    assert_eq!(registers[tmp_2.id()], Register::new(RegisterNumber::R0, Size::QuadWord));
}

#[test]
fn blocked_return_takes_the_first_free_register() {
    // %0 travels in x0 to the call while %1, which is returned, is alive.
    let mut func = Function::new("_blocked".to_string());
    let tmp_0 = func.add_inst_set(Value::I32(1));
    let tmp_1 = func.add_inst_set(Value::I32(2));
    func.add_inst_call("_f".to_string(), vec![tmp_0]);
    func.add_inst_return(Some(tmp_1));
    assert_eq!(
        registers_of(&func),
        Some(vec![word(RegisterNumber::R0), word(RegisterNumber::R8)])
    );

    let mut module = Module::new();
    module.add_func(func);
    assert!(module.can_generate_asm());
    assert_eq!(
        module.generate_asm().to_text(),
        "\
.align 2
_blocked:
    sub sp, sp, #16
    stp x29, x30, [sp]
    add x29, sp, #16
    mov w0, #1
    mov w8, #2
    mov w0, w0
    bl _f
    mov w0, w8
    b label_0
label_0:
    ldp x29, x30, [sp]
    add sp, sp, #16
    ret

"
    );
}

#[test]
fn earliest_wish_wins() {
    // The call stands before the return, so %1 lives where the call
    // wants it.
    let mut func = Function::new("_f".to_string());
    let tmp_0 = func.add_inst_set(Value::I32(1));
    let tmp_1 = func.add_inst_set(Value::I32(2));
    func.add_inst_call("_g".to_string(), vec![tmp_0, tmp_1]);
    func.add_inst_return(Some(tmp_1));
    assert_eq!(
        registers_of(&func),
        Some(vec![word(RegisterNumber::R0), word(RegisterNumber::R1)])
    );
}

#[test]
fn last_position_of_a_call_wins() {
    let mut func = Function::new("_f".to_string());
    let tmp_0 = func.add_inst_set(Value::I32(1));
    func.add_inst_call("_g".to_string(), vec![tmp_0, tmp_0]);
    assert_eq!(registers_of(&func), Some(vec![word(RegisterNumber::R1)]));
}

#[test]
fn arguments_live_in_their_registers() {
    let mut func = Function::new("_f".to_string());
    let mut args: Vec<Temporary> = Vec::new();
    for value in 0..10 {
        args.push(func.add_inst_set(Value::I32(value)));
    }
    func.add_inst_call("_g".to_string(), args.clone());
    let registers = registers_of(&func).unwrap();
    for (position, arg) in args.iter().enumerate().take(8) {
        assert_eq!(
            Some(registers[arg.id()]),
            arg_register(position as u8, Size::DoubleWord)
        );
    }
    // The ninth and tenth travel on the stack and live in the palette.
    assert_eq!(registers[args[8].id()], word(RegisterNumber::R8));
    assert_eq!(registers[args[9].id()], word(RegisterNumber::R9));
}

#[test]
fn neighbours_never_share_a_register() {
    let mut func = Function::new("_f".to_string());
    let mut temporaries: Vec<Temporary> = Vec::new();
    for value in 0..6 {
        temporaries.push(func.add_inst_set(Value::I32(value)));
    }
    let sum_0 = func.add_inst_add(temporaries[0], temporaries[5]);
    let sum_1 = func.add_inst_add(temporaries[1], temporaries[4]);
    func.add_inst_call("_g".to_string(), vec![sum_0, temporaries[2], sum_1]);
    let result = func.add_inst_call_result(Size::DoubleWord, true);
    let sum_2 = func.add_inst_add(result, temporaries[3]);
    func.add_inst_return(Some(sum_2));

    let mut allocator = RegisterAllocator::new();
    allocator.generate_edges(func.instructions());
    let registers = registers_of(&func).unwrap();
    assert_eq!(registers.len(), 10);
    let mut edges = 0;
    for a in 0..registers.len() {
        for b in 0..registers.len() {
            if allocator.is_edge(a, b) {
                edges += 1;
                assert!(allocator.is_edge(b, a));
                assert_ne!(a, b);
                assert_ne!(registers[a].number(), registers[b].number());
            }
        }
    }
    assert!(edges > 0);
}

#[test]
fn eighteen_live_temporaries_fit() {
    let mut func = Function::new("_f".to_string());
    let mut temporaries: Vec<Temporary> = Vec::new();
    for value in 0..18 {
        temporaries.push(func.add_inst_set(Value::I32(value)));
    }
    for tmp in &temporaries {
        func.add_inst_store(*tmp);
    }
    let registers = registers_of(&func).unwrap();
    let palette = usable_registers();
    for (tmp, number) in temporaries.iter().zip(palette.iter()) {
        assert_eq!(registers[tmp.id()], word(*number));
    }
}

#[test]
fn nineteen_live_temporaries_do_not_fit() {
    let mut func = Function::new("_f".to_string());
    let mut temporaries: Vec<Temporary> = Vec::new();
    for value in 0..19 {
        temporaries.push(func.add_inst_set(Value::I32(value)));
    }
    for tmp in &temporaries {
        func.add_inst_store(*tmp);
    }
    assert_eq!(registers_of(&func), None);

    let mut module = Module::new();
    module.add_func(func);
    assert!(!module.can_generate_asm());
}

#[test]
fn small_palette_is_exhausted_sooner() {
    let mut func = Function::new("_f".to_string());
    let tmp_0 = func.add_inst_set(Value::I32(1));
    let tmp_1 = func.add_inst_set(Value::I32(2));
    func.add_inst_store(tmp_0);
    func.add_inst_store(tmp_1);
    let one = vec![RegisterNumber::R19];
    let two = vec![RegisterNumber::R19, RegisterNumber::R8];
    assert_eq!(RegisterAllocator::new().allocate(func.instructions(), one), None);
    assert_eq!(
        RegisterAllocator::new().allocate(func.instructions(), two),
        Some(vec![word(RegisterNumber::R19), word(RegisterNumber::R8)])
    );
}

#[test]
fn registers_have_the_size_of_their_temporaries() {
    let mut func = Function::new("_f".to_string());
    let byte = func.add_inst_set(Value::U8(1));
    let half = func.add_inst_set(Value::I16(2));
    let word = func.add_inst_set(Value::U32(3));
    let quad = func.add_inst_set(Value::I64(4));
    func.add_inst_call("_g".to_string(), vec![quad, byte]);
    func.add_inst_store(half);
    func.add_inst_return(Some(word));
    let temporaries = [byte, half, word, quad];
    let registers = registers_of(&func).unwrap();
    assert_eq!(registers.len(), temporaries.len());
    for tmp in temporaries {
        assert_eq!(registers[tmp.id()].size(), tmp.size());
    }
    // The returned word is coloured before the first argument of the call
    // and is alive with it, so it is the word that gets the result register.
    assert_eq!(registers[byte.id()], Register::new(RegisterNumber::R1, Size::Byte));
    assert_eq!(registers[half.id()], Register::new(RegisterNumber::R8, Size::Word));
    assert_eq!(registers[word.id()], Register::new(RegisterNumber::R0, Size::DoubleWord));
    assert_eq!(registers[quad.id()], Register::new(RegisterNumber::R9, Size::QuadWord));
}

#[test]
fn only_palette_and_argument_registers_are_handed_out() {
    let mut func = Function::new("_f".to_string());
    let mut temporaries: Vec<Temporary> = Vec::new();
    for value in 0..12 {
        temporaries.push(func.add_inst_set(Value::I32(value)));
    }
    func.add_inst_call("_g".to_string(), temporaries.clone());
    let result = func.add_inst_call_result(Size::DoubleWord, true);
    func.add_inst_return(Some(result));
    let palette = usable_registers();
    let registers = registers_of(&func).unwrap();
    assert_eq!(registers.len(), 13);
    for register in registers {
        let number = register.number();
        assert!(palette.contains(&number) || number.index() < 8);
    }
}
