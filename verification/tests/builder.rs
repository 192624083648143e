use lube::ir::{Function, Instruction, Label, Module, Size, Value};
use lube::util::Iota;

#[test]
fn iota_counts_from_zero() {
    let mut iota = Iota::new();
    assert_eq!(iota.current(), 0);
    assert_eq!(iota.next(), 0);
    assert_eq!(iota.next(), 1);
    assert_eq!(iota.next(), 2);
    assert_eq!(iota.current(), 3);
}

#[test]
fn iotas_are_independent() {
    let mut first = Iota::new();
    let mut second = Iota::new();
    assert_eq!(first.next(), 0);
    assert_eq!(first.next(), 1);
    assert_eq!(second.next(), 0);
}

#[test]
fn value_sizes() {
    assert_eq!(Value::U8(1).size(), Size::Byte);
    assert_eq!(Value::I8(1).size(), Size::Byte);
    assert_eq!(Value::U16(1).size(), Size::Word);
    assert_eq!(Value::I16(1).size(), Size::Word);
    assert_eq!(Value::U32(1).size(), Size::DoubleWord);
    assert_eq!(Value::I32(1).size(), Size::DoubleWord);
    assert_eq!(Value::U64(1).size(), Size::QuadWord);
    assert_eq!(Value::I64(1).size(), Size::QuadWord);
}

#[test]
fn value_signedness() {
    assert!(!Value::U8(1).is_signed());
    assert!(!Value::U16(1).is_signed());
    assert!(!Value::U32(1).is_signed());
    assert!(!Value::U64(1).is_signed());
    assert!(Value::I8(1).is_signed());
    assert!(Value::I16(1).is_signed());
    assert!(Value::I32(1).is_signed());
    assert!(Value::I64(1).is_signed());
}

#[test]
fn unsigned_values_are_zero_extended() {
    assert_eq!(Value::U8(0xFF).as_u64(), 0xFF);
    assert_eq!(Value::U16(0xFFFF).as_u64(), 0xFFFF);
    assert_eq!(Value::U32(0xFFFF_FFFF).as_u64(), 0xFFFF_FFFF);
    assert_eq!(Value::U64(u64::MAX).as_u64(), u64::MAX);
    assert_eq!(Value::U64(9876543210).as_u64(), 9876543210);
}

#[test]
fn signed_values_are_sign_extended() {
    assert_eq!(Value::I8(33).as_u64(), 33);
    assert_eq!(Value::I8(-1).as_u64(), 0xFFFF_FFFF_FFFF_FFFF);
    assert_eq!(Value::I8(i8::MIN).as_u64(), 0xFFFF_FFFF_FFFF_FF80);
    assert_eq!(Value::I16(-2).as_u64(), 0xFFFF_FFFF_FFFF_FFFE);
    assert_eq!(Value::I32(-666).as_u64(), 0xFFFF_FFFF_FFFF_FD66);
    assert_eq!(Value::I32(i32::MIN).as_u64(), 0xFFFF_FFFF_8000_0000);
    assert_eq!(Value::I64(-1).as_u64(), u64::MAX);
    assert_eq!(Value::I64(i64::MIN).as_u64(), 0x8000_0000_0000_0000);
    assert_eq!(Value::I64(42).as_u64(), 42);
}

#[test]
fn new_function_is_a_private_leaf() {
    let func = Function::new("_f".to_string());
    assert_eq!(func.name(), "_f");
    assert!(!func.is_public());
    assert!(func.is_leaf());
    assert!(func.instructions().is_empty());
    assert!(func.args().is_empty());
    assert!(func.stack_slots().is_empty());
}

#[test]
fn make_public_changes_nothing_else() {
    let mut func = Function::new("_f".to_string());
    let tmp = func.add_inst_set(Value::U8(1));
    func.add_inst_store(tmp);
    func.make_public();
    assert!(func.is_public());
    assert!(func.is_leaf());
    assert_eq!(func.name(), "_f");
    assert_eq!(func.instructions().len(), 2);
    assert_eq!(func.stack_slots().len(), 1);
}

#[test]
fn temporaries_are_numbered_in_order() {
    let mut func = Function::new("_f".to_string());
    let arg = func.add_arg(Size::QuadWord, false);
    let tmp_0 = func.add_inst_set(Value::I16(-3));
    let tmp_1 = func.add_inst_load(arg);
    let tmp_2 = func.add_inst_call_result(Size::Byte, true);
    let tmp_3 = func.add_inst_add(tmp_1, tmp_1);
    assert_eq!(tmp_0.id(), 0);
    assert_eq!(tmp_0.size(), Size::Word);
    assert!(tmp_0.is_signed());
    assert_eq!(tmp_1.id(), 1);
    assert_eq!(tmp_1.size(), Size::QuadWord);
    assert!(!tmp_1.is_signed());
    assert_eq!(tmp_2.id(), 2);
    assert_eq!(tmp_2.size(), Size::Byte);
    assert!(tmp_2.is_signed());
    assert_eq!(tmp_3.id(), 3);
    assert_eq!(tmp_3.size(), Size::QuadWord);
    assert!(!tmp_3.is_signed());
}

#[test]
fn sum_is_signed_if_either_operand_is() {
    let mut func = Function::new("_f".to_string());
    let signed = func.add_inst_set(Value::I32(1));
    let unsigned = func.add_inst_set(Value::U32(1));
    assert!(func.add_inst_add(signed, unsigned).is_signed());
    assert!(func.add_inst_add(unsigned, signed).is_signed());
    assert!(func.add_inst_add(signed, signed).is_signed());
    assert!(!func.add_inst_add(unsigned, unsigned).is_signed());
}

#[test]
fn instructions_are_appended_in_order() {
    let mut func = Function::new("_f".to_string());
    let arg = func.add_arg(Size::DoubleWord, true);
    let tmp_0 = func.add_inst_set(Value::I32(7));
    let tmp_1 = func.add_inst_load(arg);
    let tmp_2 = func.add_inst_add(tmp_0, tmp_1);
    let slot = func.add_inst_store(tmp_2);
    func.add_inst_call("_g".to_string(), vec![tmp_2, tmp_0]);
    let tmp_3 = func.add_inst_call_result(Size::DoubleWord, true);
    func.add_inst_return(Some(tmp_3));
    func.add_inst_return(None);

    let instructions = func.instructions();
    assert_eq!(instructions.len(), 8);
    assert!(matches!(
        &instructions[0],
        Instruction::SetValue { dest, src: Value::I32(7) } if *dest == tmp_0
    ));
    assert!(matches!(
        &instructions[1],
        Instruction::Load { dest, src } if *dest == tmp_1 && *src == arg
    ));
    assert!(matches!(
        &instructions[2],
        Instruction::Add { dest, src_1, src_2 }
            if *dest == tmp_2 && *src_1 == tmp_0 && *src_2 == tmp_1
    ));
    assert!(matches!(
        &instructions[3],
        Instruction::Store { dest, src } if *dest == slot && *src == tmp_2
    ));
    assert!(matches!(
        &instructions[4],
        Instruction::Call { func, args } if func == "_g" && *args == vec![tmp_2, tmp_0]
    ));
    assert!(matches!(
        &instructions[5],
        Instruction::CallResult { dest } if *dest == tmp_3
    ));
    assert!(matches!(
        &instructions[6],
        Instruction::Return { src: Some(src) } if *src == tmp_3
    ));
    assert!(matches!(&instructions[7], Instruction::Return { src: None }));
}

#[test]
fn leaf_until_the_first_call() {
    let mut func = Function::new("_f".to_string());
    let arg = func.add_arg(Size::DoubleWord, true);
    assert!(func.is_leaf());
    let tmp = func.add_inst_load(arg);
    assert!(func.is_leaf());
    func.add_inst_store(tmp);
    assert!(func.is_leaf());
    func.add_inst_call_result(Size::DoubleWord, true);
    assert!(func.is_leaf());
    func.add_inst_return(None);
    assert!(func.is_leaf());
    func.add_inst_call("_g".to_string(), vec![]);
    assert!(!func.is_leaf());
    func.add_inst_return(None);
    assert!(!func.is_leaf());
    let calls = func
        .instructions()
        .iter()
        .filter(|inst| matches!(inst, Instruction::Call { .. }))
        .count();
    assert_eq!(calls, 1);
}

#[test]
fn labels_carry_their_identifier() {
    assert_eq!(Label::new(7).id(), 7);
    assert_eq!(Label::new(7), Label { id: 7 });
}

#[test]
fn module_mints_labels_in_order() {
    let mut module = Module::new();
    assert_eq!(module.label_count(), 0);
    assert_eq!(module.next_label().id(), 0);
    assert_eq!(module.next_label().id(), 1);
    assert_eq!(module.label_count(), 2);
}

#[test]
fn module_keeps_functions_in_order() {
    let mut module = Module::new();
    assert!(module.funcs().is_empty());
    module.add_func(Function::new("_first".to_string()));
    module.add_func(Function::new("_second".to_string()));
    let names: Vec<&str> = module.funcs().iter().map(|func| func.name()).collect();
    assert_eq!(names, vec!["_first", "_second"]);
}
