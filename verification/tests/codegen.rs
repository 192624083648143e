use lube::codegen::arm64::{
    gen_asm as gen_arm64, gen_proc_asm, gen_proc_epilogue, gen_proc_prologue, Asm as Arm64Asm,
    Instruction,
};
use lube::codegen::ir::{Module, Procedure, Type, Variable};
use lube::codegen::{gen_asm, Asm, Target};

fn two_procedures() -> Module {
    let mut module = Module::new();
    let mut first = Procedure::new("_first".to_string());
    first.add_arg(Type::Byte);
    first.add_arg(Type::QuadWord);
    module.add_proc(first);
    module.add_proc(Procedure::new("_second".to_string()));
    module
}

#[test]
fn variables_carry_their_number() {
    assert_eq!(Variable::new(3), Variable { id: 3 });
    assert_eq!(Variable::new(0).id, 0);
}

#[test]
fn procedure_keeps_its_name() {
    let mut procedure = Procedure::new("_p".to_string());
    assert_eq!(procedure.name(), "_p");
    procedure.add_arg(Type::Word);
    procedure.add_arg(Type::DoubleWord);
    assert_eq!(procedure.name(), "_p");
}

#[test]
fn module_keeps_procedures_in_order() {
    assert!(Module::new().procs().is_empty());
    let module = two_procedures();
    let names: Vec<String> = module.procs().iter().map(|procedure| procedure.name()).collect();
    assert_eq!(names, vec!["_first", "_second"]);
}

#[test]
fn label_line_ends_in_colon_and_line_break() {
    let label = Instruction::label("_entry".to_string());
    assert_eq!(label.to_text(), "_entry:\n");
    assert_eq!(label.as_bytes(), b"_entry:\n");
    assert_eq!(Instruction::label(String::new()).to_text(), ":\n");
}

#[test]
fn return_line() {
    assert_eq!(Instruction::ret().to_text(), "    ret\n");
    assert_eq!(Instruction::ret().as_bytes(), b"    ret\n");
}

#[test]
fn label_bytes_are_utf8() {
    let label = Instruction::label("_gr\u{fc}n".to_string());
    assert_eq!(label.as_bytes(), "_gr\u{fc}n:\n".as_bytes());
    assert_eq!(label.as_bytes().len(), 8);
}

#[test]
fn lines_are_appended_in_order() {
    let mut program = Arm64Asm::new();
    assert_eq!(program.to_text(), "");
    program.add_inst(Instruction::ret());
    program.add_inst(Instruction::label("_l".to_string()));
    program.add_inst(Instruction::ret());
    assert_eq!(program.to_text(), "    ret\n_l:\n    ret\n");
}

#[test]
fn frame_of_one_procedure() {
    let procedure = Procedure::new("_p".to_string());
    let mut program = Arm64Asm::new();
    gen_proc_prologue(&procedure, &mut program);
    assert_eq!(program.to_text(), "_p:\n");
    gen_proc_epilogue(&procedure, &mut program);
    assert_eq!(program.to_text(), "_p:\n    ret\n");
    gen_proc_asm(&procedure, &mut program);
    assert_eq!(program.to_text(), "_p:\n    ret\n_p:\n    ret\n");
}

#[test]
fn frames_of_a_module() {
    let module = two_procedures();
    assert_eq!(
        gen_arm64(&module).to_text(),
        "_first:\n    ret\n_second:\n    ret\n"
    );
    assert_eq!(gen_arm64(&Module::new()).to_text(), "");
}

#[test]
fn generation_by_target() {
    let module = two_procedures();
    let expected = "_first:\n    ret\n_second:\n    ret\n";
    let program = gen_asm(&module, Target::AppleArm64);
    assert!(matches!(program, Asm::Arm64(_)));
    assert_eq!(program.to_text(), expected);
    assert_eq!(module.generate_asm(Target::AppleArm64).to_text(), expected);
}
