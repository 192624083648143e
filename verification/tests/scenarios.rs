use lube::ir::{Function, Module, Size, Value};

fn lines(text: &str) -> Vec<&str> {
    text.split('\n').collect()
}

#[test]
fn constant_return() {
    let mut module = Module::new();
    let mut func = Function::new("_deepThink".to_string());
    func.make_public();
    let tmp = func.add_inst_set(Value::I32(42));
    func.add_inst_return(Some(tmp));
    module.add_func(func);

    let text = module.generate_asm().to_text();
    assert_eq!(
        text,
        "\
.global _deepThink
.align 2
_deepThink:
    mov w0, #42
    mov w0, w0
    b label_0
label_0:
    ret

"
    );
    assert!(!text.contains("sub sp"));
}

#[test]
fn two_arg_add() {
    let mut module = Module::new();
    let mut func = Function::new("_add".to_string());
    func.make_public();
    let arg_0 = func.add_arg(Size::DoubleWord, true);
    let arg_1 = func.add_arg(Size::DoubleWord, true);
    let tmp_0 = func.add_inst_load(arg_0);
    let tmp_1 = func.add_inst_load(arg_1);
    let tmp_2 = func.add_inst_add(tmp_0, tmp_1);
    func.add_inst_return(Some(tmp_2));
    module.add_func(func);

    let text = module.generate_asm().to_text();
    assert_eq!(
        text,
        "\
.global _add
.align 2
_add:
    sub sp, sp, #16
    str w0, [sp, #12]
    str w1, [sp, #8]
    ldr w8, [sp, #12]
    ldr w9, [sp, #8]
    add w0, w8, w9
    mov w0, w0
    b label_0
label_0:
    add sp, sp, #16
    ret

"
    );
}

#[test]
fn ten_argument_sink() {
    let mut module = Module::new();
    let mut func = Function::new("_why_would_you_do_this".to_string());
    for _ in 0..10 {
        func.add_arg(Size::DoubleWord, true);
    }
    func.add_inst_return(None);
    module.add_func(func);

    let text = module.generate_asm().to_text();
    assert_eq!(
        text,
        "\
.align 2
_why_would_you_do_this:
    sub sp, sp, #48
    str w0, [sp, #44]
    str w1, [sp, #40]
    str w2, [sp, #36]
    str w3, [sp, #32]
    str w4, [sp, #28]
    str w5, [sp, #24]
    str w6, [sp, #20]
    str w7, [sp, #16]
    ldr w9, [sp, #48]
    str w9, [sp, #12]
    ldr w9, [sp, #52]
    str w9, [sp, #8]
    b label_0
label_0:
    add sp, sp, #48
    ret

"
    );
    assert!(!text.contains(".global"));
}

#[test]
fn mixed_width_locals() {
    let mut module = Module::new();
    let mut func = Function::new("_variables".to_string());
    func.make_public();
    let tmp_0 = func.add_inst_set(Value::I8(33));
    func.add_inst_store(tmp_0);
    let tmp_1 = func.add_inst_set(Value::U16(69));
    func.add_inst_store(tmp_1);
    let tmp_2 = func.add_inst_set(Value::I32(-666));
    func.add_inst_store(tmp_2);
    let tmp_3 = func.add_inst_set(Value::U64(9876543210));
    func.add_inst_store(tmp_3);
    module.add_func(func);

    let text = module.generate_asm().to_text();
    assert_eq!(
        text,
        "\
.global _variables
.align 2
_variables:
    sub sp, sp, #16
    mov w8, #33
    strb w8, [sp, #15]
    mov w8, #69
    strh w8, [sp, #12]
    mov w8, #64870
    movk w8, #65535, lsl #16
    str w8, [sp, #8]
    mov x8, #5866
    movk x8, #19632, lsl #16
    movk x8, #2, lsl #32
    str x8, [sp]
label_0:
    add sp, sp, #16
    ret

"
    );
    let movk_of_wide = lines(&text).iter().filter(|line| line.starts_with("    movk x8")).count();
    assert_eq!(movk_of_wide, 2);
}

#[test]
fn inter_procedural_call() {
    let mut module = Module::new();

    let mut func_1 = Function::new("_add".to_string());
    func_1.make_public();
    let arg_0 = func_1.add_arg(Size::DoubleWord, true);
    let arg_1 = func_1.add_arg(Size::DoubleWord, true);
    let tmp_0 = func_1.add_inst_load(arg_0);
    let tmp_1 = func_1.add_inst_load(arg_1);
    let tmp_2 = func_1.add_inst_add(tmp_0, tmp_1);
    func_1.add_inst_return(Some(tmp_2));
    module.add_func(func_1);

    let mut func_2 = Function::new("_main".to_string());
    func_2.make_public();
    let tmp_0 = func_2.add_inst_set(Value::I32(2));
    let var_0 = func_2.add_inst_store(tmp_0);
    let tmp_1 = func_2.add_inst_set(Value::I32(-2));
    let var_1 = func_2.add_inst_store(tmp_1);
    let tmp_2 = func_2.add_inst_load(var_0);
    let tmp_3 = func_2.add_inst_load(var_1);
    func_2.add_inst_call("_add".to_string(), vec![tmp_2, tmp_3]);
    let tmp_4 = func_2.add_inst_call_result(Size::DoubleWord, true);
    func_2.add_inst_return(Some(tmp_4));
    assert!(!func_2.is_leaf());
    module.add_func(func_2);

    let text = module.generate_asm().to_text();
    assert_eq!(
        text,
        "\
.global _add
.align 2
_add:
    sub sp, sp, #16
    str w0, [sp, #12]
    str w1, [sp, #8]
    ldr w8, [sp, #12]
    ldr w9, [sp, #8]
    add w0, w8, w9
    mov w0, w0
    b label_0
label_0:
    add sp, sp, #16
    ret

.global _main
.align 2
_main:
    sub sp, sp, #32
    stp x29, x30, [sp, #16]
    add x29, sp, #16
    mov w8, #2
    str w8, [sp, #12]
    mov w8, #65534
    movk w8, #65535, lsl #16
    str w8, [sp, #8]
    ldr w0, [sp, #12]
    ldr w1, [sp, #8]
    mov w0, w0
    mov w1, w1
    bl _add
    mov w0, w0
    mov w0, w0
    b label_1
label_1:
    ldp x29, x30, [sp, #16]
    add sp, sp, #32
    ret

"
    );
}

#[test]
fn narrow_signed_add_round_trip() {
    let mut module = Module::new();
    let mut func = Function::new("_signed_add".to_string());
    func.make_public();
    let arg_0 = func.add_arg(Size::Word, true);
    let arg_1 = func.add_arg(Size::Word, true);
    let tmp_0 = func.add_inst_load(arg_0);
    let tmp_1 = func.add_inst_load(arg_1);
    let tmp_2 = func.add_inst_add(tmp_0, tmp_1);
    let var_2 = func.add_inst_store(tmp_2);
    let tmp_3 = func.add_inst_load(var_2);
    func.add_inst_return(Some(tmp_3));
    module.add_func(func);

    let text = module.generate_asm().to_text();
    assert_eq!(
        text,
        "\
.global _signed_add
.align 2
_signed_add:
    sub sp, sp, #16
    strh w0, [sp, #14]
    strh w1, [sp, #12]
    ldrsh w8, [sp, #14]
    ldrsh w9, [sp, #12]
    add w8, w8, w9
    strh w8, [sp, #10]
    ldrsh w0, [sp, #10]
    mov w0, w0
    b label_0
label_0:
    add sp, sp, #16
    ret

"
    );
}
