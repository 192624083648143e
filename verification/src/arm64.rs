//! The AArch64 back end: registers, instructions, their assembly text, and
//! the lowering of the intermediate representation to them.

pub mod instruction;
pub mod lower;
pub mod lowerable;
pub mod register;

pub use instruction::{Instruction, InstructionView};
pub use lowerable::{can_lower, can_lower_function};
pub use register::{
    arg_register, get_correct_offset, usable_registers, Register, RegisterNumber,
};

use vstd::prelude::*;
use vstd::string::*;
use crate::arm64::instruction::views;
use crate::arm64::lower::{
    entry, epilogue, inst_lowerable, lemma_incoming_fits, lemma_incoming_step,
    lemma_lowerable_inst, lemma_outgoing_monotone, lower_body, lower_function, lower_funcs,
    lower_inst, lower_module, lowerable, module_lowerable, offsets_of, open_frame,
    outgoing_offset, pass_arg, prologue, save_frame_registers, stack_args, store_arg, store_args,
    total_frame,
};
use crate::arm64::register::palette;
use crate::graph::allocation;
use crate::ir::{self, Function, Label, Module, ModuleView, StackSlot, Temporary};
use crate::layout::{packed_size, round_up};
use crate::util::RegisterAllocator;

verus! {

/// The text of a sequence of instructions: their lines, each closed by a
/// line break.
pub open spec fn text_of(instructions: Seq<InstructionView>) -> Seq<char>
    decreases instructions.len(),
{
    if instructions.len() == 0 {
        Seq::empty()
    } else {
        text_of(instructions.drop_last()) + instructions.last().text() + "\n"@
    }
}

/// What is emitted is decided by the functions of the module and by the
/// number of its next label: two modules that agree in both are lowered to
/// the same instructions and the same text.
pub proof fn lemma_emission_repeatable(first: ModuleView, second: ModuleView)
    requires
        first.funcs == second.funcs,
        first.next_label == second.next_label,
    ensures
        lower_module(first) == lower_module(second),
        text_of(lower_module(first)) == text_of(lower_module(second)),
{
}

/// The view of a sequence with one more instruction.
proof fn lemma_views_push(instructions: Seq<Instruction>, inst: Instruction)
    ensures
        views(instructions.push(inst)) == views(instructions).push(inst@),
{
    assert(views(instructions.push(inst)) =~= views(instructions).push(inst@));
}

/// A program in assembly: the lines that were emitted, in order.
pub struct Asm {
    instructions: Vec<Instruction>,
}

impl View for Asm {
    type V = Seq<InstructionView>;

    closed spec fn view(&self) -> Seq<InstructionView> {
        views(self.instructions@)
    }
}

impl Asm {
    /// A program without lines.
    pub fn new() -> (program: Self)
        ensures
            program@ == Seq::<InstructionView>::empty(),
    {
        let program = Self { instructions: Vec::new() };
        assert(program@ =~= Seq::<InstructionView>::empty());
        program
    }

    fn push(&mut self, inst: Instruction)
        ensures
            final(self)@ == old(self)@.push(inst@),
    {
        proof {
            lemma_views_push(self.instructions@, inst);
        }
        self.instructions.push(inst);
    }

    /// Lowers every function of `module`, in order. Each function gets the
    /// next label of the module for its returns.
    pub fn from_module(module: &mut Module) -> (program: Self)
        requires
            old(module)@.wf(),
            module_lowerable(old(module)@),
        ensures
            program@ == lower_module(old(module)@),
            final(module)@ == (ModuleView {
                next_label: old(module)@.next_label + old(module)@.funcs.len(),
                ..old(module)@
            }),
    {
        let mut program = Self::new();
        let n: usize = module.funcs().len();
        let ghost before = module@;
        let mut i: usize = 0;
        while i < n
            invariant
                i <= n,
                n == before.funcs.len(),
                before.wf(),
                module_lowerable(before),
                module@ == (ModuleView { next_label: before.next_label + i as nat, ..before }),
                program@ == lower_funcs(before.funcs, before.next_label, i as int),
            decreases n - i,
        {
            let return_label = module.next_label();
            let func = &module.funcs()[i];
            let ghost view = before.funcs[i as int];
            assert(func@ == view);
            assert(view.wf());
            assert(lowerable(view));
            let reg_map = RegisterAllocator::new().allocate(
                func.instructions().as_slice(),
                usable_registers(),
            ).unwrap();
            let offsets = func.generate_stack_slot_offsets();
            assert(offsets@ =~= offsets_of(view.stack_slots));
            let ghost emitted = program@;

            program.generate_func_prologue(func, &offsets);

            let instructions = func.instructions();
            let mut k: usize = 0;
            while k < instructions.len()
                invariant
                    k <= instructions@.len(),
                    instructions@ == view.instructions,
                    func@ == view,
                    view.wf(),
                    lowerable(view),
                    allocation(view.instructions, palette()) == Some(reg_map@),
                    offsets@ == offsets_of(view.stack_slots),
                    program@ == emitted + prologue(view, offsets@) + lower_body(
                        view.instructions,
                        reg_map@,
                        offsets@,
                        return_label,
                        k as int,
                    ),
                decreases instructions@.len() - k,
            {
                proof {
                    lemma_lowerable_inst(view, k as int);
                }
                program.add_inst(
                    func.is_leaf(),
                    &instructions[k],
                    &reg_map,
                    &offsets,
                    return_label,
                );
                assert(program@ =~= emitted + prologue(view, offsets@) + lower_body(
                    view.instructions,
                    reg_map@,
                    offsets@,
                    return_label,
                    k + 1,
                ));
                k += 1;
            }

            program.generate_func_epilogue(func, return_label);
            program.push(Instruction::Empty);
            proof {
                assert(return_label == (Label { id: (before.next_label + i) as usize }));
                assert(program@ =~= emitted + lower_function(view, reg_map@, return_label));
            }
            i += 1;
        }
        program
    }

    /// Emits the prologue of `func`, whose slots lie at `stack_slot_offsets`:
    /// the directives and the label of the entry, the room for the frame,
    /// the saving of the frame and link registers in a function that calls,
    /// and the storing of each argument in its slot.
    pub fn generate_func_prologue(&mut self, func: &Function, stack_slot_offsets: &Vec<u16>)
        requires
            func@.wf(),
            total_frame(func@) < 0x1000,
            stack_slot_offsets@.len() == func@.stack_slots.len(),
        ensures
            final(self)@ == old(self)@ + prologue(func@, stack_slot_offsets@),
    {
        let ghost view = func@;
        let ghost offsets = stack_slot_offsets@;
        let ghost start = self@;
        // .global func_name
        if func.is_public() {
            let mut global = String::from_str(".global ");
            global.append(func.name());
            self.push(Instruction::custom(global));
        }
        // .align 2
        self.push(Instruction::custom(String::from_str(".align 2")));

        // func_name:
        let mut name = String::new();
        name.append(func.name());
        name.append(":");
        assert(name@ =~= view.name + ":"@);
        self.push(Instruction::custom(name));
        assert(self@ =~= start + entry(view));

        // sub sp, stack size
        let stack_size: u16 = func.stack_size();
        let func_stack_size: u16 = stack_size + if !func.is_leaf() {
            16
        } else {
            0
        };
        if func_stack_size != 0 {
            self.push(Instruction::sub_imm(Register::sp(), Register::sp(), func_stack_size));
        }
        assert(self@ =~= start + entry(view) + open_frame(view));

        // Store x29, x30 if needed
        if !func.is_leaf() {
            // stp x29, x30, [sp, stack size]
            let inst = Instruction::stp(
                Register::x29(),
                Register::x30(),
                Register::sp(),
                stack_size,
            );
            self.push(inst);

            // add x29, sp, 16
            let inst = Instruction::add_imm(Register::x29(), Register::sp(), 16);
            self.push(inst);
        }
        assert(self@ =~= start + entry(view) + open_frame(view) + save_frame_registers(view));
        let ghost head = self@;

        // Store args in stack slots
        let args = func.args();
        let mut arg_num: usize = 0;
        let mut additional_args_offset: u16 = 0;
        while arg_num < args.len()
            invariant
                arg_num <= args@.len(),
                args@ == view.args,
                view.wf(),
                total_frame(view) < 0x1000,
                func_stack_size == total_frame(view),
                offsets == stack_slot_offsets@,
                offsets.len() == view.stack_slots.len(),
                additional_args_offset == packed_size(stack_args(view.args, arg_num as int)),
                self@ == head + store_args(view, offsets, arg_num as int),
            decreases args@.len() - arg_num,
        {
            let arg: StackSlot = args[arg_num];
            assert(view.owns_slot(view.args[arg_num as int]));
            let offset: u16 = stack_slot_offsets[arg.id()];
            let ghost so_far = self@;
            if arg_num < 8 {
                let arg_reg = arg_register(arg_num as u8, arg.size()).unwrap();
                self.push(Instruction::str(arg_reg, Register::sp(), offset));
            } else {
                proof {
                    lemma_incoming_fits(view, arg_num as int);
                    lemma_incoming_step(view.args, arg_num as int);
                }
                additional_args_offset = round_up(additional_args_offset, arg.size().in_bytes());
                self.push(
                    Instruction::ldr(
                        Register::r9(arg.size()),
                        Register::sp(),
                        func_stack_size + additional_args_offset,
                        arg.is_signed(),
                    ),
                );
                additional_args_offset += arg.size().in_bytes();
                self.push(Instruction::str(Register::r9(arg.size()), Register::sp(), offset));
            }
            assert(self@ =~= so_far + store_arg(view, offsets, arg_num as int));
            assert(self@ =~= head + store_args(view, offsets, arg_num + 1));
            arg_num += 1;
        }
        assert(self@ =~= start + prologue(view, offsets));
    }

    /// Emits the epilogue of `func`: the label to which its returns
    /// branch, the restoring of the frame and link registers in a function
    /// that calls, the release of the frame, and the return.
    pub fn generate_func_epilogue(&mut self, func: &Function, return_label: Label)
        requires
            total_frame(func@) < 0x1000,
        ensures
            final(self)@ == old(self)@ + epilogue(func@, return_label),
    {
        let ghost start = self@;
        let stack_size: u16 = func.stack_size();

        // return_label:
        self.push(Instruction::label(return_label));

        // Load x29, x30 if needed
        if !func.is_leaf() {
            // ldp x29, x30, [sp, stack size]
            let inst = Instruction::ldp(
                Register::x29(),
                Register::x30(),
                Register::sp(),
                stack_size,
            );
            self.push(inst);
        }
        // add sp, stack size

        let func_stack_size: u16 = stack_size + if !func.is_leaf() {
            16
        } else {
            0
        };
        if func_stack_size != 0 {
            self.push(Instruction::add_imm(Register::sp(), Register::sp(), func_stack_size));
        }
        // ret

        self.push(Instruction::ret());
        assert(self@ =~= start + epilogue(func@, return_label));
    }

    /// Emits the instructions for `inst`, an instruction of a function
    /// whose temporaries live in `reg_map`, whose slots lie at
    /// `stack_slot_offsets` and whose returns branch to `return_label`.
    pub fn add_inst(
        &mut self,
        func_is_leaf: bool,
        inst: &ir::Instruction,
        reg_map: &Vec<Register>,
        stack_slot_offsets: &Vec<u16>,
        return_label: Label,
    )
        requires
            inst_lowerable(*inst, reg_map@.len(), stack_slot_offsets@.len()),
        ensures
            final(self)@ == old(self)@ + lower_inst(
                *inst,
                reg_map@,
                stack_slot_offsets@,
                return_label,
            ),
    {
        let ghost start = self@;
        let ghost lowered = lower_inst(*inst, reg_map@, stack_slot_offsets@, return_label);
        match inst {
            ir::Instruction::SetValue { dest, src } => {
                let reg = reg_map[dest.id()];
                let mut chain = Instruction::mov_imm(reg, src.as_u64());
                let ghost emitted = self.instructions@;
                let ghost added = chain@;
                self.instructions.append(&mut chain);
                assert(views(emitted + added) =~= views(emitted) + views(added));
            },
            ir::Instruction::Load { dest, src } => {
                let dest_reg = reg_map[dest.id()];
                let offset: u16 = stack_slot_offsets[src.id()];
                let offset: u16 = get_correct_offset(func_is_leaf, offset);

                let inst = Instruction::ldr(dest_reg, Register::sp(), offset, src.is_signed());
                self.push(inst);
            },
            ir::Instruction::Add { dest, src_1, src_2 } => {
                assert(inst.used()[0] == *src_1);
                assert(inst.used()[1] == *src_2);
                let src_1_reg = reg_map[src_1.id()];
                let src_2_reg = reg_map[src_2.id()];
                let dest_reg = reg_map[dest.id()];

                let inst = Instruction::add(dest_reg, src_1_reg, src_2_reg);
                self.push(inst);
            },
            ir::Instruction::Return { src } => {
                if let Some(src) = src {
                    assert(inst.used()[0] == *src);
                    let src_reg = reg_map[src.id()];

                    let inst = Instruction::mov(Register::r0(src_reg.size()), src_reg);
                    self.push(inst);
                }
                let inst = Instruction::b(return_label);
                self.push(inst);
            },
            ir::Instruction::Store { dest, src } => {
                assert(inst.used()[0] == *src);
                let src_reg = reg_map[src.id()];
                let offset: u16 = stack_slot_offsets[dest.id()];
                let offset: u16 = get_correct_offset(func_is_leaf, offset);

                let inst = Instruction::str(src_reg, Register::sp(), offset);
                self.push(inst);
            },
            ir::Instruction::Call { func, args } => {
                // Store args in correct registers/stack
                let mut arg_num: usize = 0;
                let mut additional_args_offset: u16 = 0;
                while arg_num < args.len()
                    invariant
                        arg_num <= args@.len(),
                        inst.used() == args@,
                        inst_lowerable(*inst, reg_map@.len(), stack_slot_offsets@.len()),
                        additional_args_offset == outgoing_offset(args@, arg_num as int),
                        self@ == start + Seq::new(
                            arg_num as nat,
                            |p: int| pass_arg(args@, reg_map@, p),
                        ),
                    decreases args@.len() - arg_num,
                {
                    let arg: Temporary = args[arg_num];
                    assert(inst.used()[arg_num as int] == arg);
                    let value_reg = reg_map[arg.id()];
                    if arg_num < 8 {
                        let arg_reg = arg_register(arg_num as u8, arg.size()).unwrap();
                        let inst = Instruction::mov(arg_reg, value_reg);
                        self.push(inst);
                    } else {
                        proof {
                            lemma_outgoing_monotone(args@, arg_num + 1, args@.len() as int);
                        }
                        let inst = Instruction::str(
                            value_reg,
                            Register::sp(),
                            additional_args_offset,
                        );
                        self.push(inst);
                        additional_args_offset += arg.size().in_bytes();
                    }
                    assert(self@ =~= start + Seq::new(
                        (arg_num + 1) as nat,
                        |p: int| pass_arg(args@, reg_map@, p),
                    ));
                    arg_num += 1;
                }

                // Call func
                let inst = Instruction::bl(func.clone());
                self.push(inst);
            },
            ir::Instruction::CallResult { dest } => {
                let dest_reg = reg_map[dest.id()];

                // mov dest_reg, x0
                let inst = Instruction::mov(dest_reg, Register::r0(dest_reg.size()));
                self.push(inst);
            },
        }
        assert(self@ =~= start + lowered);
    }

    /// The whole program as text: every line, each closed by a line break.
    pub fn to_text(&self) -> (text: String)
        ensures
            text@ == text_of(self@),
    {
        let mut text = String::new();
        let mut i: usize = 0;
        while i < self.instructions.len()
            invariant
                i <= self.instructions@.len(),
                text@ == text_of(self@.take(i as int)),
            decreases self.instructions@.len() - i,
        {
            proof {
                assert(self@.take(i + 1).drop_last() =~= self@.take(i as int));
            }
            text.append(self.instructions[i].to_text().as_str());
            text.append("\n");
            i += 1;
        }
        proof {
            assert(self@.take(i as int) =~= self@);
        }
        text
    }
}

} // verus!
