//! What the back end emits for a function: the instructions of its
//! prologue, of each instruction of the intermediate representation, and
//! of its epilogue.

use vstd::prelude::*;
use crate::arm64::instruction::{mov_imm_chain, InstructionView};
use crate::arm64::register::{palette, spec_arg_register, Register, RegisterNumber};
use crate::graph::{
    allocation, interference_graph, lemma_coloring_prefix, lemma_defined_known, preferences,
};
use crate::ir::{
    defs, known, FunctionView, Instruction, Label, ModuleView, Size, StackSlot, Temporary,
};
use crate::layout::{align_up, frame_size, lemma_align_up, packed_size, slot_offset};

verus! {

/// The stack pointer.
pub open spec fn sp() -> Register {
    Register { number: RegisterNumber::SP, size: Size::QuadWord }
}

/// The frame pointer.
pub open spec fn x29() -> Register {
    Register { number: RegisterNumber::R29, size: Size::QuadWord }
}

/// The link register.
pub open spec fn x30() -> Register {
    Register { number: RegisterNumber::R30, size: Size::QuadWord }
}

/// The register of the first argument and of the result, at the given size.
pub open spec fn r0(size: Size) -> Register {
    Register { number: RegisterNumber::R0, size }
}

/// The scratch register, at the given size.
pub open spec fn r9(size: Size) -> Register {
    Register { number: RegisterNumber::R9, size }
}

/// The bytes by which a function moves the stack pointer: the frame of its
/// slots and, if it calls, 16 bytes above them for the frame and link
/// registers.
pub open spec fn total_frame(func: FunctionView) -> nat {
    if func.is_leaf {
        frame_size(func.stack_slots)
    } else {
        frame_size(func.stack_slots) + 16
    }
}

/// The offset of every slot from the stack pointer, by the slot's identifier.
pub open spec fn offsets_of(slots: Seq<StackSlot>) -> Seq<u16> {
    Seq::new(slots.len(), |k: int| slot_offset(slots, k) as u16)
}

/// Those among the first `j` arguments that arrive on the caller's stack:
/// all from the ninth on.
pub open spec fn stack_args(args: Seq<StackSlot>, j: int) -> Seq<StackSlot> {
    if j <= 8 {
        seq![]
    } else {
        args.subrange(8, j)
    }
}

/// Where the argument at position `j`, the ninth or a later one, lies
/// above the frame of the called function: behind the stack arguments
/// before it, at a multiple of its size.
pub open spec fn incoming_offset(args: Seq<StackSlot>, j: int) -> nat {
    align_up(packed_size(stack_args(args, j)), args[j].size().bytes())
}

/// The instructions that bring the argument at position `j` to its slot:
/// from its register, or from the caller's stack through the scratch
/// register.
pub open spec fn store_arg(func: FunctionView, offsets: Seq<u16>, j: int) -> Seq<
    InstructionView,
> {
    let arg = func.args[j];
    let offset = offsets[arg.id() as int];
    if j < 8 {
        seq![
            InstructionView::Str {
                src: spec_arg_register(j as u8, arg.size()).unwrap(),
                addr: sp(),
                offset,
            },
        ]
    } else {
        seq![
            InstructionView::Ldr {
                dest: r9(arg.size()),
                addr: sp(),
                offset: (total_frame(func) + incoming_offset(func.args, j)) as u16,
                signed: arg.is_signed(),
            },
            InstructionView::Str { src: r9(arg.size()), addr: sp(), offset },
        ]
    }
}

/// The instructions that bring the first `k` arguments to their slots.
pub open spec fn store_args(func: FunctionView, offsets: Seq<u16>, k: int) -> Seq<
    InstructionView,
>
    decreases k,
{
    if k <= 0 {
        seq![]
    } else {
        store_args(func, offsets, k - 1) + store_arg(func, offsets, k - 1)
    }
}

/// The head of a function: the directive that makes a public function
/// visible, the alignment and the label of the entry.
pub open spec fn entry(func: FunctionView) -> Seq<InstructionView> {
    if func.is_public {
        seq![
            InstructionView::Custom { string: ".global "@ + func.name },
            InstructionView::Custom { string: ".align 2"@ },
            InstructionView::Custom { string: func.name + ":"@ },
        ]
    } else {
        seq![
            InstructionView::Custom { string: ".align 2"@ },
            InstructionView::Custom { string: func.name + ":"@ },
        ]
    }
}

/// The instruction that makes room for the frame, if it has any size.
pub open spec fn open_frame(func: FunctionView) -> Seq<InstructionView> {
    if total_frame(func) != 0 {
        seq![InstructionView::SubImm { dest: sp(), src_1: sp(), src_2: total_frame(func) as u16 }]
    } else {
        seq![]
    }
}

/// In a function that calls: the instructions that save the frame and link
/// registers above the slots and set the frame pointer.
pub open spec fn save_frame_registers(func: FunctionView) -> Seq<InstructionView> {
    if !func.is_leaf {
        seq![
            InstructionView::Stp {
                src_1: x29(),
                src_2: x30(),
                addr: sp(),
                offset: frame_size(func.stack_slots) as u16,
            },
            InstructionView::AddImm { dest: x29(), src_1: sp(), src_2: 16 },
        ]
    } else {
        seq![]
    }
}

/// The prologue of a function, whose slots lie at `offsets`.
pub open spec fn prologue(func: FunctionView, offsets: Seq<u16>) -> Seq<InstructionView> {
    entry(func) + open_frame(func) + save_frame_registers(func) + store_args(
        func,
        offsets,
        func.args.len() as int,
    )
}

/// The epilogue of a function: the label to which its returns branch, the
/// restoring of the frame and link registers in a function that calls,
/// the release of the frame, and the return.
pub open spec fn epilogue(func: FunctionView, return_label: Label) -> Seq<InstructionView> {
    seq![InstructionView::Label { label: return_label }] + (if !func.is_leaf {
        seq![
            InstructionView::Ldp {
                dest_1: x29(),
                dest_2: x30(),
                addr: sp(),
                offset: frame_size(func.stack_slots) as u16,
            },
        ]
    } else {
        seq![]
    }) + (if total_frame(func) != 0 {
        seq![InstructionView::AddImm { dest: sp(), src_1: sp(), src_2: total_frame(func) as u16 }]
    } else {
        seq![]
    }) + seq![InstructionView::Ret]
}

/// Where a call puts the argument at position `p`, the ninth or a later
/// one, above its stack pointer: behind the stack arguments before it,
/// without padding.
pub open spec fn outgoing_offset(args: Seq<Temporary>, p: int) -> nat
    decreases p,
{
    if p <= 8 {
        0
    } else {
        outgoing_offset(args, p - 1) + args[p - 1].size().bytes()
    }
}

/// The instruction that hands over the argument at position `p` of a
/// call: a move to the register of the position for the first eight, a
/// store to the stack for the others.
pub open spec fn pass_arg(args: Seq<Temporary>, reg_map: Seq<Register>, p: int)
    -> InstructionView {
    if p < 8 {
        InstructionView::MovReg {
            dest: spec_arg_register(p as u8, args[p].size()).unwrap(),
            src: reg_map[args[p].id() as int],
        }
    } else {
        InstructionView::Str {
            src: reg_map[args[p].id() as int],
            addr: sp(),
            offset: outgoing_offset(args, p) as u16,
        }
    }
}

/// The instructions for one instruction of the intermediate
/// representation, where `reg_map` gives the register of each temporary
/// and `offsets` the offset of each slot.
pub open spec fn lower_inst(
    inst: Instruction,
    reg_map: Seq<Register>,
    offsets: Seq<u16>,
    return_label: Label,
) -> Seq<InstructionView> {
    match inst {
        Instruction::SetValue { dest, src } => mov_imm_chain(
            reg_map[dest.id() as int],
            src.bits(),
        ),
        Instruction::Load { dest, src } => seq![
            InstructionView::Ldr {
                dest: reg_map[dest.id() as int],
                addr: sp(),
                offset: offsets[src.id() as int],
                signed: src.is_signed(),
            },
        ],
        Instruction::Add { dest, src_1, src_2 } => seq![
            InstructionView::Add {
                dest: reg_map[dest.id() as int],
                src_1: reg_map[src_1.id() as int],
                src_2: reg_map[src_2.id() as int],
            },
        ],
        Instruction::Return { src: Some(src) } => seq![
            InstructionView::MovReg {
                dest: r0(reg_map[src.id() as int].size),
                src: reg_map[src.id() as int],
            },
            InstructionView::Br { label: return_label },
        ],
        Instruction::Return { src: None } => seq![InstructionView::Br { label: return_label }],
        Instruction::Store { dest, src } => seq![
            InstructionView::Str {
                src: reg_map[src.id() as int],
                addr: sp(),
                offset: offsets[dest.id() as int],
            },
        ],
        Instruction::Call { func, args } => Seq::new(
            args@.len(),
            |p: int| pass_arg(args@, reg_map, p),
        ).push(InstructionView::Bl { func: func@ }),
        Instruction::CallResult { dest } => seq![
            InstructionView::MovReg {
                dest: reg_map[dest.id() as int],
                src: r0(reg_map[dest.id() as int].size),
            },
        ],
    }
}

/// The instructions for the first `k` of `instrs`.
pub open spec fn lower_body(
    instrs: Seq<Instruction>,
    reg_map: Seq<Register>,
    offsets: Seq<u16>,
    return_label: Label,
    k: int,
) -> Seq<InstructionView>
    decreases k,
{
    if k <= 0 {
        seq![]
    } else {
        lower_body(instrs, reg_map, offsets, return_label, k - 1) + lower_inst(
            instrs[k - 1],
            reg_map,
            offsets,
            return_label,
        )
    }
}

/// All that is emitted for a function whose temporaries live in `reg_map`
/// and whose returns branch to `return_label`: prologue, body, epilogue and
/// an empty line.
pub open spec fn lower_function(func: FunctionView, reg_map: Seq<Register>, return_label: Label)
    -> Seq<InstructionView> {
    let offsets = offsets_of(func.stack_slots);
    prologue(func, offsets) + lower_body(
        func.instructions,
        reg_map,
        offsets,
        return_label,
        func.instructions.len() as int,
    ) + epilogue(func, return_label) + seq![InstructionView::Empty]
}

/// All that is emitted for the first `k` functions of a module, the
/// first of which gets the label `first_label` and each later one the next.
/// Every function has its registers from the allocator, over the usable
/// registers.
pub open spec fn lower_funcs(funcs: Seq<FunctionView>, first_label: nat, k: int) -> Seq<
    InstructionView,
>
    decreases k,
{
    if k <= 0 {
        seq![]
    } else {
        lower_funcs(funcs, first_label, k - 1) + lower_function(
            funcs[k - 1],
            allocation(funcs[k - 1].instructions, palette()).unwrap(),
            Label { id: (first_label + k - 1) as usize },
        )
    }
}

/// All that is emitted for a module.
pub open spec fn lower_module(module: ModuleView) -> Seq<InstructionView> {
    lower_funcs(module.funcs, module.next_label, module.funcs.len() as int)
}

/// The instruction can be lowered where `registers` temporaries have a
/// register and `slots` slots an offset: the identifiers of its temporaries
/// and of its slot are below these, and the arguments that a call puts on
/// the stack take no more bytes than an offset can express.
pub open spec fn inst_lowerable(inst: Instruction, registers: nat, slots: nat) -> bool {
    &&& inst.defined() matches Some(dest) ==> dest.id() < registers
    &&& forall|j: int| 0 <= j < inst.used().len() ==> (#[trigger] inst.used()[j]).id() < registers
    &&& inst.slot() matches Some(slot) ==> slot.id() < slots
    &&& outgoing_offset(inst.used(), inst.used().len() as int) <= u16::MAX
}

/// The function can be lowered: it reads only temporaries that it defines
/// and touches only slots of its own; its frame, with the room for the
/// frame and link registers if it calls, is below 4096 bytes, which is
/// what the instructions that move the stack pointer can express; the
/// stack arguments of each of its calls take no more bytes than an offset
/// can express; and the usable registers suffice for its temporaries.
pub open spec fn lowerable(func: FunctionView) -> bool {
    &&& func.closed()
    &&& total_frame(func) < 0x1000
    &&& forall|i: int|
        0 <= i < func.instructions.len() ==> outgoing_offset(
            (#[trigger] func.instructions[i]).used(),
            func.instructions[i].used().len() as int,
        ) <= u16::MAX
    &&& allocation(func.instructions, palette()) is Some
}

/// Every function of the module can be lowered, and the labels for them
/// do not run out.
pub open spec fn module_lowerable(module: ModuleView) -> bool {
    &&& forall|i: int| 0 <= i < module.funcs.len() ==> lowerable(#[trigger] module.funcs[i])
    &&& module.next_label + module.funcs.len() <= usize::MAX
}

/// What a function that can be lowered holds can be lowered one by one.
pub proof fn lemma_lowerable_inst(func: FunctionView, i: int)
    requires
        func.wf(),
        lowerable(func),
        0 <= i < func.instructions.len(),
    ensures
        inst_lowerable(
            func.instructions[i],
            allocation(func.instructions, palette()).unwrap().len(),
            func.stack_slots.len(),
        ),
{
    let instrs = func.instructions;
    let inst = instrs[i];
    lemma_coloring_prefix(
        interference_graph(instrs),
        preferences(instrs),
        palette(),
        defs(instrs).len(),
        0,
    );
    if inst.defined() is Some {
        lemma_defined_known(instrs, i);
    }
    assert forall|j: int| 0 <= j < inst.used().len() implies (#[trigger] inst.used()[j]).id()
        < defs(instrs).len() by {
        assert(known(defs(instrs), instrs[i].used()[j]));
    }
}

/// The offsets of the stack arguments of a call grow with the position.
pub proof fn lemma_outgoing_monotone(args: Seq<Temporary>, p: int, q: int)
    requires
        p <= q,
    ensures
        outgoing_offset(args, p) <= outgoing_offset(args, q),
    decreases q - p,
{
    if p < q {
        lemma_outgoing_monotone(args, p, q - 1);
    }
}

/// The stack arguments up to position `j` and the one at `j` take what
/// those before it take, rounded up to the size of the new one, and the
/// new one.
pub proof fn lemma_incoming_step(args: Seq<StackSlot>, j: int)
    requires
        8 <= j < args.len(),
    ensures
        packed_size(stack_args(args, j + 1)) == incoming_offset(args, j) + args[j].size().bytes(),
{
    assert(stack_args(args, j + 1).drop_last() =~= stack_args(args, j));
}

/// Slots take at least one byte each, and at most fifteen with the padding.
pub proof fn lemma_packed_bounds(slots: Seq<StackSlot>)
    ensures
        slots.len() <= packed_size(slots) <= 15 * slots.len(),
    decreases slots.len(),
{
    if slots.len() > 0 {
        lemma_packed_bounds(slots.drop_last());
        lemma_align_up(packed_size(slots.drop_last()), slots.last().size().bytes());
    }
}

/// A well-formed function has no more arguments than slots.
pub proof fn lemma_args_are_slots(func: FunctionView, j: int)
    requires
        func.wf(),
        0 <= j < func.args.len(),
    ensures
        j <= func.args[j].id() < func.stack_slots.len(),
    decreases j,
{
    assert(func.owns_slot(func.args[j]));
    if j > 0 {
        lemma_args_are_slots(func, j - 1);
    }
}

/// Where a stack argument lies above the stack pointer fits an offset.
pub proof fn lemma_incoming_fits(func: FunctionView, j: int)
    requires
        func.wf(),
        total_frame(func) < 0x1000,
        8 <= j < func.args.len(),
    ensures
        total_frame(func) + incoming_offset(func.args, j) + func.args[j].size().bytes()
            <= u16::MAX,
{
    let before = stack_args(func.args, j);
    lemma_packed_bounds(before);
    lemma_packed_bounds(func.stack_slots);
    lemma_args_are_slots(func, j);
    lemma_align_up(packed_size(before), func.args[j].size().bytes());
    lemma_align_up(packed_size(func.stack_slots), 16);
}

} // verus!
