//! Finding out, before any code is emitted, whether a function or a
//! module can be lowered.

use vstd::prelude::*;
use crate::arm64::lower::{lemma_outgoing_monotone, lowerable, module_lowerable, outgoing_offset};
use crate::arm64::register::usable_registers;
use crate::ir::{
    defs, known, uses_defined, Function, Instruction, Module, StackSlot, Temporary,
};
use crate::layout::{
    frame_size, lemma_align_up, lemma_packed_step, lemma_prefix_fits, packed_size,
};
use crate::util::{collect_defs, RegisterAllocator};

verus! {

/// Whether `tmp` is the temporary that `nodes` hold under its identifier.
fn is_known(nodes: &Vec<Temporary>, tmp: Temporary) -> (found: bool)
    ensures
        found == known(nodes@, tmp),
{
    tmp.id() < nodes.len() && nodes[tmp.id()] == tmp
}

/// Whether every temporary that `inst` reads stands in `nodes` under its
/// identifier.
fn reads_known(inst: &Instruction, nodes: &Vec<Temporary>) -> (all: bool)
    ensures
        all == forall|j: int|
            0 <= j < inst.used().len() ==> known(nodes@, #[trigger] inst.used()[j]),
{
    match inst {
        Instruction::Return { src: Some(src) } => {
            assert(inst.used()[0] == *src);
            is_known(nodes, *src)
        },
        Instruction::Store { src, .. } => {
            assert(inst.used()[0] == *src);
            is_known(nodes, *src)
        },
        Instruction::Add { src_1, src_2, .. } => {
            assert(inst.used()[0] == *src_1);
            assert(inst.used()[1] == *src_2);
            is_known(nodes, *src_1) && is_known(nodes, *src_2)
        },
        Instruction::Call { args, .. } => {
            let mut j: usize = 0;
            while j < args.len()
                invariant
                    j <= args@.len(),
                    inst.used() == args@,
                    forall|k: int| 0 <= k < j ==> known(nodes@, #[trigger] args@[k]),
                decreases args@.len() - j,
            {
                if !is_known(nodes, args[j]) {
                    assert(!known(nodes@, inst.used()[j as int]));
                    return false;
                }
                j += 1;
            }
            true
        },
        _ => true,
    }
}

/// Whether `ir` read only temporaries that they define.
fn reads_defined(ir: &[Instruction]) -> (all: bool)
    ensures
        all == uses_defined(ir@),
{
    let nodes = collect_defs(ir);
    let mut i: usize = 0;
    while i < ir.len()
        invariant
            i <= ir@.len(),
            nodes@ == defs(ir@),
            forall|k: int, j: int|
                0 <= k < i && 0 <= j < ir@[k].used().len() ==> known(
                    nodes@,
                    #[trigger] ir@[k].used()[j],
                ),
        decreases ir@.len() - i,
    {
        if !reads_known(&ir[i], &nodes) {
            proof {
                let j = choose|j: int|
                    0 <= j < ir@[i as int].used().len() && !known(
                        nodes@,
                        #[trigger] ir@[i as int].used()[j],
                    );
                assert(!known(defs(ir@), ir@[i as int].used()[j]));
            }
            return false;
        }
        i += 1;
    }
    true
}

/// Whether the slot that `inst` reads or writes, if any, is the one that
/// `slots` hold under its identifier.
fn slot_owned(inst: &Instruction, slots: &Vec<StackSlot>) -> (owned: bool)
    ensures
        owned == (inst.slot() matches Some(slot) ==> slot.id() < slots@.len()
            && slots@[slot.id() as int] == slot),
{
    match inst {
        Instruction::Load { src, .. } => src.id() < slots.len() && slots[src.id()] == *src,
        Instruction::Store { dest, .. } => dest.id() < slots.len() && slots[dest.id()] == *dest,
        _ => true,
    }
}

/// The size of the frame that holds `slots`, if it is below `limit`.
fn frame_below(slots: &Vec<StackSlot>, limit: u16) -> (size: Option<u16>)
    requires
        0 < limit <= 0x1000,
    ensures
        match size {
            Some(size) => size == frame_size(slots@) && size < limit,
            None => frame_size(slots@) >= limit,
        },
{
    let mut packed: u16 = 0;
    let mut k: usize = 0;
    while k < slots.len()
        invariant
            k <= slots@.len(),
            0 < limit <= 0x1000,
            packed == packed_size(slots@.take(k as int)),
            packed < limit,
        decreases slots@.len() - k,
    {
        let slot_size: u16 = slots[k].size().in_bytes();
        proof {
            lemma_packed_step(slots@, k as int);
            lemma_prefix_fits(slots@, k + 1);
            lemma_align_up(packed as nat, slot_size as nat);
        }
        let rest: u16 = packed % slot_size;
        if rest != 0 {
            packed += slot_size - rest;
        }
        packed += slot_size;
        if packed >= limit {
            return None;
        }
        k += 1;
    }
    proof {
        assert(slots@.take(k as int) =~= slots@);
        lemma_align_up(packed as nat, 16);
    }
    let rest: u16 = packed % 16;
    if rest != 0 {
        packed += 16 - rest;
    }
    if packed >= limit {
        None
    } else {
        Some(packed)
    }
}

/// Whether the arguments that `inst` puts on the stack, if it is a call,
/// take no more bytes than an offset can express.
fn stack_args_fit(inst: &Instruction) -> (fit: bool)
    ensures
        fit == (outgoing_offset(inst.used(), inst.used().len() as int) <= u16::MAX),
{
    match inst {
        Instruction::Call { args, .. } => {
            let mut bytes: u16 = 0;
            let mut p: usize = 0;
            while p < args.len()
                invariant
                    p <= args@.len(),
                    inst.used() == args@,
                    bytes == outgoing_offset(args@, p as int),
                decreases args@.len() - p,
            {
                if p >= 8 {
                    let size: u16 = args[p].size().in_bytes();
                    if size > u16::MAX - bytes {
                        proof {
                            lemma_outgoing_monotone(args@, p + 1, args@.len() as int);
                        }
                        return false;
                    }
                    bytes += size;
                }
                p += 1;
            }
            true
        },
        _ => {
            assert(outgoing_offset(inst.used(), inst.used().len() as int) == 0) by {
                let used = inst.used();
                assert(used.len() <= 2);
            }
            true
        },
    }
}

/// Whether `func` can be lowered.
pub fn can_lower_function(func: &Function) -> (can: bool)
    requires
        func@.wf(),
    ensures
        can == lowerable(func@),
{
    let instructions = func.instructions();
    let slots = func.stack_slots();
    if !reads_defined(instructions.as_slice()) {
        return false;
    }
    let mut i: usize = 0;
    while i < instructions.len()
        invariant
            i <= instructions@.len(),
            instructions@ == func@.instructions,
            slots@ == func@.stack_slots,
            forall|k: int|
                0 <= k < i ==> ((#[trigger] instructions@[k]).slot() matches Some(slot)
                    ==> func@.owns_slot(slot)),
            forall|k: int|
                0 <= k < i ==> outgoing_offset(
                    (#[trigger] instructions@[k]).used(),
                    instructions@[k].used().len() as int,
                ) <= u16::MAX,
        decreases instructions@.len() - i,
    {
        if !slot_owned(&instructions[i], slots) || !stack_args_fit(&instructions[i]) {
            return false;
        }
        i += 1;
    }
    let limit: u16 = if func.is_leaf() {
        0x1000
    } else {
        0x1000 - 16
    };
    if frame_below(slots, limit).is_none() {
        return false;
    }
    RegisterAllocator::new().allocate(instructions.as_slice(), usable_registers()).is_some()
}

/// Whether `module` can be lowered.
pub fn can_lower(module: &Module) -> (can: bool)
    requires
        module@.wf(),
    ensures
        can == module_lowerable(module@),
{
    let funcs = module.funcs();
    if funcs.len() > usize::MAX - module.label_count() {
        return false;
    }
    let mut i: usize = 0;
    while i < funcs.len()
        invariant
            i <= funcs@.len(),
            module@.wf(),
            funcs@.len() == module@.funcs.len(),
            forall|k: int| 0 <= k < funcs@.len() ==> (#[trigger] funcs@[k])@ == module@.funcs[k],
            forall|k: int| 0 <= k < i ==> lowerable(#[trigger] module@.funcs[k]),
        decreases funcs@.len() - i,
    {
        assert(funcs@[i as int]@ == module@.funcs[i as int]);
        assert(module@.funcs[i as int].wf());
        if !can_lower_function(&funcs[i]) {
            return false;
        }
        i += 1;
    }
    true
}

} // verus!
