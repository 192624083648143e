//! The intermediate representation: a module of functions, each a
//! procedure given as a sequence of instructions over temporaries and stack
//! slots, and the builder that appends to it.

use vstd::prelude::*;
use vstd::string::*;
use crate::layout::{
    frame_size, lemma_align_up, lemma_offset_step, lemma_packed_step,
    lemma_prefix_fits, lemma_slot_in_frame, lemma_slots_disjoint, packed_size, round_up,
    slot_offset,
};
use crate::arm64::lower::{lower_module, module_lowerable};
use crate::arm64::Asm;
use crate::util::Iota;

verus! {

/// The width of a value, a temporary or a stack slot.
#[derive(Debug, Clone, Copy, PartialEq, Eq, Hash, Structural)]
pub enum Size {
    Byte,
    Word,
    DoubleWord,
    QuadWord,
}

impl Size {
    /// The number of bytes that a datum of this size occupies.
    pub open spec fn bytes(self) -> nat {
        match self {
            Size::Byte => 1,
            Size::Word => 2,
            Size::DoubleWord => 4,
            Size::QuadWord => 8,
        }
    }

    pub fn in_bytes(self) -> (n: u16)
        ensures
            n == self.bytes(),
    {
        match self {
            Size::Byte => 1,
            Size::Word => 2,
            Size::DoubleWord => 4,
            Size::QuadWord => 8,
        }
    }
}

/// An immediate constant together with its integer type.
#[derive(Debug, Clone, Copy)]
pub enum Value {
    U8(u8),
    U16(u16),
    U32(u32),
    U64(u64),
    I8(i8),
    I16(i16),
    I32(i32),
    I64(i64),
}

impl Value {
    /// The mathematical integer that the constant denotes.
    pub open spec fn to_int(self) -> int {
        match self {
            Value::U8(x) => x as int,
            Value::U16(x) => x as int,
            Value::U32(x) => x as int,
            Value::U64(x) => x as int,
            Value::I8(x) => x as int,
            Value::I16(x) => x as int,
            Value::I32(x) => x as int,
            Value::I64(x) => x as int,
        }
    }

    pub open spec fn spec_size(self) -> Size {
        match self {
            Value::U8(_) | Value::I8(_) => Size::Byte,
            Value::U16(_) | Value::I16(_) => Size::Word,
            Value::U32(_) | Value::I32(_) => Size::DoubleWord,
            Value::U64(_) | Value::I64(_) => Size::QuadWord,
        }
    }

    pub open spec fn spec_is_signed(self) -> bool {
        self is I8 || self is I16 || self is I32 || self is I64
    }

    /// The constant as a 64-bit pattern in two's complement: an unsigned
    /// constant is zero-extended and a signed one sign-extended, so that a
    /// negative constant `x` becomes `2^64 + x`.
    pub open spec fn bits(self) -> u64 {
        if self.to_int() >= 0 {
            self.to_int() as u64
        } else {
            (0x1_0000_0000_0000_0000 + self.to_int()) as u64
        }
    }

    #[verifier::when_used_as_spec(spec_size)]
    pub fn size(self) -> (size: Size)
        ensures
            size == self.spec_size(),
    {
        match self {
            Value::U8(_) => Size::Byte,
            Value::U16(_) => Size::Word,
            Value::U32(_) => Size::DoubleWord,
            Value::U64(_) => Size::QuadWord,
            Value::I8(_) => Size::Byte,
            Value::I16(_) => Size::Word,
            Value::I32(_) => Size::DoubleWord,
            Value::I64(_) => Size::QuadWord,
        }
    }

    pub fn as_u64(self) -> (bits: u64)
        ensures
            bits == self.bits(),
    {
        match self {
            Value::U8(x) => x as u64,
            Value::U16(x) => x as u64,
            Value::U32(x) => x as u64,
            Value::U64(x) => x,
            Value::I8(x) => {
                assert(x as u64 == (if x >= 0 {
                    x as int
                } else {
                    0x1_0000_0000_0000_0000 + x
                }) as u64) by (bit_vector);
                #[verifier::truncate]
                (x as u64)
            },
            Value::I16(x) => {
                assert(x as u64 == (if x >= 0 {
                    x as int
                } else {
                    0x1_0000_0000_0000_0000 + x
                }) as u64) by (bit_vector);
                #[verifier::truncate]
                (x as u64)
            },
            Value::I32(x) => {
                assert(x as u64 == (if x >= 0 {
                    x as int
                } else {
                    0x1_0000_0000_0000_0000 + x
                }) as u64) by (bit_vector);
                #[verifier::truncate]
                (x as u64)
            },
            Value::I64(x) => {
                assert(x as u64 == (if x >= 0 {
                    x as int
                } else {
                    0x1_0000_0000_0000_0000 + x
                }) as u64) by (bit_vector);
                #[verifier::truncate]
                (x as u64)
            },
        }
    }

    #[verifier::when_used_as_spec(spec_is_signed)]
    pub fn is_signed(self) -> (signed: bool)
        ensures
            signed == self.spec_is_signed(),
    {
        match self {
            Value::U8(_) | Value::U16(_) | Value::U32(_) | Value::U64(_) => false,
            Value::I8(_) | Value::I16(_) | Value::I32(_) | Value::I64(_) => true,
        }
    }
}


/// A virtual register: a value that is defined once and used any number of
/// times. Its identifier is unique among the temporaries of one function.
#[derive(Debug, Clone, Copy, PartialEq, Eq, Hash, Structural)]
pub struct Temporary {
    id: usize,
    size: Size,
    signed: bool,
}

impl Temporary {
    pub closed spec fn spec_id(self) -> usize {
        self.id
    }

    pub closed spec fn spec_size(self) -> Size {
        self.size
    }

    pub closed spec fn spec_is_signed(self) -> bool {
        self.signed
    }

    pub(crate) fn new(id: usize, size: Size, signed: bool) -> (tmp: Self)
        ensures
            tmp.id() == id,
            tmp.size() == size,
            tmp.is_signed() == signed,
    {
        Self { id, size, signed }
    }

    #[verifier::when_used_as_spec(spec_id)]
    pub fn id(self) -> (id: usize)
        ensures
            id == self.spec_id(),
    {
        self.id
    }

    #[verifier::when_used_as_spec(spec_size)]
    pub fn size(self) -> (size: Size)
        ensures
            size == self.spec_size(),
    {
        self.size
    }

    #[verifier::when_used_as_spec(spec_is_signed)]
    pub fn is_signed(self) -> (signed: bool)
        ensures
            signed == self.spec_is_signed(),
    {
        self.signed
    }

    /// A temporary is no more than its identifier, size and signedness.
    pub proof fn lemma_same(self, other: Temporary)
        requires
            self.id() == other.id(),
            self.size() == other.size(),
            self.is_signed() == other.is_signed(),
        ensures
            self == other,
    {
    }
}

/// A location in a function's stack frame. Its identifier is its position
/// among the slots of the function, in the order of creation.
#[derive(Debug, Clone, Copy, PartialEq, Eq, Hash, Structural)]
pub struct StackSlot {
    id: usize,
    size: Size,
    signed: bool,
}

impl StackSlot {
    pub closed spec fn spec_id(self) -> usize {
        self.id
    }

    pub closed spec fn spec_size(self) -> Size {
        self.size
    }

    pub closed spec fn spec_is_signed(self) -> bool {
        self.signed
    }

    pub(crate) fn new(id: usize, size: Size, signed: bool) -> (slot: Self)
        ensures
            slot.id() == id,
            slot.size() == size,
            slot.is_signed() == signed,
    {
        Self { id, size, signed }
    }

    #[verifier::when_used_as_spec(spec_id)]
    pub fn id(self) -> (id: usize)
        ensures
            id == self.spec_id(),
    {
        self.id
    }

    #[verifier::when_used_as_spec(spec_size)]
    pub fn size(self) -> (size: Size)
        ensures
            size == self.spec_size(),
    {
        self.size
    }

    #[verifier::when_used_as_spec(spec_is_signed)]
    pub fn is_signed(self) -> (signed: bool)
        ensures
            signed == self.spec_is_signed(),
    {
        self.signed
    }

    /// A slot is no more than its identifier, size and signedness.
    pub proof fn lemma_same(self, other: StackSlot)
        requires
            self.id() == other.id(),
            self.size() == other.size(),
            self.is_signed() == other.is_signed(),
        ensures
            self == other,
    {
    }
}

/// A position in the emitted code that a branch can name.
#[derive(Debug, Clone, Copy, PartialEq, Eq, Structural)]
pub struct Label {
    pub id: usize,
}

impl Label {
    pub fn new(id: usize) -> (label: Self)
        ensures
            label == (Label { id }),
    {
        Self { id }
    }

    pub fn id(&self) -> (id: usize)
        ensures
            id == self.id,
    {
        self.id
    }
}

/// One instruction of the intermediate representation.
#[allow(inconsistent_fields)]
#[derive(Clone)]
pub enum Instruction {
    /// Defines `dest` as the constant `src`.
    SetValue { dest: Temporary, src: Value },
    /// Leaves the function, handing back `src` if there is one.
    Return { src: Option<Temporary> },
    /// Defines `dest` as the content of the slot `src`.
    Load { dest: Temporary, src: StackSlot },
    /// Writes `src` to the slot `dest`.
    Store { dest: StackSlot, src: Temporary },
    /// Defines `dest` as the sum of `src_1` and `src_2`.
    Add { dest: Temporary, src_1: Temporary, src_2: Temporary },
    /// Calls the function named `func` with `args`.
    Call { func: String, args: Vec<Temporary> },
    /// Defines `dest` as what the latest call handed back.
    CallResult { dest: Temporary },
}

impl Instruction {
    /// The temporary that the instruction defines, if it defines one.
    pub open spec fn defined(self) -> Option<Temporary> {
        match self {
            Instruction::SetValue { dest, .. } => Some(dest),
            Instruction::Load { dest, .. } => Some(dest),
            Instruction::Add { dest, .. } => Some(dest),
            Instruction::CallResult { dest } => Some(dest),
            _ => None,
        }
    }

    /// The temporaries that the instruction reads, in the order of its operands.
    pub open spec fn used(self) -> Seq<Temporary> {
        match self {
            Instruction::Return { src: Some(src) } => seq![src],
            Instruction::Store { src, .. } => seq![src],
            Instruction::Add { src_1, src_2, .. } => seq![src_1, src_2],
            Instruction::Call { args, .. } => args@,
            _ => seq![],
        }
    }

    /// The stack slot that the instruction reads or writes, if any.
    pub open spec fn slot(self) -> Option<StackSlot> {
        match self {
            Instruction::Load { src, .. } => Some(src),
            Instruction::Store { dest, .. } => Some(dest),
            _ => None,
        }
    }
}

/// The temporaries that `instrs` define, in the order of their definitions.
pub open spec fn defs(instrs: Seq<Instruction>) -> Seq<Temporary>
    decreases instrs.len(),
{
    if instrs.len() == 0 {
        seq![]
    } else {
        match instrs.last().defined() {
            Some(dest) => defs(instrs.drop_last()).push(dest),
            None => defs(instrs.drop_last()),
        }
    }
}

/// Whether `instrs` hold a call.
pub open spec fn has_call(instrs: Seq<Instruction>) -> bool {
    exists|i: int| 0 <= i < instrs.len() && #[trigger] instrs[i] is Call
}

/// The definitions number the temporaries from zero, in order.
pub open spec fn well_numbered(instrs: Seq<Instruction>) -> bool {
    forall|k: int| 0 <= k < defs(instrs).len() ==> (#[trigger] defs(instrs)[k]).id() == k
}

/// Every temporary that `instrs` read is one that they define.
pub open spec fn uses_defined(instrs: Seq<Instruction>) -> bool {
    forall|i: int, j: int|
        0 <= i < instrs.len() && 0 <= j < instrs[i].used().len() ==> known(
            defs(instrs),
            #[trigger] instrs[i].used()[j],
        )
}

/// `tmp` is the temporary that `nodes` hold under its identifier.
pub open spec fn known(nodes: Seq<Temporary>, tmp: Temporary) -> bool {
    tmp.id() < nodes.len() && nodes[tmp.id() as int] == tmp
}

/// The instructions number their definitions from zero and read nothing
/// that they do not define.
pub open spec fn closed_stream(instrs: Seq<Instruction>) -> bool {
    well_numbered(instrs) && uses_defined(instrs)
}

/// What appending one instruction does to the definitions.
pub proof fn lemma_defs_push(instrs: Seq<Instruction>, inst: Instruction)
    ensures
        defs(instrs.push(inst)) == match inst.defined() {
            Some(dest) => defs(instrs).push(dest),
            None => defs(instrs),
        },
{
    assert(instrs.push(inst).drop_last() =~= instrs);
}

/// Instructions that read only what they define still do so with one more
/// instruction, if the new one reads only what they then define.
pub proof fn lemma_uses_defined_push(instrs: Seq<Instruction>, inst: Instruction)
    requires
        uses_defined(instrs),
        forall|j: int|
            0 <= j < inst.used().len() ==> known(
                defs(instrs.push(inst)),
                #[trigger] inst.used()[j],
            ),
    ensures
        uses_defined(instrs.push(inst)),
{
    let longer = instrs.push(inst);
    lemma_defs_push(instrs, inst);
    assert forall|i: int, j: int|
        0 <= i < longer.len() && 0 <= j < longer[i].used().len() implies known(
        defs(longer),
        #[trigger] longer[i].used()[j],
    ) by {
        if i < instrs.len() {
            assert(known(defs(instrs), instrs[i].used()[j]));
        }
    }
}

/// A sequence with one more instruction holds a call if it held one before
/// or the new instruction is one.
pub proof fn lemma_has_call_push(instrs: Seq<Instruction>, inst: Instruction)
    ensures
        has_call(instrs.push(inst)) <==> has_call(instrs) || inst is Call,
{
    let longer = instrs.push(inst);
    if has_call(instrs) {
        let i = choose|i: int| 0 <= i < instrs.len() && #[trigger] instrs[i] is Call;
        assert(longer[i] is Call);
    }
    if inst is Call {
        assert(longer[instrs.len() as int] is Call);
    }
    if has_call(longer) {
        let i = choose|i: int| 0 <= i < longer.len() && #[trigger] longer[i] is Call;
        if i < instrs.len() {
            assert(instrs[i] is Call);
        }
    }
}

/// The state of a function under construction.
pub struct FunctionView {
    pub name: Seq<char>,
    pub is_public: bool,
    pub is_leaf: bool,
    /// The slots of the arguments, in the order of the arguments.
    pub args: Seq<StackSlot>,
    /// All slots, those of the arguments among them, in the order of creation.
    pub stack_slots: Seq<StackSlot>,
    pub instructions: Seq<Instruction>,
    /// The identifier of the next temporary.
    pub next_temp: nat,
    /// The identifier of the next slot.
    pub next_slot: nat,
}

impl FunctionView {
    /// The slot is one of this function, not one of another that bears
    /// the same identifier.
    pub open spec fn owns_slot(self, slot: StackSlot) -> bool {
        slot.id() < self.stack_slots.len() && self.stack_slots[slot.id() as int] == slot
    }

    /// The temporary is defined by an instruction of this function.
    pub open spec fn owns_temp(self, tmp: Temporary) -> bool {
        known(defs(self.instructions), tmp)
    }

    /// The function reads only temporaries that it defines, and reads and
    /// writes only slots of its own.
    pub open spec fn closed(self) -> bool {
        &&& uses_defined(self.instructions)
        &&& forall|i: int|
            0 <= i < self.instructions.len() ==> ((
            #[trigger] self.instructions[i]).slot() matches Some(slot) ==> self.owns_slot(slot))
    }

    /// What holds of every function, however it was built: it is a leaf if
    /// and only if it holds no call; slots and temporaries are numbered from
    /// zero in the order of their creation; the arguments are slots of the
    /// function, in the order of their creation.
    pub open spec fn wf(self) -> bool {
        &&& self.is_leaf <==> !has_call(self.instructions)
        &&& self.next_slot == self.stack_slots.len()
        &&& forall|k: int|
            0 <= k < self.stack_slots.len() ==> (#[trigger] self.stack_slots[k]).id() == k
        &&& forall|j: int| 0 <= j < self.args.len() ==> self.owns_slot(#[trigger] self.args[j])
        &&& forall|i: int, j: int|
            0 <= i < j < self.args.len() ==> (#[trigger] self.args[i]).id() < (
            #[trigger] self.args[j]).id()
        &&& self.next_temp == defs(self.instructions).len()
        &&& well_numbered(self.instructions)
    }

    /// The state after `inst` was appended, where `inst` defines no temporary.
    pub open spec fn with_instruction(self, inst: Instruction) -> FunctionView {
        FunctionView { instructions: self.instructions.push(inst), ..self }
    }

    /// The state after `inst` was appended, where `inst` defines the next temporary.
    pub open spec fn with_definition(self, inst: Instruction) -> FunctionView {
        FunctionView {
            instructions: self.instructions.push(inst),
            next_temp: self.next_temp + 1,
            ..self
        }
    }

    /// Appending an instruction that defines nothing and is no call keeps
    /// the function well formed.
    pub proof fn lemma_with_instruction(self, inst: Instruction)
        requires
            self.wf(),
            inst.defined() is None,
            !(inst is Call),
        ensures
            self.with_instruction(inst).wf(),
    {
        lemma_defs_push(self.instructions, inst);
        lemma_has_call_push(self.instructions, inst);
    }

    /// A closed function stays closed when an instruction is appended
    /// that reads only temporaries of the function, the one that it defines
    /// among them, and touches only a slot of the function. Slots may be
    /// added at the same time.
    pub proof fn lemma_closed_push(self, inst: Instruction, after: FunctionView)
        requires
            self.closed(),
            after.instructions == self.instructions.push(inst),
            self.stack_slots.len() <= after.stack_slots.len(),
            forall|k: int|
                0 <= k < self.stack_slots.len() ==> after.stack_slots[k] == self.stack_slots[k],
            forall|j: int|
                0 <= j < inst.used().len() ==> after.owns_temp(#[trigger] inst.used()[j]),
            inst.slot() matches Some(slot) ==> after.owns_slot(slot),
        ensures
            after.closed(),
    {
        lemma_uses_defined_push(self.instructions, inst);
        assert forall|i: int| 0 <= i < after.instructions.len() implies ((
        #[trigger] after.instructions[i]).slot() matches Some(slot) ==> after.owns_slot(slot)) by {
            if i < self.instructions.len() {
                assert(after.instructions[i] == self.instructions[i]);
                if self.instructions[i].slot() is Some {
                    assert(self.owns_slot(self.instructions[i].slot().unwrap()));
                }
            }
        }
    }

    /// Appending the definition of the next temporary keeps the function
    /// well formed, and the function then owns that temporary.
    pub proof fn lemma_with_definition(self, inst: Instruction)
        requires
            self.wf(),
            inst.defined() matches Some(dest) && dest.id() == self.next_temp,
        ensures
            self.with_definition(inst).wf(),
            self.with_definition(inst).owns_temp(inst.defined().unwrap()),
    {
        lemma_defs_push(self.instructions, inst);
        lemma_has_call_push(self.instructions, inst);
    }
}

/// A function under construction: its name, its arguments and stack slots,
/// and the instructions appended so far.
#[derive(Clone)]
pub struct Function {
    is_public: bool,
    is_leaf: bool,
    name: String,
    tmp_iota: Iota,
    var_iota: Iota,
    args: Vec<StackSlot>,
    stack_slots: Vec<StackSlot>,
    instructions: Vec<Instruction>,
}

impl View for Function {
    type V = FunctionView;

    closed spec fn view(&self) -> FunctionView {
        FunctionView {
            name: self.name@,
            is_public: self.is_public,
            is_leaf: self.is_leaf,
            args: self.args@,
            stack_slots: self.stack_slots@,
            instructions: self.instructions@,
            next_temp: self.tmp_iota@,
            next_slot: self.var_iota@,
        }
    }
}

impl Function {
    /// A function without arguments or instructions, not public, a leaf.
    pub fn new(name: String) -> (func: Self)
        ensures
            func@ == (FunctionView {
                name: name@,
                is_public: false,
                is_leaf: true,
                args: seq![],
                stack_slots: seq![],
                instructions: seq![],
                next_temp: 0,
                next_slot: 0,
            }),
            func@.wf(),
            func@.closed(),
    {
        let func = Self {
            is_public: false,
            is_leaf: true,
            name,
            tmp_iota: Iota::new(),
            var_iota: Iota::new(),
            args: Vec::new(),
            stack_slots: Vec::new(),
            instructions: Vec::new(),
        };
        assert(func@.args =~= seq![]);
        assert(func@.stack_slots =~= seq![]);
        assert(func@.instructions =~= seq![]);
        func
    }

    /// Marks the function as visible to the linker.
    pub fn make_public(&mut self)
        ensures
            final(self)@ == (FunctionView { is_public: true, ..old(self)@ }),
    {
        self.is_public = true;
    }

    pub fn is_public(&self) -> (public: bool)
        ensures
            public == self@.is_public,
    {
        self.is_public
    }

    /// Whether the function calls no other. For a well-formed function
    /// that is: whether no call was appended to it.
    pub fn is_leaf(&self) -> (leaf: bool)
        ensures
            leaf == self@.is_leaf,
            self@.wf() ==> (leaf <==> !has_call(self@.instructions)),
    {
        self.is_leaf
    }

    pub fn name(&self) -> (name: &str)
        ensures
            name@ == self@.name,
    {
        self.name.as_str()
    }

    pub fn instructions(&self) -> (instructions: &Vec<Instruction>)
        ensures
            instructions@ == self@.instructions,
    {
        &self.instructions
    }

    pub fn args(&self) -> (args: &Vec<StackSlot>)
        ensures
            args@ == self@.args,
    {
        &self.args
    }

    pub fn stack_slots(&self) -> (slots: &Vec<StackSlot>)
        ensures
            slots@ == self@.stack_slots,
    {
        &self.stack_slots
    }

    /// Declares the next argument and gives it a stack slot.
    pub fn add_arg(&mut self, size: Size, signed: bool) -> (slot: StackSlot)
        requires
            old(self)@.wf(),
            old(self)@.next_slot < usize::MAX,
        ensures
            slot.id() == old(self)@.next_slot,
            slot.size() == size,
            slot.is_signed() == signed,
            final(self)@ == (FunctionView {
                args: old(self)@.args.push(slot),
                stack_slots: old(self)@.stack_slots.push(slot),
                next_slot: old(self)@.next_slot + 1,
                ..old(self)@
            }),
            final(self)@.wf(),
            final(self)@.owns_slot(slot),
            old(self)@.closed() ==> final(self)@.closed(),
    {
        let slot = StackSlot::new(self.var_iota.next(), size, signed);
        self.args.push(slot);
        self.stack_slots.push(slot);
        proof {
            let before = old(self)@;
            let after = self@;
            if before.closed() {
                assert forall|i: int| 0 <= i < after.instructions.len() implies ((
                #[trigger] after.instructions[i]).slot() matches Some(slot) ==> after.owns_slot(
                    slot,
                )) by {
                    if before.instructions[i].slot() is Some {
                        assert(before.owns_slot(before.instructions[i].slot().unwrap()));
                    }
                }
            }
            assert forall|j: int| 0 <= j < after.args.len() implies after.owns_slot(
                #[trigger] after.args[j],
            ) by {
                if j < before.args.len() {
                    assert(before.owns_slot(before.args[j]));
                }
            }
            assert forall|i: int, j: int| 0 <= i < j < after.args.len() implies (
            #[trigger] after.args[i]).id() < (#[trigger] after.args[j]).id() by {
                assert(before.owns_slot(before.args[i]));
            }
        }
        slot
    }

    /// Appends the definition of a new temporary as the constant `value`.
    pub fn add_inst_set(&mut self, value: Value) -> (result: Temporary)
        requires
            old(self)@.wf(),
            old(self)@.next_temp < usize::MAX,
        ensures
            result.id() == old(self)@.next_temp,
            result.size() == value.size(),
            result.is_signed() == value.is_signed(),
            final(self)@ == old(self)@.with_definition(
                Instruction::SetValue { dest: result, src: value },
            ),
            final(self)@.wf(),
            final(self)@.owns_temp(result),
            old(self)@.closed() ==> final(self)@.closed(),
    {
        let result = Temporary::new(self.tmp_iota.next(), value.size(), value.is_signed());
        let inst = Instruction::SetValue { dest: result, src: value };
        proof {
            old(self)@.lemma_with_definition(inst);
            if old(self)@.closed() {
                old(self)@.lemma_closed_push(inst, old(self)@.with_definition(inst));
            }
        }
        self.instructions.push(inst);
        result
    }

    /// Appends a return, which hands back `tmp` if there is one.
    pub fn add_inst_return(&mut self, tmp: Option<Temporary>)
        requires
            old(self)@.wf(),
        ensures
            final(self)@ == old(self)@.with_instruction(Instruction::Return { src: tmp }),
            final(self)@.wf(),
            old(self)@.closed() && (tmp matches Some(tmp) ==> old(self)@.owns_temp(tmp))
                ==> final(self)@.closed(),
    {
        let inst = Instruction::Return { src: tmp };
        proof {
            old(self)@.lemma_with_instruction(inst);
            lemma_defs_push(old(self)@.instructions, inst);
            if old(self)@.closed() && (tmp matches Some(tmp) ==> old(self)@.owns_temp(tmp)) {
                old(self)@.lemma_closed_push(inst, old(self)@.with_instruction(inst));
            }
        }
        self.instructions.push(inst);
    }

    /// Appends the definition of a new temporary as the content of `slot`.
    /// The temporary has the slot's size and signedness.
    pub fn add_inst_load(&mut self, slot: StackSlot) -> (result: Temporary)
        requires
            old(self)@.wf(),
            old(self)@.next_temp < usize::MAX,
        ensures
            result.id() == old(self)@.next_temp,
            result.size() == slot.size(),
            result.is_signed() == slot.is_signed(),
            final(self)@ == old(self)@.with_definition(
                Instruction::Load { dest: result, src: slot },
            ),
            final(self)@.wf(),
            final(self)@.owns_temp(result),
            old(self)@.closed() && old(self)@.owns_slot(slot) ==> final(self)@.closed(),
    {
        let result = Temporary::new(self.tmp_iota.next(), slot.size(), slot.is_signed());
        let inst = Instruction::Load { dest: result, src: slot };
        proof {
            old(self)@.lemma_with_definition(inst);
            if old(self)@.closed() && old(self)@.owns_slot(slot) {
                old(self)@.lemma_closed_push(inst, old(self)@.with_definition(inst));
            }
        }
        self.instructions.push(inst);
        result
    }

    /// Gives `tmp` a new stack slot of its size and signedness, and appends
    /// the store of `tmp` to that slot.
    pub fn add_inst_store(&mut self, tmp: Temporary) -> (slot: StackSlot)
        requires
            old(self)@.wf(),
            old(self)@.next_slot < usize::MAX,
        ensures
            slot.id() == old(self)@.next_slot,
            slot.size() == tmp.size(),
            slot.is_signed() == tmp.is_signed(),
            final(self)@ == (FunctionView {
                stack_slots: old(self)@.stack_slots.push(slot),
                next_slot: old(self)@.next_slot + 1,
                ..old(self)@.with_instruction(Instruction::Store { dest: slot, src: tmp })
            }),
            final(self)@.wf(),
            final(self)@.owns_slot(slot),
            old(self)@.closed() && old(self)@.owns_temp(tmp) ==> final(self)@.closed(),
    {
        let slot = StackSlot::new(self.var_iota.next(), tmp.size(), tmp.is_signed());
        self.stack_slots.push(slot);
        let inst = Instruction::Store { dest: slot, src: tmp };
        proof {
            let before = old(self)@;
            before.lemma_with_instruction(inst);
            lemma_defs_push(before.instructions, inst);
            if before.closed() && before.owns_temp(tmp) {
                before.lemma_closed_push(
                    inst,
                    FunctionView {
                        stack_slots: before.stack_slots.push(slot),
                        next_slot: before.next_slot + 1,
                        ..before.with_instruction(inst)
                    },
                );
            }
            assert forall|j: int| 0 <= j < before.args.len() implies self@.owns_slot(
                #[trigger] before.args[j],
            ) by {
                assert(before.owns_slot(before.args[j]));
            }
        }
        self.instructions.push(inst);
        slot
    }

    /// Appends the definition of a new temporary as the sum of two others
    /// of one size. The sum is signed if either operand is.
    pub fn add_inst_add(&mut self, src_1: Temporary, src_2: Temporary) -> (result: Temporary)
        requires
            old(self)@.wf(),
            old(self)@.next_temp < usize::MAX,
            src_1.size() == src_2.size(),
        ensures
            result.id() == old(self)@.next_temp,
            result.size() == src_1.size(),
            result.is_signed() == (src_1.is_signed() || src_2.is_signed()),
            final(self)@ == old(self)@.with_definition(
                Instruction::Add { dest: result, src_1, src_2 },
            ),
            final(self)@.wf(),
            final(self)@.owns_temp(result),
            old(self)@.closed() && old(self)@.owns_temp(src_1) && old(self)@.owns_temp(src_2)
                ==> final(self)@.closed(),
    {
        let result = Temporary::new(
            self.tmp_iota.next(),
            src_1.size(),
            src_1.is_signed() || src_2.is_signed(),
        );
        let inst = Instruction::Add { dest: result, src_1, src_2 };
        proof {
            old(self)@.lemma_with_definition(inst);
            lemma_defs_push(old(self)@.instructions, inst);
            if old(self)@.closed() && old(self)@.owns_temp(src_1) && old(self)@.owns_temp(src_2) {
                old(self)@.lemma_closed_push(inst, old(self)@.with_definition(inst));
            }
        }
        self.instructions.push(inst);
        result
    }

    /// Appends a call of `func` with `args`. The function is no leaf from now on.
    pub fn add_inst_call(&mut self, func: String, args: Vec<Temporary>)
        requires
            old(self)@.wf(),
        ensures
            final(self)@ == (FunctionView {
                is_leaf: false,
                ..old(self)@.with_instruction(Instruction::Call { func, args })
            }),
            final(self)@.wf(),
            old(self)@.closed() && (forall|j: int|
                0 <= j < args@.len() ==> old(self)@.owns_temp(#[trigger] args@[j]))
                ==> final(self)@.closed(),
    {
        self.is_leaf = false;
        let inst = Instruction::Call { func, args };
        proof {
            let before = old(self)@;
            lemma_defs_push(before.instructions, inst);
            lemma_has_call_push(before.instructions, inst);
            if before.closed() && (forall|j: int|
                0 <= j < args@.len() ==> before.owns_temp(#[trigger] args@[j])) {
                before.lemma_closed_push(
                    inst,
                    FunctionView { is_leaf: false, ..before.with_instruction(inst) },
                );
            }
        }
        self.instructions.push(inst);
    }

    /// Appends the definition of a new temporary, of the given size and
    /// signedness, as what the latest call handed back.
    pub fn add_inst_call_result(&mut self, size: Size, signed: bool) -> (result: Temporary)
        requires
            old(self)@.wf(),
            old(self)@.next_temp < usize::MAX,
        ensures
            result.id() == old(self)@.next_temp,
            result.size() == size,
            result.is_signed() == signed,
            final(self)@ == old(self)@.with_definition(Instruction::CallResult { dest: result }),
            final(self)@.wf(),
            final(self)@.owns_temp(result),
            old(self)@.closed() ==> final(self)@.closed(),
    {
        let result = Temporary::new(self.tmp_iota.next(), size, signed);
        let inst = Instruction::CallResult { dest: result };
        proof {
            old(self)@.lemma_with_definition(inst);
            if old(self)@.closed() {
                old(self)@.lemma_closed_push(inst, old(self)@.with_definition(inst));
            }
        }
        self.instructions.push(inst);
        result
    }

    /// The size of the frame that holds the function's slots: a multiple of 16.
    pub fn stack_size(&self) -> (size: u16)
        requires
            frame_size(self@.stack_slots) <= u16::MAX,
        ensures
            size == frame_size(self@.stack_slots),
            size % 16 == 0,
    {
        let ghost slots = self@.stack_slots;
        let mut stack_size: u16 = 0;
        let mut k: usize = 0;
        while k < self.stack_slots.len()
            invariant
                slots == self.stack_slots@,
                k <= slots.len(),
                stack_size == packed_size(slots.take(k as int)),
                frame_size(slots) <= u16::MAX,
            decreases slots.len() - k,
        {
            let slot_size: u16 = self.stack_slots[k].size().in_bytes();
            proof {
                lemma_packed_step(slots, k as int);
                lemma_prefix_fits(slots, k + 1);
            }
            stack_size = round_up(stack_size, slot_size);
            stack_size += slot_size;
            k += 1;
        }
        proof {
            assert(slots.take(k as int) =~= slots);
            lemma_align_up(packed_size(slots), 16);
        }
        round_up(stack_size, 16)
    }

    /// The offset of every slot from the bottom of the frame, by the slot's
    /// identifier. The first slot lies highest; each lies at a multiple of
    /// its size.
    pub fn generate_stack_slot_offsets(&self) -> (offsets: Vec<u16>)
        requires
            frame_size(self@.stack_slots) <= u16::MAX,
        ensures
            offsets@.len() == self@.stack_slots.len(),
            forall|k: int|
                0 <= k < offsets@.len() ==> #[trigger] offsets@[k] == slot_offset(
                    self@.stack_slots,
                    k,
                ),
            forall|k: int|
                0 <= k < offsets@.len() ==> ((#[trigger] offsets@[k]) as int) % (
                self@.stack_slots[k].size().bytes() as int) == 0 && offsets@[k]
                    + self@.stack_slots[k].size().bytes() <= frame_size(self@.stack_slots),
            forall|i: int, j: int|
                0 <= i < j < offsets@.len() ==> (#[trigger] offsets@[j])
                    + self@.stack_slots[j].size().bytes() <= #[trigger] offsets@[i],
    {
        let ghost slots = self@.stack_slots;
        let mut offsets: Vec<u16> = Vec::new();
        let mut current_offset: u16 = self.stack_size();
        let mut k: usize = 0;
        while k < self.stack_slots.len()
            invariant
                slots == self.stack_slots@,
                k <= slots.len(),
                offsets@.len() == k,
                current_offset == frame_size(slots) - packed_size(slots.take(k as int)),
                frame_size(slots) <= u16::MAX,
                forall|i: int| 0 <= i < k ==> #[trigger] offsets@[i] == slot_offset(slots, i),
            decreases slots.len() - k,
        {
            let slot_size: u16 = self.stack_slots[k].size().in_bytes();
            proof {
                lemma_offset_step(slots, k as int);
                lemma_prefix_fits(slots, k + 1);
            }
            current_offset = current_offset - current_offset % slot_size;
            current_offset -= slot_size;
            offsets.push(current_offset);
            k += 1;
        }
        proof {
            assert forall|k: int| 0 <= k < offsets@.len() implies ((
            #[trigger] offsets@[k]) as int) % (slots[k].size().bytes() as int) == 0 && offsets@[k]
                + slots[k].size().bytes()
                <= frame_size(slots) by {
                lemma_slot_in_frame(slots, k);
            }
            assert forall|i: int, j: int| 0 <= i < j < offsets@.len() implies (
            #[trigger] offsets@[j]) + slots[j].size().bytes() <= #[trigger] offsets@[i] by {
                lemma_slots_disjoint(slots, i, j);
            }
        }
        offsets
    }
}

/// The state of a module: its functions, in the order in which they were
/// added, and the identifier of the next label.
pub struct ModuleView {
    pub funcs: Seq<FunctionView>,
    pub next_label: nat,
}

impl ModuleView {
    /// Every function of the module is well formed.
    pub open spec fn wf(self) -> bool {
        forall|i: int| 0 <= i < self.funcs.len() ==> (#[trigger] self.funcs[i]).wf()
    }
}

/// The functions that are compiled together. Labels are numbered across
/// all of them.
pub struct Module {
    lbl_iota: Iota,
    funcs: Vec<Function>,
}

impl View for Module {
    type V = ModuleView;

    closed spec fn view(&self) -> ModuleView {
        ModuleView {
            funcs: Seq::new(self.funcs@.len(), |i: int| self.funcs@[i]@),
            next_label: self.lbl_iota@,
        }
    }
}

impl Module {
    /// A module without functions, whose first label is number zero.
    pub fn new() -> (module: Self)
        ensures
            module@ == (ModuleView { funcs: seq![], next_label: 0 }),
            module@.wf(),
    {
        let module = Self { funcs: Vec::new(), lbl_iota: Iota::new() };
        assert(module@.funcs =~= seq![]);
        module
    }

    /// Adds `func` behind the functions that the module holds.
    pub fn add_func(&mut self, func: Function)
        ensures
            final(self)@ == (ModuleView { funcs: old(self)@.funcs.push(func@), ..old(self)@ }),
            old(self)@.wf() && func@.wf() ==> final(self)@.wf(),
    {
        self.funcs.push(func);
        assert(self@.funcs =~= old(self)@.funcs.push(func@));
    }

    pub fn funcs(&self) -> (funcs: &[Function])
        ensures
            funcs@.len() == self@.funcs.len(),
            forall|i: int| 0 <= i < funcs@.len() ==> (#[trigger] funcs@[i])@ == self@.funcs[i],
    {
        self.funcs.as_slice()
    }

    /// Lowers the module to assembly: every function in turn, each with the
    /// next label of the module for its returns.
    pub fn generate_asm(&mut self) -> (program: Asm)
        requires
            old(self)@.wf(),
            module_lowerable(old(self)@),
        ensures
            program@ == lower_module(old(self)@),
            final(self)@ == (ModuleView {
                next_label: old(self)@.next_label + old(self)@.funcs.len(),
                ..old(self)@
            }),
    {
        Asm::from_module(self)
    }

    /// The number of labels minted so far, which is the identifier of
    /// the next one.
    pub fn label_count(&self) -> (count: usize)
        ensures
            count == self@.next_label,
    {
        self.lbl_iota.current()
    }

    /// Whether `generate_asm` can lower the module as it stands.
    pub fn can_generate_asm(&self) -> (can: bool)
        requires
            self@.wf(),
        ensures
            can == module_lowerable(self@),
    {
        crate::arm64::can_lower(self)
    }

    /// Mints the next label.
    pub fn next_label(&mut self) -> (label: Label)
        requires
            old(self)@.next_label < usize::MAX,
        ensures
            label.id == old(self)@.next_label,
            final(self)@ == (ModuleView {
                next_label: old(self)@.next_label + 1,
                ..old(self)@
            }),
    {
        Label::new(self.lbl_iota.next())
    }
}

} // verus!
