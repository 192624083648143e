//! The frame of each procedure in AArch64 assembly: the label of its
//! entry and its return.

use vstd::prelude::*;
use vstd::string::*;
use vstd::utf8::encode_utf8;
use crate::codegen::ir::{Module, Procedure, ProcedureView};

verus! {

/// One line of assembly, with its line break.
pub enum Instruction {
    /// The line of a label: its name, a colon and the line break.
    Label { label: String },
    Ret,
}

/// An instruction with its text as a sequence of characters.
pub enum InstructionView {
    Label { label: Seq<char> },
    Ret,
}

impl InstructionView {
    /// The text of the line, line break included.
    pub open spec fn text(self) -> Seq<char> {
        match self {
            InstructionView::Label { label } => label,
            InstructionView::Ret => "    ret\n"@,
        }
    }
}

impl View for Instruction {
    type V = InstructionView;

    open spec fn view(&self) -> InstructionView {
        match *self {
            Instruction::Label { label } => InstructionView::Label { label: label@ },
            Instruction::Ret => InstructionView::Ret,
        }
    }
}

impl Instruction {
    /// The line that defines the label named `label`.
    pub fn label(label: String) -> (inst: Self)
        ensures
            inst@ == (InstructionView::Label { label: label@ + ":\n"@ }),
    {
        let mut label = label;
        label.append(":\n");
        Self::Label { label }
    }

    pub fn ret() -> (inst: Self)
        ensures
            inst == Instruction::Ret,
    {
        Self::Ret
    }

    /// The bytes of the line in UTF-8.
    pub fn as_bytes(&self) -> (bytes: &[u8])
        ensures
            bytes@ == encode_utf8(self@.text()),
    {
        match self {
            Instruction::Label { label } => label.as_str().as_bytes(),
            Instruction::Ret => "    ret\n".as_bytes(),
        }
    }

    /// The text of the line, line break included.
    pub fn to_text(&self) -> (text: &str)
        ensures
            text@ == self@.text(),
    {
        match self {
            Instruction::Label { label } => label.as_str(),
            Instruction::Ret => "    ret\n",
        }
    }
}

/// The text of a sequence of lines.
pub open spec fn text_of(lines: Seq<InstructionView>) -> Seq<char>
    decreases lines.len(),
{
    if lines.len() == 0 {
        Seq::empty()
    } else {
        text_of(lines.drop_last()) + lines.last().text()
    }
}

/// A program in assembly: the lines that were emitted, in order.
pub struct Asm {
    insts: Vec<Instruction>,
}

impl View for Asm {
    type V = Seq<InstructionView>;

    closed spec fn view(&self) -> Seq<InstructionView> {
        self.insts@.map_values(|inst: Instruction| inst@)
    }
}

impl Asm {
    /// A program without lines.
    pub fn new() -> (program: Self)
        ensures
            program@ == Seq::<InstructionView>::empty(),
    {
        let program = Self { insts: Vec::new() };
        assert(program@ =~= Seq::<InstructionView>::empty());
        program
    }

    /// Appends a line.
    pub fn add_inst(&mut self, inst: Instruction)
        ensures
            final(self)@ == old(self)@.push(inst@),
    {
        self.insts.push(inst);
        assert(self@ =~= old(self)@.push(inst@));
    }

    /// The whole program as text.
    pub fn to_text(&self) -> (text: String)
        ensures
            text@ == text_of(self@),
    {
        let mut text = String::new();
        let mut i: usize = 0;
        while i < self.insts.len()
            invariant
                i <= self.insts@.len(),
                text@ == text_of(self@.take(i as int)),
            decreases self.insts@.len() - i,
        {
            proof {
                assert(self@.take(i + 1).drop_last() =~= self@.take(i as int));
            }
            text.append(self.insts[i].to_text());
            i += 1;
        }
        proof {
            assert(self@.take(i as int) =~= self@);
        }
        text
    }
}

/// What frames the code of a procedure: the label of its entry and
/// its return.
pub open spec fn frame(procedure: ProcedureView) -> Seq<InstructionView> {
    seq![InstructionView::Label { label: procedure.name + ":\n"@ }, InstructionView::Ret]
}

/// The frames of the first `k` of `procs`, in order.
pub open spec fn frames(procs: Seq<ProcedureView>, k: int) -> Seq<InstructionView>
    decreases k,
{
    if k <= 0 {
        seq![]
    } else {
        frames(procs, k - 1) + frame(procs[k - 1])
    }
}

/// Generates the frame of every procedure of `module`, in order.
pub fn gen_asm(module: &Module) -> (program: Asm)
    ensures
        program@ == frames(module@.procs, module@.procs.len() as int),
{
    let mut program = Asm::new();
    let procs = module.procs();
    let mut i: usize = 0;
    while i < procs.len()
        invariant
            i <= procs@.len(),
            procs@.len() == module@.procs.len(),
            forall|k: int| 0 <= k < procs@.len() ==> (#[trigger] procs@[k])@ == module@.procs[k],
            program@ == frames(module@.procs, i as int),
        decreases procs@.len() - i,
    {
        gen_proc_asm(&procs[i], &mut program);
        i += 1;
    }
    program
}

/// Appends the frame of `proc`.
pub fn gen_proc_asm(proc: &Procedure, program: &mut Asm)
    ensures
        final(program)@ == old(program)@ + frame(proc@),
{
    gen_proc_prologue(proc, program);
    gen_proc_epilogue(proc, program);
    assert(program@ =~= old(program)@ + frame(proc@));
}

/// Appends the label of the entry of `proc`.
pub fn gen_proc_prologue(proc: &Procedure, program: &mut Asm)
    ensures
        final(program)@ == old(program)@.push(
            InstructionView::Label { label: proc@.name + ":\n"@ },
        ),
{
    program.add_inst(Instruction::label(proc.name()));
}

/// Appends the return of `proc`.
pub fn gen_proc_epilogue(_proc: &Procedure, program: &mut Asm)
    ensures
        final(program)@ == old(program)@.push(InstructionView::Ret),
{
    program.add_inst(Instruction::ret());
}

} // verus!
