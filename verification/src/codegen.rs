//! Code generation by target for modules of procedure declarations: what
//! frames the code of each procedure, its entry label and its return. The
//! lowering of whole function bodies is in `crate::arm64`.

pub mod arm64;
pub mod ir;

use vstd::prelude::*;
use crate::codegen::ir::Module;

verus! {

/// The machines for which code can be generated.
#[derive(Debug, Clone, Copy, PartialEq, Eq, Structural)]
pub enum Target {
    AppleArm64,
}

/// Generated assembly, by the kind of machine it is for.
pub enum Asm {
    Arm64(arm64::Asm),
}

impl Asm {
    /// The lines of the program.
    pub open spec fn lines(&self) -> Seq<arm64::InstructionView> {
        match *self {
            Asm::Arm64(program) => program@,
        }
    }

    /// The whole program as text.
    pub fn to_text(&self) -> (text: String)
        ensures
            text@ == arm64::text_of(self.lines()),
    {
        match self {
            Asm::Arm64(program) => program.to_text(),
        }
    }
}

/// Generates the assembly of `module` for `target`.
pub fn gen_asm(module: &Module, target: Target) -> (program: Asm)
    ensures
        program.lines() == arm64::frames(module@.procs, module@.procs.len() as int),
{
    match target {
        Target::AppleArm64 => Asm::Arm64(arm64::gen_asm(module)),
    }
}

} // verus!
