//! Modules of procedure declarations: the name of each procedure and the
//! types of its arguments.

use vstd::prelude::*;
use vstd::string::*;
use crate::codegen::{gen_asm, Asm, Target};
use crate::util::Iota;

verus! {

/// The type of an argument, by its width.
#[derive(Debug, Clone, Copy, PartialEq, Eq, Structural)]
pub enum Type {
    Byte,
    Word,
    DoubleWord,
    QuadWord,
}

/// A variable of a procedure, known by its number.
#[derive(Debug, Clone, Copy, PartialEq, Eq, Structural)]
pub struct Variable {
    pub id: usize,
}

impl Variable {
    pub fn new(id: usize) -> (variable: Self)
        ensures
            variable == (Variable { id }),
    {
        Self { id }
    }
}

/// The state of a procedure declaration.
pub struct ProcedureView {
    pub name: Seq<char>,
    /// The arguments in their order, each a variable and its type.
    pub args: Seq<(Variable, Type)>,
    /// The number of the next variable.
    pub next_variable: nat,
}

impl ProcedureView {
    /// The arguments are the variables numbered from zero, in order.
    pub open spec fn wf(self) -> bool {
        &&& self.next_variable == self.args.len()
        &&& forall|i: int| 0 <= i < self.args.len() ==> (#[trigger] self.args[i]).0.id == i
    }
}

/// The declaration of a procedure.
pub struct Procedure {
    name: String,
    args: Vec<(Variable, Type)>,
    var_iota: Iota,
}

impl View for Procedure {
    type V = ProcedureView;

    closed spec fn view(&self) -> ProcedureView {
        ProcedureView { name: self.name@, args: self.args@, next_variable: self.var_iota@ }
    }
}

impl Procedure {
    /// A procedure without arguments.
    pub fn new(name: String) -> (procedure: Self)
        ensures
            procedure@ == (ProcedureView { name: name@, args: seq![], next_variable: 0 }),
            procedure@.wf(),
    {
        let procedure = Self { name, args: Vec::new(), var_iota: Iota::new() };
        assert(procedure@.args =~= seq![]);
        procedure
    }

    pub fn name(&self) -> (name: String)
        ensures
            name@ == self@.name,
    {
        self.name.clone()
    }

    /// Declares the next argument, a new variable of the given type.
    pub fn add_arg(&mut self, data_type: Type)
        requires
            old(self)@.wf(),
            old(self)@.next_variable < usize::MAX,
        ensures
            final(self)@ == (ProcedureView {
                args: old(self)@.args.push(
                    (Variable { id: old(self)@.next_variable as usize }, data_type),
                ),
                next_variable: old(self)@.next_variable + 1,
                ..old(self)@
            }),
            final(self)@.wf(),
    {
        self.args.push((Variable::new(self.var_iota.next()), data_type));
    }
}

/// The state of a module: its procedures, in the order in which they
/// were added.
pub struct ModuleView {
    pub procs: Seq<ProcedureView>,
}

/// The procedures that are compiled together.
pub struct Module {
    procs: Vec<Procedure>,
}

impl View for Module {
    type V = ModuleView;

    closed spec fn view(&self) -> ModuleView {
        ModuleView { procs: Seq::new(self.procs@.len(), |i: int| self.procs@[i]@) }
    }
}

impl Module {
    /// A module without procedures.
    pub fn new() -> (module: Self)
        ensures
            module@ == (ModuleView { procs: seq![] }),
    {
        let module = Self { procs: Vec::new() };
        assert(module@.procs =~= seq![]);
        module
    }

    /// Adds `proc` behind the procedures that the module holds.
    pub fn add_proc(&mut self, proc: Procedure)
        ensures
            final(self)@ == (ModuleView { procs: old(self)@.procs.push(proc@) }),
    {
        self.procs.push(proc);
        assert(self@.procs =~= old(self)@.procs.push(proc@));
    }

    /// Generates the assembly of the module for `target`.
    pub fn generate_asm(&self, target: Target) -> (program: Asm)
        ensures
            program.lines() == crate::codegen::arm64::frames(
                self@.procs,
                self@.procs.len() as int,
            ),
    {
        gen_asm(self, target)
    }

    pub fn procs(&self) -> (procs: &Vec<Procedure>)
        ensures
            procs@.len() == self@.procs.len(),
            forall|i: int| 0 <= i < procs@.len() ==> (#[trigger] procs@[i])@ == self@.procs[i],
    {
        &self.procs
    }
}

} // verus!
