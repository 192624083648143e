//! Helpers of the back end: the counter that mints identifiers, and the
//! register allocator.

use vstd::prelude::*;
use crate::arm64::register::{arg_register, Register, RegisterNumber};
use crate::graph::{
    allocation, bound_as_arg, clash_at, coloring, first_free, ids, interference_graph,
    interferes, interferes_from, lemma_coloring_prefix,
    lemma_defined_known, lemma_interference_graph_wf, lemma_interferes_step, lemma_live_bounded,
    lemma_live_end, lemma_live_step,
    lemma_neighbours_differ, lemma_register_sizes, live_at, pick, preference_from, preferences,
    taken, Graph,
};
use crate::ir::{closed_stream, defs, known, lemma_defs_push, Instruction, Temporary};

verus! {

/// A counter that hands out identifiers in increasing order, starting at zero.
#[derive(Clone, Copy)]
pub struct Iota {
    counter: usize,
}

impl Iota {
    /// The identifier that the next call of `next` returns.
    pub closed spec fn view(&self) -> nat {
        self.counter as nat
    }

    pub fn new() -> (iota: Self)
        ensures
            iota@ == 0,
    {
        Self { counter: 0 }
    }

    /// The identifier that the next call of `next` returns.
    pub fn current(&self) -> (id: usize)
        ensures
            id == self@,
    {
        self.counter
    }

    /// Returns the current identifier and moves on to the following one.
    pub fn next(&mut self) -> (id: usize)
        requires
            old(self)@ < usize::MAX,
        ensures
            id == old(self)@,
            final(self)@ == old(self)@ + 1,
    {
        let count: usize = self.counter;
        self.counter += 1;
        count
    }
}

/// `b` stands in the list of the neighbours of `a`.
spec fn adjacent(edges: Seq<Vec<usize>>, a: int, b: int) -> bool {
    0 <= a < edges.len() && exists|j: int| 0 <= j < edges[a]@.len() && #[trigger] edges[a]@[j] == b
}

/// A register allocator that colours a graph: its nodes are the temporaries
/// of one function, and an edge joins two that are alive at the same time.
pub struct RegisterAllocator {
    /// The temporary of each node, by identifier.
    nodes: Vec<Temporary>,
    /// The neighbours of each node, by identifier.
    edges: Vec<Vec<usize>>,
}

impl View for RegisterAllocator {
    type V = Graph;

    closed spec fn view(&self) -> Graph {
        Graph {
            nodes: self.nodes@,
            edges: Set::new(|edge: (int, int)| adjacent(self.edges@, edge.0, edge.1)),
        }
    }
}

impl RegisterAllocator {
    /// Every node has a list of neighbours, and every neighbour is a node.
    pub closed spec fn inv(&self) -> bool {
        &&& self.edges@.len() == self.nodes@.len()
        &&& forall|a: int, j: int|
            0 <= a < self.edges@.len() && 0 <= j < self.edges@[a]@.len() ==> (
            #[trigger] self.edges@[a]@[j]) < self.nodes@.len()
    }

    /// An allocator for a graph without nodes.
    pub fn new() -> (allocator: Self)
        ensures
            allocator.inv(),
            allocator@.nodes == Seq::<Temporary>::empty(),
            allocator@.edges == Set::<(int, int)>::empty(),
    {
        let allocator = Self { nodes: Vec::new(), edges: Vec::new() };
        assert(allocator@.edges =~= Set::<(int, int)>::empty());
        allocator
    }

    /// Whether an edge joins the nodes `a` and `b`.
    pub fn is_edge(&self, a: usize, b: usize) -> (joined: bool)
        requires
            self.inv(),
        ensures
            joined == self@.edges.contains((a as int, b as int)),
    {
        if a >= self.edges.len() {
            return false;
        }
        let connected = &self.edges[a];
        let mut j: usize = 0;
        while j < connected.len()
            invariant
                a < self.edges@.len(),
                connected == self.edges@[a as int],
                j <= connected@.len(),
                forall|k: int| 0 <= k < j ==> #[trigger] connected@[k] != b,
            decreases connected@.len() - j,
        {
            if connected[j] == b {
                assert(adjacent(self.edges@, a as int, b as int));
                return true;
            }
            j += 1;
        }
        false
    }

    /// Joins the node `from` with every node whose flag in `to` is set.
    pub fn add_edge(&mut self, from: Temporary, to: &Vec<bool>)
        requires
            old(self).inv(),
            from.id() < old(self)@.nodes.len(),
            to@.len() == old(self)@.nodes.len(),
            !to@[from.id() as int],
        ensures
            final(self).inv(),
            final(self)@.nodes == old(self)@.nodes,
            forall|a: int, b: int|
                final(self)@.edges.contains((a, b)) <==> old(self)@.edges.contains((a, b)) || (a
                    == from.id() && 0 <= b < to@.len() && to@[b]) || (b == from.id() && 0 <= a
                    < to@.len() && to@[a]),
    {
        let n: usize = to.len();
        let from_id: usize = from.id();
        let mut node: usize = 0;
        while node < n
            invariant
                n == to@.len(),
                n == self.nodes@.len(),
                from_id == from.id(),
                from_id < n,
                !to@[from_id as int],
                node <= n,
                self.inv(),
                self@.nodes == old(self)@.nodes,
                forall|a: int, b: int|
                    adjacent(self.edges@, a, b) <==> adjacent(old(self).edges@, a, b) || (a
                        == from_id && 0 <= b < node && to@[b]) || (b == from_id && 0 <= a < node
                        && to@[a]),
            decreases n - node,
        {
            if to[node] {
                let ghost before = self.edges@;
                self.edges[node].push(from_id);
                let ghost between = self.edges@;
                self.edges[from_id].push(node);
                proof {
                    let after = self.edges@;
                    assert(between[node as int]@ == before[node as int]@.push(from_id));
                    assert(after[from_id as int]@ == between[from_id as int]@.push(node));
                    assert(after[node as int] == between[node as int]);
                    assert forall|a: int, j: int|
                        0 <= a < after.len() && 0 <= j < after[a]@.len() implies (
                    #[trigger] after[a]@[j]) < self.nodes@.len() by {
                        if a == node {
                            if j < before[a]@.len() {
                                assert(before[a]@[j] < n);
                            }
                        } else if a == from_id {
                            if j < before[a]@.len() {
                                assert(before[a]@[j] < n);
                            }
                        } else {
                            assert(after[a] == before[a]);
                            assert(before[a]@[j] < n);
                        }
                    }
                    assert forall|a: int, b: int|
                        adjacent(after, a, b) <==> adjacent(before, a, b) || (a == node && b
                            == from_id) || (a == from_id && b == node) by {
                        if adjacent(before, a, b) {
                            let j = choose|j: int|
                                0 <= j < before[a]@.len() && #[trigger] before[a]@[j] == b;
                            assert(after[a]@[j] == b);
                        }
                        if a == node && b == from_id {
                            assert(after[a]@[before[a]@.len() as int] == b);
                        }
                        if a == from_id && b == node {
                            assert(after[a]@[before[a]@.len() as int] == b);
                        }
                        if adjacent(after, a, b) {
                            let j = choose|j: int|
                                0 <= j < after[a]@.len() && #[trigger] after[a]@[j] == b;
                            if a == node || a == from_id {
                                if j < before[a]@.len() {
                                    assert(before[a]@[j] == b);
                                }
                            } else {
                                assert(after[a] == before[a]);
                                assert(before[a]@[j] == b);
                            }
                        }
                    }
                }
            }
            node += 1;
        }
    }

    /// Builds the interference graph of `ir` in place of the graph held
    /// so far and returns, for each temporary, the register that it would
    /// best live in.
    ///
    /// The instructions are read from the last to the first. A temporary
    /// becomes alive where it is read and dies where it is defined; there
    /// it is joined with all that are alive. What a return hands back would
    /// best live in the result register, and each of the first eight
    /// arguments of a call in the register of its position.
    pub fn generate_edges(&mut self, ir: &[Instruction]) -> (restricted: Vec<Option<Register>>)
        requires
            closed_stream(ir@),
        ensures
            final(self).inv(),
            final(self)@ == interference_graph(ir@),
            restricted@ == preferences(ir@),
    {
        self.nodes = collect_defs(ir);
        let n: usize = self.nodes.len();
        self.edges = Vec::new();
        let mut alive_set: Vec<bool> = Vec::new();
        let mut restricted_regs: Vec<Option<Register>> = Vec::new();
        let mut k: usize = 0;
        while k < n
            invariant
                k <= n,
                n == self.nodes@.len(),
                self.nodes@ == defs(ir@),
                self.edges@.len() == k,
                alive_set@.len() == k,
                restricted_regs@.len() == k,
                forall|a: int| 0 <= a < k ==> (#[trigger] self.edges@[a])@.len() == 0,
                forall|a: int| 0 <= a < k ==> !#[trigger] alive_set@[a],
                forall|a: int| 0 <= a < k ==> (#[trigger] restricted_regs@[a]) is None,
            decreases n - k,
        {
            self.edges.push(Vec::new());
            alive_set.push(false);
            restricted_regs.push(None);
            k += 1;
        }
        let mut i: usize = ir.len();
        proof {
            assert forall|a: int, b: int| !self@.edges.contains((a, b)) by {
                assert(!adjacent(self.edges@, a, b));
            }
            lemma_live_end(ir@);
        }
        while i > 0
            invariant
                i <= ir@.len(),
                closed_stream(ir@),
                self.inv(),
                n == self.nodes@.len(),
                self.nodes@ == defs(ir@),
                alive_set@.len() == n,
                restricted_regs@.len() == n,
                forall|t: int|
                    0 <= t < n ==> #[trigger] alive_set@[t] == live_at(ir@, i as int).contains(t),
                forall|a: int, b: int|
                    self@.edges.contains((a, b)) <==> interferes_from(ir@, i as int, a, b),
                forall|t: int|
                    0 <= t < n ==> #[trigger] restricted_regs@[t] == preference_from(
                        ir@,
                        i as int,
                        t,
                    ),
            decreases i,
        {
            i -= 1;
            let ghost edges_after = self@.edges;
            proof {
                lemma_live_bounded(ir@, i + 1);
                lemma_live_step(ir@, i as int);
                assert forall|a: int, b: int|
                    interferes_from(ir@, i as int, a, b) <==> clash_at(ir@, i as int, a, b)
                        || interferes_from(ir@, i + 1, a, b) by {
                    lemma_interferes_step(ir@, i as int, a, b);
                }
                if ir@[i as int].defined() is Some {
                    lemma_defined_known(ir@, i as int);
                }
                assert forall|j: int| 0 <= j < ir@[i as int].used().len() implies known(
                    defs(ir@),
                    #[trigger] ir@[i as int].used()[j],
                ) by {}
            }
            match &ir[i] {
                Instruction::SetValue { dest, .. } => {
                    alive_set.set(dest.id(), false);
                    self.add_edge(*dest, &alive_set);
                    proof {
                        lemma_define(ir@, i as int, edges_after, self@.edges, alive_set@);
                    }
                },
                Instruction::Return { src } => {
                    if let Some(src) = src {
                        assert(ir@[i as int].used()[0] == *src);
                        alive_set.set(src.id(), true);
                        restricted_regs.set(src.id(), Some(Register::r0(src.size())));
                    }
                },
                Instruction::Load { dest, .. } => {
                    alive_set.set(dest.id(), false);
                    self.add_edge(*dest, &alive_set);
                    proof {
                        lemma_define(ir@, i as int, edges_after, self@.edges, alive_set@);
                    }
                },
                Instruction::Add { dest, src_1, src_2 } => {
                    assert(ir@[i as int].used()[0] == *src_1);
                    assert(ir@[i as int].used()[1] == *src_2);
                    alive_set.set(dest.id(), false);
                    self.add_edge(*dest, &alive_set);
                    proof {
                        lemma_define(ir@, i as int, edges_after, self@.edges, alive_set@);
                    }
                    alive_set.set(src_1.id(), true);
                    alive_set.set(src_2.id(), true);
                },
                Instruction::Store { src, .. } => {
                    assert(ir@[i as int].used()[0] == *src);
                    alive_set.set(src.id(), true);
                },
                Instruction::Call { args, .. } => {
                    let ghost alive_before = alive_set@;
                    let ghost restricted_before = restricted_regs@;
                    proof {
                        assert(ir@[i as int].used() == args@);
                        assert forall|j: int| 0 <= j < args@.len() implies (
                        #[trigger] args@[j]).id() < n by {
                            assert(known(defs(ir@), ir@[i as int].used()[j]));
                        }
                    }
                    let mut arg_num: usize = 0;
                    while arg_num < args.len()
                        invariant
                            arg_num <= args@.len(),
                            alive_set@.len() == n,
                            restricted_regs@.len() == n,
                            alive_before.len() == n,
                            restricted_before.len() == n,
                            forall|j: int| 0 <= j < args@.len() ==> (#[trigger] args@[j]).id() < n,
                            forall|t: int|
                                0 <= t < n ==> #[trigger] alive_set@[t] == (alive_before[t]
                                    || ids(args@.take(arg_num as int)).contains(t)),
                            forall|t: int|
                                0 <= t < n ==> #[trigger] restricted_regs@[t] == match bound_as_arg(
                                    args@,
                                    t,
                                    arg_num as int,
                                ) {
                                    Some(reg) => Some(reg),
                                    None => restricted_before[t],
                                },
                        decreases args@.len() - arg_num,
                    {
                        let arg: Temporary = args[arg_num];
                        let ghost alive_so_far = alive_set@;
                        alive_set.set(arg.id(), true);
                        if arg_num < 8 {
                            if let Some(arg_reg) = arg_register(arg_num as u8, arg.size()) {
                                restricted_regs.set(arg.id(), Some(arg_reg));
                            }
                        }
                        proof {
                            let shorter = args@.take(arg_num as int);
                            let longer = args@.take(arg_num + 1);
                            assert forall|t: int| 0 <= t < n implies #[trigger] alive_set@[t] == (
                            alive_before[t] || ids(longer).contains(t)) by {
                                if ids(shorter).contains(t) {
                                    let j = choose|j: int|
                                        0 <= j < shorter.len() && (#[trigger] shorter[j]).id() == t;
                                    assert(longer[j].id() == t);
                                }
                                if t == arg.id() {
                                    assert(longer[arg_num as int].id() == t);
                                }
                                if ids(longer).contains(t) {
                                    let j = choose|j: int|
                                        0 <= j < longer.len() && (#[trigger] longer[j]).id() == t;
                                    if j < arg_num {
                                        assert(shorter[j].id() == t);
                                    }
                                }
                            }
                        }
                        arg_num += 1;
                    }
                    proof {
                        assert(args@.take(arg_num as int) =~= args@);
                    }
                },
                Instruction::CallResult { dest } => {
                    alive_set.set(dest.id(), false);
                    self.add_edge(*dest, &alive_set);
                    proof {
                        lemma_define(ir@, i as int, edges_after, self@.edges, alive_set@);
                    }
                },
            }
            proof {
                let inst = ir@[i as int];
                assert forall|t: int| 0 <= t < n implies #[trigger] alive_set@[t] == live_at(
                    ir@,
                    i as int,
                ).contains(t) by {
                    if ids(inst.used()).contains(t) {
                        let j = choose|j: int|
                            0 <= j < inst.used().len() && (#[trigger] inst.used()[j]).id() == t;
                    }
                }
            }
        }
        proof {
            assert(self@.edges =~= interference_graph(ir@).edges);
            assert(restricted_regs@ =~= preferences(ir@));
        }
        restricted_regs
    }

    /// Whether a neighbour of `node` that has its register has the
    /// register `number`.
    fn is_taken(&self, reg_map: &Vec<Register>, node: usize, number: RegisterNumber) -> (found:
        bool)
        requires
            self.inv(),
            node < self@.nodes.len(),
        ensures
            found == taken(self@, reg_map@, node as int, number),
    {
        let connected = &self.edges[node];
        let mut j: usize = 0;
        while j < connected.len()
            invariant
                self.inv(),
                node < self.edges@.len(),
                connected == self.edges@[node as int],
                j <= connected@.len(),
                forall|k: int|
                    0 <= k < j ==> !((#[trigger] connected@[k]) < reg_map@.len()
                        && reg_map@[connected@[k] as int].number == number),
            decreases connected@.len() - j,
        {
            let other: usize = connected[j];
            if other < reg_map.len() && reg_map[other].number() == number {
                proof {
                    assert(adjacent(self.edges@, node as int, other as int));
                    assert(self@.edges.contains((node as int, other as int)));
                    assert(reg_map@[other as int].number == number);
                }
                return true;
            }
            j += 1;
        }
        proof {
            if taken(self@, reg_map@, node as int, number) {
                let other = choose|other: int|
                    0 <= other < reg_map@.len() && self@.edges.contains((node as int, other)) && (
                    #[trigger] reg_map@[other]).number == number;
                assert(adjacent(self.edges@, node as int, other));
                let k = choose|k: int|
                    0 <= k < connected@.len() && #[trigger] connected@[k] == other;
                assert(connected@[k] < reg_map@.len());
            }
        }
        false
    }

    /// The first register of `regs` that no neighbour of `node` has.
    fn first_free_register(&self, reg_map: &Vec<Register>, node: usize, regs: &Vec<RegisterNumber>)
        -> (free: Option<RegisterNumber>)
        requires
            self.inv(),
            node < self@.nodes.len(),
        ensures
            free == first_free(self@, reg_map@, node as int, regs@, 0),
    {
        let mut k: usize = 0;
        while k < regs.len()
            invariant
                self.inv(),
                node < self@.nodes.len(),
                k <= regs@.len(),
                first_free(self@, reg_map@, node as int, regs@, 0) == first_free(
                    self@,
                    reg_map@,
                    node as int,
                    regs@,
                    k as int,
                ),
            decreases regs@.len() - k,
        {
            let reg: RegisterNumber = regs[k];
            if !self.is_taken(reg_map, node, reg) {
                return Some(reg);
            }
            k += 1;
        }
        None
    }

    /// Gives every node a register, in the order of the identifiers: the
    /// one it is restricted to, if no neighbour has it yet; else the first
    /// of `regs` that no neighbour has. None if a node finds none.
    pub fn allocate_registers(
        self,
        regs: Vec<RegisterNumber>,
        restricted: Vec<Option<Register>>,
    ) -> (reg_map: Option<Vec<Register>>)
        requires
            self.inv(),
            restricted@.len() == self@.nodes.len(),
        ensures
            match reg_map {
                Some(reg_map) => coloring(self@, restricted@, regs@, self@.nodes.len()) == Some(
                    reg_map@,
                ),
                None => coloring(self@, restricted@, regs@, self@.nodes.len()) is None,
            },
    {
        let n: usize = self.nodes.len();
        let mut reg_map: Vec<Register> = Vec::new();
        let mut node: usize = 0;
        while node < n
            invariant
                self.inv(),
                n == self@.nodes.len(),
                restricted@.len() == n,
                node <= n,
                reg_map@.len() == node,
                coloring(self@, restricted@, regs@, node as nat) == Some(reg_map@),
            decreases n - node,
        {
            let ghost before = reg_map@;
            let mut assigned: bool = false;
            if let Some(restricted_reg) = restricted[node] {
                if !self.is_taken(&reg_map, node, restricted_reg.number()) {
                    reg_map.push(restricted_reg);
                    assigned = true;
                }
            }
            if !assigned {
                match self.first_free_register(&reg_map, node, &regs) {
                    Some(reg) => {
                        reg_map.push(Register::new(reg, self.nodes[node].size()));
                    },
                    None => {
                        proof {
                            assert(pick(self@, restricted@, regs@, before, node as int) is None);
                            lemma_coloring_fails(
                                self@,
                                restricted@,
                                regs@,
                                (node + 1) as nat,
                                n as nat,
                            );
                        }
                        return None;
                    },
                }
            }
            assert(pick(self@, restricted@, regs@, before, node as int) == Some(
                reg_map@[node as int],
            ));
            assert(reg_map@ =~= before.push(reg_map@[node as int]));
            node += 1;
        }
        Some(reg_map)
    }

    /// Gives every temporary of `ir` a register of `regs`, by identifier,
    /// so that no two that are alive at the same time share one. None if
    /// the registers do not suffice.
    pub fn allocate(self, ir: &[Instruction], regs: Vec<RegisterNumber>) -> (reg_map: Option<
        Vec<Register>,
    >)
        requires
            closed_stream(ir@),
        ensures
            match reg_map {
                Some(reg_map) => allocation(ir@, regs@) == Some(reg_map@),
                None => allocation(ir@, regs@) is None,
            },
            reg_map matches Some(reg_map) ==> reg_map@.len() == defs(ir@).len() && forall|
                a: int,
                b: int,
            |
                interferes(ir@, a, b) ==> reg_map@[a].number != reg_map@[b].number,
            reg_map matches Some(reg_map) ==> forall|tmp: int|
                0 <= tmp < reg_map@.len() ==> (#[trigger] reg_map@[tmp]).size == defs(
                    ir@,
                )[tmp].size(),
    {
        let mut allocator = self;
        let restricted_regs = allocator.generate_edges(ir);
        let reg_map = allocator.allocate_registers(regs, restricted_regs);
        proof {
            if reg_map is Some {
                let graph = interference_graph(ir@);
                lemma_interference_graph_wf(ir@);
                lemma_coloring_prefix(graph, preferences(ir@), regs@, defs(ir@).len(), 0);
                assert forall|a: int, b: int| interferes(ir@, a, b) implies (
                reg_map.unwrap()@[a]).number != reg_map.unwrap()@[b].number by {
                    assert(graph.edges.contains((a, b)));
                    lemma_neighbours_differ(graph, preferences(ir@), regs@, a, b);
                }
                assert forall|tmp: int| 0 <= tmp < reg_map.unwrap()@.len() implies (
                #[trigger] reg_map.unwrap()@[tmp]).size == defs(ir@)[tmp].size() by {
                    lemma_register_sizes(ir@, regs@, tmp);
                }
            }
        }
        reg_map
    }
}

/// Joining a temporary, where it is defined, with all that are alive after
/// its definition adds to the clashes of the later instructions exactly
/// those of the defining one.
proof fn lemma_define(
    instrs: Seq<Instruction>,
    i: int,
    edges_after: Set<(int, int)>,
    edges_before: Set<(int, int)>,
    flags: Seq<bool>,
)
    requires
        0 <= i < instrs.len(),
        closed_stream(instrs),
        instrs[i].defined() is Some,
        flags.len() == defs(instrs).len(),
        forall|t: int|
            0 <= t < flags.len() ==> #[trigger] flags[t] == (live_at(instrs, i + 1).contains(t)
                && t != instrs[i].defined().unwrap().id()),
        forall|a: int, b: int|
            edges_after.contains((a, b)) <==> interferes_from(instrs, i + 1, a, b),
        forall|a: int, b: int|
            edges_before.contains((a, b)) <==> edges_after.contains((a, b)) || (a
                == instrs[i].defined().unwrap().id() && 0 <= b < flags.len() && flags[b]) || (b
                == instrs[i].defined().unwrap().id() && 0 <= a < flags.len() && flags[a]),
    ensures
        forall|a: int, b: int| edges_before.contains((a, b)) <==> interferes_from(instrs, i, a, b),
{
    lemma_live_bounded(instrs, i + 1);
    assert forall|a: int, b: int| edges_before.contains((a, b)) <==> interferes_from(
        instrs,
        i,
        a,
        b,
    ) by {
        lemma_interferes_step(instrs, i, a, b);
    }
}

/// The temporaries that `ir` defines, in the order of their definitions.
pub fn collect_defs(ir: &[Instruction]) -> (nodes: Vec<Temporary>)
    ensures
        nodes@ == defs(ir@),
{
    let mut nodes: Vec<Temporary> = Vec::new();
    let mut i: usize = 0;
    while i < ir.len()
        invariant
            i <= ir@.len(),
            nodes@ == defs(ir@.take(i as int)),
        decreases ir@.len() - i,
    {
        proof {
            assert(ir@.take(i + 1) =~= ir@.take(i as int).push(ir@[i as int]));
            lemma_defs_push(ir@.take(i as int), ir@[i as int]);
        }
        match &ir[i] {
            Instruction::SetValue { dest, .. } => nodes.push(*dest),
            Instruction::Load { dest, .. } => nodes.push(*dest),
            Instruction::Add { dest, .. } => nodes.push(*dest),
            Instruction::CallResult { dest } => nodes.push(*dest),
            _ => {},
        }
        i += 1;
    }
    proof {
        assert(ir@.take(i as int) =~= ir@);
    }
    nodes
}

/// Once a node has found no register, no longer colouring exists.
pub proof fn lemma_coloring_fails(
    graph: Graph,
    restricted: Seq<Option<Register>>,
    palette: Seq<RegisterNumber>,
    k: nat,
    n: nat,
)
    requires
        k <= n,
        coloring(graph, restricted, palette, k) is None,
    ensures
        coloring(graph, restricted, palette, n) is None,
    decreases n - k,
{
    if k < n {
        lemma_coloring_fails(graph, restricted, palette, k, (n - 1) as nat);
    }
}

} // verus!
