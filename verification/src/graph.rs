//! Which temporaries are alive at the same time, which register each would
//! best live in, and how a graph of such conflicts is coloured with
//! registers.

use vstd::prelude::*;
use crate::arm64::register::{spec_arg_register, Register, RegisterNumber};
use crate::ir::{
    closed_stream, defs, known, uses_defined, well_numbered, Instruction, Temporary,
};

verus! {

/// An undirected graph over the temporaries of one function. A node is a
/// temporary's identifier, which is its position in `nodes`.
pub struct Graph {
    pub nodes: Seq<Temporary>,
    pub edges: Set<(int, int)>,
}

impl Graph {
    /// Both ends of every edge are nodes, no node is its own neighbour, and
    /// each edge runs both ways.
    pub open spec fn wf(self) -> bool {
        &&& forall|a: int, b: int| #[trigger]
            self.edges.contains((a, b)) ==> 0 <= a < self.nodes.len() && 0 <= b
                < self.nodes.len() && a != b
        &&& forall|a: int, b: int| #[trigger]
            self.edges.contains((a, b)) ==> self.edges.contains((b, a))
    }
}

/// The identifiers of the temporaries in `temps`.
pub open spec fn ids(temps: Seq<Temporary>) -> Set<int> {
    Set::new(|id: int| exists|j: int| 0 <= j < temps.len() && (#[trigger] temps[j]).id() == id)
}

/// The instruction at position `j` reads `tmp`, and none from position `i`
/// to before `j` defines it.
pub open spec fn read_before_defined(instrs: Seq<Instruction>, i: int, j: int, tmp: int) -> bool {
    &&& 0 <= i <= j < instrs.len()
    &&& ids(instrs[j].used()).contains(tmp)
    &&& forall|k: int|
        i <= k < j ==> !((#[trigger] instrs[k]).defined() matches Some(dest) && dest.id() == tmp)
}

/// The temporaries alive before the instruction at position `i`: those
/// that this instruction or a later one reads, with no definition in
/// between. Nothing is alive after the last instruction.
pub open spec fn live_at(instrs: Seq<Instruction>, i: int) -> Set<int> {
    Set::new(|tmp: int| exists|j: int| #[trigger] read_before_defined(instrs, i, j, tmp))
}

/// The temporaries alive before `inst`, given those alive after it: what
/// `inst` reads, and what is alive after it but for what `inst` defines.
pub open spec fn live_before(inst: Instruction, live_after: Set<int>) -> Set<int> {
    match inst.defined() {
        Some(dest) => live_after.remove(dest.id() as int).union(ids(inst.used())),
        None => live_after.union(ids(inst.used())),
    }
}

/// Going one instruction back: what is alive before an instruction follows
/// from the instruction and from what is alive after it.
pub proof fn lemma_live_step(instrs: Seq<Instruction>, i: int)
    requires
        0 <= i < instrs.len(),
    ensures
        live_at(instrs, i) == live_before(instrs[i], live_at(instrs, i + 1)),
{
    let here = live_at(instrs, i);
    let stepped = live_before(instrs[i], live_at(instrs, i + 1));
    assert forall|tmp: int| here.contains(tmp) <==> stepped.contains(tmp) by {
        let defined_here = instrs[i].defined() matches Some(dest) && dest.id() == tmp;
        if here.contains(tmp) {
            let j = choose|j: int| #[trigger] read_before_defined(instrs, i, j, tmp);
            if j > i {
                assert(!defined_here) by {
                    assert(instrs[i] == instrs[i]);
                }
                assert(read_before_defined(instrs, i + 1, j, tmp));
            }
        }
        if stepped.contains(tmp) {
            if ids(instrs[i].used()).contains(tmp) {
                assert(read_before_defined(instrs, i, i, tmp));
            } else {
                let j = choose|j: int| #[trigger] read_before_defined(instrs, i + 1, j, tmp);
                assert(read_before_defined(instrs, i, j, tmp));
            }
        }
    }
    assert(here =~= stepped);
}

/// Nothing is alive after the last instruction.
pub proof fn lemma_live_end(instrs: Seq<Instruction>)
    ensures
        live_at(instrs, instrs.len() as int) == Set::<int>::empty(),
{
    assert(live_at(instrs, instrs.len() as int) =~= Set::<int>::empty());
}

/// The instruction at position `i` defines `a` while another temporary,
/// `b`, is alive after it.
pub open spec fn defined_over(instrs: Seq<Instruction>, i: int, a: int, b: int) -> bool {
    &&& instrs[i].defined() matches Some(dest)
    &&& dest.id() == a
    &&& a != b
    &&& live_at(instrs, i + 1).contains(b)
}

/// One of `a` and `b` is defined at position `i` while the other is alive.
pub open spec fn clash_at(instrs: Seq<Instruction>, i: int, a: int, b: int) -> bool {
    defined_over(instrs, i, a, b) || defined_over(instrs, i, b, a)
}

/// `a` and `b` clash at a position from `from` on.
pub open spec fn interferes_from(instrs: Seq<Instruction>, from: int, a: int, b: int) -> bool {
    exists|i: int| from <= i < instrs.len() && #[trigger] clash_at(instrs, i, a, b)
}

/// `a` and `b` cannot share a register: one of them is defined while the
/// other is alive.
pub open spec fn interferes(instrs: Seq<Instruction>, a: int, b: int) -> bool {
    interferes_from(instrs, 0, a, b)
}

/// The graph whose edges join the temporaries that cannot share a register.
pub open spec fn interference_graph(instrs: Seq<Instruction>) -> Graph {
    Graph {
        nodes: defs(instrs),
        edges: Set::new(|edge: (int, int)| interferes(instrs, edge.0, edge.1)),
    }
}

/// The register that a call would like for `tmp`: that of the last of the
/// first `k` argument positions at which `tmp` stands. Only the first eight
/// positions have a register.
pub open spec fn bound_as_arg(args: Seq<Temporary>, tmp: int, k: int) -> Option<Register>
    decreases k,
{
    if k <= 0 {
        None
    } else if k <= 8 && k <= args.len() && args[k - 1].id() == tmp {
        spec_arg_register((k - 1) as u8, args[k - 1].size())
    } else {
        bound_as_arg(args, tmp, k - 1)
    }
}

/// The register that `inst` would like for `tmp`: the result register for
/// what it returns, the argument's register for what it passes.
pub open spec fn bound_by(inst: Instruction, tmp: int) -> Option<Register> {
    match inst {
        Instruction::Return { src: Some(src) } => if src.id() == tmp {
            Some(Register { number: RegisterNumber::R0, size: src.size() })
        } else {
            None
        },
        Instruction::Call { args, .. } => bound_as_arg(args@, tmp, args@.len() as int),
        _ => None,
    }
}

/// The register that the instructions from position `from` on would like
/// for `tmp`: that of the first among them that has a wish.
pub open spec fn preference_from(instrs: Seq<Instruction>, from: int, tmp: int) -> Option<
    Register,
>
    decreases instrs.len() - from,
{
    if 0 <= from < instrs.len() {
        match bound_by(instrs[from], tmp) {
            Some(reg) => Some(reg),
            None => preference_from(instrs, from + 1, tmp),
        }
    } else {
        None
    }
}

/// For each temporary, the register that it would best live in, if any.
pub open spec fn preferences(instrs: Seq<Instruction>) -> Seq<Option<Register>> {
    Seq::new(defs(instrs).len(), |tmp: int| preference_from(instrs, 0, tmp))
}

/// A neighbour of `node` among the nodes coloured so far has the register
/// `number`.
pub open spec fn taken(graph: Graph, colors: Seq<Register>, node: int, number: RegisterNumber)
    -> bool {
    exists|j: int|
        0 <= j < colors.len() && graph.edges.contains((node, j)) && (#[trigger] colors[j]).number
            == number
}

/// The first register of `palette`, from position `from` on, that no
/// coloured neighbour of `node` has.
pub open spec fn first_free(
    graph: Graph,
    colors: Seq<Register>,
    node: int,
    palette: Seq<RegisterNumber>,
    from: int,
) -> Option<RegisterNumber>
    decreases palette.len() - from,
{
    if 0 <= from < palette.len() {
        if !taken(graph, colors, node, palette[from]) {
            Some(palette[from])
        } else {
            first_free(graph, colors, node, palette, from + 1)
        }
    } else {
        None
    }
}

/// The register for `node`, given the registers of the nodes before it: the
/// one it prefers if no neighbour has it, else the first of `palette` that
/// no neighbour has, at the size of the node's temporary. None if the
/// neighbours have them all.
pub open spec fn pick(
    graph: Graph,
    restricted: Seq<Option<Register>>,
    palette: Seq<RegisterNumber>,
    colors: Seq<Register>,
    node: int,
) -> Option<Register> {
    if restricted[node] is Some && !taken(graph, colors, node, restricted[node].unwrap().number) {
        restricted[node]
    } else {
        match first_free(graph, colors, node, palette, 0) {
            Some(number) => Some(Register { number, size: graph.nodes[node].size() }),
            None => None,
        }
    }
}

/// The registers of the first `n` nodes, coloured one after another in the
/// order of their identifiers. None if one of them found no register.
pub open spec fn coloring(
    graph: Graph,
    restricted: Seq<Option<Register>>,
    palette: Seq<RegisterNumber>,
    n: nat,
) -> Option<Seq<Register>>
    decreases n,
{
    if n == 0 {
        Some(seq![])
    } else {
        match coloring(graph, restricted, palette, (n - 1) as nat) {
            Some(colors) => match pick(graph, restricted, palette, colors, n - 1) {
                Some(reg) => Some(colors.push(reg)),
                None => None,
            },
            None => None,
        }
    }
}

/// The register of every temporary of `instrs`, by identifier. None if the
/// registers of `palette` do not suffice.
pub open spec fn allocation(instrs: Seq<Instruction>, palette: Seq<RegisterNumber>) -> Option<
    Seq<Register>,
> {
    coloring(
        interference_graph(instrs),
        preferences(instrs),
        palette,
        defs(instrs).len(),
    )
}

/// `a` and `b` clash from `i` on if they clash at `i` or later.
pub proof fn lemma_interferes_step(instrs: Seq<Instruction>, i: int, a: int, b: int)
    requires
        0 <= i < instrs.len(),
    ensures
        interferes_from(instrs, i, a, b) <==> clash_at(instrs, i, a, b) || interferes_from(
            instrs,
            i + 1,
            a,
            b,
        ),
{
    if interferes_from(instrs, i, a, b) {
        let at = choose|at: int| i <= at < instrs.len() && #[trigger] clash_at(instrs, at, a, b);
        if at != i {
            assert(i + 1 <= at < instrs.len() && clash_at(instrs, at, a, b));
        }
    }
    if interferes_from(instrs, i + 1, a, b) {
        let at = choose|at: int|
            i + 1 <= at < instrs.len() && #[trigger] clash_at(instrs, at, a, b);
        assert(i <= at < instrs.len() && clash_at(instrs, at, a, b));
    }
}

/// What an instruction defines stands among the definitions.
pub proof fn lemma_defined_in_defs(instrs: Seq<Instruction>, i: int)
    requires
        0 <= i < instrs.len(),
        instrs[i].defined() is Some,
    ensures
        exists|k: int|
            0 <= k < defs(instrs).len() && #[trigger] defs(instrs)[k]
                == instrs[i].defined().unwrap(),
    decreases instrs.len(),
{
    let shorter = instrs.drop_last();
    if i == instrs.len() - 1 {
        assert(defs(instrs)[defs(shorter).len() as int] == instrs[i].defined().unwrap());
    } else {
        lemma_defined_in_defs(shorter, i);
        let k = choose|k: int|
            0 <= k < defs(shorter).len() && #[trigger] defs(shorter)[k]
                == shorter[i].defined().unwrap();
        assert(defs(instrs)[k] == instrs[i].defined().unwrap());
    }
}

/// Where definitions are numbered in order, what an instruction defines
/// is the definition under its own identifier.
pub proof fn lemma_defined_known(instrs: Seq<Instruction>, i: int)
    requires
        well_numbered(instrs),
        0 <= i < instrs.len(),
        instrs[i].defined() is Some,
    ensures
        known(defs(instrs), instrs[i].defined().unwrap()),
{
    lemma_defined_in_defs(instrs, i);
}

/// Only temporaries that the instructions define are ever alive.
pub proof fn lemma_live_bounded(instrs: Seq<Instruction>, i: int)
    requires
        uses_defined(instrs),
    ensures
        forall|tmp: int| #[trigger]
            live_at(instrs, i).contains(tmp) ==> 0 <= tmp < defs(instrs).len(),
{
    assert forall|tmp: int| #[trigger] live_at(instrs, i).contains(tmp) implies 0 <= tmp < defs(
        instrs,
    ).len() by {
        let j = choose|j: int| #[trigger] read_before_defined(instrs, i, j, tmp);
        let p = choose|p: int|
            0 <= p < instrs[j].used().len() && (#[trigger] instrs[j].used()[p]).id() == tmp;
        assert(known(defs(instrs), instrs[j].used()[p]));
    }
}

/// The interference graph of a closed stream is well formed.
pub proof fn lemma_interference_graph_wf(instrs: Seq<Instruction>)
    requires
        closed_stream(instrs),
    ensures
        interference_graph(instrs).wf(),
{
    let graph = interference_graph(instrs);
    assert forall|a: int, b: int| #[trigger] graph.edges.contains((a, b)) implies 0 <= a
        < graph.nodes.len() && 0 <= b < graph.nodes.len() && a != b && graph.edges.contains(
        (b, a),
    ) by {
        let i = choose|i: int| 0 <= i < instrs.len() && #[trigger] clash_at(instrs, i, a, b);
        lemma_defined_known(instrs, i);
        lemma_live_bounded(instrs, i + 1);
        assert(clash_at(instrs, i, b, a));
    }
}

/// A colouring of `n` nodes has `n` registers, and its start is the
/// colouring of fewer nodes.
pub proof fn lemma_coloring_prefix(
    graph: Graph,
    restricted: Seq<Option<Register>>,
    palette: Seq<RegisterNumber>,
    n: nat,
    k: nat,
)
    requires
        k <= n,
        coloring(graph, restricted, palette, n) is Some,
    ensures
        coloring(graph, restricted, palette, n).unwrap().len() == n,
        coloring(graph, restricted, palette, k) == Some(
            coloring(graph, restricted, palette, n).unwrap().take(k as int),
        ),
    decreases n,
{
    let colors = coloring(graph, restricted, palette, n).unwrap();
    if n == 0 {
        assert(colors.take(0) =~= colors);
    } else {
        let shorter = coloring(graph, restricted, palette, (n - 1) as nat).unwrap();
        lemma_coloring_prefix(graph, restricted, palette, (n - 1) as nat, if k < n {
            k
        } else {
            (n - 1) as nat
        });
        if k < n {
            assert(colors.take(k as int) =~= shorter.take(k as int));
        } else {
            assert(colors.take(k as int) =~= colors);
        }
    }
}

/// In a colouring, each node has the register that was picked for it when
/// the nodes before it had theirs.
pub proof fn lemma_coloring_node(
    graph: Graph,
    restricted: Seq<Option<Register>>,
    palette: Seq<RegisterNumber>,
    n: nat,
    node: int,
)
    requires
        0 <= node < n,
        coloring(graph, restricted, palette, n) is Some,
    ensures
        coloring(graph, restricted, palette, n).unwrap().len() == n,
        pick(
            graph,
            restricted,
            palette,
            coloring(graph, restricted, palette, n).unwrap().take(node),
            node,
        ) == Some(coloring(graph, restricted, palette, n).unwrap()[node]),
{
    let colors = coloring(graph, restricted, palette, n).unwrap();
    lemma_coloring_prefix(graph, restricted, palette, n, (node + 1) as nat);
    lemma_coloring_prefix(graph, restricted, palette, n, node as nat);
    assert(colors.take(node + 1)[node] == colors[node]);
}

/// The first free register is one of the palette that no coloured
/// neighbour has, and those before it in the palette are all taken.
pub proof fn lemma_first_free(
    graph: Graph,
    colors: Seq<Register>,
    node: int,
    palette: Seq<RegisterNumber>,
    from: int,
)
    requires
        0 <= from,
    ensures
        match first_free(graph, colors, node, palette, from) {
            Some(number) => exists|k: int|
                from <= k < palette.len() && #[trigger] palette[k] == number && !taken(
                    graph,
                    colors,
                    node,
                    number,
                ) && forall|j: int|
                    from <= j < k ==> taken(graph, colors, node, #[trigger] palette[j]),
            None => forall|j: int|
                from <= j < palette.len() ==> taken(graph, colors, node, #[trigger] palette[j]),
        },
    decreases palette.len() - from,
{
    if from < palette.len() {
        if !taken(graph, colors, node, palette[from]) {
            assert(palette[from] == palette[from]);
        } else {
            lemma_first_free(graph, colors, node, palette, from + 1);
            match first_free(graph, colors, node, palette, from + 1) {
                Some(number) => {
                    let k = choose|k: int|
                        from + 1 <= k < palette.len() && #[trigger] palette[k] == number && !taken(
                            graph,
                            colors,
                            node,
                            number,
                        ) && forall|j: int|
                            from + 1 <= j < k ==> taken(graph, colors, node, #[trigger] palette[j]);
                    assert(from <= k < palette.len() && palette[k] == number);
                },
                None => {},
            }
        }
    }
}

/// A node lives in the register it prefers if no neighbour before it has
/// that register. Any other node lives in the first register of the palette
/// that no neighbour before it has, at the size of its temporary.
pub proof fn lemma_preference_honoured(
    graph: Graph,
    restricted: Seq<Option<Register>>,
    palette: Seq<RegisterNumber>,
    node: int,
)
    requires
        0 <= node < graph.nodes.len(),
        coloring(graph, restricted, palette, graph.nodes.len()) is Some,
    ensures
        ({
            let colors = coloring(graph, restricted, palette, graph.nodes.len()).unwrap();
            let before = colors.take(node);
            if restricted[node] is Some && !taken(
                graph,
                before,
                node,
                restricted[node].unwrap().number,
            ) {
                colors[node] == restricted[node].unwrap()
            } else {
                &&& first_free(graph, before, node, palette, 0) == Some(colors[node].number)
                &&& palette.contains(colors[node].number)
                &&& !taken(graph, before, node, colors[node].number)
                &&& colors[node].size == graph.nodes[node].size()
            }
        }),
{
    let colors = coloring(graph, restricted, palette, graph.nodes.len()).unwrap();
    lemma_coloring_node(graph, restricted, palette, graph.nodes.len(), node);
    lemma_first_free(graph, colors.take(node), node, palette, 0);
}

/// No two neighbours share a register.
pub proof fn lemma_neighbours_differ(
    graph: Graph,
    restricted: Seq<Option<Register>>,
    palette: Seq<RegisterNumber>,
    a: int,
    b: int,
)
    requires
        graph.wf(),
        graph.edges.contains((a, b)),
        coloring(graph, restricted, palette, graph.nodes.len()) is Some,
    ensures
        ({
            let colors = coloring(graph, restricted, palette, graph.nodes.len()).unwrap();
            colors[a].number != colors[b].number
        }),
{
    let colors = coloring(graph, restricted, palette, graph.nodes.len()).unwrap();
    assert(graph.edges.contains((b, a)));
    let (low, high) = if a < b {
        (a, b)
    } else {
        (b, a)
    };
    lemma_preference_honoured(graph, restricted, palette, high);
    lemma_coloring_prefix(graph, restricted, palette, graph.nodes.len(), high as nat);
    let before = colors.take(high);
    assert(graph.edges.contains((high, low)));
    assert(before[low] == colors[low]);
    if colors[low].number == colors[high].number {
        assert(taken(graph, before, high, colors[high].number));
    }
}

/// No two temporaries that are alive at the same time share a register.
pub proof fn lemma_no_shared_register(
    instrs: Seq<Instruction>,
    palette: Seq<RegisterNumber>,
    a: Temporary,
    b: Temporary,
)
    requires
        closed_stream(instrs),
        interferes(instrs, a.id() as int, b.id() as int),
        allocation(instrs, palette) is Some,
    ensures
        ({
            let registers = allocation(instrs, palette).unwrap();
            registers[a.id() as int].number != registers[b.id() as int].number
        }),
{
    lemma_interference_graph_wf(instrs);
    let graph = interference_graph(instrs);
    assert(graph.edges.contains((a.id() as int, b.id() as int)));
    lemma_neighbours_differ(graph, preferences(instrs), palette, a.id() as int, b.id() as int);
}

/// The wish of the first instruction that has one for `tmp` is the
/// preference of `tmp`.
pub proof fn lemma_first_wish(instrs: Seq<Instruction>, from: int, i: int, tmp: int)
    requires
        0 <= from <= i < instrs.len(),
        bound_by(instrs[i], tmp) is Some,
        forall|j: int| from <= j < i ==> bound_by(#[trigger] instrs[j], tmp) is None,
    ensures
        preference_from(instrs, from, tmp) == bound_by(instrs[i], tmp),
    decreases i - from,
{
    if from < i {
        assert(bound_by(instrs[from], tmp) is None);
        lemma_first_wish(instrs, from + 1, i, tmp);
    }
}

/// A call would like the temporary at position `p` to live in the register
/// of that position, if the position is among the first eight and the
/// temporary stands at no later one of them.
pub proof fn lemma_bound_as_arg(args: Seq<Temporary>, p: int, k: int)
    requires
        0 <= p < k <= args.len(),
        p < 8,
        forall|q: int| p < q < args.len() && q < 8 ==> (#[trigger] args[q]).id() != args[p].id(),
    ensures
        bound_as_arg(args, args[p].id() as int, k) == spec_arg_register(p as u8, args[p].size()),
    decreases k,
{
    if k - 1 > p {
        lemma_bound_as_arg(args, p, k - 1);
    }
}

/// The register that a call would like for a temporary has the size of
/// the temporary.
pub proof fn lemma_bound_as_arg_size(args: Seq<Temporary>, nodes: Seq<Temporary>, tmp: int, k: int)
    requires
        0 <= tmp < nodes.len(),
        k <= args.len(),
        forall|j: int| 0 <= j < args.len() ==> known(nodes, #[trigger] args[j]),
        bound_as_arg(args, tmp, k) is Some,
    ensures
        bound_as_arg(args, tmp, k).unwrap().size == nodes[tmp].size(),
    decreases k,
{
    if k > 0 {
        if k <= 8 && args[k - 1].id() == tmp {
            assert(known(nodes, args[k - 1]));
        } else {
            lemma_bound_as_arg_size(args, nodes, tmp, k - 1);
        }
    }
}

/// The register that a temporary would best live in has the size of the
/// temporary.
pub proof fn lemma_preference_size(instrs: Seq<Instruction>, from: int, tmp: int)
    requires
        uses_defined(instrs),
        0 <= from,
        0 <= tmp < defs(instrs).len(),
        preference_from(instrs, from, tmp) is Some,
    ensures
        preference_from(instrs, from, tmp).unwrap().size == defs(instrs)[tmp].size(),
    decreases instrs.len() - from,
{
    if from < instrs.len() {
        let inst = instrs[from];
        if bound_by(inst, tmp) is Some {
            assert forall|j: int| 0 <= j < inst.used().len() implies known(
                defs(instrs),
                #[trigger] inst.used()[j],
            ) by {
                assert(known(defs(instrs), instrs[from].used()[j]));
            }
            match inst {
                Instruction::Return { src: Some(src) } => {
                    assert(inst.used()[0] == src);
                },
                Instruction::Call { args, .. } => {
                    lemma_bound_as_arg_size(args@, defs(instrs), tmp, args@.len() as int);
                },
                _ => {},
            }
        } else {
            lemma_preference_size(instrs, from + 1, tmp);
        }
    }
}

/// Every temporary lives in a register of its own size.
pub proof fn lemma_register_sizes(instrs: Seq<Instruction>, palette: Seq<RegisterNumber>, tmp: int)
    requires
        closed_stream(instrs),
        0 <= tmp < defs(instrs).len(),
        allocation(instrs, palette) is Some,
    ensures
        allocation(instrs, palette).unwrap().len() == defs(instrs).len(),
        allocation(instrs, palette).unwrap()[tmp].size == defs(instrs)[tmp].size(),
{
    let graph = interference_graph(instrs);
    lemma_coloring_prefix(graph, preferences(instrs), palette, defs(instrs).len(), 0);
    lemma_preference_honoured(graph, preferences(instrs), palette, tmp);
    if preferences(instrs)[tmp] is Some {
        lemma_preference_size(instrs, 0, tmp);
    }
}

/// Whether `number` is one of the eight registers in which arguments
/// travel, the first of which also takes the result.
pub open spec fn is_arg_number(number: RegisterNumber) -> bool {
    number.index() < 8
}

/// What a call would like for a temporary is one of the registers in
/// which arguments travel.
pub proof fn lemma_bound_as_arg_number(args: Seq<Temporary>, tmp: int, k: int)
    requires
        bound_as_arg(args, tmp, k) is Some,
    ensures
        is_arg_number(bound_as_arg(args, tmp, k).unwrap().number),
    decreases k,
{
    if k > 0 && !(k <= 8 && k <= args.len() && args[k - 1].id() == tmp) {
        lemma_bound_as_arg_number(args, tmp, k - 1);
    }
}

/// What a temporary would best live in is one of the registers in which
/// arguments travel.
pub proof fn lemma_preference_number(instrs: Seq<Instruction>, from: int, tmp: int)
    requires
        0 <= from,
        preference_from(instrs, from, tmp) is Some,
    ensures
        is_arg_number(preference_from(instrs, from, tmp).unwrap().number),
    decreases instrs.len() - from,
{
    if from < instrs.len() {
        let inst = instrs[from];
        if bound_by(inst, tmp) is Some {
            if inst is Call {
                lemma_bound_as_arg_number(inst.used(), tmp, inst.used().len() as int);
            }
        } else {
            lemma_preference_number(instrs, from + 1, tmp);
        }
    }
}

/// Every temporary lives in a register of the palette or in one of the
/// registers in which arguments travel: the allocator hands out no other.
pub proof fn lemma_allocated_numbers(
    instrs: Seq<Instruction>,
    palette: Seq<RegisterNumber>,
    tmp: int,
)
    requires
        0 <= tmp < defs(instrs).len(),
        allocation(instrs, palette) is Some,
    ensures
        palette.contains(allocation(instrs, palette).unwrap()[tmp].number) || is_arg_number(
            allocation(instrs, palette).unwrap()[tmp].number,
        ),
{
    lemma_preference_honoured(interference_graph(instrs), preferences(instrs), palette, tmp);
    if preferences(instrs)[tmp] is Some {
        lemma_preference_number(instrs, 0, tmp);
    }
}

/// What a return hands back lives in the result register, at its own
/// size, if no earlier instruction has a wish for it and no neighbour
/// coloured before it has that register. If such a neighbour has it, the
/// temporary lives in the first register of the palette that is free.
pub proof fn lemma_returned_in_result_register(
    instrs: Seq<Instruction>,
    palette: Seq<RegisterNumber>,
    i: int,
    src: Temporary,
)
    requires
        closed_stream(instrs),
        0 <= i < instrs.len(),
        instrs[i] == (Instruction::Return { src: Some(src) }),
        forall|j: int| 0 <= j < i ==> bound_by(#[trigger] instrs[j], src.id() as int) is None,
        allocation(instrs, palette) is Some,
    ensures
        ({
            let graph = interference_graph(instrs);
            let registers = allocation(instrs, palette).unwrap();
            let before = registers.take(src.id() as int);
            let node = src.id() as int;
            if !taken(graph, before, node, RegisterNumber::R0) {
                registers[node] == (Register { number: RegisterNumber::R0, size: src.size() })
            } else {
                &&& first_free(graph, before, node, palette, 0) == Some(registers[node].number)
                &&& palette.contains(registers[node].number)
                &&& registers[node].size == src.size()
            }
        }),
{
    let node = src.id() as int;
    assert(instrs[i].used()[0] == src);
    assert(known(defs(instrs), src));
    lemma_first_wish(instrs, 0, i, node);
    lemma_preference_honoured(interference_graph(instrs), preferences(instrs), palette, node);
}

/// Among the first eight arguments of a call, the one at position `p`
/// lives in the register of that position, at its own size, if no earlier
/// instruction has a wish for it, it stands at no later one of those
/// positions, and no neighbour coloured before it has that register. If
/// such a neighbour has it, the temporary lives in the first register of
/// the palette that is free.
pub proof fn lemma_argument_in_its_register(
    instrs: Seq<Instruction>,
    palette: Seq<RegisterNumber>,
    i: int,
    p: int,
)
    requires
        closed_stream(instrs),
        0 <= i < instrs.len(),
        instrs[i] is Call,
        0 <= p < instrs[i].used().len(),
        p < 8,
        forall|j: int|
            0 <= j < i ==> bound_by(#[trigger] instrs[j], instrs[i].used()[p].id() as int) is None,
        forall|q: int|
            p < q < instrs[i].used().len() && q < 8 ==> (#[trigger] instrs[i].used()[q]).id()
                != instrs[i].used()[p].id(),
        allocation(instrs, palette) is Some,
    ensures
        ({
            let arg = instrs[i].used()[p];
            let graph = interference_graph(instrs);
            let registers = allocation(instrs, palette).unwrap();
            let before = registers.take(arg.id() as int);
            let node = arg.id() as int;
            let wish = spec_arg_register(p as u8, arg.size()).unwrap();
            if !taken(graph, before, node, wish.number) {
                registers[node] == wish
            } else {
                &&& first_free(graph, before, node, palette, 0) == Some(registers[node].number)
                &&& palette.contains(registers[node].number)
                &&& registers[node].size == arg.size()
            }
        }),
{
    let args = instrs[i].used();
    let arg = args[p];
    let node = arg.id() as int;
    assert(known(defs(instrs), arg));
    lemma_bound_as_arg(args, p, args.len() as int);
    lemma_first_wish(instrs, 0, i, node);
    lemma_preference_honoured(interference_graph(instrs), preferences(instrs), palette, node);
}

} // verus!
