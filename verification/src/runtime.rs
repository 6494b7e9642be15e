//! The graph-driven runtime.
//!
//! A program is a graph of instructions.  The runtime alternates between two
//! directions: traversing, it walks from the current node to its first
//! out-neighbour, pushing each node's instruction on the instruction stack
//! (pushing an instruction also runs its "add" effect, which may itself jump);
//! executing, it pops instructions and runs them against the data stack, the
//! scope stack and the heap.  It stops when the instruction stack is empty.
//!
//! Every operation below is modelled exactly, with `None` standing for the
//! states in which the operation cannot go on (an index out of range, an
//! integer overflow, a division by zero, an empty stack it relies on) or would
//! recurse without end; the operations require that this does not happen.
//! Jumps recurse (pushing an `IF` jumps to its condition, which may be another
//! `IF`), so each model takes a `fuel` bounding the depth of that recursion.

use vstd::prelude::*;
use petgraph::csr::Csr;
use crate::graph::{graph_nodes, graph_neighbors, graph_node, graph_neighbors_of, graph_node_count};

verus! {

/// A runtime instruction.
#[derive(Clone, Copy, Debug, PartialEq, Eq)]
pub enum Instr {
    ADD,
    SUB,
    MUL,
    DIV,
    RET { node: u32, path: u32 },
    SCP { addr: u32, alloc: u32 },
    SPK { n: u32 },
    POP,
    PSH { data: u32 },
    LOA { addr: u32 },
    CALL { node: u32 },
    IF { cond: u32, t: u32, f: u32 },
}

/// A heap cell.
#[derive(Default, Clone, Copy, Debug, PartialEq, Eq)]
pub enum HeapKind {
    #[default]
    Empty,
    Error,
    Num(u32),
}

/// Whether the runtime is walking the graph or executing what it pushed.
#[derive(Default, Clone, Copy, Debug, PartialEq, Eq)]
pub enum RTDirection {
    Execute,
    #[default]
    Traverse,
}

/// The runtime's state, apart from its graph.
#[verifier::ext_equal]
pub struct RtModel {
    pub heap: Seq<HeapKind>,
    pub alloc_ptr: u32,
    pub node_ptr: u32,
    pub scope_st: Seq<u32>,
    pub scope_st_ptr: u32,
    pub instr_st: Seq<Instr>,
    pub data_st: Seq<u32>,
    pub entry_point: u32,
    pub run_direction: RTDirection,
}

/// The runtime's graph: the instruction on each node and each node's
/// out-neighbours.
pub struct GraphModel {
    pub nodes: Seq<Instr>,
    pub nbrs: Seq<Seq<u32>>,
}

/// A stack after `Vec::pop`: one shorter, or unchanged when empty.
pub open spec fn popped<T>(s: Seq<T>) -> Seq<T> {
    if s.len() == 0 {
        s
    } else {
        s.drop_last()
    }
}

/// Appends `num` fresh cells to the heap and advances the allocation pointer.
pub open spec fn alloc_spec(s: RtModel, num: u32) -> Option<RtModel> {
    if s.alloc_ptr + num > u32::MAX || s.heap.len() + num > usize::MAX {
        None
    } else {
        Some(
            RtModel {
                alloc_ptr: (s.alloc_ptr + num) as u32,
                heap: s.heap + Seq::new(num as nat, |i: int| HeapKind::Empty),
                ..s
            },
        )
    }
}

/// The heap cell `addr` cells into the scope `scope_st_ptr` levels below the
/// top of the scope stack.
pub open spec fn scope_slot(s: RtModel, addr: u32) -> Option<int> {
    if s.scope_st.len() == 0 || s.scope_st.len() - 1 < s.scope_st_ptr {
        None
    } else {
        let base = s.scope_st[s.scope_st.len() - 1 - s.scope_st_ptr];
        if base + addr > u32::MAX || base + addr >= s.heap.len() {
            None
        } else {
            Some(base + addr)
        }
    }
}

/// Pushing `instr`: it goes on the instruction stack, then its "add" effect runs.
pub open spec fn push_spec(g: GraphModel, s: RtModel, instr: Instr, fuel: nat) -> Option<RtModel>
    decreases fuel, 2nat,
{
    add_spec(g, RtModel { instr_st: s.instr_st.push(instr), ..s }, instr, fuel)
}

/// The "add" effect of `instr`: arithmetic pushes a return to the current
/// node; `SCP` opens a scope of `alloc` cells, recording its base at `addr` in
/// the enclosing one; `SPK` looks `n` scopes further out; `LOA` of a number
/// switches to executing with that number on the data stack (dropping the
/// `LOA`); `IF` jumps to its condition and keeps traversing.
pub open spec fn add_spec(g: GraphModel, s: RtModel, instr: Instr, fuel: nat) -> Option<RtModel>
    decreases fuel, 1nat,
{
    match instr {
        Instr::ADD | Instr::SUB | Instr::MUL | Instr::DIV => {
            if fuel == 0 {
                None
            } else {
                push_spec(g, s, Instr::RET { node: s.node_ptr, path: 1 }, (fuel - 1) as nat)
            }
        },
        Instr::SCP { addr, alloc } => {
            if s.scope_st.len() == 0 {
                None
            } else {
                let a = s.scope_st.last() + addr;
                if a > u32::MAX || a >= s.heap.len() {
                    None
                } else {
                    alloc_spec(
                        RtModel {
                            heap: s.heap.update(a, HeapKind::Num(s.alloc_ptr)),
                            scope_st: s.scope_st.push(s.alloc_ptr),
                            ..s
                        },
                        alloc,
                    )
                }
            }
        },
        Instr::SPK { n } => {
            if s.scope_st_ptr + n > u32::MAX {
                None
            } else {
                Some(RtModel { scope_st_ptr: (s.scope_st_ptr + n) as u32, ..s })
            }
        },
        Instr::LOA { addr } => {
            match scope_slot(s, addr) {
                None => None,
                Some(k) => match s.heap[k] {
                    HeapKind::Num(n) => Some(
                        RtModel {
                            run_direction: RTDirection::Execute,
                            instr_st: popped(s.instr_st),
                            data_st: s.data_st.push(n),
                            ..s
                        },
                    ),
                    _ => Some(s),
                },
            }
        },
        Instr::IF { cond, .. } => {
            match set_node_spec(g, s, cond, fuel) {
                None => None,
                Some(s2) => Some(RtModel { run_direction: RTDirection::Traverse, ..s2 }),
            }
        },
        _ => Some(s),
    }
}

/// Jumping to `node`: it becomes the current node and its instruction is pushed.
pub open spec fn set_node_spec(g: GraphModel, s: RtModel, node: u32, fuel: nat) -> Option<RtModel>
    decreases fuel, 0nat,
{
    if node >= g.nodes.len() || fuel == 0 {
        None
    } else {
        push_spec(g, RtModel { node_ptr: node, ..s }, g.nodes[node as int], (fuel - 1) as nat)
    }
}

/// Executing `instr`: arithmetic on the top two data values (the top one is
/// the left operand); `RET` jumps to neighbour `path` of `node`; `SCP` closes
/// a scope; `SPK` looks `n` scopes back in; `POP` and `PSH` pop and push data;
/// `LOA` stores the top data value in its cell; `CALL` jumps; `IF` pops a
/// condition and jumps to `t` when it is non-zero, to `f` otherwise.
pub open spec fn exe_spec(g: GraphModel, s: RtModel, instr: Instr, fuel: nat) -> Option<RtModel> {
    let d = s.data_st;
    match instr {
        Instr::ADD => if d.len() < 2 || d[d.len() - 1] + d[d.len() - 2] > u32::MAX {
            None
        } else {
            Some(RtModel { data_st: d.take(d.len() - 2).push((d[d.len() - 1] + d[d.len() - 2]) as u32), ..s })
        },
        Instr::SUB => if d.len() < 2 || d[d.len() - 1] < d[d.len() - 2] {
            None
        } else {
            Some(RtModel { data_st: d.take(d.len() - 2).push((d[d.len() - 1] - d[d.len() - 2]) as u32), ..s })
        },
        Instr::MUL => if d.len() < 2 || d[d.len() - 1] * d[d.len() - 2] > u32::MAX {
            None
        } else {
            Some(RtModel { data_st: d.take(d.len() - 2).push((d[d.len() - 1] * d[d.len() - 2]) as u32), ..s })
        },
        Instr::DIV => if d.len() < 2 || d[d.len() - 2] == 0 {
            None
        } else {
            Some(RtModel { data_st: d.take(d.len() - 2).push((d[d.len() - 1] / d[d.len() - 2]) as u32), ..s })
        },
        Instr::RET { node, path } => {
            if node >= g.nodes.len() || path >= g.nbrs[node as int].len() {
                None
            } else {
                set_node_spec(
                    g,
                    RtModel { run_direction: RTDirection::Traverse, ..s },
                    g.nbrs[node as int][path as int],
                    fuel,
                )
            }
        },
        Instr::SCP { .. } => Some(RtModel { scope_st: popped(s.scope_st), ..s }),
        Instr::SPK { n } => if s.scope_st_ptr < n {
            None
        } else {
            Some(RtModel { scope_st_ptr: (s.scope_st_ptr - n) as u32, ..s })
        },
        Instr::POP => Some(RtModel { data_st: popped(d), ..s }),
        Instr::PSH { data } => Some(RtModel { data_st: d.push(data), ..s }),
        Instr::LOA { addr } => {
            if d.len() == 0 {
                None
            } else {
                match scope_slot(s, addr) {
                    None => None,
                    Some(k) => Some(RtModel { heap: s.heap.update(k, HeapKind::Num(d.last())), ..s }),
                }
            }
        },
        Instr::CALL { node } => set_node_spec(g, RtModel { run_direction: RTDirection::Traverse, ..s }, node, fuel),
        Instr::IF { t, f, .. } => {
            if d.len() == 0 {
                None
            } else {
                set_node_spec(
                    g,
                    RtModel { data_st: d.drop_last(), run_direction: RTDirection::Traverse, ..s },
                    if d.last() != 0 { t } else { f },
                    fuel,
                )
            }
        },
    }
}

/// The start of a run: enter the entry point with a first scope at heap cell 0.
pub open spec fn run_start(g: GraphModel, s: RtModel, fuel: nat) -> Option<RtModel> {
    if s.entry_point >= g.nodes.len() {
        None
    } else {
        push_spec(
            g,
            RtModel { node_ptr: s.entry_point, scope_st: s.scope_st.push(0), scope_st_ptr: 0, ..s },
            g.nodes[s.entry_point as int],
            fuel,
        )
    }
}

/// One turn of the run loop (on a non-empty instruction stack): executing pops
/// and runs an instruction; traversing moves to the first neighbour of the
/// current node and pushes its instruction, or turns to executing at a node
/// without neighbours.
pub open spec fn loop_step(g: GraphModel, s: RtModel, fuel: nat) -> Option<RtModel> {
    match s.run_direction {
        RTDirection::Execute => exe_spec(
            g,
            RtModel { instr_st: s.instr_st.drop_last(), ..s },
            s.instr_st.last(),
            fuel,
        ),
        RTDirection::Traverse => {
            if s.node_ptr >= g.nodes.len() {
                None
            } else if g.nbrs[s.node_ptr as int].len() == 0 {
                Some(RtModel { run_direction: RTDirection::Execute, ..s })
            } else {
                let n0 = g.nbrs[s.node_ptr as int][0];
                if n0 >= g.nodes.len() {
                    None
                } else {
                    push_spec(g, RtModel { node_ptr: n0, ..s }, g.nodes[n0 as int], fuel)
                }
            }
        },
    }
}

/// At most `steps` turns of the run loop, stopping when the instruction stack
/// is empty; `None` if it panics or is still going after `steps` turns.
pub open spec fn run_loop(g: GraphModel, s: RtModel, steps: nat, fuel: nat) -> Option<RtModel>
    decreases steps,
{
    if s.instr_st.len() == 0 {
        Some(s)
    } else if steps == 0 {
        None
    } else {
        match loop_step(g, s, fuel) {
            None => None,
            Some(s2) => run_loop(g, s2, (steps - 1) as nat, fuel),
        }
    }
}

/// A whole run, within `steps` turns and jump depth `fuel`.
pub open spec fn run_spec(g: GraphModel, s: RtModel, steps: nat, fuel: nat) -> Option<RtModel> {
    match run_start(g, s, fuel) {
        None => None,
        Some(s1) => run_loop(g, s1, steps, fuel),
    }
}

} // verus!

verus! {

/// The runtime: its instruction graph and its state.
pub struct Runtime {
    pub graph: Csr<Instr, ()>,
    pub heap: Vec<HeapKind>,
    pub alloc_ptr: u32,
    pub node_ptr: u32,
    pub scope_st: Vec<u32>,
    pub scope_st_ptr: u32,
    pub instr_st: Vec<Instr>,
    pub data_st: Vec<u32>,
    pub entry_point: u32,
    pub run_direction: RTDirection,
}

impl Runtime {
    pub open spec fn model(&self) -> RtModel {
        RtModel {
            heap: self.heap@,
            alloc_ptr: self.alloc_ptr,
            node_ptr: self.node_ptr,
            scope_st: self.scope_st@,
            scope_st_ptr: self.scope_st_ptr,
            instr_st: self.instr_st@,
            data_st: self.data_st@,
            entry_point: self.entry_point,
            run_direction: self.run_direction,
        }
    }

    pub open spec fn graph_model(&self) -> GraphModel {
        GraphModel { nodes: graph_nodes(self.graph), nbrs: graph_neighbors(self.graph) }
    }

    /// A runtime on graph `g`, with everything else empty or zero and the
    /// direction set to traversing.
    pub fn new(g: Csr<Instr, ()>) -> (rt: Self)
        ensures
            rt.graph == g,
            rt.model() == (RtModel {
                heap: seq![],
                alloc_ptr: 0,
                node_ptr: 0,
                scope_st: seq![],
                scope_st_ptr: 0,
                instr_st: seq![],
                data_st: seq![],
                entry_point: 0,
                run_direction: RTDirection::Traverse,
            }),
    {
        let rt = Runtime {
            graph: g,
            heap: Vec::new(),
            alloc_ptr: 0,
            node_ptr: 0,
            scope_st: Vec::new(),
            scope_st_ptr: 0,
            instr_st: Vec::new(),
            data_st: Vec::new(),
            entry_point: 0,
            run_direction: RTDirection::Traverse,
        };
        assert(rt.model() =~= (RtModel {
            heap: seq![],
            alloc_ptr: 0,
            node_ptr: 0,
            scope_st: seq![],
            scope_st_ptr: 0,
            instr_st: seq![],
            data_st: seq![],
            entry_point: 0,
            run_direction: RTDirection::Traverse,
        }));
        rt
    }

    /// Appends `num` empty cells to the heap and advances the allocation pointer.
    pub fn allocate(&mut self, num: u32)
        requires
            alloc_spec(old(self).model(), num) is Some,
        ensures
            final(self).model() == alloc_spec(old(self).model(), num)->0,
            final(self).graph == old(self).graph,
    {
        self.alloc_ptr = self.alloc_ptr + num;
        let mut i: u32 = 0;
        while i < num
            invariant
                i <= num,
                old(self).heap@.len() + num <= usize::MAX,
                self.heap@ == old(self).heap@ + Seq::new(i as nat, |k: int| HeapKind::Empty),
                self.model() == (RtModel { heap: self.heap@, ..alloc_spec(old(self).model(), num)->0 }),
                self.graph == old(self).graph,
            decreases num - i,
        {
            self.heap.push(HeapKind::Empty);
            i = i + 1;
            assert(self.heap@ =~= old(self).heap@ + Seq::new(i as nat, |k: int| HeapKind::Empty));
        }
        assert(self.model() =~= alloc_spec(old(self).model(), num)->0);
    }

    /// Writes `val` into heap cell `addr`.
    pub fn mem_wr(&mut self, addr: u32, val: HeapKind)
        requires
            addr < old(self).heap@.len(),
        ensures
            final(self).model() == (RtModel { heap: old(self).heap@.update(addr as int, val), ..old(self).model() }),
            final(self).graph == old(self).graph,
    {
        self.heap.set(addr as usize, val);
    }

    /// The content of heap cell `addr`.
    pub fn mem_rd(&self, addr: u32) -> (v: HeapKind)
        requires
            addr < self.heap@.len(),
        ensures
            v == self.heap@[addr as int],
    {
        self.heap[addr as usize]
    }
}

} // verus!

verus! {

impl Runtime {
    fn push_instr_fuel(&mut self, instr: Instr, Ghost(fuel): Ghost<nat>)
        requires
            push_spec(old(self).graph_model(), old(self).model(), instr, fuel) is Some,
        ensures
            final(self).model() == push_spec(old(self).graph_model(), old(self).model(), instr, fuel)->0,
            final(self).graph == old(self).graph,
        decreases fuel, 2nat,
    {
        self.instr_st.push(instr);
        instr.add_fuel(self, Ghost(fuel));
    }

    fn set_node_ptr_fuel(&mut self, node: &u32, Ghost(fuel): Ghost<nat>)
        requires
            set_node_spec(old(self).graph_model(), old(self).model(), *node, fuel) is Some,
        ensures
            final(self).model() == set_node_spec(old(self).graph_model(), old(self).model(), *node, fuel)->0,
            final(self).graph == old(self).graph,
        decreases fuel, 0nat,
    {
        self.node_ptr = *node;
        let instr = graph_node(&self.graph, self.node_ptr);
        self.push_instr_fuel(instr, Ghost((fuel - 1) as nat));
    }

    /// The heap cell `addr` cells into the scope `scope_st_ptr` levels below
    /// the top of the scope stack.
    fn scope_slot_of(&self, addr: u32) -> (k: usize)
        requires
            scope_slot(self.model(), addr) is Some,
        ensures
            k == scope_slot(self.model(), addr)->0,
    {
        let scope_addr = self.scope_st[self.scope_st.len() - 1 - self.scope_st_ptr as usize];
        (scope_addr + addr) as usize
    }
}

impl Instr {
    fn add_fuel(&self, rt: &mut Runtime, Ghost(fuel): Ghost<nat>)
        requires
            add_spec(old(rt).graph_model(), old(rt).model(), *self, fuel) is Some,
        ensures
            final(rt).model() == add_spec(old(rt).graph_model(), old(rt).model(), *self, fuel)->0,
            final(rt).graph == old(rt).graph,
        decreases fuel, 1nat,
    {
        match self {
            Instr::ADD | Instr::SUB | Instr::MUL | Instr::DIV => {
                rt.push_instr_fuel(Instr::RET { node: rt.node_ptr, path: 1 }, Ghost((fuel - 1) as nat));
            },
            Instr::SCP { addr, alloc } => {
                let top = rt.scope_st[rt.scope_st.len() - 1];
                let heap_addr = (top + *addr) as usize;
                rt.heap.set(heap_addr, HeapKind::Num(rt.alloc_ptr));
                rt.scope_st.push(rt.alloc_ptr);
                rt.allocate(*alloc);
            },
            Instr::SPK { n } => {
                rt.scope_st_ptr = rt.scope_st_ptr + *n;
            },
            Instr::LOA { addr } => {
                let slot = rt.scope_slot_of(*addr);
                let heap_data = rt.heap[slot];
                if let HeapKind::Num(n) = heap_data {
                    rt.run_direction = RTDirection::Execute;
                    rt.instr_st.pop();
                    rt.data_st.push(n);
                }
            },
            Instr::IF { cond, .. } => {
                rt.set_node_ptr_fuel(cond, Ghost(fuel));
                rt.run_direction = RTDirection::Traverse;
            },
            _ => (),
        }
    }

    fn exe_fuel(&self, rt: &mut Runtime, Ghost(fuel): Ghost<nat>)
        requires
            exe_spec(old(rt).graph_model(), old(rt).model(), *self, fuel) is Some,
        ensures
            final(rt).model() == exe_spec(old(rt).graph_model(), old(rt).model(), *self, fuel)->0,
            final(rt).graph == old(rt).graph,
    {
        match self {
            Instr::ADD => {
                let a = pop_data(rt);
                let b = pop_data(rt);
                rt.data_st.push(a + b);
            proof { assert(rt.model() =~= exe_spec(old(rt).graph_model(), old(rt).model(), *self, fuel)->0); }
            },
            Instr::SUB => {
                let a = pop_data(rt);
                let b = pop_data(rt);
                rt.data_st.push(a - b);
            proof { assert(rt.model() =~= exe_spec(old(rt).graph_model(), old(rt).model(), *self, fuel)->0); }
            },
            Instr::MUL => {
                let a = pop_data(rt);
                let b = pop_data(rt);
                rt.data_st.push(a * b);
            proof { assert(rt.model() =~= exe_spec(old(rt).graph_model(), old(rt).model(), *self, fuel)->0); }
            },
            Instr::DIV => {
                let a = pop_data(rt);
                let b = pop_data(rt);
                rt.data_st.push(a / b);
            proof { assert(rt.model() =~= exe_spec(old(rt).graph_model(), old(rt).model(), *self, fuel)->0); }
            },
            Instr::RET { node, path } => {
                let nbors = graph_neighbors_of(&rt.graph, *node);
                let nbor = nbors[*path as usize];
                let len = nbors.len();
                rt.run_direction = RTDirection::Traverse;
                rt.set_node_ptr_fuel(&nbor, Ghost(fuel));
                if len - 1 < *path as usize {
                    rt.push_instr_fuel(Instr::RET { node: rt.node_ptr, path: *path + 1 }, Ghost(fuel));
                }
            },
            Instr::SCP { .. } => {
                rt.scope_st.pop();
            },
            Instr::SPK { n } => {
                rt.scope_st_ptr = rt.scope_st_ptr - *n;
            },
            Instr::POP => {
                rt.data_st.pop();
            },
            Instr::PSH { data } => {
                rt.data_st.push(*data);
            },
            Instr::LOA { addr } => {
                let top = rt.data_st[rt.data_st.len() - 1];
                let slot = rt.scope_slot_of(*addr);
                rt.heap.set(slot, HeapKind::Num(top));
            },
            Instr::CALL { node } => {
                rt.run_direction = RTDirection::Traverse;
                rt.set_node_ptr_fuel(node, Ghost(fuel));
            },
            Instr::IF { t, f, .. } => {
                let cond = pop_data(rt) != 0;
                rt.run_direction = RTDirection::Traverse;
                rt.set_node_ptr_fuel(if cond { t } else { f }, Ghost(fuel));
            },
        }
    }
}

/// Pops the top of the data stack, which must be there.
fn pop_data(rt: &mut Runtime) -> (v: u32)
    requires
        old(rt).data_st@.len() > 0,
    ensures
        v == old(rt).data_st@.last(),
        final(rt).model() == (RtModel { data_st: old(rt).data_st@.drop_last(), ..old(rt).model() }),
        final(rt).graph == old(rt).graph,
{
    match rt.data_st.pop() {
        Some(v) => v,
        None => {
            proof {
                assert(false);
            }
            0
        },
    }
}

} // verus!

verus! {

/// Pushing `instr` ends, without a panic, for some bound on the jump depth.
pub open spec fn push_ends(g: GraphModel, s: RtModel, instr: Instr) -> bool {
    exists|fuel: nat| push_spec(g, s, instr, fuel) is Some
}

pub open spec fn push_fuel(g: GraphModel, s: RtModel, instr: Instr) -> nat {
    choose|fuel: nat| push_spec(g, s, instr, fuel) is Some
}

/// The "add" effect of `instr` ends, without a panic, for some jump depth.
pub open spec fn add_ends(g: GraphModel, s: RtModel, instr: Instr) -> bool {
    exists|fuel: nat| add_spec(g, s, instr, fuel) is Some
}

pub open spec fn add_fuel(g: GraphModel, s: RtModel, instr: Instr) -> nat {
    choose|fuel: nat| add_spec(g, s, instr, fuel) is Some
}

/// Executing `instr` ends, without a panic, for some jump depth.
pub open spec fn exe_ends(g: GraphModel, s: RtModel, instr: Instr) -> bool {
    exists|fuel: nat| exe_spec(g, s, instr, fuel) is Some
}

pub open spec fn exe_fuel(g: GraphModel, s: RtModel, instr: Instr) -> nat {
    choose|fuel: nat| exe_spec(g, s, instr, fuel) is Some
}

/// Jumping to `node` ends, without a panic, for some jump depth.
pub open spec fn jump_ends(g: GraphModel, s: RtModel, node: u32) -> bool {
    exists|fuel: nat| set_node_spec(g, s, node, fuel) is Some
}

pub open spec fn jump_fuel(g: GraphModel, s: RtModel, node: u32) -> nat {
    choose|fuel: nat| set_node_spec(g, s, node, fuel) is Some
}

/// A run stops, without a panic, within some number of turns and jump depth.
pub open spec fn run_ends(g: GraphModel, s: RtModel) -> bool {
    exists|steps: nat, fuel: nat| run_spec(g, s, steps, fuel) is Some
}

pub open spec fn run_bounds(g: GraphModel, s: RtModel) -> (nat, nat) {
    choose|steps: nat, fuel: nat| run_spec(g, s, steps, fuel) is Some
}

impl Runtime {
    /// Pushes `instr` on the instruction stack and runs its "add" effect.
    pub fn push_instr(&mut self, instr: Instr)
        requires
            push_ends(old(self).graph_model(), old(self).model(), instr),
        ensures
            final(self).model() == push_spec(
                old(self).graph_model(),
                old(self).model(),
                instr,
                push_fuel(old(self).graph_model(), old(self).model(), instr),
            )->0,
            final(self).graph == old(self).graph,
    {
        let ghost fuel = push_fuel(self.graph_model(), self.model(), instr);
        self.push_instr_fuel(instr, Ghost(fuel));
    }

    /// Makes `node` the current node and pushes its instruction.
    pub fn set_node_ptr(&mut self, node: &u32)
        requires
            jump_ends(old(self).graph_model(), old(self).model(), *node),
        ensures
            final(self).model() == set_node_spec(
                old(self).graph_model(),
                old(self).model(),
                *node,
                jump_fuel(old(self).graph_model(), old(self).model(), *node),
            )->0,
            final(self).graph == old(self).graph,
    {
        let ghost fuel = jump_fuel(self.graph_model(), self.model(), *node);
        self.set_node_ptr_fuel(node, Ghost(fuel));
    }

    /// Runs the program from the entry point until the instruction stack is empty.
    pub fn run(&mut self)
        requires
            run_ends(old(self).graph_model(), old(self).model()),
        ensures
            final(self).model() == run_spec(
                old(self).graph_model(),
                old(self).model(),
                run_bounds(old(self).graph_model(), old(self).model()).0,
                run_bounds(old(self).graph_model(), old(self).model()).1,
            )->0,
            final(self).graph == old(self).graph,
    {
        let ghost g = self.graph_model();
        let ghost bounds = run_bounds(self.graph_model(), self.model());
        let ghost fuel = bounds.1;
        let ghost result = run_spec(g, self.model(), bounds.0, fuel);
        self.node_ptr = self.entry_point;
        self.scope_st.push(0);
        self.scope_st_ptr = 0;
        let first = graph_node(&self.graph, self.entry_point);
        self.push_instr_fuel(first, Ghost(fuel));
        let ghost mut steps: nat = bounds.0;
        while self.instr_st.len() != 0
            invariant
                self.graph_model() == g,
                self.graph == old(self).graph,
                run_loop(g, self.model(), steps, fuel) == result,
                result is Some,
            decreases steps,
        {
            match self.run_direction {
                RTDirection::Execute => {
                    let instr = match self.instr_st.pop() {
                        Some(i) => i,
                        None => {
                            proof {
                                assert(false);
                            }
                            Instr::POP
                        },
                    };
                    instr.exe_fuel(self, Ghost(fuel));
                },
                RTDirection::Traverse => {
                    let nbors = graph_neighbors_of(&self.graph, self.node_ptr);
                    if nbors.len() == 0 {
                        self.run_direction = RTDirection::Execute;
                    } else {
                        self.node_ptr = nbors[0];
                        let next = graph_node(&self.graph, self.node_ptr);
                        self.push_instr_fuel(next, Ghost(fuel));
                    }
                },
            }
            proof {
                steps = (steps - 1) as nat;
            }
        }
    }
}

impl Instr {
    /// Runs the "add" effect of this instruction (what pushing it does).
    pub fn add(&self, rt: &mut Runtime)
        requires
            add_ends(old(rt).graph_model(), old(rt).model(), *self),
        ensures
            final(rt).model() == add_spec(
                old(rt).graph_model(),
                old(rt).model(),
                *self,
                add_fuel(old(rt).graph_model(), old(rt).model(), *self),
            )->0,
            final(rt).graph == old(rt).graph,
    {
        let ghost fuel = add_fuel(rt.graph_model(), rt.model(), *self);
        self.add_fuel(rt, Ghost(fuel));
    }

    /// Executes this instruction.
    pub fn exe(&self, rt: &mut Runtime)
        requires
            exe_ends(old(rt).graph_model(), old(rt).model(), *self),
        ensures
            final(rt).model() == exe_spec(
                old(rt).graph_model(),
                old(rt).model(),
                *self,
                exe_fuel(old(rt).graph_model(), old(rt).model(), *self),
            )->0,
            final(rt).graph == old(rt).graph,
    {
        let ghost fuel = exe_fuel(rt.graph_model(), rt.model(), *self);
        self.exe_fuel(rt, Ghost(fuel));
    }
}

} // verus!

verus! {

proof fn lemma_push_more_fuel(g: GraphModel, s: RtModel, instr: Instr, fuel: nat)
    requires
        push_spec(g, s, instr, fuel) is Some,
    ensures
        push_spec(g, s, instr, fuel + 1) == push_spec(g, s, instr, fuel),
    decreases fuel, 2nat,
{
    lemma_add_more_fuel(g, RtModel { instr_st: s.instr_st.push(instr), ..s }, instr, fuel);
}

proof fn lemma_add_more_fuel(g: GraphModel, s: RtModel, instr: Instr, fuel: nat)
    requires
        add_spec(g, s, instr, fuel) is Some,
    ensures
        add_spec(g, s, instr, fuel + 1) == add_spec(g, s, instr, fuel),
    decreases fuel, 1nat,
{
    match instr {
        Instr::ADD | Instr::SUB | Instr::MUL | Instr::DIV => {
            lemma_push_more_fuel(g, s, Instr::RET { node: s.node_ptr, path: 1 }, (fuel - 1) as nat);
        },
        Instr::IF { cond, .. } => {
            lemma_jump_more_fuel(g, s, cond, fuel);
        },
        _ => {},
    }
}

proof fn lemma_jump_more_fuel(g: GraphModel, s: RtModel, node: u32, fuel: nat)
    requires
        set_node_spec(g, s, node, fuel) is Some,
    ensures
        set_node_spec(g, s, node, fuel + 1) == set_node_spec(g, s, node, fuel),
    decreases fuel, 0nat,
{
    lemma_push_more_fuel(g, RtModel { node_ptr: node, ..s }, g.nodes[node as int], (fuel - 1) as nat);
}

proof fn lemma_exe_more_fuel(g: GraphModel, s: RtModel, instr: Instr, fuel: nat)
    requires
        exe_spec(g, s, instr, fuel) is Some,
    ensures
        exe_spec(g, s, instr, fuel + 1) == exe_spec(g, s, instr, fuel),
{
    let d = s.data_st;
    match instr {
        Instr::RET { node, path } => {
            lemma_jump_more_fuel(
                g,
                RtModel { run_direction: RTDirection::Traverse, ..s },
                g.nbrs[node as int][path as int],
                fuel,
            );
        },
        Instr::CALL { node } => {
            lemma_jump_more_fuel(g, RtModel { run_direction: RTDirection::Traverse, ..s }, node, fuel);
        },
        Instr::IF { t, f, .. } => {
            lemma_jump_more_fuel(
                g,
                RtModel { data_st: d.drop_last(), run_direction: RTDirection::Traverse, ..s },
                if d.last() != 0 { t } else { f },
                fuel,
            );
        },
        _ => {},
    }
}

proof fn lemma_step_more_fuel(g: GraphModel, s: RtModel, fuel: nat)
    requires
        loop_step(g, s, fuel) is Some,
    ensures
        loop_step(g, s, fuel + 1) == loop_step(g, s, fuel),
{
    match s.run_direction {
        RTDirection::Execute => {
            lemma_exe_more_fuel(g, RtModel { instr_st: s.instr_st.drop_last(), ..s }, s.instr_st.last(), fuel);
        },
        RTDirection::Traverse => {
            if s.node_ptr < g.nodes.len() && g.nbrs[s.node_ptr as int].len() != 0 {
                let n0 = g.nbrs[s.node_ptr as int][0];
                lemma_push_more_fuel(g, RtModel { node_ptr: n0, ..s }, g.nodes[n0 as int], fuel);
            }
        },
    }
}

proof fn lemma_loop_more(g: GraphModel, s: RtModel, steps: nat, fuel: nat)
    requires
        run_loop(g, s, steps, fuel) is Some,
    ensures
        run_loop(g, s, steps + 1, fuel) == run_loop(g, s, steps, fuel),
        run_loop(g, s, steps, fuel + 1) == run_loop(g, s, steps, fuel),
    decreases steps,
{
    if s.instr_st.len() != 0 {
        lemma_step_more_fuel(g, s, fuel);
        let s2 = loop_step(g, s, fuel)->0;
        lemma_loop_more(g, s2, (steps - 1) as nat, fuel);
    }
}

proof fn lemma_run_more(g: GraphModel, s: RtModel, steps: nat, fuel: nat, steps2: nat, fuel2: nat)
    requires
        run_spec(g, s, steps, fuel) is Some,
        steps <= steps2,
        fuel <= fuel2,
    ensures
        run_spec(g, s, steps2, fuel2) == run_spec(g, s, steps, fuel),
    decreases steps2 - steps + fuel2 - fuel,
{
    if steps < steps2 {
        let s1 = run_start(g, s, fuel)->0;
        lemma_loop_more(g, s1, steps, fuel);
        lemma_run_more(g, s, steps + 1, fuel, steps2, fuel2);
    } else if fuel < fuel2 {
        if s.entry_point < g.nodes.len() {
            lemma_push_more_fuel(
                g,
                RtModel { node_ptr: s.entry_point, scope_st: s.scope_st.push(0), scope_st_ptr: 0, ..s },
                g.nodes[s.entry_point as int],
                fuel,
            );
        }
        let s1 = run_start(g, s, fuel)->0;
        lemma_loop_more(g, s1, steps, fuel);
        lemma_run_more(g, s, steps, fuel + 1, steps2, fuel2);
    }
}

/// Law: the outcome of a run does not depend on the bounds it is looked at
/// with: any two turn counts and jump depths within which the run ends give
/// the same final state.
pub proof fn law_run_outcome_unique(g: GraphModel, s: RtModel, steps1: nat, fuel1: nat, steps2: nat, fuel2: nat)
    requires
        run_spec(g, s, steps1, fuel1) is Some,
        run_spec(g, s, steps2, fuel2) is Some,
    ensures
        run_spec(g, s, steps1, fuel1) == run_spec(g, s, steps2, fuel2),
{
    let st = if steps1 <= steps2 { steps2 } else { steps1 };
    let fu = if fuel1 <= fuel2 { fuel2 } else { fuel1 };
    lemma_run_more(g, s, steps1, fuel1, st, fu);
    lemma_run_more(g, s, steps2, fuel2, st, fu);
}

proof fn lemma_loop_ends_empty(g: GraphModel, s: RtModel, steps: nat, fuel: nat)
    requires
        run_loop(g, s, steps, fuel) is Some,
    ensures
        run_loop(g, s, steps, fuel)->0.instr_st.len() == 0,
    decreases steps,
{
    if s.instr_st.len() != 0 {
        lemma_loop_ends_empty(g, loop_step(g, s, fuel)->0, (steps - 1) as nat, fuel);
    }
}

/// Law: a run that ends leaves the instruction stack empty.
pub proof fn law_run_empties_instructions(g: GraphModel, s: RtModel, steps: nat, fuel: nat)
    requires
        run_spec(g, s, steps, fuel) is Some,
    ensures
        run_spec(g, s, steps, fuel)->0.instr_st.len() == 0,
{
    lemma_loop_ends_empty(g, run_start(g, s, fuel)->0, steps, fuel);
}

} // verus!

verus! {

/// Law: the pairs of effects that undo each other do so — executing `SCP`
/// closes the scope that pushing it opened, executing `SPK` looks back in as
/// far as pushing it looked out, and `POP` drops what `PSH` pushed.
pub proof fn law_effects_undone(g: GraphModel, s: RtModel, addr: u32, alloc: u32, n: u32, data: u32, fuel: nat)
    ensures
        add_spec(g, s, Instr::SCP { addr, alloc }, fuel) matches Some(s1)
            ==> exe_spec(g, s1, Instr::SCP { addr, alloc }, fuel) matches Some(s2) && s2.scope_st == s.scope_st,
        add_spec(g, s, Instr::SPK { n }, fuel) matches Some(s1)
            ==> exe_spec(g, s1, Instr::SPK { n }, fuel) matches Some(s2) && s2.scope_st_ptr == s.scope_st_ptr,
        exe_spec(g, s, Instr::PSH { data }, fuel) matches Some(s1)
            ==> exe_spec(g, s1, Instr::POP, fuel) matches Some(s2) && s2.data_st == s.data_st,
{
    assert(s.scope_st.push(s.alloc_ptr).drop_last() == s.scope_st);
    assert(s.data_st.push(data).drop_last() == s.data_st);
}

} // verus!

verus! {

impl Runtime {
    /// The heap cell `addr` cells into the scope `scope_st_ptr` levels below
    /// the top of the scope stack, or `None` where there is no such cell.
    fn find_scope_slot(&self, addr: u32) -> (r: Option<usize>)
        ensures
            match r {
                Some(k) => scope_slot(self.model(), addr) == Some(k as int),
                None => scope_slot(self.model(), addr) is None,
            },
    {
        let len = self.scope_st.len();
        if len == 0 || len - 1 < self.scope_st_ptr as usize {
            return None;
        }
        let base = self.scope_st[len - 1 - self.scope_st_ptr as usize];
        let at = base as u64 + addr as u64;
        if at > u32::MAX as u64 || at as usize >= self.heap.len() {
            None
        } else {
            Some(at as usize)
        }
    }

    /// Pushes `instr` within jump depth `fuel`; `true` exactly when pushing it
    /// goes through (see `push_spec`).
    fn try_push(&mut self, instr: Instr, fuel: u64) -> (ok: bool)
        ensures
            ok == push_spec(old(self).graph_model(), old(self).model(), instr, fuel as nat) is Some,
            ok ==> final(self).model() == push_spec(old(self).graph_model(), old(self).model(), instr, fuel as nat)->0,
            final(self).graph == old(self).graph,
        decreases fuel, 2nat,
    {
        self.instr_st.push(instr);
        instr.try_add(self, fuel)
    }

    /// Jumps to `node` within jump depth `fuel`; `true` exactly when the jump
    /// goes through (see `set_node_spec`).
    fn try_set_node(&mut self, node: u32, fuel: u64) -> (ok: bool)
        ensures
            ok == set_node_spec(old(self).graph_model(), old(self).model(), node, fuel as nat) is Some,
            ok ==> final(self).model() == set_node_spec(
                old(self).graph_model(),
                old(self).model(),
                node,
                fuel as nat,
            )->0,
            final(self).graph == old(self).graph,
        decreases fuel, 0nat,
    {
        if node as usize >= graph_node_count(&self.graph) || fuel == 0 {
            return false;
        }
        self.node_ptr = node;
        let instr = graph_node(&self.graph, node);
        self.try_push(instr, fuel - 1)
    }

    /// The number of nodes of the runtime's graph.
    pub fn node_count(&self) -> (n: usize)
        ensures
            n == graph_nodes(self.graph).len(),
    {
        graph_node_count(&self.graph)
    }

    /// The instruction on node `a` of the runtime's graph.
    pub fn node_at(&self, a: u32) -> (i: Instr)
        requires
            a < graph_nodes(self.graph).len(),
        ensures
            i == graph_nodes(self.graph)[a as int],
    {
        graph_node(&self.graph, a)
    }

    /// The out-neighbours of node `a` of the runtime's graph.
    pub fn neighbors_at(&self, a: u32) -> (r: &[u32])
        requires
            a < graph_nodes(self.graph).len(),
        ensures
            r@ == graph_neighbors(self.graph)[a as int],
    {
        graph_neighbors_of(&self.graph, a)
    }

    /// Runs the program as `run` does, but within at most `steps` turns of
    /// the run loop and jump depth `fuel`, and without a precondition:
    /// `true` exactly when the run finishes within those bounds without
    /// failing, and then the runtime is left as `run` leaves it. After `false`
    /// the runtime is left where the run stopped.
    pub fn run_bounded(&mut self, steps: u64, fuel: u64) -> (ok: bool)
        ensures
            ok == run_spec(old(self).graph_model(), old(self).model(), steps as nat, fuel as nat) is Some,
            ok ==> final(self).model() == run_spec(
                old(self).graph_model(),
                old(self).model(),
                steps as nat,
                fuel as nat,
            )->0,
            final(self).graph == old(self).graph,
    {
        let ghost g = self.graph_model();
        let count = graph_node_count(&self.graph);
        if self.entry_point as usize >= count {
            return false;
        }
        self.node_ptr = self.entry_point;
        self.scope_st.push(0);
        self.scope_st_ptr = 0;
        let first = graph_node(&self.graph, self.entry_point);
        if !self.try_push(first, fuel) {
            return false;
        }
        let ghost result = run_spec(g, old(self).model(), steps as nat, fuel as nat);
        let mut left = steps;
        while self.instr_st.len() != 0
            invariant
                self.graph_model() == g,
                self.graph == old(self).graph,
                count == g.nodes.len(),
                run_loop(g, self.model(), left as nat, fuel as nat) == result,
                result == run_spec(g, old(self).model(), steps as nat, fuel as nat),
            decreases left,
        {
            if left == 0 {
                return false;
            }
            let ok = match self.run_direction {
                RTDirection::Execute => {
                    let instr = match self.instr_st.pop() {
                        Some(i) => i,
                        None => {
                            proof {
                                assert(false);
                            }
                            Instr::POP
                        },
                    };
                    instr.try_exe(self, fuel)
                },
                RTDirection::Traverse => {
                    if self.node_ptr as usize >= count {
                        false
                    } else {
                        let nbors = graph_neighbors_of(&self.graph, self.node_ptr);
                        if nbors.len() == 0 {
                            self.run_direction = RTDirection::Execute;
                            true
                        } else {
                            let n0 = nbors[0];
                            if n0 as usize >= count {
                                false
                            } else {
                                self.node_ptr = n0;
                                let next = graph_node(&self.graph, n0);
                                self.try_push(next, fuel)
                            }
                        }
                    }
                },
            };
            if !ok {
                return false;
            }
            left = left - 1;
        }
        true
    }
}

impl Instr {
    /// Runs the "add" effect of this instruction within jump depth `fuel`;
    /// `true` exactly when it goes through (see `add_spec`).
    fn try_add(&self, rt: &mut Runtime, fuel: u64) -> (ok: bool)
        ensures
            ok == add_spec(old(rt).graph_model(), old(rt).model(), *self, fuel as nat) is Some,
            ok ==> final(rt).model() == add_spec(old(rt).graph_model(), old(rt).model(), *self, fuel as nat)->0,
            final(rt).graph == old(rt).graph,
        decreases fuel, 1nat,
    {
        match self {
            Instr::ADD | Instr::SUB | Instr::MUL | Instr::DIV => {
                if fuel == 0 {
                    return false;
                }
                rt.try_push(Instr::RET { node: rt.node_ptr, path: 1 }, fuel - 1)
            },
            Instr::SCP { addr, alloc } => {
                let len = rt.scope_st.len();
                if len == 0 {
                    return false;
                }
                let at = rt.scope_st[len - 1] as u64 + *addr as u64;
                if at > u32::MAX as u64 || at as usize >= rt.heap.len() {
                    return false;
                }
                rt.heap.set(at as usize, HeapKind::Num(rt.alloc_ptr));
                rt.scope_st.push(rt.alloc_ptr);
                if rt.alloc_ptr as u64 + *alloc as u64 > u32::MAX as u64 || rt.heap.len() > usize::MAX
                    - *alloc as usize {
                    return false;
                }
                rt.allocate(*alloc);
                true
            },
            Instr::SPK { n } => {
                if rt.scope_st_ptr as u64 + *n as u64 > u32::MAX as u64 {
                    return false;
                }
                rt.scope_st_ptr = rt.scope_st_ptr + *n;
                true
            },
            Instr::LOA { addr } => {
                match rt.find_scope_slot(*addr) {
                    None => false,
                    Some(slot) => {
                        if let HeapKind::Num(n) = rt.heap[slot] {
                            rt.run_direction = RTDirection::Execute;
                            rt.instr_st.pop();
                            rt.data_st.push(n);
                        }
                        true
                    },
                }
            },
            Instr::IF { cond, .. } => {
                let ok = rt.try_set_node(*cond, fuel);
                if ok {
                    rt.run_direction = RTDirection::Traverse;
                }
                ok
            },
            _ => true,
        }
    }

    /// Executes this instruction within jump depth `fuel`; `true` exactly
    /// when it goes through (see `exe_spec`).
    fn try_exe(&self, rt: &mut Runtime, fuel: u64) -> (ok: bool)
        ensures
            ok == exe_spec(old(rt).graph_model(), old(rt).model(), *self, fuel as nat) is Some,
            ok ==> final(rt).model() == exe_spec(old(rt).graph_model(), old(rt).model(), *self, fuel as nat)->0,
            final(rt).graph == old(rt).graph,
    {
        let ghost d = rt.data_st@;
        let len = rt.data_st.len();
        match self {
            Instr::ADD | Instr::SUB | Instr::MUL | Instr::DIV => {
                if len < 2 {
                    return false;
                }
                let a = rt.data_st[len - 1];
                let b = rt.data_st[len - 2];
                assert((a as u64) * (b as u64) <= 0xffff_ffffu64 * 0xffff_ffffu64) by (nonlinear_arith)
                    requires
                        a <= 0xffff_ffffu32,
                        b <= 0xffff_ffffu32,
                ;
                let r = match self {
                    Instr::ADD => if a as u64 + b as u64 > u32::MAX as u64 {
                        None
                    } else {
                        Some(a + b)
                    },
                    Instr::SUB => if a < b {
                        None
                    } else {
                        Some(a - b)
                    },
                    Instr::MUL => if a as u64 * b as u64 > u32::MAX as u64 {
                        None
                    } else {
                        Some(a * b)
                    },
                    _ => if b == 0 {
                        None
                    } else {
                        Some(a / b)
                    },
                };
                match r {
                    None => false,
                    Some(v) => {
                        pop_data(rt);
                        pop_data(rt);
                        rt.data_st.push(v);
                        proof {
                            assert(rt.data_st@ =~= d.take(d.len() - 2).push(v));
                        }
                        true
                    },
                }
            },
            Instr::RET { node, path } => {
                if *node as usize >= graph_node_count(&rt.graph) {
                    return false;
                }
                let nbors = graph_neighbors_of(&rt.graph, *node);
                if *path as usize >= nbors.len() {
                    return false;
                }
                let target = nbors[*path as usize];
                rt.run_direction = RTDirection::Traverse;
                rt.try_set_node(target, fuel)
            },
            Instr::SCP { .. } => {
                rt.scope_st.pop();
                true
            },
            Instr::SPK { n } => {
                if rt.scope_st_ptr < *n {
                    return false;
                }
                rt.scope_st_ptr = rt.scope_st_ptr - *n;
                true
            },
            Instr::POP => {
                rt.data_st.pop();
                true
            },
            Instr::PSH { data } => {
                rt.data_st.push(*data);
                true
            },
            Instr::LOA { addr } => {
                if len == 0 {
                    return false;
                }
                let top = rt.data_st[len - 1];
                match rt.find_scope_slot(*addr) {
                    None => false,
                    Some(slot) => {
                        rt.heap.set(slot, HeapKind::Num(top));
                        true
                    },
                }
            },
            Instr::CALL { node } => {
                rt.run_direction = RTDirection::Traverse;
                rt.try_set_node(*node, fuel)
            },
            Instr::IF { t, f, .. } => {
                if len == 0 {
                    return false;
                }
                let cond = pop_data(rt) != 0;
                rt.run_direction = RTDirection::Traverse;
                rt.try_set_node(if cond { *t } else { *f }, fuel)
            },
        }
    }
}

} // verus!

verus! {

/// Law: a `LOA` of address `addr` works on the cell `addr` cells past the base
/// of the scope `scope_st_ptr` levels below the top of the scope stack (with
/// the pointer at 0, the innermost scope). Pushing it loads that cell's number
/// onto the data stack and turns to executing (a cell without a number leaves
/// everything as it was); executing it stores the top data value into that
/// cell.
pub proof fn law_load_uses_the_pointed_scope(g: GraphModel, s: RtModel, addr: u32, fuel: nat)
    requires
        s.scope_st_ptr < s.scope_st.len(),
        s.scope_st[s.scope_st.len() - 1 - s.scope_st_ptr] + addr < s.heap.len(),
        s.scope_st[s.scope_st.len() - 1 - s.scope_st_ptr] + addr <= u32::MAX,
    ensures
        ({
            let cell = s.scope_st[s.scope_st.len() - 1 - s.scope_st_ptr] + addr;
            &&& add_spec(g, s, Instr::LOA { addr }, fuel) == Some(
                match s.heap[cell] {
                    HeapKind::Num(n) => RtModel {
                        run_direction: RTDirection::Execute,
                        instr_st: popped(s.instr_st),
                        data_st: s.data_st.push(n),
                        ..s
                    },
                    _ => s,
                },
            )
            &&& s.data_st.len() > 0 ==> exe_spec(g, s, Instr::LOA { addr }, fuel) == Some(
                RtModel { heap: s.heap.update(cell, HeapKind::Num(s.data_st.last())), ..s },
            )
        }),
{
}

/// Law: a `LOA` whose pointed scope does not exist cannot be pushed or executed.
pub proof fn law_load_needs_the_pointed_scope(g: GraphModel, s: RtModel, addr: u32, fuel: nat)
    requires
        s.scope_st.len() <= s.scope_st_ptr,
    ensures
        add_spec(g, s, Instr::LOA { addr }, fuel) is None,
        exe_spec(g, s, Instr::LOA { addr }, fuel) is None,
{
}

} // verus!

verus! {

/// Law: arithmetic takes the top two data values, the top one as the left
/// operand, and leaves the result in their place; it cannot go on where the
/// result does not fit a `u32` or the divisor is zero.
pub proof fn law_arithmetic_on_top_two(g: GraphModel, s: RtModel, fuel: nat)
    requires
        s.data_st.len() >= 2,
    ensures
        ({
            let d = s.data_st;
            let n = d.len() - 2;
            let a = d[n + 1];
            let b = d[n];
            let rest = d.subrange(0, n);
            &&& exe_spec(g, s, Instr::ADD, fuel) == if a + b <= u32::MAX {
                Some(RtModel { data_st: rest.push((a + b) as u32), ..s })
            } else {
                None
            }
            &&& exe_spec(g, s, Instr::SUB, fuel) == if a >= b {
                Some(RtModel { data_st: rest.push((a - b) as u32), ..s })
            } else {
                None
            }
            &&& exe_spec(g, s, Instr::MUL, fuel) == if a * b <= u32::MAX {
                Some(RtModel { data_st: rest.push((a * b) as u32), ..s })
            } else {
                None
            }
            &&& exe_spec(g, s, Instr::DIV, fuel) == if b != 0 {
                Some(RtModel { data_st: rest.push((a / b) as u32), ..s })
            } else {
                None
            }
        }),
{
    assert(s.data_st.take(s.data_st.len() - 2) =~= s.data_st.subrange(0, s.data_st.len() - 2));
}

/// Law: pushing `SCP` opens a scope: the enclosing scope's cell `addr` records
/// the new scope's base (the old allocation pointer), the base goes on the
/// scope stack, and `alloc` fresh cells are added to the heap.
pub proof fn law_scope_opens(g: GraphModel, s: RtModel, addr: u32, alloc: u32, fuel: nat)
    requires
        s.scope_st.len() > 0,
        s.scope_st.last() + addr < s.heap.len(),
        s.scope_st.last() + addr <= u32::MAX,
        s.alloc_ptr + alloc <= u32::MAX,
        s.heap.len() + alloc <= usize::MAX,
    ensures
        add_spec(g, s, Instr::SCP { addr, alloc }, fuel) matches Some(s2) && {
            &&& s2.scope_st == s.scope_st.push(s.alloc_ptr)
            &&& s2.alloc_ptr == s.alloc_ptr + alloc
            &&& s2.heap.len() == s.heap.len() + alloc
            &&& s2.heap[s.scope_st.last() + addr] == HeapKind::Num(s.alloc_ptr)
            &&& forall|k: int|
                0 <= k < s.heap.len() && k != s.scope_st.last() + addr ==> s2.heap[k] == s.heap[k]
            &&& forall|k: int| s.heap.len() <= k < s2.heap.len() ==> s2.heap[k] == HeapKind::Empty
            &&& s2.data_st == s.data_st && s2.instr_st == s.instr_st
        },
{
}

} // verus!

verus! {

/// Law: jumps go where their instructions say. Executing `IF` pops the
/// condition and goes to `t` when it is non-zero and to `f` when it is zero;
/// `CALL` goes to `node`; `RET` goes to neighbour `path` of `node`. Going to a
/// node makes it the current node and pushes its instruction; a node that does
/// not exist cannot be gone to.
pub proof fn law_jumps_go_where_told(
    g: GraphModel,
    s: RtModel,
    fuel: nat,
    cond: u32,
    t: u32,
    f: u32,
    node: u32,
    path: u32,
)
    ensures
        s.data_st.len() > 0 ==> exe_spec(g, s, Instr::IF { cond, t, f }, fuel) == set_node_spec(
            g,
            RtModel { data_st: s.data_st.subrange(0, s.data_st.len() - 1), run_direction: RTDirection::Traverse, ..s },
            if s.data_st[s.data_st.len() - 1] == 0 { f } else { t },
            fuel,
        ),
        exe_spec(g, s, Instr::CALL { node }, fuel) == set_node_spec(
            g,
            RtModel { run_direction: RTDirection::Traverse, ..s },
            node,
            fuel,
        ),
        node < g.nodes.len() && path < g.nbrs[node as int].len() ==> exe_spec(g, s, Instr::RET { node, path }, fuel)
            == set_node_spec(
            g,
            RtModel { run_direction: RTDirection::Traverse, ..s },
            g.nbrs[node as int][path as int],
            fuel,
        ),
        set_node_spec(g, s, node, fuel + 1) == if node < g.nodes.len() {
            push_spec(g, RtModel { node_ptr: node, ..s }, g.nodes[node as int], fuel)
        } else {
            None
        },
        push_spec(g, s, Instr::PSH { data: cond }, fuel) == Some(
            RtModel { instr_st: s.instr_st.push(Instr::PSH { data: cond }), ..s },
        ),
{
    assert(s.data_st.drop_last() =~= s.data_st.subrange(0, s.data_st.len() - 1));
}

} // verus!
