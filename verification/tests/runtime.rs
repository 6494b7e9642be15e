use odl::runtime::{HeapKind, Instr, RTDirection, Runtime};
use petgraph::csr::Csr;

fn graph(nodes: &[Instr], edges: &[(u32, u32)]) -> Csr<Instr, ()> {
    let mut g = Csr::<Instr, ()>::new();
    for n in nodes {
        g.add_node(*n);
    }
    for (a, b) in edges {
        g.add_edge(*a, *b, ());
    }
    g
}

#[test]
fn new_runtime_is_empty() {
    let rt = Runtime::new(graph(&[Instr::POP], &[]));
    assert!(rt.heap.is_empty());
    assert_eq!(rt.alloc_ptr, 0);
    assert_eq!(rt.entry_point, 0);
    assert_eq!(rt.run_direction, RTDirection::Traverse);
    assert!(rt.instr_st.is_empty() && rt.data_st.is_empty() && rt.scope_st.is_empty());
}

#[test]
fn allocate_and_memory() {
    let mut rt = Runtime::new(graph(&[Instr::POP], &[]));
    rt.allocate(3);
    assert_eq!(rt.alloc_ptr, 3);
    assert_eq!(rt.heap, vec![HeapKind::Empty; 3]);
    rt.mem_wr(1, HeapKind::Num(9));
    assert_eq!(rt.mem_rd(1), HeapKind::Num(9));
    assert_eq!(rt.mem_rd(0), HeapKind::Empty);
    rt.allocate(0);
    assert_eq!(rt.heap.len(), 3);
}

#[test]
fn store_a_constant() {
    // LOA 0 <- PSH 7: the runtime walks down to the PSH, then executes back up.
    let mut rt = Runtime::new(graph(&[Instr::LOA { addr: 0 }, Instr::PSH { data: 7 }], &[(0, 1)]));
    rt.allocate(1);
    rt.run();
    assert_eq!(rt.heap, vec![HeapKind::Num(7)]);
    assert_eq!(rt.data_st, vec![7]);
    assert!(rt.instr_st.is_empty());
    assert_eq!(rt.scope_st, vec![0]);
}

#[test]
fn add_two_constants() {
    let mut rt = Runtime::new(graph(
        &[Instr::LOA { addr: 0 }, Instr::ADD, Instr::PSH { data: 2 }, Instr::PSH { data: 3 }],
        &[(0, 1), (1, 2), (1, 3)],
    ));
    rt.allocate(1);
    rt.run();
    assert_eq!(rt.heap, vec![HeapKind::Num(5)]);
}

#[test]
fn subtract_takes_the_later_operand_first() {
    // The second operand is pushed last and is popped first: 3 - 2.
    let mut rt = Runtime::new(graph(
        &[Instr::LOA { addr: 0 }, Instr::SUB, Instr::PSH { data: 2 }, Instr::PSH { data: 3 }],
        &[(0, 1), (1, 2), (1, 3)],
    ));
    rt.allocate(1);
    rt.run();
    assert_eq!(rt.heap, vec![HeapKind::Num(1)]);
}

#[test]
fn load_of_a_number_pushes_it() {
    // A LOA whose cell already holds a number puts it on the data stack when
    // pushed, and is dropped from the instruction stack.
    let mut rt = Runtime::new(graph(&[Instr::LOA { addr: 0 }], &[]));
    rt.allocate(1);
    rt.mem_wr(0, HeapKind::Num(4));
    rt.scope_st.push(0);
    rt.push_instr(Instr::LOA { addr: 0 });
    assert_eq!(rt.data_st, vec![4]);
    assert!(rt.instr_st.is_empty());
    assert_eq!(rt.run_direction, RTDirection::Execute);
}

#[test]
fn scope_open_and_close() {
    let mut rt = Runtime::new(graph(&[Instr::POP], &[]));
    rt.allocate(2);
    rt.scope_st.push(0);
    let scp = Instr::SCP { addr: 1, alloc: 3 };
    scp.add(&mut rt);
    assert_eq!(rt.heap[1], HeapKind::Num(2));
    assert_eq!(rt.scope_st, vec![0, 2]);
    assert_eq!(rt.alloc_ptr, 5);
    assert_eq!(rt.heap.len(), 5);
    scp.exe(&mut rt);
    assert_eq!(rt.scope_st, vec![0]);
}

#[test]
fn scope_peek_and_back() {
    let mut rt = Runtime::new(graph(&[Instr::POP], &[]));
    let spk = Instr::SPK { n: 2 };
    spk.add(&mut rt);
    assert_eq!(rt.scope_st_ptr, 2);
    spk.exe(&mut rt);
    assert_eq!(rt.scope_st_ptr, 0);
}

#[test]
fn push_pop_data() {
    let mut rt = Runtime::new(graph(&[Instr::POP], &[]));
    Instr::PSH { data: 11 }.exe(&mut rt);
    Instr::PSH { data: 12 }.exe(&mut rt);
    assert_eq!(rt.data_st, vec![11, 12]);
    Instr::POP.exe(&mut rt);
    assert_eq!(rt.data_st, vec![11]);
    Instr::POP.exe(&mut rt);
    Instr::POP.exe(&mut rt);
    assert!(rt.data_st.is_empty());
}

#[test]
fn mul_and_div() {
    let mut rt = Runtime::new(graph(&[Instr::POP], &[]));
    rt.data_st = vec![3, 4];
    Instr::MUL.exe(&mut rt);
    assert_eq!(rt.data_st, vec![12]);
    rt.data_st = vec![2, 9];
    Instr::DIV.exe(&mut rt);
    assert_eq!(rt.data_st, vec![4]);
}

#[test]
fn if_jumps_on_condition() {
    let g = graph(&[Instr::POP, Instr::PSH { data: 1 }, Instr::PSH { data: 2 }], &[]);
    let mut rt = Runtime::new(g);
    rt.data_st = vec![5];
    Instr::IF { cond: 0, t: 1, f: 2 }.exe(&mut rt);
    assert_eq!(rt.node_ptr, 1);
    assert_eq!(rt.instr_st, vec![Instr::PSH { data: 1 }]);
    assert!(rt.data_st.is_empty());
    rt.data_st = vec![0];
    Instr::IF { cond: 0, t: 1, f: 2 }.exe(&mut rt);
    assert_eq!(rt.node_ptr, 2);
    assert_eq!(rt.run_direction, RTDirection::Traverse);
}

#[test]
fn if_pushed_jumps_to_its_condition() {
    let g = graph(&[Instr::POP, Instr::PSH { data: 1 }], &[]);
    let mut rt = Runtime::new(g);
    rt.push_instr(Instr::IF { cond: 1, t: 0, f: 0 });
    assert_eq!(rt.node_ptr, 1);
    assert_eq!(rt.instr_st, vec![Instr::IF { cond: 1, t: 0, f: 0 }, Instr::PSH { data: 1 }]);
}

#[test]
fn arithmetic_push_records_a_return() {
    let g = graph(&[Instr::ADD], &[]);
    let mut rt = Runtime::new(g);
    rt.node_ptr = 0;
    rt.push_instr(Instr::ADD);
    assert_eq!(rt.instr_st, vec![Instr::ADD, Instr::RET { node: 0, path: 1 }]);
}

#[test]
fn call_and_return_jump() {
    let g = graph(&[Instr::POP, Instr::PSH { data: 1 }, Instr::PSH { data: 2 }], &[(0, 1), (0, 2)]);
    let mut rt = Runtime::new(g);
    Instr::CALL { node: 2 }.exe(&mut rt);
    assert_eq!(rt.node_ptr, 2);
    Instr::RET { node: 0, path: 0 }.exe(&mut rt);
    assert_eq!(rt.node_ptr, 1);
    assert_eq!(rt.instr_st, vec![Instr::PSH { data: 2 }, Instr::PSH { data: 1 }]);
    rt.set_node_ptr(&0);
    assert_eq!(rt.node_ptr, 0);
}

fn adder() -> Csr<Instr, ()> {
    graph(
        &[Instr::LOA { addr: 0 }, Instr::ADD, Instr::PSH { data: 2 }, Instr::PSH { data: 3 }],
        &[(0, 1), (1, 2), (1, 3)],
    )
}

#[test]
fn run_bounded_agrees_with_run() {
    let mut a = Runtime::new(adder());
    a.allocate(1);
    assert!(a.run_bounded(100, 10));
    let mut b = Runtime::new(adder());
    b.allocate(1);
    b.run();
    assert_eq!(a.heap, vec![HeapKind::Num(5)]);
    assert_eq!(a.heap, b.heap);
    assert_eq!(a.data_st, b.data_st);
    assert_eq!(a.scope_st, b.scope_st);
    assert!(a.instr_st.is_empty());
}

#[test]
fn run_bounded_needs_enough_turns() {
    let mut rt = Runtime::new(adder());
    rt.allocate(1);
    assert!(!rt.run_bounded(1, 10));
}

#[test]
fn run_bounded_stops_an_endless_program() {
    // The node calls itself for ever.
    let mut rt = Runtime::new(graph(&[Instr::CALL { node: 0 }], &[]));
    assert!(!rt.run_bounded(1000, 10));
}

#[test]
fn run_bounded_reports_a_failing_step() {
    // 3 / 0.
    let mut rt = Runtime::new(graph(
        &[Instr::LOA { addr: 0 }, Instr::DIV, Instr::PSH { data: 0 }, Instr::PSH { data: 3 }],
        &[(0, 1), (1, 2), (1, 3)],
    ));
    rt.allocate(1);
    assert!(!rt.run_bounded(1000, 10));
}

#[test]
fn run_bounded_needs_an_entry_node() {
    let mut rt = Runtime::new(graph(&[Instr::POP], &[]));
    rt.entry_point = 5;
    assert!(!rt.run_bounded(1000, 10));
}

#[test]
fn graph_accessors() {
    let rt = Runtime::new(adder());
    assert_eq!(rt.node_count(), 4);
    assert_eq!(rt.node_at(1), Instr::ADD);
    assert_eq!(rt.neighbors_at(1), &[2, 3]);
    assert!(rt.neighbors_at(3).is_empty());
}
