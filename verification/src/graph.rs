//! The instruction graph the runtime walks: a `petgraph` compressed-sparse-row
//! graph whose nodes carry instructions.

use vstd::prelude::*;
use petgraph::csr::Csr;
use petgraph::Directed;
use crate::runtime::Instr;

verus! {

#[verifier::external_type_specification]
#[verifier::external_body]
#[verifier::reject_recursive_types(N)]
#[verifier::reject_recursive_types(E)]
#[verifier::reject_recursive_types(Ty)]
#[verifier::reject_recursive_types(Ix)]
pub struct ExCsr<N, E, Ty, Ix>(Csr<N, E, Ty, Ix>);

#[verifier::external_type_specification]
#[verifier::external_body]
pub struct ExDirected(Directed);

/// The instructions on the nodes of a graph, in node-index order.
pub uninterp spec fn graph_nodes(g: Csr<Instr, ()>) -> Seq<Instr>;

/// The out-neighbours of each node of a graph, in node-index order, each list
/// in the order `Csr::neighbors_slice` gives it.
pub uninterp spec fn graph_neighbors(g: Csr<Instr, ()>) -> Seq<Seq<u32>>;

/// `Csr`'s `Index` impl (`g[a]`): the weight of node `a`, which must exist
/// (it indexes the node-weight vector, and panics past its end). The result is
/// the instruction the contents name at `a`.
#[verifier::external_body]
pub(crate) fn graph_node(g: &Csr<Instr, ()>, a: u32) -> (r: Instr)
    requires
        a < graph_nodes(*g).len(),
    ensures
        r == graph_nodes(*g)[a as int],
{
    g[a]
}

/// `Csr::node_count`: the number of nodes. `Csr` adds a node weight and a row
/// offset together, keeping one more offset than weights, so the count is the
/// length of the node weights the contents name.
#[verifier::external_body]
pub(crate) fn graph_node_count(g: &Csr<Instr, ()>) -> (n: usize)
    ensures
        n == graph_nodes(*g).len(),
{
    g.node_count()
}

/// `Csr::neighbors_slice`: the out-neighbours of node `a`, which must exist
/// (the method panics otherwise). The result is the neighbour list the
/// contents name for `a`.
#[verifier::external_body]
pub(crate) fn graph_neighbors_of(g: &Csr<Instr, ()>, a: u32) -> (r: &[u32])
    requires
        a < graph_nodes(*g).len(),
    ensures
        r@ == graph_neighbors(*g)[a as int],
{
    g.neighbors_slice(a)
}

} // verus!
