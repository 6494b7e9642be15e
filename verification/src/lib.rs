//! ODL: the tokenizer, the sketch constraint solver, the STL reader, the
//! syntax tree and the graph-driven runtime of the ODL CAD language.

pub mod unicode;
pub mod tokenizer;
pub mod stl;
pub mod mesh;
pub mod constraints;
pub mod ast;
pub mod runtime;
pub mod graph;
