//! Observers of a graph exploration process: an automaton builder, a path-object
//! tracer, a node printer, and the identifiers used when drawing the explored graph.

pub mod ids;
pub mod nfait;
pub mod stepstrace;
pub mod nodesprint;
