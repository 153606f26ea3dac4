//! A directed graph over dense integer indices.
//!
//! Nodes are addressed by their position; removing a node shifts every later
//! node down by one and renumbers the edges that point past it, so that no
//! edge ever dangles.
mod graph;
mod laws;

pub use graph::edge_line;
pub use graph::hit;
pub use graph::incoming;
pub use graph::lemma_remove_node_well_formed;
pub use graph::node_lines;
pub use graph::renumbered;
pub use graph::rendering;
pub use graph::shift_target;
pub use graph::sources_into;
pub use graph::texts_of;
pub use graph::EdgeAdditionError;
pub use graph::EdgeData;
pub use graph::EdgeGetError;
pub use graph::Graph;
pub use graph::GraphView;
pub use graph::Node;
pub use laws::lemma_add_node_keeps_indices;
pub use laws::lemma_pops_drain;
pub use laws::lemma_remove_node_renumbers;
pub use laws::moved_targets;
pub use laws::new_index;
pub use laws::pop_times;
pub use laws::without_target;
