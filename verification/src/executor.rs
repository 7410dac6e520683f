//! The plan nodes: each hands on one tuple per call, pulling from the node
//! below it.

pub mod node_agg;
pub mod node_delete;
pub mod node_insert;
pub mod node_seqscan;
pub mod node_sort;
pub mod plan_node;
