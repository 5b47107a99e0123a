pub mod coord;
pub mod node_mask;
pub mod leaf_node;
pub mod internal_node;
pub mod root_node;
pub mod tree;
pub mod layout;
