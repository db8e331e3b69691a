pub mod node;
pub mod tree;
pub mod shape;
pub mod mutate;
pub mod persist;
pub mod registry;
pub mod arrange;
pub mod page;
pub mod section;
pub mod chrome;
pub mod assembly;
pub mod resize;
pub mod nodes;
