//! An application shell's logic: design-token scales, chords and keybinds,
//! command dispatch decisions, a split-tree dock layout and tree-view state.

pub mod text;
pub mod keyed;
pub mod sorted_ids;
pub mod theme;
pub mod dock;
pub mod input;
pub mod settings;
pub mod tree_view;
