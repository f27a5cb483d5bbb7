//! Bookkeeping of the global system: which equations belong to which node.

pub mod assembly;

pub use assembly::MatrixAssembler;
