//! Lowering of a typed, place-based mid-level program representation into a
//! stack-oriented bytecode IR with explicit basic blocks.
//!
//! - `ty`: what the host compiler reports about a source type.
//! - `variable`: target type descriptors, their lowering and canonical names.
//! - `cil_node`: instruction trees built by place and operator lowering.
//! - `place`: addresses, loads and stores of places.
//! - `unop`: unary operators.
//! - `assembly`: the arena of interned statements and nodes.
//! - `basic_block`: blocks of statement handles with nested handler regions.
pub mod assembly;
pub mod basic_block;
pub mod cil_node;
pub mod place;
pub mod text;
pub mod ty;
pub mod unop;
pub mod variable;
