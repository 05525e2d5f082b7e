//! Schema-driven decoding of dynamic, JSON-like value trees into typed,
//! shape-annotated numeric buffers.
//!
//! A caller supplies a [`parsing::StructureDescriptor`] describing the
//! expected structure of the input (which fields exist, which element type
//! each numeric array has, which sequences of records should be transposed
//! into columns), and the engine walks schema and input in lockstep,
//! producing a tree of dense numeric buffers with inferred shapes.

pub mod img;
pub mod parsing;
