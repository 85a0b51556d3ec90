//! Emits a module of structural (TypeScript-style) type declarations for an
//! in-memory graph of type definitions.
//!
//! The library is built from three parts:
//! - [`ir`]: the immutable type-graph data model (expressions, definitions,
//!   and the graph arena that gives each definition a stable identity);
//! - [`closure`]: the dependency-closure walker, which finds every definition
//!   transitively reachable from a root exactly once, cycles included;
//! - [`text`] and [`emit`]: the serializer and the module emitter, whose
//!   contracts pin the produced text down to the character.

pub mod closure;
pub mod emit;
pub mod ir;
pub mod text;

pub use emit::{write_definition_file, DefinitionFileOptions, Stats};
pub use ir::{
    graph_well_formed, DefinedTypeInfo, Ident, NativeTypeInfo, ObjectField, TypeArray, TypeDef, TypeDefinition,
    TypeDescription, TypeExpr, TypeGraph, TypeInfo, TypeIntersection, TypeName, TypeObject,
    TypeString, TypeTuple, TypeUnion,
};
