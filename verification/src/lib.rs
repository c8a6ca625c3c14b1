//! Header-to-schema code generation for a family of binary resource formats.
//!
//! The library reads a constrained C++-style declaration header (enum classes
//! and plain data classes), locates each declaration body by brace matching,
//! canonicalizes names, translates type expressions, and renders
//! serialization-tagged declarations together with the external string tags
//! used for polymorphic value storage.

pub mod classes;
pub mod emit;
pub mod enums;
pub mod extract;
pub mod glacier_types;
pub mod names;
pub mod registry;
pub mod resource;
pub mod scanner;
pub mod text;
pub mod types;
