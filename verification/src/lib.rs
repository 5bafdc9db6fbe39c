//! Structural classification of type expressions for C-interoperable code.
//!
//! A type such as `*mut *const libc::c_int`, `&[u8]` or `Option<Box<Node>>`
//! is parsed and described by a [`traits::TypeTraits`] record: whether it is
//! a pointer, a reference, a slice, a string, an option or a box, what it
//! wraps, and, for a pointer, which primitive its base stands for according
//! to a [`scalar_map::ScalarAliasTable`]. A second part of the library
//! reconciles the type aliases and the imports of a whole unit
//! ([`aliases`]).
//!
//! Parsing itself is done by `syn`, behind the few functions of [`syntax`],
//! whose results have names; [`parse`] follows what the parser reads of a
//! text down into the library's own picture of it. Everything that is
//! decided about a parsed type or unit is decided in verified code, against
//! the spec functions that stand beside it. What holds of all inputs is
//! stated and proved in [`laws`], [`normal_form`], [`import_laws`] and
//! [`pass_laws`].

pub mod aliases;
pub mod classify;
pub mod declaration;
pub mod dedup;
pub mod error_context;
pub mod import_laws;
pub mod laws;
pub mod normal_form;
pub mod normalize;
pub mod parse;
pub mod pass_laws;
pub mod scalar_map;
pub mod stdint;
pub mod syntax;
pub mod text;
pub mod traits;
pub mod type_expr;
pub mod use_tree;
