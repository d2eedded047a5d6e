//! Passes over syntax trees.

pub mod compile_loop;
pub mod const_folding;
pub mod const_simplify;
pub mod resolve_vars;
pub mod type_check;
pub mod typing;
pub mod visibility;
