//! Compiler core for the script formats of a family of vertical shooters.
//!
//! The crate holds the syntax trees, name resolution, type checking, the
//! lowering of statements to instructions and back, and the STD file format.
//! Everything here works on values in memory: reading files and printing
//! diagnostics is left to the caller.

pub mod ast;
pub mod binary_io;
pub mod context;
pub mod core_mapfiles;
pub mod error;
pub mod float32;
pub mod game;
pub mod ident;
pub mod instr;
pub mod llir;
pub mod meta;
pub mod parser_util;
pub mod passes;
pub mod pos;
pub mod resolve;
pub mod scope;
pub mod script;
pub mod std_file;
pub mod text;
pub mod type_system;
pub mod value;
