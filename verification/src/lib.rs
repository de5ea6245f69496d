//! Type checking for the Inference language: error types, type descriptions,
//! a scoped symbol table and the inference passes over a source AST.

pub mod ast;
pub mod text;
pub mod type_info;
pub mod errors;
pub mod symbol_table;
pub mod table_copy;
pub mod typed_context;
pub mod type_checker;
pub mod inference;
pub mod statements;
pub mod passes;
pub mod failure;
pub mod prelude;
pub mod reports;
pub mod laws;
pub mod scope_laws;
pub mod op_laws;
pub mod fx;
