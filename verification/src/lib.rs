//! A small interpreter for a logic-programming language in the Prolog family.
//!
//! A program is a sequence of Horn clauses; a query is a goal term. The
//! resolver proves the goal against the program by depth-first search with
//! chronological backtracking and returns the goal instantiated by the
//! bindings that make it true.

pub mod bindings;
pub mod builtins;
pub mod laws;
pub mod lexer;
pub mod parser;
pub mod printer;
pub mod program;
pub mod rename;
pub mod search_laws;
pub mod solver;
pub mod text;
pub mod tree;
pub mod unify;
