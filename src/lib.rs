//! Propositional formulas in parenthesized prefix notation: parsing from a
//! generic list tree, evaluation, variable collection, evaluation traces and
//! LaTeX truth tables.
pub mod tree;
pub mod expr;
pub mod names;
pub mod assignment;
pub mod steps;
pub mod table;
pub mod laws;
