//! A compiler for single arithmetic expressions: a scanner, a
//! recursive-descent parser and a code generator for a small stack machine,
//! each stated and proved against a mathematical model.

pub mod token;
pub mod node;
pub mod machine;
pub mod dot;
pub mod compile;
