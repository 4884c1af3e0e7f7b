//! A two-pass assembler and register-machine interpreter for a small
//! line-oriented pseudo-assembly language.
pub mod symbols;
pub mod syntax;
pub mod instructions;
pub mod assembler;
pub mod machine;
