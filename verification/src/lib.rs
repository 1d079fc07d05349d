//! A two-stage compiler for the Cythan zero-test/jump machine.
//!
//! The machine knows cells, jumps, a jump taken where a cell holds zero,
//! increment, decrement and exit. It has no call stack and evaluates no
//! expressions: calls, loops and conditionals are compiled down to these.
//!
//! The front end ([`compiler`]) lowers a small structured language, given as
//! the syntax tree of [`ast`], to a line-oriented pseudo-assembly. [`parser`]
//! reads that syntax tree from the parse tree of a grammar. The back end
//! ([`assembler`]) lowers the pseudo-assembly to machine text: it reads each
//! line into [`value`]s, hands them to the emitters of [`instructions`], and
//! these append their text to the sections of a [`template`].
//!
//! Every executable function carries a contract over a mathematical model of
//! its inputs: texts are sequences of characters ([`text`]), the trees and
//! the states of the two stages have views made of sequences, sets and maps.
//! What the stages do is written down as functions on these views, and
//! [`compiler_laws`], [`compiler_freshness`] and [`assembler_laws`] prove
//! what follows from them: that fresh names never collide, that no label is
//! defined twice and no temporary declared twice in a whole file, how the
//! lines of a conditional and of a loop are laid out, that the results of two
//! calls stand apart.

pub mod assembler;
pub mod assembler_laws;
pub mod ast;
pub mod compiler;
pub mod compiler_freshness;
pub mod compiler_laws;
pub mod error;
pub mod instructions;
pub mod parser;
pub mod template;
pub mod text;
pub mod utils;
pub mod value;
