//! A small notebook that owns its notes, a command language for driving it
//! line by line, and the rules of a number-guessing game.
//!
//! Every function here is verified by Verus against its contract, except the
//! few trusted wrappers around std and `rand` that are marked as such.
//! Reading input and printing output are left to the caller, which hands the
//! library one line at a time and prints the lines it gets back.

pub mod text;
pub mod notebook;
pub mod guess;
pub mod command;
pub mod repl;

pub use notebook::{Entry, Notebook};
