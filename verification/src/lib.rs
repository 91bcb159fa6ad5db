//! An interpreter for a small imperative scripting language, verified with Verus.
//!
//! A program goes through three stages. [`eval_parser`] and [`parser`] turn the parse tree
//! of its source into expressions and statements. [`instruction_compiler`] and [`labels`]
//! lower the statements to the instructions of a stack machine and resolve its jumps.
//! [`virtual_machine`] executes the instructions, with the built-in functions of
//! [`builtins`], on the values of [`value`] and the integers of [`int_value`].
//! [`node_runner`] is a second way to run statements, without compiling them.
//! [`balance`] and [`heap_law`] show that a program whose functions end in a `return`
//! leaves no variable behind when it has run to its end.
//!
//! Every function states what it returns as a mathematical value, and Verus proves that it
//! does. The library reads no file and writes no output, and it carries floating-point
//! numbers without computing with them: the program around it parses the source, writes
//! what the machine hands it, and carries out the float operations that the machine leaves
//! to it.

pub mod balance;
pub mod block_law;
pub mod builtins;
pub mod copy;
pub mod declarations;
pub mod error;
pub mod eval_parser;
pub mod expr_text;
pub mod float_literals;
pub mod format_law;
pub mod heap_law;
pub mod instruction;
pub mod instruction_compiler;
pub mod int_value;
pub mod labels;
pub mod node_runner;
pub mod operators;
pub mod parser;
pub mod text;
pub mod value;
pub mod virtual_machine;
