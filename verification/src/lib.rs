//! A small ahead-of-time compiler from a Lisp-syntax expression language to
//! x86-64 assembly, with reference interpreters for its two program forms.
//!
//! A program is one expression over 64-bit integers: literals, `(read)`,
//! negation, addition, variables and `let`. It goes through these passes:
//!
//! 1. [`lexer`] and [`parser`]: source text to a tree ([`ast`]).
//! 2. [`uniquify`]: every bound name gets the depth of its `let` as a suffix.
//! 3. [`partial_eval`]: what is known ahead of time is computed.
//! 4. [`decomplify`]: every operand of a primitive becomes an atom.
//! 5. [`explicate`]: the tree becomes a list of assignments and a return.
//! 6. [`x64_backend`]: instructions are selected, variables get their homes
//!    on the stack, moves are made legal, and the frame is put around the
//!    blocks; [`liveness`] computes what is live before each instruction.
//! 7. [`x64_print`]: the text for the assembler.
//!
//! [`interp_ast`] and [`interp_ir`] run the tree and the intermediate form;
//! [`agreement`] proves that they agree, [`preservation`] that the removal
//! of complex operands keeps a program's value and its reads, [`compiled`]
//! that the selected instructions compute that value on a [`machine`] that
//! runs them, and [`emission`] that what the back end emits can be printed.
//! [`simulator`] is that machine as a program can run it.
//!
//! Every function is verified against a contract over the mathematical
//! models of the types; only the natural order of names ([`natural`]) and
//! the appending of a character to a string ([`text`]) rest on contracts
//! that are taken on trust.

pub mod agreement;
pub mod ast;
pub mod compiled;
pub mod decomplify;
pub mod emission;
pub mod explicate;
pub mod interp_ast;
pub mod interp_ir;
pub mod interpreter;
pub mod lexer;
pub mod liveness;
pub mod machine;
pub mod natural;
pub mod parser;
pub mod partial_eval;
pub mod preservation;
pub mod repl;
pub mod simulator;
pub mod text;
pub mod token;
pub mod types;
pub mod uniquify;
pub mod utility;
pub mod x64_backend;
pub mod x64_def;
pub mod x64_print;
