//! `crush`: a small interactive shell library.
//!
//! The library holds the logic of the shell: splitting an input line into
//! tokens, parsing the tokens into a pipeline of command descriptors,
//! planning how each pipeline stage's standard input and output are wired,
//! and the line-editor state machine with its command history. The
//! surrounding binary performs the actual terminal and process I/O.

pub mod editor;
pub mod parser;
pub mod plan;
pub mod roundtrip;
pub mod shell;
pub mod text;
