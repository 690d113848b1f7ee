//! A command-template engine for a task runner: named commands declare a
//! list of argument names and a shell-command template containing `%name`
//! placeholders. The library validates the number of supplied argument
//! values, substitutes every placeholder occurrence, and prepares the
//! shell invocation for the host platform. Spawning the shell itself is
//! left to the surrounding program.

pub mod command;
pub mod launcher;
pub mod text;
