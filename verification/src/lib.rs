//! A small job-control shell: pipes of two commands, redirection to a file, jobs in the
//! foreground and the background, and the built-in commands `exit`, `jobs`, `fg` and `cd`.
//!
//! Nothing here touches the system. The shell and its worker say what is to be done, in order,
//! and are handed back what came of it.
pub mod builtin;
pub mod child;
pub mod conduct;
pub mod control;
pub mod course;
pub mod dispatch;
pub mod effect;
pub mod launch;
pub mod laws;
pub mod message;
pub mod number;
pub mod parser;
pub mod request;
pub mod shell;
pub mod text;
pub mod worker;
