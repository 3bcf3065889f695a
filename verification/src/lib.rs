//! The verified core of a POSIX-style shell: the lexer with parameter expansion, redirections,
//! pipelines, jobs, history, completion, the builtins and the read-eval step that joins them.
//!
//! Nothing here touches the terminal, the file system or a process. The functions take what
//! was read and hand back what is to be done.

pub mod answer;
pub mod builtins;
pub mod chars;
pub mod completion;
pub mod grammar;
pub mod history;
pub mod jobs;
pub mod laws;
pub mod lexer;
pub mod lines;
pub mod merge;
pub mod messages;
pub mod numbers;
pub mod pipeline;
pub mod quoting;
pub mod redirect;
pub mod request;
pub mod shell;
pub mod steps;
pub mod table;
pub mod text;
pub mod views;
