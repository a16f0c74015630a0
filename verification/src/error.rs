use vstd::prelude::*;

verus! {

/// Errors surfaced by the task loader.
#[derive(Debug, Clone, Copy, PartialEq, Eq, Structural)]
pub enum MyError {
    /// The requested task name does not map to any known task.
    InvalidFuture,
}

/// Errors surfaced synchronously by the shell's command dispatch.
#[derive(Debug, Clone, Copy, PartialEq, Eq, Structural)]
pub enum ShellError {
    /// The command name is not in the dispatch table, or the line is empty.
    InvalidCommand,
    /// The command was given the wrong number of arguments.
    InvalidArgumentCount,
    /// An argument could not be parsed as a signed 32-bit integer.
    InvalidNumber,
    /// Division with a zero divisor.
    DivisionByZero,
    /// The operator is not one of `+`, `-`, `*`, `/`.
    InvalidOperator,
    /// The message argument is missing or unusable.
    InvalidMessage,
}

} // verus!
