//! A verified command-execution engine for a restricted POSIX-shell subset:
//! tokenizer, recursive-descent parser, shell-capability classifier, quoting
//! for interpolated values, in-process virtual commands, and the evaluation
//! rules for sequences, pipelines and subshells with explicit contexts,
//! exit-code propagation and cooperative cancellation.
pub mod ansi;
pub mod commands;
pub mod engine;
pub mod quote;
pub mod shell_parser;
pub mod state;
pub mod text;
pub mod utils;

pub use ansi::{AnsiConfig, AnsiUtils};
pub use commands::{CommandContext, StreamChunk};
pub use engine::{EvalOutcome, ExecutionContext, Pipeline, StageRequest, StageResponse};
pub use shell_parser::{needs_real_shell, parse_shell_command, ParsedCommand, ShellParser};
pub use state::{GlobalState, ShellSettings};
pub use utils::{CommandResult, VirtualUtils};
pub use quote::quote;
