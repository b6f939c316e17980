//! What the command line asks for.

use vstd::prelude::*;

verus! {

/// What to run.
#[derive(Debug, PartialEq)]
pub enum Command {
    /// Run the program in the file at this path.
    FileRead(String),
    /// Run this program text.
    RunInlineCode(String),
    /// Run nothing.
    Noop,
}

/// Chooses the command from the values of the options: `src_path` is the
/// value of the source path option and `run_string` that of the inline code
/// option, each `None` where the option is absent. The source path wins where
/// both are given.
pub fn read_command(src_path: Option<String>, run_string: Option<String>) -> (command: Command)
    ensures
        command == (match (src_path, run_string) {
            (Some(path), _) => Command::FileRead(path),
            (None, Some(code)) => Command::RunInlineCode(code),
            (None, None) => Command::Noop,
        }),
{
    match (src_path, run_string) {
        (Some(path), _) => Command::FileRead(path),
        (_, Some(code)) => Command::RunInlineCode(code),
        _ => Command::Noop,
    }
}

} // verus!
