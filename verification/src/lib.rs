//! A terminal viewer for Compact Log Event Format (CLEF) files: newline-delimited
//! JSON log records are parsed into structured events with a resolved severity
//! level and a fully substituted message, and browsed through a wrap-around
//! list cursor.

use vstd::prelude::*;

verus! {

/// The first positional argument names the log file to open.
#[derive(Debug, PartialEq)]
pub struct AppArguments {
    pub file_path: String,
}

/// Extracts the application arguments from the program's argument vector:
/// the argument at index 1 (the first after the program name) is the log
/// file path; with fewer than two arguments there is no path to use.
pub fn get_app_arguments_from_program_args(args: &[String]) -> (r: Result<
    AppArguments,
    AppError,
>)
    ensures
        args@.len() > 1 ==> (r matches Ok(a) && a.file_path@ == args@[1]@),
        args@.len() <= 1 ==> (r matches Err(e) && e == AppError::ArgumentError),
{
    if args.len() > 1 {
        let file_path = args[1].clone();
        Ok(AppArguments { file_path })
    } else {
        Err(AppError::ArgumentError)
    }
}

/// The failure classes of the viewer.
#[derive(Debug, Clone, Copy, PartialEq, Eq, Structural)]
pub enum AppError {
    /// The log file path argument is missing.
    ArgumentError,
    /// The log file cannot be read.
    IoError,
    /// A line of the log file is not a JSON object.
    MalformedEvent,
    /// Raw mode or the alternate screen could not be entered or left.
    TerminalError,
}

impl AppError {
    /// The message reported to the user for this error.
    pub fn message(&self) -> (r: &'static str)
        ensures
            *self == AppError::ArgumentError ==> r@ == "Please provide a path to a log file!"@,
    {
        match self {
            AppError::ArgumentError => "Please provide a path to a log file!",
            AppError::IoError => "unable to read log file",
            AppError::MalformedEvent => "a log line is not a valid JSON object",
            AppError::TerminalError => "an error occurred in the terminal session",
        }
    }
}

} // verus!

pub mod state;
pub mod text;
pub mod clef;
pub mod json;
pub mod render;
pub mod log;
pub mod tui;
