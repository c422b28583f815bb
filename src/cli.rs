//! The command-line surface: which run the arguments ask for, and the error
//! kinds that end a run, with their messages and exit codes.
use vstd::prelude::*;
use vstd::string::StringExecFns;

use crate::mode::{Mode, mode_of_token};

verus! {

/// Exit code of a run that ends normally.
pub const SUCCESS: i32 = 0;

/// The usage text.
pub open spec fn usage_text() -> Seq<char> {
    "Usage: dump [bin|oct|hex] FILE"@
}

/// What a run ends with when it fails.
#[derive(Clone, Debug, PartialEq, Eq)]
pub enum DumpError {
    /// Not exactly a mode and a path after the program name.
    WrongArgCount,
    /// The mode token is none of `bin`, `oct`, `hex`.
    UnknownMode(String),
    /// The path does not exist.
    FileNotFound(String),
    /// The path is a directory.
    IsDirectory,
    /// The file could not be opened; holds the system's reason.
    OpenFailed(String),
    /// A read failed part way; holds the system's reason.
    ReadFailed(String),
}

/// The exit code of each error kind.
pub open spec fn exit_code_of(e: DumpError) -> i32 {
    match e {
        DumpError::WrongArgCount => 1,
        DumpError::UnknownMode(_) => 2,
        DumpError::FileNotFound(_) => 3,
        DumpError::IsDirectory => 4,
        DumpError::OpenFailed(_) => 5,
        DumpError::ReadFailed(_) => 6,
    }
}

/// The text printed for each error kind.
pub open spec fn message_of(e: DumpError) -> Seq<char> {
    match e {
        DumpError::WrongArgCount => usage_text(),
        DumpError::UnknownMode(t) => "Unknown mode: "@ + t@ + "\n"@ + usage_text(),
        DumpError::FileNotFound(p) => "File not found: "@ + p@,
        DumpError::IsDirectory => "Path is a directory!"@,
        DumpError::OpenFailed(r) => "Error opening File: "@ + r@,
        DumpError::ReadFailed(r) => "Error reading file: "@ + r@,
    }
}

impl DumpError {
    /// The process exit code for this error.
    pub fn exit_code(&self) -> (r: i32)
        ensures
            r == exit_code_of(*self),
    {
        match self {
            DumpError::WrongArgCount => 1,
            DumpError::UnknownMode(_) => 2,
            DumpError::FileNotFound(_) => 3,
            DumpError::IsDirectory => 4,
            DumpError::OpenFailed(_) => 5,
            DumpError::ReadFailed(_) => 6,
        }
    }

    /// The text to print for this error.
    pub fn message(&self) -> (r: String)
        ensures
            r@ == message_of(*self),
    {
        match self {
            DumpError::WrongArgCount => usage(),
            DumpError::UnknownMode(t) => {
                let mut s = "Unknown mode: ".to_owned();
                s.append(t.as_str());
                s.append("\n");
                let u = usage();
                s.append(u.as_str());
                s
            },
            DumpError::FileNotFound(p) => {
                let mut s = "File not found: ".to_owned();
                s.append(p.as_str());
                s
            },
            DumpError::IsDirectory => "Path is a directory!".to_owned(),
            DumpError::OpenFailed(reason) => {
                let mut s = "Error opening File: ".to_owned();
                s.append(reason.as_str());
                s
            },
            DumpError::ReadFailed(reason) => {
                let mut s = "Error reading file: ".to_owned();
                s.append(reason.as_str());
                s
            },
        }
    }
}

/// The usage text.
pub fn usage() -> (r: String)
    ensures
        r@ == usage_text(),
{
    "Usage: dump [bin|oct|hex] FILE".to_owned()
}

/// The run that the arguments ask for.
#[derive(Clone, Debug, PartialEq, Eq)]
pub enum Command {
    /// Print the usage text and succeed.
    Help,
    /// Dump the file at `path` in `mode`.
    Dump { mode: Mode, path: String },
}

/// Whether an argument asks for help.
pub open spec fn is_help_flag(a: Seq<char>) -> bool {
    a == "-h"@ || a == "--help"@
}

/// Whether any argument, the program name included, asks for help.
pub open spec fn asks_help(args: Seq<Seq<char>>) -> bool {
    exists|i: int| 0 <= i < args.len() && is_help_flag(#[trigger] args[i])
}

/// Reads the full argument list, program name first. A help flag anywhere wins;
/// otherwise there must be exactly a mode token and a path.
pub fn parse_args(args: &Vec<String>) -> (r: Result<Command, DumpError>)
    ensures
        asks_help(args.deep_view()) ==> r == Ok::<Command, DumpError>(Command::Help),
        !asks_help(args.deep_view()) && args.len() != 3 ==> r == Err::<Command, DumpError>(
            DumpError::WrongArgCount,
        ),
        !asks_help(args.deep_view()) && args.len() == 3 && mode_of_token(args[1]@) is None ==> (
        r matches Err(DumpError::UnknownMode(t)) && t@ == args[1]@),
        !asks_help(args.deep_view()) && args.len() == 3 && mode_of_token(args[1]@) is Some ==> (
        r matches Ok(Command::Dump { mode, path }) && Some(mode) == mode_of_token(args[1]@)
            && path@ == args[2]@),
{
    let short = "-h".to_owned();
    let long = "--help".to_owned();
    let mut i: usize = 0;
    while i < args.len()
        invariant
            i <= args.len(),
            short@ == "-h"@,
            long@ == "--help"@,
            forall|j: int| 0 <= j < i ==> !is_help_flag(#[trigger] args.deep_view()[j]),
        decreases args.len() - i,
    {
        if args[i] == short || args[i] == long {
            assert(is_help_flag(args.deep_view()[i as int]));
            return Ok(Command::Help);
        }
        i = i + 1;
    }
    assert(!asks_help(args.deep_view()));
    if args.len() != 3 {
        return Err(DumpError::WrongArgCount);
    }
    match Mode::parse(args[1].as_str()) {
        Some(mode) => Ok(Command::Dump { mode, path: args[2].clone() }),
        None => Err(DumpError::UnknownMode(args[1].clone())),
    }
}

/// Checks what the file system reported of the path: it must exist and must
/// not be a directory.
pub fn check_path(path: &String, exists: bool, is_dir: bool) -> (r: Result<(), DumpError>)
    ensures
        !exists ==> (r matches Err(DumpError::FileNotFound(p)) && p@ == path@),
        exists && is_dir ==> r == Err::<(), DumpError>(DumpError::IsDirectory),
        exists && !is_dir ==> r is Ok,
{
    if !exists {
        Err(DumpError::FileNotFound(path.clone()))
    } else if is_dir {
        Err(DumpError::IsDirectory)
    } else {
        Ok(())
    }
}

} // verus!
