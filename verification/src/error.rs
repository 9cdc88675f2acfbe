//! The errors of the `to` tool.
use std::io;
use std::path::PathBuf;

use vstd::prelude::*;

use crate::text::{decimal, decimal_chars, extend_chars, extend_str, string_of};

verus! {

#[verifier::external_type_specification]
#[verifier::external_body]
pub struct ExIoError(io::Error);

#[verifier::external_type_specification]
#[verifier::external_body]
pub struct ExPathBuf(PathBuf);

/// Everything that can go wrong while running a command.
#[derive(Debug)]
pub enum AppError {
    Io(io::Error),
    InvalidArgs(String),
    TodoNotFound(PathBuf),
    AlreadyInitialized(PathBuf),
    NotGitRepository(PathBuf),
    GitCommandFailed(String),
    CommandFailed(String),
    InvalidTaskIndex { index: usize, len: usize },
    MalformedTodoLine { line: usize, content: String },
    EmptyTask,
}

/// What contracts say of an error: its kind and its plain-valued fields.
pub enum ErrorView {
    Io,
    InvalidArgs(Seq<char>),
    TodoNotFound,
    AlreadyInitialized,
    NotGitRepository,
    GitCommandFailed(Seq<char>),
    CommandFailed(Seq<char>),
    InvalidTaskIndex { index: nat, len: nat },
    MalformedTodoLine { line: nat, content: Seq<char> },
    EmptyTask,
}

impl View for AppError {
    type V = ErrorView;

    open spec fn view(&self) -> ErrorView {
        match self {
            AppError::Io(_) => ErrorView::Io,
            AppError::InvalidArgs(m) => ErrorView::InvalidArgs(m@),
            AppError::TodoNotFound(_) => ErrorView::TodoNotFound,
            AppError::AlreadyInitialized(_) => ErrorView::AlreadyInitialized,
            AppError::NotGitRepository(_) => ErrorView::NotGitRepository,
            AppError::GitCommandFailed(m) => ErrorView::GitCommandFailed(m@),
            AppError::CommandFailed(m) => ErrorView::CommandFailed(m@),
            AppError::InvalidTaskIndex { index, len } => ErrorView::InvalidTaskIndex {
                index: *index as nat,
                len: *len as nat,
            },
            AppError::MalformedTodoLine { line, content } => ErrorView::MalformedTodoLine {
                line: *line as nat,
                content: content@,
            },
            AppError::EmptyTask => ErrorView::EmptyTask,
        }
    }
}

/// What contracts say of the outcome of an operation.
pub open spec fn outcome<T: View>(r: Result<T, AppError>) -> Result<T::V, ErrorView> {
    match r {
        Ok(x) => Ok(x@),
        Err(e) => Err(e@),
    }
}

/// The message for an out-of-range task number.
pub open spec fn index_error_message(index: nat, len: nat) -> Seq<char> {
    "task "@ + decimal(index) + " is out of range; expected a number between 1 and "@ + decimal(
        len,
    )
}

/// The message for a line of a `.todo` file that is not a task.
pub open spec fn malformed_line_message(line: nat, content: Seq<char>) -> Seq<char> {
    "invalid `.todo` format on line "@ + decimal(line)
        + ": expected `[ ] task` or `[x] task`, got `"@ + content + "`"@
}

/// The message for a missing `.todo` file, searched for from the path
/// shown as `shown`.
pub open spec fn not_found_message(shown: Seq<char>) -> Seq<char> {
    "no `.todo` file found from "@ + shown + " upward; run `to init` in your project root"@
}

/// The message for a `.todo` file that already exists at `shown`.
pub open spec fn already_initialized_message(shown: Seq<char>) -> Seq<char> {
    "a `.todo` file already exists at "@ + shown
}

/// The message for a directory, shown as `shown`, outside any git
/// repository.
pub open spec fn not_git_message(shown: Seq<char>) -> Seq<char> {
    shown + " is not inside a git repository"@
}

/// `io::Error`'s `Display` text. The text comes from the operating system
/// and the error's kind; nothing is stated of it.
#[verifier::external_body]
fn io_error_text(e: &io::Error) -> String {
    e.to_string()
}

/// `Path::display` of a path, as a `String`. What it holds depends on the
/// platform's path encoding; nothing is stated of it.
#[verifier::external_body]
fn path_text(p: &PathBuf) -> String {
    p.display().to_string()
}

impl AppError {
    /// The message shown to the user for this error.
    pub fn message(&self) -> (r: String)
        ensures
            match self@ {
                ErrorView::InvalidArgs(m) => r@ == m,
                ErrorView::GitCommandFailed(m) => r@ == m,
                ErrorView::CommandFailed(m) => r@ == m,
                ErrorView::InvalidTaskIndex { index, len } => r@ == index_error_message(index, len),
                ErrorView::MalformedTodoLine { line, content } => r@ == malformed_line_message(
                    line,
                    content,
                ),
                ErrorView::EmptyTask => r@ == "task text cannot be empty"@,
                ErrorView::TodoNotFound => exists|shown: Seq<char>|
                    r@ == not_found_message(shown),
                ErrorView::AlreadyInitialized => exists|shown: Seq<char>|
                    r@ == already_initialized_message(shown),
                ErrorView::NotGitRepository => exists|shown: Seq<char>|
                    r@ == not_git_message(shown),
                ErrorView::Io => true,
            },
    {
        match self {
            AppError::Io(e) => io_error_text(e),
            AppError::InvalidArgs(m) => m.clone(),
            AppError::TodoNotFound(p) => {
                let mut v: Vec<char> = Vec::new();
                extend_str(&mut v, "no `.todo` file found from ");
                let shown = path_text(p);
                extend_str(&mut v, shown.as_str());
                extend_str(&mut v, " upward; run `to init` in your project root");
                assert(v@ =~= not_found_message(shown@));
                string_of(v.as_slice())
            },
            AppError::AlreadyInitialized(p) => {
                let mut v: Vec<char> = Vec::new();
                extend_str(&mut v, "a `.todo` file already exists at ");
                let shown = path_text(p);
                extend_str(&mut v, shown.as_str());
                assert(v@ =~= already_initialized_message(shown@));
                string_of(v.as_slice())
            },
            AppError::NotGitRepository(p) => {
                let mut v: Vec<char> = Vec::new();
                let shown = path_text(p);
                extend_str(&mut v, shown.as_str());
                extend_str(&mut v, " is not inside a git repository");
                assert(v@ =~= not_git_message(shown@));
                string_of(v.as_slice())
            },
            AppError::GitCommandFailed(m) => m.clone(),
            AppError::CommandFailed(m) => m.clone(),
            AppError::InvalidTaskIndex { index, len } => {
                let mut v: Vec<char> = Vec::new();
                extend_str(&mut v, "task ");
                let d = decimal_chars(*index);
                extend_chars(&mut v, d.as_slice());
                extend_str(&mut v, " is out of range; expected a number between 1 and ");
                let d = decimal_chars(*len);
                extend_chars(&mut v, d.as_slice());
                string_of(v.as_slice())
            },
            AppError::MalformedTodoLine { line, content } => {
                let mut v: Vec<char> = Vec::new();
                extend_str(&mut v, "invalid `.todo` format on line ");
                let d = decimal_chars(*line);
                extend_chars(&mut v, d.as_slice());
                extend_str(&mut v, ": expected `[ ] task` or `[x] task`, got `");
                extend_str(&mut v, content.as_str());
                extend_str(&mut v, "`");
                string_of(v.as_slice())
            },
            AppError::EmptyTask => "task text cannot be empty".to_owned(),
        }
    }
}

} // verus!
