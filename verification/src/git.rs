//! What `to` makes of git's answers: the repository root, whether a branch
//! exists, how to switch to a branch, and the errors git reports.
use std::path::PathBuf;

use vstd::prelude::*;

use crate::error::{outcome, AppError, ErrorView};
use crate::scan::{decode_lossy, utf8_lossy};
use crate::text::{
    chars_of, chars_equal, contains_chars, extend_chars, extend_str, has_substring, lines,
    split_lines, string_of, trim, trimmed, views,
};
use crate::todo::strings_view;

verus! {

/// The repository root that `git rev-parse --show-toplevel` reported, from
/// whether it succeeded and its trimmed output and error text.
pub open spec fn git_root_spec(success: bool, out: Seq<char>, err: Seq<char>) -> Result<
    Seq<char>,
    ErrorView,
> {
    if !success {
        if has_substring(err, "not a git repository"@) {
            Err(ErrorView::NotGitRepository)
        } else {
            Err(ErrorView::GitCommandFailed("failed to resolve git root: "@ + trim(err)))
        }
    } else if trim(out).len() == 0 {
        Err(ErrorView::GitCommandFailed("git returned an empty repository root"@))
    } else {
        Ok(trim(out))
    }
}

/// The repository root from the answer of `git rev-parse --show-toplevel`
/// run in `project_root`, given as text; outside a repository the error
/// carries `project_root`.
pub fn git_root_result(success: bool, stdout: &str, stderr: &str, project_root: PathBuf) -> (r:
    Result<String, AppError>)
    ensures
        outcome(r) == git_root_spec(success, stdout@, stderr@),
        r matches Err(AppError::NotGitRepository(p)) ==> p == project_root,
{
    if !success {
        let err = chars_of(stderr);
        let needle = chars_of("not a git repository");
        if contains_chars(err.as_slice(), needle.as_slice()) {
            return Err(AppError::NotGitRepository(project_root));
        }
        let mut m = chars_of("failed to resolve git root: ");
        let t = trimmed(err.as_slice());
        extend_chars(&mut m, t.as_slice());
        return Err(AppError::GitCommandFailed(string_of(m.as_slice())));
    }
    let out = chars_of(stdout);
    let root = trimmed(out.as_slice());
    if root.len() == 0 {
        let m = chars_of("git returned an empty repository root");
        return Err(AppError::GitCommandFailed(string_of(m.as_slice())));
    }
    Ok(string_of(root.as_slice()))
}

/// The repository root from the raw answer of `git rev-parse
/// --show-toplevel`, its output and error bytes decoded as
/// `String::from_utf8_lossy` does.
pub fn git_root_from_output(
    success: bool,
    stdout: &[u8],
    stderr: &[u8],
    project_root: PathBuf,
) -> (r: Result<String, AppError>)
    ensures
        outcome(r) == git_root_spec(success, utf8_lossy(stdout@), utf8_lossy(stderr@)),
        r matches Err(AppError::NotGitRepository(p)) ==> p == project_root,
{
    let out = decode_lossy(stdout);
    let err = decode_lossy(stderr);
    git_root_result(success, out.as_str(), err.as_str(), project_root)
}

/// Whether `git branch --list` listed the branch `name`: some line of its
/// output is `name` once trimmed.
pub open spec fn lists_branch(out: Seq<char>, name: Seq<char>) -> bool {
    exists|i: int| 0 <= i < lines(out).len() && #[trigger] trim(lines(out)[i]) == name
}

/// What `git branch --list` said of the branch `name`.
pub open spec fn branch_exists_spec(success: bool, out: Seq<char>, err: Seq<char>, name: Seq<char>) -> Result<
    bool,
    ErrorView,
> {
    if !success {
        Err(ErrorView::GitCommandFailed("failed to inspect git branches: "@ + trim(err)))
    } else {
        Ok(lists_branch(out, name))
    }
}

/// Whether the branch `name` exists, from the answer of `git branch --list
/// --format=%(refname:short) <name>`, given as text.
pub fn branch_exists_result(success: bool, stdout: &str, stderr: &str, name: &str) -> (r: Result<
    bool,
    AppError,
>)
    ensures
        outcome(r) == branch_exists_spec(success, stdout@, stderr@, name@),
{
    if !success {
        let err = chars_of(stderr);
        let mut m = chars_of("failed to inspect git branches: ");
        let t = trimmed(err.as_slice());
        extend_chars(&mut m, t.as_slice());
        return Err(AppError::GitCommandFailed(string_of(m.as_slice())));
    }
    let out = chars_of(stdout);
    let wanted = chars_of(name);
    let ls = split_lines(out.as_slice());
    let ghost all = lines(stdout@);
    let mut i: usize = 0;
    while i < ls.len()
        invariant
            i <= ls@.len(),
            views(ls@) == all,
            all == lines(stdout@),
            success,
            wanted@ == name@,
            forall|j: int| 0 <= j < i ==> trim(#[trigger] all[j]) != name@,
        decreases ls@.len() - i,
    {
        assert(all[i as int] == ls@[i as int]@);
        let t = trimmed(ls[i].as_slice());
        if chars_equal(t.as_slice(), wanted.as_slice()) {
            assert(trim(all[i as int]) == name@);
            return Ok(true);
        }
        i = i + 1;
    }
    Ok(false)
}

/// Whether the branch `name` exists, from the raw answer of `git branch
/// --list`, decoded as `String::from_utf8_lossy` does.
pub fn branch_exists_from_output(success: bool, stdout: &[u8], stderr: &[u8], name: &str) -> (r:
    Result<bool, AppError>)
    ensures
        outcome(r) == branch_exists_spec(success, utf8_lossy(stdout@), utf8_lossy(stderr@), name@),
{
    let out = decode_lossy(stdout);
    let err = decode_lossy(stderr);
    branch_exists_result(success, out.as_str(), err.as_str(), name)
}

/// The git arguments that switch to the branch `name`, creating it when it
/// does not exist.
pub open spec fn switch_args_spec(exists: bool, name: Seq<char>) -> Seq<Seq<char>> {
    if exists {
        seq!["switch"@, name]
    } else {
        seq!["switch"@, "-c"@, name]
    }
}

/// What a failed switch to the branch `name` is reported as.
pub open spec fn switch_failure_spec(exists: bool, name: Seq<char>) -> Seq<char> {
    if exists {
        "failed to switch to branch `"@ + name + "`"@
    } else {
        "failed to create branch `"@ + name + "`"@
    }
}

/// The git arguments that switch to the branch `name` (creating it when
/// `exists` is false), and the message that introduces a failure.
pub fn branch_switch(exists: bool, name: &str) -> (r: (Vec<String>, String))
    ensures
        strings_view(r.0@) == switch_args_spec(exists, name@),
        r.1@ == switch_failure_spec(exists, name@),
{
    let mut args: Vec<String> = Vec::new();
    args.push(string_of(chars_of("switch").as_slice()));
    if !exists {
        args.push(string_of(chars_of("-c").as_slice()));
    }
    args.push(string_of(chars_of(name).as_slice()));
    let mut m: Vec<char> = Vec::new();
    if exists {
        extend_str(&mut m, "failed to switch to branch `");
    } else {
        extend_str(&mut m, "failed to create branch `");
    }
    extend_str(&mut m, name);
    extend_str(&mut m, "`");
    assert(strings_view(args@) =~= switch_args_spec(exists, name@));
    (args, string_of(m.as_slice()))
}

/// The error for a failed git command: the failure message, then git's
/// trimmed error text, or the exit status when that is empty.
pub open spec fn git_failure_spec(failure: Seq<char>, status: Seq<char>, err: Seq<char>) -> Seq<
    char,
> {
    if trim(err).len() == 0 {
        failure + ": git exited with status "@ + status
    } else {
        failure + ": "@ + trim(err)
    }
}

/// The outcome of a git command: success, or the error introduced by
/// `failure`, from its exit status (as `ExitStatus` displays it) and its
/// error text.
pub fn git_command_result(success: bool, status: &str, stderr: &str, failure: &str) -> (r: Result<
    (),
    AppError,
>)
    ensures
        match r {
            Ok(_) => success,
            Err(e) => !success && e@ == ErrorView::GitCommandFailed(
                git_failure_spec(failure@, status@, stderr@),
            ),
        },
{
    if success {
        return Ok(());
    }
    let err = chars_of(stderr);
    let t = trimmed(err.as_slice());
    let mut m = chars_of(failure);
    if t.len() == 0 {
        extend_str(&mut m, ": git exited with status ");
        extend_str(&mut m, status);
    } else {
        extend_str(&mut m, ": ");
        extend_chars(&mut m, t.as_slice());
    }
    Err(AppError::GitCommandFailed(string_of(m.as_slice())))
}

/// The outcome of a git command from its raw error bytes, decoded as
/// `String::from_utf8_lossy` does.
pub fn git_command_from_output(success: bool, status: &str, stderr: &[u8], failure: &str) -> (r:
    Result<(), AppError>)
    ensures
        match r {
            Ok(_) => success,
            Err(e) => !success && e@ == ErrorView::GitCommandFailed(
                git_failure_spec(failure@, status@, utf8_lossy(stderr@)),
            ),
        },
{
    let err = decode_lossy(stderr);
    git_command_result(success, status, err.as_str(), failure)
}

/// The error for a failed git command, from what it failed to do and its
/// trimmed error text.
pub open spec fn git_context_failure_spec(context: Seq<char>, err: Seq<char>) -> Seq<char> {
    context + ": "@ + trim(err)
}

/// The error for a failed git command: `context`, then git's error bytes
/// decoded as `String::from_utf8_lossy` does and trimmed.
pub fn git_failure(context: &str, stderr: &[u8]) -> (r: AppError)
    ensures
        r@ == ErrorView::GitCommandFailed(
            git_context_failure_spec(context@, utf8_lossy(stderr@)),
        ),
{
    let err = decode_lossy(stderr);
    let cs = chars_of(err.as_str());
    let t = trimmed(cs.as_slice());
    let mut m = chars_of(context);
    extend_str(&mut m, ": ");
    extend_chars(&mut m, t.as_slice());
    AppError::GitCommandFailed(string_of(m.as_slice()))
}

} // verus!
