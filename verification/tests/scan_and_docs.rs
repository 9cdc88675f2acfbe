use std::path::PathBuf;

use to::error::AppError;
use to::git::{
    branch_exists_from_output, branch_exists_result, branch_switch, git_command_from_output,
    git_command_result, git_root_from_output, git_root_result,
};
use to::project::{agent_doc_contents, nearest_todo, AGENT_DOC_FILE, AGENT_SECTION_START};
use to::scan::{scan_file_contents, scan_text, tracked_paths};

#[test]
fn finds_todo_comments_with_their_places() {
    let tasks = scan_text("// TODO: tracked task\nfn main() {}\n", "src/lib.rs");
    assert_eq!(tasks, vec!["tracked task (src/lib.rs:1)".to_string()]);
}

#[test]
fn scans_lines_in_order_and_skips_empty_comments() {
    let text = "a\r\n# TODO:   first  \r\n// TODO:\n/* TODO: second TODO: part */\nTODO third\n";
    let tasks = scan_text(text, "notes.txt");
    assert_eq!(
        tasks,
        vec![
            "first (notes.txt:2)".to_string(),
            "second TODO: part */ (notes.txt:4)".to_string(),
        ]
    );
}

#[test]
fn binary_files_give_no_tasks() {
    assert!(scan_file_contents(b"// TODO: hidden\0\x01", "bin").is_empty());
}

#[test]
fn invalid_utf8_is_replaced_not_dropped() {
    let tasks = scan_file_contents(b"// TODO: caf\xe9 fix\n", "src/x.rs");
    assert_eq!(tasks, vec!["caf\u{fffd} fix (src/x.rs:1)".to_string()]);
    let tasks = scan_file_contents("// TODO: café\n".as_bytes(), "src/y.rs");
    assert_eq!(tasks, vec!["café (src/y.rs:1)".to_string()]);
}

#[test]
fn reads_the_tracked_file_list() {
    let paths = tracked_paths(b".todo\0src/lib.rs\0\0dir/na\xefme.rs\0");
    assert_eq!(
        paths,
        vec![".todo".to_string(), "src/lib.rs".to_string(), "dir/na\u{fffd}me.rs".to_string()]
    );
    assert!(tracked_paths(b"").is_empty());
    assert_eq!(tracked_paths(b"last"), vec!["last".to_string()]);
}

#[test]
fn new_agent_doc_holds_the_section() {
    let created = agent_doc_contents(None).unwrap();
    assert!(created.starts_with(AGENT_SECTION_START));
    assert!(created.contains("Run `to ls`"));
    assert!(created.contains("to do <number> --create-branch"));
    assert!(created.ends_with("<!-- to:todo-instructions:end -->\n"));
}

#[test]
fn ensure_agent_docs_does_not_duplicate_section() {
    let first = agent_doc_contents(Some("# Notes\n")).unwrap();
    assert!(first.starts_with("# Notes\n\n<!-- to:todo-instructions:start -->"));
    assert_eq!(first.matches("<!-- to:todo-instructions:start -->").count(), 1);
    assert_eq!(agent_doc_contents(Some(&first)), None);
}

#[test]
fn agent_doc_separators() {
    let updated = agent_doc_contents(Some("# Notes")).unwrap();
    assert!(updated.starts_with("# Notes\n\n<!--"));
    let updated = agent_doc_contents(Some("")).unwrap();
    assert!(updated.starts_with("<!--"));
}

#[test]
fn git_root_errors() {
    let root = git_root_result(true, "/work/repo\n", "", PathBuf::from("/work/repo/sub")).unwrap();
    assert_eq!(root, "/work/repo");
    let error = git_root_result(
        false,
        "",
        "fatal: not a git repository (or any of the parent directories): .git\n",
        PathBuf::from("/tmp/x"),
    )
    .unwrap_err();
    assert!(matches!(error, AppError::NotGitRepository(_)));
    let error = git_root_result(false, "", " boom \n", PathBuf::from("/tmp/x")).unwrap_err();
    assert_eq!(error.message(), "failed to resolve git root: boom");
    let error = git_root_result(true, " \n", "", PathBuf::from("/tmp/x")).unwrap_err();
    assert_eq!(error.message(), "git returned an empty repository root");
    let root = git_root_from_output(true, b"/srv/r\xff\n", b"", PathBuf::from("/srv")).unwrap();
    assert_eq!(root, "/srv/r\u{fffd}");
}

#[test]
fn branch_listing() {
    assert!(branch_exists_result(true, "main\n  feature/x  \n", "", "feature/x").unwrap());
    assert!(!branch_exists_result(true, "main\nfeature/xy\n", "", "feature/x").unwrap());
    let error = branch_exists_result(false, "", " bad \n", "x").unwrap_err();
    assert_eq!(error.message(), "failed to inspect git branches: bad");
    assert!(branch_exists_from_output(true, b"main\r\n", b"", "main").unwrap());
}

#[test]
fn switching_branches() {
    let (args, failure) = branch_switch(true, "feature/a");
    assert_eq!(args, vec!["switch".to_string(), "feature/a".to_string()]);
    assert_eq!(failure, "failed to switch to branch `feature/a`");
    let (args, failure) = branch_switch(false, "feature/a");
    assert_eq!(args, vec!["switch".to_string(), "-c".to_string(), "feature/a".to_string()]);
    assert_eq!(failure, "failed to create branch `feature/a`");
}

#[test]
fn git_command_failures() {
    assert!(git_command_result(true, "exit status: 0", "", "failed").is_ok());
    let error = git_command_result(false, "exit status: 128", "  \n", "failed to switch").unwrap_err();
    assert_eq!(error.message(), "failed to switch: git exited with status exit status: 128");
    let error = git_command_result(false, "exit status: 1", "fatal: nope\n", "failed to switch").unwrap_err();
    assert_eq!(error.message(), "failed to switch: fatal: nope");
    let error = git_command_from_output(false, "exit status: 1", b"bad \xff\n", "x").unwrap_err();
    assert_eq!(error.message(), "x: bad \u{fffd}");
}

#[test]
fn finds_parent_todo_file() {
    assert_eq!(nearest_todo(&[false, false, true, true]), Some(2));
    assert_eq!(nearest_todo(&[true, true]), Some(0));
    assert_eq!(nearest_todo(&[false, false]), None);
    assert_eq!(nearest_todo(&[]), None);
}

#[test]
fn agent_doc_file_name() {
    assert_eq!(AGENT_DOC_FILE, "AGENTS.md");
}
