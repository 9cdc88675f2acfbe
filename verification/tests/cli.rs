use to::cli::{parse_args, Command, ListOptions};
use to::todo::Priority;

fn args(parts: &[&str]) -> Vec<String> {
    parts.iter().map(|part| part.to_string()).collect()
}

#[test]
fn parses_list_by_default() {
    assert_eq!(
        parse_args(&[]).unwrap(),
        Command::List(ListOptions::default())
    );
}

#[test]
fn parses_add_command() {
    assert_eq!(
        parse_args(&args(&["add", "write", "tests"])).unwrap(),
        Command::Add {
            text: "write tests".to_string(),
            parent: None,
            priority: None,
            labels: Vec::new()
        }
    );
}

#[test]
fn parses_add_subtask_command() {
    assert_eq!(
        parse_args(&args(&["add", "write", "tests", "--parent", "2"])).unwrap(),
        Command::Add {
            text: "write tests".to_string(),
            parent: Some(2),
            priority: None,
            labels: Vec::new()
        }
    );
}

#[test]
fn parses_add_metadata_command() {
    assert_eq!(
        parse_args(&args(&[
            "add",
            "fix",
            "api",
            "--priority",
            "high",
            "--label",
            "backend",
            "--label",
            "api"
        ]))
        .unwrap(),
        Command::Add {
            text: "fix api".to_string(),
            parent: None,
            priority: Some(Priority::High),
            labels: vec!["backend".to_string(), "api".to_string()]
        }
    );
}

#[test]
fn parses_uncheck_command() {
    assert_eq!(
        parse_args(&args(&["uncheck", "2"])).unwrap(),
        Command::Uncheck(vec![2])
    );
}

#[test]
fn parses_do_command() {
    assert_eq!(
        parse_args(&args(&["do", "3"])).unwrap(),
        Command::Do {
            indices: vec![3],
            branch_name: None,
            create_branch: false
        }
    );
}

#[test]
fn parses_do_command_with_branch_flag() {
    assert_eq!(
        parse_args(&args(&["do", "-b", "feature/work", "3"])).unwrap(),
        Command::Do {
            indices: vec![3],
            branch_name: Some("feature/work".to_string()),
            create_branch: false
        }
    );
    assert_eq!(
        parse_args(&args(&["do", "3", "-b", "feature/work"])).unwrap(),
        Command::Do {
            indices: vec![3],
            branch_name: Some("feature/work".to_string()),
            create_branch: false
        }
    );
}

#[test]
fn parses_do_command_with_multiple_indices() {
    assert_eq!(
        parse_args(&args(&["do", "3", "5"])).unwrap(),
        Command::Do {
            indices: vec![3, 5],
            branch_name: None,
            create_branch: false
        }
    );
}

#[test]
fn parses_do_command_with_multiple_indices_and_branch_name() {
    assert_eq!(
        parse_args(&args(&["do", "3", "5", "-b", "batch-work"])).unwrap(),
        Command::Do {
            indices: vec![3, 5],
            branch_name: Some("batch-work".to_string()),
            create_branch: false
        }
    );
}

#[test]
fn parses_do_command_with_auto_branch() {
    assert_eq!(
        parse_args(&args(&["do", "3", "--create-branch"])).unwrap(),
        Command::Do {
            indices: vec![3],
            branch_name: None,
            create_branch: true
        }
    );
}

#[test]
fn parses_move_command() {
    assert_eq!(
        parse_args(&args(&["mv", "4", "2"])).unwrap(),
        Command::Move { from: 4, to: 2 }
    );
}

#[test]
fn parses_edit_command() {
    assert_eq!(parse_args(&args(&["edit"])).unwrap(), Command::Edit);
}

#[test]
fn parses_prune_command() {
    assert_eq!(parse_args(&args(&["prune"])).unwrap(), Command::Prune);
}

#[test]
fn rejects_do_command_without_branch_name() {
    let error = parse_args(&args(&["do", "3", "-b"])).unwrap_err();
    assert_eq!(
        error.message(),
        "missing branch name for `to do -b`: use `-b <branch-name>`"
    );
}

#[test]
fn parses_list_query() {
    assert_eq!(
        parse_args(&args(&["ls", "branch"])).unwrap(),
        Command::List(ListOptions {
            query: Some("branch".to_string()),
            priority: None,
            labels: Vec::new()
        })
    );
}

#[test]
fn parses_list_metadata_filters() {
    assert_eq!(
        parse_args(&args(&["ls", "--priority", "low", "--label", "frontend,ui"])).unwrap(),
        Command::List(ListOptions {
            query: None,
            priority: Some(Priority::Low),
            labels: vec!["frontend".to_string(), "ui".to_string()]
        })
    );
}

#[test]
fn parses_done_command_with_multiple_indices() {
    assert_eq!(
        parse_args(&args(&["done", "1", "3"])).unwrap(),
        Command::Done(vec![1, 3])
    );
}

#[test]
fn parses_scan_command() {
    assert_eq!(parse_args(&args(&["scan"])).unwrap(), Command::Scan);
}

#[test]
fn parses_tree_command() {
    assert_eq!(parse_args(&args(&["tree", "2"])).unwrap(), Command::Tree(2));
}

#[test]
fn rejects_unknown_commands() {
    let error = parse_args(&args(&["wat"])).unwrap_err();
    assert!(error.message().contains("unknown command"));
}

#[test]
fn parses_help_flags() {
    assert_eq!(parse_args(&args(&["help"])).unwrap(), Command::Help);
    assert_eq!(parse_args(&args(&["-h"])).unwrap(), Command::Help);
    assert_eq!(parse_args(&args(&["--help"])).unwrap(), Command::Help);
}

#[test]
fn rejects_extra_arguments() {
    let error = parse_args(&args(&["init", "now"])).unwrap_err();
    assert_eq!(error.message(), "too many arguments");
}

#[test]
fn rejects_missing_or_bad_task_numbers() {
    let error = parse_args(&args(&["done"])).unwrap_err();
    assert_eq!(error.message(), "usage: `to done <number> [number ...]`");
    let error = parse_args(&args(&["rm", "two"])).unwrap_err();
    assert_eq!(error.message(), "task number must be a positive integer for `rm`");
    let error = parse_args(&args(&["tree"])).unwrap_err();
    assert_eq!(error.message(), "usage: `to tree <number>`");
    let error = parse_args(&args(&["mv", "1"])).unwrap_err();
    assert_eq!(error.message(), "usage: `to mv <from> <to>`");
}

#[test]
fn rejects_incomplete_add_and_list_options() {
    let error = parse_args(&args(&["add"])).unwrap_err();
    assert_eq!(error.message(), "missing task text: use `to add \"task text\"`");
    let error = parse_args(&args(&["add", "fix", "--parent"])).unwrap_err();
    assert_eq!(error.message(), "missing parent task number: use `--parent <number>`");
    let error = parse_args(&args(&["add", "fix", "--parent", "x"])).unwrap_err();
    assert_eq!(error.message(), "parent task number must be a positive integer");
    let error = parse_args(&args(&["ls", "--priority"])).unwrap_err();
    assert_eq!(error.message(), "missing priority: use `--priority <high|medium|low>`");
    let error = parse_args(&args(&["ls", "--label"])).unwrap_err();
    assert_eq!(error.message(), "missing label: use `--label <label>`");
    let error = parse_args(&args(&["add", "--priority", "low"])).unwrap_err();
    assert!(matches!(error, to::error::AppError::EmptyTask));
}

#[test]
fn rejects_conflicting_branch_options() {
    let error = parse_args(&args(&["do", "1", "-b", "x", "--create-branch"])).unwrap_err();
    assert_eq!(
        error.message(),
        "usage: `to do <number> [number ...] [-b <branch-name>|--create-branch]`"
    );
    let error = parse_args(&args(&["do", "1", "-b", " "])).unwrap_err();
    assert_eq!(error.message(), "branch name for `to do -b` cannot be empty");
}

#[test]
fn list_query_words_are_joined_and_trimmed() {
    assert_eq!(
        parse_args(&args(&["ls", "-l", "API", "branch", "-P", "high", "work"])).unwrap(),
        Command::List(ListOptions {
            query: Some("branch work".to_string()),
            priority: Some(Priority::High),
            labels: vec!["api".to_string()]
        })
    );
}
