use to::cli::{Command, ListOptions};
use to::commands::{
    agent_outcome, build_opencode_prompt, editor_outcome, launch_error, merge_scanned, plan,
    styled, task_marker, unique_indices, validate_task_indices, Plan,
};
use to::error::AppError;
use to::todo::{Priority, TodoList};

fn printed(result: Result<Plan, AppError>) -> (String, bool) {
    match result.unwrap() {
        Plan::Print { output, save } => (output, save),
        other => panic!("expected output to print, got {:?}", other),
    }
}

fn launched(result: Result<Plan, AppError>) -> (Option<String>, String, String) {
    match result.unwrap() {
        Plan::Launch { branch, prompt, report } => (branch, prompt, report),
        other => panic!("expected an agent launch, got {:?}", other),
    }
}

fn run(command: Command, todos: &mut TodoList) -> Result<Plan, AppError> {
    plan(&command, todos, "/projects/api/.todo", false)
}

#[test]
fn help_command_writes_usage() {
    let mut todos = TodoList::default();
    let (rendered, save) = printed(run(Command::Help, &mut todos));
    assert!(!save);
    assert!(rendered.contains("to ls [query]"));
    assert!(rendered.contains("to init"));
    assert!(rendered.contains("to do <number> [number ...] [-b <branch-name>]"));
}

#[test]
fn builds_opencode_prompt_from_indices() {
    let prompt = build_opencode_prompt(&[4, 7]);
    assert!(prompt.contains("do all the tasks that are numbered 4 7 use `to` for seeing todo"));
    assert!(prompt.contains("Inspect the codebase before making changes"));
}

#[test]
fn do_command_runs_opencode_from_project_root() {
    let mut todos = TodoList::parse("[ ] implement agent runner\n[ ] update CLI parser\n").unwrap();
    let (branch, prompt, rendered) = launched(run(
        Command::Do { indices: vec![1, 2], branch_name: None, create_branch: false },
        &mut todos,
    ));
    assert_eq!(branch, None);
    assert!(rendered.contains("Spawned agent for task 1: implement agent runner"));
    assert!(rendered.contains("Spawned agent for task 2: update CLI parser"));
    assert!(prompt.contains("do all the tasks that are numbered 1 2 use `to` for seeing todo"));
}

#[test]
fn list_command_filters_tasks_by_query() {
    let mut todos =
        TodoList::parse("[ ] branch work\n[x] docs cleanup\n[ ] branch follow-up\n").unwrap();
    let options = ListOptions { query: Some("branch".to_string()), priority: None, labels: Vec::new() };
    let (rendered, _) = printed(run(Command::List(options), &mut todos));
    assert!(rendered.contains("Filter: \"branch\""));
    assert!(rendered.contains("1. [ ] branch work"));
    assert!(rendered.contains("3. [ ] branch follow-up"));
    assert!(!rendered.contains("docs cleanup"));
    assert!(rendered.contains("Matches: 2  Open: 2  Done: 0"));
}

#[test]
fn done_command_supports_multiple_indices() {
    let mut todos = TodoList::parse("[ ] first\n[ ] second\n[ ] third\n").unwrap();
    let (rendered, save) = printed(run(Command::Done(vec![1, 3]), &mut todos));
    assert!(save);
    assert!(rendered.contains("Completed task 1: first"));
    assert!(rendered.contains("Completed task 3: third"));
    assert_eq!(todos.serialize(), "[x] first\n[ ] second\n[x] third\n");
}

#[test]
fn remove_command_supports_multiple_indices() {
    let mut todos = TodoList::parse("[ ] first\n[ ] second\n[ ] third\n").unwrap();
    let (rendered, save) = printed(run(Command::Remove(vec![1, 3]), &mut todos));
    assert!(save);
    assert!(rendered.contains("Removed task 1: first"));
    assert!(rendered.contains("Removed task 3: third"));
    assert_eq!(todos.serialize(), "[ ] second\n");
}

#[test]
fn do_command_can_switch_to_named_branch() {
    let mut todos = TodoList::parse("[ ] branch task\n[ ] second task\n").unwrap();
    let (branch, _, rendered) = launched(run(
        Command::Do {
            indices: vec![1, 2],
            branch_name: Some("feature/batch-work".to_string()),
            create_branch: false,
        },
        &mut todos,
    ));
    assert_eq!(branch, Some("feature/batch-work".to_string()));
    assert!(rendered.contains("Spawned agent for task 1: branch task"));
    assert!(rendered.contains("Spawned agent for task 2: second task"));
}

#[test]
fn do_command_generates_branch_names() {
    let mut todos = TodoList::parse("[ ] Implement streaming responses!\n[ ] ???\n").unwrap();
    let (branch, _, _) = launched(run(
        Command::Do { indices: vec![1], branch_name: None, create_branch: true },
        &mut todos,
    ));
    assert_eq!(branch, Some("feature/implement-streaming-responses".to_string()));
    let (branch, _, _) = launched(run(
        Command::Do { indices: vec![2], branch_name: None, create_branch: true },
        &mut todos,
    ));
    assert_eq!(branch, Some("feature/task-2".to_string()));
    let (branch, _, _) = launched(run(
        Command::Do { indices: vec![1, 2, 1], branch_name: None, create_branch: true },
        &mut todos,
    ));
    assert_eq!(branch, Some("feature/tasks-1-2".to_string()));
}

#[test]
fn readme_session() {
    let mut todos = TodoList::default();
    let add = |text: &str, parent: Option<usize>, priority: Option<Priority>, labels: &[&str]| {
        Command::Add {
            text: text.to_string(),
            parent,
            priority,
            labels: labels.iter().map(|label| label.to_string()).collect(),
        }
    };
    let (out, save) = printed(run(add("implement streaming responses", None, None, &[]), &mut todos));
    assert!(save);
    assert_eq!(out, "Added task 1: implement streaming responses\n");
    let (out, _) = printed(run(
        add("add sqlite persistence", None, Some(Priority::Medium), &["storage"]),
        &mut todos,
    ));
    assert_eq!(out, "Added task 2: add sqlite persistence @medium #storage\n");
    let (out, _) = printed(run(add("write unit tests", Some(1), None, &[]), &mut todos));
    assert_eq!(out, "Added task 2: write unit tests\n");
    let (out, _) = printed(run(
        add("critical API fix", None, Some(Priority::High), &["backend", "api"]),
        &mut todos,
    ));
    assert_eq!(out, "Added task 4: critical API fix @high #backend #api\n");

    let (out, save) = printed(run(Command::List(ListOptions::default()), &mut todos));
    assert!(!save);
    assert_eq!(
        out,
        "Tasks from /projects/api/.todo\n\
         1. [ ] implement streaming responses\n\
         2. [ ]   write unit tests\n\
         3. [ ] add sqlite persistence @medium #storage\n\
         4. [ ] critical API fix @high #backend #api\n\
         Open: 4  Done: 0\n"
    );

    let (out, _) = printed(run(Command::Tree(1), &mut todos));
    assert_eq!(out, "1. [ ] implement streaming responses\n2. [ ]   write unit tests\n");

    let options = ListOptions { query: Some("sqlite".to_string()), priority: None, labels: Vec::new() };
    let (out, _) = printed(run(Command::List(options), &mut todos));
    assert_eq!(
        out,
        "Tasks from /projects/api/.todo\n\
         Filter: \"sqlite\"\n\
         3. [ ] add sqlite persistence @medium #storage\n\
         Matches: 1  Open: 1  Done: 0\n"
    );

    let options = ListOptions {
        query: None,
        priority: Some(Priority::High),
        labels: vec!["backend".to_string()],
    };
    let (out, _) = printed(run(Command::List(options), &mut todos));
    assert_eq!(
        out,
        "Tasks from /projects/api/.todo\n\
         Priority: high\n\
         Labels: #backend\n\
         4. [ ] critical API fix @high #backend #api\n\
         Matches: 1  Open: 1  Done: 0\n"
    );

    let (out, _) = printed(run(Command::Next, &mut todos));
    assert_eq!(out, "Next task: 1. implement streaming responses\n");

    let (out, _) = printed(run(Command::Done(vec![1, 2]), &mut todos));
    assert_eq!(
        out,
        "Completed task 1: implement streaming responses\nCompleted task 2: write unit tests\n"
    );
    let (out, _) = printed(run(Command::Uncheck(vec![1, 2]), &mut todos));
    assert_eq!(
        out,
        "Unchecked task 1: implement streaming responses\nUnchecked task 2: write unit tests\n"
    );
}

#[test]
fn empty_list_and_no_matches() {
    let mut todos = TodoList::default();
    let (out, _) = printed(run(Command::List(ListOptions::default()), &mut todos));
    assert_eq!(out, "Tasks from /projects/api/.todo\nNo tasks yet.\n");
    let (out, _) = printed(run(Command::Next, &mut todos));
    assert_eq!(out, "All tasks are complete.\n");

    let mut todos = TodoList::parse("[ ] one\n[x] two\n").unwrap();
    let options = ListOptions { query: Some("zzz".to_string()), priority: None, labels: Vec::new() };
    let (out, _) = printed(run(Command::List(options), &mut todos));
    assert_eq!(
        out,
        "Tasks from /projects/api/.todo\nFilter: \"zzz\"\nNo tasks matching \"zzz\".\nMatches: 0  Open: 0  Done: 0\n"
    );
}

#[test]
fn query_ignores_case() {
    let mut todos = TodoList::parse("[ ] Branch Work\n[ ] ÉCOLE tasks\n[ ] other\n").unwrap();
    let options = ListOptions { query: Some("BRANCH".to_string()), priority: None, labels: Vec::new() };
    let (out, _) = printed(run(Command::List(options), &mut todos));
    assert!(out.contains("1. [ ] Branch Work"));
    assert!(out.contains("Matches: 1  Open: 1  Done: 0"));
    let options = ListOptions { query: Some("école".to_string()), priority: None, labels: Vec::new() };
    let (out, _) = printed(run(Command::List(options), &mut todos));
    assert!(out.contains("2. [ ] ÉCOLE tasks"));
    assert!(out.contains("Matches: 1  Open: 1  Done: 0"));
}

#[test]
fn colours_wrap_labels_and_markers() {
    assert_eq!(styled(true, "32", "ok"), "\u{1b}[32mok\u{1b}[0m");
    assert_eq!(styled(false, "32", "ok"), "ok");
    assert_eq!(task_marker(true, false), "[x]");
    assert_eq!(task_marker(false, true), "\u{1b}[33m[ ]\u{1b}[0m");
    let mut todos = TodoList::parse("[ ] one\n").unwrap();
    let out = match plan(&Command::Next, &mut todos, "/p/.todo", true).unwrap() {
        Plan::Print { output, .. } => output,
        other => panic!("unexpected {:?}", other),
    };
    assert_eq!(out, "\u{1b}[33mNext task:\u{1b}[0m 1. one\n");
}

#[test]
fn task_numbers_are_checked_and_deduplicated() {
    assert_eq!(unique_indices(&[3, 1, 3, 2, 1]), vec![3, 1, 2]);
    let todos = TodoList::parse("[ ] one\n[ ] two\n").unwrap();
    assert_eq!(validate_task_indices(&todos, &[2, 2, 1]).unwrap(), vec![2, 1]);
    let error = validate_task_indices(&todos, &[1, 4, 0]).unwrap_err();
    assert!(matches!(error, AppError::InvalidTaskIndex { index: 4, len: 2 }));

    let mut todos = TodoList::parse("[ ] one\n[ ] two\n").unwrap();
    let error = run(Command::Done(vec![1, 3]), &mut todos).unwrap_err();
    assert!(matches!(error, AppError::InvalidTaskIndex { index: 3, len: 2 }));
    assert_eq!(todos.serialize(), "[ ] one\n[ ] two\n");
    let error = run(Command::Tree(0), &mut todos).unwrap_err();
    assert!(matches!(error, AppError::InvalidTaskIndex { index: 0, len: 2 }));
}

#[test]
fn removing_reports_in_the_order_given() {
    let mut todos = TodoList::parse("[ ] a\n[ ] b\n[ ] c\n[ ] d\n").unwrap();
    let (out, _) = printed(run(Command::Remove(vec![4, 2, 4]), &mut todos));
    assert_eq!(out, "Removed task 4: d\nRemoved task 2: b\n");
    assert_eq!(todos.serialize(), "[ ] a\n[ ] c\n");
}

#[test]
fn edit_scan_and_init_are_left_to_the_program() {
    let mut todos = TodoList::parse("[ ] a\n").unwrap();
    assert!(matches!(run(Command::Edit, &mut todos).unwrap(), Plan::Edit));
    assert!(matches!(run(Command::Scan, &mut todos).unwrap(), Plan::Scan));
    assert!(matches!(run(Command::Init, &mut todos).unwrap(), Plan::Init));
}

#[test]
fn moves_a_task_with_its_subtasks() {
    let text = "[ ] a\n  [ ] a1\n  [x] a2\n[ ] b\n[ ] c\n";
    let mut todos = TodoList::parse(text).unwrap();
    let (out, save) = printed(run(Command::Move { from: 1, to: 2 }, &mut todos));
    assert!(save);
    assert_eq!(out, "Moved task 1 to 2: a\n");
    assert_eq!(todos.serialize(), "[ ] b\n[ ] a\n  [ ] a1\n  [x] a2\n[ ] c\n");

    let mut todos = TodoList::parse(text).unwrap();
    let (out, _) = printed(run(Command::Move { from: 5, to: 1 }, &mut todos));
    assert_eq!(out, "Moved task 5 to 1: c\n");
    assert_eq!(todos.serialize(), "[ ] c\n[ ] a\n  [ ] a1\n  [x] a2\n[ ] b\n");

    let mut todos = TodoList::parse(text).unwrap();
    let (out, _) = printed(run(Command::Move { from: 1, to: 5 }, &mut todos));
    assert_eq!(out, "Moved task 1 to 3: a\n");
    assert_eq!(todos.serialize(), "[ ] b\n[ ] c\n[ ] a\n  [ ] a1\n  [x] a2\n");

    let mut todos = TodoList::parse(text).unwrap();
    let error = run(Command::Move { from: 6, to: 1 }, &mut todos).unwrap_err();
    assert!(matches!(error, AppError::InvalidTaskIndex { index: 6, len: 5 }));
    let error = run(Command::Move { from: 1, to: 0 }, &mut todos).unwrap_err();
    assert!(matches!(error, AppError::InvalidTaskIndex { index: 0, len: 5 }));
    assert_eq!(todos.serialize(), text);
}

#[test]
fn prunes_completed_tasks_without_open_subtasks() {
    let mut todos = TodoList::parse(
        "[x] done\n  [x] done child\n[x] has open child\n  [ ] open child\n[ ] open\n[x] last\n",
    )
    .unwrap();
    let (out, save) = printed(run(Command::Prune, &mut todos));
    assert!(save);
    assert_eq!(
        out,
        "Removed task 1: done\nRemoved task 2: done child\nRemoved task 6: last\n"
    );
    assert_eq!(todos.serialize(), "[x] has open child\n  [ ] open child\n[ ] open\n");
    let (out, save) = printed(run(Command::Prune, &mut todos));
    assert!(!save);
    assert_eq!(out, "No completed tasks to prune.\n");
}

#[test]
fn launch_and_editor_failures() {
    assert_eq!(launch_error(true, "ignored").message(), "`opencode` was not found in PATH");
    assert_eq!(
        launch_error(false, "permission denied").message(),
        "failed to launch `opencode`: permission denied"
    );
    assert!(agent_outcome(true, "exit status: 0").is_ok());
    assert_eq!(
        agent_outcome(false, "exit status: 2").unwrap_err().message(),
        "`opencode --prompt ...` exited with status exit status: 2"
    );
    assert!(editor_outcome("vi", true, "exit status: 0").is_ok());
    assert_eq!(
        editor_outcome("nano", false, "exit status: 1").unwrap_err().message(),
        "`nano` exited with status exit status: 1"
    );
}

#[test]
fn scanned_comments_are_added_once() {
    let mut todos = TodoList::parse("[ ] known (src/a.rs:1)\n").unwrap();
    let scanned = vec![
        "known (src/a.rs:1)".to_string(),
        "new one (src/a.rs:4)".to_string(),
        "new one (src/a.rs:4)".to_string(),
        "other (src/b.rs:2)".to_string(),
    ];
    let (out, save) = printed(merge_scanned(&mut todos, &scanned, false));
    assert!(save);
    assert_eq!(out, "Added 2 tasks from git-tracked TODO comments.\n");
    assert_eq!(
        todos.serialize(),
        "[ ] known (src/a.rs:1)\n[ ] new one (src/a.rs:4)\n[ ] other (src/b.rs:2)\n"
    );
    let (out, save) = printed(merge_scanned(&mut todos, &scanned, false));
    assert!(!save);
    assert_eq!(out, "No new TODO comments found in git-tracked files.\n");
    let (out, _) = printed(merge_scanned(&mut todos, &["single (x:1)".to_string()], false));
    assert_eq!(out, "Added 1 task from git-tracked TODO comments.\n");
}
