use std::path::PathBuf;

use to::cli::Command;
use to::commands::{plan, Plan};
use to::error::AppError;
use to::todo::TodoList;

fn apply(command: Command, todos: &mut TodoList) -> String {
    match plan(&command, todos, "/p/.todo", false).unwrap() {
        Plan::Print { output, .. } => output,
        other => panic!("expected output to print, got {:?}", other),
    }
}

#[test]
fn uncheck_undoes_done() {
    let text = "[ ] one\n  [ ] two\n[x] three\n[ ] four\n";
    let mut todos = TodoList::parse(text).unwrap();
    apply(Command::Done(vec![4, 1, 2]), &mut todos);
    assert_eq!(todos.serialize(), "[x] one\n  [x] two\n[x] three\n[x] four\n");
    apply(Command::Uncheck(vec![4, 1, 2]), &mut todos);
    assert_eq!(todos.serialize(), text);
}

#[test]
fn done_twice_is_done_once() {
    let mut todos = TodoList::parse("[ ] one\n[ ] two\n").unwrap();
    apply(Command::Done(vec![2]), &mut todos);
    let once = todos.clone();
    apply(Command::Done(vec![2]), &mut todos);
    assert_eq!(todos, once);
}

#[test]
fn removing_what_was_added_restores_the_list() {
    let text = "[ ] parent\n  [ ] child\n[ ] sibling\n";
    let mut todos = TodoList::parse(text).unwrap();
    let number = todos.add("new".to_string()).unwrap();
    todos.remove(number).unwrap();
    assert_eq!(todos.serialize(), text);
    let number = todos
        .add_child_with_metadata(1, "nested".to_string(), None, Vec::new())
        .unwrap();
    assert_eq!(number, 3);
    todos.remove(number).unwrap();
    assert_eq!(todos.serialize(), text);
}

#[test]
fn new_subtask_ends_its_parent_subtree() {
    let mut todos =
        TodoList::parse("[ ] parent\n  [ ] child\n    [ ] grandchild\n[ ] sibling\n").unwrap();
    todos
        .add_child_with_metadata(1, "last child".to_string(), None, Vec::new())
        .unwrap();
    let subtree = todos.subtree(1).unwrap();
    assert_eq!(subtree.len(), 4);
    assert_eq!(subtree[3].text, "last child");
    assert_eq!(subtree[3].indent, 1);
    assert_eq!(todos.tasks()[4].text, "sibling");
}

#[test]
fn saved_lists_read_back_unchanged() {
    let mut todos = TodoList::default();
    todos.add("write   the docs".to_string()).unwrap();
    todos
        .add_child_with_metadata(1, "check #links".to_string(), None, vec!["Docs".to_string()])
        .unwrap();
    let saved = todos.serialize();
    let read = TodoList::parse(&saved).unwrap();
    assert_eq!(read.tasks()[0].text, "write the docs");
    assert_eq!(read.tasks()[1].text, "check");
    assert_eq!(read.tasks()[1].labels, vec!["links", "docs"]);
    let again = TodoList::parse(&read.serialize()).unwrap();
    assert_eq!(again, read);
}

#[test]
fn messages_name_the_path() {
    let error = AppError::TodoNotFound(PathBuf::from("/work/app"));
    assert_eq!(
        error.message(),
        "no `.todo` file found from /work/app upward; run `to init` in your project root"
    );
    let error = AppError::AlreadyInitialized(PathBuf::from("/work/.todo"));
    assert_eq!(error.message(), "a `.todo` file already exists at /work/.todo");
    let error = AppError::NotGitRepository(PathBuf::from("/tmp/x"));
    assert_eq!(error.message(), "/tmp/x is not inside a git repository");
}
