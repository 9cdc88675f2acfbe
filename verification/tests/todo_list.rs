use to::error::AppError;
use to::todo::{clean_label, Priority, TodoList};

#[test]
fn parses_todo_contents() {
    let list = TodoList::parse("[ ] ship feature @high #backend\n  [x] write docs\n").unwrap();
    assert_eq!(list.tasks().len(), 2);
    assert!(!list.tasks()[0].done);
    assert!(list.tasks()[1].done);
    assert_eq!(list.tasks()[0].indent, 0);
    assert_eq!(list.tasks()[1].indent, 1);
    assert_eq!(list.tasks()[0].text, "ship feature");
    assert_eq!(list.tasks()[0].priority, Some(Priority::High));
    assert_eq!(list.tasks()[0].labels, vec!["backend"]);
    assert_eq!(list.tasks()[0].render_text(), "ship feature @high #backend");
}

#[test]
fn adds_child_after_parent_subtree() {
    let mut list = TodoList::parse("[ ] parent\n  [ ] existing child\n[ ] sibling\n").unwrap();
    let index = list
        .add_child_with_metadata(1, "new child".to_string(), None, Vec::new())
        .unwrap();
    assert_eq!(index, 3);
    assert_eq!(list.tasks()[2].text, "new child");
    assert_eq!(list.tasks()[2].indent, 1);
    assert_eq!(list.tasks()[3].text, "sibling");
}

#[test]
fn adds_task_metadata() {
    let mut list = TodoList::default();
    list.add_with_metadata(
        "api fix".to_string(),
        Some(Priority::Medium),
        vec!["backend".to_string(), "api".to_string()],
    )
    .unwrap();

    assert_eq!(list.tasks()[0].render_text(), "api fix @medium #backend #api");
}

#[test]
fn returns_task_subtree() {
    let list =
        TodoList::parse("[ ] parent\n  [ ] child\n    [ ] grandchild\n[ ] sibling\n").unwrap();
    let subtree = list.subtree(1).unwrap();
    assert_eq!(subtree.len(), 3);
    assert_eq!(subtree[2].text, "grandchild");
}

#[test]
fn finds_next_open_task() {
    let list = TodoList::parse("[x] ship feature\n[ ] write docs\n").unwrap();
    let next = list.next_open_task().unwrap();
    assert_eq!(next.0, 2);
    assert_eq!(next.1.text, "write docs");
}

#[test]
fn can_uncheck_a_completed_task() {
    let mut list = TodoList::parse("[x] ship feature\n").unwrap();
    list.mark_undone(1).unwrap();
    assert!(!list.tasks()[0].done);
}

#[test]
fn rejects_malformed_lines() {
    let error = TodoList::parse("- invalid").unwrap_err();
    assert!(matches!(error, AppError::MalformedTodoLine { .. }));
}

#[test]
fn malformed_line_error_names_line_and_content() {
    let error = TodoList::parse("[ ] fine\n- invalid\n").unwrap_err();
    assert!(matches!(error, AppError::MalformedTodoLine { line: 2, .. }));
    assert_eq!(
        error.message(),
        "invalid `.todo` format on line 2: expected `[ ] task` or `[x] task`, got `- invalid`"
    );
}

#[test]
fn blank_lines_are_skipped() {
    let list = TodoList::parse("\n[ ] one\n   \n[x] two\n").unwrap();
    assert_eq!(list.tasks().len(), 2);
    assert_eq!(list.tasks()[1].text, "two");
    assert!(list.tasks()[1].done);
}

#[test]
fn serializes_what_it_parsed() {
    let text = "[ ] ship feature @high #backend\n  [x] write docs\n[ ] sibling #ui #api\n";
    let list = TodoList::parse(text).unwrap();
    assert_eq!(list.serialize(), text);
}

#[test]
fn reparsing_a_saved_list_gives_the_same_list() {
    let list = TodoList::parse("[ ]   spaced   text  @low\n    [x] deep\n").unwrap();
    let saved = list.serialize();
    assert_eq!(saved, "[ ] spaced text @low\n    [x] deep\n");
    let again = TodoList::parse(&saved).unwrap();
    assert_eq!(again, list);
}

#[test]
fn adding_trims_text_and_rejects_empty_text() {
    let mut list = TodoList::default();
    assert_eq!(list.add("  write docs  ".to_string()).unwrap(), 1);
    assert_eq!(list.tasks()[0].text, "write docs");
    let error = list.add("   ".to_string()).unwrap_err();
    assert!(matches!(error, AppError::EmptyTask));
    assert_eq!(error.message(), "task text cannot be empty");
    assert_eq!(list.tasks().len(), 1);
}

#[test]
fn duplicate_labels_are_kept_once() {
    let mut list = TodoList::default();
    list.add_with_metadata(
        "fix".to_string(),
        None,
        vec!["#api".to_string(), "api".to_string(), "ui".to_string()],
    )
    .unwrap();
    assert_eq!(list.tasks()[0].labels, vec!["api", "ui"]);
    assert_eq!(list.tasks()[0].render_text(), "fix #api #ui");
}

#[test]
fn cleans_labels() {
    assert_eq!(clean_label("  ##backend ").unwrap(), "backend");
    assert_eq!(clean_label("front-end_2").unwrap(), "front-end_2");
    assert!(matches!(clean_label("   "), Err(AppError::InvalidArgs(_))));
    assert!(matches!(clean_label("two words"), Err(AppError::InvalidArgs(_))));
}

#[test]
fn parses_priorities() {
    assert_eq!(Priority::parse("high").unwrap(), Priority::High);
    assert_eq!(Priority::parse("medium").unwrap(), Priority::Medium);
    assert_eq!(Priority::parse("low").unwrap(), Priority::Low);
    assert!(matches!(Priority::parse("urgent"), Err(AppError::InvalidArgs(_))));
    assert_eq!(Priority::High.as_str(), "high");
    assert_eq!(Priority::Low.as_str(), "low");
}

#[test]
fn out_of_range_numbers_are_rejected() {
    let mut list = TodoList::parse("[ ] one\n[ ] two\n").unwrap();
    let error = list.mark_done(3).unwrap_err();
    assert!(matches!(error, AppError::InvalidTaskIndex { index: 3, len: 2 }));
    assert_eq!(
        error.message(),
        "task 3 is out of range; expected a number between 1 and 2"
    );
    assert!(list.task(0).is_err());
    assert!(list.remove(5).is_err());
    assert!(list.subtree(3).is_err());
    assert!(list
        .add_child_with_metadata(9, "child".to_string(), None, Vec::new())
        .is_err());
    assert_eq!(list.tasks().len(), 2);
}

#[test]
fn marks_and_removes_tasks() {
    let mut list = TodoList::parse("[ ] one\n[ ] two\n[ ] three\n").unwrap();
    assert_eq!(list.mark_done(2).unwrap().text, "two");
    assert!(list.tasks()[1].done);
    let removed = list.remove(1).unwrap();
    assert_eq!(removed.text, "one");
    assert_eq!(list.serialize(), "[x] two\n[ ] three\n");
    assert_eq!(list.task(2).unwrap().text, "three");
}

#[test]
fn no_open_task_when_all_are_done() {
    let list = TodoList::parse("[x] one\n[x] two\n").unwrap();
    assert!(list.next_open_task().is_none());
}

#[test]
fn child_of_nested_task_goes_one_level_deeper() {
    let mut list = TodoList::parse("[ ] parent\n  [ ] child\n    [ ] grandchild\n[ ] sibling\n").unwrap();
    let index = list
        .add_child_with_metadata(2, "second grandchild".to_string(), Some(Priority::Low), Vec::new())
        .unwrap();
    assert_eq!(index, 4);
    assert_eq!(list.tasks()[3].indent, 2);
    assert_eq!(
        list.serialize(),
        "[ ] parent\n  [ ] child\n    [ ] grandchild\n    [ ] second grandchild @low\n[ ] sibling\n"
    );
}
