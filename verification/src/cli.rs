//! The command line: commands and how arguments denote them.
use vstd::prelude::*;

use crate::error::{outcome, AppError, ErrorView};
use crate::text::{
    chars_of, extend_str, join, join_chars, parse_usize, parse_usize_spec, split_on,
    split_on_char, str_is, string_of, trim, trimmed, views,
};
use crate::todo::{
    add_clean_labels, append_clean_labels, parse_priority_spec, strings_view, Priority,
};

verus! {

/// The usage text that `to help` prints.
pub const HELP_TEXT: &'static str = "to - project TODOs

Usage:
  to ls [query] [--priority <high|medium|low>] [--label <label>]
      List tasks for the current project (plain `to` lists all tasks).
      Filters can be combined.

  to init
      Create a new .todo file in the current directory

  to add \"task text\" [--parent <number>] [--priority <high|medium|low>] [--label <label>]
      Add a new task or subtask

  to edit
      Open the project .todo in your editor

  to mv <from> <to>
      Move a task (and its subtasks) to a new position

  to done <number> [number ...]
      Mark one or more tasks completed

  to uncheck <number> [number ...]
      Mark one or more tasks as not completed

  to rm <number> [number ...]
      Remove one or more tasks

  to prune
      Remove completed tasks that have no open subtasks

  to do <number> [number ...] [-b <branch-name>] [--create-branch]
      Launch `opencode` for one or more tasks; optionally switch/create a branch

  to next
      Show the first unfinished task

  to tree <number>
      Show a task and its subtasks

  to scan
      Scan git-tracked files for `TODO:` comments and add them to .todo

Notes:
  `to` looks for a `.todo` file in the current directory and then each parent directory.

Examples:
  to
  to add \"implement streaming responses\"
  to add \"write unit tests\" --parent 1
  to edit
  to mv 5 2
  to ls sqlite --priority high --label backend
  to done 1 2
  to do 1 --create-branch
";

/// Filters for listing tasks.
#[derive(Debug, Clone, PartialEq, Eq)]
pub struct ListOptions {
    pub query: Option<String>,
    pub priority: Option<Priority>,
    pub labels: Vec<String>,
}

/// A command the user asked for.
#[derive(Debug, Clone, PartialEq, Eq)]
pub enum Command {
    Help,
    Init,
    List(ListOptions),
    Add { text: String, parent: Option<usize>, priority: Option<Priority>, labels: Vec<String> },
    Edit,
    Move { from: usize, to: usize },
    Done(Vec<usize>),
    Do { indices: Vec<usize>, branch_name: Option<String>, create_branch: bool },
    Uncheck(Vec<usize>),
    Scan,
    Remove(Vec<usize>),
    Prune,
    Next,
    Tree(usize),
}

/// List filters as contracts see them.
pub struct ListOptionsView {
    pub query: Option<Seq<char>>,
    pub priority: Option<Priority>,
    pub labels: Seq<Seq<char>>,
}

/// A command as contracts see it.
pub enum CommandView {
    Help,
    Init,
    List(ListOptionsView),
    Add {
        text: Seq<char>,
        parent: Option<usize>,
        priority: Option<Priority>,
        labels: Seq<Seq<char>>,
    },
    Edit,
    Move { from: usize, to: usize },
    Done(Seq<usize>),
    Do { indices: Seq<usize>, branch_name: Option<Seq<char>>, create_branch: bool },
    Uncheck(Seq<usize>),
    Scan,
    Remove(Seq<usize>),
    Prune,
    Next,
    Tree(usize),
}

/// The characters of an optional string.
pub open spec fn opt_view(o: Option<String>) -> Option<Seq<char>> {
    match o {
        Some(s) => Some(s@),
        None => None,
    }
}

impl View for ListOptions {
    type V = ListOptionsView;

    open spec fn view(&self) -> ListOptionsView {
        ListOptionsView {
            query: opt_view(self.query),
            priority: self.priority,
            labels: strings_view(self.labels@),
        }
    }
}

impl View for Command {
    type V = CommandView;

    open spec fn view(&self) -> CommandView {
        match self {
            Command::Help => CommandView::Help,
            Command::Init => CommandView::Init,
            Command::List(o) => CommandView::List(o@),
            Command::Add { text, parent, priority, labels } => CommandView::Add {
                text: text@,
                parent: *parent,
                priority: *priority,
                labels: strings_view(labels@),
            },
            Command::Edit => CommandView::Edit,
            Command::Move { from, to } => CommandView::Move { from: *from, to: *to },
            Command::Done(v) => CommandView::Done(v@),
            Command::Do { indices, branch_name, create_branch } => CommandView::Do {
                indices: indices@,
                branch_name: opt_view(*branch_name),
                create_branch: *create_branch,
            },
            Command::Uncheck(v) => CommandView::Uncheck(v@),
            Command::Scan => CommandView::Scan,
            Command::Remove(v) => CommandView::Remove(v@),
            Command::Prune => CommandView::Prune,
            Command::Next => CommandView::Next,
            Command::Tree(i) => CommandView::Tree(*i),
        }
    }
}

impl Default for ListOptions {
    /// No filters.
    fn default() -> (r: ListOptions)
        ensures
            r@.query is None,
            r@.priority is None,
            r@.labels == Seq::<Seq<char>>::empty(),
    {
        let r = ListOptions { query: None, priority: None, labels: Vec::new() };
        assert(strings_view(r.labels@) =~= Seq::<Seq<char>>::empty());
        r
    }
}

// ---------------------------------------------------------------------------
// Messages
// ---------------------------------------------------------------------------

/// The usage line of `to add`.
pub open spec fn add_usage() -> Seq<char> {
    "usage: `to add \"task text\" [--parent <number>] [--priority <high|medium|low>] [--label <label>]`"@
}

/// The usage line of `to ls`.
pub open spec fn list_usage() -> Seq<char> {
    "usage: `to ls [query] [--priority <high|medium|low>] [--label <label>]`"@
}

/// The usage line of `to do`.
pub open spec fn do_usage() -> Seq<char> {
    "usage: `to do <number> [number ...] [-b <branch-name>|--create-branch]`"@
}

/// The message for a missing priority value.
pub open spec fn missing_priority() -> Seq<char> {
    "missing priority: use `--priority <high|medium|low>`"@
}

/// The message for a missing label value.
pub open spec fn missing_label() -> Seq<char> {
    "missing label: use `--label <label>`"@
}

fn add_usage_error() -> (e: AppError)
    ensures
        e@ == ErrorView::InvalidArgs(add_usage()),
{
    AppError::InvalidArgs(
        "usage: `to add \"task text\" [--parent <number>] [--priority <high|medium|low>] [--label <label>]`".to_owned(),
    )
}

fn list_usage_error() -> (e: AppError)
    ensures
        e@ == ErrorView::InvalidArgs(list_usage()),
{
    AppError::InvalidArgs(
        "usage: `to ls [query] [--priority <high|medium|low>] [--label <label>]`".to_owned(),
    )
}

fn do_usage_error() -> (e: AppError)
    ensures
        e@ == ErrorView::InvalidArgs(do_usage()),
{
    AppError::InvalidArgs(
        "usage: `to do <number> [number ...] [-b <branch-name>|--create-branch]`".to_owned(),
    )
}

fn invalid_args(message: &str) -> (e: AppError)
    ensures
        e@ == ErrorView::InvalidArgs(message@),
{
    AppError::InvalidArgs(message.to_owned())
}

/// Whether an argument is the given literal.
fn arg_is(v: &String, lit: &str) -> (r: bool)
    ensures
        r == (v@ == lit@),
{
    str_is(v.as_str(), lit)
}

/// The number an argument denotes.
fn arg_number(v: &String) -> (r: Option<usize>)
    ensures
        r == parse_usize_spec(v@),
{
    let cs = chars_of(v.as_str());
    parse_usize(cs.as_slice())
}

/// Cleans the comma-separated labels of `value` and appends the new ones.
fn append_labels(labels: &mut Vec<String>, value: &String) -> (r: Result<(), AppError>)
    ensures
        match add_clean_labels(strings_view(old(labels)@), split_on(value@, ',')) {
            Ok(a) => r is Ok && strings_view(final(labels)@) == a,
            Err(e) => r matches Err(x) && x@ == e,
        },
{
    let cs = chars_of(value.as_str());
    let pieces = split_on_char(cs.as_slice(), ',');
    let mut strs: Vec<String> = Vec::new();
    let mut i: usize = 0;
    while i < pieces.len()
        invariant
            i <= pieces@.len(),
            strings_view(strs@) == views(pieces@).take(i as int),
        decreases pieces@.len() - i,
    {
        let ghost old_strs = strs@;
        let piece = string_of(pieces[i].as_slice());
        assert(piece@ == views(pieces@)[i as int]);
        strs.push(piece);
        assert(strings_view(strs@) =~= strings_view(old_strs).push(piece@));
        assert(views(pieces@).take(i + 1) =~= views(pieces@).take(i as int).push(piece@));
        i = i + 1;
    }
    assert(views(pieces@).take(i as int) =~= views(pieces@));
    append_clean_labels(labels, strs.as_slice())
}

// ---------------------------------------------------------------------------
// `to ls`
// ---------------------------------------------------------------------------

/// Where reading the arguments of `to ls` stands.
pub struct ListScan {
    pub priority: Option<Priority>,
    pub labels: Seq<Seq<char>>,
    pub expect_priority: bool,
    pub expect_label: bool,
    pub query_parts: Seq<Seq<char>>,
}

/// One argument of `to ls`: a value for a pending flag, a flag, or a word
/// of the query.
pub open spec fn list_step(st: ListScan, v: Seq<char>) -> Result<ListScan, ErrorView> {
    if st.expect_priority {
        match parse_priority_spec(v) {
            Err(e) => Err(e),
            Ok(p) => Ok(ListScan { priority: Some(p), expect_priority: false, ..st }),
        }
    } else if st.expect_label {
        match add_clean_labels(st.labels, split_on(v, ',')) {
            Err(e) => Err(e),
            Ok(ls) => Ok(ListScan { labels: ls, expect_label: false, ..st }),
        }
    } else if v == "--priority"@ || v == "-P"@ {
        if st.priority is Some {
            Err(ErrorView::InvalidArgs(list_usage()))
        } else {
            Ok(ListScan { expect_priority: true, ..st })
        }
    } else if v == "--label"@ || v == "-l"@ {
        Ok(ListScan { expect_label: true, ..st })
    } else {
        Ok(ListScan { query_parts: st.query_parts.push(v), ..st })
    }
}

/// The arguments of `to ls`, read in order.
pub open spec fn list_scan(vals: Seq<Seq<char>>) -> Result<ListScan, ErrorView>
    decreases vals.len(),
{
    if vals.len() == 0 {
        Ok(
            ListScan {
                priority: None,
                labels: seq![],
                expect_priority: false,
                expect_label: false,
                query_parts: seq![],
            },
        )
    } else {
        match list_scan(vals.drop_last()) {
            Err(e) => Err(e),
            Ok(st) => list_step(st, vals.last()),
        }
    }
}

/// The command `to ls` with these arguments denotes.
pub open spec fn parse_list_spec(vals: Seq<Seq<char>>) -> Result<CommandView, ErrorView> {
    match list_scan(vals) {
        Err(e) => Err(e),
        Ok(st) => if st.expect_priority {
            Err(ErrorView::InvalidArgs(missing_priority()))
        } else if st.expect_label {
            Err(ErrorView::InvalidArgs(missing_label()))
        } else {
            let q = trim(join(st.query_parts, seq![' ']));
            Ok(
                CommandView::List(
                    ListOptionsView {
                        query: if q.len() == 0 {
                            None
                        } else {
                            Some(q)
                        },
                        priority: st.priority,
                        labels: st.labels,
                    },
                ),
            )
        },
    }
}

proof fn lemma_list_scan_error_stays(vals: Seq<Seq<char>>, k: int)
    requires
        0 <= k <= vals.len(),
        list_scan(vals.take(k)) is Err,
    ensures
        list_scan(vals) == list_scan(vals.take(k)),
    decreases vals.len() - k,
{
    if k < vals.len() {
        assert(vals.take(k + 1).drop_last() =~= vals.take(k));
        lemma_list_scan_error_stays(vals, k + 1);
    } else {
        assert(vals.take(k) =~= vals);
    }
}

/// Joins strings with single spaces.
fn join_strings(parts: &Vec<String>) -> (r: Vec<char>)
    ensures
        r@ == join(strings_view(parts@), seq![' ']),
{
    let mut cs: Vec<Vec<char>> = Vec::new();
    let mut i: usize = 0;
    while i < parts.len()
        invariant
            i <= parts@.len(),
            views(cs@) == strings_view(parts@).take(i as int),
        decreases parts@.len() - i,
    {
        let ghost old_cs = cs@;
        let part = chars_of(parts[i].as_str());
        assert(part@ == strings_view(parts@)[i as int]);
        cs.push(part);
        assert(views(cs@) =~= views(old_cs).push(part@));
        assert(strings_view(parts@).take(i + 1) =~= strings_view(parts@).take(i as int).push(
            part@,
        ));
        i = i + 1;
    }
    assert(views(cs@).take(cs@.len() as int) =~= strings_view(parts@));
    let r = join_chars(&cs, cs.len(), &[' ']);
    assert(seq![' '] =~= [' ']@);
    r
}

/// Reads the arguments of `to ls`.
fn parse_list_command(rest: &[String]) -> (r: Result<Command, AppError>)
    ensures
        outcome(r) == parse_list_spec(strings_view(rest@)),
{
    let ghost vals = strings_view(rest@);
    let mut priority: Option<Priority> = None;
    let mut labels: Vec<String> = Vec::new();
    let mut expect_priority = false;
    let mut expect_label = false;
    let mut query_parts: Vec<String> = Vec::new();
    let mut i: usize = 0;
    assert(vals.take(0) =~= Seq::<Seq<char>>::empty());
    assert(strings_view(labels@) =~= Seq::<Seq<char>>::empty());
    assert(strings_view(query_parts@) =~= Seq::<Seq<char>>::empty());
    while i < rest.len()
        invariant
            i <= rest@.len(),
            vals == strings_view(rest@),
            list_scan(vals.take(i as int)) == Ok::<ListScan, ErrorView>(
                ListScan {
                    priority,
                    labels: strings_view(labels@),
                    expect_priority,
                    expect_label,
                    query_parts: strings_view(query_parts@),
                },
            ),
        decreases rest@.len() - i,
    {
        let value = &rest[i];
        proof {
            assert(vals.take(i + 1).drop_last() =~= vals.take(i as int));
            assert(vals.take(i + 1).last() == value@);
        }
        if expect_priority {
            match Priority::parse(value.as_str()) {
                Err(e) => {
                    proof {
                        lemma_list_scan_error_stays(vals, i + 1);
                    }
                    return Err(e);
                },
                Ok(p) => {
                    priority = Some(p);
                    expect_priority = false;
                },
            }
        } else if expect_label {
            let ghost before = strings_view(labels@);
            match append_labels(&mut labels, value) {
                Err(e) => {
                    proof {
                        lemma_list_scan_error_stays(vals, i + 1);
                    }
                    return Err(e);
                },
                Ok(()) => {
                    expect_label = false;
                },
            }
        } else if arg_is(value, "--priority") || arg_is(value, "-P") {
            if priority.is_some() {
                proof {
                    lemma_list_scan_error_stays(vals, i + 1);
                }
                return Err(list_usage_error());
            }
            expect_priority = true;
        } else if arg_is(value, "--label") || arg_is(value, "-l") {
            expect_label = true;
        } else {
            let ghost old_q = query_parts@;
            query_parts.push(value.clone());
            assert(strings_view(query_parts@) =~= strings_view(old_q).push(value@));
        }
        i = i + 1;
    }
    assert(vals.take(i as int) =~= vals);
    if expect_priority {
        return Err(invalid_args("missing priority: use `--priority <high|medium|low>`"));
    }
    if expect_label {
        return Err(invalid_args("missing label: use `--label <label>`"));
    }
    let joined = join_strings(&query_parts);
    let q = trimmed(joined.as_slice());
    let query = if q.len() == 0 {
        None
    } else {
        Some(string_of(q.as_slice()))
    };
    Ok(Command::List(ListOptions { query, priority, labels }))
}

// ---------------------------------------------------------------------------
// `to add`
// ---------------------------------------------------------------------------

/// Where reading the arguments of `to add` stands.
pub struct AddScan {
    pub parent: Option<usize>,
    pub priority: Option<Priority>,
    pub labels: Seq<Seq<char>>,
    pub expect_parent: bool,
    pub expect_priority: bool,
    pub expect_label: bool,
    pub text_parts: Seq<Seq<char>>,
}

/// One argument of `to add`: a value for a pending flag, a flag, or a word
/// of the task text.
pub open spec fn add_step(st: AddScan, v: Seq<char>) -> Result<AddScan, ErrorView> {
    if st.expect_parent {
        match parse_usize_spec(v) {
            None => Err(ErrorView::InvalidArgs("parent task number must be a positive integer"@)),
            Some(n) => Ok(AddScan { parent: Some(n), expect_parent: false, ..st }),
        }
    } else if st.expect_priority {
        match parse_priority_spec(v) {
            Err(e) => Err(e),
            Ok(p) => Ok(AddScan { priority: Some(p), expect_priority: false, ..st }),
        }
    } else if st.expect_label {
        match add_clean_labels(st.labels, split_on(v, ',')) {
            Err(e) => Err(e),
            Ok(ls) => Ok(AddScan { labels: ls, expect_label: false, ..st }),
        }
    } else if v == "--parent"@ || v == "-p"@ {
        if st.parent is Some {
            Err(ErrorView::InvalidArgs(add_usage()))
        } else {
            Ok(AddScan { expect_parent: true, ..st })
        }
    } else if v == "--priority"@ || v == "-P"@ {
        if st.priority is Some {
            Err(ErrorView::InvalidArgs(add_usage()))
        } else {
            Ok(AddScan { expect_priority: true, ..st })
        }
    } else if v == "--label"@ || v == "-l"@ {
        Ok(AddScan { expect_label: true, ..st })
    } else {
        Ok(AddScan { text_parts: st.text_parts.push(v), ..st })
    }
}

/// The arguments of `to add`, read in order.
pub open spec fn add_scan(vals: Seq<Seq<char>>) -> Result<AddScan, ErrorView>
    decreases vals.len(),
{
    if vals.len() == 0 {
        Ok(
            AddScan {
                parent: None,
                priority: None,
                labels: seq![],
                expect_parent: false,
                expect_priority: false,
                expect_label: false,
                text_parts: seq![],
            },
        )
    } else {
        match add_scan(vals.drop_last()) {
            Err(e) => Err(e),
            Ok(st) => add_step(st, vals.last()),
        }
    }
}

/// The command `to add` with these arguments denotes.
pub open spec fn parse_add_spec(vals: Seq<Seq<char>>) -> Result<CommandView, ErrorView> {
    if vals.len() == 0 {
        Err(ErrorView::InvalidArgs("missing task text: use `to add \"task text\"`"@))
    } else {
        match add_scan(vals) {
            Err(e) => Err(e),
            Ok(st) => if st.expect_parent {
                Err(ErrorView::InvalidArgs("missing parent task number: use `--parent <number>`"@))
            } else if st.expect_priority {
                Err(ErrorView::InvalidArgs(missing_priority()))
            } else if st.expect_label {
                Err(ErrorView::InvalidArgs(missing_label()))
            } else if trim(join(st.text_parts, seq![' '])).len() == 0 {
                Err(ErrorView::EmptyTask)
            } else {
                Ok(
                    CommandView::Add {
                        text: join(st.text_parts, seq![' ']),
                        parent: st.parent,
                        priority: st.priority,
                        labels: st.labels,
                    },
                )
            },
        }
    }
}

proof fn lemma_add_scan_error_stays(vals: Seq<Seq<char>>, k: int)
    requires
        0 <= k <= vals.len(),
        add_scan(vals.take(k)) is Err,
    ensures
        add_scan(vals) == add_scan(vals.take(k)),
    decreases vals.len() - k,
{
    if k < vals.len() {
        assert(vals.take(k + 1).drop_last() =~= vals.take(k));
        lemma_add_scan_error_stays(vals, k + 1);
    } else {
        assert(vals.take(k) =~= vals);
    }
}

/// Reads the arguments of `to add`.
fn parse_add_command(rest: &[String]) -> (r: Result<Command, AppError>)
    ensures
        outcome(r) == parse_add_spec(strings_view(rest@)),
{
    if rest.len() == 0 {
        return Err(invalid_args("missing task text: use `to add \"task text\"`"));
    }
    let ghost vals = strings_view(rest@);
    let mut parent: Option<usize> = None;
    let mut priority: Option<Priority> = None;
    let mut labels: Vec<String> = Vec::new();
    let mut expect_parent = false;
    let mut expect_priority = false;
    let mut expect_label = false;
    let mut text_parts: Vec<String> = Vec::new();
    let mut i: usize = 0;
    assert(vals.take(0) =~= Seq::<Seq<char>>::empty());
    assert(strings_view(labels@) =~= Seq::<Seq<char>>::empty());
    assert(strings_view(text_parts@) =~= Seq::<Seq<char>>::empty());
    while i < rest.len()
        invariant
            i <= rest@.len(),
            vals == strings_view(rest@),
            add_scan(vals.take(i as int)) == Ok::<AddScan, ErrorView>(
                AddScan {
                    parent,
                    priority,
                    labels: strings_view(labels@),
                    expect_parent,
                    expect_priority,
                    expect_label,
                    text_parts: strings_view(text_parts@),
                },
            ),
        decreases rest@.len() - i,
    {
        let value = &rest[i];
        proof {
            assert(vals.take(i + 1).drop_last() =~= vals.take(i as int));
            assert(vals.take(i + 1).last() == value@);
        }
        if expect_parent {
            match arg_number(value) {
                None => {
                    proof {
                        lemma_add_scan_error_stays(vals, i + 1);
                    }
                    return Err(invalid_args("parent task number must be a positive integer"));
                },
                Some(n) => {
                    parent = Some(n);
                    expect_parent = false;
                },
            }
        } else if expect_priority {
            match Priority::parse(value.as_str()) {
                Err(e) => {
                    proof {
                        lemma_add_scan_error_stays(vals, i + 1);
                    }
                    return Err(e);
                },
                Ok(p) => {
                    priority = Some(p);
                    expect_priority = false;
                },
            }
        } else if expect_label {
            match append_labels(&mut labels, value) {
                Err(e) => {
                    proof {
                        lemma_add_scan_error_stays(vals, i + 1);
                    }
                    return Err(e);
                },
                Ok(()) => {
                    expect_label = false;
                },
            }
        } else if arg_is(value, "--parent") || arg_is(value, "-p") {
            if parent.is_some() {
                proof {
                    lemma_add_scan_error_stays(vals, i + 1);
                }
                return Err(add_usage_error());
            }
            expect_parent = true;
        } else if arg_is(value, "--priority") || arg_is(value, "-P") {
            if priority.is_some() {
                proof {
                    lemma_add_scan_error_stays(vals, i + 1);
                }
                return Err(add_usage_error());
            }
            expect_priority = true;
        } else if arg_is(value, "--label") || arg_is(value, "-l") {
            expect_label = true;
        } else {
            let ghost old_t = text_parts@;
            text_parts.push(value.clone());
            assert(strings_view(text_parts@) =~= strings_view(old_t).push(value@));
        }
        i = i + 1;
    }
    assert(vals.take(i as int) =~= vals);
    if expect_parent {
        return Err(invalid_args("missing parent task number: use `--parent <number>`"));
    }
    if expect_priority {
        return Err(invalid_args("missing priority: use `--priority <high|medium|low>`"));
    }
    if expect_label {
        return Err(invalid_args("missing label: use `--label <label>`"));
    }
    let text = join_strings(&text_parts);
    let t = trimmed(text.as_slice());
    if t.len() == 0 {
        return Err(AppError::EmptyTask);
    }
    Ok(Command::Add { text: string_of(text.as_slice()), parent, priority, labels })
}

// ---------------------------------------------------------------------------
// Task numbers
// ---------------------------------------------------------------------------

/// The numbers all the arguments denote, if each denotes one.
pub open spec fn parse_numbers(vals: Seq<Seq<char>>) -> Option<Seq<usize>>
    decreases vals.len(),
{
    if vals.len() == 0 {
        Some(seq![])
    } else {
        match parse_numbers(vals.drop_last()) {
            None => None,
            Some(ns) => match parse_usize_spec(vals.last()) {
                None => None,
                Some(n) => Some(ns.push(n)),
            },
        }
    }
}

proof fn lemma_parse_numbers_fails(vals: Seq<Seq<char>>, k: int)
    requires
        0 <= k <= vals.len(),
        parse_numbers(vals.take(k)) is None,
    ensures
        parse_numbers(vals) is None,
    decreases vals.len() - k,
{
    if k < vals.len() {
        assert(vals.take(k + 1).drop_last() =~= vals.take(k));
        lemma_parse_numbers_fails(vals, k + 1);
    } else {
        assert(vals.take(k) =~= vals);
    }
}

/// The task numbers of `to done`, `to uncheck` or `to rm`.
pub open spec fn parse_indices_spec(vals: Seq<Seq<char>>, name: Seq<char>) -> Result<
    Seq<usize>,
    ErrorView,
> {
    if vals.len() == 0 {
        Err(ErrorView::InvalidArgs("usage: `to "@ + name + " <number> [number ...]`"@))
    } else {
        match parse_numbers(vals) {
            None => Err(
                ErrorView::InvalidArgs(
                    "task number must be a positive integer for `"@ + name + "`"@,
                ),
            ),
            Some(ns) => Ok(ns),
        }
    }
}

/// Reads the task numbers of `to done`, `to uncheck` or `to rm`.
fn parse_indices_command(rest: &[String], name: &str) -> (r: Result<Vec<usize>, AppError>)
    ensures
        match r {
            Ok(ns) => parse_indices_spec(strings_view(rest@), name@) == Ok::<
                Seq<usize>,
                ErrorView,
            >(ns@),
            Err(e) => parse_indices_spec(strings_view(rest@), name@) == Err::<
                Seq<usize>,
                ErrorView,
            >(e@),
        },
{
    if rest.len() == 0 {
        let mut m: Vec<char> = Vec::new();
        extend_str(&mut m, "usage: `to ");
        extend_str(&mut m, name);
        extend_str(&mut m, " <number> [number ...]`");
        return Err(AppError::InvalidArgs(string_of(m.as_slice())));
    }
    let ghost vals = strings_view(rest@);
    let mut indices: Vec<usize> = Vec::new();
    let mut i: usize = 0;
    assert(vals.take(0) =~= Seq::<Seq<char>>::empty());
    while i < rest.len()
        invariant
            i <= rest@.len(),
            vals == strings_view(rest@),
            parse_numbers(vals.take(i as int)) == Some(indices@),
        decreases rest@.len() - i,
    {
        proof {
            assert(vals.take(i + 1).drop_last() =~= vals.take(i as int));
            assert(vals.take(i + 1).last() == rest@[i as int]@);
        }
        match arg_number(&rest[i]) {
            None => {
                proof {
                    lemma_parse_numbers_fails(vals, i + 1);
                }
                let mut m: Vec<char> = Vec::new();
                extend_str(&mut m, "task number must be a positive integer for `");
                extend_str(&mut m, name);
                extend_str(&mut m, "`");
                return Err(AppError::InvalidArgs(string_of(m.as_slice())));
            },
            Some(n) => {
                indices.push(n);
            },
        }
        i = i + 1;
    }
    assert(vals.take(i as int) =~= vals);
    Ok(indices)
}

/// The command `to tree` with these arguments denotes.
pub open spec fn parse_tree_spec(vals: Seq<Seq<char>>) -> Result<CommandView, ErrorView> {
    if vals.len() != 1 {
        Err(ErrorView::InvalidArgs("usage: `to tree <number>`"@))
    } else {
        match parse_usize_spec(vals[0]) {
            None => Err(ErrorView::InvalidArgs("task number must be a positive integer for `tree`"@)),
            Some(n) => Ok(CommandView::Tree(n)),
        }
    }
}

fn parse_tree_command(rest: &[String]) -> (r: Result<Command, AppError>)
    ensures
        outcome(r) == parse_tree_spec(strings_view(rest@)),
{
    if rest.len() != 1 {
        return Err(invalid_args("usage: `to tree <number>`"));
    }
    assert(strings_view(rest@)[0] == rest@[0]@);
    match arg_number(&rest[0]) {
        None => Err(invalid_args("task number must be a positive integer for `tree`")),
        Some(n) => Ok(Command::Tree(n)),
    }
}

/// The command `to mv` with these arguments denotes.
pub open spec fn parse_move_spec(vals: Seq<Seq<char>>) -> Result<CommandView, ErrorView> {
    if vals.len() != 2 {
        Err(ErrorView::InvalidArgs("usage: `to mv <from> <to>`"@))
    } else {
        match (parse_usize_spec(vals[0]), parse_usize_spec(vals[1])) {
            (Some(from), Some(to)) => Ok(CommandView::Move { from, to }),
            _ => Err(ErrorView::InvalidArgs("task number must be a positive integer for `mv`"@)),
        }
    }
}

fn parse_move_command(rest: &[String]) -> (r: Result<Command, AppError>)
    ensures
        outcome(r) == parse_move_spec(strings_view(rest@)),
{
    if rest.len() != 2 {
        return Err(invalid_args("usage: `to mv <from> <to>`"));
    }
    assert(strings_view(rest@)[0] == rest@[0]@);
    assert(strings_view(rest@)[1] == rest@[1]@);
    let from = arg_number(&rest[0]);
    let to = arg_number(&rest[1]);
    match (from, to) {
        (Some(from), Some(to)) => Ok(Command::Move { from, to }),
        _ => Err(invalid_args("task number must be a positive integer for `mv`")),
    }
}

// ---------------------------------------------------------------------------
// `to do`
// ---------------------------------------------------------------------------

/// Where reading the arguments of `to do` stands.
pub struct DoScan {
    pub branch_name: Option<Seq<char>>,
    pub create_branch: bool,
    pub expect_branch_name: bool,
    pub indices: Seq<usize>,
}

/// One argument of `to do`: a branch name after `-b`, a flag, or a task
/// number.
pub open spec fn do_step(st: DoScan, v: Seq<char>) -> Result<DoScan, ErrorView> {
    if st.expect_branch_name {
        if trim(v).len() == 0 {
            Err(ErrorView::InvalidArgs("branch name for `to do -b` cannot be empty"@))
        } else {
            Ok(DoScan { branch_name: Some(v), expect_branch_name: false, ..st })
        }
    } else if v == "-b"@ || v == "--branch"@ {
        if st.branch_name is Some || st.create_branch {
            Err(ErrorView::InvalidArgs(do_usage()))
        } else {
            Ok(DoScan { expect_branch_name: true, ..st })
        }
    } else if v == "--create-branch"@ {
        if st.branch_name is Some || st.create_branch {
            Err(ErrorView::InvalidArgs(do_usage()))
        } else {
            Ok(DoScan { create_branch: true, ..st })
        }
    } else {
        match parse_usize_spec(v) {
            None => Err(ErrorView::InvalidArgs("task number must be a positive integer for `do`"@)),
            Some(n) => Ok(DoScan { indices: st.indices.push(n), ..st }),
        }
    }
}

/// The arguments of `to do`, read in order.
pub open spec fn do_scan(vals: Seq<Seq<char>>) -> Result<DoScan, ErrorView>
    decreases vals.len(),
{
    if vals.len() == 0 {
        Ok(DoScan { branch_name: None, create_branch: false, expect_branch_name: false, indices: seq![] })
    } else {
        match do_scan(vals.drop_last()) {
            Err(e) => Err(e),
            Ok(st) => do_step(st, vals.last()),
        }
    }
}

/// The command `to do` with these arguments denotes.
pub open spec fn parse_do_spec(vals: Seq<Seq<char>>) -> Result<CommandView, ErrorView> {
    if vals.len() == 0 {
        Err(ErrorView::InvalidArgs(do_usage()))
    } else {
        match do_scan(vals) {
            Err(e) => Err(e),
            Ok(st) => if st.indices.len() == 0 {
                Err(ErrorView::InvalidArgs(do_usage()))
            } else if st.expect_branch_name {
                Err(
                    ErrorView::InvalidArgs(
                        "missing branch name for `to do -b`: use `-b <branch-name>`"@,
                    ),
                )
            } else {
                Ok(
                    CommandView::Do {
                        indices: st.indices,
                        branch_name: st.branch_name,
                        create_branch: st.create_branch,
                    },
                )
            },
        }
    }
}

proof fn lemma_do_scan_error_stays(vals: Seq<Seq<char>>, k: int)
    requires
        0 <= k <= vals.len(),
        do_scan(vals.take(k)) is Err,
    ensures
        do_scan(vals) == do_scan(vals.take(k)),
    decreases vals.len() - k,
{
    if k < vals.len() {
        assert(vals.take(k + 1).drop_last() =~= vals.take(k));
        lemma_do_scan_error_stays(vals, k + 1);
    } else {
        assert(vals.take(k) =~= vals);
    }
}

/// Reads the arguments of `to do`.
fn parse_do_command(rest: &[String]) -> (r: Result<Command, AppError>)
    ensures
        outcome(r) == parse_do_spec(strings_view(rest@)),
{
    if rest.len() == 0 {
        return Err(do_usage_error());
    }
    let ghost vals = strings_view(rest@);
    let mut branch_name: Option<String> = None;
    let mut create_branch = false;
    let mut expect_branch_name = false;
    let mut indices: Vec<usize> = Vec::new();
    let mut i: usize = 0;
    assert(vals.take(0) =~= Seq::<Seq<char>>::empty());
    while i < rest.len()
        invariant
            i <= rest@.len(),
            vals == strings_view(rest@),
            do_scan(vals.take(i as int)) == Ok::<DoScan, ErrorView>(
                DoScan {
                    branch_name: opt_view(branch_name),
                    create_branch,
                    expect_branch_name,
                    indices: indices@,
                },
            ),
        decreases rest@.len() - i,
    {
        let value = &rest[i];
        proof {
            assert(vals.take(i + 1).drop_last() =~= vals.take(i as int));
            assert(vals.take(i + 1).last() == value@);
        }
        if expect_branch_name {
            let cs = chars_of(value.as_str());
            let t = trimmed(cs.as_slice());
            if t.len() == 0 {
                proof {
                    lemma_do_scan_error_stays(vals, i + 1);
                }
                return Err(invalid_args("branch name for `to do -b` cannot be empty"));
            }
            branch_name = Some(value.clone());
            expect_branch_name = false;
        } else if arg_is(value, "-b") || arg_is(value, "--branch") {
            if branch_name.is_some() || create_branch {
                proof {
                    lemma_do_scan_error_stays(vals, i + 1);
                }
                return Err(do_usage_error());
            }
            expect_branch_name = true;
        } else if arg_is(value, "--create-branch") {
            if branch_name.is_some() || create_branch {
                proof {
                    lemma_do_scan_error_stays(vals, i + 1);
                }
                return Err(do_usage_error());
            }
            create_branch = true;
        } else {
            match arg_number(value) {
                None => {
                    proof {
                        lemma_do_scan_error_stays(vals, i + 1);
                    }
                    return Err(invalid_args("task number must be a positive integer for `do`"));
                },
                Some(n) => {
                    indices.push(n);
                },
            }
        }
        i = i + 1;
    }
    assert(vals.take(i as int) =~= vals);
    if indices.len() == 0 {
        return Err(do_usage_error());
    }
    if expect_branch_name {
        return Err(invalid_args("missing branch name for `to do -b`: use `-b <branch-name>`"));
    }
    Ok(Command::Do { indices, branch_name, create_branch })
}

// ---------------------------------------------------------------------------
// Commands
// ---------------------------------------------------------------------------

/// A command that takes no arguments.
pub open spec fn no_extra_args(rest: Seq<Seq<char>>, c: CommandView) -> Result<CommandView, ErrorView> {
    if rest.len() == 0 {
        Ok(c)
    } else {
        Err(ErrorView::InvalidArgs("too many arguments"@))
    }
}

fn expect_no_extra_args(rest: &[String], command: Command) -> (r: Result<Command, AppError>)
    ensures
        outcome(r) == no_extra_args(strings_view(rest@), command@),
{
    if rest.len() == 0 {
        Ok(command)
    } else {
        Err(invalid_args("too many arguments"))
    }
}

/// The command task numbers denote for `to done`, `to uncheck` or `to rm`.
pub open spec fn indices_command(
    rest: Seq<Seq<char>>,
    name: Seq<char>,
    make: spec_fn(Seq<usize>) -> CommandView,
) -> Result<CommandView, ErrorView> {
    match parse_indices_spec(rest, name) {
        Err(e) => Err(e),
        Ok(ns) => Ok(make(ns)),
    }
}

/// The command the arguments (without the program name) denote; no
/// arguments list all tasks.
pub open spec fn parse_args_spec(args: Seq<Seq<char>>) -> Result<CommandView, ErrorView> {
    if args.len() == 0 {
        Ok(CommandView::List(ListOptionsView { query: None, priority: None, labels: seq![] }))
    } else {
        let c = args[0];
        let rest = args.drop_first();
        if c == "help"@ || c == "-h"@ || c == "--help"@ {
            Ok(CommandView::Help)
        } else if c == "init"@ {
            no_extra_args(rest, CommandView::Init)
        } else if c == "ls"@ {
            parse_list_spec(rest)
        } else if c == "next"@ {
            no_extra_args(rest, CommandView::Next)
        } else if c == "scan"@ {
            no_extra_args(rest, CommandView::Scan)
        } else if c == "edit"@ {
            no_extra_args(rest, CommandView::Edit)
        } else if c == "add"@ {
            parse_add_spec(rest)
        } else if c == "done"@ {
            indices_command(rest, "done"@, |ns: Seq<usize>| CommandView::Done(ns))
        } else if c == "do"@ {
            parse_do_spec(rest)
        } else if c == "uncheck"@ {
            indices_command(rest, "uncheck"@, |ns: Seq<usize>| CommandView::Uncheck(ns))
        } else if c == "rm"@ {
            indices_command(rest, "rm"@, |ns: Seq<usize>| CommandView::Remove(ns))
        } else if c == "mv"@ {
            parse_move_spec(rest)
        } else if c == "prune"@ {
            no_extra_args(rest, CommandView::Prune)
        } else if c == "tree"@ {
            parse_tree_spec(rest)
        } else {
            Err(
                ErrorView::InvalidArgs(
                    "unknown command `"@ + c + "`: run `to --help` for usage"@,
                ),
            )
        }
    }
}

/// Reads the command that the arguments (without the program name) denote.
pub fn parse_args(args: &[String]) -> (r: Result<Command, AppError>)
    ensures
        outcome(r) == parse_args_spec(strings_view(args@)),
{
    let ghost all = strings_view(args@);
    if args.len() == 0 {
        let r = Command::List(ListOptions::default());
        assert(r@ == CommandView::List(
            ListOptionsView { query: None, priority: None, labels: seq![] },
        ));
        return Ok(r);
    }
    let command = &args[0];
    let rest = &args[1..args.len()];
    assert(all[0] == command@);
    assert(strings_view(rest@) =~= all.drop_first());
    if arg_is(command, "help") || arg_is(command, "-h") || arg_is(command, "--help") {
        Ok(Command::Help)
    } else if arg_is(command, "init") {
        expect_no_extra_args(rest, Command::Init)
    } else if arg_is(command, "ls") {
        parse_list_command(rest)
    } else if arg_is(command, "next") {
        expect_no_extra_args(rest, Command::Next)
    } else if arg_is(command, "scan") {
        expect_no_extra_args(rest, Command::Scan)
    } else if arg_is(command, "edit") {
        expect_no_extra_args(rest, Command::Edit)
    } else if arg_is(command, "add") {
        parse_add_command(rest)
    } else if arg_is(command, "done") {
        let ns = parse_indices_command(rest, "done")?;
        Ok(Command::Done(ns))
    } else if arg_is(command, "do") {
        parse_do_command(rest)
    } else if arg_is(command, "uncheck") {
        let ns = parse_indices_command(rest, "uncheck")?;
        Ok(Command::Uncheck(ns))
    } else if arg_is(command, "rm") {
        let ns = parse_indices_command(rest, "rm")?;
        Ok(Command::Remove(ns))
    } else if arg_is(command, "mv") {
        parse_move_command(rest)
    } else if arg_is(command, "prune") {
        expect_no_extra_args(rest, Command::Prune)
    } else if arg_is(command, "tree") {
        parse_tree_command(rest)
    } else {
        let mut m: Vec<char> = Vec::new();
        extend_str(&mut m, "unknown command `");
        extend_str(&mut m, command.as_str());
        extend_str(&mut m, "`: run `to --help` for usage");
        Err(AppError::InvalidArgs(string_of(m.as_slice())))
    }
}

} // verus!
