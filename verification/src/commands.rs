//! What each command does to the task list and what it reports.
use vstd::prelude::*;

use crate::cli::{opt_view, Command, CommandView, ListOptions, ListOptionsView, HELP_TEXT};
use crate::error::{outcome, AppError, ErrorView};
use crate::text::{
    chars_of, contains_chars, decimal, decimal_chars, extend_chars, extend_str, has_substring,
    is_ascii_alnum, is_ascii_alphanumeric, join, lower_char, string_of, to_ascii_lower,
    to_lowercase, unicode_lower,
};
use crate::todo::{
    contains_string, first_open_from, index_error, indent_spaces, labels_suffix,
    lemma_first_not_deeper, new_task_spec, priority_word, render_task, set_done, strings_view,
    subtree_end, tasks_view, valid_index, without_block, move_spec, move_target, Task, TaskView,
    TodoList,
};

verus! {

// ---------------------------------------------------------------------------
// Styling
// ---------------------------------------------------------------------------

/// `text` wrapped in the ANSI escape for `code` when colour is on.
pub open spec fn styled_spec(use_color: bool, code: Seq<char>, text: Seq<char>) -> Seq<char> {
    if use_color {
        "\u{1b}["@ + code + "m"@ + text + "\u{1b}[0m"@
    } else {
        text
    }
}

/// Appends `text`, styled with `code` when colour is on.
fn push_styled(out: &mut Vec<char>, use_color: bool, code: &str, text: &[char])
    ensures
        final(out)@ == old(out)@ + styled_spec(use_color, code@, text@),
{
    if use_color {
        extend_str(out, "\u{1b}[");
        extend_str(out, code);
        extend_str(out, "m");
        extend_chars(out, text);
        extend_str(out, "\u{1b}[0m");
    } else {
        extend_chars(out, text);
    }
}

/// Appends the literal `text`, styled with `code` when colour is on.
fn push_styled_str(out: &mut Vec<char>, use_color: bool, code: &str, text: &str)
    ensures
        final(out)@ == old(out)@ + styled_spec(use_color, code@, text@),
{
    let t = chars_of(text);
    push_styled(out, use_color, code, t.as_slice());
}

/// `text` wrapped in the ANSI escape for `code` when colour is on.
pub fn styled(use_color: bool, code: &str, text: &str) -> (r: String)
    ensures
        r@ == styled_spec(use_color, code@, text@),
{
    let mut out: Vec<char> = Vec::new();
    push_styled_str(&mut out, use_color, code, text);
    assert(out@ =~= styled_spec(use_color, code@, text@));
    string_of(out.as_slice())
}

/// The done marker, green `[x]` or yellow `[ ]`.
pub open spec fn marker_spec(use_color: bool, done: bool) -> Seq<char> {
    if done {
        styled_spec(use_color, "32"@, "[x]"@)
    } else {
        styled_spec(use_color, "33"@, "[ ]"@)
    }
}

/// The done marker of a task.
pub fn task_marker(done: bool, use_color: bool) -> (r: String)
    ensures
        r@ == marker_spec(use_color, done),
{
    if done {
        styled(use_color, "32", "[x]")
    } else {
        styled(use_color, "33", "[ ]")
    }
}

// ---------------------------------------------------------------------------
// Task numbers
// ---------------------------------------------------------------------------

/// The numbers in order of first occurrence, without repeats.
pub open spec fn unique_spec(s: Seq<usize>) -> Seq<usize>
    decreases s.len(),
{
    if s.len() == 0 {
        seq![]
    } else {
        let u = unique_spec(s.drop_last());
        if u.contains(s.last()) {
            u
        } else {
            u.push(s.last())
        }
    }
}

/// Whether `v` holds `x`.
fn contains_usize(v: &Vec<usize>, x: usize) -> (r: bool)
    ensures
        r == v@.contains(x),
{
    let mut i: usize = 0;
    while i < v.len()
        invariant
            i <= v@.len(),
            forall|j: int| 0 <= j < i ==> v@[j] != x,
        decreases v@.len() - i,
    {
        if v[i] == x {
            return true;
        }
        i = i + 1;
    }
    false
}

/// The numbers in order of first occurrence, without repeats.
pub fn unique_indices(indices: &[usize]) -> (r: Vec<usize>)
    ensures
        r@ == unique_spec(indices@),
{
    let mut unique: Vec<usize> = Vec::new();
    let mut i: usize = 0;
    assert(indices@.take(0) =~= Seq::<usize>::empty());
    while i < indices.len()
        invariant
            i <= indices@.len(),
            unique@ == unique_spec(indices@.take(i as int)),
        decreases indices@.len() - i,
    {
        assert(indices@.take(i + 1).drop_last() =~= indices@.take(i as int));
        assert(indices@.take(i + 1).last() == indices@[i as int]);
        let x = indices[i];
        if !contains_usize(&unique, x) {
            unique.push(x);
        }
        i = i + 1;
    }
    assert(indices@.take(i as int) =~= indices@);
    unique
}

/// The first number in `u` that is not a task number of a list of `len`
/// tasks.
pub open spec fn first_invalid(u: Seq<usize>, len: nat) -> Option<usize>
    decreases u.len(),
{
    if u.len() == 0 {
        None
    } else if !valid_index(u[0], len) {
        Some(u[0])
    } else {
        first_invalid(u.drop_first(), len)
    }
}

/// The distinct task numbers given, in order of first occurrence, or the
/// error for the first that is out of range.
pub open spec fn validate_spec(indices: Seq<usize>, len: nat) -> Result<Seq<usize>, ErrorView> {
    let u = unique_spec(indices);
    match first_invalid(u, len) {
        Some(i) => Err(index_error(i, len)),
        None => Ok(u),
    }
}

/// `first_invalid` is none exactly when every number is in range.
pub proof fn lemma_first_invalid(u: Seq<usize>, len: nat)
    ensures
        first_invalid(u, len) is None <==> forall|j: int| 0 <= j < u.len() ==> valid_index(
            #[trigger] u[j],
            len,
        ),
    decreases u.len(),
{
    if u.len() > 0 {
        lemma_first_invalid(u.drop_first(), len);
        if valid_index(u[0], len) {
            assert forall|j: int| 0 <= j < u.len() implies valid_index(#[trigger] u[j], len) <==> (
            j == 0 || valid_index(u.drop_first()[j - 1], len)) by {
                if j > 0 {
                    assert(u.drop_first()[j - 1] == u[j]);
                }
            }
        }
    }
}

/// The distinct task numbers given, each checked to be in range.
pub fn validate_task_indices(todos: &TodoList, indices: &[usize]) -> (r: Result<
    Vec<usize>,
    AppError,
>)
    ensures
        match r {
            Ok(u) => validate_spec(indices@, todos@.len()) == Ok::<Seq<usize>, ErrorView>(u@),
            Err(e) => validate_spec(indices@, todos@.len()) == Err::<Seq<usize>, ErrorView>(e@),
        },
{
    let unique = unique_indices(indices);
    let mut i: usize = 0;
    assert(unique@.skip(0) =~= unique@);
    while i < unique.len()
        invariant
            i <= unique@.len(),
            unique@ == unique_spec(indices@),
            first_invalid(unique@, todos@.len()) == first_invalid(unique@.skip(i as int), todos@.len()),
        decreases unique@.len() - i,
    {
        let ghost rest = unique@.skip(i as int);
        assert(rest[0] == unique@[i as int]);
        assert(rest.drop_first() =~= unique@.skip(i + 1));
        match todos.task(unique[i]) {
            Err(e) => {
                return Err(e);
            },
            Ok(_) => {},
        }
        i = i + 1;
    }
    assert(unique@.skip(i as int).len() == 0);
    Ok(unique)
}

// ---------------------------------------------------------------------------
// The agent prompt and branch names
// ---------------------------------------------------------------------------

/// What the coding agent is told besides the task numbers.
pub const OPENCODE_AGENT_PROMPT: &'static str = "You are working from the project's `.todo` list. Inspect the codebase before making changes, complete each task end-to-end in the current repository, run relevant checks when practical, and report what changed plus any follow-up work.";

/// The task numbers in decimal, separated by `sep`.
pub open spec fn numbers_text(u: Seq<usize>, sep: Seq<char>) -> Seq<char> {
    join(u.map_values(|i: usize| decimal(i as nat)), sep)
}

/// Appends the task numbers in decimal, separated by `sep`.
fn push_numbers(out: &mut Vec<char>, u: &[usize], sep: &str)
    ensures
        final(out)@ == old(out)@ + numbers_text(u@, sep@),
{
    let ghost start = out@;
    let mut i: usize = 0;
    assert(u@.take(0).map_values(|i: usize| decimal(i as nat)) =~= Seq::<Seq<char>>::empty());
    while i < u.len()
        invariant
            i <= u@.len(),
            start == old(out)@,
            out@ == start + numbers_text(u@.take(i as int), sep@),
        decreases u@.len() - i,
    {
        let ghost before = out@;
        if i > 0 {
            extend_str(out, sep);
        }
        let d = decimal_chars(u[i]);
        extend_chars(out, d.as_slice());
        proof {
            let ds = u@.take(i + 1).map_values(|i: usize| decimal(i as nat));
            assert(ds.drop_last() =~= u@.take(i as int).map_values(|i: usize| decimal(i as nat)));
            assert(ds.last() == decimal(u@[i as int] as nat));
            if i == 0 {
                assert(ds.len() == 1);
                assert(numbers_text(u@.take(i + 1), sep@) == ds[0]);
                assert(numbers_text(u@.take(0), sep@) =~= Seq::<char>::empty());
            }
            assert(out@ =~= start + numbers_text(u@.take(i + 1), sep@));
        }
        i = i + 1;
    }
    assert(u@.take(i as int) =~= u@);
}

/// The error for an agent that could not be started: not found in `PATH`,
/// or another failure whose text is `error_text`.
pub open spec fn launch_error_spec(not_found: bool, error_text: Seq<char>) -> Seq<char> {
    if not_found {
        "`opencode` was not found in PATH"@
    } else {
        "failed to launch `opencode`: "@ + error_text
    }
}

/// The error for an agent that could not be started, from whether it was
/// not found and the launch error's text.
pub fn launch_error(not_found: bool, error_text: &str) -> (r: AppError)
    ensures
        r@ == ErrorView::CommandFailed(launch_error_spec(not_found, error_text@)),
{
    let mut v: Vec<char> = Vec::new();
    if not_found {
        extend_str(&mut v, "`opencode` was not found in PATH");
    } else {
        extend_str(&mut v, "failed to launch `opencode`: ");
        extend_str(&mut v, error_text);
    }
    AppError::CommandFailed(string_of(v.as_slice()))
}

/// The outcome of the agent's run from whether it exited successfully and
/// its exit status as `ExitStatus` displays it.
pub fn agent_outcome(success: bool, status: &str) -> (r: Result<(), AppError>)
    ensures
        match r {
            Ok(_) => success,
            Err(e) => !success && e@ == ErrorView::CommandFailed(
                "`opencode --prompt ...` exited with status "@ + status@,
            ),
        },
{
    if success {
        return Ok(());
    }
    let mut v: Vec<char> = Vec::new();
    extend_str(&mut v, "`opencode --prompt ...` exited with status ");
    extend_str(&mut v, status);
    Err(AppError::CommandFailed(string_of(v.as_slice())))
}

/// The editor `to edit` opens when `EDITOR` is not set.
pub const DEFAULT_EDITOR: &'static str = "vi";

/// The outcome of the editor's run from whether it exited successfully and
/// its exit status as `ExitStatus` displays it.
pub fn editor_outcome(editor: &str, success: bool, status: &str) -> (r: Result<(), AppError>)
    ensures
        match r {
            Ok(_) => success,
            Err(e) => !success && e@ == ErrorView::CommandFailed(
                "`"@ + editor@ + "` exited with status "@ + status@,
            ),
        },
{
    if success {
        return Ok(());
    }
    let mut v: Vec<char> = Vec::new();
    extend_str(&mut v, "`");
    extend_str(&mut v, editor);
    extend_str(&mut v, "` exited with status ");
    extend_str(&mut v, status);
    Err(AppError::CommandFailed(string_of(v.as_slice())))
}

/// The prompt handed to the coding agent for these task numbers.
pub open spec fn prompt_spec(u: Seq<usize>) -> Seq<char> {
    "do all the tasks that are numbered "@ + numbers_text(u, " "@)
        + " use `to` for seeing todo\n\n"@ + OPENCODE_AGENT_PROMPT@
}

/// The prompt handed to the coding agent for these task numbers.
pub fn build_opencode_prompt(indices: &[usize]) -> (r: String)
    ensures
        r@ == prompt_spec(indices@),
{
    let mut out: Vec<char> = Vec::new();
    extend_str(&mut out, "do all the tasks that are numbered ");
    push_numbers(&mut out, indices, " ");
    extend_str(&mut out, " use `to` for seeing todo\n\n");
    extend_str(&mut out, OPENCODE_AGENT_PROMPT);
    assert(out@ =~= prompt_spec(indices@));
    string_of(out.as_slice())
}

/// A task text as a branch-name slug before a trailing `-` is dropped:
/// ASCII letters and digits lower-cased, each run of other characters one
/// `-`, none at the start.
pub open spec fn slug_raw(s: Seq<char>) -> Seq<char>
    decreases s.len(),
{
    if s.len() == 0 {
        seq![]
    } else {
        let r = slug_raw(s.drop_last());
        let c = s.last();
        if is_ascii_alnum(c) {
            r.push(lower_char(c))
        } else if r.len() > 0 && r.last() != '-' {
            r.push('-')
        } else {
            r
        }
    }
}

/// A task text as a branch-name slug, e.g. `implement-streaming-responses`.
pub open spec fn slug(s: Seq<char>) -> Seq<char> {
    let r = slug_raw(s);
    if r.len() > 0 && r.last() == '-' {
        r.drop_last()
    } else {
        r
    }
}

/// The branch-name slug of a task text.
fn slug_chars(s: &[char]) -> (r: Vec<char>)
    ensures
        r@ == slug(s@),
{
    let mut r: Vec<char> = Vec::new();
    let mut i: usize = 0;
    assert(s@.take(0) =~= Seq::<char>::empty());
    while i < s.len()
        invariant
            i <= s@.len(),
            r@ == slug_raw(s@.take(i as int)),
        decreases s@.len() - i,
    {
        assert(s@.take(i + 1).drop_last() =~= s@.take(i as int));
        assert(s@.take(i + 1).last() == s@[i as int]);
        let c = s[i];
        if is_ascii_alphanumeric(c) {
            r.push(to_ascii_lower(c));
        } else if r.len() > 0 && r[r.len() - 1] != '-' {
            r.push('-');
        }
        i = i + 1;
    }
    assert(s@.take(i as int) =~= s@);
    if r.len() > 0 && r[r.len() - 1] == '-' {
        r.pop();
    }
    r
}

/// The branch `to do --create-branch` uses: `feature/<slug>` for one task
/// (`feature/task-<n>` when its text has no letters or digits), and
/// `feature/tasks-<n>-<m>...` for several.
pub open spec fn auto_branch(u: Seq<usize>, ts: Seq<TaskView>) -> Seq<char> {
    if u.len() == 1 {
        let s = slug(ts[u[0] - 1].text);
        if s.len() > 0 {
            "feature/"@ + s
        } else {
            "feature/task-"@ + decimal(u[0] as nat)
        }
    } else {
        "feature/tasks-"@ + numbers_text(u, "-"@)
    }
}

/// The branch `to do --create-branch` uses for these (valid) task numbers.
fn auto_branch_name(todos: &TodoList, u: &[usize]) -> (r: String)
    requires
        forall|j: int| 0 <= j < u@.len() ==> valid_index(#[trigger] u@[j], todos@.len()),
    ensures
        r@ == auto_branch(u@, todos@),
{
    let mut out: Vec<char> = Vec::new();
    if u.len() == 1 {
        assert(valid_index(u@[0], todos@.len()));
        let tasks = todos.tasks();
        assert(tasks@[u[0] - 1]@ == todos@[u@[0] - 1]);
        let text = chars_of(tasks[u[0] - 1].text.as_str());
        let s = slug_chars(text.as_slice());
        if s.len() > 0 {
            extend_str(&mut out, "feature/");
            extend_chars(&mut out, s.as_slice());
        } else {
            extend_str(&mut out, "feature/task-");
            let d = decimal_chars(u[0]);
            extend_chars(&mut out, d.as_slice());
        }
    } else {
        extend_str(&mut out, "feature/tasks-");
        push_numbers(&mut out, u, "-");
    }
    assert(out@ =~= auto_branch(u@, todos@));
    string_of(out.as_slice())
}


// ---------------------------------------------------------------------------
// Listing tasks
// ---------------------------------------------------------------------------

/// Whether a task passes the list filters: its text contains the query
/// (both lower-cased), it has the priority asked for, and it has every
/// label asked for.
pub open spec fn matches_filters(t: TaskView, o: ListOptionsView) -> bool {
    &&& match o.query {
        Some(q) => has_substring(unicode_lower(t.text), unicode_lower(q)),
        None => true,
    }
    &&& match o.priority {
        Some(p) => t.priority == Some(p),
        None => true,
    }
    &&& forall|j: int| 0 <= j < o.labels.len() ==> t.labels.contains(#[trigger] o.labels[j])
}

/// The row that shows task number `number`: the number, the marker, the
/// nesting, and the text with its tags.
pub open spec fn task_row(use_color: bool, number: nat, t: TaskView) -> Seq<char> {
    decimal(number) + ". "@ + marker_spec(use_color, t.done) + " "@ + indent_spaces(t.indent)
        + render_task(t) + "\n"@
}

/// The rows of the tasks that pass the filters, numbered by their position
/// in the whole list.
pub open spec fn filtered_rows(use_color: bool, ts: Seq<TaskView>, o: ListOptionsView) -> Seq<char>
    decreases ts.len(),
{
    if ts.len() == 0 {
        seq![]
    } else {
        filtered_rows(use_color, ts.drop_last(), o) + if matches_filters(ts.last(), o) {
            task_row(use_color, ts.len(), ts.last())
        } else {
            seq![]
        }
    }
}

/// The number of tasks that pass the filters (and, if `done` is given,
/// are done or open accordingly).
pub open spec fn count_filtered(ts: Seq<TaskView>, o: ListOptionsView, done: Option<bool>) -> nat
    decreases ts.len(),
{
    if ts.len() == 0 {
        0
    } else {
        count_filtered(ts.drop_last(), o, done) + if matches_filters(ts.last(), o) && match done {
            Some(d) => ts.last().done == d,
            None => true,
        } {
            1nat
        } else {
            0nat
        }
    }
}

/// Whether any filter is given.
pub open spec fn filters_active(o: ListOptionsView) -> bool {
    o.query is Some || o.priority is Some || o.labels.len() > 0
}

/// The line that echoes the query.
pub open spec fn query_echo(use_color: bool, q: Option<Seq<char>>) -> Seq<char> {
    match q {
        Some(q) => styled_spec(use_color, "36"@, "Filter:"@) + " \""@ + q + "\"\n"@,
        None => seq![],
    }
}

/// The line that echoes the priority filter.
pub open spec fn priority_echo(use_color: bool, p: Option<crate::todo::Priority>) -> Seq<char> {
    match p {
        Some(p) => styled_spec(use_color, "36"@, "Priority:"@) + " "@ + priority_word(p) + "\n"@,
        None => seq![],
    }
}

/// The line that echoes the label filter.
pub open spec fn labels_echo(use_color: bool, ls: Seq<Seq<char>>) -> Seq<char> {
    if ls.len() > 0 {
        styled_spec(use_color, "36"@, "Labels:"@) + labels_suffix(ls) + "\n"@
    } else {
        seq![]
    }
}

/// The lines that echo the filters.
pub open spec fn filter_header(use_color: bool, o: ListOptionsView) -> Seq<char> {
    query_echo(use_color, o.query) + priority_echo(use_color, o.priority) + labels_echo(
        use_color,
        o.labels,
    )
}

/// `Open: n  Done: m` and a line feed.
pub open spec fn counts_text(use_color: bool, open: nat, done: nat) -> Seq<char> {
    styled_spec(use_color, "33"@, "Open:"@) + " "@ + decimal(open) + "  "@ + styled_spec(
        use_color,
        "32"@,
        "Done:"@,
    ) + " "@ + decimal(done) + "\n"@
}

/// `Matches: n` and two spaces.
pub open spec fn matches_text(use_color: bool, matched: nat) -> Seq<char> {
    styled_spec(use_color, "36"@, "Matches:"@) + " "@ + decimal(matched) + "  "@
}

/// The line that says no task matches the query.
pub open spec fn no_match_line(q: Option<Seq<char>>, matched: nat) -> Seq<char> {
    match q {
        Some(q) => if matched == 0 {
            "No tasks matching \""@ + unicode_lower(q) + "\".\n"@
        } else {
            seq![]
        },
        None => seq![],
    }
}

/// The closing line with the counts.
pub open spec fn list_footer(
    use_color: bool,
    o: ListOptionsView,
    matched: nat,
    open: nat,
    done: nat,
) -> Seq<char> {
    if filters_active(o) {
        no_match_line(o.query, matched) + matches_text(use_color, matched) + counts_text(
            use_color,
            open,
            done,
        )
    } else {
        counts_text(use_color, open, done)
    }
}

/// What `to ls` prints.
pub open spec fn list_output(
    use_color: bool,
    path: Seq<char>,
    ts: Seq<TaskView>,
    o: ListOptionsView,
) -> Seq<char> {
    let head = styled_spec(use_color, "1;34"@, "Tasks from "@ + path) + "\n"@;
    if ts.len() == 0 {
        head + "No tasks yet.\n"@
    } else {
        head + filter_header(use_color, o) + filtered_rows(use_color, ts, o) + list_footer(
            use_color,
            o,
            count_filtered(ts, o, None),
            count_filtered(ts, o, Some(false)),
            count_filtered(ts, o, Some(true)),
        )
    }
}

/// Appends ` #label` for each label.
fn push_label_tags(out: &mut Vec<char>, labels: &Vec<String>)
    ensures
        final(out)@ == old(out)@ + labels_suffix(strings_view(labels@)),
{
    let ghost base = out@;
    let mut i: usize = 0;
    assert(strings_view(labels@).take(0) =~= Seq::<Seq<char>>::empty());
    assert(out@ =~= base + labels_suffix(strings_view(labels@).take(0)));
    while i < labels.len()
        invariant
            i <= labels@.len(),
            base == old(out)@,
            out@ == base + labels_suffix(strings_view(labels@).take(i as int)),
        decreases labels@.len() - i,
    {
        out.push(' ');
        out.push('#');
        extend_str(out, labels[i].as_str());
        proof {
            let ls = strings_view(labels@);
            assert(ls.take(i + 1).drop_last() =~= ls.take(i as int));
            assert(ls.take(i + 1).last() == labels@[i as int]@);
        }
        i = i + 1;
        assert(out@ =~= base + labels_suffix(strings_view(labels@).take(i as int)));
    }
    assert(strings_view(labels@).take(i as int) =~= strings_view(labels@));
}

/// Appends the row of task number `number`.
fn push_task_row(out: &mut Vec<char>, use_color: bool, number: usize, task: &Task)
    ensures
        final(out)@ == old(out)@ + task_row(use_color, number as nat, task@),
{
    let ghost base = out@;
    let d = decimal_chars(number);
    extend_chars(out, d.as_slice());
    extend_str(out, ". ");
    let marker = task_marker(task.done, use_color);
    extend_str(out, marker.as_str());
    extend_str(out, " ");
    let ghost before_indent = out@;
    let mut k: usize = 0;
    while k < task.indent
        invariant
            k <= task.indent,
            out@ == before_indent + Seq::new(2 * k as nat, |_i: int| ' '),
        decreases task.indent - k,
    {
        out.push(' ');
        out.push(' ');
        k = k + 1;
        assert(out@ =~= before_indent + Seq::new(2 * k as nat, |_i: int| ' '));
    }
    let rendered = task.render_text();
    extend_str(out, rendered.as_str());
    extend_str(out, "\n");
    assert(out@ =~= base + task_row(use_color, number as nat, task@));
}

/// Whether a task passes the filters; `query_lower` is the lower-cased
/// query.
fn task_matches(task: &Task, query_lower: &Option<Vec<char>>, options: &ListOptions) -> (r: bool)
    requires
        match options@.query {
            Some(q) => query_lower matches Some(ql) && ql@ == unicode_lower(q),
            None => query_lower is None,
        },
    ensures
        r == matches_filters(task@, options@),
{
    if let Some(ql) = query_lower {
        let text = to_lowercase(task.text.as_str());
        let tl = chars_of(text.as_str());
        if !contains_chars(tl.as_slice(), ql.as_slice()) {
            return false;
        }
    }
    if let Some(p) = options.priority {
        match task.priority {
            Some(q) => {
                if q != p {
                    return false;
                }
            },
            None => {
                return false;
            },
        }
    }
    let mut j: usize = 0;
    while j < options.labels.len()
        invariant
            j <= options.labels@.len(),
            forall|k: int|
                0 <= k < j ==> task@.labels.contains(#[trigger] options@.labels[k]),
        decreases options.labels@.len() - j,
    {
        assert(options@.labels[j as int] == options.labels@[j as int]@);
        if !contains_string(&task.labels, &options.labels[j]) {
            return false;
        }
        j = j + 1;
    }
    true
}

/// Appends the line that echoes the query; returns the lower-cased query.
fn push_query_echo(out: &mut Vec<char>, query: &Option<String>, use_color: bool) -> (r: Option<
    Vec<char>,
>)
    ensures
        final(out)@ == old(out)@ + query_echo(use_color, crate::cli::opt_view(*query)),
        match crate::cli::opt_view(*query) {
            Some(q) => r matches Some(ql) && ql@ == unicode_lower(q),
            None => r is None,
        },
{
    match query {
        Some(q) => {
            let ghost base = out@;
            push_styled_str(out, use_color, "36", "Filter:");
            extend_str(out, " \"");
            extend_str(out, q.as_str());
            extend_str(out, "\"\n");
            assert(out@ =~= base + query_echo(use_color, crate::cli::opt_view(*query)));
            let ql = to_lowercase(q.as_str());
            Some(chars_of(ql.as_str()))
        },
        None => {
            assert(out@ =~= old(out)@ + query_echo(use_color, crate::cli::opt_view(*query)));
            None
        },
    }
}

/// Appends the line that echoes the priority filter.
fn push_priority_echo(out: &mut Vec<char>, p: Option<crate::todo::Priority>, use_color: bool)
    ensures
        final(out)@ == old(out)@ + priority_echo(use_color, p),
{
    let ghost base = out@;
    if let Some(p) = p {
        push_styled_str(out, use_color, "36", "Priority:");
        extend_str(out, " ");
        extend_str(out, p.as_str());
        extend_str(out, "\n");
    }
    assert(out@ =~= base + priority_echo(use_color, p));
}

/// Appends the line that echoes the label filter.
fn push_labels_echo(out: &mut Vec<char>, labels: &Vec<String>, use_color: bool)
    ensures
        final(out)@ == old(out)@ + labels_echo(use_color, strings_view(labels@)),
{
    let ghost base = out@;
    if labels.len() > 0 {
        push_styled_str(out, use_color, "36", "Labels:");
        push_label_tags(out, labels);
        extend_str(out, "\n");
    }
    assert(out@ =~= base + labels_echo(use_color, strings_view(labels@)));
}

/// Appends the lines that echo the filters; returns the lower-cased query.
fn push_filter_header(out: &mut Vec<char>, options: &ListOptions, use_color: bool) -> (r: Option<
    Vec<char>,
>)
    ensures
        final(out)@ == old(out)@ + filter_header(use_color, options@),
        match options@.query {
            Some(q) => r matches Some(ql) && ql@ == unicode_lower(q),
            None => r is None,
        },
{
    let ghost base = out@;
    let query_lower = push_query_echo(out, &options.query, use_color);
    push_priority_echo(out, options.priority, use_color);
    push_labels_echo(out, &options.labels, use_color);
    assert(out@ =~= base + filter_header(use_color, options@));
    query_lower
}

/// Appends the rows of the tasks that pass the filters; returns how many
/// pass, how many of those are open, and how many done.
fn push_filtered_rows(
    out: &mut Vec<char>,
    tasks: &[Task],
    query_lower: &Option<Vec<char>>,
    options: &ListOptions,
    use_color: bool,
) -> (r: (usize, usize, usize))
    requires
        match options@.query {
            Some(q) => query_lower matches Some(ql) && ql@ == unicode_lower(q),
            None => query_lower is None,
        },
    ensures
        final(out)@ == old(out)@ + filtered_rows(use_color, tasks_view(tasks@), options@),
        r.0 == count_filtered(tasks_view(tasks@), options@, None),
        r.1 == count_filtered(tasks_view(tasks@), options@, Some(false)),
        r.2 == count_filtered(tasks_view(tasks@), options@, Some(true)),
{
    let ghost base = out@;
    let ghost ts = tasks_view(tasks@);
    let mut matched: usize = 0;
    let mut open: usize = 0;
    let mut done: usize = 0;
    let mut i: usize = 0;
    assert(ts.take(0) =~= Seq::<TaskView>::empty());
    while i < tasks.len()
        invariant
            i <= tasks@.len(),
            ts == tasks_view(tasks@),
            base == old(out)@,
            match options@.query {
                Some(q) => query_lower matches Some(ql) && ql@ == unicode_lower(q),
                None => query_lower is None,
            },
            out@ == base + filtered_rows(use_color, ts.take(i as int), options@),
            matched == count_filtered(ts.take(i as int), options@, None),
            open == count_filtered(ts.take(i as int), options@, Some(false)),
            done == count_filtered(ts.take(i as int), options@, Some(true)),
            matched <= i,
            open <= i,
            done <= i,
        decreases tasks@.len() - i,
    {
        let task = &tasks[i];
        proof {
            assert(ts.take(i + 1).drop_last() =~= ts.take(i as int));
            assert(ts.take(i + 1).last() == task@);
        }
        if task_matches(task, query_lower, options) {
            matched = matched + 1;
            if task.done {
                done = done + 1;
            } else {
                open = open + 1;
            }
            push_task_row(out, use_color, i + 1, task);
        }
        i = i + 1;
    }
    assert(ts.take(i as int) =~= ts);
    (matched, open, done)
}

/// Appends `Open: n  Done: m` and a line feed.
fn push_counts(out: &mut Vec<char>, use_color: bool, open: usize, done: usize)
    ensures
        final(out)@ == old(out)@ + counts_text(use_color, open as nat, done as nat),
{
    let ghost base = out@;
    push_styled_str(out, use_color, "33", "Open:");
    extend_str(out, " ");
    let d = decimal_chars(open);
    extend_chars(out, d.as_slice());
    extend_str(out, "  ");
    push_styled_str(out, use_color, "32", "Done:");
    extend_str(out, " ");
    let d = decimal_chars(done);
    extend_chars(out, d.as_slice());
    extend_str(out, "\n");
    assert(out@ =~= base + counts_text(use_color, open as nat, done as nat));
}

/// Appends `Matches: n` and two spaces.
fn push_matches(out: &mut Vec<char>, use_color: bool, matched: usize)
    ensures
        final(out)@ == old(out)@ + matches_text(use_color, matched as nat),
{
    let ghost base = out@;
    push_styled_str(out, use_color, "36", "Matches:");
    extend_str(out, " ");
    let d = decimal_chars(matched);
    extend_chars(out, d.as_slice());
    extend_str(out, "  ");
    assert(out@ =~= base + matches_text(use_color, matched as nat));
}

/// Appends the closing line with the counts.
fn push_list_footer(
    out: &mut Vec<char>,
    options: &ListOptions,
    query_lower: &Option<Vec<char>>,
    counts: (usize, usize, usize),
    use_color: bool,
)
    requires
        match options@.query {
            Some(q) => query_lower matches Some(ql) && ql@ == unicode_lower(q),
            None => query_lower is None,
        },
    ensures
        final(out)@ == old(out)@ + list_footer(
            use_color,
            options@,
            counts.0 as nat,
            counts.1 as nat,
            counts.2 as nat,
        ),
{
    let ghost base = out@;
    let (matched, open, done) = counts;
    let active = options.query.is_some() || options.priority.is_some() || options.labels.len() > 0;
    if active {
        if let Some(ql) = query_lower {
            if matched == 0 {
                extend_str(out, "No tasks matching \"");
                extend_chars(out, ql.as_slice());
                extend_str(out, "\".\n");
            }
        }
        assert(out@ =~= base + no_match_line(options@.query, matched as nat));
        push_matches(out, use_color, matched);
    }
    let ghost mid = out@;
    push_counts(out, use_color, open, done);
    assert(out@ =~= base + list_footer(
        use_color,
        options@,
        matched as nat,
        open as nat,
        done as nat,
    ));
}

/// What `to ls` prints for this list and these filters.
pub fn render_task_list(
    todo_path: &str,
    todos: &TodoList,
    options: &ListOptions,
    use_color: bool,
) -> (r: String)
    ensures
        r@ == list_output(use_color, todo_path@, todos@, options@),
{
    let mut out: Vec<char> = Vec::new();
    let mut head = chars_of("Tasks from ");
    extend_str(&mut head, todo_path);
    push_styled(&mut out, use_color, "1;34", head.as_slice());
    extend_str(&mut out, "\n");
    let tasks = todos.tasks();
    if tasks.len() == 0 {
        extend_str(&mut out, "No tasks yet.\n");
        assert(out@ =~= list_output(use_color, todo_path@, todos@, options@));
        return string_of(out.as_slice());
    }
    let ghost p0 = out@;
    let query_lower = push_filter_header(&mut out, options, use_color);
    let ghost p1 = out@;
    let counts = push_filtered_rows(&mut out, tasks, &query_lower, options, use_color);
    let ghost p2 = out@;
    push_list_footer(&mut out, options, &query_lower, counts, use_color);
    assert(out@ =~= list_output(use_color, todo_path@, todos@, options@));
    string_of(out.as_slice())
}


// ---------------------------------------------------------------------------
// Showing one task and its subtasks, and the next task
// ---------------------------------------------------------------------------

/// The rows of the tasks at positions `a..b`.
pub open spec fn rows_between(use_color: bool, ts: Seq<TaskView>, a: int, b: int) -> Seq<char>
    decreases b - a,
{
    if b <= a {
        seq![]
    } else {
        rows_between(use_color, ts, a, b - 1) + task_row(use_color, b as nat, ts[b - 1])
    }
}

/// What `to tree` prints: the rows of task number `index` and its subtree.
pub fn render_tree(todos: &TodoList, index: usize, use_color: bool) -> (r: Result<String, AppError>)
    ensures
        match r {
            Ok(s) => valid_index(index, todos@.len()) && s@ == rows_between(
                use_color,
                todos@,
                index - 1,
                subtree_end(todos@, index - 1),
            ),
            Err(e) => !valid_index(index, todos@.len()) && e@ == index_error(index, todos@.len()),
        },
{
    let sub = todos.subtree(index)?;
    let n = todos.tasks().len();
    let ghost a = index - 1;
    let ghost ts = todos@;
    let mut out: Vec<char> = Vec::new();
    let mut k: usize = 0;
    proof {
        lemma_first_not_deeper(ts, ts[a].indent, a + 1);
        assert(tasks_view(sub@).len() == sub@.len());
    }
    assert(out@ =~= rows_between(use_color, ts, a, a));
    while k < sub.len()
        invariant
            k <= sub@.len(),
            a == index - 1,
            tasks_view(sub@) == ts.subrange(a, subtree_end(ts, a)),
            0 <= a,
            a + sub@.len() == subtree_end(ts, a),
            subtree_end(ts, a) <= ts.len(),
            n == ts.len(),
            out@ == rows_between(use_color, ts, a, a + k),
        decreases sub@.len() - k,
    {
        assert(tasks_view(sub@)[k as int] == sub@[k as int]@);
        assert(sub@[k as int]@ == ts[a + k]);
        assert(index + k <= n);
        push_task_row(&mut out, use_color, index + k, &sub[k]);
        k = k + 1;
    }
    Ok(string_of(out.as_slice()))
}

/// What `to next` prints.
pub open spec fn next_output(use_color: bool, ts: Seq<TaskView>) -> Seq<char> {
    match first_open_from(ts, 0) {
        Some(i) => styled_spec(use_color, "33"@, "Next task:"@) + " "@ + decimal((i + 1) as nat)
            + ". "@ + ts[i].text + "\n"@,
        None => styled_spec(use_color, "32"@, "All tasks are complete."@) + "\n"@,
    }
}

/// What `to next` prints for this list.
pub fn render_next(todos: &TodoList, use_color: bool) -> (r: String)
    ensures
        r@ == next_output(use_color, todos@),
{
    let mut out: Vec<char> = Vec::new();
    match todos.next_open_task() {
        Some((index, task)) => {
            push_styled_str(&mut out, use_color, "33", "Next task:");
            extend_str(&mut out, " ");
            let d = decimal_chars(index);
            extend_chars(&mut out, d.as_slice());
            extend_str(&mut out, ". ");
            extend_str(&mut out, task.text.as_str());
            extend_str(&mut out, "\n");
        },
        None => {
            push_styled_str(&mut out, use_color, "32", "All tasks are complete.");
            extend_str(&mut out, "\n");
        },
    }
    assert(out@ =~= next_output(use_color, todos@));
    string_of(out.as_slice())
}

// ---------------------------------------------------------------------------
// Reports and changes for several tasks
// ---------------------------------------------------------------------------

/// `<verb> task <n>: <text>`, the verb styled with `code`.
pub open spec fn report_line(
    use_color: bool,
    code: Seq<char>,
    verb: Seq<char>,
    number: nat,
    text: Seq<char>,
) -> Seq<char> {
    styled_spec(use_color, code, verb) + " task "@ + decimal(number) + ": "@ + text + "\n"@
}

/// One report line per task number, in order, with the texts of `ts`.
pub open spec fn reports(
    use_color: bool,
    code: Seq<char>,
    verb: Seq<char>,
    u: Seq<usize>,
    ts: Seq<TaskView>,
) -> Seq<char>
    decreases u.len(),
{
    if u.len() == 0 {
        seq![]
    } else {
        reports(use_color, code, verb, u.drop_last(), ts) + report_line(
            use_color,
            code,
            verb,
            u.last() as nat,
            ts[u.last() - 1].text,
        )
    }
}

/// Appends one report line.
fn push_report(
    out: &mut Vec<char>,
    use_color: bool,
    code: &str,
    verb: &str,
    number: usize,
    text: &String,
)
    ensures
        final(out)@ == old(out)@ + report_line(use_color, code@, verb@, number as nat, text@),
{
    let ghost base = out@;
    push_styled_str(out, use_color, code, verb);
    extend_str(out, " task ");
    let d = decimal_chars(number);
    extend_chars(out, d.as_slice());
    extend_str(out, ": ");
    extend_str(out, text.as_str());
    extend_str(out, "\n");
    assert(out@ =~= base + report_line(use_color, code@, verb@, number as nat, text@));
}

/// Report lines for these (valid) task numbers.
fn report_tasks(todos: &TodoList, u: &Vec<usize>, use_color: bool, code: &str, verb: &str) -> (r: Vec<
    char,
>)
    requires
        forall|j: int| 0 <= j < u@.len() ==> valid_index(#[trigger] u@[j], todos@.len()),
    ensures
        r@ == reports(use_color, code@, verb@, u@, todos@),
{
    let mut out: Vec<char> = Vec::new();
    let tasks = todos.tasks();
    let mut i: usize = 0;
    assert(u@.take(0) =~= Seq::<usize>::empty());
    while i < u.len()
        invariant
            i <= u@.len(),
            tasks_view(tasks@) == todos@,
            forall|j: int| 0 <= j < u@.len() ==> valid_index(#[trigger] u@[j], todos@.len()),
            out@ == reports(use_color, code@, verb@, u@.take(i as int), todos@),
        decreases u@.len() - i,
    {
        let n = u[i];
        assert(valid_index(u@[i as int], todos@.len()));
        assert(tasks@[n - 1]@ == todos@[n - 1]);
        push_report(&mut out, use_color, code, verb, n, &tasks[n - 1].text);
        assert(u@.take(i + 1).drop_last() =~= u@.take(i as int));
        i = i + 1;
    }
    assert(u@.take(i as int) =~= u@);
    out
}

/// `ts` with the tasks of these numbers marked done or open, in turn.
pub open spec fn set_done_all(ts: Seq<TaskView>, u: Seq<usize>, done: bool) -> Seq<TaskView>
    decreases u.len(),
{
    if u.len() == 0 {
        ts
    } else {
        set_done(set_done_all(ts, u.drop_last(), done), u.last() - 1, done)
    }
}

/// Marking tasks done or open keeps the number of tasks.
pub proof fn lemma_set_done_all_len(ts: Seq<TaskView>, u: Seq<usize>, done: bool)
    requires
        forall|j: int| 0 <= j < u.len() ==> valid_index(#[trigger] u[j], ts.len()),
    ensures
        set_done_all(ts, u, done).len() == ts.len(),
    decreases u.len(),
{
    if u.len() > 0 {
        assert forall|j: int| 0 <= j < u.drop_last().len() implies valid_index(
            #[trigger] u.drop_last()[j],
            ts.len(),
        ) by {
            assert(u.drop_last()[j] == u[j]);
        }
        lemma_set_done_all_len(ts, u.drop_last(), done);
        assert(valid_index(u.last(), ts.len()));
    }
}

/// Marks the tasks of these (valid) numbers done or open.
fn set_done_many(todos: &mut TodoList, u: &Vec<usize>, done: bool)
    requires
        forall|j: int| 0 <= j < u@.len() ==> valid_index(#[trigger] u@[j], old(todos)@.len()),
    ensures
        final(todos)@ == set_done_all(old(todos)@, u@, done),
{
    let ghost ts = todos@;
    let mut i: usize = 0;
    assert(u@.take(0) =~= Seq::<usize>::empty());
    while i < u.len()
        invariant
            i <= u@.len(),
            forall|j: int| 0 <= j < u@.len() ==> valid_index(#[trigger] u@[j], ts.len()),
            todos@ == set_done_all(ts, u@.take(i as int), done),
        decreases u@.len() - i,
    {
        proof {
            assert forall|j: int| 0 <= j < u@.take(i as int).len() implies valid_index(
                #[trigger] u@.take(i as int)[j],
                ts.len(),
            ) by {
                assert(u@.take(i as int)[j] == u@[j]);
            }
            lemma_set_done_all_len(ts, u@.take(i as int), done);
            assert(valid_index(u@[i as int], ts.len()));
        }
        if done {
            let _ = todos.mark_done(u[i]);
        } else {
            let _ = todos.mark_undone(u[i]);
        }
        assert(u@.take(i + 1).drop_last() =~= u@.take(i as int));
        i = i + 1;
    }
    assert(u@.take(i as int) =~= u@);
}

/// The tasks from position `k` on whose numbers are not in `u`.
pub open spec fn kept_from(ts: Seq<TaskView>, u: Seq<usize>, k: int) -> Seq<TaskView>
    decreases ts.len() - k,
{
    if k >= ts.len() || k < 0 {
        seq![]
    } else {
        (if u.contains((k + 1) as usize) {
            seq![]
        } else {
            seq![ts[k]]
        }) + kept_from(ts, u, k + 1)
    }
}

/// The tasks whose numbers are not in `u`, in order.
pub open spec fn without_numbers(ts: Seq<TaskView>, u: Seq<usize>) -> Seq<TaskView> {
    kept_from(ts, u, 0)
}

/// Removes the tasks of these numbers, highest number first so that the
/// numbers of the others stay put.
fn remove_many(todos: &mut TodoList, u: &Vec<usize>)
    ensures
        final(todos)@ == without_numbers(old(todos)@, u@),
{
    let ghost ts = todos@;
    let mut k = todos.tasks().len();
    assert(ts.take(k as int) =~= ts);
    assert(kept_from(ts, u@, k as int) =~= Seq::<TaskView>::empty());
    assert(todos@ =~= ts.take(k as int) + kept_from(ts, u@, k as int));
    while k > 0
        invariant
            k <= ts.len(),
            todos@ == ts.take(k as int) + kept_from(ts, u@, k as int),
        decreases k,
    {
        let ghost before = todos@;
        let ghost rest = kept_from(ts, u@, k as int);
        assert(kept_from(ts, u@, k - 1) == (if u@.contains(k as usize) {
            Seq::<TaskView>::empty()
        } else {
            seq![ts[k - 1]]
        }) + rest);
        if contains_usize(u, k) {
            let _ = todos.remove(k);
            assert(todos@ =~= ts.take(k - 1) + kept_from(ts, u@, k - 1));
        } else {
            assert(todos@ =~= ts.take(k - 1) + kept_from(ts, u@, k - 1));
        }
        k = k - 1;
    }
    assert(ts.take(0) + kept_from(ts, u@, 0) =~= kept_from(ts, u@, 0));
}


// ---------------------------------------------------------------------------
// Running a command against the task list
// ---------------------------------------------------------------------------

/// What is left to do, outside the task list, once a command has run.
#[derive(Debug)]
pub enum Plan {
    /// Write the changed list back when `save` holds, then print `output`.
    Print { output: String, save: bool },
    /// Switch to `branch` when there is one, launch the coding agent with
    /// `prompt` from the project root, then print `report`.
    Launch { branch: Option<String>, prompt: String, report: String },
    /// Scan the project's tracked files for `TODO:` comments and merge them
    /// with `merge_scanned`.
    Scan,
    /// Create the `.todo` file and the agent docs.
    Init,
    /// Open the `.todo` file in the user's editor.
    Edit,
}

/// A plan as contracts see it.
pub enum PlanView {
    Print { output: Seq<char>, save: bool },
    Launch { branch: Option<Seq<char>>, prompt: Seq<char>, report: Seq<char> },
    Scan,
    Init,
    Edit,
}

impl View for Plan {
    type V = PlanView;

    open spec fn view(&self) -> PlanView {
        match self {
            Plan::Print { output, save } => PlanView::Print { output: output@, save: *save },
            Plan::Launch { branch, prompt, report } => PlanView::Launch {
                branch: opt_view(*branch),
                prompt: prompt@,
                report: report@,
            },
            Plan::Scan => PlanView::Scan,
            Plan::Init => PlanView::Init,
            Plan::Edit => PlanView::Edit,
        }
    }
}

/// `Added task <n>: <task with its tags>`.
pub open spec fn added_line(use_color: bool, number: nat, t: TaskView) -> Seq<char> {
    styled_spec(use_color, "36"@, "Added"@) + " task "@ + decimal(number) + ": "@ + render_task(t)
        + "\n"@
}

/// What adding a task does: the report and the new list.
pub open spec fn add_spec(
    use_color: bool,
    ts: Seq<TaskView>,
    text: Seq<char>,
    parent: Option<usize>,
    priority: Option<crate::todo::Priority>,
    labels: Seq<Seq<char>>,
) -> Result<(PlanView, Seq<TaskView>), ErrorView> {
    match parent {
        None => match new_task_spec(text, 0, priority, labels) {
            Ok(t) => Ok(
                (
                    PlanView::Print { output: added_line(use_color, ts.len() + 1, t), save: true },
                    ts.push(t),
                ),
            ),
            Err(e) => Err(e),
        },
        Some(p) => if !valid_index(p, ts.len()) {
            Err(index_error(p, ts.len()))
        } else {
            match new_task_spec(text, ts[p - 1].indent + 1, priority, labels) {
                Ok(t) => {
                    let at = subtree_end(ts, p - 1);
                    Ok(
                        (
                            PlanView::Print {
                                output: added_line(use_color, (at + 1) as nat, t),
                                save: true,
                            },
                            ts.insert(at, t),
                        ),
                    )
                },
                Err(e) => Err(e),
            }
        },
    }
}

/// The branch `to do` switches to: the one named, else the generated one
/// when asked for.
pub open spec fn do_branch(
    u: Seq<usize>,
    ts: Seq<TaskView>,
    branch_name: Option<Seq<char>>,
    create_branch: bool,
) -> Option<Seq<char>> {
    match branch_name {
        Some(b) => Some(b),
        None => if create_branch {
            Some(auto_branch(u, ts))
        } else {
            None
        },
    }
}

/// `Moved task <from> to <number>: <text>`.
pub open spec fn moved_line(use_color: bool, from: nat, number: nat, text: Seq<char>) -> Seq<char> {
    styled_spec(use_color, "36"@, "Moved"@) + " task "@ + decimal(from) + " to "@ + decimal(number)
        + ": "@ + text + "\n"@
}

/// Whether the task at position `i` is done and so is every task nested
/// under it: `to prune` removes it.
pub open spec fn prunable(ts: Seq<TaskView>, i: int) -> bool {
    forall|k: int| i <= k < subtree_end(ts, i) ==> #[trigger] ts[k].done
}

/// The numbers, in order, of the prunable tasks among the first `n`.
pub open spec fn prunable_before(ts: Seq<TaskView>, n: int) -> Seq<usize>
    decreases n,
{
    if n <= 0 {
        seq![]
    } else {
        prunable_before(ts, n - 1) + if prunable(ts, n - 1) {
            seq![n as usize]
        } else {
            seq![]
        }
    }
}

/// What `to prune` prints: a removal line per pruned task, or that there
/// was nothing to prune.
pub open spec fn prune_report(use_color: bool, u: Seq<usize>, ts: Seq<TaskView>) -> Seq<char> {
    if u.len() == 0 {
        "No completed tasks to prune.\n"@
    } else {
        reports(use_color, "31"@, "Removed"@, u, ts)
    }
}

/// What a command does to the list `ts` kept at `path`: what is left to do
/// and the list afterwards, or the error it stops with.
pub open spec fn plan_spec(c: CommandView, ts: Seq<TaskView>, path: Seq<char>, use_color: bool) -> Result<
    (PlanView, Seq<TaskView>),
    ErrorView,
> {
    match c {
        CommandView::Help => Ok((PlanView::Print { output: HELP_TEXT@, save: false }, ts)),
        CommandView::Init => Ok((PlanView::Init, ts)),
        CommandView::Scan => Ok((PlanView::Scan, ts)),
        CommandView::List(o) => Ok(
            (PlanView::Print { output: list_output(use_color, path, ts, o), save: false }, ts),
        ),
        CommandView::Next => Ok(
            (PlanView::Print { output: next_output(use_color, ts), save: false }, ts),
        ),
        CommandView::Tree(i) => if valid_index(i, ts.len()) {
            Ok(
                (
                    PlanView::Print {
                        output: rows_between(use_color, ts, i - 1, subtree_end(ts, i - 1)),
                        save: false,
                    },
                    ts,
                ),
            )
        } else {
            Err(index_error(i, ts.len()))
        },
        CommandView::Add { text, parent, priority, labels } => add_spec(
            use_color,
            ts,
            text,
            parent,
            priority,
            labels,
        ),
        CommandView::Done(u) => match validate_spec(u, ts.len()) {
            Ok(v) => Ok(
                (
                    PlanView::Print {
                        output: reports(use_color, "32"@, "Completed"@, v, ts),
                        save: true,
                    },
                    set_done_all(ts, v, true),
                ),
            ),
            Err(e) => Err(e),
        },
        CommandView::Uncheck(u) => match validate_spec(u, ts.len()) {
            Ok(v) => Ok(
                (
                    PlanView::Print {
                        output: reports(use_color, "33"@, "Unchecked"@, v, ts),
                        save: true,
                    },
                    set_done_all(ts, v, false),
                ),
            ),
            Err(e) => Err(e),
        },
        CommandView::Remove(u) => match validate_spec(u, ts.len()) {
            Ok(v) => Ok(
                (
                    PlanView::Print {
                        output: reports(use_color, "31"@, "Removed"@, v, ts),
                        save: true,
                    },
                    without_numbers(ts, v),
                ),
            ),
            Err(e) => Err(e),
        },
        CommandView::Do { indices, branch_name, create_branch } => match validate_spec(
            indices,
            ts.len(),
        ) {
            Ok(v) => Ok(
                (
                    PlanView::Launch {
                        branch: do_branch(v, ts, branch_name, create_branch),
                        prompt: prompt_spec(v),
                        report: reports(use_color, "34"@, "Spawned agent for"@, v, ts),
                    },
                    ts,
                ),
            ),
            Err(e) => Err(e),
        },
        CommandView::Edit => Ok((PlanView::Edit, ts)),
        CommandView::Move { from, to } => match move_spec(ts, from, to) {
            Ok(moved) => Ok(
                (
                    PlanView::Print {
                        output: moved_line(
                            use_color,
                            from as nat,
                            (move_target(ts, from, to) + 1) as nat,
                            ts[from - 1].text,
                        ),
                        save: true,
                    },
                    moved,
                ),
            ),
            Err(e) => Err(e),
        },
        CommandView::Prune => {
            let v = prunable_before(ts, ts.len() as int);
            Ok(
                (
                    PlanView::Print { output: prune_report(use_color, v, ts), save: v.len() > 0 },
                    without_numbers(ts, v),
                ),
            )
        },
    }
}

/// The nesting level of a new subtask fits in a `usize`.
pub open spec fn add_parent_fits(c: CommandView, ts: Seq<TaskView>) -> bool {
    match c {
        CommandView::Add { parent: Some(p), .. } => valid_index(p, ts.len()) ==> ts[p - 1].indent
            < usize::MAX,
        _ => true,
    }
}

/// Numbers that `validate_spec` accepts are all task numbers.
pub proof fn lemma_validated(indices: Seq<usize>, len: nat)
    ensures
        validate_spec(indices, len) matches Ok(v) ==> forall|j: int|
            0 <= j < v.len() ==> valid_index(#[trigger] v[j], len),
{
    lemma_first_invalid(unique_spec(indices), len);
}

/// The report for a task just added as number `number`.
fn added_report(todos: &TodoList, number: usize, use_color: bool) -> (r: String)
    requires
        1 <= number <= todos@.len(),
    ensures
        r@ == added_line(use_color, number as nat, todos@[number - 1]),
{
    let tasks = todos.tasks();
    assert(tasks@[number - 1]@ == todos@[number - 1]);
    let shown = tasks[number - 1].render_text();
    let mut out: Vec<char> = Vec::new();
    push_styled_str(&mut out, use_color, "36", "Added");
    extend_str(&mut out, " task ");
    let d = decimal_chars(number);
    extend_chars(&mut out, d.as_slice());
    extend_str(&mut out, ": ");
    extend_str(&mut out, shown.as_str());
    extend_str(&mut out, "\n");
    assert(out@ =~= added_line(use_color, number as nat, todos@[number - 1]));
    string_of(out.as_slice())
}

/// The numbers of the tasks that `to prune` removes, in order.
fn prunable_numbers(todos: &TodoList) -> (r: Vec<usize>)
    ensures
        r@ == prunable_before(todos@, (todos@.len() as int)),
        forall|j: int| 0 <= j < r@.len() ==> valid_index(#[trigger] r@[j], todos@.len()),
{
    let n = todos.tasks().len();
    let mut r: Vec<usize> = Vec::new();
    let mut i: usize = 0;
    while i < n
        invariant
            i <= n,
            n == todos@.len(),
            r@ == prunable_before(todos@, i as int),
            forall|j: int| 0 <= j < r@.len() ==> valid_index(#[trigger] r@[j], todos@.len()),
            forall|j: int| 0 <= j < r@.len() ==> r@[j] <= i,
        decreases n - i,
    {
        let sub = match todos.subtree(i + 1) {
            Ok(sub) => sub,
            Err(_) => {
                return r;
            },
        };
        let ghost e = subtree_end(todos@, i as int);
        proof {
            lemma_first_not_deeper(todos@, todos@[i as int].indent, i + 1);
            assert(tasks_view(sub@).len() == sub@.len());
        }
        let mut all_done = true;
        let mut k: usize = 0;
        while k < sub.len()
            invariant
                k <= sub@.len(),
                tasks_view(sub@) == todos@.subrange(i as int, e),
                sub@.len() == e - i,
                i < e <= todos@.len(),
                all_done == forall|m: int| i <= m < i + k ==> #[trigger] todos@[m].done,
            decreases sub@.len() - k,
        {
            assert(tasks_view(sub@)[k as int] == sub@[k as int]@);
            assert(todos@[i + k] == tasks_view(sub@)[k as int]);
            let ghost was = all_done;
            if !sub[k].done {
                all_done = false;
            }
            proof {
                if all_done {
                    assert forall|m: int| i <= m < i + k + 1 implies #[trigger] todos@[m].done by {
                        if m < i + k {
                            assert(was);
                        }
                    }
                } else if !todos@[i + k].done {
                    assert(!todos@[i + k].done);
                } else {
                    assert(!was);
                    let m = choose|m: int| i <= m < i + k && !#[trigger] todos@[m].done;
                    assert(!todos@[m].done);
                }
            }
            k = k + 1;
        }
        assert(all_done == prunable(todos@, i as int));
        let ghost before = r@;
        if all_done {
            r.push(i + 1);
        }
        assert(r@ =~= prunable_before(todos@, i + 1));
        i = i + 1;
    }
    r
}

/// Runs a command against the list kept at `todo_path`: changes the list as
/// the command asks and returns what is left to do outside it. On an error
/// the list is left as it was.
pub fn plan(command: &Command, todos: &mut TodoList, todo_path: &str, use_color: bool) -> (r: Result<
    Plan,
    AppError,
>)
    requires
        add_parent_fits(command@, old(todos)@),
    ensures
        match plan_spec(command@, old(todos)@, todo_path@, use_color) {
            Ok((p, ts)) => r matches Ok(q) && q@ == p && final(todos)@ == ts,
            Err(e) => r matches Err(x) && x@ == e && final(todos)@ == old(todos)@,
        },
{
    match command {
        Command::Help => {
            let text = chars_of(HELP_TEXT);
            Ok(Plan::Print { output: string_of(text.as_slice()), save: false })
        },
        Command::Init => Ok(Plan::Init),
        Command::Scan => Ok(Plan::Scan),
        Command::List(options) => {
            let output = render_task_list(todo_path, todos, options, use_color);
            Ok(Plan::Print { output, save: false })
        },
        Command::Next => Ok(Plan::Print { output: render_next(todos, use_color), save: false }),
        Command::Tree(index) => {
            let output = render_tree(todos, *index, use_color)?;
            Ok(Plan::Print { output, save: false })
        },
        Command::Add { text, parent, priority, labels } => {
            let ghost given = *labels;
            let labels = labels.clone();
            assert(labels@ =~= given@);
            let ghost ts = todos@;
            match parent {
                None => {
                    let number = todos.add_with_metadata(text.clone(), *priority, labels)?;
                    let output = added_report(todos, number, use_color);
                    Ok(Plan::Print { output, save: true })
                },
                Some(p) => {
                    proof {
                        if valid_index(*p, ts.len()) {
                            lemma_first_not_deeper(ts, ts[p - 1].indent, *p as int);
                        }
                    }
                    let number = todos.add_child_with_metadata(*p, text.clone(), *priority, labels)?;
                    let output = added_report(todos, number, use_color);
                    Ok(Plan::Print { output, save: true })
                },
            }
        },
        Command::Done(indices) => {
            let v = validate_task_indices(todos, indices.as_slice())?;
            proof {
                lemma_validated(indices@, todos@.len());
            }
            let out = report_tasks(todos, &v, use_color, "32", "Completed");
            set_done_many(todos, &v, true);
            Ok(Plan::Print { output: string_of(out.as_slice()), save: true })
        },
        Command::Uncheck(indices) => {
            let v = validate_task_indices(todos, indices.as_slice())?;
            proof {
                lemma_validated(indices@, todos@.len());
            }
            let out = report_tasks(todos, &v, use_color, "33", "Unchecked");
            set_done_many(todos, &v, false);
            Ok(Plan::Print { output: string_of(out.as_slice()), save: true })
        },
        Command::Remove(indices) => {
            let v = validate_task_indices(todos, indices.as_slice())?;
            proof {
                lemma_validated(indices@, todos@.len());
            }
            let out = report_tasks(todos, &v, use_color, "31", "Removed");
            remove_many(todos, &v);
            Ok(Plan::Print { output: string_of(out.as_slice()), save: true })
        },
        Command::Do { indices, branch_name, create_branch } => {
            let v = validate_task_indices(todos, indices.as_slice())?;
            proof {
                lemma_validated(indices@, todos@.len());
            }
            let prompt = build_opencode_prompt(v.as_slice());
            let branch = match branch_name {
                Some(b) => Some(b.clone()),
                None => if *create_branch {
                    Some(auto_branch_name(todos, v.as_slice()))
                } else {
                    None
                },
            };
            let out = report_tasks(todos, &v, use_color, "34", "Spawned agent for");
            Ok(Plan::Launch { branch, prompt, report: string_of(out.as_slice()) })
        },
        Command::Edit => Ok(Plan::Edit),
        Command::Move { from, to } => {
            let ghost ts = todos@;
            let number = todos.move_task(*from, *to)?;
            proof {
                let a = from - 1;
                lemma_first_not_deeper(ts, ts[a].indent, a + 1);
                let rest = without_block(ts, a, subtree_end(ts, a));
                let at = move_target(ts, *from, *to);
                assert(todos@ == rest.take(at) + ts.subrange(a, subtree_end(ts, a)) + rest.skip(at));
                assert(todos@[at] == ts[a]);
            }
            let tasks = todos.tasks();
            assert(tasks@[number - 1]@ == todos@[number - 1]);
            let mut out: Vec<char> = Vec::new();
            push_styled_str(&mut out, use_color, "36", "Moved");
            extend_str(&mut out, " task ");
            let d = decimal_chars(*from);
            extend_chars(&mut out, d.as_slice());
            extend_str(&mut out, " to ");
            let d = decimal_chars(number);
            extend_chars(&mut out, d.as_slice());
            extend_str(&mut out, ": ");
            extend_str(&mut out, tasks[number - 1].text.as_str());
            extend_str(&mut out, "\n");
            Ok(Plan::Print { output: string_of(out.as_slice()), save: true })
        },
        Command::Prune => {
            let v = prunable_numbers(todos);
            let out = if v.len() == 0 {
                let mut o: Vec<char> = Vec::new();
                extend_str(&mut o, "No completed tasks to prune.\n");
                o
            } else {
                report_tasks(todos, &v, use_color, "31", "Removed")
            };
            remove_many(todos, &v);
            Ok(Plan::Print { output: string_of(out.as_slice()), save: v.len() > 0 })
        },
    }
}

// ---------------------------------------------------------------------------
// Merging scanned `TODO:` comments
// ---------------------------------------------------------------------------

/// The texts of the tasks, in order.
pub open spec fn texts(ts: Seq<TaskView>) -> Seq<Seq<char>> {
    ts.map_values(|t: TaskView| t.text)
}

/// The list after adding, in order, each scanned comment of `s` not among
/// `seen` nor equal to an earlier one as a new open top-level task; the
/// first that cannot be a task gives the error.
pub open spec fn merge_from(ts: Seq<TaskView>, seen: Seq<Seq<char>>, s: Seq<Seq<char>>) -> Result<
    Seq<TaskView>,
    ErrorView,
>
    decreases s.len(),
{
    if s.len() == 0 {
        Ok(ts)
    } else if seen.contains(s[0]) {
        merge_from(ts, seen, s.drop_first())
    } else {
        match new_task_spec(s[0], 0, None, seq![]) {
            Ok(t) => merge_from(ts.push(t), seen.push(s[0]), s.drop_first()),
            Err(e) => Err(e),
        }
    }
}

/// What `to scan` prints after adding `added` tasks.
pub open spec fn scan_report(use_color: bool, added: nat) -> Seq<char> {
    if added == 0 {
        "No new TODO comments found in git-tracked files.\n"@
    } else {
        styled_spec(use_color, "36"@, "Added"@) + " "@ + decimal(added) + " task"@ + (if added == 1 {
            Seq::<char>::empty()
        } else {
            "s"@
        }) + " from git-tracked TODO comments.\n"@
    }
}

/// What merging the scanned comments does to the list `ts`: the report and
/// the list afterwards, which is saved only when something was added.
pub open spec fn merge_spec(ts: Seq<TaskView>, scanned: Seq<Seq<char>>, use_color: bool) -> Result<
    (PlanView, Seq<TaskView>),
    ErrorView,
> {
    match merge_from(ts, texts(ts), scanned) {
        Ok(merged) => {
            let added = (merged.len() - ts.len()) as nat;
            Ok((PlanView::Print { output: scan_report(use_color, added), save: added > 0 }, merged))
        },
        Err(e) => Err(e),
    }
}

/// The texts of the tasks of the list, as strings.
fn task_texts(todos: &TodoList) -> (r: Vec<String>)
    ensures
        strings_view(r@) == texts(todos@),
{
    let tasks = todos.tasks();
    let mut r: Vec<String> = Vec::new();
    let mut i: usize = 0;
    while i < tasks.len()
        invariant
            i <= tasks@.len(),
            tasks_view(tasks@) == todos@,
            strings_view(r@) == texts(todos@.take(i as int)),
        decreases tasks@.len() - i,
    {
        assert(tasks@[i as int]@ == todos@[i as int]);
        r.push(tasks[i].text.clone());
        assert(texts(todos@.take(i + 1)) =~= texts(todos@.take(i as int)).push(todos@[i as int].text));
        assert(strings_view(r@) =~= texts(todos@.take(i + 1)));
        i = i + 1;
    }
    assert(todos@.take(i as int) =~= todos@);
    r
}

/// Adds the `TODO:` comments found by a scan that the list does not hold
/// yet (compared with the tasks' texts and with each other) as open
/// top-level tasks, in the order found, and returns the report to print.
pub fn merge_scanned(todos: &mut TodoList, scanned: &[String], use_color: bool) -> (r: Result<
    Plan,
    AppError,
>)
    ensures
        match merge_spec(old(todos)@, strings_view(scanned@), use_color) {
            Ok((p, ts)) => r matches Ok(q) && q@ == p && final(todos)@ == ts,
            Err(e) => r matches Err(x) && x@ == e,
        },
{
    let ghost ts0 = todos@;
    let ghost sv = strings_view(scanned@);
    let mut seen = task_texts(todos);
    let mut added: usize = 0;
    let mut i: usize = 0;
    assert(sv.skip(0) =~= sv);
    while i < scanned.len()
        invariant
            i <= scanned@.len(),
            ts0 == old(todos)@,
            sv == strings_view(scanned@),
            merge_from(ts0, texts(ts0), sv) == merge_from(
                todos@,
                strings_view(seen@),
                sv.skip(i as int),
            ),
            todos@.len() == ts0.len() + added,
        decreases scanned@.len() - i,
    {
        let ghost rest = sv.skip(i as int);
        assert(rest[0] == scanned@[i as int]@);
        assert(rest.drop_first() =~= sv.skip(i + 1));
        let s = &scanned[i];
        if !contains_string(&seen, s) {
            match todos.add(s.clone()) {
                Ok(_) => {},
                Err(e) => {
                    return Err(e);
                },
            }
            let ghost before = seen@;
            seen.push(s.clone());
            assert(strings_view(seen@) =~= strings_view(before).push(s@));
            added = added + 1;
        }
        i = i + 1;
    }
    assert(sv.skip(i as int).len() == 0);
    let mut out: Vec<char> = Vec::new();
    if added == 0 {
        extend_str(&mut out, "No new TODO comments found in git-tracked files.\n");
    } else {
        push_styled_str(&mut out, use_color, "36", "Added");
        extend_str(&mut out, " ");
        let d = decimal_chars(added);
        extend_chars(&mut out, d.as_slice());
        extend_str(&mut out, " task");
        if added != 1 {
            extend_str(&mut out, "s");
        }
        extend_str(&mut out, " from git-tracked TODO comments.\n");
    }
    assert(out@ =~= scan_report(use_color, added as nat));
    Ok(Plan::Print { output: string_of(out.as_slice()), save: added > 0 })
}

} // verus!
