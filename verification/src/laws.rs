//! What holds across the commands: what one command undoes of another,
//! what running a command twice changes, and where new subtasks go.
use vstd::prelude::*;

use crate::cli::{CommandView, ListOptionsView};
use crate::commands::{
    count_filtered, filtered_rows, matches_filters, prunable, prunable_before, rows_between,
    task_row, first_invalid, kept_from, lemma_validated, merge_from, merge_spec, plan_spec,
    scan_report, set_done_all, texts, unique_spec, validate_spec, without_numbers, PlanView,
};
use crate::error::ErrorView;
use crate::scan::{scan_entry, scan_lines, TODO_MARKER};
use crate::text::{
    ascii_lower, find_from, has_substring, trim_end, unicode_lower, lemma_trim_end_noop, lemma_trim_idempotent, lemma_trim_start_noop, trim,
};
use crate::todo::{
    first_not_deeper, first_open_from, leading_spaces, lemma_first_not_deeper, lemma_first_open, parse_line_spec, new_task_spec, parse_priority_spec, priority_named, priority_word,
    set_done, subtree_end, valid_index, Priority, TaskView,
};

verus! {

/// Whether number `k + 1` is among `u`.
pub open spec fn numbered(u: Seq<usize>, k: int) -> bool {
    exists|j: int| 0 <= j < u.len() && u[j] == k + 1
}

/// Each task of `set_done_all(ts, u, done)`: marked `done` when its number is
/// in `u`, else as it was.
pub proof fn lemma_set_done_all_at(ts: Seq<TaskView>, u: Seq<usize>, done: bool)
    requires
        forall|j: int| 0 <= j < u.len() ==> valid_index(#[trigger] u[j], ts.len()),
    ensures
        set_done_all(ts, u, done).len() == ts.len(),
        forall|k: int|
            0 <= k < ts.len() ==> #[trigger] set_done_all(ts, u, done)[k] == (if numbered(u, k) {
                TaskView { done, ..ts[k] }
            } else {
                ts[k]
            }),
    decreases u.len(),
{
    if u.len() > 0 {
        let w = u.drop_last();
        assert forall|j: int| 0 <= j < w.len() implies valid_index(#[trigger] w[j], ts.len()) by {
            assert(w[j] == u[j]);
        }
        lemma_set_done_all_at(ts, w, done);
        let prev = set_done_all(ts, w, done);
        let i = u.last() - 1;
        assert(valid_index(u.last(), ts.len()));
        assert forall|k: int| 0 <= k < ts.len() implies #[trigger] set_done_all(ts, u, done)[k]
            == (if numbered(u, k) {
            TaskView { done, ..ts[k] }
        } else {
            ts[k]
        }) by {
            assert(set_done_all(ts, u, done) == set_done(prev, i, done));
            if numbered(u, k) {
                if !numbered(w, k) {
                    let j = choose|j: int| 0 <= j < u.len() && u[j] == k + 1;
                    if j < w.len() {
                        assert(w[j] == u[j]);
                    }
                    assert(k == i);
                }
            } else {
                if numbered(w, k) {
                    let j = choose|j: int| 0 <= j < w.len() && w[j] == k + 1;
                    assert(u[j] == w[j]);
                }
                assert(u[u.len() - 1] == u.last());
                assert(k != i);
            }
        }
    }
}

/// `to uncheck` undoes `to done`: marking tasks that were open done and
/// then unchecking the same numbers gives back the list as it was.
pub proof fn law_uncheck_undoes_done(
    ts: Seq<TaskView>,
    numbers: Seq<usize>,
    path: Seq<char>,
    use_color: bool,
)
    requires
        forall|j: int|
            0 <= j < numbers.len() && valid_index(#[trigger] numbers[j], ts.len()) ==> !ts[numbers[j]
                - 1].done,
    ensures
        plan_spec(CommandView::Done(numbers), ts, path, use_color) matches Ok((_, marked))
            ==> plan_spec(CommandView::Uncheck(numbers), marked, path, use_color) matches Ok(
            (_, restored),
        ) && restored == ts,
{
    lemma_validated(numbers, ts.len());
    if let Ok(v) = validate_spec(numbers, ts.len()) {
        lemma_set_done_all_at(ts, v, true);
        let marked = set_done_all(ts, v, true);
        lemma_set_done_all_at(marked, v, false);
        let restored = set_done_all(marked, v, false);
        assert forall|k: int| 0 <= k < ts.len() implies #[trigger] restored[k] == ts[k] by {
            assert(restored[k] == (if numbered(v, k) {
                TaskView { done: false, ..marked[k] }
            } else {
                marked[k]
            }));
            assert(marked[k] == (if numbered(v, k) {
                TaskView { done: true, ..ts[k] }
            } else {
                ts[k]
            }));
            if numbered(v, k) {
                let jv = choose|j: int| 0 <= j < v.len() && v[j] == k + 1;
                lemma_unique_spec(numbers);
                assert(v.contains(v[jv]));
                assert(numbers.contains(v[jv]));
                let j = choose|j: int| 0 <= j < numbers.len() && numbers[j] == v[jv];
                assert(valid_index(v[jv], ts.len()));
                assert(valid_index(numbers[j], ts.len()));
                assert(!ts[k].done);
            }
        }
        assert(restored =~= ts);
    }
}

/// `to done` is idempotent: marking the same tasks done again changes
/// nothing more.
pub proof fn law_done_idempotent(ts: Seq<TaskView>, numbers: Seq<usize>, path: Seq<char>, use_color: bool)
    ensures
        plan_spec(CommandView::Done(numbers), ts, path, use_color) matches Ok((_, marked))
            ==> plan_spec(CommandView::Done(numbers), marked, path, use_color) matches Ok(
            (_, again),
        ) && again == marked,
{
    lemma_validated(numbers, ts.len());
    if let Ok(v) = validate_spec(numbers, ts.len()) {
        lemma_set_done_all_at(ts, v, true);
        let marked = set_done_all(ts, v, true);
        lemma_set_done_all_at(marked, v, true);
        let again = set_done_all(marked, v, true);
        assert forall|k: int| 0 <= k < ts.len() implies #[trigger] again[k] == marked[k] by {
            assert(again[k] == (if numbered(v, k) {
                TaskView { done: true, ..marked[k] }
            } else {
                marked[k]
            }));
        }
        assert(again =~= marked);
    }
}

/// The task numbers a command acts on are those given, each once.
pub proof fn lemma_unique_spec(s: Seq<usize>)
    ensures
        forall|i: int, j: int|
            0 <= i < j < unique_spec(s).len() ==> unique_spec(s)[i] != unique_spec(s)[j],
        forall|x: usize| unique_spec(s).contains(x) <==> s.contains(x),
    decreases s.len(),
{
    if s.len() > 0 {
        let w = s.drop_last();
        lemma_unique_spec(w);
        let u = unique_spec(w);
        assert(s =~= w.push(s.last()));
        assert forall|x: usize| unique_spec(s).contains(x) <==> s.contains(x) by {
            if s.contains(x) && !w.contains(x) {
                let j = choose|j: int| 0 <= j < s.len() && s[j] == x;
                if j < w.len() {
                    assert(w[j] == s[j]);
                }
                assert(x == s.last());
                if !u.contains(s.last()) {
                    assert(unique_spec(s)[u.len() as int] == x);
                }
            }
            if w.contains(x) {
                let j = choose|j: int| 0 <= j < w.len() && w[j] == x;
                assert(s[j] == w[j]);
            }
            if unique_spec(s).contains(x) && !u.contains(x) {
                let j = choose|j: int| 0 <= j < unique_spec(s).len() && unique_spec(s)[j] == x;
                if j < u.len() {
                    assert(unique_spec(s)[j] == u[j]);
                }
                assert(s[s.len() - 1] == x);
            }
            if u.contains(x) {
                let j = choose|j: int| 0 <= j < u.len() && u[j] == x;
                assert(unique_spec(s)[j] == u[j]);
            }
        }
    }
}

/// What is kept from position `k` on when only task number `m` goes.
proof fn lemma_kept_from_one(s: Seq<TaskView>, m: usize, k: int)
    requires
        1 <= m <= s.len(),
        s.len() <= usize::MAX,
        0 <= k <= s.len(),
    ensures
        kept_from(s, seq![m], k) == (if k < m {
            s.subrange(k, m - 1) + s.skip(m as int)
        } else {
            s.skip(k)
        }),
    decreases s.len() - k,
{
    if k < s.len() {
        lemma_kept_from_one(s, m, k + 1);
        let u = seq![m];
        assert(u.contains((k + 1) as usize) <==> k + 1 == m) by {
            if u.contains((k + 1) as usize) {
                assert(u[0] == m);
            }
            if k + 1 == m {
                assert(u[0] == (k + 1) as usize);
            }
        }
        if k + 1 < m {
            assert(seq![s[k]] + (s.subrange(k + 1, m - 1) + s.skip(m as int)) =~= s.subrange(
                k,
                m - 1,
            ) + s.skip(m as int));
        } else if k + 1 == m {
            assert(s.subrange(k, m - 1) + s.skip(m as int) =~= s.skip(k + 1));
        } else {
            assert(seq![s[k]] + s.skip(k + 1) =~= s.skip(k));
        }
    } else {
        assert(s.skip(k) =~= Seq::<TaskView>::empty());
    }
}

/// Removing only task number `m` drops that task and keeps the rest.
pub proof fn lemma_without_one(s: Seq<TaskView>, m: usize)
    requires
        1 <= m <= s.len(),
        s.len() <= usize::MAX,
    ensures
        without_numbers(s, seq![m]) == s.remove(m - 1),
{
    lemma_kept_from_one(s, m, 0);
    assert(s.subrange(0, m - 1) + s.skip(m as int) =~= s.remove(m - 1));
}

/// The number `to add` gives the new task: the next number for a
/// top-level task, the number after its parent's subtree for a subtask.
pub open spec fn new_task_number(ts: Seq<TaskView>, parent: Option<usize>) -> int {
    match parent {
        None => ts.len() + 1int,
        Some(p) => subtree_end(ts, p - 1) + 1,
    }
}

/// `to rm` of the number that `to add` reported undoes the add: the list is
/// as it was before.
#[verifier::rlimit(40)]
pub proof fn law_remove_undoes_add(
    ts: Seq<TaskView>,
    text: Seq<char>,
    parent: Option<usize>,
    priority: Option<Priority>,
    labels: Seq<Seq<char>>,
    path: Seq<char>,
    use_color: bool,
)
    requires
        ts.len() < usize::MAX,
    ensures
        plan_spec(CommandView::Add { text, parent, priority, labels }, ts, path, use_color) matches Ok(
            (_, added),
        ) ==> plan_spec(
            CommandView::Remove(seq![new_task_number(ts, parent) as usize]),
            added,
            path,
            use_color,
        ) matches Ok((_, back)) && back == ts,
{
    let c = CommandView::Add { text, parent, priority, labels };
    if let Ok((_, added)) = plan_spec(c, ts, path, use_color) {
        let n = new_task_number(ts, parent);
        let at = n - 1;
        match parent {
            None => {
                assert(added == ts.push(added[at]));
            },
            Some(p) => {
                lemma_first_not_deeper(ts, ts[p - 1].indent, p as int);
                assert(added == ts.insert(at, added[at]));
            },
        }
        let u = seq![n as usize];
        assert(unique_spec(u) =~= u) by {
            assert(u.drop_last() =~= Seq::<usize>::empty());
            assert(unique_spec(Seq::<usize>::empty()) =~= Seq::<usize>::empty());
            assert(Seq::<usize>::empty().push(u.last()) =~= u);
        }
        assert(valid_index(u[0], added.len()));
        assert(first_invalid(u, added.len()) is None) by {
            assert(u.drop_first() =~= Seq::<usize>::empty());
            assert(first_invalid(Seq::<usize>::empty(), added.len()) is None);
        }
        assert(validate_spec(u, added.len()) == Ok::<Seq<usize>, ErrorView>(u));
        lemma_without_one(added, n as usize);
        assert(added.remove(at) =~= ts);
    }
}

/// `first_not_deeper` is the end of a run of deeper tasks.
proof fn lemma_first_not_deeper_is(ts: Seq<TaskView>, indent: nat, j: int, e: int)
    requires
        0 <= j <= e <= ts.len(),
        forall|k: int| j <= k < e ==> #[trigger] ts[k].indent > indent,
        e < ts.len() ==> ts[e].indent <= indent,
    ensures
        first_not_deeper(ts, indent, j) == e,
    decreases e - j,
{
    if j < e {
        lemma_first_not_deeper_is(ts, indent, j + 1, e);
    }
}

/// A subtask added under task number `p` joins its subtree, as its last
/// task: the subtree afterwards is the old one followed by the new task.
pub proof fn law_child_joins_parent_subtree(ts: Seq<TaskView>, p: usize, t: TaskView)
    requires
        valid_index(p, ts.len()),
        t.indent == ts[p - 1].indent + 1,
    ensures
        ({
            let at = subtree_end(ts, p - 1);
            let after = ts.insert(at, t);
            subtree_end(after, p - 1) == at + 1 && after.subrange(p - 1, at + 1) == ts.subrange(
                p - 1,
                at,
            ).push(t)
        }),
{
    let i = p - 1;
    let ind = ts[i].indent;
    lemma_first_not_deeper(ts, ind, i + 1);
    let at = subtree_end(ts, i);
    let after = ts.insert(at, t);
    assert(after[i] == ts[i]);
    assert forall|k: int| i + 1 <= k < at + 1 implies #[trigger] after[k].indent > ind by {
        if k < at {
            assert(after[k] == ts[k]);
        } else {
            assert(after[k] == t);
        }
    }
    if at + 1 < after.len() {
        assert(after[at + 1] == ts[at]);
    }
    lemma_first_not_deeper_is(after, ind, i + 1, at + 1);
    assert(after.subrange(i, at + 1) =~= ts.subrange(i, at).push(t));
}

/// Whether every comment is trimmed and non-empty, as a scan gives them.
pub open spec fn all_trimmed(s: Seq<Seq<char>>) -> bool {
    forall|j: int| 0 <= j < s.len() ==> trim(#[trigger] s[j]) == s[j] && s[j].len() > 0
}

/// Merging trimmed comments succeeds, keeps the old tasks in front, and
/// leaves every comment among the tasks' texts.
proof fn lemma_merge_covers(ts: Seq<TaskView>, s: Seq<Seq<char>>)
    requires
        all_trimmed(s),
    ensures
        merge_from(ts, texts(ts), s) matches Ok(merged) && merged.len() >= ts.len()
            && merged.take(ts.len() as int) == ts && forall|j: int|
            0 <= j < s.len() ==> texts(merged).contains(#[trigger] s[j]),
    decreases s.len(),
{
    if s.len() == 0 {
        assert(ts.take(ts.len() as int) =~= ts);
    } else {
        let rest = s.drop_first();
        assert forall|j: int| 0 <= j < rest.len() implies trim(#[trigger] rest[j]) == rest[j]
            && rest[j].len() > 0 by {
            assert(rest[j] == s[j + 1]);
        }
        assert(trim(s[0]) == s[0] && s[0].len() > 0);
        if texts(ts).contains(s[0]) {
            lemma_merge_covers(ts, rest);
            let merged = merge_from(ts, texts(ts), rest)->Ok_0;
            assert(merge_from(ts, texts(ts), s) == merge_from(ts, texts(ts), rest));
            let i = choose|i: int| 0 <= i < texts(ts).len() && texts(ts)[i] == s[0];
            assert(merged[i] == merged.take(ts.len() as int)[i]);
            assert(texts(merged)[i] == s[0]);
            assert forall|j: int| 0 <= j < s.len() implies texts(merged).contains(#[trigger] s[j]) by {
                if j > 0 {
                    assert(s[j] == rest[j - 1]);
                }
            }
        } else {
            let t = TaskView { done: false, text: s[0], indent: 0, priority: None, labels: seq![] };
            assert(new_task_spec(s[0], 0, None, seq![]) == Ok::<TaskView, ErrorView>(t));
            let grown = ts.push(t);
            assert(texts(grown) =~= texts(ts).push(s[0]));
            lemma_merge_covers(grown, rest);
            let merged = merge_from(grown, texts(grown), rest)->Ok_0;
            assert(merged.take(ts.len() as int) =~= merged.take(grown.len() as int).take(
                ts.len() as int,
            ));
            assert(grown.take(ts.len() as int) =~= ts);
            assert(merged[ts.len() as int] == merged.take(grown.len() as int)[ts.len() as int]);
            assert(texts(merged)[ts.len() as int] == s[0]);
            assert forall|j: int| 0 <= j < s.len() implies texts(merged).contains(#[trigger] s[j]) by {
                if j > 0 {
                    assert(s[j] == rest[j - 1]);
                }
            }
        }
    }
}

/// Comments that the list's texts all hold add nothing.
proof fn lemma_merge_known(ts: Seq<TaskView>, s: Seq<Seq<char>>)
    requires
        forall|j: int| 0 <= j < s.len() ==> texts(ts).contains(#[trigger] s[j]),
    ensures
        merge_from(ts, texts(ts), s) == Ok::<Seq<TaskView>, ErrorView>(ts),
    decreases s.len(),
{
    if s.len() > 0 {
        let rest = s.drop_first();
        assert(texts(ts).contains(s[0]));
        assert forall|j: int| 0 <= j < rest.len() implies texts(ts).contains(#[trigger] rest[j]) by {
            assert(rest[j] == s[j + 1]);
        }
        lemma_merge_known(ts, rest);
    }
}

/// `to scan` run twice adds nothing the second time: once the comments it
/// found are tasks, the same comments are all known, the report says so,
/// and the list is not saved.
pub proof fn law_scan_twice_adds_nothing(ts: Seq<TaskView>, s: Seq<Seq<char>>, use_color: bool)
    requires
        all_trimmed(s),
    ensures
        merge_spec(ts, s, use_color) matches Ok((_, merged)) && merge_spec(merged, s, use_color)
            == Ok::<(PlanView, Seq<TaskView>), ErrorView>(
            (PlanView::Print { output: scan_report(use_color, 0), save: false }, merged),
        ),
{
    lemma_merge_covers(ts, s);
    let merged = merge_from(ts, texts(ts), s)->Ok_0;
    lemma_merge_known(merged, s);
}

/// What a scan finds is trimmed and non-empty, so `law_scan_twice_adds_nothing`
/// applies to it.
pub proof fn law_scanned_entries_trimmed(ls: Seq<Seq<char>>, path: Seq<char>, first: nat)
    ensures
        all_trimmed(scan_lines(ls, path, first)),
    decreases ls.len(),
{
    reveal_strlit(")");
    if ls.len() > 0 {
        law_scanned_entries_trimmed(ls.drop_first(), path, first + 1);
        let rest = scan_lines(ls.drop_first(), path, first + 1);
        match scan_entry(ls[0], path, first) {
            Some(e) => {
                let k = find_from(ls[0], TODO_MARKER@, 0)->Some_0;
                let todo = trim(ls[0].skip(k + TODO_MARKER@.len()));
                lemma_trim_idempotent(ls[0].skip(k + TODO_MARKER@.len()));
                assert(e[0] == todo[0]);
                assert(e.last() == ')');
                lemma_trim_end_noop(e);
                lemma_trim_start_noop(e);
                assert(scan_lines(ls, path, first) == seq![e] + rest);
                assert forall|j: int| 0 <= j < scan_lines(ls, path, first).len() implies trim(
                    #[trigger] scan_lines(ls, path, first)[j],
                ) == scan_lines(ls, path, first)[j] && scan_lines(ls, path, first)[j].len() > 0 by {
                    if j > 0 {
                        assert(scan_lines(ls, path, first)[j] == rest[j - 1]);
                    }
                }
            },
            None => {
                assert(scan_lines(ls, path, first) =~= rest);
            },
        }
    }
}

/// The counts `to ls` prints add up: every listed task is open or done, so
/// the matches are the open ones and the done ones together.
pub proof fn law_list_counts_add_up(ts: Seq<TaskView>, o: ListOptionsView)
    ensures
        count_filtered(ts, o, None) == count_filtered(ts, o, Some(false)) + count_filtered(
            ts,
            o,
            Some(true),
        ),
    decreases ts.len(),
{
    if ts.len() > 0 {
        law_list_counts_add_up(ts.drop_last(), o);
    }
}

/// A priority's name reads back as that priority, in lower case and in
/// upper case alike.
pub proof fn law_priority_name_round_trip(p: Priority)
    ensures
        parse_priority_spec(priority_word(p)) == Ok::<Priority, ErrorView>(p),
        forall|w: Seq<char>|
            ascii_lower(w) == priority_word(p) ==> #[trigger] parse_priority_spec(w) == Ok::<
                Priority,
                ErrorView,
            >(p),
{
    reveal_strlit("high");
    reveal_strlit("h");
    reveal_strlit("medium");
    reveal_strlit("med");
    reveal_strlit("m");
    reveal_strlit("low");
    reveal_strlit("l");
    let w = priority_word(p);
    assert(ascii_lower(w) =~= w);
    assert("low"@[0] != "med"@[0]);
    assert("low"@ != "med"@);
    assert("medium"@[0] != "high"@[0]);
    assert("medium"@ != "high"@);
    assert("low"@[0] != "high"@[0]);
    assert("low"@ != "high"@);
    assert(parse_priority_spec(w) == Ok::<Priority, ErrorView>(p));
    assert forall|v: Seq<char>| ascii_lower(v) == priority_word(p) implies #[trigger] parse_priority_spec(
        v,
    ) == Ok::<Priority, ErrorView>(p) by {
        assert(priority_named(v) == priority_named(w));
    }
}

// ---------------------------------------------------------------------------
// What `to next`, `to ls`, `to prune`, `to tree` and reading markers mean
// ---------------------------------------------------------------------------

/// `to next` shows the first task that is not done, at any nesting level:
/// the position found is open and every task before it is done; none is
/// found exactly when every task is done.
pub proof fn law_next_is_first_open(ts: Seq<TaskView>)
    ensures
        first_open_from(ts, 0) matches Some(i) ==> 0 <= i < ts.len() && !ts[i].done && forall|
            j: int,
        | 0 <= j < i ==> #[trigger] ts[j].done,
        first_open_from(ts, 0) is None ==> forall|j: int| 0 <= j < ts.len() ==> #[trigger] ts[j].done,
{
    lemma_first_open(ts, 0);
}

/// A task passes the label filter only if it has every label asked for.
pub proof fn law_listed_tasks_have_every_label(t: TaskView, o: ListOptionsView)
    ensures
        matches_filters(t, o) ==> forall|j: int|
            0 <= j < o.labels.len() ==> t.labels.contains(#[trigger] o.labels[j]),
{
}

/// `to ls` lists a task exactly when its lower-cased text contains the
/// lower-cased query (if one is given), it has the priority asked for (if
/// one is given), and it has every label asked for.
pub proof fn law_list_filters(t: TaskView, o: ListOptionsView)
    ensures
        matches_filters(t, o) <==> {
            &&& (o.query matches Some(q) ==> has_substring(unicode_lower(t.text), unicode_lower(q)))
            &&& (o.priority matches Some(p) ==> t.priority == Some(p))
            &&& forall|j: int| 0 <= j < o.labels.len() ==> t.labels.contains(#[trigger] o.labels[j])
        },
{
}

/// A command on several task numbers fails with the first number, in the
/// order given, that is not a task number; with none, it acts on all.
pub proof fn law_first_bad_number_is_reported(u: Seq<usize>, len: nat)
    ensures
        first_invalid(u, len) matches Some(x) ==> exists|j: int|
            0 <= j < u.len() && u[j] == x && !valid_index(x, len) && forall|k: int|
                0 <= k < j ==> valid_index(#[trigger] u[k], len),
        first_invalid(u, len) is None ==> forall|k: int|
            0 <= k < u.len() ==> valid_index(#[trigger] u[k], len),
    decreases u.len(),
{
    if u.len() > 0 {
        let w = u.drop_first();
        law_first_bad_number_is_reported(w, len);
        if valid_index(u[0], len) {
            if let Some(x) = first_invalid(w, len) {
                let j = choose|j: int|
                    0 <= j < w.len() && w[j] == x && !valid_index(x, len) && forall|k: int|
                        0 <= k < j ==> valid_index(#[trigger] w[k], len);
                assert(u[j + 1] == x);
                assert forall|k: int| 0 <= k < j + 1 implies valid_index(#[trigger] u[k], len) by {
                    if k > 0 {
                        assert(u[k] == w[k - 1]);
                    }
                }
            } else {
                assert forall|k: int| 0 <= k < u.len() implies valid_index(#[trigger] u[k], len) by {
                    if k > 0 {
                        assert(u[k] == w[k - 1]);
                    }
                }
            }
        }
    }
}

/// When some label asked for is held by no task, `to ls` lists no task and
/// counts no match.
pub proof fn law_missing_label_lists_nothing(
    use_color: bool,
    ts: Seq<TaskView>,
    o: ListOptionsView,
    j: int,
)
    requires
        0 <= j < o.labels.len(),
        forall|k: int| 0 <= k < ts.len() ==> !(#[trigger] ts[k]).labels.contains(o.labels[j]),
    ensures
        filtered_rows(use_color, ts, o) == Seq::<char>::empty(),
        count_filtered(ts, o, None) == 0,
    decreases ts.len(),
{
    if ts.len() > 0 {
        let w = ts.drop_last();
        assert forall|k: int| 0 <= k < w.len() implies !(#[trigger] w[k]).labels.contains(
            o.labels[j],
        ) by {
            assert(w[k] == ts[k]);
        }
        law_missing_label_lists_nothing(use_color, w, o, j);
        assert(!ts[ts.len() - 1].labels.contains(o.labels[j]));
        law_listed_tasks_have_every_label(ts.last(), o);
        assert(!matches_filters(ts.last(), o));
        assert(filtered_rows(use_color, ts, o) =~= Seq::<char>::empty());
    }
}

/// Whether every task after position `i` up to and including `k` is nested
/// deeper than the task at `i`: then the one at `k` is in its subtree.
pub open spec fn nested_under(ts: Seq<TaskView>, i: int, k: int) -> bool {
    forall|m: int| i < m <= k ==> #[trigger] ts[m].indent > ts[i].indent
}

/// The subtree of the task at position `i` is the task and every task
/// after it nested deeper, at any depth: position `k` is in it exactly when
/// every task from `i + 1` to `k` is nested deeper.
pub proof fn law_subtree_is_deeper_run(ts: Seq<TaskView>, i: int, k: int)
    requires
        0 <= i <= k < ts.len(),
    ensures
        k < subtree_end(ts, i) <==> nested_under(ts, i, k),
{
    lemma_first_not_deeper(ts, ts[i].indent, i + 1);
    let e = subtree_end(ts, i);
    if k >= e {
        assert(e < ts.len());
        assert(ts[e].indent <= ts[i].indent);
        assert(!nested_under(ts, i, k)) by {
            if nested_under(ts, i, k) {
                assert(ts[e].indent > ts[i].indent);
            }
        }
    }
}

/// `to tree` rows split where a range splits: the rows of `a..b` are those
/// of `a..m` followed by those of `m..b`.
pub proof fn law_rows_split(use_color: bool, ts: Seq<TaskView>, a: int, m: int, b: int)
    requires
        a <= m <= b,
    ensures
        rows_between(use_color, ts, a, b) == rows_between(use_color, ts, a, m) + rows_between(
            use_color,
            ts,
            m,
            b,
        ),
    decreases b - m,
{
    if m < b {
        law_rows_split(use_color, ts, a, m, b - 1);
        assert(rows_between(use_color, ts, a, b) =~= rows_between(use_color, ts, a, m) + (
        rows_between(use_color, ts, m, b - 1) + task_row(use_color, b as nat, ts[b - 1])));
    } else {
        assert(rows_between(use_color, ts, m, b) =~= Seq::<char>::empty());
        assert(rows_between(use_color, ts, a, b) =~= rows_between(use_color, ts, a, m)
            + Seq::<char>::empty());
    }
}

/// `to tree` shows every task of the range, whatever its depth: the rows of
/// a one-task range are that task's row, numbered by its position.
pub proof fn law_rows_single(use_color: bool, ts: Seq<TaskView>, k: int)
    ensures
        rows_between(use_color, ts, k, k + 1) == task_row(use_color, (k + 1) as nat, ts[k]),
{
    assert(rows_between(use_color, ts, k, k) =~= Seq::<char>::empty());
    assert(Seq::<char>::empty() + task_row(use_color, (k + 1) as nat, ts[k]) =~= task_row(
        use_color,
        (k + 1) as nat,
        ts[k],
    ));
}

/// `to tree n` prints the row of every task nested under task `n`, at any
/// depth: its rows are the rows before it, its own row, and the rows after.
pub proof fn law_tree_shows_every_nested_task(use_color: bool, ts: Seq<TaskView>, i: int, k: int)
    requires
        0 <= i <= k < ts.len(),
        nested_under(ts, i, k),
    ensures
        rows_between(use_color, ts, i, subtree_end(ts, i)) == rows_between(use_color, ts, i, k)
            + task_row(use_color, (k + 1) as nat, ts[k]) + rows_between(
            use_color,
            ts,
            k + 1,
            subtree_end(ts, i),
        ),
{
    law_subtree_is_deeper_run(ts, i, k);
    let e = subtree_end(ts, i);
    law_rows_split(use_color, ts, i, k, e);
    law_rows_split(use_color, ts, k, k + 1, e);
    law_rows_single(use_color, ts, k);
    assert(rows_between(use_color, ts, i, e) =~= rows_between(use_color, ts, i, k) + task_row(
        use_color,
        (k + 1) as nat,
        ts[k],
    ) + rows_between(use_color, ts, k + 1, e));
}

/// Whether the task at position `i` is done and so is every task nested
/// under it, at any depth.
pub open spec fn done_with_all_nested(ts: Seq<TaskView>, i: int) -> bool {
    &&& ts[i].done
    &&& forall|k: int| i < k < ts.len() && nested_under(ts, i, k) ==> #[trigger] ts[k].done
}

/// The numbers `prunable_before` gives are the tasks among the first `n`
/// that `prunable` accepts.
proof fn lemma_prunable_before(ts: Seq<TaskView>, n: int)
    requires
        0 <= n <= ts.len(),
        ts.len() <= usize::MAX,
    ensures
        forall|x: usize|
            prunable_before(ts, n).contains(x) <==> 1 <= x <= n && prunable(ts, x - 1),
    decreases n,
{
    if n > 0 {
        lemma_prunable_before(ts, n - 1);
        let v = prunable_before(ts, n - 1);
        let last: Seq<usize> = if prunable(ts, n - 1) {
            seq![n as usize]
        } else {
            seq![]
        };
        assert forall|x: usize| prunable_before(ts, n).contains(x) <==> 1 <= x <= n && prunable(
            ts,
            x - 1,
        ) by {
            let w = v + last;
            assert(prunable_before(ts, n) == w);
            if w.contains(x) {
                let j = choose|j: int| 0 <= j < w.len() && w[j] == x;
                if j >= v.len() {
                    assert(w[j] == last[j - v.len()]);
                } else {
                    assert(w[j] == v[j]);
                    assert(v.contains(x));
                }
            }
            if 1 <= x <= n && prunable(ts, x - 1) {
                if x == n {
                    assert(w[v.len() as int] == x);
                } else {
                    assert(v.contains(x));
                    let j = choose|j: int| 0 <= j < v.len() && v[j] == x;
                    assert(w[j] == x);
                }
            }
        }
    }
}

/// `to prune` removes exactly the tasks that are done and have no open
/// task nested under them at any depth: task number `x` is pruned if and
/// only if it and every task in its subtree are done.
pub proof fn law_prune_removes_only_finished_subtrees(ts: Seq<TaskView>, x: usize)
    requires
        ts.len() <= usize::MAX,
    ensures
        prunable_before(ts, ts.len() as int).contains(x) <==> 1 <= x <= ts.len()
            && done_with_all_nested(ts, x - 1),
{
    lemma_prunable_before(ts, ts.len() as int);
    if 1 <= x <= ts.len() {
        let i = x - 1;
        lemma_first_not_deeper(ts, ts[i].indent, i + 1);
        let e = subtree_end(ts, i);
        if prunable(ts, i) {
            assert(ts[i].done);
            assert forall|k: int| i < k < ts.len() && nested_under(ts, i, k) implies #[trigger] ts[k].done by {
                law_subtree_is_deeper_run(ts, i, k);
            }
        }
        if done_with_all_nested(ts, i) {
            assert forall|k: int| i <= k < e implies #[trigger] ts[k].done by {
                if k > i {
                    law_subtree_is_deeper_run(ts, i, k);
                }
            }
        }
    }
}

/// Reading a task line, the marker decides whether the task is done:
/// `[x] ` and `[X] ` give a done task, `[ ] ` an open one.
pub proof fn law_marker_decides_done(line: Seq<char>, number: nat)
    ensures
        parse_line_spec(line, number) matches Some(Ok(t)) ==> {
            let body = trim_end(line).skip(leading_spaces(trim_end(line)) as int);
            &&& body.len() >= 4
            &&& body[0] == '[' && body[2] == ']' && body[3] == ' '
            &&& (body[1] == 'x' || body[1] == 'X') ==> t.done
            &&& body[1] == ' ' ==> !t.done
        },
{
}

} // verus!
