//! Laws of the `.todo` format: what reading gives back of what was written.
use vstd::prelude::*;

use crate::error::ErrorView;
use crate::text::{
    ascii_lower, is_ws, join, lemma_line_len_at, lemma_trim_end_noop, lemma_trim_start_noop,
    lemma_word_len, lemma_word_len_at, lines, lower_char, strip_cr, trim, trim_end, word_len,
    words,
};
use crate::todo::{
    clean_label_spec, indent_spaces, is_label_char, label_chars_ok, labels_suffix, leading_spaces,
    line_marker, marker_chars, metadata_scan, parse_line_spec, parse_lines, parse_metadata,
    parse_todo, priority_suffix, priority_tag, render_task, serialize_tasks, strip_hashes,
    task_line, Priority, TaskView,
};

verus! {

// ---------------------------------------------------------------------------
// Canonical lists
// ---------------------------------------------------------------------------

/// A piece of text without whitespace.
pub open spec fn no_ws(s: Seq<char>) -> bool {
    forall|j: int| 0 <= j < s.len() ==> !is_ws(#[trigger] s[j])
}

/// A word: non-empty and without whitespace.
pub open spec fn is_word(w: Seq<char>) -> bool {
    w.len() > 0 && no_ws(w)
}

/// A word that reads as a `#label` or `@priority` tag.
pub open spec fn is_tag_word(w: Seq<char>) -> bool {
    w.len() > 0 && (w[0] == '#' || w[0] == '@')
}

/// A task text as reading a file produces it: words separated by single
/// spaces, the last of which is not a tag.
pub open spec fn canonical_text(text: Seq<char>) -> bool {
    &&& words(text).len() > 0
    &&& join(words(text), seq![' ']) == text
    &&& !is_tag_word(words(text).last())
}

/// A label as cleaning produces it: non-empty, made of label characters,
/// lower case.
pub open spec fn is_clean_label(l: Seq<char>) -> bool {
    l.len() > 0 && label_chars_ok(l) && ascii_lower(l) == l
}

/// A task as reading a file produces it.
pub open spec fn canonical_task(t: TaskView) -> bool {
    &&& canonical_text(t.text)
    &&& forall|j: int| 0 <= j < t.labels.len() ==> is_clean_label(#[trigger] t.labels[j])
}

// ---------------------------------------------------------------------------
// Words
// ---------------------------------------------------------------------------

/// A word on its own is its only word.
pub proof fn lemma_words_single(w: Seq<char>)
    requires
        is_word(w),
    ensures
        words(w) == seq![w],
{
    lemma_word_len_at(w, w.len() as int);
    assert(w.take(w.len() as int) =~= w);
    assert(w.skip(w.len() as int) =~= Seq::<char>::empty());
    assert(words(Seq::<char>::empty()) =~= Seq::<Seq<char>>::empty());
}

/// A space separates the words before it from the words after it.
pub proof fn lemma_words_sep(a: Seq<char>, b: Seq<char>)
    ensures
        words(a + seq![' '] + b) == words(a) + words(b),
    decreases a.len(),
{
    let s = a + seq![' '] + b;
    if a.len() == 0 {
        assert(s[0] == ' ');
        assert(s.drop_first() =~= b);
        assert(words(a) =~= Seq::<Seq<char>>::empty());
        assert(words(s) =~= words(a) + words(b));
    } else if is_ws(a[0]) {
        assert(s[0] == a[0]);
        assert(s.drop_first() =~= a.drop_first() + seq![' '] + b);
        lemma_words_sep(a.drop_first(), b);
    } else {
        lemma_word_len(a);
        let k = word_len(a) as int;
        assert(k >= 1);
        assert forall|j: int| 0 <= j < k implies !is_ws(#[trigger] s[j]) by {
            assert(s[j] == a[j]);
        }
        if k < a.len() {
            assert(s[k] == a[k]);
        } else {
            assert(s[k] == ' ');
        }
        lemma_word_len_at(s, k);
        assert(s[0] == a[0]);
        assert(s.take(k) =~= a.take(k));
        assert(s.skip(k) =~= a.skip(k) + seq![' '] + b);
        lemma_words_sep(a.skip(k), b);
        assert(words(s) =~= words(a) + words(b));
    }
}

/// Every word of `s` is a word.
pub proof fn lemma_words_shape(s: Seq<char>)
    ensures
        forall|i: int| 0 <= i < words(s).len() ==> is_word(#[trigger] words(s)[i]),
    decreases s.len(),
{
    if s.len() == 0 {
        assert(words(s).len() == 0);
    } else if is_ws(s[0]) {
        lemma_words_shape(s.drop_first());
        assert(words(s) == words(s.drop_first()));
    } else {
        lemma_word_len(s);
        let k = word_len(s) as int;
        lemma_words_shape(s.skip(k));
        assert(words(s) == seq![s.take(k)] + words(s.skip(k)));
        let ws = words(s);
        assert forall|i: int| 0 <= i < ws.len() implies is_word(#[trigger] ws[i]) by {
            if i == 0 {
                assert(ws[0] == s.take(k));
                assert forall|j: int| 0 <= j < s.take(k).len() implies !is_ws(
                    #[trigger] s.take(k)[j],
                ) by {
                    assert(s.take(k)[j] == s[j]);
                }
            } else {
                assert(ws[i] == words(s.skip(k))[i - 1]);
            }
        }
    }
}

/// Joining words with single spaces and splitting again gives the words.
pub proof fn lemma_words_join(ws: Seq<Seq<char>>)
    requires
        forall|i: int| 0 <= i < ws.len() ==> is_word(#[trigger] ws[i]),
    ensures
        words(join(ws, seq![' '])) == ws,
    decreases ws.len(),
{
    if ws.len() == 0 {
        assert(words(Seq::<char>::empty()) =~= Seq::<Seq<char>>::empty());
    } else if ws.len() == 1 {
        assert(is_word(ws[0]));
        lemma_words_single(ws[0]);
        assert(ws =~= seq![ws[0]]);
    } else {
        let init = ws.drop_last();
        assert forall|i: int| 0 <= i < init.len() implies is_word(#[trigger] init[i]) by {
            assert(init[i] == ws[i]);
        }
        lemma_words_join(init);
        assert(is_word(ws.last()));
        lemma_words_sep(join(init, seq![' ']), ws.last());
        lemma_words_single(ws.last());
        assert(ws =~= init.push(ws.last()));
    }
}

/// The words that the tags after a task's text make.
pub open spec fn priority_words(p: Option<Priority>) -> Seq<Seq<char>> {
    match p {
        Some(p) => seq![priority_tag(p)],
        None => seq![],
    }
}

/// `#label` for each label.
pub open spec fn label_words(ls: Seq<Seq<char>>) -> Seq<Seq<char>> {
    ls.map_values(|l: Seq<char>| seq!['#'] + l)
}

/// The tags spell out their priority in letters.
pub proof fn lemma_priority_tag_shape(p: Priority)
    ensures
        is_word(priority_tag(p)),
        priority_tag(p)[0] == '@',
        crate::todo::parse_priority_spec(priority_tag(p).drop_first()) == Ok::<
            Priority,
            ErrorView,
        >(p),
        forall|j: int| 0 <= j < priority_tag(p).len() ==> #[trigger] priority_tag(p)[j] != ' ',
{
    reveal_strlit("@high");
    reveal_strlit("@medium");
    reveal_strlit("@low");
    reveal_strlit("high");
    reveal_strlit("h");
    reveal_strlit("medium");
    reveal_strlit("med");
    reveal_strlit("m");
    reveal_strlit("low");
    reveal_strlit("l");
    let t = priority_tag(p);
    let w = t.drop_first();
    match p {
        Priority::High => {
            assert(w =~= "high"@);
            assert(ascii_lower(w) =~= "high"@);
        },
        Priority::Medium => {
            assert(w =~= "medium"@);
            assert(ascii_lower(w) =~= "medium"@);
            assert("medium"@ != "high"@);
            assert("medium"@ != "h"@);
        },
        Priority::Low => {
            assert(w =~= "low"@);
            assert(ascii_lower(w) =~= "low"@);
            assert("low"@ != "high"@);
            assert("low"@ != "h"@);
            assert("low"@ != "medium"@);
            assert("low"@[0] != "med"@[0]);
            assert("low"@ != "m"@);
        },
    }
}

/// Label characters are not whitespace, `#` or `@`.
pub proof fn lemma_label_char(c: char)
    requires
        is_label_char(c),
    ensures
        !is_ws(c),
        c != '#',
        c != '@',
        c != ' ',
{
}

/// The words of a text followed by tags.
pub proof fn lemma_tagged_words(text: Seq<char>, p: Option<Priority>, ls: Seq<Seq<char>>)
    requires
        forall|j: int| 0 <= j < ls.len() ==> is_clean_label(#[trigger] ls[j]),
    ensures
        words(text + priority_suffix(p) + labels_suffix(ls)) == words(text) + priority_words(p)
            + label_words(ls),
    decreases ls.len(),
{
    if ls.len() == 0 {
        assert(labels_suffix(ls) =~= Seq::<char>::empty());
        assert(label_words(ls) =~= Seq::<Seq<char>>::empty());
        match p {
            Some(q) => {
                lemma_priority_tag_shape(q);
                assert(text + priority_suffix(p) + labels_suffix(ls) =~= text + seq![' ']
                    + priority_tag(q));
                lemma_words_sep(text, priority_tag(q));
                lemma_words_single(priority_tag(q));
            },
            None => {
                assert(text + priority_suffix(p) + labels_suffix(ls) =~= text);
                assert(priority_words(p) =~= Seq::<Seq<char>>::empty());
                assert(words(text) + priority_words(p) + label_words(ls) =~= words(text));
            },
        }
    } else {
        let init = ls.drop_last();
        let l = ls.last();
        assert forall|j: int| 0 <= j < init.len() implies is_clean_label(#[trigger] init[j]) by {
            assert(init[j] == ls[j]);
        }
        lemma_tagged_words(text, p, init);
        let x = text + priority_suffix(p) + labels_suffix(init);
        assert(text + priority_suffix(p) + labels_suffix(ls) =~= x + seq![' '] + (seq!['#']
            + l));
        lemma_words_sep(x, seq!['#'] + l);
        assert(is_clean_label(l));
        assert forall|j: int| 0 <= j < (seq!['#'] + l).len() implies !is_ws(
            #[trigger] (seq!['#'] + l)[j],
        ) by {
            if j > 0 {
                assert((seq!['#'] + l)[j] == l[j - 1]);
                lemma_label_char(l[j - 1]);
            }
        }
        lemma_words_single(seq!['#'] + l);
        assert(label_words(ls) =~= label_words(init).push(seq!['#'] + l));
    }
}

// ---------------------------------------------------------------------------
// Tags
// ---------------------------------------------------------------------------

/// A clean label cleans to itself.
pub proof fn lemma_clean_label_fixed(l: Seq<char>)
    requires
        is_clean_label(l),
    ensures
        clean_label_spec(l) == Ok::<Seq<char>, ErrorView>(l),
{
    assert forall|j: int| 0 <= j < l.len() implies !is_ws(#[trigger] l[j]) by {
        lemma_label_char(l[j]);
    }
    lemma_label_char(l[0]);
    lemma_label_char(l.last());
    lemma_trim_end_noop(l);
    lemma_trim_start_noop(l);
    assert(trim(l) == l);
    assert(strip_hashes(l) == l);
}

/// Reading label tags from the end collects the labels last first.
pub proof fn lemma_scan_labels(
    ws: Seq<Seq<char>>,
    p: Option<Priority>,
    acc: Seq<Seq<char>>,
    ls: Seq<Seq<char>>,
)
    requires
        forall|j: int| 0 <= j < ls.len() ==> is_clean_label(#[trigger] ls[j]),
    ensures
        metadata_scan(ws + label_words(ls), p, acc) == metadata_scan(ws, p, acc + ls.reverse()),
    decreases ls.len(),
{
    if ls.len() == 0 {
        assert(ws + label_words(ls) =~= ws);
        assert(acc + ls.reverse() =~= acc);
    } else {
        let init = ls.drop_last();
        let l = ls.last();
        assert forall|j: int| 0 <= j < init.len() implies is_clean_label(#[trigger] init[j]) by {
            assert(init[j] == ls[j]);
        }
        let all = ws + label_words(ls);
        assert(all.last() == seq!['#'] + l);
        assert(all.drop_last() =~= ws + label_words(init));
        assert((seq!['#'] + l).drop_first() =~= l);
        lemma_clean_label_fixed(l);
        lemma_scan_labels(ws, p, acc.push(l), init);
        assert(acc.push(l) + init.reverse() =~= acc + ls.reverse());
    }
}

/// Reading a priority tag from the end records the priority.
pub proof fn lemma_scan_priority(ws: Seq<Seq<char>>, q: Priority, acc: Seq<Seq<char>>)
    ensures
        metadata_scan(ws + seq![priority_tag(q)], None, acc) == metadata_scan(ws, Some(q), acc),
{
    lemma_priority_tag_shape(q);
    let all = ws + seq![priority_tag(q)];
    assert(all.last() == priority_tag(q));
    assert(all.drop_last() =~= ws);
}

/// The scan stops at a word that is not a tag.
pub proof fn lemma_scan_stop(ws: Seq<Seq<char>>, p: Option<Priority>, acc: Seq<Seq<char>>)
    requires
        ws.len() > 0,
        !is_tag_word(ws.last()),
    ensures
        metadata_scan(ws, p, acc) == Ok::<
            (Seq<Seq<char>>, Option<Priority>, Seq<Seq<char>>),
            ErrorView,
        >((ws, p, acc)),
{
}

/// A canonical task's rendered text reads back as its text and metadata.
pub proof fn lemma_metadata_render(t: TaskView)
    requires
        canonical_task(t),
    ensures
        parse_metadata(render_task(t)) == Ok::<
            (Seq<char>, Option<Priority>, Seq<Seq<char>>),
            ErrorView,
        >((t.text, t.priority, t.labels)),
{
    let w = words(t.text);
    lemma_tagged_words(t.text, t.priority, t.labels);
    let pw = priority_words(t.priority);
    let empty: Seq<Seq<char>> = seq![];
    lemma_scan_labels(w + pw, None, empty, t.labels);
    assert(empty + t.labels.reverse() =~= t.labels.reverse());
    let acc = t.labels.reverse();
    match t.priority {
        Some(q) => {
            lemma_scan_priority(w, q, acc);
        },
        None => {
            assert(w + pw =~= w);
        },
    }
    lemma_scan_stop(w, t.priority, acc);
    assert(acc.reverse() =~= t.labels);
}


// ---------------------------------------------------------------------------
// The shape of a task line
// ---------------------------------------------------------------------------

/// Every character is a plain space or not whitespace at all.
pub open spec fn spaced(s: Seq<char>) -> bool {
    forall|j: int| 0 <= j < s.len() ==> s[j] == ' ' || !is_ws(#[trigger] s[j])
}

/// Words joined by single spaces start and end with a word character.
pub proof fn lemma_join_shape(ws: Seq<Seq<char>>)
    requires
        ws.len() > 0,
        forall|i: int| 0 <= i < ws.len() ==> is_word(#[trigger] ws[i]),
    ensures
        spaced(join(ws, seq![' '])),
        join(ws, seq![' ']).len() > 0,
        join(ws, seq![' '])[0] == ws[0][0],
        join(ws, seq![' ']).last() == ws.last().last(),
    decreases ws.len(),
{
    assert(is_word(ws[0]));
    assert(is_word(ws.last()));
    if ws.len() == 1 {
        assert(spaced(ws[0]));
    } else {
        let init = ws.drop_last();
        assert forall|i: int| 0 <= i < init.len() implies is_word(#[trigger] init[i]) by {
            assert(init[i] == ws[i]);
        }
        lemma_join_shape(init);
        let a = join(init, seq![' ']);
        let j = a + seq![' '] + ws.last();
        assert(join(ws, seq![' ']) == j);
        assert forall|k: int| 0 <= k < j.len() implies j[k] == ' ' || !is_ws(#[trigger] j[k]) by {
            if k < a.len() {
                assert(j[k] == a[k]);
            } else if k > a.len() {
                assert(j[k] == ws.last()[k - a.len() - 1]);
            }
        }
        assert(j[0] == a[0]);
    }
}

/// A canonical text is spaced and starts and ends with a word character.
pub proof fn lemma_text_shape(text: Seq<char>)
    requires
        canonical_text(text),
    ensures
        spaced(text),
        text.len() > 0,
        !is_ws(text[0]),
        !is_ws(text.last()),
{
    lemma_words_shape(text);
    let ws = words(text);
    lemma_join_shape(ws);
    assert(is_word(ws[0]));
    assert(is_word(ws.last()));
}

/// The label tags are spaced and end with a label character.
pub proof fn lemma_labels_suffix_shape(ls: Seq<Seq<char>>)
    requires
        forall|j: int| 0 <= j < ls.len() ==> is_clean_label(#[trigger] ls[j]),
    ensures
        spaced(labels_suffix(ls)),
        ls.len() > 0 ==> labels_suffix(ls).len() > 0 && !is_ws(labels_suffix(ls).last()),
    decreases ls.len(),
{
    if ls.len() > 0 {
        let init = ls.drop_last();
        let l = ls.last();
        assert forall|j: int| 0 <= j < init.len() implies is_clean_label(#[trigger] init[j]) by {
            assert(init[j] == ls[j]);
        }
        lemma_labels_suffix_shape(init);
        assert(is_clean_label(l));
        let a = labels_suffix(init);
        let s = labels_suffix(ls);
        assert(s == a + seq![' ', '#'] + l);
        assert forall|k: int| 0 <= k < s.len() implies s[k] == ' ' || !is_ws(#[trigger] s[k]) by {
            if k < a.len() {
                assert(s[k] == a[k]);
            } else if k >= a.len() + 2 {
                assert(s[k] == l[k - a.len() - 2]);
                lemma_label_char(l[k - a.len() - 2]);
            }
        }
        assert(s.last() == l.last());
        lemma_label_char(l.last());
    } else {
        assert(labels_suffix(ls).len() == 0);
    }
}

/// A canonical task's rendered text is spaced and starts and ends with a
/// word character.
pub proof fn lemma_render_shape(t: TaskView)
    requires
        canonical_task(t),
    ensures
        spaced(render_task(t)),
        render_task(t).len() > 0,
        !is_ws(render_task(t)[0]),
        !is_ws(render_task(t).last()),
{
    lemma_text_shape(t.text);
    lemma_labels_suffix_shape(t.labels);
    let a = t.text;
    let b = priority_suffix(t.priority);
    let c = labels_suffix(t.labels);
    let r = render_task(t);
    assert(r == a + b + c);
    match t.priority {
        Some(q) => {
            lemma_priority_tag_shape(q);
        },
        None => {},
    }
    assert(spaced(b)) by {
        match t.priority {
            Some(q) => {
                assert forall|k: int| 0 <= k < b.len() implies b[k] == ' ' || !is_ws(
                    #[trigger] b[k],
                ) by {
                    if k > 0 {
                        assert(b[k] == priority_tag(q)[k - 1]);
                    }
                }
            },
            None => {},
        }
    }
    assert forall|k: int| 0 <= k < r.len() implies r[k] == ' ' || !is_ws(#[trigger] r[k]) by {
        if k < a.len() {
            assert(r[k] == a[k]);
        } else if k < a.len() + b.len() {
            assert(r[k] == b[k - a.len()]);
        } else {
            assert(r[k] == c[k - a.len() - b.len()]);
        }
    }
    assert(r[0] == a[0]);
    if c.len() > 0 {
        assert(r.last() == c.last());
    } else if b.len() > 0 {
        assert(r.last() == b.last());
        match t.priority {
            Some(q) => {
                assert(b.last() == priority_tag(q).last());
            },
            None => {},
        }
    } else {
        assert(r.last() == a.last());
    }
}

/// A canonical task's line holds no line feed and ends with a word
/// character.
pub proof fn lemma_task_line_shape(t: TaskView)
    requires
        canonical_task(t),
    ensures
        forall|j: int| 0 <= j < task_line(t).len() ==> #[trigger] task_line(t)[j] != '\n',
        task_line(t).len() > 0,
        !is_ws(task_line(t).last()),
        task_line(t).last() != '\r',
{
    lemma_render_shape(t);
    let pre = indent_spaces(t.indent) + marker_chars(t.done) + seq![' '];
    let r = render_task(t);
    let line = task_line(t);
    assert(line == pre + r);
    assert forall|j: int| 0 <= j < line.len() implies #[trigger] line[j] != '\n' by {
        if j < pre.len() {
            assert(pre[j] == ' ' || pre[j] == '[' || pre[j] == ']' || pre[j] == 'x');
        } else {
            assert(line[j] == r[j - pre.len()]);
            assert(r[j - pre.len()] == ' ' || !is_ws(r[j - pre.len()]));
        }
    }
    assert(line.last() == r.last());
}

// ---------------------------------------------------------------------------
// Reading back a written list
// ---------------------------------------------------------------------------

/// A line without line feeds, followed by a line feed, is one line.
pub proof fn lemma_lines_cons(c: Seq<char>, rest: Seq<char>)
    requires
        forall|j: int| 0 <= j < c.len() ==> #[trigger] c[j] != '\n',
        c.len() > 0,
        c.last() != '\r',
    ensures
        lines(c + seq!['\n'] + rest) == seq![c] + lines(rest),
{
    let s = c + seq!['\n'] + rest;
    assert forall|j: int| 0 <= j < c.len() implies s[j] != '\n' by {
        assert(s[j] == c[j]);
    }
    assert(s[c.len() as int] == '\n');
    lemma_line_len_at(s, c.len() as int);
    assert(s.take(c.len() as int) =~= c);
    assert(s.skip(c.len() as int + 1) =~= rest);
    assert(strip_cr(c) == c);
}

/// The lines of a written list are its task lines.
pub proof fn lemma_lines_serialized(ts: Seq<TaskView>)
    requires
        forall|i: int| 0 <= i < ts.len() ==> canonical_task(#[trigger] ts[i]),
    ensures
        lines(serialize_tasks(ts)) == ts.map_values(|t: TaskView| task_line(t)),
    decreases ts.len(),
{
    if ts.len() == 0 {
        assert(lines(Seq::<char>::empty()) =~= Seq::<Seq<char>>::empty());
        assert(ts.map_values(|t: TaskView| task_line(t)) =~= Seq::<Seq<char>>::empty());
    } else {
        let rest = ts.drop_first();
        assert forall|i: int| 0 <= i < rest.len() implies canonical_task(#[trigger] rest[i]) by {
            assert(rest[i] == ts[i + 1]);
        }
        lemma_lines_serialized(rest);
        assert(canonical_task(ts[0]));
        lemma_task_line_shape(ts[0]);
        lemma_lines_cons(task_line(ts[0]), serialize_tasks(rest));
        assert(ts.map_values(|t: TaskView| task_line(t)) =~= seq![task_line(ts[0])]
            + rest.map_values(|t: TaskView| task_line(t)));
    }
}

/// A canonical task's line reads back as the task.
pub proof fn lemma_parse_task_line(t: TaskView, number: nat)
    requires
        canonical_task(t),
    ensures
        parse_line_spec(task_line(t), number) == Some(
            Ok::<TaskView, ErrorView>(t),
        ),
{
    lemma_task_line_shape(t);
    lemma_render_shape(t);
    let line = task_line(t);
    let r = render_task(t);
    let n = 2 * t.indent;
    lemma_trim_end_noop(line);
    assert(trim_end(line) == line);
    assert forall|j: int| 0 <= j < n implies line[j] == ' ' by {
        assert(line[j] == indent_spaces(t.indent)[j]);
    }
    assert(line[n as int] == '[');
    lemma_leading_spaces_at_pub(line, n as int);
    let rest = line.skip(n as int);
    assert(rest =~= marker_chars(t.done) + seq![' '] + r);
    assert(rest[0] == '[');
    assert(rest[2] == ']');
    assert(rest[3] == ' ');
    assert(line_marker(rest) == Some(t.done));
    assert(rest.skip(4) =~= r);
    lemma_trim_end_noop(r);
    lemma_trim_start_noop(r);
    assert(trim(r) == r);
    lemma_metadata_render(t);
    lemma_text_shape(t.text);
    assert(n / 2 == t.indent);
    assert(parse_line_spec(task_line(t), number) == Some(Ok::<TaskView, ErrorView>(t)));
}

/// `leading_spaces(s)` is `b` when `b` spaces come before a character that
/// is not a space.
pub proof fn lemma_leading_spaces_at_pub(s: Seq<char>, b: int)
    requires
        0 <= b <= s.len(),
        forall|j: int| 0 <= j < b ==> s[j] == ' ',
        b == s.len() || s[b] != ' ',
    ensures
        leading_spaces(s) == b,
    decreases b,
{
    if b > 0 {
        assert forall|j: int| 0 <= j < b - 1 implies s.drop_first()[j] == ' ' by {
            assert(s.drop_first()[j] == s[j + 1]);
        }
        lemma_leading_spaces_at_pub(s.drop_first(), b - 1);
    }
}

/// Canonical task lines read back as their tasks.
pub proof fn lemma_parse_task_lines(ts: Seq<TaskView>, first: nat)
    requires
        forall|i: int| 0 <= i < ts.len() ==> canonical_task(#[trigger] ts[i]),
    ensures
        parse_lines(ts.map_values(|t: TaskView| task_line(t)), first) == Ok::<
            Seq<TaskView>,
            ErrorView,
        >(ts),
    decreases ts.len(),
{
    let ls = ts.map_values(|t: TaskView| task_line(t));
    if ts.len() == 0 {
        assert(ts =~= Seq::<TaskView>::empty());
    } else {
        let rest = ts.drop_first();
        assert forall|i: int| 0 <= i < rest.len() implies canonical_task(#[trigger] rest[i]) by {
            assert(rest[i] == ts[i + 1]);
        }
        lemma_parse_task_lines(rest, first + 1);
        assert(canonical_task(ts[0]));
        lemma_parse_task_line(ts[0], first);
        assert(ls[0] == task_line(ts[0]));
        assert(ls.drop_first() =~= rest.map_values(|t: TaskView| task_line(t)));
        assert(seq![ts[0]] + rest =~= ts);
    }
}

/// Reading back a written list gives the list, for every list whose texts
/// and labels are in the form reading produces: texts of single-spaced
/// words whose last word is not a tag, clean labels.
pub proof fn law_read_back_written(ts: Seq<TaskView>)
    requires
        forall|i: int| 0 <= i < ts.len() ==> canonical_task(#[trigger] ts[i]),
    ensures
        parse_todo(serialize_tasks(ts)) == Ok::<Seq<TaskView>, ErrorView>(ts),
{
    lemma_lines_serialized(ts);
    lemma_parse_task_lines(ts, 1);
}


// ---------------------------------------------------------------------------
// What reading produces
// ---------------------------------------------------------------------------

/// A label that cleaning accepts is clean.
pub proof fn lemma_clean_label_result(x: Seq<char>)
    ensures
        clean_label_spec(x) matches Ok(l) ==> is_clean_label(l),
{
    let y = strip_hashes(trim(x));
    if y.len() > 0 && label_chars_ok(y) {
        let l = ascii_lower(y);
        assert forall|j: int| 0 <= j < l.len() implies is_label_char(#[trigger] l[j]) by {
            assert(l[j] == lower_char(y[j]));
            assert(is_label_char(y[j]));
        }
        assert(ascii_lower(l) =~= l);
    }
}

/// The scan of trailing tags keeps a prefix of the words, stops at a word
/// that is not a tag, and collects clean labels.
pub proof fn lemma_scan_result(ws: Seq<Seq<char>>, p: Option<Priority>, lr: Seq<Seq<char>>)
    requires
        forall|j: int| 0 <= j < lr.len() ==> is_clean_label(#[trigger] lr[j]),
    ensures
        metadata_scan(ws, p, lr) matches Ok((ws2, p2, lr2)) ==> {
            &&& ws2.len() <= ws.len()
            &&& ws2 == ws.take(ws2.len() as int)
            &&& ws2.len() > 0 ==> !is_tag_word(ws2.last())
            &&& forall|j: int| 0 <= j < lr2.len() ==> is_clean_label(#[trigger] lr2[j])
        },
    decreases ws.len(),
{
    if ws.len() == 0 {
        assert(ws.take(0) =~= ws);
    } else {
        let last = ws.last();
        if last.len() > 0 && last[0] == '#' {
            lemma_clean_label_result(last.drop_first());
            match clean_label_spec(last.drop_first()) {
                Ok(l) => {
                    let lr1 = lr.push(l);
                    assert forall|j: int| 0 <= j < lr1.len() implies is_clean_label(
                        #[trigger] lr1[j],
                    ) by {
                        if j < lr.len() {
                            assert(lr1[j] == lr[j]);
                        }
                    }
                    lemma_scan_result(ws.drop_last(), p, lr1);
                    match metadata_scan(ws.drop_last(), p, lr1) {
                        Ok((ws2, _p2, _lr2)) => {
                            assert(ws.drop_last().take(ws2.len() as int) =~= ws.take(
                                ws2.len() as int,
                            ));
                        },
                        Err(_) => {},
                    }
                },
                Err(_) => {},
            }
        } else if last.len() > 0 && last[0] == '@' {
            match crate::todo::parse_priority_spec(last.drop_first()) {
                Ok(q) => {
                    if p is None {
                        lemma_scan_result(ws.drop_last(), Some(q), lr);
                        match metadata_scan(ws.drop_last(), Some(q), lr) {
                            Ok((ws2, _p2, _lr2)) => {
                                assert(ws.drop_last().take(ws2.len() as int) =~= ws.take(
                                    ws2.len() as int,
                                ));
                            },
                            Err(_) => {},
                        }
                    }
                },
                Err(_) => {},
            }
        } else {
            assert(ws.take(ws.len() as int) =~= ws);
        }
    }
}

/// A task text and labels read from a line are canonical.
pub proof fn lemma_metadata_result(text: Seq<char>)
    ensures
        parse_metadata(text) matches Ok((t, p, ls)) ==> (t.len() > 0 ==> canonical_text(t)) && (
        forall|j: int| 0 <= j < ls.len() ==> is_clean_label(#[trigger] ls[j])),
{
    let empty: Seq<Seq<char>> = seq![];
    lemma_scan_result(words(text), None, empty);
    lemma_words_shape(text);
    match metadata_scan(words(text), None, empty) {
        Ok((ws2, _p2, lr2)) => {
            assert forall|i: int| 0 <= i < ws2.len() implies is_word(#[trigger] ws2[i]) by {
                assert(ws2[i] == words(text)[i]);
            }
            let t = join(ws2, seq![' ']);
            if t.len() > 0 {
                if ws2.len() == 0 {
                    assert(t.len() == 0);
                }
                lemma_words_join(ws2);
            }
            let ls = lr2.reverse();
            assert forall|j: int| 0 <= j < ls.len() implies is_clean_label(#[trigger] ls[j]) by {
                assert(ls[j] == lr2[lr2.len() - 1 - j]);
            }
        },
        Err(_) => {},
    }
}

/// A task read from a line is canonical.
pub proof fn lemma_parse_line_canonical(line: Seq<char>, number: nat)
    ensures
        parse_line_spec(line, number) matches Some(Ok(t)) ==> canonical_task(t),
{
    let t = trim_end(line);
    let rest = t.skip(leading_spaces(t) as int);
    lemma_metadata_result(crate::text::trim(rest.skip(4)));
}

/// The tasks read from lines are canonical.
pub proof fn lemma_parse_lines_canonical(ls: Seq<Seq<char>>, first: nat)
    ensures
        parse_lines(ls, first) matches Ok(ts) ==> forall|i: int|
            0 <= i < ts.len() ==> canonical_task(#[trigger] ts[i]),
    decreases ls.len(),
{
    if ls.len() > 0 {
        lemma_parse_line_canonical(ls[0], first);
        lemma_parse_lines_canonical(ls.drop_first(), first + 1);
        match parse_line_spec(ls[0], first) {
            Some(Ok(t)) => {
                match parse_lines(ls.drop_first(), first + 1) {
                    Ok(ts) => {
                        let all = seq![t] + ts;
                        assert forall|i: int| 0 <= i < all.len() implies canonical_task(
                            #[trigger] all[i],
                        ) by {
                            if i > 0 {
                                assert(all[i] == ts[i - 1]);
                            }
                        }
                    },
                    Err(_) => {},
                }
            },
            _ => {},
        }
    }
}

/// Every list read from a file is canonical.
pub proof fn lemma_parsed_canonical(contents: Seq<char>)
    ensures
        parse_todo(contents) matches Ok(ts) ==> forall|i: int|
            0 <= i < ts.len() ==> canonical_task(#[trigger] ts[i]),
{
    lemma_parse_lines_canonical(lines(contents), 1);
}

/// Writing a list that was read and reading it again gives the same list.
pub proof fn law_reparse_saved(contents: Seq<char>)
    ensures
        parse_todo(contents) matches Ok(ts) ==> parse_todo(serialize_tasks(ts)) == Ok::<
            Seq<TaskView>,
            ErrorView,
        >(ts),
{
    lemma_parsed_canonical(contents);
    if let Ok(ts) = parse_todo(contents) {
        law_read_back_written(ts);
    }
}

} // verus!
