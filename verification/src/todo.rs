//! The task list kept in a `.todo` file: its model, its text format, and the
//! operations on it.
use vstd::prelude::*;

use crate::error::{outcome, AppError, ErrorView};
use crate::text::{
    ascii_lower, chars_equal, chars_of, copy_range, extend_chars, extend_str, is_ascii_alnum,
    is_ascii_alphanumeric, is_whitespace, is_ws, join, join_chars, lines, lowercase_ascii,
    split_lines, split_words, string_of, trim, trim_end, trimmed, trimmed_end, views, words,
};

verus! {

// ---------------------------------------------------------------------------
// Priority
// ---------------------------------------------------------------------------

/// How urgent a task is.
#[derive(Debug, Clone, Copy, PartialEq, Eq, Structural)]
pub enum Priority {
    High,
    Medium,
    Low,
}

/// The priority a (case-insensitive) name denotes: `high`/`h`,
/// `medium`/`med`/`m`, `low`/`l`.
pub open spec fn priority_named(value: Seq<char>) -> Option<Priority> {
    let l = ascii_lower(value);
    if l == "high"@ || l == "h"@ {
        Some(Priority::High)
    } else if l == "medium"@ || l == "med"@ || l == "m"@ {
        Some(Priority::Medium)
    } else if l == "low"@ || l == "l"@ {
        Some(Priority::Low)
    } else {
        None
    }
}

/// The message for a word that names no priority.
pub open spec fn priority_error_message(value: Seq<char>) -> Seq<char> {
    "priority must be high, medium, or low; got `"@ + value + "`"@
}

/// The outcome of reading a priority name.
pub open spec fn parse_priority_spec(value: Seq<char>) -> Result<Priority, ErrorView> {
    match priority_named(value) {
        Some(p) => Ok(p),
        None => Err(ErrorView::InvalidArgs(priority_error_message(value))),
    }
}

/// The name of a priority.
pub open spec fn priority_word(p: Priority) -> Seq<char> {
    match p {
        Priority::High => "high"@,
        Priority::Medium => "medium"@,
        Priority::Low => "low"@,
    }
}

/// The tag that marks a priority in a `.todo` file.
pub open spec fn priority_tag(p: Priority) -> Seq<char> {
    match p {
        Priority::High => "@high"@,
        Priority::Medium => "@medium"@,
        Priority::Low => "@low"@,
    }
}

/// Reads a priority name given as characters.
fn priority_from_chars(value: &[char]) -> (r: Result<Priority, AppError>)
    ensures
        match r {
            Ok(p) => parse_priority_spec(value@) == Ok::<Priority, ErrorView>(p),
            Err(e) => parse_priority_spec(value@) == Err::<Priority, ErrorView>(e@),
        },
{
    let l = lowercase_ascii(value);
    let l = l.as_slice();
    if chars_equal(l, chars_of("high").as_slice()) || chars_equal(l, chars_of("h").as_slice()) {
        Ok(Priority::High)
    } else if chars_equal(l, chars_of("medium").as_slice()) || chars_equal(
        l,
        chars_of("med").as_slice(),
    ) || chars_equal(l, chars_of("m").as_slice()) {
        Ok(Priority::Medium)
    } else if chars_equal(l, chars_of("low").as_slice()) || chars_equal(
        l,
        chars_of("l").as_slice(),
    ) {
        Ok(Priority::Low)
    } else {
        let mut m: Vec<char> = Vec::new();
        extend_str(&mut m, "priority must be high, medium, or low; got `");
        extend_chars(&mut m, value);
        extend_str(&mut m, "`");
        Err(AppError::InvalidArgs(string_of(m.as_slice())))
    }
}

impl Priority {
    /// Reads a priority name: `high`/`h`, `medium`/`med`/`m` or `low`/`l`,
    /// in any ASCII case.
    pub fn parse(value: &str) -> (r: Result<Priority, AppError>)
        ensures
            match r {
                Ok(p) => parse_priority_spec(value@) == Ok::<Priority, ErrorView>(p),
                Err(e) => parse_priority_spec(value@) == Err::<Priority, ErrorView>(e@),
            },
    {
        let v = chars_of(value);
        priority_from_chars(v.as_slice())
    }

    /// The name of the priority.
    pub fn as_str(self) -> (r: &'static str)
        ensures
            r@ == priority_word(self),
    {
        match self {
            Priority::High => "high",
            Priority::Medium => "medium",
            Priority::Low => "low",
        }
    }

    /// The tag that marks the priority in a `.todo` file.
    fn tag(self) -> (r: &'static str)
        ensures
            r@ == priority_tag(self),
    {
        match self {
            Priority::High => "@high",
            Priority::Medium => "@medium",
            Priority::Low => "@low",
        }
    }
}

// ---------------------------------------------------------------------------
// Labels
// ---------------------------------------------------------------------------

/// `s` without its leading `#` characters.
pub open spec fn strip_hashes(s: Seq<char>) -> Seq<char>
    decreases s.len(),
{
    if s.len() > 0 && s[0] == '#' {
        strip_hashes(s.drop_first())
    } else {
        s
    }
}

/// A character a label may hold.
pub open spec fn is_label_char(c: char) -> bool {
    is_ascii_alnum(c) || c == '-' || c == '_'
}

/// Every character of `s` may stand in a label.
pub open spec fn label_chars_ok(s: Seq<char>) -> bool {
    forall|j: int| 0 <= j < s.len() ==> is_label_char(#[trigger] s[j])
}

/// The message for a label with a character it may not hold.
pub open spec fn label_error_message(label: Seq<char>) -> Seq<char> {
    "label `"@ + label + "` can only contain letters, numbers, hyphen, or underscore"@
}

/// A label as it is stored: trimmed, without leading `#`, made of ASCII
/// letters, digits, `-` and `_`, and lower-cased.
pub open spec fn clean_label_spec(label: Seq<char>) -> Result<Seq<char>, ErrorView> {
    let l = strip_hashes(trim(label));
    if l.len() == 0 {
        Err(ErrorView::InvalidArgs("label cannot be empty"@))
    } else if !label_chars_ok(l) {
        Err(ErrorView::InvalidArgs(label_error_message(l)))
    } else {
        Ok(ascii_lower(l))
    }
}

/// `strip_hashes(s)` is `s.skip(b)` when `b` leading `#` come before a
/// character that is not `#`.
proof fn lemma_strip_hashes_at(s: Seq<char>, b: int)
    requires
        0 <= b <= s.len(),
        forall|j: int| 0 <= j < b ==> s[j] == '#',
        b == s.len() || s[b] != '#',
    ensures
        strip_hashes(s) == s.skip(b),
    decreases b,
{
    if b > 0 {
        assert forall|j: int| 0 <= j < b - 1 implies s.drop_first()[j] == '#' by {
            assert(s.drop_first()[j] == s[j + 1]);
        }
        lemma_strip_hashes_at(s.drop_first(), b - 1);
        assert(s.drop_first().skip(b - 1) =~= s.skip(b));
    } else {
        assert(s.skip(0) =~= s);
    }
}

/// Cleans a label given as characters.
fn clean_label_chars(label: &[char]) -> (r: Result<Vec<char>, AppError>)
    ensures
        match r {
            Ok(l) => clean_label_spec(label@) == Ok::<Seq<char>, ErrorView>(l@),
            Err(e) => clean_label_spec(label@) == Err::<Seq<char>, ErrorView>(e@),
        },
{
    let t = trimmed(label);
    let mut b: usize = 0;
    while b < t.len() && t[b] == '#'
        invariant
            b <= t@.len(),
            forall|j: int| 0 <= j < b ==> t@[j] == '#',
        decreases t@.len() - b,
    {
        b = b + 1;
    }
    proof {
        lemma_strip_hashes_at(t@, b as int);
    }
    let l = copy_range(t.as_slice(), b, t.len());
    assert(l@ =~= t@.skip(b as int));
    if l.len() == 0 {
        return Err(AppError::InvalidArgs("label cannot be empty".to_owned()));
    }
    let mut i: usize = 0;
    while i < l.len()
        invariant
            i <= l@.len(),
            l@ == strip_hashes(trim(label@)),
            forall|j: int| 0 <= j < i ==> is_label_char(#[trigger] l@[j]),
        decreases l@.len() - i,
    {
        let c = l[i];
        if !(is_ascii_alphanumeric(c) || c == '-' || c == '_') {
            assert(!is_label_char(l@[i as int]));
            let mut m: Vec<char> = Vec::new();
            extend_str(&mut m, "label `");
            extend_chars(&mut m, l.as_slice());
            extend_str(&mut m, "` can only contain letters, numbers, hyphen, or underscore");
            return Err(AppError::InvalidArgs(string_of(m.as_slice())));
        }
        i = i + 1;
    }
    Ok(lowercase_ascii(l.as_slice()))
}

/// Cleans a label: trims it, drops leading `#`, checks that it holds only
/// ASCII letters, digits, `-` and `_`, and lower-cases it.
pub fn clean_label(label: &str) -> (r: Result<String, AppError>)
    ensures
        match r {
            Ok(l) => clean_label_spec(label@) == Ok::<Seq<char>, ErrorView>(l@),
            Err(e) => clean_label_spec(label@) == Err::<Seq<char>, ErrorView>(e@),
        },
{
    let v = chars_of(label);
    match clean_label_chars(v.as_slice()) {
        Ok(l) => Ok(string_of(l.as_slice())),
        Err(e) => Err(e),
    }
}

/// The character sequences held by a sequence of strings.
pub open spec fn strings_view(v: Seq<String>) -> Seq<Seq<char>> {
    v.map_values(|s: String| s@)
}

/// Cleans each of `raw` in turn and appends it to `acc` unless `acc`
/// already holds it; the first label that cannot be cleaned gives the error.
pub open spec fn add_clean_labels(acc: Seq<Seq<char>>, raw: Seq<Seq<char>>) -> Result<
    Seq<Seq<char>>,
    ErrorView,
>
    decreases raw.len(),
{
    if raw.len() == 0 {
        Ok(acc)
    } else {
        match add_clean_labels(acc, raw.drop_last()) {
            Err(e) => Err(e),
            Ok(a) => match clean_label_spec(raw.last()) {
                Err(e) => Err(e),
                Ok(l) => Ok(
                    if a.contains(l) {
                        a
                    } else {
                        a.push(l)
                    },
                ),
            },
        }
    }
}

/// The labels cleaned, without repeats, first occurrences kept.
pub open spec fn clean_labels_spec(labels: Seq<Seq<char>>) -> Result<Seq<Seq<char>>, ErrorView> {
    add_clean_labels(seq![], labels)
}

/// Whether `v` holds a string equal to `s`.
pub(crate) fn contains_string(v: &Vec<String>, s: &String) -> (r: bool)
    ensures
        r == strings_view(v@).contains(s@),
{
    let mut i: usize = 0;
    while i < v.len()
        invariant
            i <= v@.len(),
            forall|j: int| 0 <= j < i ==> v@[j]@ != s@,
        decreases v@.len() - i,
    {
        if v[i] == *s {
            assert(strings_view(v@)[i as int] == s@);
            return true;
        }
        i = i + 1;
    }
    assert forall|j: int| 0 <= j < strings_view(v@).len() implies strings_view(v@)[j] != s@ by {
        assert(strings_view(v@)[j] == v@[j]@);
    }
    false
}

/// Cleans each of `raw` and appends it to `acc` unless already there.
pub fn append_clean_labels(acc: &mut Vec<String>, raw: &[String]) -> (r: Result<(), AppError>)
    ensures
        match add_clean_labels(strings_view(old(acc)@), strings_view(raw@)) {
            Ok(a) => r is Ok && strings_view(final(acc)@) == a,
            Err(e) => r matches Err(x) && x@ == e,
        },
{
    let ghost start = strings_view(acc@);
    let mut i: usize = 0;
    assert(strings_view(raw@).take(0) =~= Seq::<Seq<char>>::empty());
    while i < raw.len()
        invariant
            i <= raw@.len(),
            start == strings_view(old(acc)@),
            add_clean_labels(start, strings_view(raw@).take(i as int)) == Ok::<
                Seq<Seq<char>>,
                ErrorView,
            >(strings_view(acc@)),
        decreases raw@.len() - i,
    {
        let ghost prefix = strings_view(raw@).take(i + 1);
        assert(prefix.drop_last() =~= strings_view(raw@).take(i as int));
        assert(prefix.last() == raw@[i as int]@);
        let label = clean_label(raw[i].as_str());
        match label {
            Err(e) => {
                proof {
                    assert(add_clean_labels(start, prefix) == Err::<Seq<Seq<char>>, ErrorView>(
                        e@,
                    ));
                    lemma_add_clean_labels_error_stays(start, strings_view(raw@), i as int + 1);
                }
                return Err(e);
            },
            Ok(label) => {
                if !contains_string(acc, &label) {
                    let ghost old_acc = acc@;
                    acc.push(label);
                    assert(strings_view(acc@) =~= strings_view(old_acc).push(label@));
                }
            },
        }
        i = i + 1;
    }
    assert(strings_view(raw@).take(i as int) =~= strings_view(raw@));
    Ok(())
}

/// Cleans every label and drops repeats.
fn clean_labels(labels: Vec<String>) -> (r: Result<Vec<String>, AppError>)
    ensures
        match r {
            Ok(ls) => clean_labels_spec(strings_view(labels@)) == Ok::<
                Seq<Seq<char>>,
                ErrorView,
            >(strings_view(ls@)),
            Err(e) => clean_labels_spec(strings_view(labels@)) == Err::<
                Seq<Seq<char>>,
                ErrorView,
            >(e@),
        },
{
    let mut cleaned: Vec<String> = Vec::new();
    assert(strings_view(cleaned@) =~= Seq::<Seq<char>>::empty());
    append_clean_labels(&mut cleaned, labels.as_slice())?;
    Ok(cleaned)
}

/// An error in cleaning a prefix of the labels is the error for all of them.
proof fn lemma_add_clean_labels_error_stays(acc: Seq<Seq<char>>, labels: Seq<Seq<char>>, k: int)
    requires
        0 <= k <= labels.len(),
        add_clean_labels(acc, labels.take(k)) is Err,
    ensures
        add_clean_labels(acc, labels) == add_clean_labels(acc, labels.take(k)),
    decreases labels.len() - k,
{
    if k < labels.len() {
        assert(labels.take(k + 1).drop_last() =~= labels.take(k));
        lemma_add_clean_labels_error_stays(acc, labels, k + 1);
    } else {
        assert(labels.take(k) =~= labels);
    }
}

// ---------------------------------------------------------------------------
// Tasks
// ---------------------------------------------------------------------------

/// One task of the list.
#[derive(Debug, Clone, PartialEq, Eq)]
pub struct Task {
    pub done: bool,
    pub text: String,
    pub indent: usize,
    pub priority: Option<Priority>,
    pub labels: Vec<String>,
}

/// A task as contracts see it.
pub struct TaskView {
    pub done: bool,
    pub text: Seq<char>,
    pub indent: nat,
    pub priority: Option<Priority>,
    pub labels: Seq<Seq<char>>,
}

impl View for Task {
    type V = TaskView;

    open spec fn view(&self) -> TaskView {
        TaskView {
            done: self.done,
            text: self.text@,
            indent: self.indent as nat,
            priority: self.priority,
            labels: strings_view(self.labels@),
        }
    }
}

/// ` @priority` when there is a priority.
pub open spec fn priority_suffix(p: Option<Priority>) -> Seq<char> {
    match p {
        Some(p) => seq![' '] + priority_tag(p),
        None => seq![],
    }
}

/// ` #label` for each label, in order.
pub open spec fn labels_suffix(labels: Seq<Seq<char>>) -> Seq<char>
    decreases labels.len(),
{
    if labels.len() == 0 {
        seq![]
    } else {
        labels_suffix(labels.drop_last()) + seq![' ', '#'] + labels.last()
    }
}

/// A task's text followed by its priority tag and its label tags.
pub open spec fn render_task(t: TaskView) -> Seq<char> {
    t.text + priority_suffix(t.priority) + labels_suffix(t.labels)
}

impl Task {
    /// The task's text followed by ` @priority` and ` #label` tags.
    pub fn render_text(&self) -> (r: String)
        ensures
            r@ == render_task(self@),
    {
        let mut v = chars_of(self.text.as_str());
        if let Some(priority) = self.priority {
            v.push(' ');
            extend_str(&mut v, priority.tag());
        }
        let ghost base = v@;
        let mut i: usize = 0;
        assert(strings_view(self.labels@).take(0) =~= Seq::<Seq<char>>::empty());
        assert(v@ =~= base + labels_suffix(strings_view(self.labels@).take(0)));
        while i < self.labels.len()
            invariant
                i <= self.labels@.len(),
                v@ == base + labels_suffix(strings_view(self.labels@).take(i as int)),
            decreases self.labels@.len() - i,
        {
            v.push(' ');
            v.push('#');
            extend_str(&mut v, self.labels[i].as_str());
            proof {
                let ls = strings_view(self.labels@);
                assert(ls.take(i + 1).drop_last() =~= ls.take(i as int));
                assert(ls.take(i + 1).last() == self.labels@[i as int]@);
            }
            i = i + 1;
            assert(v@ =~= base + labels_suffix(strings_view(self.labels@).take(i as int)));
        }
        assert(strings_view(self.labels@).take(i as int) =~= strings_view(self.labels@));
        string_of(v.as_slice())
    }
}

// ---------------------------------------------------------------------------
// Task metadata
// ---------------------------------------------------------------------------

/// Reads tags from the end of a task's words: `#label` words give labels
/// (collected last first), one `@priority` word gives the priority; the scan
/// stops at the first word that is neither.
pub open spec fn metadata_scan(
    ws: Seq<Seq<char>>,
    priority: Option<Priority>,
    labels_rev: Seq<Seq<char>>,
) -> Result<(Seq<Seq<char>>, Option<Priority>, Seq<Seq<char>>), ErrorView>
    decreases ws.len(),
{
    if ws.len() == 0 {
        Ok((ws, priority, labels_rev))
    } else {
        let last = ws.last();
        if last.len() > 0 && last[0] == '#' {
            match clean_label_spec(last.drop_first()) {
                Err(e) => Err(e),
                Ok(l) => metadata_scan(ws.drop_last(), priority, labels_rev.push(l)),
            }
        } else if last.len() > 0 && last[0] == '@' {
            match parse_priority_spec(last.drop_first()) {
                Err(e) => Err(e),
                Ok(p) => if priority is Some {
                    Err(ErrorView::InvalidArgs("task can only have one priority tag"@))
                } else {
                    metadata_scan(ws.drop_last(), Some(p), labels_rev)
                },
            }
        } else {
            Ok((ws, priority, labels_rev))
        }
    }
}

/// A task's text, priority and labels, read from the text of a task line:
/// trailing tags become metadata and the remaining words, joined by single
/// spaces, become the text.
pub open spec fn parse_metadata(text: Seq<char>) -> Result<
    (Seq<char>, Option<Priority>, Seq<Seq<char>>),
    ErrorView,
> {
    match metadata_scan(words(text), None, seq![]) {
        Err(e) => Err(e),
        Ok((ws, p, labels_rev)) => Ok((join(ws, seq![' ']), p, labels_rev.reverse())),
    }
}

/// `v` in reverse order.
fn reversed_strings(v: Vec<String>) -> (r: Vec<String>)
    ensures
        strings_view(r@) == strings_view(v@).reverse(),
{
    let mut v = v;
    let ghost orig = strings_view(v@);
    let mut r: Vec<String> = Vec::new();
    assert(strings_view(r@) =~= orig.skip(orig.len() as int).reverse());
    assert(orig.take(orig.len() as int) =~= orig);
    while v.len() > 0
        invariant
            v@.len() <= orig.len(),
            strings_view(v@) == orig.take(v@.len() as int),
            strings_view(r@) == orig.skip(v@.len() as int).reverse(),
        decreases v@.len(),
    {
        let ghost n = v@.len();
        assert(strings_view(v@)[n - 1] == v@[n - 1]@);
        let x = v.pop().unwrap();
        proof {
            assert(strings_view(v@) =~= orig.take(n - 1));
            assert(x@ == orig[n - 1]);
        }
        let ghost old_r = r@;
        r.push(x);
        assert(strings_view(r@) =~= strings_view(old_r).push(x@));
        assert(orig.skip(n - 1).reverse() =~= orig.skip(n as int).reverse().push(orig[n - 1]));
    }
    assert(orig.skip(0) =~= orig);
    r
}

/// Reads the trailing tags of a task's text.
fn parse_task_metadata(text: &[char]) -> (r: Result<(Vec<char>, Option<Priority>, Vec<String>), AppError>)
    ensures
        match r {
            Ok((t, p, ls)) => parse_metadata(text@) == Ok::<
                (Seq<char>, Option<Priority>, Seq<Seq<char>>),
                ErrorView,
            >((t@, p, strings_view(ls@))),
            Err(e) => parse_metadata(text@) == Err::<
                (Seq<char>, Option<Priority>, Seq<Seq<char>>),
                ErrorView,
            >(e@),
        },
{
    let ws = split_words(text);
    let ghost all = views(ws@);
    let mut n = ws.len();
    let mut priority: Option<Priority> = None;
    let mut labels_rev: Vec<String> = Vec::new();
    assert(all.take(n as int) =~= all);
    assert(strings_view(labels_rev@) =~= Seq::<Seq<char>>::empty());
    loop
        invariant
            n <= ws@.len(),
            all == views(ws@),
            all == words(text@),
            metadata_scan(all, None, seq![]) == metadata_scan(
                all.take(n as int),
                priority,
                strings_view(labels_rev@),
            ),
        ensures
            n <= ws@.len(),
            metadata_scan(all, None, seq![]) == Ok::<
                (Seq<Seq<char>>, Option<Priority>, Seq<Seq<char>>),
                ErrorView,
            >((all.take(n as int), priority, strings_view(labels_rev@))),
        decreases n,
    {
        if n == 0 {
            assert(all.take(0) =~= Seq::<Seq<char>>::empty());
            break;
        }
        let last = &ws[n - 1];
        let ghost cur = all.take(n as int);
        assert(cur.last() == last@);
        assert(cur.drop_last() =~= all.take(n - 1));
        if last.len() > 0 && last[0] == '#' {
            let rest = copy_range(last.as_slice(), 1, last.len());
            assert(rest@ =~= last@.drop_first());
            match clean_label_chars(rest.as_slice()) {
                Err(e) => {
                    return Err(e);
                },
                Ok(l) => {
                    let ls = string_of(l.as_slice());
                    let ghost old_l = labels_rev@;
                    labels_rev.push(ls);
                    assert(strings_view(labels_rev@) =~= strings_view(old_l).push(l@));
                    n = n - 1;
                },
            }
        } else if last.len() > 0 && last[0] == '@' {
            let rest = copy_range(last.as_slice(), 1, last.len());
            assert(rest@ =~= last@.drop_first());
            match priority_from_chars(rest.as_slice()) {
                Err(e) => {
                    return Err(e);
                },
                Ok(p) => {
                    if priority.is_some() {
                        return Err(
                            AppError::InvalidArgs("task can only have one priority tag".to_owned()),
                        );
                    }
                    priority = Some(p);
                    n = n - 1;
                },
            }
        } else {
            break;
        }
    }
    let joined = join_chars(&ws, n, &[' ']);
    assert(seq![' '] =~= [' ']@);
    let labels = reversed_strings(labels_rev);
    Ok((joined, priority, labels))
}


// ---------------------------------------------------------------------------
// The `.todo` format
// ---------------------------------------------------------------------------

/// The number of spaces (U+0020) that start `s`.
pub open spec fn leading_spaces(s: Seq<char>) -> nat
    decreases s.len(),
{
    if s.len() > 0 && s[0] == ' ' {
        1 + leading_spaces(s.drop_first())
    } else {
        0
    }
}

proof fn lemma_leading_spaces_at(s: Seq<char>, b: int)
    requires
        0 <= b <= s.len(),
        forall|j: int| 0 <= j < b ==> s[j] == ' ',
        b == s.len() || s[b] != ' ',
    ensures
        leading_spaces(s) == b,
    decreases b,
{
    if b > 0 {
        assert forall|j: int| 0 <= j < b - 1 implies s.drop_first()[j] == ' ' by {
            assert(s.drop_first()[j] == s[j + 1]);
        }
        lemma_leading_spaces_at(s.drop_first(), b - 1);
    }
}

/// Whether a task line's body starts with `[ ] ` (open) or `[x] `/`[X] `
/// (done).
pub open spec fn line_marker(rest: Seq<char>) -> Option<bool> {
    if rest.len() >= 4 && rest[0] == '[' && rest[2] == ']' && rest[3] == ' ' {
        if rest[1] == ' ' {
            Some(false)
        } else if rest[1] == 'x' || rest[1] == 'X' {
            Some(true)
        } else {
            None
        }
    } else {
        None
    }
}

/// The task a line of a `.todo` file holds: nothing for a blank line, and a
/// malformed-line error unless it is two spaces per nesting level, a
/// marker, and a non-empty text with optional tags.
pub open spec fn parse_line_spec(line: Seq<char>, number: nat) -> Option<Result<TaskView, ErrorView>> {
    let t = trim_end(line);
    let malformed = Err(ErrorView::MalformedTodoLine { line: number, content: t });
    if t.len() == 0 {
        None
    } else if leading_spaces(t) % 2 != 0 {
        Some(malformed)
    } else {
        let rest = t.skip(leading_spaces(t) as int);
        match line_marker(rest) {
            None => Some(malformed),
            Some(done) => match parse_metadata(trim(rest.skip(4))) {
                Err(e) => Some(Err(e)),
                Ok((text, priority, labels)) => if text.len() == 0 {
                    Some(malformed)
                } else {
                    Some(
                        Ok(
                            TaskView {
                                done,
                                text,
                                indent: leading_spaces(t) / 2,
                                priority,
                                labels,
                            },
                        ),
                    )
                },
            },
        }
    }
}

/// The tasks of consecutive lines, the first of them numbered `first`; the
/// first bad line gives the error.
pub open spec fn parse_lines(ls: Seq<Seq<char>>, first: nat) -> Result<Seq<TaskView>, ErrorView>
    decreases ls.len(),
{
    if ls.len() == 0 {
        Ok(seq![])
    } else {
        match parse_line_spec(ls[0], first) {
            None => parse_lines(ls.drop_first(), first + 1),
            Some(Err(e)) => Err(e),
            Some(Ok(t)) => match parse_lines(ls.drop_first(), first + 1) {
                Err(e) => Err(e),
                Ok(ts) => Ok(seq![t] + ts),
            },
        }
    }
}

/// The tasks a `.todo` file's contents hold, lines numbered from 1.
pub open spec fn parse_todo(contents: Seq<char>) -> Result<Seq<TaskView>, ErrorView> {
    parse_lines(lines(contents), 1)
}

/// The tasks held by a sequence of tasks.
pub open spec fn tasks_view(v: Seq<Task>) -> Seq<TaskView> {
    v.map_values(|t: Task| t@)
}

/// `ts` in front of the tasks of an outcome.
pub open spec fn prepend_tasks(ts: Seq<TaskView>, r: Result<Seq<TaskView>, ErrorView>) -> Result<
    Seq<TaskView>,
    ErrorView,
> {
    match r {
        Ok(rest) => Ok(ts + rest),
        Err(e) => Err(e),
    }
}

/// The error for a malformed line.
fn malformed_line(number: usize, content: &[char]) -> (e: AppError)
    ensures
        e@ == (ErrorView::MalformedTodoLine { line: number as nat, content: content@ }),
{
    AppError::MalformedTodoLine { line: number, content: string_of(content) }
}

/// Reads one line of a `.todo` file.
fn parse_line(line: &[char], number: usize) -> (r: Option<Result<Task, AppError>>)
    ensures
        match r {
            None => parse_line_spec(line@, number as nat) is None,
            Some(o) => parse_line_spec(line@, number as nat) == Some(outcome(o)),
        },
{
    let t = trimmed_end(line);
    if t.len() == 0 {
        return None;
    }
    let mut ls: usize = 0;
    while ls < t.len() && t[ls] == ' '
        invariant
            ls <= t@.len(),
            forall|j: int| 0 <= j < ls ==> t@[j] == ' ',
        decreases t@.len() - ls,
    {
        ls = ls + 1;
    }
    proof {
        lemma_leading_spaces_at(t@, ls as int);
    }
    if ls % 2 != 0 {
        return Some(Err(malformed_line(number, t.as_slice())));
    }
    let ghost rest = t@.skip(ls as int);
    if !(t.len() - ls >= 4 && t[ls] == '[' && t[ls + 2] == ']' && t[ls + 3] == ' ' && (t[ls + 1]
        == ' ' || t[ls + 1] == 'x' || t[ls + 1] == 'X')) {
        proof {
            if rest.len() >= 4 {
                assert(rest[0] == t@[ls as int]);
                assert(rest[1] == t@[ls + 1]);
                assert(rest[2] == t@[ls + 2]);
                assert(rest[3] == t@[ls + 3]);
            }
        }
        return Some(Err(malformed_line(number, t.as_slice())));
    }
    let done = t[ls + 1] != ' ';
    proof {
        assert(rest[0] == t@[ls as int]);
        assert(rest[1] == t@[ls + 1]);
        assert(rest[2] == t@[ls + 2]);
        assert(rest[3] == t@[ls + 3]);
        assert(line_marker(rest) == Some(done));
    }
    let body = copy_range(t.as_slice(), ls + 4, t.len());
    assert(body@ =~= rest.skip(4));
    let body = trimmed(body.as_slice());
    match parse_task_metadata(body.as_slice()) {
        Err(e) => Some(Err(e)),
        Ok((text, priority, labels)) => {
            if text.len() == 0 {
                Some(Err(malformed_line(number, t.as_slice())))
            } else {
                Some(
                    Ok(
                        Task {
                            done,
                            text: string_of(text.as_slice()),
                            indent: ls / 2,
                            priority,
                            labels,
                        },
                    ),
                )
            }
        },
    }
}

/// The tasks of a project, in file order.
#[derive(Debug, Clone, PartialEq, Eq)]
pub struct TodoList {
    tasks: Vec<Task>,
}

impl View for TodoList {
    type V = Seq<TaskView>;

    closed spec fn view(&self) -> Seq<TaskView> {
        tasks_view(self.tasks@)
    }
}

impl TodoList {
    /// Reads the contents of a `.todo` file: one task per non-blank line,
    /// indented by two spaces per nesting level, `[ ] ` or `[x] ` (or
    /// `[X] `) before the text, and optional trailing `@priority` and
    /// `#label` tags.
    pub fn parse(contents: &str) -> (r: Result<TodoList, AppError>)
        ensures
            outcome(r) == parse_todo(contents@),
    {
        let cs = chars_of(contents);
        let ls = split_lines(cs.as_slice());
        let ghost all = views(ls@);
        let mut tasks: Vec<Task> = Vec::new();
        let mut i: usize = 0;
        assert(all.skip(0) =~= all);
        assert(tasks_view(tasks@) =~= Seq::<TaskView>::empty());
        assert(prepend_tasks(seq![], parse_lines(all, 1)) =~= parse_lines(all, 1)) by {
            match parse_lines(all, 1) {
                Ok(x) => {
                    assert(Seq::<TaskView>::empty() + x =~= x);
                },
                Err(_) => {},
            }
        }
        while i < ls.len()
            invariant
                i <= ls@.len(),
                all == views(ls@),
                all == lines(contents@),
                parse_todo(contents@) == prepend_tasks(
                    tasks_view(tasks@),
                    parse_lines(all.skip(i as int), i as nat + 1),
                ),
            decreases ls@.len() - i,
        {
            let ghost rest = all.skip(i as int);
            assert(rest[0] == ls@[i as int]@);
            assert(rest.drop_first() =~= all.skip(i + 1));
            match parse_line(ls[i].as_slice(), i + 1) {
                None => {},
                Some(Err(e)) => {
                    return Err(e);
                },
                Some(Ok(t)) => {
                    let ghost old_tasks = tasks@;
                    tasks.push(t);
                    proof {
                        assert(tasks_view(tasks@) =~= tasks_view(old_tasks).push(t@));
                        match parse_lines(all.skip(i + 1), i as nat + 2) {
                            Ok(x) => {
                                assert(tasks_view(old_tasks) + (seq![t@] + x) =~= tasks_view(
                                    tasks@,
                                ) + x);
                            },
                            Err(_) => {},
                        }
                    }
                },
            }
            i = i + 1;
        }
        assert(all.skip(i as int) =~= Seq::<Seq<char>>::empty());
        assert(tasks_view(tasks@) + Seq::<TaskView>::empty() =~= tasks_view(tasks@));
        Ok(TodoList { tasks })
    }
}


/// Two spaces per nesting level.
pub open spec fn indent_spaces(n: nat) -> Seq<char> {
    Seq::new(2 * n, |_i: int| ' ')
}

/// `[x]` for a done task, `[ ]` for an open one.
pub open spec fn marker_chars(done: bool) -> Seq<char> {
    if done {
        seq!['[', 'x', ']']
    } else {
        seq!['[', ' ', ']']
    }
}

/// The line of a `.todo` file that holds a task, without its line feed.
pub open spec fn task_line(t: TaskView) -> Seq<char> {
    indent_spaces(t.indent) + marker_chars(t.done) + seq![' '] + render_task(t)
}

/// The contents of a `.todo` file holding these tasks: one line each,
/// each ended by a line feed.
pub open spec fn serialize_tasks(ts: Seq<TaskView>) -> Seq<char>
    decreases ts.len(),
{
    if ts.len() == 0 {
        seq![]
    } else {
        task_line(ts[0]) + seq!['\n'] + serialize_tasks(ts.drop_first())
    }
}

/// Serializing one more task appends its line.
pub proof fn lemma_serialize_push(ts: Seq<TaskView>, t: TaskView)
    ensures
        serialize_tasks(ts.push(t)) == serialize_tasks(ts) + task_line(t) + seq!['\n'],
    decreases ts.len(),
{
    if ts.len() == 0 {
        assert(ts.push(t).drop_first() =~= Seq::<TaskView>::empty());
        assert(serialize_tasks(Seq::<TaskView>::empty()) == Seq::<char>::empty());
        assert(ts.push(t)[0] == t);
        assert(serialize_tasks(ts.push(t)) =~= serialize_tasks(ts) + task_line(t) + seq!['\n']);
    } else {
        assert(ts.push(t).drop_first() =~= ts.drop_first().push(t));
        lemma_serialize_push(ts.drop_first(), t);
        assert(ts.push(t)[0] == ts[0]);
        assert(serialize_tasks(ts.push(t)) =~= serialize_tasks(ts) + task_line(t) + seq!['\n']);
    }
}

// ---------------------------------------------------------------------------
// Operations on the list
// ---------------------------------------------------------------------------

/// A task's text once trimmed; it may not be empty.
pub open spec fn clean_text_spec(text: Seq<char>) -> Result<Seq<char>, ErrorView> {
    if trim(text).len() == 0 {
        Err(ErrorView::EmptyTask)
    } else {
        Ok(trim(text))
    }
}

/// The open task that adding `text` with this metadata at this nesting
/// level creates: the text trimmed and non-empty, the labels cleaned and
/// without repeats.
pub open spec fn new_task_spec(
    text: Seq<char>,
    indent: nat,
    priority: Option<Priority>,
    labels: Seq<Seq<char>>,
) -> Result<TaskView, ErrorView> {
    match clean_text_spec(text) {
        Err(e) => Err(e),
        Ok(t) => match clean_labels_spec(labels) {
            Err(e) => Err(e),
            Ok(ls) => Ok(TaskView { done: false, text: t, indent, priority, labels: ls }),
        },
    }
}

/// The first position from `j` on whose task is not nested deeper than
/// `indent`, or the length.
pub open spec fn first_not_deeper(ts: Seq<TaskView>, indent: nat, j: int) -> int
    decreases ts.len() - j,
{
    if j >= ts.len() {
        ts.len() as int
    } else if ts[j].indent <= indent {
        j
    } else {
        first_not_deeper(ts, indent, j + 1)
    }
}

/// The end (exclusive) of the subtree of the task at position `i`: the
/// task and the tasks after it that are nested deeper.
pub open spec fn subtree_end(ts: Seq<TaskView>, i: int) -> int {
    first_not_deeper(ts, ts[i].indent, i + 1)
}

/// `first_not_deeper` finds the first task, from `j` on, that is not nested
/// deeper.
pub proof fn lemma_first_not_deeper(ts: Seq<TaskView>, indent: nat, j: int)
    requires
        0 <= j <= ts.len(),
    ensures
        j <= first_not_deeper(ts, indent, j) <= ts.len(),
        forall|k: int| j <= k < first_not_deeper(ts, indent, j) ==> #[trigger] ts[k].indent > indent,
        first_not_deeper(ts, indent, j) < ts.len() ==> ts[first_not_deeper(ts, indent, j)].indent
            <= indent,
    decreases ts.len() - j,
{
    if j < ts.len() && ts[j].indent > indent {
        lemma_first_not_deeper(ts, indent, j + 1);
    }
}

/// `ts` with the task at position `i` marked done or open.
pub open spec fn set_done(ts: Seq<TaskView>, i: int, done: bool) -> Seq<TaskView> {
    ts.update(i, TaskView { done, ..ts[i] })
}

/// The position of the first open task from `j` on, if any.
pub open spec fn first_open_from(ts: Seq<TaskView>, j: int) -> Option<int>
    decreases ts.len() - j,
{
    if j >= ts.len() {
        None
    } else if !ts[j].done {
        Some(j)
    } else {
        first_open_from(ts, j + 1)
    }
}

/// `first_open_from(ts, k)` is the first open task from `k` on.
pub proof fn lemma_first_open(ts: Seq<TaskView>, k: int)
    requires
        0 <= k,
    ensures
        first_open_from(ts, k) matches Some(i) ==> k <= i < ts.len() && !ts[i].done && forall|
            j: int,
        | k <= j < i ==> #[trigger] ts[j].done,
        first_open_from(ts, k) is None ==> forall|j: int| k <= j < ts.len() ==> #[trigger] ts[j].done,
    decreases ts.len() - k,
{
    if k < ts.len() && ts[k].done {
        lemma_first_open(ts, k + 1);
    }
}

/// The error for a task number outside `1..=len`.
pub open spec fn index_error(index: usize, len: nat) -> ErrorView {
    ErrorView::InvalidTaskIndex { index: index as nat, len }
}

/// Whether `index` is a task number of a list of `len` tasks.
pub open spec fn valid_index(index: usize, len: nat) -> bool {
    1 <= index && index <= len
}

/// A trimmed, non-empty task text.
fn clean_task_text(text: String) -> (r: Result<String, AppError>)
    ensures
        outcome(r) == clean_text_spec(text@),
{
    let cs = chars_of(text.as_str());
    let t = trimmed(cs.as_slice());
    if t.len() == 0 {
        return Err(AppError::EmptyTask);
    }
    Ok(string_of(t.as_slice()))
}

/// The tasks other than the subtree at `a..e`.
pub open spec fn without_block(ts: Seq<TaskView>, a: int, e: int) -> Seq<TaskView> {
    ts.subrange(0, a) + ts.skip(e)
}

/// Where the moved subtree of task number `from` starts once moved to
/// number `to`: position `to - 1` among the other tasks, or after the last
/// of them.
pub open spec fn move_target(ts: Seq<TaskView>, from: usize, to: usize) -> int {
    let a = from - 1;
    let rest = without_block(ts, a, subtree_end(ts, a));
    if to - 1 <= rest.len() {
        to - 1
    } else {
        rest.len() as int
    }
}

/// Task number `from` moved, with its subtree and their nesting unchanged,
/// so that it starts at `move_target`; or the error for the first number
/// that is not a task number.
pub open spec fn move_spec(ts: Seq<TaskView>, from: usize, to: usize) -> Result<
    Seq<TaskView>,
    ErrorView,
> {
    if !valid_index(from, ts.len()) {
        Err(index_error(from, ts.len()))
    } else if !valid_index(to, ts.len()) {
        Err(index_error(to, ts.len()))
    } else {
        let a = from - 1;
        let e = subtree_end(ts, a);
        let rest = without_block(ts, a, e);
        let at = move_target(ts, from, to);
        Ok(rest.take(at) + ts.subrange(a, e) + rest.skip(at))
    }
}

impl Default for TodoList {
    /// An empty list.
    fn default() -> (r: TodoList)
        ensures
            r@ == Seq::<TaskView>::empty(),
    {
        let r = TodoList { tasks: Vec::new() };
        assert(r@ =~= Seq::<TaskView>::empty());
        r
    }
}

impl TodoList {
    /// The position of task number `index`.
    fn checked_index(&self, index: usize) -> (r: Result<usize, AppError>)
        ensures
            match r {
                Ok(i) => valid_index(index, self@.len()) && i == index - 1,
                Err(e) => !valid_index(index, self@.len()) && e@ == index_error(index, self@.len()),
            },
    {
        if index == 0 || index > self.tasks.len() {
            return Err(AppError::InvalidTaskIndex { index, len: self.tasks.len() });
        }
        Ok(index - 1)
    }

    /// Adds an open, top-level task; returns its number.
    pub fn add(&mut self, text: String) -> (r: Result<usize, AppError>)
        ensures
            match new_task_spec(text@, 0, None, seq![]) {
                Ok(t) => r matches Ok(n) && n == old(self)@.len() + 1 && final(self)@ == old(
                    self,
                )@.push(t),
                Err(e) => r matches Err(x) && x@ == e && final(self)@ == old(self)@,
            },
    {
        let no_labels: Vec<String> = Vec::new();
        assert(strings_view(no_labels@) =~= Seq::<Seq<char>>::empty());
        self.add_with_metadata(text, None, no_labels)
    }

    /// Adds an open, top-level task with a priority and labels; returns its
    /// number.
    pub fn add_with_metadata(
        &mut self,
        text: String,
        priority: Option<Priority>,
        labels: Vec<String>,
    ) -> (r: Result<usize, AppError>)
        ensures
            match new_task_spec(text@, 0, priority, strings_view(labels@)) {
                Ok(t) => r matches Ok(n) && n == old(self)@.len() + 1 && final(self)@ == old(
                    self,
                )@.push(t),
                Err(e) => r matches Err(x) && x@ == e && final(self)@ == old(self)@,
            },
    {
        self.add_with_metadata_at_indent(text, 0, priority, labels)
    }

    fn add_with_metadata_at_indent(
        &mut self,
        text: String,
        indent: usize,
        priority: Option<Priority>,
        labels: Vec<String>,
    ) -> (r: Result<usize, AppError>)
        ensures
            match new_task_spec(text@, indent as nat, priority, strings_view(labels@)) {
                Ok(t) => r matches Ok(n) && n == old(self)@.len() + 1 && final(self)@ == old(
                    self,
                )@.push(t),
                Err(e) => r matches Err(x) && x@ == e && final(self)@ == old(self)@,
            },
    {
        let text = clean_task_text(text)?;
        let labels = clean_labels(labels)?;
        let ghost old_tasks = self.tasks@;
        self.tasks.push(Task { done: false, text, indent, priority, labels });
        assert(tasks_view(self.tasks@) =~= tasks_view(old_tasks).push(self.tasks@.last()@));
        Ok(self.tasks.len())
    }

    /// The end (exclusive) of the subtree of the task at position `index`.
    fn subtree_end(&self, index: usize) -> (r: usize)
        requires
            index < self@.len(),
        ensures
            r == subtree_end(self@, index as int),
    {
        let n = self.tasks.len();
        assert(index < n);
        let indent = self.tasks[index].indent;
        let mut j = index + 1;
        proof {
            assert(self@[index as int].indent == indent);
        }
        while j < self.tasks.len() && self.tasks[j].indent > indent
            invariant
                index < j <= self@.len(),
                self@.len() == self.tasks@.len(),
                self@ == tasks_view(self.tasks@),
                indent == self@[index as int].indent,
                subtree_end(self@, index as int) == first_not_deeper(self@, indent as nat, j as int),
            decreases self@.len() - j,
        {
            assert(self@[j as int].indent == self.tasks@[j as int].indent);
            j = j + 1;
        }
        proof {
            if j < self@.len() {
                assert(self@[j as int].indent == self.tasks@[j as int].indent);
            }
        }
        j
    }

    /// Adds an open subtask under task number `parent_index`, after its
    /// existing subtasks; returns the new task's number.
    pub fn add_child_with_metadata(
        &mut self,
        parent_index: usize,
        text: String,
        priority: Option<Priority>,
        labels: Vec<String>,
    ) -> (r: Result<usize, AppError>)
        requires
            valid_index(parent_index, old(self)@.len()) ==> old(self)@[parent_index - 1].indent
                < usize::MAX,
        ensures
            !valid_index(parent_index, old(self)@.len()) ==> (r matches Err(x) && x@ == index_error(
                parent_index,
                old(self)@.len(),
            ) && final(self)@ == old(self)@),
            valid_index(parent_index, old(self)@.len()) ==> match new_task_spec(
                text@,
                old(self)@[parent_index - 1].indent + 1,
                priority,
                strings_view(labels@),
            ) {
                Ok(t) => {
                    let at = subtree_end(old(self)@, parent_index - 1);
                    r matches Ok(n) && n == at + 1 && final(self)@ == old(self)@.insert(at, t)
                },
                Err(e) => r matches Err(x) && x@ == e && final(self)@ == old(self)@,
            },
    {
        let parent = self.checked_index(parent_index)?;
        assert(self@[parent as int].indent == self.tasks@[parent as int].indent);
        let indent = self.tasks[parent].indent + 1;
        let insert_at = self.subtree_end(parent);
        proof {
            lemma_first_not_deeper(self@, self@[parent as int].indent, parent + 1);
        }
        let text = clean_task_text(text)?;
        let labels = clean_labels(labels)?;
        let ghost old_tasks = self.tasks@;
        let task = Task { done: false, text, indent, priority, labels };
        self.tasks.insert(insert_at, task);
        assert(tasks_view(self.tasks@) =~= tasks_view(old_tasks).insert(insert_at as int, task@));
        let n = self.tasks.len();
        assert(insert_at < n);
        Ok(insert_at + 1)
    }

    /// Task number `index` and the tasks nested under it.
    pub fn subtree(&self, index: usize) -> (r: Result<&[Task], AppError>)
        ensures
            match r {
                Ok(s) => valid_index(index, self@.len()) && tasks_view(s@) == self@.subrange(
                    index - 1,
                    subtree_end(self@, index - 1),
                ),
                Err(e) => !valid_index(index, self@.len()) && e@ == index_error(index, self@.len()),
            },
    {
        let i = self.checked_index(index)?;
        let end = self.subtree_end(i);
        proof {
            lemma_first_not_deeper(self@, self@[i as int].indent, i + 1);
        }
        let s = self.tasks.as_slice();
        let r = &s[i..end];
        assert(tasks_view(r@) =~= self@.subrange(i as int, end as int));
        Ok(r)
    }

    /// Moves task number `from`, with its subtasks, so that it becomes task
    /// number `to` (or the last block when fewer tasks remain); returns the
    /// number it got. Nesting levels are kept as they are.
    pub fn move_task(&mut self, from: usize, to: usize) -> (r: Result<usize, AppError>)
        ensures
            match move_spec(old(self)@, from, to) {
                Ok(ts) => r matches Ok(n) && n == move_target(old(self)@, from, to) + 1
                    && final(self)@ == ts,
                Err(e) => r matches Err(x) && x@ == e && final(self)@ == old(self)@,
            },
    {
        let a = self.checked_index(from)?;
        let _ = self.checked_index(to)?;
        let ghost ts = self@;
        let e = self.subtree_end(a);
        proof {
            lemma_first_not_deeper(ts, ts[a as int].indent, a + 1);
        }
        let ghost blk = ts.subrange(a as int, e as int);
        let mut block: Vec<Task> = Vec::new();
        assert(ts =~= ts.subrange(0, a as int) + ts.subrange(a as int, ts.len() as int));
        while block.len() < e - a
            invariant
                a < e <= ts.len(),
                block@.len() <= e - a,
                self@ == ts.subrange(0, a as int) + ts.subrange(a + block@.len(), ts.len() as int),
                tasks_view(block@) == ts.subrange(a as int, a + block@.len()),
                self@.len() == self.tasks@.len(),
                self@ == tasks_view(self.tasks@),
            decreases e - a - block@.len(),
        {
            let ghost before = self.tasks@;
            let ghost bb = block@;
            assert(a < before.len());
            let t = self.tasks.remove(a);
            assert(t@ == tasks_view(before)[a as int]);
            assert(tasks_view(before)[a as int] == ts[a + bb.len()]);
            assert(tasks_view(self.tasks@) =~= tasks_view(before).remove(a as int));
            block.push(t);
            assert(tasks_view(block@) =~= tasks_view(bb).push(t@));
            assert(self@ =~= ts.subrange(0, a as int) + ts.subrange(
                a + block@.len(),
                ts.len() as int,
            ));
            assert(tasks_view(block@) =~= ts.subrange(a as int, a + block@.len()));
        }
        let ghost rest = self@;
        assert(rest =~= without_block(ts, a as int, e as int));
        let at = if to - 1 <= self.tasks.len() {
            to - 1
        } else {
            self.tasks.len()
        };
        assert(self.tasks.len() == rest.len());
        while block.len() > 0
            invariant
                at <= rest.len(),
                blk.len() == e - a,
                block@.len() <= blk.len(),
                tasks_view(block@) == blk.take(block@.len() as int),
                self@ == rest.take(at as int) + blk.skip(block@.len() as int) + rest.skip(at as int),
                self@ == tasks_view(self.tasks@),
                self@.len() == self.tasks@.len(),
            decreases block@.len(),
        {
            let ghost before = self.tasks@;
            let ghost bb = block@;
            let t = block.pop().unwrap();
            assert(t == bb.last());
            assert(tasks_view(bb)[bb.len() - 1] == t@);
            assert(blk.take(bb.len() as int)[bb.len() - 1] == blk[bb.len() - 1]);
            assert(tasks_view(block@) =~= tasks_view(bb).drop_last());
            assert(t@ == blk[block@.len() as int]);
            assert(at <= self.tasks@.len());
            self.tasks.insert(at, t);
            assert(tasks_view(self.tasks@) =~= tasks_view(before).insert(at as int, t@));
            assert(tasks_view(block@) =~= blk.take(block@.len() as int));
            assert(self@ =~= rest.take(at as int) + blk.skip(block@.len() as int) + rest.skip(
                at as int,
            ));
        }
        assert(blk.skip(0) =~= blk);
        Ok(at + 1)
    }

    /// Replaces the done flag of the task at position `i`.
    fn set_done_at(&mut self, i: usize, done: bool)
        requires
            i < old(self)@.len(),
        ensures
            final(self)@ == set_done(old(self)@, i as int, done),
    {
        let ghost old_tasks = self.tasks@;
        let mut t = self.tasks.remove(i);
        t.done = done;
        self.tasks.insert(i, t);
        assert(tasks_view(self.tasks@) =~= set_done(tasks_view(old_tasks), i as int, done));
    }

    /// Marks task number `index` done.
    pub fn mark_done(&mut self, index: usize) -> (r: Result<&Task, AppError>)
        ensures
            match r {
                Ok(t) => valid_index(index, old(self)@.len()) && final(self)@ == set_done(
                    old(self)@,
                    index - 1,
                    true,
                ) && t@ == final(self)@[index - 1],
                Err(e) => !valid_index(index, old(self)@.len()) && e@ == index_error(
                    index,
                    old(self)@.len(),
                ) && final(self)@ == old(self)@,
            },
    {
        let i = self.checked_index(index)?;
        self.set_done_at(i, true);
        assert(self@.len() == self.tasks@.len());
        assert(self@[i as int] == self.tasks@[i as int]@);
        Ok(&self.tasks[i])
    }

    /// Marks task number `index` open again.
    pub fn mark_undone(&mut self, index: usize) -> (r: Result<&Task, AppError>)
        ensures
            match r {
                Ok(t) => valid_index(index, old(self)@.len()) && final(self)@ == set_done(
                    old(self)@,
                    index - 1,
                    false,
                ) && t@ == final(self)@[index - 1],
                Err(e) => !valid_index(index, old(self)@.len()) && e@ == index_error(
                    index,
                    old(self)@.len(),
                ) && final(self)@ == old(self)@,
            },
    {
        let i = self.checked_index(index)?;
        self.set_done_at(i, false);
        assert(self@.len() == self.tasks@.len());
        assert(self@[i as int] == self.tasks@[i as int]@);
        Ok(&self.tasks[i])
    }

    /// Removes task number `index` and returns it.
    pub fn remove(&mut self, index: usize) -> (r: Result<Task, AppError>)
        ensures
            match r {
                Ok(t) => valid_index(index, old(self)@.len()) && t@ == old(self)@[index - 1]
                    && final(self)@ == old(self)@.remove(index - 1),
                Err(e) => !valid_index(index, old(self)@.len()) && e@ == index_error(
                    index,
                    old(self)@.len(),
                ) && final(self)@ == old(self)@,
            },
    {
        let i = self.checked_index(index)?;
        let ghost old_tasks = self.tasks@;
        let t = self.tasks.remove(i);
        assert(tasks_view(self.tasks@) =~= tasks_view(old_tasks).remove(i as int));
        Ok(t)
    }

    /// The first open task and its number, if any.
    pub fn next_open_task(&self) -> (r: Option<(usize, &Task)>)
        ensures
            match first_open_from(self@, 0) {
                None => r is None,
                Some(i) => r matches Some((n, t)) && n == i + 1 && t@ == self@[i],
            },
            match r {
                Some((n, t)) => 1 <= n <= self@.len() && !self@[n - 1].done && t@ == self@[n - 1]
                    && forall|j: int| 0 <= j < n - 1 ==> #[trigger] self@[j].done,
                None => forall|j: int| 0 <= j < self@.len() ==> #[trigger] self@[j].done,
            },
    {
        proof {
            lemma_first_open(self@, 0);
        }
        let mut i: usize = 0;
        while i < self.tasks.len()
            invariant
                i <= self@.len(),
                self@.len() == self.tasks@.len(),
                self@ == tasks_view(self.tasks@),
                first_open_from(self@, 0) == first_open_from(self@, i as int),
            decreases self@.len() - i,
        {
            assert(self@[i as int].done == self.tasks@[i as int].done);
            if !self.tasks[i].done {
                proof {
                    lemma_first_open(self@, 0);
                }
                return Some((i + 1, &self.tasks[i]));
            }
            i = i + 1;
        }
        None
    }

    /// Task number `index`.
    pub fn task(&self, index: usize) -> (r: Result<&Task, AppError>)
        ensures
            match r {
                Ok(t) => valid_index(index, self@.len()) && t@ == self@[index - 1],
                Err(e) => !valid_index(index, self@.len()) && e@ == index_error(index, self@.len()),
            },
    {
        let i = self.checked_index(index)?;
        Ok(&self.tasks[i])
    }

    /// The contents of the `.todo` file that holds this list: per task, two
    /// spaces per nesting level, `[x]` or `[ ]`, a space, the text with its
    /// tags, and a line feed.
    pub fn serialize(&self) -> (r: String)
        ensures
            r@ == serialize_tasks(self@),
    {
        let mut v: Vec<char> = Vec::new();
        let mut i: usize = 0;
        assert(self@.take(0) =~= Seq::<TaskView>::empty());
        while i < self.tasks.len()
            invariant
                i <= self@.len(),
                self@.len() == self.tasks@.len(),
                self@ == tasks_view(self.tasks@),
                v@ == serialize_tasks(self@.take(i as int)),
            decreases self@.len() - i,
        {
            let task = &self.tasks[i];
            let ghost before = v@;
            let mut k: usize = 0;
            while k < task.indent
                invariant
                    k <= task.indent,
                    v@ == before + Seq::new(2 * k as nat, |_i: int| ' '),
                decreases task.indent - k,
            {
                v.push(' ');
                v.push(' ');
                k = k + 1;
                assert(v@ =~= before + Seq::new(2 * k as nat, |_i: int| ' '));
            }
            if task.done {
                extend_str(&mut v, "[x]");
            } else {
                extend_str(&mut v, "[ ]");
            }
            v.push(' ');
            let rendered = task.render_text();
            extend_str(&mut v, rendered.as_str());
            v.push('\n');
            proof {
                reveal_strlit("[x]");
                reveal_strlit("[ ]");
                assert(task@ == self@[i as int]);
                assert(self@.take(i + 1) =~= self@.take(i as int).push(task@));
                lemma_serialize_push(self@.take(i as int), task@);
                assert(v@ =~= serialize_tasks(self@.take(i as int)) + task_line(task@) + seq!['\n']);
            }
            i = i + 1;
        }
        assert(self@.take(i as int) =~= self@);
        string_of(v.as_slice())
    }

    /// All tasks, in order.
    pub fn tasks(&self) -> (r: &[Task])
        ensures
            tasks_view(r@) == self@,
    {
        self.tasks.as_slice()
    }
}

} // verus!
