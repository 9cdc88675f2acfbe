//! The section `to init` adds to the docs that coding agents read.
use vstd::prelude::*;

use crate::text::{chars_of, contains_chars, extend_chars, extend_str, has_substring, string_of};

verus! {

/// The line that opens the `to` section of an agent doc; a doc that holds
/// it already has the section.
pub const AGENT_SECTION_START: &'static str = "<!-- to:todo-instructions:start -->";

/// The rest of the `to` section, after its opening line.
pub const AGENT_SECTION_BODY: &'static str = "
## Project TODOs

This project uses the `to` CLI for project-scoped task tracking.

- Run `to ls` to inspect current tasks before starting work.
- Run `to tree <number>` to inspect a task and its subtasks.
- Run `to add \"task text\"` to add follow-up work.
- Run `to add \"task text\" --parent <number>` to add subtasks.
- Use `--priority <high|medium|low>` and `--label <label>` for task metadata.
- Run `to done <number>` when a task is complete.
- Prefer `to do <number> --create-branch` when starting agent-driven work.
<!-- to:todo-instructions:end -->
";

/// The doc file that `to init` keeps the section in.
pub const AGENT_DOC_FILE: &'static str = "AGENTS.md";

/// The whole `to` section.
pub open spec fn agent_section() -> Seq<char> {
    AGENT_SECTION_START@ + AGENT_SECTION_BODY@
}

/// What separates an existing doc from the section appended to it: a line
/// feed to end its last line if it needs one, then a blank line; nothing
/// for an empty doc.
pub open spec fn doc_separator(existing: Seq<char>) -> Seq<char> {
    if existing.len() == 0 {
        seq![]
    } else if existing.last() != '\n' {
        seq!['\n', '\n']
    } else {
        seq!['\n']
    }
}

/// The new contents of an agent doc (`None` when the file does not exist),
/// or `None` when it is to be left alone because it has the section.
pub open spec fn agent_doc_spec(existing: Option<Seq<char>>) -> Option<Seq<char>> {
    match existing {
        None => Some(agent_section()),
        Some(e) => if has_substring(e, AGENT_SECTION_START@) {
            None
        } else {
            Some(e + doc_separator(e) + agent_section())
        },
    }
}

/// The characters of an optional string slice.
pub open spec fn opt_str_view(o: Option<&str>) -> Option<Seq<char>> {
    match o {
        Some(s) => Some(s@),
        None => None,
    }
}

/// What to write to an agent doc whose contents are `existing` (`None` when
/// the file does not exist): the section alone for a new doc, the doc with
/// the section appended after a blank line when it lacks the section, and
/// `None` (nothing to write) when it has it.
pub fn agent_doc_contents(existing: Option<&str>) -> (r: Option<String>)
    ensures
        match r {
            Some(s) => agent_doc_spec(opt_str_view(existing)) == Some(s@),
            None => agent_doc_spec(opt_str_view(existing)) is None,
        },
{
    let mut out: Vec<char> = Vec::new();
    match existing {
        None => {},
        Some(e) => {
            let cs = chars_of(e);
            let start = chars_of(AGENT_SECTION_START);
            if contains_chars(cs.as_slice(), start.as_slice()) {
                return None;
            }
            extend_chars(&mut out, cs.as_slice());
            if cs.len() > 0 {
                if cs[cs.len() - 1] != '\n' {
                    out.push('\n');
                }
                out.push('\n');
            }
            assert(out@ =~= e@ + doc_separator(e@));
        },
    }
    let ghost before = out@;
    extend_str(&mut out, AGENT_SECTION_START);
    extend_str(&mut out, AGENT_SECTION_BODY);
    assert(out@ =~= before + agent_section());
    Some(string_of(out.as_slice()))
}

/// The section occurs in a doc that ends with it.
pub proof fn lemma_section_present(prefix: Seq<char>)
    ensures
        has_substring(prefix + agent_section(), AGENT_SECTION_START@),
{
    let d = prefix + agent_section();
    let n = AGENT_SECTION_START@.len();
    assert(d.subrange(prefix.len() as int, (prefix.len() + n) as int) =~= AGENT_SECTION_START@);
    assert(crate::text::occurs_at(d, AGENT_SECTION_START@, prefix.len() as int));
}

/// Updating an agent doc is idempotent: a doc that `to init` has written
/// needs no second update, so running `to init` again changes nothing and
/// the section is never added twice.
pub proof fn law_agent_doc_idempotent(existing: Option<Seq<char>>)
    ensures
        agent_doc_spec(existing) matches Some(updated) ==> agent_doc_spec(Some(updated)) is None,
{
    match existing {
        None => {
            assert(agent_section() =~= Seq::<char>::empty() + agent_section());
            lemma_section_present(Seq::<char>::empty());
        },
        Some(e) => {
            if !has_substring(e, AGENT_SECTION_START@) {
                let p = e + doc_separator(e);
                assert(e + doc_separator(e) + agent_section() =~= p + agent_section());
                lemma_section_present(p);
            }
        },
    }
}

/// An update keeps the doc's text: the new contents start with the old
/// ones and end with the section.
pub proof fn law_agent_doc_keeps_text(e: Seq<char>)
    ensures
        agent_doc_spec(Some(e)) matches Some(updated) ==> (updated.take(e.len() as int) == e
            && updated.skip(updated.len() - agent_section().len()) == agent_section()),
{
    if !has_substring(e, AGENT_SECTION_START@) {
        let updated = e + doc_separator(e) + agent_section();
        assert(updated.take(e.len() as int) =~= e);
        assert(updated.skip(updated.len() - agent_section().len()) =~= agent_section());
    }
}

/// Which directory's `.todo` is used, given for the directory the search
/// starts in and then each parent in turn whether it holds a `.todo` file:
/// the nearest one that does, or none.
pub fn nearest_todo(has_todo: &[bool]) -> (r: Option<usize>)
    ensures
        match r {
            Some(i) => i < has_todo@.len() && has_todo@[i as int] && forall|j: int|
                0 <= j < i ==> !has_todo@[j],
            None => forall|j: int| 0 <= j < has_todo@.len() ==> !has_todo@[j],
        },
{
    let mut i: usize = 0;
    while i < has_todo.len()
        invariant
            i <= has_todo@.len(),
            forall|j: int| 0 <= j < i ==> !has_todo@[j],
        decreases has_todo@.len() - i,
    {
        if has_todo[i] {
            return Some(i);
        }
        i = i + 1;
    }
    None
}

} // verus!
