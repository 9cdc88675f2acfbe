//! Finding `TODO:` comments in the contents of tracked files, and reading
//! the file list that `git ls-files -z` prints.
use vstd::prelude::*;

use crate::text::{
    chars_of, decimal, decimal_chars, extend_chars, extend_str, find_chars, find_from,
    split_lines, string_of, trim, trimmed, views, lines,
};
use crate::todo::strings_view;

verus! {

/// What `String::from_utf8_lossy` makes of these bytes.
pub uninterp spec fn utf8_lossy(bytes: Seq<u8>) -> Seq<char>;

/// `String::from_utf8_lossy`, owned: the bytes decoded as UTF-8, each
/// invalid sequence replaced by U+FFFD. The result depends on the bytes
/// alone and is named `utf8_lossy`; what the decoding gives is not spelled
/// out here.
#[verifier::external_body]
pub(crate) fn decode_lossy(bytes: &[u8]) -> (r: String)
    ensures
        r@ == utf8_lossy(bytes@),
{
    String::from_utf8_lossy(bytes).into_owned()
}

/// The marker a comment line must hold.
pub const TODO_MARKER: &'static str = "TODO:";

/// The task for one line of a file: the text after the first `TODO:`,
/// trimmed, followed by ` (<path>:<line number>)`; none when the line has
/// no marker or nothing after it.
pub open spec fn scan_entry(line: Seq<char>, path: Seq<char>, number: nat) -> Option<Seq<char>> {
    match find_from(line, TODO_MARKER@, 0) {
        None => None,
        Some(k) => {
            let todo = trim(line.skip(k + TODO_MARKER@.len()));
            if todo.len() == 0 {
                None
            } else {
                Some(todo + " ("@ + path + ":"@ + decimal(number) + ")"@)
            }
        },
    }
}

/// The tasks of the lines `ls`, the first of which is line number `first`.
pub open spec fn scan_lines(ls: Seq<Seq<char>>, path: Seq<char>, first: nat) -> Seq<Seq<char>>
    decreases ls.len(),
{
    if ls.len() == 0 {
        seq![]
    } else {
        (match scan_entry(ls[0], path, first) {
            Some(t) => seq![t],
            None => seq![],
        }) + scan_lines(ls.drop_first(), path, first + 1)
    }
}

/// The tasks found in the text of the file at `path`, in line order.
pub open spec fn scan_spec(contents: Seq<char>, path: Seq<char>) -> Seq<Seq<char>> {
    scan_lines(lines(contents), path, 1)
}

/// The task for one line, if it has one.
fn scan_line(line: &[char], path: &str, number: usize) -> (r: Option<String>)
    ensures
        match r {
            Some(s) => scan_entry(line@, path@, number as nat) == Some(s@),
            None => scan_entry(line@, path@, number as nat) is None,
        },
{
    let marker = chars_of(TODO_MARKER);
    let n = line.len();
    match find_chars(line, marker.as_slice()) {
        None => None,
        Some(k) => {
            proof {
                crate::text::lemma_find_from(line@, marker@, 0);
                assert(crate::text::occurs_at(line@, marker@, k as int));
                assert(k + marker@.len() <= line@.len());
            }
            let after = crate::text::copy_range(line, k + marker.len(), n);
            assert(after@ =~= line@.skip(k + TODO_MARKER@.len()));
            let todo = trimmed(after.as_slice());
            if todo.len() == 0 {
                return None;
            }
            let mut out = todo;
            extend_str(&mut out, " (");
            extend_str(&mut out, path);
            extend_str(&mut out, ":");
            let d = decimal_chars(number);
            extend_chars(&mut out, d.as_slice());
            extend_str(&mut out, ")");
            Some(string_of(out.as_slice()))
        },
    }
}

/// The `TODO:` tasks in the text of the file at `relative_path`, one per
/// line that holds the marker with something after it, in line order.
pub fn scan_text(contents: &str, relative_path: &str) -> (r: Vec<String>)
    ensures
        strings_view(r@) == scan_spec(contents@, relative_path@),
{
    let cs = chars_of(contents);
    let ls = split_lines(cs.as_slice());
    let ghost all = lines(contents@);
    let mut r: Vec<String> = Vec::new();
    let mut i: usize = 0;
    assert(all.skip(0) =~= all);
    assert(strings_view(r@) + scan_lines(all.skip(0), relative_path@, 1) =~= scan_lines(
        all,
        relative_path@,
        1,
    ));
    while i < ls.len()
        invariant
            i <= ls@.len(),
            views(ls@) == all,
            scan_lines(all, relative_path@, 1) == strings_view(r@) + scan_lines(
                all.skip(i as int),
                relative_path@,
                (i + 1) as nat,
            ),
        decreases ls@.len() - i,
    {
        let ghost rest = all.skip(i as int);
        assert(rest[0] == ls@[i as int]@);
        assert(rest.drop_first() =~= all.skip(i + 1));
        let ghost before = r@;
        match scan_line(ls[i].as_slice(), relative_path, i + 1) {
            Some(t) => {
                r.push(t);
                assert(strings_view(r@) =~= strings_view(before) + seq![t@]);
            },
            None => {
                assert(strings_view(r@) =~= strings_view(before) + Seq::<Seq<char>>::empty());
            },
        }
        i = i + 1;
    }
    assert(all.skip(i as int).len() == 0);
    assert(strings_view(r@) + Seq::<Seq<char>>::empty() =~= strings_view(r@));
    r
}

/// Whether the bytes hold a NUL byte, the sign of a binary file.
fn has_nul(bytes: &[u8]) -> (r: bool)
    ensures
        r == bytes@.contains(0u8),
{
    let mut i: usize = 0;
    while i < bytes.len()
        invariant
            i <= bytes@.len(),
            forall|j: int| 0 <= j < i ==> bytes@[j] != 0u8,
        decreases bytes@.len() - i,
    {
        if bytes[i] == 0 {
            assert(bytes@[i as int] == 0u8);
            return true;
        }
        i = i + 1;
    }
    false
}

/// The tasks in a file's bytes: none for a binary file (one holding a NUL
/// byte), else those of its text decoded as `String::from_utf8_lossy` does.
pub fn scan_file_contents(bytes: &[u8], relative_path: &str) -> (r: Vec<String>)
    ensures
        bytes@.contains(0u8) ==> r@.len() == 0,
        !bytes@.contains(0u8) ==> strings_view(r@) == scan_spec(
            utf8_lossy(bytes@),
            relative_path@,
        ),
{
    if has_nul(bytes) {
        return Vec::new();
    }
    let text = decode_lossy(bytes);
    scan_text(text.as_str(), relative_path)
}

/// The fields of `b` between NUL bytes, empty ones dropped; `cur` is the
/// start of the field that `b` continues.
pub open spec fn nul_fields_from(b: Seq<u8>, cur: Seq<u8>) -> Seq<Seq<u8>>
    decreases b.len(),
{
    if b.len() == 0 {
        if cur.len() > 0 {
            seq![cur]
        } else {
            seq![]
        }
    } else if b[0] == 0u8 {
        (if cur.len() > 0 {
            seq![cur]
        } else {
            seq![]
        }) + nul_fields_from(b.drop_first(), seq![])
    } else {
        nul_fields_from(b.drop_first(), cur.push(b[0]))
    }
}

/// The non-empty fields of `b` between NUL bytes, in order.
pub open spec fn nul_fields(b: Seq<u8>) -> Seq<Seq<u8>> {
    nul_fields_from(b, seq![])
}

/// The decoded texts of byte strings.
pub open spec fn lossy_texts(fs: Seq<Seq<u8>>) -> Seq<Seq<char>> {
    fs.map_values(|f: Seq<u8>| utf8_lossy(f))
}

/// The paths that `git ls-files -z` printed: its NUL-separated entries,
/// empty ones dropped, each decoded as `String::from_utf8_lossy` does.
pub fn tracked_paths(stdout: &[u8]) -> (r: Vec<String>)
    ensures
        strings_view(r@) == lossy_texts(nul_fields(stdout@)),
{
    let ghost b = stdout@;
    let ghost mut done: Seq<Seq<u8>> = seq![];
    let mut r: Vec<String> = Vec::new();
    let mut cur: Vec<u8> = Vec::new();
    let mut i: usize = 0;
    assert(b.skip(0) =~= b);
    while i < stdout.len()
        invariant
            i <= b.len(),
            b == stdout@,
            nul_fields(b) == done + nul_fields_from(b.skip(i as int), cur@),
            strings_view(r@) == lossy_texts(done),
        decreases b.len() - i,
    {
        let ghost rest = b.skip(i as int);
        assert(rest[0] == b[i as int]);
        assert(rest.drop_first() =~= b.skip(i + 1));
        if stdout[i] == 0 {
            if cur.len() > 0 {
                let ghost field = cur@;
                let t = decode_lossy(cur.as_slice());
                r.push(t);
                proof {
                    let old_done = done;
                    let later = nul_fields_from(b.skip(i + 1), seq![]);
                    assert(old_done + (seq![field] + later) =~= old_done.push(field) + later);
                    done = old_done.push(field);
                    assert(lossy_texts(done) =~= lossy_texts(old_done).push(utf8_lossy(field)));
                }
                assert(strings_view(r@) =~= lossy_texts(done));
            } else {
                assert(Seq::<Seq<u8>>::empty() + nul_fields_from(b.skip(i + 1), seq![])
                    =~= nul_fields_from(b.skip(i + 1), seq![]));
            }
            cur = Vec::new();
            assert(cur@ =~= Seq::<u8>::empty());
        } else {
            cur.push(stdout[i]);
        }
        i = i + 1;
    }
    assert(b.skip(i as int).len() == 0);
    if cur.len() > 0 {
        let ghost field = cur@;
        let t = decode_lossy(cur.as_slice());
        r.push(t);
        proof {
            let old_done = done;
            assert(old_done + seq![field] =~= old_done.push(field));
            done = old_done.push(field);
            assert(lossy_texts(done) =~= lossy_texts(old_done).push(utf8_lossy(field)));
        }
        assert(strings_view(r@) =~= lossy_texts(done));
    } else {
        assert(done + Seq::<Seq<u8>>::empty() =~= done);
    }
    r
}

} // verus!
