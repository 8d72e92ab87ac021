//! Editing the text of a project file: a dependency is added as a line of
//! its own under the section it belongs to.

use vstd::prelude::*;
use vstd::string::StringExecFns;
use crate::maven::{count_char, count_of};
use crate::text::{chars_of, line_end, piece, string_of};

verus! {

/// `pat` stands in `s` at place `i`.
pub open spec fn occurs_at(s: Seq<char>, pat: Seq<char>, i: int) -> bool {
    0 <= i && i + pat.len() <= s.len() && s.subrange(i, i + pat.len()) == pat
}

/// `pat` stands somewhere in `s`.
pub open spec fn occurs(s: Seq<char>, pat: Seq<char>) -> bool {
    exists|i: int| occurs_at(s, pat, i)
}

/// `pat` stands in `s` at place `i` and at no earlier place.
pub open spec fn first_at(s: Seq<char>, pat: Seq<char>, i: int) -> bool {
    occurs_at(s, pat, i) && forall|j: int| 0 <= j < i ==> !occurs_at(s, pat, j)
}

/// Place of the last colon of a text that has one.
pub open spec fn last_colon(s: Seq<char>) -> int
    decreases s.len(),
{
    if s.len() == 0 {
        -1
    } else if s.last() == ':' {
        s.len() - 1
    } else {
        last_colon(s.drop_last())
    }
}

/// The key under which a dependency is written: group and artifact for a
/// dependency given as group, artifact and version with colons between,
/// and the whole text for any other.
pub open spec fn key_of(dep: Seq<char>) -> Seq<char> {
    if count_char(dep, ':') == 2 {
        dep.take(last_colon(dep))
    } else {
        dep
    }
}

/// The version that is written: the third part of a dependency of three
/// parts, and "latest" for any other.
pub open spec fn version_of(dep: Seq<char>) -> Seq<char> {
    if count_char(dep, ':') == 2 {
        dep.skip(last_colon(dep) + 1)
    } else {
        "latest"@
    }
}

/// A text between double quotes.
pub open spec fn quoted(s: Seq<char>) -> Seq<char> {
    seq!['"'] + s + seq!['"']
}

/// The line that declares a dependency.
pub open spec fn dependency_line(dep: Seq<char>) -> Seq<char> {
    quoted(key_of(dep)) + " = "@ + quoted(version_of(dep))
}

/// The header of the section for dependencies, or for test dependencies.
pub open spec fn section_header(is_test: bool) -> Seq<char> {
    if is_test {
        "[test-dependencies]"@
    } else {
        "[dependencies]"@
    }
}

/// Where a line goes under a header that stands at `pos`: after the first
/// line feed from `pos` on, and one place after `pos` where none follows.
pub open spec fn place_below(content: Seq<char>, pos: int) -> int {
    let end = pos + line_end(content.skip(pos));
    if end < content.len() {
        end + 1
    } else {
        pos + 1
    }
}

/// The content with the line put in below the header at `pos`.
pub open spec fn with_line_below(content: Seq<char>, pos: int, line: Seq<char>) -> Seq<char> {
    let at = place_below(content, pos);
    content.take(at) + line + seq!['\n'] + content.skip(at)
}

/// The content with a new section for the line at its end.
pub open spec fn with_new_section(content: Seq<char>, header: Seq<char>, line: Seq<char>) -> Seq<char> {
    content + seq!['\n'] + header + seq!['\n'] + line + seq!['\n']
}

/// What adding a dependency to a project file came to.
#[derive(Debug, Clone, PartialEq, Eq)]
pub enum Added {
    /// The file names the key already; nothing is changed.
    Present { key: String },
    /// The line was put in; this is the new content.
    Inserted { content: String, line: String },
}

/// Whether `pat` stands in `s` at place `i`.
pub(crate) fn matches_at(s: &Vec<char>, pat: &Vec<char>, i: usize) -> (r: bool)
    requires
        i + pat@.len() <= s@.len(),
    ensures
        r == occurs_at(s@, pat@, i as int),
{
    let n = s.len();
    let mut k: usize = 0;
    while k < pat.len()
        invariant
            k <= pat@.len(),
            n == s@.len(),
            i + pat@.len() <= s@.len(),
            forall|m: int| 0 <= m < k ==> s@[i + m] == pat@[m],
        decreases pat.len() - k,
    {
        if s[i + k] != pat[k] {
            return false;
        }
        k = k + 1;
    }
    assert(s@.subrange(i as int, i + pat@.len()) =~= pat@);
    true
}

/// The first place at which `pat` stands in `s`.
pub fn find_first(s: &Vec<char>, pat: &Vec<char>) -> (r: Option<usize>)
    ensures
        match r {
            Some(i) => first_at(s@, pat@, i as int),
            None => !occurs(s@, pat@),
        },
{
    if pat.len() > s.len() {
        return None;
    }
    let last = s.len() - pat.len();
    let mut i: usize = 0;
    while i <= last
        invariant
            i <= last + 1,
            last == s@.len() - pat@.len(),
            forall|j: int| 0 <= j < i ==> !occurs_at(s@, pat@, j),
        decreases last + 1 - i,
    {
        if matches_at(s, pat, i) {
            return Some(i);
        }
        if i == last {
            assert forall|j: int| !occurs_at(s@, pat@, j) by {}
            return None;
        }
        i = i + 1;
    }
    None
}

/// Place of the last colon.
fn find_last_colon(s: &Vec<char>) -> (r: usize)
    requires
        count_char(s@, ':') > 0,
    ensures
        r == last_colon(s@),
        r < s@.len(),
{
    let mut i: usize = s.len();
    assert(s@.take(s@.len() as int) =~= s@);
    while i > 0 && s[i - 1] != ':'
        invariant
            i <= s@.len(),
            count_char(s@.take(i as int), ':') > 0,
            last_colon(s@.take(i as int)) == last_colon(s@),
        decreases i,
    {
        proof {
            assert(s@.take(i as int).drop_last() =~= s@.take(i - 1));
        }
        i = i - 1;
    }
    i - 1
}

/// Adds a dependency to the text of a project file. A dependency given as
/// group, artifact and version is written as group and artifact with the
/// version; any other is written whole with the version "latest". Where the
/// file names the key between quotes already, nothing is added. Else the
/// line goes right below the header of its section, or, where the file has
/// no such header, into a new section at the end.
pub fn add_dependency(content: &str, dep: &str, is_test: bool) -> (r: Added)
    ensures
        match r {
            Added::Present { key } => key@ == key_of(dep@) && occurs(content@, quoted(key_of(dep@))),
            Added::Inserted { content: new_content, line } => {
                &&& line@ == dependency_line(dep@)
                &&& !occurs(content@, quoted(key_of(dep@)))
                &&& occurs(content@, section_header(is_test)) ==> exists|pos: int|
                    #[trigger] first_at(content@, section_header(is_test), pos) && new_content@ == with_line_below(
                        content@,
                        pos,
                        line@,
                    )
                &&& !occurs(content@, section_header(is_test)) ==> new_content@ == with_new_section(
                    content@,
                    section_header(is_test),
                    line@,
                )
            },
        },
{
    let text = chars_of(content);
    let d = chars_of(dep);
    let dep_len = d.len();
    let (key, version) = if count_of(&d, ':') == 2 {
        let at = find_last_colon(&d);
        (piece(&d, 0, at), piece(&d, at + 1, dep_len))
    } else {
        (String::from_str(dep), String::from_str("latest"))
    };
    let mut quoted_key = String::from_str("\"");
    quoted_key.append(key.as_str());
    quoted_key.append("\"");
    proof {
        reveal_strlit("\"");
        assert(quoted_key@ =~= quoted(key@));
    }
    let mut line = quoted_key.clone();
    line.append(" = ");
    line.append("\"");
    line.append(version.as_str());
    line.append("\"");
    let wanted = chars_of(quoted_key.as_str());
    match find_first(&text, &wanted) {
        Some(i) => {
            return Added::Present { key };
        },
        None => {},
    }
    let header = if is_test {
        "[test-dependencies]"
    } else {
        "[dependencies]"
    };
    let header_chars = chars_of(header);
    let line_chars = chars_of(line.as_str());
    proof {
        reveal_strlit("[test-dependencies]");
        reveal_strlit("[dependencies]");
    }
    let mut out: Vec<char> = Vec::new();
    match find_first(&text, &header_chars) {
        Some(pos) => {
            let mut end: usize = pos;
            while end < text.len() && text[end] != '\n'
                invariant
                    pos <= end <= text@.len(),
                    forall|k: int| pos <= k < end ==> text@[k] != '\n',
                decreases text.len() - end,
            {
                end = end + 1;
            }
            proof {
                let rest = text@.skip(pos as int);
                crate::text::lemma_line_end_is(rest, end - pos);
            }
            let at = if end < text.len() {
                end + 1
            } else {
                pos + 1
            };
            append_range(&mut out, &text, 0, at);
            append_range(&mut out, &line_chars, 0, line_chars.len());
            out.push('\n');
            append_range(&mut out, &text, at, text.len());
        },
        None => {
            append_range(&mut out, &text, 0, text.len());
            out.push('\n');
            append_range(&mut out, &header_chars, 0, header_chars.len());
            out.push('\n');
            append_range(&mut out, &line_chars, 0, line_chars.len());
            out.push('\n');
        },
    }
    Added::Inserted { content: string_of(&out), line }
}

/// Appends the part of `from` between `start` and `end` to `out`.
fn append_range(out: &mut Vec<char>, from: &Vec<char>, start: usize, end: usize)
    requires
        start <= end <= from@.len(),
    ensures
        final(out)@ == old(out)@ + from@.subrange(start as int, end as int),
{
    let ghost before = out@;
    let mut i: usize = start;
    while i < end
        invariant
            start <= i <= end,
            end <= from@.len(),
            out@ == before + from@.subrange(start as int, i as int),
        decreases end - i,
    {
        out.push(from[i]);
        i = i + 1;
    }
}

} // verus!
