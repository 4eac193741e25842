//! The listing that is handed to the editor, and what is read back from it.
//!
//! The listing begins with two lines of comment and an empty line. Then every
//! name follows as one line. Reading skips the lines that are empty or begin
//! with `#`, so a name that is empty or begins with `#` is lost on the way, and
//! so is a carriage return at the end of a name.

use crate::escape_newlines::{
    escape, escaped, has_backslash_newline, lemma_escape_ends, lemma_escape_has_no_newline,
    lemma_round_trip, unescape, unescaped, NewlineEscaped,
};
use crate::text::{chars_of, push_chars};
use vstd::prelude::*;

verus! {

/// What every listing begins with: two lines of comment and an empty line.
pub open spec fn header() -> Seq<char> {
    "# Rename the files below."@ + seq!['\n']
        + "# Do not delete or move lines as the order is used for the rename."@ + seq![
        '\n',
        '\n',
    ]
}

/// The lines of `names`, each with a newline after it.
pub open spec fn body(names: Seq<Seq<char>>) -> Seq<char>
    decreases names.len(),
{
    if names.len() == 0 {
        Seq::empty()
    } else {
        body(names.drop_last()) + escape(names.last()) + seq!['\n']
    }
}

/// The listing of `names`.
pub open spec fn listing_of(names: Seq<Seq<char>>) -> Seq<char> {
    header() + body(names)
}

/// `line` without the carriage return at its end, if it has one.
pub open spec fn without_carriage_return(line: Seq<char>) -> Seq<char> {
    if line.len() > 0 && line.last() == '\r' {
        line.drop_last()
    } else {
        line
    }
}

/// Whether `line` is read as a name: it is not empty and does not begin with `#`.
pub open spec fn is_name_line(line: Seq<char>) -> bool {
    line.len() > 0 && line[0] != '#'
}

/// `line` if it is read as a name, and nothing if it is not.
pub open spec fn kept(line: Seq<char>) -> Seq<Seq<char>> {
    if is_name_line(line) {
        seq![line]
    } else {
        Seq::empty()
    }
}

/// The lines of `text` that are read as names, where `current` has been read
/// of a line that `text` goes on with. A line ends before a newline, or before
/// a carriage return and a newline, or at the end of the text.
pub open spec fn name_lines_from(text: Seq<char>, current: Seq<char>) -> Seq<Seq<char>>
    decreases text.len(),
{
    if text.len() == 0 {
        kept(current)
    } else if text[0] == '\n' {
        kept(without_carriage_return(current)) + name_lines_from(text.skip(1), Seq::empty())
    } else {
        name_lines_from(text.skip(1), current.push(text[0]))
    }
}

/// The lines of `text` that are read as names.
pub open spec fn name_lines(text: Seq<char>) -> Seq<Seq<char>> {
    name_lines_from(text, Seq::empty())
}

/// The texts of `lines`.
pub open spec fn texts_of(lines: Seq<NewlineEscaped>) -> Seq<Seq<char>> {
    Seq::new(lines.len(), |i: int| lines[i]@)
}

/// The texts of `names`.
pub open spec fn names_of(names: Seq<String>) -> Seq<Seq<char>> {
    Seq::new(names.len(), |i: int| names[i]@)
}

/// Reading a line: where `line` holds no newline, `line` and a newline after
/// what was read before make one line.
pub proof fn lemma_read_line(line: Seq<char>, current: Seq<char>)
    requires
        !line.contains('\n'),
    ensures
        name_lines_from(line + seq!['\n'], current) == kept(
            without_carriage_return(current + line),
        ),
    decreases line.len(),
{
    let text = line + seq!['\n'];
    if line.len() == 0 {
        assert(text.skip(1) =~= Seq::<char>::empty());
        assert(current + line =~= current);
        assert(text[0] == '\n');
        assert(name_lines_from(text.skip(1), Seq::empty()) =~= Seq::<Seq<char>>::empty());
        assert(name_lines_from(text, current) =~= kept(without_carriage_return(current)));
    } else {
        assert(line[0] != '\n');
        assert(text.skip(1) =~= line.skip(1) + seq!['\n']);
        assert(!line.skip(1).contains('\n')) by {
            if line.skip(1).contains('\n') {
                let j = choose|j: int| 0 <= j < line.skip(1).len() && line.skip(1)[j] == '\n';
                assert(line[j + 1] == '\n');
            }
        }
        lemma_read_line(line.skip(1), current.push(line[0]));
        assert(current.push(line[0]) + line.skip(1) =~= current + line);
    }
}

/// Reading on: after text that ends in a newline, a new line begins.
pub proof fn lemma_read_on(text: Seq<char>, more: Seq<char>, current: Seq<char>)
    requires
        text.len() > 0,
        text.last() == '\n',
    ensures
        name_lines_from(text + more, current) == name_lines_from(text, current) + name_lines(
            more,
        ),
    decreases text.len(),
{
    let all = text + more;
    if text.len() == 1 {
        assert(all.skip(1) =~= more);
        assert(text.skip(1) =~= Seq::<char>::empty());
        assert(text[0] == '\n');
        assert(name_lines_from(text.skip(1), Seq::empty()) =~= Seq::<Seq<char>>::empty());
        assert(name_lines_from(text, current) =~= kept(without_carriage_return(current)));
    } else {
        assert(all.skip(1) =~= text.skip(1) + more);
        if text[0] == '\n' {
            lemma_read_on(text.skip(1), more, Seq::empty());
            assert(name_lines_from(all, current) =~= name_lines_from(text, current) + name_lines(
                more,
            ));
        } else {
            lemma_read_on(text.skip(1), more, current.push(text[0]));
        }
    }
}

/// Whether a name stands in a listing as a line that is read as the name's
/// line: the name is not empty, does not begin with `#` and does not end in a
/// carriage return.
pub open spec fn is_listable(name: Seq<char>) -> bool {
    name.len() > 0 && name[0] != '#' && name.last() != '\r'
}

/// The lines of `names`.
pub open spec fn escaped_all(names: Seq<Seq<char>>) -> Seq<Seq<char>> {
    Seq::new(names.len(), |i: int| escape(names[i]))
}

/// The names that `lines` stand for.
pub open spec fn unescaped_all(lines: Seq<Seq<char>>) -> Seq<Seq<char>> {
    Seq::new(lines.len(), |i: int| unescape(lines[i]))
}

proof fn lemma_body_lines(names: Seq<Seq<char>>)
    requires
        forall|i: int| 0 <= i < names.len() ==> is_listable(#[trigger] names[i]),
    ensures
        name_lines(body(names)) == escaped_all(names),
        body(names).len() == 0 || body(names).last() == '\n',
    decreases names.len(),
{
    if names.len() == 0 {
        assert(name_lines(body(names)) =~= escaped_all(names));
    } else {
        let before = names.drop_last();
        let line = escape(names.last());
        assert forall|i: int| 0 <= i < before.len() implies is_listable(#[trigger] before[i]) by {
            assert(before[i] == names[i]);
        }
        lemma_body_lines(before);
        assert(is_listable(names.last()));
        lemma_escape_has_no_newline(names.last());
        lemma_escape_ends(names.last(), '#');
        lemma_escape_ends(names.last(), '\r');
        lemma_read_line(line, Seq::empty());
        assert(Seq::<char>::empty() + line =~= line);
        assert(name_lines(line + seq!['\n']) == seq![line]);
        assert(body(names) =~= body(before) + (line + seq!['\n']));
        if body(before).len() == 0 {
            assert(body(before) + (line + seq!['\n']) =~= line + seq!['\n']);
            assert(before.len() == 0) by {
                if before.len() > 0 {
                    assert(body(before).len() > 0);
                }
            }
        } else {
            lemma_read_on(body(before), line + seq!['\n'], Seq::empty());
        }
        assert(escaped_all(before) + seq![line] =~= escaped_all(names));
    }
}

proof fn lemma_header_lines()
    ensures
        name_lines(header()) == Seq::<Seq<char>>::empty(),
        header().len() > 0,
        header().last() == '\n',
{
    let first = "# Rename the files below."@;
    let second = "# Do not delete or move lines as the order is used for the rename."@;
    reveal_strlit("# Rename the files below.");
    reveal_strlit("# Do not delete or move lines as the order is used for the rename.");
    assert(first[0] == '#' && first.len() == 25);
    assert(second[0] == '#' && second.len() == 66);
    assert(!first.contains('\n'));
    assert(!second.contains('\n'));
    let empty = Seq::<char>::empty();
    lemma_read_line(first, empty);
    lemma_read_line(second, empty);
    lemma_read_line(empty, empty);
    assert(empty + first =~= first);
    assert(empty + second =~= second);
    assert(empty + empty =~= empty);
    assert(without_carriage_return(first)[0] == '#');
    assert(without_carriage_return(second)[0] == '#');
    let one = first + seq!['\n'];
    let two = second + seq!['\n'];
    let three = empty + seq!['\n'];
    lemma_read_on(one, two + three, empty);
    lemma_read_on(two, three, empty);
    assert(header() =~= one + (two + three));
}

/// Every listing reads as the lines of its names: the names come back escaped,
/// in order, if none of them is empty, begins with `#` or ends in a carriage
/// return.
pub proof fn lemma_listing_reads_as_written(names: Seq<Seq<char>>)
    requires
        forall|i: int| 0 <= i < names.len() ==> is_listable(#[trigger] names[i]),
    ensures
        name_lines(listing_of(names)) == escaped_all(names),
{
    lemma_header_lines();
    lemma_body_lines(names);
    lemma_read_on(header(), body(names), Seq::empty());
    assert(Seq::<Seq<char>>::empty() + escaped_all(names) =~= escaped_all(names));
}

/// Names come back from their listing: what is read from the listing of
/// `names` stands for `names`, if none of them is empty, begins with `#`, ends
/// in a carriage return or holds a newline directly after a backslash.
pub proof fn lemma_names_come_back(names: Seq<Seq<char>>)
    requires
        forall|i: int|
            0 <= i < names.len() ==> is_listable(#[trigger] names[i]) && !has_backslash_newline(
                names[i],
            ),
    ensures
        unescaped_all(name_lines(listing_of(names))) == names,
{
    lemma_listing_reads_as_written(names);
    assert forall|i: int| 0 <= i < names.len() implies unescape(escape(names[i]))
        == #[trigger] names[i] by {
        lemma_round_trip(names[i]);
    }
    assert(unescaped_all(escaped_all(names)) =~= names);
}

/// The listing of `file_names`: the header, and then every name as one line.
pub fn listing(file_names: &Vec<String>) -> (text: String)
    ensures
        text@ == listing_of(names_of(file_names@)),
{
    let mut text = String::new();
    push_chars(&mut text, "# Rename the files below.");
    text.push('\n');
    push_chars(&mut text, "# Do not delete or move lines as the order is used for the rename.");
    text.push('\n');
    text.push('\n');
    assert(text@ =~= header());
    let ghost names = names_of(file_names@);
    let mut i: usize = 0;
    assert(names.take(0) =~= Seq::empty());
    assert(text@ =~= header() + body(names.take(0)));
    while i < file_names.len()
        invariant
            i <= file_names.len(),
            names == names_of(file_names@),
            text@ == header() + body(names.take(i as int)),
        decreases file_names.len() - i,
    {
        let line = escaped(file_names[i].as_str());
        push_chars(&mut text, line.as_str());
        text.push('\n');
        assert(names.take(i + 1).drop_last() =~= names.take(i as int));
        assert(text@ =~= header() + body(names.take(i + 1)));
        i += 1;
    }
    assert(names.take(i as int) =~= names);
    text
}

/// The string of the characters `chars`.
fn string_of(chars: &Vec<char>) -> (s: String)
    ensures
        s@ == chars@,
{
    let mut s = String::new();
    let mut i: usize = 0;
    while i < chars.len()
        invariant
            i <= chars.len(),
            s@ == chars@.take(i as int),
        decreases chars.len() - i,
    {
        s.push(chars[i]);
        i += 1;
        assert(s@ =~= chars@.take(i as int));
    }
    assert(chars@.take(i as int) =~= chars@);
    s
}

/// Adds `current` to `lines` if it is read as a name.
fn keep(lines: &mut Vec<NewlineEscaped>, current: &Vec<char>)
    ensures
        texts_of(final(lines)@) == texts_of(old(lines)@) + kept(current@),
{
    if current.len() > 0 && current[0] != '#' {
        lines.push(NewlineEscaped::new(string_of(current)));
        assert(texts_of(lines@) =~= texts_of(old(lines)@) + kept(current@));
    } else {
        assert(texts_of(lines@) =~= texts_of(old(lines)@) + kept(current@));
    }
}

/// The lines of an edited listing that stand for names, in order: every line
/// but those that are empty or begin with `#`.
pub fn parse_file_names(text: &str) -> (lines: Vec<NewlineEscaped>)
    ensures
        texts_of(lines@) == name_lines(text@),
{
    let chars = chars_of(text);
    let mut lines: Vec<NewlineEscaped> = Vec::new();
    let mut current: Vec<char> = Vec::new();
    let mut i: usize = 0;
    assert(chars@.skip(0) =~= chars@);
    assert(texts_of(lines@) + name_lines(chars@) =~= name_lines(chars@));
    while i < chars.len()
        invariant
            i <= chars.len(),
            texts_of(lines@) + name_lines_from(chars@.skip(i as int), current@) == name_lines(
                chars@,
            ),
        decreases chars.len() - i,
    {
        let c = chars[i];
        let ghost rest = chars@.skip(i as int);
        let ghost read = texts_of(lines@);
        let ghost line = current@;
        assert(rest.skip(1) =~= chars@.skip(i + 1));
        if c == '\n' {
            if current.len() > 0 && current[current.len() - 1] == '\r' {
                current.pop();
            }
            keep(&mut lines, &current);
            current = Vec::new();
            assert(texts_of(lines@) + name_lines_from(rest.skip(1), current@) =~= read
                + name_lines_from(rest, line)) by {
                assert(current@ =~= Seq::empty());
            }
        } else {
            current.push(c);
        }
        i += 1;
    }
    keep(&mut lines, &current);
    lines
}

/// The names that `lines` stand for.
pub fn unescape_all(lines: Vec<NewlineEscaped>) -> (names: Vec<String>)
    ensures
        names_of(names@) == unescaped_all(texts_of(lines@)),
{
    let mut names: Vec<String> = Vec::new();
    let mut i: usize = 0;
    while i < lines.len()
        invariant
            i <= lines.len(),
            names@.len() == i,
            forall|j: int| 0 <= j < i ==> (#[trigger] names@[j])@ == unescape(lines@[j]@),
        decreases lines.len() - i,
    {
        names.push(unescaped(lines[i].as_str()));
        i += 1;
    }
    assert(names_of(names@) =~= unescaped_all(texts_of(lines@)));
    names
}

} // verus!
