//! Names as single lines of text.
//!
//! A name may hold newlines; a line of the listing may not. [`escape`] writes
//! each newline as a backslash and an `n`, after it has doubled every backslash
//! that stood directly before an `n`, and [`unescape`] reads such a line back.

use crate::text::{chars_of, push_repeated, repeated};
use vstd::prelude::*;

verus! {

/// `s` with every backslash doubled that stands directly before an `n`.
pub open spec fn widen(s: Seq<char>) -> Seq<char>
    decreases s.len(),
{
    if s.len() == 0 {
        s
    } else if s.len() >= 2 && s[0] == '\\' && s[1] == 'n' {
        seq!['\\', '\\', 'n'] + widen(s.skip(2))
    } else {
        seq![s[0]] + widen(s.skip(1))
    }
}

/// `s` with every newline written as a backslash and an `n`.
pub open spec fn newlines_written_out(s: Seq<char>) -> Seq<char>
    decreases s.len(),
{
    if s.len() == 0 {
        s
    } else if s[0] == '\n' {
        seq!['\\', 'n'] + newlines_written_out(s.skip(1))
    } else {
        seq![s[0]] + newlines_written_out(s.skip(1))
    }
}

/// The line that stands for the name `s`.
pub open spec fn escape(s: Seq<char>) -> Seq<char> {
    newlines_written_out(widen(s))
}

/// What an `n` stands for that follows `pending` backslashes.
pub open spec fn n_after(pending: nat) -> Seq<char> {
    if pending == 0 {
        seq!['n']
    } else if pending == 1 {
        seq!['\n']
    } else {
        repeated('\\', (pending - 1) as nat).push('n')
    }
}

/// What `line` stands for when `pending` backslashes have been read just
/// before it and not yet written.
pub open spec fn scan(line: Seq<char>, pending: nat) -> Seq<char>
    decreases line.len(),
{
    if line.len() == 0 {
        repeated('\\', pending)
    } else if line[0] == '\\' {
        scan(line.skip(1), pending + 1)
    } else if line[0] == 'n' {
        n_after(pending) + scan(line.skip(1), 0)
    } else {
        repeated('\\', pending).push(line[0]) + scan(line.skip(1), 0)
    }
}

/// The name that `line` stands for.
pub open spec fn unescape(line: Seq<char>) -> Seq<char> {
    scan(line, 0)
}

/// [`escape`] in one pass from left to right.
pub open spec fn escape_in_one_pass(s: Seq<char>) -> Seq<char>
    decreases s.len(),
{
    if s.len() == 0 {
        s
    } else if s[0] == '\n' {
        seq!['\\', 'n'] + escape_in_one_pass(s.skip(1))
    } else if s.len() >= 2 && s[0] == '\\' && s[1] == 'n' {
        seq!['\\', '\\', 'n'] + escape_in_one_pass(s.skip(2))
    } else {
        seq![s[0]] + escape_in_one_pass(s.skip(1))
    }
}

/// Writing newlines out goes through a concatenation.
pub proof fn lemma_newlines_written_out_concat(a: Seq<char>, b: Seq<char>)
    ensures
        newlines_written_out(a + b) == newlines_written_out(a) + newlines_written_out(b),
    decreases a.len(),
{
    if a.len() == 0 {
        assert(a + b =~= b);
    } else {
        assert((a + b).skip(1) =~= a.skip(1) + b);
        lemma_newlines_written_out_concat(a.skip(1), b);
    }
}

/// The two passes of [`escape`] give what one pass over the name gives.
pub proof fn lemma_escape_in_one_pass(s: Seq<char>)
    ensures
        escape(s) == escape_in_one_pass(s),
    decreases s.len(),
{
    if s.len() == 0 {
    } else if s.len() >= 2 && s[0] == '\\' && s[1] == 'n' {
        let head = seq!['\\', '\\', 'n'];
        lemma_newlines_written_out_concat(head, widen(s.skip(2)));
        assert(newlines_written_out(head) == head) by {
            assert(head.skip(1) =~= seq!['\\', 'n']);
            assert(head.skip(1).skip(1) =~= seq!['n']);
            assert(head.skip(1).skip(1).skip(1) =~= Seq::<char>::empty());
            reveal_with_fuel(newlines_written_out, 4);
        }
        lemma_escape_in_one_pass(s.skip(2));
    } else {
        let head = seq![s[0]];
        lemma_newlines_written_out_concat(head, widen(s.skip(1)));
        assert(head.skip(1) =~= Seq::<char>::empty());
        assert(newlines_written_out(head) == if s[0] == '\n' {
            seq!['\\', 'n']
        } else {
            head
        }) by {
            reveal_with_fuel(newlines_written_out, 2);
        }
        lemma_escape_in_one_pass(s.skip(1));
    }
}

/// No line that [`escape`] gives holds a newline.
pub proof fn lemma_escape_has_no_newline(s: Seq<char>)
    ensures
        !escape(s).contains('\n'),
    decreases s.len(),
{
    lemma_escape_in_one_pass(s);
    if s.len() == 0 {
    } else if s[0] != '\n' && s.len() >= 2 && s[0] == '\\' && s[1] == 'n' {
        lemma_escape_has_no_newline(s.skip(2));
        lemma_escape_in_one_pass(s.skip(2));
    } else {
        lemma_escape_has_no_newline(s.skip(1));
        lemma_escape_in_one_pass(s.skip(1));
    }
}

/// The line of a name begins and ends as the name does: it is empty if the
/// name is, it begins with a character other than a backslash if the name
/// begins with it, and it ends in a character other than `n` and a backslash
/// if the name ends in it.
pub proof fn lemma_escape_ends(s: Seq<char>, c: char)
    requires
        c != '\\',
        c != 'n',
        c != '\n',
    ensures
        escape(s).len() == 0 <==> s.len() == 0,
        s.len() > 0 ==> (escape(s)[0] == c <==> s[0] == c),
        s.len() > 0 ==> (escape(s).last() == c <==> s.last() == c),
    decreases s.len(),
{
    lemma_escape_in_one_pass(s);
    if s.len() == 0 {
    } else if s[0] != '\n' && s.len() >= 2 && s[0] == '\\' && s[1] == 'n' {
        lemma_escape_ends(s.skip(2), c);
        lemma_escape_in_one_pass(s.skip(2));
    } else {
        lemma_escape_ends(s.skip(1), c);
        lemma_escape_in_one_pass(s.skip(1));
    }
}

/// Whether a newline stands in `s` at `i + 1`, directly after a backslash at `i`.
pub open spec fn backslash_newline_at(s: Seq<char>, i: int) -> bool {
    0 <= i && i + 1 < s.len() && s[i] == '\\' && s[i + 1] == '\n'
}

/// Whether some newline of `s` stands directly after a backslash.
pub open spec fn has_backslash_newline(s: Seq<char>) -> bool {
    exists|i: int| backslash_newline_at(s, i)
}

/// `s` with an `n` in place of every newline that stands directly after a
/// backslash; `after_backslash` says whether a backslash stands before `s`.
pub open spec fn there_and_back(s: Seq<char>, after_backslash: bool) -> Seq<char>
    decreases s.len(),
{
    if s.len() == 0 {
        s
    } else {
        seq![if s[0] == '\n' && after_backslash { 'n' } else { s[0] }] + there_and_back(
            s.skip(1),
            s[0] == '\\',
        )
    }
}

proof fn lemma_scan_escape(s: Seq<char>, pending: nat)
    requires
        pending > 0 ==> s.len() == 0 || s[0] != 'n',
    ensures
        scan(escape_in_one_pass(s), pending) == repeated('\\', pending) + there_and_back(
            s,
            pending > 0,
        ),
    decreases s.len(),
{
    let line = escape_in_one_pass(s);
    let slashes = repeated('\\', pending);
    if s.len() == 0 {
        assert(scan(line, pending) =~= slashes + there_and_back(s, pending > 0));
    } else if s[0] == '\n' {
        let rest = escape_in_one_pass(s.skip(1));
        assert(line.skip(1) =~= seq!['n'] + rest);
        assert(line.skip(1).skip(1) =~= rest);
        lemma_scan_escape(s.skip(1), 0);
        assert(repeated('\\', 0) + there_and_back(s.skip(1), false) =~= there_and_back(
            s.skip(1),
            false,
        ));
        assert(scan(line, pending) == scan(line.skip(1), pending + 1));
        assert(scan(line.skip(1), pending + 1) == n_after(pending + 1) + scan(rest, 0));
        assert(scan(line, pending) =~= slashes + there_and_back(s, pending > 0));
    } else if s.len() >= 2 && s[0] == '\\' && s[1] == 'n' {
        let rest = escape_in_one_pass(s.skip(2));
        assert(line.skip(1) =~= seq!['\\', 'n'] + rest);
        assert(line.skip(1).skip(1) =~= seq!['n'] + rest);
        assert(line.skip(1).skip(1).skip(1) =~= rest);
        lemma_scan_escape(s.skip(2), 0);
        assert(repeated('\\', 0) + there_and_back(s.skip(2), false) =~= there_and_back(
            s.skip(2),
            false,
        ));
        assert(scan(line, pending) == scan(line.skip(1), pending + 1));
        assert(scan(line.skip(1), pending + 1) == scan(line.skip(1).skip(1), pending + 2));
        assert(scan(line.skip(1).skip(1), pending + 2) == n_after(pending + 2) + scan(rest, 0));
        assert(s.skip(1).skip(1) =~= s.skip(2));
        assert(there_and_back(s.skip(1), true) == seq!['n'] + there_and_back(s.skip(2), false));
        assert(there_and_back(s, pending > 0) == seq!['\\'] + (seq!['n'] + there_and_back(
            s.skip(2),
            false,
        )));
        assert(scan(line, pending) =~= slashes + there_and_back(s, pending > 0));
    } else if s[0] == '\\' {
        let rest = escape_in_one_pass(s.skip(1));
        assert(line.skip(1) =~= rest);
        lemma_scan_escape(s.skip(1), pending + 1);
        assert(scan(line, pending) =~= slashes + there_and_back(s, pending > 0));
    } else {
        let rest = escape_in_one_pass(s.skip(1));
        assert(line.skip(1) =~= rest);
        lemma_scan_escape(s.skip(1), 0);
        assert(repeated('\\', 0) + there_and_back(s.skip(1), false) =~= there_and_back(
            s.skip(1),
            false,
        ));
        assert(scan(line, pending) =~= slashes + there_and_back(s, pending > 0));
    }
}

proof fn lemma_there_and_back_same(s: Seq<char>, after_backslash: bool)
    ensures
        there_and_back(s, after_backslash) == s <==> !(after_backslash && s.len() > 0 && s[0]
            == '\n') && !has_backslash_newline(s),
    decreases s.len(),
{
    if s.len() == 0 {
        assert forall|i: int| !backslash_newline_at(s, i) by {}
    } else {
        let rest = s.skip(1);
        let back = there_and_back(s, after_backslash);
        let back_rest = there_and_back(rest, s[0] == '\\');
        lemma_there_and_back_same(rest, s[0] == '\\');
        assert(back.skip(1) =~= back_rest);
        assert(seq![s[0]] + rest =~= s);
        assert(back == s <==> back[0] == s[0] && back_rest == rest);
        assert(has_backslash_newline(s) <==> backslash_newline_at(s, 0) || has_backslash_newline(
            rest,
        )) by {
            if has_backslash_newline(s) {
                let i = choose|i: int| backslash_newline_at(s, i);
                if i > 0 {
                    assert(backslash_newline_at(rest, i - 1));
                }
            }
            if has_backslash_newline(rest) {
                let i = choose|i: int| backslash_newline_at(rest, i);
                assert(backslash_newline_at(s, i + 1));
            }
        }
    }
}

/// Reading back the line of a name gives the name with an `n` in place of every
/// newline that stood directly after a backslash.
pub proof fn lemma_unescape_escape(s: Seq<char>)
    ensures
        unescape(escape(s)) == there_and_back(s, false),
{
    lemma_escape_in_one_pass(s);
    lemma_scan_escape(s, 0);
    assert(repeated('\\', 0) + there_and_back(s, false) =~= there_and_back(s, false));
}

/// Round trip: reading back the line of a name gives the name, whenever no
/// newline of the name stands directly after a backslash.
pub proof fn lemma_round_trip(s: Seq<char>)
    requires
        !has_backslash_newline(s),
    ensures
        unescape(escape(s)) == s,
{
    lemma_unescape_escape(s);
    lemma_there_and_back_same(s, false);
}

/// A name in which a newline stands directly after a backslash does not come
/// back: the line of the name reads as another name.
pub proof fn lemma_no_round_trip(s: Seq<char>)
    requires
        has_backslash_newline(s),
    ensures
        unescape(escape(s)) != s,
{
    lemma_unescape_escape(s);
    lemma_there_and_back_same(s, false);
}

/// A line of text that stands for a name.
#[derive(Debug)]
pub struct NewlineEscaped {
    str: String,
}

impl Clone for NewlineEscaped {
    fn clone(&self) -> (line: NewlineEscaped)
        ensures
            line@ == self@,
    {
        NewlineEscaped { str: self.str.clone() }
    }
}

impl PartialEq for NewlineEscaped {
    fn eq(&self, other: &NewlineEscaped) -> (equal: bool) {
        self.str == other.str
    }
}

impl vstd::std_specs::cmp::PartialEqSpecImpl for NewlineEscaped {
    open spec fn obeys_eq_spec() -> bool {
        true
    }

    open spec fn eq_spec(&self, other: &NewlineEscaped) -> bool {
        self@ == other@
    }
}

impl Eq for NewlineEscaped {

}

impl View for NewlineEscaped {
    type V = Seq<char>;

    closed spec fn view(&self) -> Seq<char> {
        self.str@
    }
}

/// The line that stands for the name `name`.
pub fn escaped(name: &str) -> (line: String)
    ensures
        line@ == escape(name@),
        !line@.contains('\n'),
{
    let chars = chars_of(name);
    let mut line = String::new();
    let mut i: usize = 0;
    assert(chars@.skip(0) =~= chars@);
    while i < chars.len()
        invariant
            i <= chars.len(),
            line@ + escape_in_one_pass(chars@.skip(i as int)) == escape_in_one_pass(chars@),
        decreases chars.len() - i,
    {
        let c = chars[i];
        let ghost rest = chars@.skip(i as int);
        if c == '\n' {
            line.push('\\');
            line.push('n');
            i += 1;
            assert(rest.skip(1) =~= chars@.skip(i as int));
        } else if c == '\\' && i + 1 < chars.len() && chars[i + 1] == 'n' {
            line.push('\\');
            line.push('\\');
            line.push('n');
            i += 2;
            assert(rest.skip(2) =~= chars@.skip(i as int));
        } else {
            line.push(c);
            i += 1;
            assert(rest.skip(1) =~= chars@.skip(i as int));
        }
        assert(line@ + escape_in_one_pass(chars@.skip(i as int)) =~= escape_in_one_pass(
            chars@,
        ));
    }
    proof {
        lemma_escape_in_one_pass(chars@);
        lemma_escape_has_no_newline(chars@);
        assert(line@ =~= line@ + escape_in_one_pass(chars@.skip(i as int)));
    }
    line
}

/// The name that the line `line` stands for.
pub fn unescaped(line: &str) -> (name: String)
    ensures
        name@ == unescape(line@),
{
    let chars = chars_of(line);
    let mut name = String::new();
    let mut pending: usize = 0;
    let mut i: usize = 0;
    assert(chars@.skip(0) =~= chars@);
    while i < chars.len()
        invariant
            i <= chars.len(),
            pending <= i,
            name@ + scan(chars@.skip(i as int), pending as nat) == scan(chars@, 0),
        decreases chars.len() - i,
    {
        let c = chars[i];
        let ghost rest = chars@.skip(i as int);
        assert(rest.skip(1) =~= chars@.skip(i + 1));
        if c == '\\' {
            pending += 1;
        } else if c == 'n' {
            if pending == 0 {
                name.push('n');
            } else if pending == 1 {
                name.push('\n');
            } else {
                push_repeated(&mut name, '\\', pending - 1);
                name.push('n');
            }
            assert(name@ + scan(rest.skip(1), 0) =~= scan(chars@, 0));
            pending = 0;
        } else {
            push_repeated(&mut name, '\\', pending);
            name.push(c);
            assert(name@ + scan(rest.skip(1), 0) =~= scan(chars@, 0));
            pending = 0;
        }
        i += 1;
    }
    push_repeated(&mut name, '\\', pending);
    name
}

/// Text that can be written as one line.
pub trait EscapeNewlines {
    /// The characters of the text.
    spec fn text(&self) -> Seq<char>;

    /// The text as one line: every newline as a backslash and an `n`, and every
    /// backslash doubled that stood directly before an `n`.
    fn escape_newlines(self) -> (line: NewlineEscaped)
        ensures
            line@ == escape(self.text()),
            !line@.contains('\n'),
    ;
}

impl EscapeNewlines for String {
    open spec fn text(&self) -> Seq<char> {
        self@
    }

    fn escape_newlines(self) -> (line: NewlineEscaped) {
        self.as_str().escape_newlines()
    }
}

impl EscapeNewlines for &str {
    open spec fn text(&self) -> Seq<char> {
        self@
    }

    fn escape_newlines(self) -> (line: NewlineEscaped) {
        NewlineEscaped { str: escaped(self) }
    }
}

impl NewlineEscaped {
    /// A line as it was read from a listing.
    pub fn new(str: String) -> (line: NewlineEscaped)
        ensures
            line@ == str@,
    {
        NewlineEscaped { str }
    }

    /// The text of the line.
    pub fn as_str(&self) -> (text: &str)
        ensures
            text@ == self@,
    {
        self.str.as_str()
    }

    /// The text of the line, as a string of its own.
    pub fn to_string(&self) -> (text: String)
        ensures
            text@ == self@,
    {
        self.str.clone()
    }

    /// The name that the line stands for.
    pub fn unescape(self) -> (name: String)
        ensures
            name@ == unescape(self@),
    {
        unescaped(self.str.as_str())
    }
}

} // verus!
