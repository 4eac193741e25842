//! The plain form of the codec: newlines written out, and nothing widened.
//!
//! A backslash and an `n` that stood in the text read back as a newline, so
//! this form is exact only for text that holds no such pair.

use crate::escape_newlines::newlines_written_out;
use crate::text::chars_of;
use vstd::prelude::*;

verus! {

/// `s` with a newline in place of every backslash that an `n` follows, and of
/// that `n`; the pairs are found from left to right.
pub open spec fn newlines_read_back(s: Seq<char>) -> Seq<char>
    decreases s.len(),
{
    if s.len() == 0 {
        s
    } else if s.len() >= 2 && s[0] == '\\' && s[1] == 'n' {
        seq!['\n'] + newlines_read_back(s.skip(2))
    } else {
        seq![s[0]] + newlines_read_back(s.skip(1))
    }
}

/// Text in which every newline has been written as a backslash and an `n`.
pub struct NewlineEncoded {
    str: String,
}

impl View for NewlineEncoded {
    type V = Seq<char>;

    closed spec fn view(&self) -> Seq<char> {
        self.str@
    }
}

/// Text whose newlines can be written out.
pub trait EncodeNewlines {
    /// The characters of the text.
    spec fn text(&self) -> Seq<char>;

    /// The text with every newline written as a backslash and an `n`.
    fn encode_newlines(self) -> (encoded: NewlineEncoded)
        ensures
            encoded@ == newlines_written_out(self.text()),
    ;
}

impl EncodeNewlines for String {
    open spec fn text(&self) -> Seq<char> {
        self@
    }

    fn encode_newlines(self) -> (encoded: NewlineEncoded) {
        self.as_str().encode_newlines()
    }
}

impl EncodeNewlines for &str {
    open spec fn text(&self) -> Seq<char> {
        self@
    }

    fn encode_newlines(self) -> (encoded: NewlineEncoded) {
        let chars = chars_of(self);
        let mut str = String::new();
        let mut i: usize = 0;
        assert(chars@.skip(0) =~= chars@);
        while i < chars.len()
            invariant
                i <= chars.len(),
                str@ + newlines_written_out(chars@.skip(i as int)) == newlines_written_out(
                    chars@,
                ),
            decreases chars.len() - i,
        {
            let c = chars[i];
            assert(chars@.skip(i as int).skip(1) =~= chars@.skip(i + 1));
            if c == '\n' {
                str.push('\\');
                str.push('n');
            } else {
                str.push(c);
            }
            i += 1;
            assert(str@ + newlines_written_out(chars@.skip(i as int)) =~= newlines_written_out(
                chars@,
            ));
        }
        assert(str@ =~= str@ + newlines_written_out(chars@.skip(i as int)));
        NewlineEncoded { str }
    }
}

impl NewlineEncoded {
    /// The encoded text.
    pub fn to_string(&self) -> (text: String)
        ensures
            text@ == self@,
    {
        self.str.clone()
    }

    /// The text with a newline in place of every backslash and `n`.
    pub fn decode_newlines(self) -> (text: String)
        ensures
            text@ == newlines_read_back(self@),
    {
        let chars = chars_of(self.str.as_str());
        let mut text = String::new();
        let mut i: usize = 0;
        assert(chars@.skip(0) =~= chars@);
        while i < chars.len()
            invariant
                i <= chars.len(),
                text@ + newlines_read_back(chars@.skip(i as int)) == newlines_read_back(chars@),
            decreases chars.len() - i,
        {
            let c = chars[i];
            let ghost rest = chars@.skip(i as int);
            if c == '\\' && i + 1 < chars.len() && chars[i + 1] == 'n' {
                text.push('\n');
                i += 2;
                assert(rest.skip(2) =~= chars@.skip(i as int));
            } else {
                text.push(c);
                i += 1;
                assert(rest.skip(1) =~= chars@.skip(i as int));
            }
            assert(text@ + newlines_read_back(chars@.skip(i as int)) =~= newlines_read_back(
                chars@,
            ));
        }
        assert(text@ =~= text@ + newlines_read_back(chars@.skip(i as int)));
        text
    }
}

} // verus!
