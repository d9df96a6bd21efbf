//! What a line of input means to the loop that reads them.

use vstd::prelude::*;

verus! {

/// The control character that ends the input: end of transmission.
pub open spec fn end_mark() -> char {
    '\u{4}'
}

/// `line` without the line break at its end: a newline, and a carriage
/// return in front of it.
pub open spec fn without_break(line: Seq<char>) -> Seq<char> {
    if line.len() > 0 && line.last() == '\n' {
        let cut = line.drop_last();
        if cut.len() > 0 && cut.last() == '\r' {
            cut.drop_last()
        } else {
            cut
        }
    } else {
        line
    }
}

/// What one line means to the loop: `None` where the line is the end
/// mark alone, which ends the input; else the line without its break. A
/// blank line is a turn like any other: it holds no form, so the turn
/// answers nothing and the loop goes on.
pub open spec fn input_of(line: Seq<char>) -> Option<Seq<char>> {
    let text = without_break(line);
    if text == seq![end_mark()] {
        None
    } else {
        Some(text)
    }
}

/// The source of the lines that the loop works on.
#[derive(Debug)]
pub struct Console {}

impl Console {
    /// The prompt that stands in front of each line of input.
    pub fn prompt() -> (r: &'static str)
        ensures
            r@ == "user> "@,
    {
        "user> "
    }

    /// The input that one line, as it was read, holds. `None` ends the
    /// loop: the line was the end mark. Of the two things that end the
    /// input, this is the one that a line can say; the other, that no line
    /// is left, is known to the caller that reads. A blank line does not
    /// end the loop: it comes back as a text without forms, on which a
    /// turn does nothing.
    pub fn accept(line: &str) -> (r: Option<String>)
        ensures
            match input_of(line@) {
                Some(text) => r matches Some(found) && found@ == text,
                None => r is None,
            },
    {
        let chars = crate::reader::chars_of(line);
        let mut end: usize = chars.len();
        if end > 0 && chars[end - 1] == '\n' {
            end -= 1;
            if end > 0 && chars[end - 1] == '\r' {
                end -= 1;
            }
        }
        proof {
            assert(chars@.subrange(0, end as int) =~= without_break(line@));
        }
        if end == 1 && chars[0] == '\u{4}' {
            assert(chars@.subrange(0, end as int) =~= seq![end_mark()]);
            return None;
        }
        proof {
            let text = without_break(line@);
            if text == seq![end_mark()] {
                assert(text.len() == 1);
                assert(text[0] == end_mark());
            }
        }
        Some(crate::reader::text_between(&chars, 0, end))
    }
}

} // verus!
