//! The reader: a lexer that cuts a text into tokens, and a parser that
//! builds forms from them.

use crate::error::ParseError;
use crate::types::{values_of, MalCollection, MalType, Value};
use vstd::prelude::*;

verus! {

/// The kinds of token a text is made of.
#[derive(Debug)]
pub enum MalToken {
    Whitespace(String),
    Special(String),
    Quote(String),
    CharSeq(String),
    Symbols(String),
}

/// White space, as Unicode defines it.
pub open spec fn is_space(c: char) -> bool {
    let n = c as int;
    ||| 0x09 <= n <= 0x0d
    ||| n == 0x20
    ||| n == 0x85
    ||| n == 0xa0
    ||| n == 0x1680
    ||| 0x2000 <= n <= 0x200a
    ||| n == 0x2028
    ||| n == 0x2029
    ||| n == 0x202f
    ||| n == 0x205f
    ||| n == 0x3000
}

/// What separates tokens: white space and commas.
pub open spec fn is_blank(c: char) -> bool {
    is_space(c) || c == ','
}

/// The characters that are a token by themselves.
pub open spec fn is_special(c: char) -> bool {
    ||| c == '['
    ||| c == ']'
    ||| c == '{'
    ||| c == '}'
    ||| c == '('
    ||| c == ')'
    ||| c == '\''
    ||| c == '`'
    ||| c == '~'
    ||| c == '^'
    ||| c == '@'
}

/// The characters that a generic token is made of.
pub open spec fn is_plain(c: char) -> bool {
    &&& !is_space(c)
    &&& c != '['
    &&& c != ']'
    &&& c != '{'
    &&& c != '}'
    &&& c != '('
    &&& c != ')'
    &&& c != '\''
    &&& c != '"'
    &&& c != '`'
    &&& c != ','
    &&& c != ';'
}

/// The first position from `p` on that holds no blank.
pub open spec fn skip_blanks(s: Seq<char>, p: int) -> int
    decreases s.len() - p,
{
    if 0 <= p < s.len() && is_blank(s[p]) {
        skip_blanks(s, p + 1)
    } else {
        p
    }
}

/// Where a string ends whose content starts at `p`: behind its closing
/// quote, or where the text ends or a backslash has nothing to escape. A
/// backslash escapes the character behind it, unless that is a newline.
pub open spec fn string_end(s: Seq<char>, p: int) -> int
    decreases s.len() - p,
{
    if p < 0 || p >= s.len() {
        p
    } else if s[p] == '"' {
        p + 1
    } else if s[p] == '\\' {
        if p + 1 < s.len() && s[p + 1] != '\n' {
            string_end(s, p + 2)
        } else {
            p
        }
    } else {
        string_end(s, p + 1)
    }
}

/// Where the line ends that `p` is in.
pub open spec fn line_end(s: Seq<char>, p: int) -> int
    decreases s.len() - p,
{
    if 0 <= p < s.len() && s[p] != '\n' {
        line_end(s, p + 1)
    } else {
        p
    }
}

/// Where the run of plain characters ends that starts at `p`.
pub open spec fn plain_end(s: Seq<char>, p: int) -> int
    decreases s.len() - p,
{
    if 0 <= p < s.len() && is_plain(s[p]) {
        plain_end(s, p + 1)
    } else {
        p
    }
}

/// Where the token ends that starts at `p`, a position that holds no
/// blank: `~@`, a special character, a string, a comment up to the end of
/// its line, or the longest run of plain characters.
pub open spec fn token_end(s: Seq<char>, p: int) -> int
    recommends
        0 <= p < s.len(),
        !is_blank(s[p]),
{
    if s[p] == '~' && p + 1 < s.len() && s[p + 1] == '@' {
        p + 2
    } else if is_special(s[p]) {
        p + 1
    } else if s[p] == '"' {
        string_end(s, p + 1)
    } else if s[p] == ';' {
        line_end(s, p + 1)
    } else {
        plain_end(s, p + 1)
    }
}

/// The tokens of `s` from position `p` on. Comments are left out.
pub open spec fn tokens_from(s: Seq<char>, p: int) -> Seq<Seq<char>>
    decreases s.len() - p,
{
    let q = skip_blanks(s, p);
    if p < 0 || q < p || q >= s.len() {
        Seq::empty()
    } else {
        let e = token_end(s, q);
        if e <= q || e > s.len() {
            Seq::empty()
        } else if s[q] == ';' {
            tokens_from(s, e)
        } else {
            seq![s.subrange(q, e)] + tokens_from(s, e)
        }
    }
}

/// The tokens of a text.
pub open spec fn tokens_of(s: Seq<char>) -> Seq<Seq<char>> {
    tokens_from(s, 0)
}

/// The text of each token, in order.
pub open spec fn texts_of(tokens: Seq<String>) -> Seq<Seq<char>> {
    Seq::new(tokens.len(), |i: int| tokens[i]@)
}

/// Skipping blanks moves forward within the text and ends on a character
/// that is no blank, or at the end.
pub proof fn lemma_skip_blanks(s: Seq<char>, p: int)
    requires
        0 <= p <= s.len(),
    ensures
        p <= skip_blanks(s, p) <= s.len(),
        skip_blanks(s, p) < s.len() ==> !is_blank(s[skip_blanks(s, p)]),
    decreases s.len() - p,
{
    if p < s.len() && is_blank(s[p]) {
        lemma_skip_blanks(s, p + 1);
    }
}

/// A string ends within the text.
pub proof fn lemma_string_end(s: Seq<char>, p: int)
    requires
        0 <= p <= s.len(),
    ensures
        p <= string_end(s, p) <= s.len(),
    decreases s.len() - p,
{
    if p < s.len() && s[p] != '"' {
        if s[p] == '\\' {
            if p + 1 < s.len() && s[p + 1] != '\n' {
                lemma_string_end(s, p + 2);
            }
        } else {
            lemma_string_end(s, p + 1);
        }
    }
}

/// A line ends within the text.
pub proof fn lemma_line_end(s: Seq<char>, p: int)
    requires
        0 <= p <= s.len(),
    ensures
        p <= line_end(s, p) <= s.len(),
    decreases s.len() - p,
{
    if p < s.len() && s[p] != '\n' {
        lemma_line_end(s, p + 1);
    }
}

/// A run of plain characters ends within the text.
pub proof fn lemma_plain_end(s: Seq<char>, p: int)
    requires
        0 <= p <= s.len(),
    ensures
        p <= plain_end(s, p) <= s.len(),
    decreases s.len() - p,
{
    if p < s.len() && is_plain(s[p]) {
        lemma_plain_end(s, p + 1);
    }
}

/// A token is never empty and never runs past the text.
pub proof fn lemma_token_end(s: Seq<char>, p: int)
    requires
        0 <= p < s.len(),
    ensures
        p < token_end(s, p) <= s.len(),
{
    lemma_string_end(s, p + 1);
    lemma_line_end(s, p + 1);
    lemma_plain_end(s, p + 1);
}

/// No token is empty, none starts with a blank, and none is a comment.
pub proof fn lemma_tokens_are_tokens(s: Seq<char>, p: int)
    requires
        0 <= p <= s.len(),
    ensures
        forall|i: int|
            0 <= i < tokens_from(s, p).len() ==> {
                let token = #[trigger] tokens_from(s, p)[i];
                token.len() > 0 && !is_blank(token[0]) && token[0] != ';'
            },
    decreases s.len() - p,
{
    lemma_skip_blanks(s, p);
    let q = skip_blanks(s, p);
    if q < s.len() {
        lemma_token_end(s, q);
        let e = token_end(s, q);
        lemma_tokens_are_tokens(s, e);
        if s[q] != ';' {
            let rest = tokens_from(s, e);
            let all = tokens_from(s, p);
            assert(all == seq![s.subrange(q, e)] + rest);
            assert forall|i: int| 0 <= i < all.len() implies {
                let token = #[trigger] all[i];
                token.len() > 0 && !is_blank(token[0]) && token[0] != ';'
            } by {
                if i > 0 {
                    assert(all[i] == rest[i - 1]);
                } else {
                    assert(s.subrange(q, e)[0] == s[q]);
                }
            }
        }
    }
}

fn space_char(c: char) -> (r: bool)
    ensures
        r == is_space(c),
{
    let n: u32 = c as u32;
    (0x09 <= n && n <= 0x0d) || n == 0x20 || n == 0x85 || n == 0xa0 || n == 0x1680 || (0x2000 <= n
        && n <= 0x200a) || n == 0x2028 || n == 0x2029 || n == 0x202f || n == 0x205f || n == 0x3000
}

fn blank_char(c: char) -> (r: bool)
    ensures
        r == is_blank(c),
{
    space_char(c) || c == ','
}

fn special_char(c: char) -> (r: bool)
    ensures
        r == is_special(c),
{
    c == '[' || c == ']' || c == '{' || c == '}' || c == '(' || c == ')' || c == '\'' || c == '`'
        || c == '~' || c == '^' || c == '@'
}

fn plain_char(c: char) -> (r: bool)
    ensures
        r == is_plain(c),
{
    !space_char(c) && c != '[' && c != ']' && c != '{' && c != '}' && c != '(' && c != ')' && c
        != '\'' && c != '"' && c != '`' && c != ',' && c != ';'
}

/// The characters of a text, in order.
pub fn chars_of(s: &str) -> (v: Vec<char>)
    ensures
        v@ == s@,
{
    let mut v: Vec<char> = Vec::new();
    for c in it: s.chars()
        invariant
            it.seq() == s@,
            v@ == it.seq().take(it.index() as int),
    {
        v.push(c);
    }
    v
}

/// The text made of the characters of `v` from `from` up to `to`.
pub fn text_between(v: &Vec<char>, from: usize, to: usize) -> (s: String)
    requires
        from <= to <= v.len(),
    ensures
        s@ == v@.subrange(from as int, to as int),
{
    let mut s = String::new();
    let mut i: usize = from;
    while i < to
        invariant
            from <= i <= to <= v.len(),
            s@ == v@.subrange(from as int, i as int),
        decreases to - i,
    {
        s.push(v[i]);
        i += 1;
    }
    s
}

fn find_non_blank(v: &Vec<char>, from: usize) -> (r: usize)
    requires
        from <= v.len(),
    ensures
        r == skip_blanks(v@, from as int),
        from <= r <= v.len(),
{
    let mut i: usize = from;
    while i < v.len() && blank_char(v[i])
        invariant
            from <= i <= v.len(),
            skip_blanks(v@, from as int) == skip_blanks(v@, i as int),
        decreases v.len() - i,
    {
        i += 1;
    }
    i
}

fn find_string_end(v: &Vec<char>, from: usize) -> (r: usize)
    requires
        from <= v.len(),
    ensures
        r == string_end(v@, from as int),
        from <= r <= v.len(),
{
    let mut i: usize = from;
    loop
        invariant_except_break
            string_end(v@, from as int) == string_end(v@, i as int),
        invariant
            from <= i <= v.len(),
        ensures
            i == string_end(v@, from as int),
        decreases v.len() - i,
    {
        if i >= v.len() {
            break;
        }
        let c = v[i];
        if c == '"' {
            i += 1;
            break;
        } else if c == '\\' {
            if i + 1 < v.len() && v[i + 1] != '\n' {
                i += 2;
            } else {
                break;
            }
        } else {
            i += 1;
        }
    }
    i
}

fn find_line_end(v: &Vec<char>, from: usize) -> (r: usize)
    requires
        from <= v.len(),
    ensures
        r == line_end(v@, from as int),
        from <= r <= v.len(),
{
    let mut i: usize = from;
    while i < v.len() && v[i] != '\n'
        invariant
            from <= i <= v.len(),
            line_end(v@, from as int) == line_end(v@, i as int),
        decreases v.len() - i,
    {
        i += 1;
    }
    i
}

fn find_plain_end(v: &Vec<char>, from: usize) -> (r: usize)
    requires
        from <= v.len(),
    ensures
        r == plain_end(v@, from as int),
        from <= r <= v.len(),
{
    let mut i: usize = from;
    while i < v.len() && plain_char(v[i])
        invariant
            from <= i <= v.len(),
            plain_end(v@, from as int) == plain_end(v@, i as int),
        decreases v.len() - i,
    {
        i += 1;
    }
    i
}

fn find_token_end(v: &Vec<char>, p: usize) -> (r: usize)
    requires
        p < v.len(),
    ensures
        r == token_end(v@, p as int),
        p < r <= v.len(),
{
    proof {
        lemma_token_end(v@, p as int);
    }
    let c = v[p];
    if c == '~' && p + 1 < v.len() && v[p + 1] == '@' {
        p + 2
    } else if special_char(c) {
        p + 1
    } else if c == '"' {
        find_string_end(v, p + 1)
    } else if c == ';' {
        find_line_end(v, p + 1)
    } else {
        find_plain_end(v, p + 1)
    }
}

/// A sequence of tokens with a cursor that only moves forward.
#[derive(Debug)]
pub struct Lexer {
    position: usize,
    tokens: Vec<String>,
}

/// Mathematical view of a [`Lexer`].
pub ghost struct LexerView {
    pub position: nat,
    pub tokens: Seq<Seq<char>>,
}

impl View for Lexer {
    type V = LexerView;

    closed spec fn view(&self) -> LexerView {
        LexerView { position: self.position as nat, tokens: texts_of(self.tokens@) }
    }
}

impl Lexer {
    /// Cuts `buffer` into its tokens, with the cursor on the first.
    pub fn tokenize(buffer: &str) -> (r: Self)
        ensures
            r@.tokens == tokens_of(buffer@),
            r@.position == 0,
    {
        let chars = chars_of(buffer);
        let mut tokens: Vec<String> = Vec::new();
        let mut p: usize = 0;
        loop
            invariant
                chars@ == buffer@,
                p <= chars.len(),
                tokens_of(buffer@) == texts_of(tokens@) + tokens_from(chars@, p as int),
            ensures
                tokens_of(buffer@) == texts_of(tokens@),
            decreases chars.len() - p,
        {
            let q = find_non_blank(&chars, p);
            if q >= chars.len() {
                break;
            }
            let e = find_token_end(&chars, q);
            if chars[q] != ';' {
                let token = text_between(&chars, q, e);
                let ghost before = texts_of(tokens@);
                tokens.push(token);
                assert(texts_of(tokens@) == before + seq![chars@.subrange(q as int, e as int)]);
            }
            p = e;
        }
        Lexer { position: 0, tokens }
    }

    /// The token under the cursor, which then moves on; `None` at the end.
    pub fn next(&mut self) -> (r: Option<&String>)
        ensures
            final(self)@.tokens == old(self)@.tokens,
            old(self)@.position < old(self)@.tokens.len() ==> r.is_some() && r.unwrap()@
                == old(self)@.tokens[old(self)@.position as int] && final(self)@.position == old(self)@.position + 1,
            old(self)@.position >= old(self)@.tokens.len() ==> r.is_none() && final(self)@.position
                == old(self)@.position,
    {
        if self.position < self.tokens.len() {
            self.position += 1;
            Some(&self.tokens[self.position - 1])
        } else {
            None
        }
    }

    /// The token under the cursor; `None` at the end.
    pub fn peek(&self) -> (r: Option<&String>)
        ensures
            self@.position < self@.tokens.len() ==> r.is_some() && r.unwrap()@
                == self@.tokens[self@.position as int],
            self@.position >= self@.tokens.len() ==> r.is_none(),
    {
        if self.position < self.tokens.len() {
            Some(&self.tokens[self.position])
        } else {
            None
        }
    }
}


/// The decimal digits.
pub open spec fn is_digit(c: char) -> bool {
    '0' <= c <= '9'
}

/// Whether every character of `t` is a decimal digit.
pub open spec fn all_digits(t: Seq<char>) -> bool {
    forall|i: int| 0 <= i < t.len() ==> is_digit(#[trigger] t[i])
}

/// The number that a run of decimal digits denotes.
pub open spec fn digits_value(t: Seq<char>) -> nat
    decreases t.len(),
{
    if t.len() == 0 {
        0
    } else {
        (digits_value(t.drop_last()) * 10 + (t.last() as int - '0' as int)) as nat
    }
}

/// An integer literal: digits, with or without a `-` in front.
pub open spec fn is_integer(t: Seq<char>) -> bool {
    ||| t.len() > 0 && all_digits(t)
    ||| t.len() > 1 && t[0] == '-' && all_digits(t.skip(1))
}

/// The number that an integer literal denotes.
pub open spec fn integer_value(t: Seq<char>) -> int
    recommends
        is_integer(t),
{
    if t[0] == '-' {
        -(digits_value(t.skip(1)) as int)
    } else {
        digits_value(t) as int
    }
}

/// Whether a backslash in front of `c` is an escape that reading undoes.
pub open spec fn is_escape(c: char) -> bool {
    c == '"' || c == '\\' || c == 'n'
}

/// The character that a backslash and `c` stand for: `\"` for a quote,
/// `\\` for a backslash, `\n` for a newline.
pub open spec fn unescape_char(c: char) -> char
    recommends
        is_escape(c),
{
    if c == 'n' {
        '\n'
    } else {
        c
    }
}

/// A text with its escapes undone, from the left: a backslash and the
/// character behind it give the character they stand for; every other
/// character stays, and so does a backslash that escapes nothing. This
/// undoes what the readable rendering does to a text.
pub open spec fn unescaped(t: Seq<char>) -> Seq<char>
    decreases t.len(),
{
    if t.len() == 0 {
        Seq::empty()
    } else if t[0] == '\\' && t.len() >= 2 && is_escape(t[1]) {
        seq![unescape_char(t[1])] + unescaped(t.skip(2))
    } else {
        seq![t[0]] + unescaped(t.skip(1))
    }
}

/// The value of a token that is neither an opening nor a closing
/// delimiter: one of the three literal words, an integer that fits in 64
/// bits, a string (what stands between the quotes, with the escapes
/// undone), or else a symbol.
pub open spec fn atom(t: Seq<char>) -> Result<Value, ParseError> {
    if t == "true"@ {
        Ok(Value::Bool(true))
    } else if t == "false"@ {
        Ok(Value::Bool(false))
    } else if t == "nil"@ {
        Ok(Value::Nil)
    } else if is_integer(t) {
        if i64::MIN <= integer_value(t) <= i64::MAX {
            Ok(Value::Number(integer_value(t) as i64))
        } else {
            Err(ParseError::NumberParseError)
        }
    } else if t.len() > 0 && t[0] == '"' {
        if t.len() > 1 && t.last() == '"' {
            Ok(Value::String(unescaped(t.subrange(1, t.len() - 1))))
        } else {
            Err(ParseError::UnterminatedString)
        }
    } else {
        Ok(Value::Symbol(t))
    }
}

/// The kind of collection that the token opens, if it opens one.
pub open spec fn opened_by(t: Seq<char>) -> Option<MalCollection> {
    if t == seq!['('] {
        Some(MalCollection::List)
    } else if t == seq!['['] {
        Some(MalCollection::Vector)
    } else if t == seq!['{'] {
        Some(MalCollection::HashMap)
    } else {
        None
    }
}

/// Whether the token closes a collection of some kind.
pub open spec fn is_closer(t: Seq<char>) -> bool {
    t == seq![')'] || t == seq![']'] || t == seq!['}']
}

/// The form that starts at token `p`, and the position behind it. A
/// collection runs up to the closing delimiter of its own kind. The forms
/// of a map come in pairs of key and value: where the closing delimiter
/// stands in the place of a value, the map is unbalanced.
pub open spec fn read_form(tokens: Seq<Seq<char>>, p: int) -> Result<(Value, int), ParseError>
    decreases tokens.len() - p, 0int,
{
    if p < 0 || p >= tokens.len() {
        Err(ParseError::UnexpectedEof)
    } else {
        match opened_by(tokens[p]) {
            Some(kind) => match read_items(tokens, p + 1, kind) {
                Ok((items, q)) => if kind == MalCollection::HashMap && items.len() % 2 != 0 {
                    Err(ParseError::UnbalancedCollection)
                } else {
                    Ok((kind.wrap(items), q))
                },
                Err(e) => Err(e),
            },
            None => if is_closer(tokens[p]) {
                Err(ParseError::UnbalancedCollection)
            } else {
                match atom(tokens[p]) {
                    Ok(v) => Ok((v, p + 1)),
                    Err(e) => Err(e),
                }
            },
        }
    }
}

/// The forms from token `p` up to the delimiter that closes a collection
/// of kind `kind`, and the position behind that delimiter.
pub open spec fn read_items(tokens: Seq<Seq<char>>, p: int, kind: MalCollection) -> Result<
    (Seq<Value>, int),
    ParseError,
>
    decreases tokens.len() - p, 1int,
{
    if p < 0 || p >= tokens.len() {
        Err(ParseError::UnexpectedEof)
    } else if tokens[p] == seq![kind.closer()] {
        Ok((Seq::empty(), p + 1))
    } else {
        match read_form(tokens, p) {
            Err(e) => Err(e),
            Ok((v, q)) => if q <= p || q > tokens.len() {
                Err(ParseError::UnexpectedEof)
            } else {
                with_first(v, read_items(tokens, q, kind))
            },
        }
    }
}

/// `rest` with one more form in front.
pub open spec fn with_first(v: Value, rest: Result<(Seq<Value>, int), ParseError>) -> Result<
    (Seq<Value>, int),
    ParseError,
> {
    match rest {
        Ok((items, q)) => Ok((seq![v] + items, q)),
        Err(e) => Err(e),
    }
}

/// `rest` with the forms `done` in front.
pub open spec fn with_done(done: Seq<Value>, rest: Result<(Seq<Value>, int), ParseError>) -> Result<
    (Seq<Value>, int),
    ParseError,
> {
    match rest {
        Ok((items, q)) => Ok((done + items, q)),
        Err(e) => Err(e),
    }
}

/// All the forms from token `p` to the end.
pub open spec fn read_all(tokens: Seq<Seq<char>>, p: int) -> Result<(Seq<Value>, int), ParseError>
    decreases tokens.len() - p,
{
    if p < 0 || p >= tokens.len() {
        Ok((Seq::empty(), p))
    } else {
        match read_form(tokens, p) {
            Err(e) => Err(e),
            Ok((v, q)) => if q <= p || q > tokens.len() {
                Err(ParseError::UnexpectedEof)
            } else {
                with_first(v, read_all(tokens, q))
            },
        }
    }
}

/// Reading a form moves forward and stays within the tokens; so does
/// reading the items of a collection.
pub proof fn lemma_read_advances(tokens: Seq<Seq<char>>, p: int, kind: MalCollection)
    ensures
        read_form(tokens, p) matches Ok((_, q)) ==> p < q <= tokens.len(),
        read_items(tokens, p, kind) matches Ok((_, q)) ==> p < q <= tokens.len(),
    decreases tokens.len() - p, 2int,
{
    if 0 <= p < tokens.len() {
        match opened_by(tokens[p]) {
            Some(k) => {
                lemma_read_advances(tokens, p + 1, k);
            },
            None => {},
        }
        if tokens[p] != seq![kind.closer()] {
            match read_form(tokens, p) {
                Ok((v, q)) => {
                    if p < q <= tokens.len() {
                        lemma_read_advances(tokens, q, kind);
                    }
                },
                Err(_) => {},
            }
        }
    }
}


/// Every map in a form that was read has an even number of elements.
pub proof fn lemma_read_even_maps(tokens: Seq<Seq<char>>, p: int, kind: MalCollection)
    ensures
        read_form(tokens, p) matches Ok((v, _)) ==> v.even_maps(),
        read_items(tokens, p, kind) matches Ok((items, _)) ==> Value::all_even_maps(items),
    decreases tokens.len() - p, 2int,
{
    if 0 <= p < tokens.len() {
        match opened_by(tokens[p]) {
            Some(k) => {
                lemma_read_even_maps(tokens, p + 1, k);
            },
            None => {},
        }
        if tokens[p] != seq![kind.closer()] {
            match read_form(tokens, p) {
                Ok((v, q)) => {
                    if p < q <= tokens.len() {
                        lemma_read_even_maps(tokens, q, kind);
                        match read_items(tokens, q, kind) {
                            Ok((rest, _)) => {
                                Value::lemma_even_maps_with_first(v, rest);
                            },
                            Err(_) => {},
                        }
                    }
                },
                Err(_) => {},
            }
        }
    }
}

/// Every map in the forms that were read has an even number of elements.
pub proof fn lemma_read_all_even_maps(tokens: Seq<Seq<char>>, p: int)
    ensures
        read_all(tokens, p) matches Ok((forms, _)) ==> Value::all_even_maps(forms),
    decreases tokens.len() - p,
{
    if 0 <= p < tokens.len() {
        lemma_read_even_maps(tokens, p, MalCollection::List);
        match read_form(tokens, p) {
            Ok((v, q)) => {
                if p < q <= tokens.len() {
                    lemma_read_all_even_maps(tokens, q);
                    match read_all(tokens, q) {
                        Ok((rest, _)) => {
                            Value::lemma_even_maps_with_first(v, rest);
                        },
                        Err(_) => {},
                    }
                }
            },
            Err(_) => {},
        }
    }
}

/// A prefix of a run of digits denotes no more than the whole run.
pub proof fn lemma_digits_prefix(t: Seq<char>, k: int)
    requires
        0 <= k <= t.len(),
        all_digits(t),
    ensures
        digits_value(t.take(k)) <= digits_value(t),
    decreases t.len() - k,
{
    if k < t.len() {
        assert(t.take(k + 1).drop_last() == t.take(k));
        assert(is_digit(t[k]));
        assert(t.take(k + 1).last() == t[k]);
        lemma_digits_prefix(t, k + 1);
    } else {
        assert(t.take(k) == t);
    }
}

fn text_is(chars: &Vec<char>, word: &str) -> (r: bool)
    ensures
        r == (chars@ == word@),
{
    let wanted = chars_of(word);
    if wanted.len() != chars.len() {
        return false;
    }
    let mut i: usize = 0;
    while i < chars.len()
        invariant
            i <= chars.len(),
            wanted.len() == chars.len(),
            wanted@ == word@,
            chars@.take(i as int) == wanted@.take(i as int),
        decreases chars.len() - i,
    {
        if chars[i] != wanted[i] {
            return false;
        }
        assert(chars@.take(i + 1) == chars@.take(i as int).push(chars@[i as int]));
        assert(wanted@.take(i + 1) == wanted@.take(i as int).push(wanted@[i as int]));
        i += 1;
    }
    assert(chars@.take(i as int) == chars@ && wanted@.take(i as int) == wanted@);
    true
}

fn digit_char(c: char) -> (r: bool)
    ensures
        r == is_digit(c),
{
    let n: u32 = c as u32;
    48 <= n && n <= 57
}

fn digits_from(chars: &Vec<char>, from: usize) -> (r: bool)
    requires
        from <= chars.len(),
    ensures
        r == all_digits(chars@.skip(from as int)),
{
    let ghost t = chars@.skip(from as int);
    let mut i: usize = from;
    while i < chars.len()
        invariant
            from <= i <= chars.len(),
            t == chars@.skip(from as int),
            forall|j: int| 0 <= j < i - from ==> is_digit(#[trigger] t[j]),
        decreases chars.len() - i,
    {
        if !digit_char(chars[i]) {
            assert(!is_digit(t[i - from]));
            return false;
        }
        i += 1;
    }
    true
}

/// The number that the digits from `from` on denote, unless it is more
/// than 2^63.
fn magnitude(chars: &Vec<char>, from: usize) -> (r: Option<u64>)
    requires
        from <= chars.len(),
        all_digits(chars@.skip(from as int)),
    ensures
        match r {
            Some(m) => m == digits_value(chars@.skip(from as int)) && m <= 0x8000_0000_0000_0000,
            None => digits_value(chars@.skip(from as int)) > 0x8000_0000_0000_0000,
        },
{
    let ghost t = chars@.skip(from as int);
    let mut acc: u64 = 0;
    let mut i: usize = from;
    assert(t.take(0) == Seq::<char>::empty());
    while i < chars.len()
        invariant
            from <= i <= chars.len(),
            t == chars@.skip(from as int),
            all_digits(t),
            acc == digits_value(t.take(i - from)),
            acc <= 0x8000_0000_0000_0000,
        decreases chars.len() - i,
    {
        let c = chars[i];
        assert(is_digit(t[i - from]));
        let d: u64 = (c as u32 - 48) as u64;
        proof {
            assert(t.take(i - from + 1).drop_last() == t.take(i - from));
            assert(t.take(i - from + 1).last() == c);
            lemma_digits_prefix(t, i - from + 1);
        }
        if acc > (0x8000_0000_0000_0000 - d) / 10 {
            return None;
        }
        acc = acc * 10 + d;
        i += 1;
    }
    assert(t.take(i - from) == t);
    Some(acc)
}

/// The text between `from` and `to` with its escapes undone.
fn unescape(chars: &Vec<char>, from: usize, to: usize) -> (r: String)
    requires
        from <= to <= chars.len(),
    ensures
        r@ == unescaped(chars@.subrange(from as int, to as int)),
{
    let ghost content = chars@.subrange(from as int, to as int);
    let mut out = String::new();
    let mut i: usize = from;
    assert(content.skip(0) == content);
    while i < to
        invariant
            from <= i <= to <= chars.len(),
            content == chars@.subrange(from as int, to as int),
            unescaped(content) == out@ + unescaped(content.skip(i - from)),
        decreases to - i,
    {
        let ghost rest = content.skip(i - from);
        let ghost before = out@;
        let c = chars[i];
        assert(rest.len() == to - i);
        assert(rest[0] == c);
        if c == '\\' && i + 1 < to && (chars[i + 1] == '"' || chars[i + 1] == '\\' || chars[i + 1]
            == 'n') {
            let x = chars[i + 1];
            assert(rest[1] == x);
            assert(rest.skip(2) == content.skip(i + 2 - from));
            if x == 'n' {
                out.push('\n');
            } else {
                out.push(x);
            }
            assert(out@ + unescaped(rest.skip(2)) == before + (seq![unescape_char(x)] + unescaped(
                rest.skip(2),
            )));
            i += 2;
        } else {
            assert(rest.skip(1) == content.skip(i + 1 - from));
            assert(!(rest[0] == '\\' && rest.len() >= 2 && is_escape(rest[1]))) by {
                if rest.len() >= 2 {
                    assert(rest[1] == chars@[i + 1]);
                }
            }
            out.push(c);
            assert(out@ + unescaped(rest.skip(1)) == before + (seq![c] + unescaped(rest.skip(1))));
            i += 1;
        }
    }
    assert(content.skip(to - from) =~= Seq::<char>::empty());
    out
}

/// The value of a token that is no delimiter.
fn atom_of(token: &String) -> (r: Result<MalType, ParseError>)
    ensures
        match atom(token@) {
            Ok(v) => r matches Ok(x) && x@ == v,
            Err(e) => r == Err::<MalType, ParseError>(e),
        },
{
    let chars = chars_of(token.as_str());
    if text_is(&chars, "true") {
        return Ok(MalType::Bool(true));
    }
    if text_is(&chars, "false") {
        return Ok(MalType::Bool(false));
    }
    if text_is(&chars, "nil") {
        return Ok(MalType::Nil);
    }
    assert(chars@.skip(0) == chars@);
    if chars.len() > 0 && digits_from(&chars, 0) {
        return match magnitude(&chars, 0) {
            Some(m) => if m <= 0x7fff_ffff_ffff_ffff {
                Ok(MalType::Number(m as i64))
            } else {
                Err(ParseError::NumberParseError)
            },
            None => Err(ParseError::NumberParseError),
        };
    }
    if chars.len() > 1 && chars[0] == '-' && digits_from(&chars, 1) {
        return match magnitude(&chars, 1) {
            Some(m) => if m == 0x8000_0000_0000_0000 {
                Ok(MalType::Number(i64::MIN))
            } else {
                Ok(MalType::Number(-(m as i64)))
            },
            None => Err(ParseError::NumberParseError),
        };
    }
    if chars.len() > 0 && chars[0] == '"' {
        if chars.len() > 1 && chars[chars.len() - 1] == '"' {
            return Ok(MalType::String(unescape(&chars, 1, chars.len() - 1)));
        }
        return Err(ParseError::UnterminatedString);
    }
    Ok(MalType::Symbol(token.clone()))
}

/// What the token under the cursor asks the parser to do.
enum Lead {
    Open(MalCollection),
    Close,
    Atom,
}

fn lead_of(token: &String) -> (r: Lead)
    ensures
        match r {
            Lead::Open(kind) => opened_by(token@) == Some(kind),
            Lead::Close => opened_by(token@) is None && is_closer(token@),
            Lead::Atom => opened_by(token@) is None && !is_closer(token@),
        },
{
    let chars = chars_of(token.as_str());
    if chars.len() != 1 {
        return Lead::Atom;
    }
    let c = chars[0];
    assert(chars@ == seq![c]);
    if c == '(' {
        Lead::Open(MalCollection::List)
    } else if c == '[' {
        Lead::Open(MalCollection::Vector)
    } else if c == '{' {
        Lead::Open(MalCollection::HashMap)
    } else if c == ')' || c == ']' || c == '}' {
        Lead::Close
    } else {
        assert(seq![c][0] == c);
        Lead::Atom
    }
}

fn closes(token: &String, kind: MalCollection) -> (r: bool)
    ensures
        r == (token@ == seq![kind.closer()]),
{
    let chars = chars_of(token.as_str());
    if chars.len() != 1 {
        return false;
    }
    let c = chars[0];
    assert(chars@ == seq![c]);
    assert(seq![c][0] == c);
    match kind {
        MalCollection::HashMap => c == '}',
        MalCollection::List => c == ')',
        MalCollection::Vector => c == ']',
    }
}

/// A parser over one sequence of tokens.
#[derive(Debug)]
pub struct Parser {
    lexer: Lexer,
}

impl View for Parser {
    type V = LexerView;

    closed spec fn view(&self) -> LexerView {
        self.lexer@
    }
}

impl Parser {
    pub fn new(lexer: Lexer) -> (r: Self)
        ensures
            r@ == lexer@,
    {
        Self { lexer }
    }

    /// Reads every form from the cursor to the end of the tokens. In what
    /// it returns every map has an even number of elements.
    pub fn parse(&mut self) -> (r: Result<Vec<MalType>, ParseError>)
        ensures
            final(self)@.tokens == old(self)@.tokens,
            r matches Ok(found) ==> Value::all_even_maps(values_of(found@)),
            match read_all(old(self)@.tokens, old(self)@.position as int) {
                Ok((forms, q)) => r matches Ok(found) && values_of(found@) == forms && final(self)@.position == q,
                Err(e) => r == Err::<Vec<MalType>, ParseError>(e),
            },
    {
        let ghost tokens = self@.tokens;
        let ghost start = self@.position as int;
        let mut types: Vec<MalType> = Vec::new();
        loop
            invariant
                self@.tokens == tokens,
                tokens == old(self)@.tokens,
                start == old(self)@.position,
                read_all(tokens, start) == with_done(
                    values_of(types@),
                    read_all(tokens, self@.position as int),
                ),
            decreases tokens.len() - self@.position,
        {
            let ghost here = self@.position as int;
            match self.read_next() {
                Err(e) => {
                    return Err(e);
                },
                Ok(None) => {
                    assert(values_of(types@) + Seq::<Value>::empty() == values_of(types@));
                    proof {
                        lemma_read_all_even_maps(tokens, start);
                    }
                    return Ok(types);
                },
                Ok(Some(val)) => {
                    proof {
                        lemma_read_advances(tokens, here, MalCollection::List);
                        let rest = read_all(tokens, self@.position as int);
                        let ghost before = values_of(types@);
                        assert(values_of(types@.push(val)) == before.push(val@));
                        match rest {
                            Ok((items, q)) => {
                                assert(before + (seq![val@] + items) == before.push(val@) + items);
                            },
                            Err(_) => {},
                        }
                    }
                    types.push(val);
                },
            }
        }
    }

    /// Reads the form under the cursor, if a token is left.
    fn read_next(&mut self) -> (r: Result<Option<MalType>, ParseError>)
        ensures
            final(self)@.tokens == old(self)@.tokens,
            old(self)@.position >= old(self)@.tokens.len() ==> (r matches Ok(None)) && final(self)@.position == old(self)@.position,
            old(self)@.position < old(self)@.tokens.len() ==> match read_form(
                old(self)@.tokens,
                old(self)@.position as int,
            ) {
                Ok((v, q)) => r matches Ok(Some(x)) && x@ == v && final(self)@.position == q,
                Err(e) => r == Err::<Option<MalType>, ParseError>(e),
            },
        decreases old(self)@.tokens.len() - old(self)@.position, 1int,
    {
        let lead = match self.lexer.peek() {
            None => {
                return Ok(None);
            },
            Some(token) => lead_of(token),
        };
        match lead {
            Lead::Open(_) => self.read_collection(),
            Lead::Close => Err(ParseError::UnbalancedCollection),
            Lead::Atom => self.read_symbol(),
        }
    }

    /// Reads the collection whose opening delimiter is under the cursor.
    fn read_collection(&mut self) -> (r: Result<Option<MalType>, ParseError>)
        requires
            old(self)@.position < old(self)@.tokens.len(),
            opened_by(old(self)@.tokens[old(self)@.position as int]) is Some,
        ensures
            final(self)@.tokens == old(self)@.tokens,
            match read_form(old(self)@.tokens, old(self)@.position as int) {
                Ok((v, q)) => r matches Ok(Some(x)) && x@ == v && final(self)@.position == q,
                Err(e) => r == Err::<Option<MalType>, ParseError>(e),
            },
        decreases old(self)@.tokens.len() - old(self)@.position, 0int,
    {
        let ghost tokens = self@.tokens;
        let ghost start = self@.position as int;
        let collection_type = match self.lexer.next() {
            Some(token) => match lead_of(token) {
                Lead::Open(kind) => kind,
                _ => {
                    return Err(ParseError::UnbalancedCollection);
                },
            },
            None => {
                return Err(ParseError::UnexpectedEof);
            },
        };
        let mut list: Vec<MalType> = Vec::new();
        loop
            invariant
                self@.tokens == tokens,
                tokens == old(self)@.tokens,
                start == old(self)@.position,
                opened_by(tokens[start]) == Some(collection_type),
                start < self@.position,
                0 <= start < tokens.len(),
                read_items(tokens, start + 1, collection_type) == with_done(
                    values_of(list@),
                    read_items(tokens, self@.position as int, collection_type),
                ),
            decreases tokens.len() - self@.position,
        {
            let ghost here = self@.position as int;
            let at_end = match self.lexer.peek() {
                Some(token) => closes(token, collection_type),
                None => {
                    return Err(ParseError::UnexpectedEof);
                },
            };
            if at_end {
                self.lexer.next();
                assert(values_of(list@) + Seq::<Value>::empty() == values_of(list@));
                assert(values_of(list@).len() == list@.len());
                if let MalCollection::HashMap = collection_type {
                    if list.len() % 2 != 0 {
                        return Err(ParseError::UnbalancedCollection);
                    }
                }
                return Ok(Some(collection_type.into(list)));
            }
            match self.read_next() {
                Err(e) => {
                    return Err(e);
                },
                Ok(None) => {
                    return Err(ParseError::UnexpectedEof);
                },
                Ok(Some(val)) => {
                    proof {
                        lemma_read_advances(tokens, here, collection_type);
                        let rest = read_items(tokens, self@.position as int, collection_type);
                        let ghost before = values_of(list@);
                        assert(values_of(list@.push(val)) == before.push(val@));
                        match rest {
                            Ok((items, q)) => {
                                assert(before + (seq![val@] + items) == before.push(val@) + items);
                            },
                            Err(_) => {},
                        }
                    }
                    list.push(val);
                },
            }
        }
    }

    /// Reads the atom under the cursor.
    fn read_symbol(&mut self) -> (r: Result<Option<MalType>, ParseError>)
        requires
            old(self)@.position < old(self)@.tokens.len(),
            opened_by(old(self)@.tokens[old(self)@.position as int]) is None,
            !is_closer(old(self)@.tokens[old(self)@.position as int]),
        ensures
            final(self)@.tokens == old(self)@.tokens,
            match read_form(old(self)@.tokens, old(self)@.position as int) {
                Ok((v, q)) => r matches Ok(Some(x)) && x@ == v && final(self)@.position == q,
                Err(e) => r == Err::<Option<MalType>, ParseError>(e),
            },
    {
        match self.lexer.next() {
            Some(symbol) => match atom_of(symbol) {
                Ok(v) => Ok(Some(v)),
                Err(e) => Err(e),
            },
            None => Err(ParseError::UnexpectedEof),
        }
    }
}

} // verus!
