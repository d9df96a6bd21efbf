//! Reading back what was rendered: the readable text of literal data
//! reads back as that data.

use crate::error::ParseError;
use crate::printer::{decimal, digit, escape_char, escaped, natural, render, render_items};
use crate::reader::{
    all_digits, atom, digits_value, integer_value, is_blank, is_closer, is_digit, is_integer,
    is_escape, is_plain, is_special, lemma_skip_blanks, lemma_token_end, opened_by, plain_end,
    read_all, read_form, read_items, skip_blanks, string_end, token_end, tokens_from, tokens_of,
    unescape_char, unescaped, with_first,
};
use crate::types::{MalCollection, Value};
use vstd::prelude::*;

verus! {

/// Literal data: numbers, strings, booleans, `nil`, and lists and
/// vectors of such data.
pub open spec fn is_data(v: Value) -> bool
    decreases v,
{
    match v {
        Value::Number(_) => true,
        Value::String(_) => true,
        Value::Bool(_) => true,
        Value::Nil => true,
        Value::List(items) => all_data(items),
        Value::Vector(items) => all_data(items),
        _ => false,
    }
}

/// Whether every element is literal data.
pub open spec fn all_data(items: Seq<Value>) -> bool
    decreases items,
{
    items.len() == 0 || (all_data(items.drop_last()) && is_data(items.last()))
}

/// The tokens that the readable text of literal data is made of.
pub open spec fn tokens_for(v: Value) -> Seq<Seq<char>>
    decreases v,
{
    match v {
        Value::List(items) => seq![seq!['(']] + tokens_for_items(items) + seq![seq![')']],
        Value::Vector(items) => seq![seq!['[']] + tokens_for_items(items) + seq![seq![']']],
        _ => seq![render(v, true)],
    }
}

/// The tokens of each element, one behind the other.
pub open spec fn tokens_for_items(items: Seq<Value>) -> Seq<Seq<char>>
    decreases items,
{
    if items.len() == 0 {
        Seq::empty()
    } else {
        tokens_for_items(items.drop_last()) + tokens_for(items.last())
    }
}

/// A character that an atom of plain data is written with: plain, and no
/// token by itself.
pub open spec fn is_word_char(c: char) -> bool {
    is_plain(c) && !is_special(c)
}

/// A text made of such characters only, and not empty.
pub open spec fn is_word(t: Seq<char>) -> bool {
    t.len() > 0 && forall|i: int| 0 <= i < t.len() ==> is_word_char(#[trigger] t[i])
}

proof fn lemma_digit(d: int)
    requires
        0 <= d <= 9,
    ensures
        is_digit(digit(d)),
        is_word_char(digit(d)),
        digit(d) as int - '0' as int == d,
{
}

/// The decimal form of a natural number is a run of digits that denotes
/// that number.
pub proof fn lemma_natural(n: nat)
    ensures
        natural(n).len() > 0,
        all_digits(natural(n)),
        is_word(natural(n)),
        digits_value(natural(n)) == n,
    decreases n,
{
    if n < 10 {
        lemma_digit(n as int);
        assert(natural(n).drop_last() == Seq::<char>::empty());
        assert(digits_value(natural(n).drop_last()) == 0);
    } else {
        lemma_natural(n / 10);
        lemma_digit((n % 10) as int);
        let t = natural(n / 10);
        assert(natural(n) == t.push(digit((n % 10) as int)));
        assert(natural(n).drop_last() == t);
        assert(natural(n).last() == digit((n % 10) as int));
    }
}

/// The decimal form of a 64-bit number is an integer literal that denotes
/// that number.
pub proof fn lemma_decimal(n: i64)
    ensures
        is_word(decimal(n as int)),
        is_integer(decimal(n as int)),
        integer_value(decimal(n as int)) == n,
        decimal(n as int)[0] == '-' || is_digit(decimal(n as int)[0]),
{
    if n < 0 {
        let m = (-(n as int)) as nat;
        lemma_natural(m);
        let t = decimal(n as int);
        assert(t == seq!['-'] + natural(m));
        assert(t.skip(1) == natural(m));
        assert forall|i: int| 0 <= i < t.len() implies is_word_char(#[trigger] t[i]) by {
            if i > 0 {
                assert(t[i] == natural(m)[i - 1]);
            }
        }
    } else {
        lemma_natural(n as nat);
        let t = decimal(n as int);
        assert(is_digit(t[0]));
        assert(t[0] != '-');
    }
}


/// Whether the text `r` stands in `s` at position `p`.
pub open spec fn stands_at(s: Seq<char>, p: int, r: Seq<char>) -> bool {
    0 <= p && p + r.len() <= s.len() && s.subrange(p, p + r.len()) == r
}

/// Whether a run of plain characters cannot go on at position `p`: the
/// text ends there, or a character stands there that is not plain.
pub open spec fn run_stops(s: Seq<char>, p: int) -> bool {
    p == s.len() || (0 <= p < s.len() && !is_plain(s[p]))
}

proof fn lemma_plain_run(s: Seq<char>, p: int, e: int)
    requires
        0 <= p <= e <= s.len(),
        forall|i: int| p <= i < e ==> is_plain(#[trigger] s[i]),
        run_stops(s, e),
    ensures
        plain_end(s, p) == e,
    decreases e - p,
{
    if p < e {
        lemma_plain_run(s, p + 1, e);
    }
}

/// A blank in front of a token changes nothing.
proof fn lemma_step_over_blank(s: Seq<char>, p: int)
    requires
        0 <= p < s.len(),
        is_blank(s[p]),
    ensures
        tokens_from(s, p) == tokens_from(s, p + 1),
{
    lemma_skip_blanks(s, p + 1);
    let q = skip_blanks(s, p);
    assert(q == skip_blanks(s, p + 1));
    if q < s.len() {
        lemma_token_end(s, q);
    }
}

/// A word that stands in the text where no run goes on behind it is one
/// token.
proof fn lemma_scan_word(s: Seq<char>, p: int, w: Seq<char>)
    requires
        is_word(w),
        stands_at(s, p, w),
        run_stops(s, p + w.len()),
    ensures
        tokens_from(s, p) == seq![w] + tokens_from(s, p + w.len()),
{
    let e = p + w.len();
    assert forall|i: int| p <= i < e implies is_plain(#[trigger] s[i]) by {
        assert(s[i] == s.subrange(p, e)[i - p]);
        assert(is_word_char(w[i - p]));
    }
    assert(s[p] == w[0]);
    assert(is_word_char(w[0]));
    lemma_plain_run(s, p + 1, e);
    assert(skip_blanks(s, p) == p);
    assert(token_end(s, p) == e);
}

/// A special character is a token by itself, unless it is a `~` in front
/// of an `@`.
proof fn lemma_scan_special(s: Seq<char>, p: int)
    requires
        0 <= p < s.len(),
        is_special(s[p]),
        s[p] != '~',
    ensures
        tokens_from(s, p) == seq![seq![s[p]]] + tokens_from(s, p + 1),
{
    assert(skip_blanks(s, p) == p);
    assert(token_end(s, p) == p + 1);
    assert(s.subrange(p, p + 1) == seq![s[p]]);
}

proof fn lemma_words()
    ensures
        is_word("true"@),
        is_word("false"@),
        is_word("nil"@),
{
    reveal_strlit("true");
    reveal_strlit("false");
    reveal_strlit("nil");
}

/// Scanning a string goes through the escaped form of any text: no quote
/// in it ends the string, and no backslash in it lacks what it escapes.
proof fn lemma_scan_escaped(t: Seq<char>, p: int, s: Seq<char>)
    requires
        stands_at(t, p, escaped(s)),
        p + escaped(s).len() < t.len(),
    ensures
        string_end(t, p) == string_end(t, p + escaped(s).len()),
    decreases s.len(),
{
    if s.len() > 0 {
        let front = escaped(s.drop_last());
        let c = s.last();
        let e = escaped(s);
        assert(e == front + escape_char(c));
        let m = p + front.len();
        assert(t.subrange(p, m) =~= front) by {
            assert forall|i: int| 0 <= i < front.len() implies t.subrange(p, m)[i] == front[i] by {
                assert(t[p + i] == t.subrange(p, p + e.len())[i]);
            }
        }
        lemma_scan_escaped(t, p, s.drop_last());
        assert(t[m] == t.subrange(p, p + e.len())[m - p]);
        assert(t[m] == escape_char(c)[0]);
        if c == '"' || c == '\n' || c == '\\' {
            assert(t[m + 1] == t.subrange(p, p + e.len())[m + 1 - p]);
            assert(t[m + 1] == escape_char(c)[1]);
            assert(string_end(t, m) == string_end(t, m + 2));
        } else {
            assert(string_end(t, m) == string_end(t, m + 1));
        }
    }
}

/// The readable text of a string is one token, whatever stands behind it.
proof fn lemma_scan_string(t: Seq<char>, p: int, s: Seq<char>)
    requires
        stands_at(t, p, render(Value::String(s), true)),
    ensures
        tokens_from(t, p) == seq![render(Value::String(s), true)] + tokens_from(
            t,
            p + render(Value::String(s), true).len(),
        ),
{
    let r = render(Value::String(s), true);
    let e = escaped(s);
    assert(r == seq!['"'] + e + seq!['"']);
    let end = p + r.len();
    assert(t[p] == t.subrange(p, end)[0]);
    assert(t[end - 1] == t.subrange(p, end)[r.len() - 1]);
    assert(t[end - 1] == '"');
    assert(t.subrange(p + 1, end - 1) =~= e) by {
        assert forall|i: int| 0 <= i < e.len() implies t.subrange(p + 1, end - 1)[i] == e[i] by {
            assert(t[p + 1 + i] == t.subrange(p, end)[1 + i]);
        }
    }
    lemma_scan_escaped(t, p + 1, s);
    assert(string_end(t, end - 1) == end);
    assert(skip_blanks(t, p) == p);
    assert(token_end(t, p) == end);
}

/// The text of literal data, standing in a text where no run goes on
/// behind it, gives the tokens of that data.
pub proof fn lemma_scan_value(s: Seq<char>, p: int, v: Value)
    requires
        is_data(v),
        stands_at(s, p, render(v, true)),
        run_stops(s, p + render(v, true).len()),
    ensures
        tokens_from(s, p) == tokens_for(v) + tokens_from(s, p + render(v, true).len()),
    decreases v, 1int,
{
    let r = render(v, true);
    match v {
        Value::Number(n) => {
            lemma_decimal(n);
            lemma_scan_word(s, p, r);
        },
        Value::String(text) => {
            lemma_scan_string(s, p, text);
        },
        Value::Bool(b) => {
            lemma_words();
            lemma_scan_word(s, p, r);
        },
        Value::Nil => {
            lemma_words();
            lemma_scan_word(s, p, r);
        },
        Value::List(items) => {
            lemma_scan_collection(s, p, items, MalCollection::List);
        },
        Value::Vector(items) => {
            lemma_scan_collection(s, p, items, MalCollection::Vector);
        },
        _ => {},
    }
}

proof fn lemma_scan_collection(s: Seq<char>, p: int, items: Seq<Value>, kind: MalCollection)
    requires
        all_data(items),
        kind != MalCollection::HashMap,
        stands_at(s, p, render(kind.wrap(items), true)),
    ensures
        tokens_from(s, p) == tokens_for(kind.wrap(items)) + tokens_from(
            s,
            p + render(kind.wrap(items), true).len(),
        ),
    decreases items, 1int,
{
    let inner = render_items(items, true);
    let r = render(kind.wrap(items), true);
    assert(r == seq![kind.opener()] + inner + seq![kind.closer()]);
    let e = p + 1 + inner.len();
    assert(s[p] == r[0]);
    assert(s[e] == s.subrange(p, p + r.len())[e - p]);
    assert(s[e] == kind.closer());
    assert(s.subrange(p + 1, e) =~= inner) by {
        assert forall|i: int| 0 <= i < inner.len() implies s.subrange(p + 1, e)[i] == inner[i] by {
            assert(s[p + 1 + i] == s.subrange(p, p + r.len())[1 + i]);
        }
    }
    lemma_scan_special(s, p);
    lemma_scan_items(s, p + 1, items);
    lemma_scan_special(s, e);
    assert(tokens_for(kind.wrap(items)) == seq![seq![kind.opener()]] + tokens_for_items(items)
        + seq![seq![kind.closer()]]);
    assert(tokens_from(s, p) =~= tokens_for(kind.wrap(items)) + tokens_from(s, e + 1));
}

/// The texts of literal data with single spaces between them, standing
/// in a text where no run goes on behind them, give the tokens of each in
/// order.
proof fn lemma_scan_items(s: Seq<char>, p: int, items: Seq<Value>)
    requires
        all_data(items),
        stands_at(s, p, render_items(items, true)),
        run_stops(s, p + render_items(items, true).len()),
    ensures
        tokens_from(s, p) == tokens_for_items(items) + tokens_from(
            s,
            p + render_items(items, true).len(),
        ),
    decreases items, 0int,
{
    let r = render_items(items, true);
    if items.len() == 0 {
        assert(tokens_from(s, p) =~= tokens_for_items(items) + tokens_from(s, p));
    } else if items.len() == 1 {
        assert(items.last() == items[0]);
        assert(tokens_for_items(items.drop_last()) =~= Seq::<Seq<char>>::empty());
        assert(tokens_for_items(items) =~= tokens_for(items[0]));
        lemma_scan_value(s, p, items[0]);
    } else {
        let front = items.drop_last();
        let last = items.last();
        let rf = render_items(front, true);
        let rl = render(last, true);
        assert(r == rf + seq![' '] + rl);
        let m = p + rf.len();
        assert(s.subrange(p, m) =~= rf) by {
            assert forall|i: int| 0 <= i < rf.len() implies s.subrange(p, m)[i] == rf[i] by {
                assert(s[p + i] == s.subrange(p, p + r.len())[i]);
            }
        }
        assert(s[m] == s.subrange(p, p + r.len())[m - p]);
        assert(s[m] == ' ');
        assert(s.subrange(m + 1, p + r.len()) =~= rl) by {
            assert forall|i: int| 0 <= i < rl.len() implies s.subrange(m + 1, p + r.len())[i]
                == rl[i] by {
                assert(s[m + 1 + i] == s.subrange(p, p + r.len())[rf.len() + 1 + i]);
            }
        }
        lemma_scan_items(s, p, front);
        lemma_step_over_blank(s, m);
        lemma_scan_value(s, m + 1, last);
        assert(tokens_from(s, p) =~= tokens_for_items(items) + tokens_from(s, p + r.len()));
    }
}

/// The tokens of the readable text of literal data are the tokens of
/// that data.
pub proof fn lemma_tokens_of_render(v: Value)
    requires
        is_data(v),
    ensures
        tokens_of(render(v, true)) == tokens_for(v),
{
    let r = render(v, true);
    assert(r.subrange(0, r.len() as int) == r);
    lemma_scan_value(r, 0, v);
    assert(tokens_from(r, r.len() as int) =~= Seq::<Seq<char>>::empty());
}


/// Whether the tokens `t` stand in `tokens` at position `p`.
pub open spec fn tokens_at(tokens: Seq<Seq<char>>, p: int, t: Seq<Seq<char>>) -> bool {
    0 <= p && p + t.len() <= tokens.len() && tokens.subrange(p, p + t.len()) == t
}

proof fn lemma_all_data(items: Seq<Value>, j: int)
    requires
        all_data(items),
        0 <= j < items.len(),
    ensures
        is_data(items[j]),
    decreases items.len(),
{
    if j < items.len() - 1 {
        lemma_all_data(items.drop_last(), j);
    }
}

/// The tokens of the first `j` elements stand in front of the tokens of
/// all.
proof fn lemma_tokens_prefix(items: Seq<Value>, j: int)
    requires
        0 <= j <= items.len(),
    ensures
        tokens_for_items(items.take(j)).len() <= tokens_for_items(items).len(),
        tokens_for_items(items).subrange(0, tokens_for_items(items.take(j)).len() as int)
            == tokens_for_items(items.take(j)),
    decreases items.len(),
{
    let all = tokens_for_items(items);
    if j < items.len() {
        let front = items.drop_last();
        lemma_tokens_prefix(front, j);
        assert(front.take(j) == items.take(j));
        let tj = tokens_for_items(items.take(j));
        let tf = tokens_for_items(front);
        assert(all == tf + tokens_for(items.last()));
        assert(all.subrange(0, tj.len() as int) =~= tf.subrange(0, tj.len() as int));
    } else {
        assert(items.take(j) == items);
        assert(all.subrange(0, all.len() as int) == all);
    }
}

/// Literal data has a token, and its first is no closing delimiter.
proof fn lemma_tokens_start(v: Value)
    requires
        is_data(v),
    ensures
        tokens_for(v).len() > 0,
        !(opened_by(tokens_for(v)[0]) is None && is_closer(tokens_for(v)[0])),
{
    match v {
        Value::Number(n) => {
            lemma_decimal(n);
            let t = decimal(n as int);
            assert(is_word_char(t[0]));
            assert(seq![')'][0] == ')' && seq![']'][0] == ']' && seq!['}'][0] == '}');
        },
        Value::String(text) => {
            let t = render(v, true);
            assert(t[0] == '"');
            assert(seq![')'][0] == ')' && seq![']'][0] == ']' && seq!['}'][0] == '}');
        },
        Value::Bool(b) => {
            lemma_words();
            let t = render(v, true);
            assert(is_word_char(t[0]));
            assert(seq![')'][0] == ')' && seq![']'][0] == ']' && seq!['}'][0] == '}');
        },
        Value::Nil => {
            lemma_words();
            let t = render(v, true);
            assert(is_word_char(t[0]));
            assert(seq![')'][0] == ')' && seq![']'][0] == ']' && seq!['}'][0] == '}');
        },
        Value::List(items) => {
            assert(tokens_for(v)[0] == seq!['(']);
        },
        Value::Vector(items) => {
            assert(tokens_for(v)[0] == seq!['[']);
            assert(seq!['['][0] != seq!['('][0]);
        },
        _ => {},
    }
}

/// A word is no delimiter.
proof fn lemma_word_is_atom(t: Seq<char>)
    requires
        is_word(t),
    ensures
        opened_by(t) is None,
        !is_closer(t),
{
    assert(is_word_char(t[0]));
    assert(seq!['('][0] == '(' && seq!['['][0] == '[' && seq!['{'][0] == '{');
    assert(seq![')'][0] == ')' && seq![']'][0] == ']' && seq!['}'][0] == '}');
}

/// Each number, boolean and `nil` reads back from its text.
proof fn lemma_atom(v: Value)
    requires
        v is Number || v is Bool || v is Nil,
    ensures
        atom(render(v, true)) == Ok::<Value, ParseError>(v),
        is_word(render(v, true)),
{
    reveal_strlit("true");
    reveal_strlit("false");
    reveal_strlit("nil");
    match v {
        Value::Number(n) => {
            lemma_decimal(n);
            let t = decimal(n as int);
            assert(t[0] != 't' && t[0] != 'f' && t[0] != 'n');
            assert("true"@[0] == 't' && "false"@[0] == 'f' && "nil"@[0] == 'n');
        },
        Value::Bool(b) => {
            lemma_words();
            if !b {
                assert("false"@.len() != "true"@.len());
            }
        },
        Value::Nil => {
            lemma_words();
            assert("nil"@.len() != "true"@.len());
            assert("nil"@.len() != "false"@.len());
        },
        _ => {},
    }
}

/// The escaped form of a text starts with what its first character
/// becomes.
proof fn lemma_escaped_front(s: Seq<char>)
    requires
        s.len() > 0,
    ensures
        escaped(s) == escape_char(s[0]) + escaped(s.skip(1)),
    decreases s.len(),
{
    if s.len() == 1 {
        assert(s.drop_last() =~= Seq::<char>::empty());
        assert(s.skip(1) =~= Seq::<char>::empty());
        assert(escaped(s) =~= escape_char(s[0]) + escaped(s.skip(1)));
    } else {
        let front = s.drop_last();
        lemma_escaped_front(front);
        assert(front[0] == s[0]);
        assert(s.skip(1).drop_last() =~= front.skip(1));
        assert(s.skip(1).last() == s.last());
        assert(escaped(s.skip(1)) == escaped(front.skip(1)) + escape_char(s.last()));
        assert(escaped(s) =~= escape_char(s[0]) + escaped(s.skip(1)));
    }
}

/// Undoing the escapes of an escaped text gives the text.
pub proof fn lemma_unescaped_escaped(s: Seq<char>)
    ensures
        unescaped(escaped(s)) == s,
    decreases s.len(),
{
    if s.len() > 0 {
        let c = s[0];
        let rest = escaped(s.skip(1));
        let t = escaped(s);
        lemma_escaped_front(s);
        lemma_unescaped_escaped(s.skip(1));
        assert(t == escape_char(c) + rest);
        if c == '"' || c == '\n' || c == '\\' {
            assert(t[0] == '\\');
            assert(t[1] == escape_char(c)[1]);
            assert(is_escape(t[1]));
            assert(unescape_char(t[1]) == c);
            assert(t.skip(2) =~= rest);
            assert(seq![c] + s.skip(1) =~= s);
        } else {
            assert(t[0] == c);
            assert(t.skip(1) =~= rest);
            assert(seq![c] + s.skip(1) =~= s);
        }
    } else {
        assert(escaped(s) =~= Seq::<char>::empty());
    }
}

/// The readable text of a string reads as that string.
proof fn lemma_string_atom(s: Seq<char>)
    ensures
        atom(render(Value::String(s), true)) == Ok::<Value, ParseError>(Value::String(s)),
        opened_by(render(Value::String(s), true)) is None,
        !is_closer(render(Value::String(s), true)),
{
    reveal_strlit("true");
    reveal_strlit("false");
    reveal_strlit("nil");
    let t = render(Value::String(s), true);
    assert(t == seq!['"'] + escaped(s) + seq!['"']);
    assert(t[0] == '"');
    assert(t.last() == '"');
    assert("true"@[0] == 't' && "false"@[0] == 'f' && "nil"@[0] == 'n');
    assert(!is_digit(t[0]));
    assert(!all_digits(t));
    assert(t.subrange(1, t.len() - 1) =~= escaped(s));
    lemma_unescaped_escaped(s);
    assert(seq!['('][0] == '(' && seq!['['][0] == '[' && seq!['{'][0] == '{');
    assert(seq![')'][0] == ')' && seq![']'][0] == ']' && seq!['}'][0] == '}');
}

/// The tokens of literal data, standing in a sequence of tokens, read as
/// that data.
pub proof fn lemma_read_value(tokens: Seq<Seq<char>>, p: int, v: Value)
    requires
        is_data(v),
        tokens_at(tokens, p, tokens_for(v)),
    ensures
        read_form(tokens, p) == Ok::<(Value, int), ParseError>(
            (v, p + tokens_for(v).len()),
        ),
    decreases v, 0int, 0int,
{
    let t = tokens_for(v);
    lemma_tokens_start(v);
    assert(tokens[p] == tokens.subrange(p, p + t.len())[0]);
    match v {
        Value::List(items) => {
            lemma_read_collection(tokens, p, items, MalCollection::List);
        },
        Value::Vector(items) => {
            lemma_read_collection(tokens, p, items, MalCollection::Vector);
        },
        Value::String(text) => {
            lemma_string_atom(text);
        },
        _ => {
            lemma_atom(v);
            lemma_word_is_atom(render(v, true));
        },
    }
}

proof fn lemma_read_collection(
    tokens: Seq<Seq<char>>,
    p: int,
    items: Seq<Value>,
    kind: MalCollection,
)
    requires
        all_data(items),
        kind != MalCollection::HashMap,
        tokens_at(tokens, p, tokens_for(kind.wrap(items))),
    ensures
        read_form(tokens, p) == Ok::<(Value, int), ParseError>(
            (kind.wrap(items), p + tokens_for(kind.wrap(items)).len()),
        ),
    decreases items, 1int, 0int,
{
    let t = tokens_for(kind.wrap(items));
    let ti = tokens_for_items(items);
    assert(t == seq![seq![kind.opener()]] + ti + seq![seq![kind.closer()]]);
    assert(tokens[p] == tokens.subrange(p, p + t.len())[0]);
    assert(tokens[p] == seq![kind.opener()]);
    assert(seq!['['][0] != seq!['('][0]);
    assert(opened_by(tokens[p]) == Some(kind));
    let e = p + 1 + ti.len();
    assert(tokens[e] == tokens.subrange(p, p + t.len())[e - p]);
    assert(tokens.subrange(p + 1, e) =~= ti) by {
        assert forall|i: int| 0 <= i < ti.len() implies tokens.subrange(p + 1, e)[i] == ti[i] by {
            assert(tokens[p + 1 + i] == tokens.subrange(p, p + t.len())[1 + i]);
        }
    }
    assert(items.take(0) == Seq::<Value>::empty());
    assert(items.skip(0) == items);
    lemma_read_items(tokens, p + 1, items, kind, 0);
}

/// With the tokens of the elements standing at `q` and the closing
/// delimiter behind them, reading on behind the first `j` elements gives
/// the others.
proof fn lemma_read_items(
    tokens: Seq<Seq<char>>,
    q: int,
    items: Seq<Value>,
    kind: MalCollection,
    j: int,
)
    requires
        all_data(items),
        0 <= j <= items.len(),
        tokens_at(tokens, q, tokens_for_items(items)),
        q + tokens_for_items(items).len() < tokens.len(),
        tokens[q + tokens_for_items(items).len()] == seq![kind.closer()],
    ensures
        read_items(tokens, q + tokens_for_items(items.take(j)).len(), kind) == Ok::<
            (Seq<Value>, int),
            ParseError,
        >((items.skip(j), q + tokens_for_items(items).len() + 1)),
    decreases items, 0int, items.len() - j,
{
    let ti = tokens_for_items(items);
    let tj = tokens_for_items(items.take(j));
    let at = q + tj.len();
    if j == items.len() {
        assert(items.take(j) == items);
        assert(items.skip(j) =~= Seq::<Value>::empty());
    } else {
        let v = items[j];
        let tv = tokens_for(v);
        let tn = tokens_for_items(items.take(j + 1));
        lemma_all_data(items, j);
        lemma_tokens_prefix(items, j + 1);
        assert(items.take(j + 1).drop_last() == items.take(j));
        assert(items.take(j + 1).last() == v);
        assert(tn == tj + tv);
        lemma_tokens_start(v);
        assert(tokens.subrange(at, at + tv.len()) =~= tv) by {
            assert forall|i: int| 0 <= i < tv.len() implies tokens.subrange(at, at + tv.len())[i]
                == tv[i] by {
                assert(tokens[at + i] == tokens.subrange(q, q + ti.len())[tj.len() + i]);
                assert(ti[tj.len() + i] == ti.subrange(0, tn.len() as int)[tj.len() + i]);
                assert(tn[tj.len() + i] == tv[i]);
            }
        }
        assert(tokens[at] == tv[0]) by {
            assert(tokens[at] == tokens.subrange(at, at + tv.len())[0]);
        }
        lemma_read_value(tokens, at, v);
        lemma_read_items(tokens, q, items, kind, j + 1);
        assert(tokens[at] != seq![kind.closer()]) by {
            if tokens[at] == seq![kind.closer()] {
                assert(is_closer(tokens[at]));
                assert(seq![')'] != seq!['(']) by {
                    assert(seq![')'][0] != seq!['('][0]);
                }
                assert(seq![')'][0] == ')' && seq![']'][0] == ']' && seq!['}'][0] == '}');
                assert(seq!['('][0] == '(' && seq!['['][0] == '[' && seq!['{'][0] == '{');
                assert(opened_by(tokens[at]) is None);
            }
        }
        assert(seq![v] + items.skip(j + 1) =~= items.skip(j));
    }
}

/// The tokens of literal data, and nothing else, read as that data alone.
proof fn lemma_read_single(tokens: Seq<Seq<char>>, v: Value)
    requires
        is_data(v),
        tokens == tokens_for(v),
    ensures
        read_all(tokens, 0) == Ok::<(Seq<Value>, int), ParseError>((seq![v], tokens.len() as int)),
{
    let n = tokens.len() as int;
    lemma_tokens_start(v);
    assert(tokens.subrange(0, n) == tokens);
    lemma_read_value(tokens, 0, v);
    assert(read_form(tokens, 0) == Ok::<(Value, int), ParseError>((v, n)));
    assert(read_all(tokens, n) == Ok::<(Seq<Value>, int), ParseError>((Seq::<Value>::empty(), n)));
    assert(seq![v] + Seq::<Value>::empty() =~= seq![v]);
    assert(with_first(v, read_all(tokens, n)) == Ok::<(Seq<Value>, int), ParseError>(
        (seq![v], n),
    ));
}

/// Round trip: the readable text of literal data reads back as that data,
/// and as nothing else.
pub proof fn lemma_round_trip(v: Value)
    requires
        is_data(v),
    ensures
        read_all(tokens_of(render(v, true)), 0) == Ok::<(Seq<Value>, int), ParseError>(
            (seq![v], tokens_of(render(v, true)).len() as int),
        ),
{
    lemma_tokens_of_render(v);
    lemma_read_single(tokens_of(render(v, true)), v);
}

} // verus!
