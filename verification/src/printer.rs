//! Rendering of values as text, in two modes: for display (text as it is)
//! and readable (text quoted and escaped, so that it can be read back).

use crate::types::{values_of, MalCollection, MalType, Value};
use vstd::prelude::*;

verus! {

/// `String::push` appends the one character to the end of the text.
pub assume_specification[ std::string::String::push ](s: &mut std::string::String, c: char)
    ensures
        final(s)@ == old(s)@.push(c),
;

/// The character for one decimal digit.
pub open spec fn digit(d: int) -> char {
    if d == 0 {
        '0'
    } else if d == 1 {
        '1'
    } else if d == 2 {
        '2'
    } else if d == 3 {
        '3'
    } else if d == 4 {
        '4'
    } else if d == 5 {
        '5'
    } else if d == 6 {
        '6'
    } else if d == 7 {
        '7'
    } else if d == 8 {
        '8'
    } else {
        '9'
    }
}

/// A natural number in decimal, without leading zeros.
pub open spec fn natural(n: nat) -> Seq<char>
    decreases n,
{
    if n < 10 {
        seq![digit(n as int)]
    } else {
        natural(n / 10).push(digit((n % 10) as int))
    }
}

/// An integer in decimal, with a leading `-` when it is negative.
pub open spec fn decimal(n: int) -> Seq<char> {
    if n < 0 {
        seq!['-'] + natural((-n) as nat)
    } else {
        natural(n as nat)
    }
}

/// What one character of a text becomes in readable mode.
pub open spec fn escape_char(c: char) -> Seq<char> {
    if c == '"' {
        seq!['\\', '"']
    } else if c == '\n' {
        seq!['\\', 'n']
    } else if c == '\\' {
        seq!['\\', '\\']
    } else {
        seq![c]
    }
}

/// A text with `"`, `\` and newline escaped.
pub open spec fn escaped(s: Seq<char>) -> Seq<char>
    decreases s.len(),
{
    if s.len() == 0 {
        Seq::empty()
    } else {
        escaped(s.drop_last()) + escape_char(s.last())
    }
}

/// The renderings of `items`, separated by single spaces.
pub open spec fn render_items(items: Seq<Value>, readable: bool) -> Seq<char>
    decreases items,
{
    if items.len() == 0 {
        Seq::empty()
    } else if items.len() == 1 {
        render(items[0], readable)
    } else {
        render_items(items.drop_last(), readable) + seq![' '] + render(items.last(), readable)
    }
}

/// The text of a value. In readable mode a string stands in double quotes
/// with its content escaped; in display mode it stands as it is. Functions
/// render as a tag that names their kind.
pub open spec fn render(v: Value, readable: bool) -> Seq<char>
    decreases v,
{
    match v {
        Value::List(items) => seq!['('] + render_items(items, readable) + seq![')'],
        Value::HashMap(items) => seq!['{'] + render_items(items, readable) + seq!['}'],
        Value::Vector(items) => seq!['['] + render_items(items, readable) + seq![']'],
        Value::String(s) => if readable {
            seq!['"'] + escaped(s) + seq!['"']
        } else {
            s
        },
        Value::Symbol(s) => s,
        Value::Number(n) => decimal(n as int),
        Value::Bool(b) => if b {
            "true"@
        } else {
            "false"@
        },
        Value::Nil => "nil"@,
        Value::Bind(e) => "Bind: "@ + e.symbol + " ["@ + natural(e.arguments) + "]"@,
        Value::BinOp(e) => "BinOp: "@ + e.symbol + " ["@ + natural(e.arguments) + "]"@,
        Value::Fn { body, params, .. } => "Fn: "@ + render(*body, false) + " ["@ + render(
            *params,
            false,
        ) + "]"@,
        Value::LibFn { expr, pattern } => "LibFn: "@ + expr.symbol + " ["@ + render(
            *pattern,
            false,
        ) + "]"@,
    }
}

fn digit_char(d: u64) -> (c: char)
    requires
        d < 10,
    ensures
        c == digit(d as int),
{
    if d == 0 {
        '0'
    } else if d == 1 {
        '1'
    } else if d == 2 {
        '2'
    } else if d == 3 {
        '3'
    } else if d == 4 {
        '4'
    } else if d == 5 {
        '5'
    } else if d == 6 {
        '6'
    } else if d == 7 {
        '7'
    } else if d == 8 {
        '8'
    } else {
        '9'
    }
}

/// Appends `n` in decimal to `out`.
pub fn write_natural(n: u64, out: &mut String)
    ensures
        final(out)@ == old(out)@ + natural(n as nat),
    decreases n,
{
    if n >= 10 {
        write_natural(n / 10, out);
    }
    out.push(digit_char(n % 10));
}

/// Appends `n` in decimal to `out`, with its sign.
pub fn write_decimal(n: i64, out: &mut String)
    ensures
        final(out)@ == old(out)@ + decimal(n as int),
{
    if n < 0 {
        out.push('-');
        let magnitude: u64 = (-(n as i128)) as u64;
        write_natural(magnitude, out);
    } else {
        write_natural(n as u64, out);
    }
}

/// The text `s` with `"`, `\` and newline escaped.
pub fn escape_str(s: &str) -> (out: String)
    ensures
        out@ == escaped(s@),
{
    let mut out = String::new();
    for c in it: s.chars()
        invariant
            it.seq() == s@,
            out@ == escaped(s@.take(it.index() as int)),
    {
        proof {
            let k = it.index() as int;
            assert(s@.take(k + 1).drop_last() == s@.take(k));
        }
        if c == '"' {
            out.push('\\');
            out.push('"');
        } else if c == '\n' {
            out.push('\\');
            out.push('n');
        } else if c == '\\' {
            out.push('\\');
            out.push('\\');
        } else {
            out.push(c);
        }
    }
    assert(s@.take(s@.len() as int) == s@);
    out
}

/// Appends a collection of the kind `collection_type` with the elements
/// `inner`, each rendered for display.
pub fn print_collection(collection_type: MalCollection, inner: &[MalType], out: &mut String)
    ensures
        final(out)@ == old(out)@ + render(collection_type.wrap(values_of(inner@)), false),
    decreases inner@, 1nat,
{
    out.append(collection_type.start());
    write_items(inner, false, out);
    out.append(collection_type.end());
}

/// Appends a collection of the kind `collection_type` with the elements
/// `inner`, each rendered in readable form.
pub fn print_collection_b(collection_type: MalCollection, inner: &[MalType], out: &mut String)
    ensures
        final(out)@ == old(out)@ + render(collection_type.wrap(values_of(inner@)), true),
    decreases inner@, 1nat,
{
    out.append(collection_type.start());
    write_items(inner, true, out);
    out.append(collection_type.end());
}

/// Appends the renderings of `items`, separated by single spaces.
pub fn write_items(items: &[MalType], readable: bool, out: &mut String)
    ensures
        final(out)@ == old(out)@ + render_items(values_of(items@), readable),
    decreases items@, 0nat,
{
    let ghost start = out@;
    let ghost vals = values_of(items@);
    let mut i: usize = 0;
    while i < items.len()
        invariant
            i <= items.len(),
            vals == values_of(items@),
            out@ == start + render_items(vals.take(i as int), readable),
        decreases items.len() - i,
    {
        proof {
            assert(vals.take(i + 1).drop_last() == vals.take(i as int));
        }
        if i > 0 {
            out.push(' ');
        }
        items[i].write(readable, out);
        i += 1;
    }
    assert(vals.take(i as int) == vals);
}

impl MalType {
    /// Appends the rendering of the value to `out`.
    pub fn write(&self, readable: bool, out: &mut String)
        ensures
            final(out)@ == old(out)@ + render(self@, readable),
        decreases self, 0nat,
    {
        match self {
            MalType::List(items) => {
                if readable {
                    print_collection_b(MalCollection::List, items.as_slice(), out);
                } else {
                    print_collection(MalCollection::List, items.as_slice(), out);
                }
            },
            MalType::HashMap(items) => {
                if readable {
                    print_collection_b(MalCollection::HashMap, items.as_slice(), out);
                } else {
                    print_collection(MalCollection::HashMap, items.as_slice(), out);
                }
            },
            MalType::Vector(items) => {
                if readable {
                    print_collection_b(MalCollection::Vector, items.as_slice(), out);
                } else {
                    print_collection(MalCollection::Vector, items.as_slice(), out);
                }
            },
            MalType::String(s) => {
                if readable {
                    out.push('"');
                    let escaped = escape_str(s.as_str());
                    out.append(escaped.as_str());
                    out.push('"');
                } else {
                    out.append(s.as_str());
                }
            },
            MalType::Symbol(s) => {
                out.append(s.as_str());
            },
            MalType::Number(n) => {
                write_decimal(*n, out);
            },
            MalType::Bool(b) => {
                if *b {
                    out.append("true");
                } else {
                    out.append("false");
                }
            },
            MalType::Nil => {
                out.append("nil");
            },
            MalType::Bind(e) => {
                out.append("Bind: ");
                out.append(e.symbol.as_str());
                out.append(" [");
                write_natural(e.arguments as u64, out);
                out.append("]");
            },
            MalType::BinOp(e) => {
                out.append("BinOp: ");
                out.append(e.symbol.as_str());
                out.append(" [");
                write_natural(e.arguments as u64, out);
                out.append("]");
            },
            MalType::Fn(f) => {
                out.append("Fn: ");
                f.expr.write(false, out);
                out.append(" [");
                f.captured_args.write(false, out);
                out.append("]");
            },
            MalType::LibFn(f) => {
                out.append("LibFn: ");
                out.append(f.expr.symbol.as_str());
                out.append(" [");
                f.captured_env.write(false, out);
                out.append("]");
            },
        }
    }

    /// The value as text for display.
    pub fn to_string(&self) -> (r: String)
        ensures
            r@ == render(self@, false),
    {
        let mut out = String::new();
        self.write(false, &mut out);
        out
    }

    /// The value as text that can be read back.
    pub fn to_readable(&self) -> (r: String)
        ensures
            r@ == render(self@, true),
    {
        let mut out = String::new();
        self.write(true, &mut out);
        out
    }
}

} // verus!
