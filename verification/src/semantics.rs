//! What evaluation means, as functions on the views of forms and
//! environments. The evaluator is held to these.

use crate::environment::{bind_params, EnvView};
use crate::error::Failure;
use crate::printer::{render, render_items};
use crate::types::{wrapping_quotient, ExprView, Native, Value};
use vstd::prelude::*;

verus! {

/// What an evaluation leaves: its result and the environment after it.
pub ghost struct Outcome {
    pub result: Result<Value, Failure>,
    pub state: EnvView,
}

/// What the evaluation of a sequence of forms leaves.
pub ghost struct Outcomes {
    pub result: Result<Seq<Value>, Failure>,
    pub state: EnvView,
}

/// The outcome that fails with `e` and leaves `st`.
pub open spec fn fails(e: Failure, st: EnvView) -> Outcome {
    Outcome { result: Err(e), state: st }
}

/// The outcome that gives `v` and leaves `st`.
pub open spec fn gives(v: Value, st: EnvView) -> Outcome {
    Outcome { result: Ok(v), state: st }
}

/// Only `nil` and `false` count as false.
pub open spec fn is_falsy(v: Value) -> bool {
    v is Nil || v == Value::Bool(false)
}

/// Whether every element is a symbol.
pub open spec fn all_symbols(items: Seq<Value>) -> bool {
    forall|i: int| 0 <= i < items.len() ==> #[trigger] items[i] is Symbol
}

/// The display renderings of `items`, one behind the other.
pub open spec fn display_all(items: Seq<Value>) -> Seq<char>
    decreases items.len(),
{
    if items.len() == 0 {
        Seq::empty()
    } else {
        display_all(items.drop_last()) + render(items.last(), false)
    }
}

/// The length of a list as a number of the language.
pub open spec fn count_of(items: Seq<Value>) -> i64 {
    if items.len() <= i64::MAX {
        items.len() as i64
    } else {
        i64::MAX
    }
}

/// What an arithmetic operator or a comparison makes of two numbers.
pub open spec fn number_op(f: Native, a: i64, b: i64) -> Result<Value, Failure> {
    match f {
        Native::Add => Ok(Value::Number(a.wrapping_add(b))),
        Native::Sub => Ok(Value::Number(a.wrapping_sub(b))),
        Native::Mul => Ok(Value::Number(a.wrapping_mul(b))),
        Native::Div => if b == 0 {
            Err(Failure::DivisionByZero)
        } else {
            Ok(Value::Number(wrapping_quotient(a, b)))
        },
        Native::Less => Ok(Value::Bool(a < b)),
        Native::LessEq => Ok(Value::Bool(a <= b)),
        Native::Greater => Ok(Value::Bool(a > b)),
        _ => Ok(Value::Bool(a >= b)),
    }
}

/// Whether the operation decides for itself which operands to evaluate.
pub open spec fn is_special(f: Native) -> bool {
    f is Def || f is Let || f is Do || f is If || f is Lambda
}

/// The value that a library function, called under the name `op`, makes
/// of its arguments.
pub open spec fn native_result(f: Native, op: Seq<char>, args: Seq<Value>) -> Result<
    Value,
    Failure,
>
    recommends
        !is_special(f),
{
    match f {
        Native::PrStr => Ok(Value::String(render_items(args, true))),
        Native::Str => Ok(Value::String(display_all(args))),
        Native::Prn => Ok(Value::Nil),
        Native::Println => Ok(Value::Nil),
        Native::List => Ok(Value::List(args)),
        Native::IsList => if args.len() < 1 {
            Err(Failure::ArityMismatch)
        } else {
            Ok(Value::Bool(args[0] is List))
        },
        Native::IsEmpty => if args.len() < 1 {
            Err(Failure::ArityMismatch)
        } else {
            match args[0] {
                Value::List(items) => Ok(Value::Bool(items.len() == 0)),
                _ => Err(Failure::TypeMismatch(op, seq![args[0]])),
            }
        },
        Native::Count => if args.len() < 1 {
            Err(Failure::ArityMismatch)
        } else {
            match args[0] {
                Value::List(items) => Ok(Value::Number(count_of(items))),
                Value::Nil => Ok(Value::Number(0)),
                _ => Err(Failure::TypeMismatch(op, seq![args[0]])),
            }
        },
        Native::Equal => if args.len() < 2 {
            Err(Failure::ArityMismatch)
        } else {
            Ok(Value::Bool(args[0].equal(args[1])))
        },
        _ => if args.len() < 2 {
            Err(Failure::ArityMismatch)
        } else {
            match (args[0], args[1]) {
                (Value::Number(a), Value::Number(b)) => number_op(f, a, b),
                _ => Err(Failure::TypeMismatch(op, seq![args[0], args[1]])),
            }
        },
    }
}

/// The environment that a library function leaves. Only the two printing
/// functions change it: `prn` prints its first argument in readable form,
/// or an empty line; `println` prints all its arguments for display,
/// separated by spaces.
pub open spec fn native_state(f: Native, args: Seq<Value>, st: EnvView) -> EnvView {
    match f {
        Native::Prn => st.printed(
            if args.len() > 0 {
                render(args[0], true)
            } else {
                Seq::empty()
            },
        ),
        Native::Println => st.printed(render_items(args, false)),
        _ => st,
    }
}

/// What a library function, called under the name `op`, makes of its
/// arguments.
pub open spec fn native_spec(f: Native, op: Seq<char>, args: Seq<Value>, st: EnvView) -> Outcome
    recommends
        !is_special(f),
{
    Outcome { result: native_result(f, op, args), state: native_state(f, args, st) }
}

/// The value and the environment that the form `ast` evaluates to in the
/// environment `st`, where applications may nest `depth` deep.
///
/// A form that is no list, and the empty list, evaluate structurally. A
/// list whose head is a symbol that stands for a special form is handed
/// to that form with its operands as they are. Of any other list every
/// element is evaluated, and the first value is applied to the others,
/// one level deeper than the list itself.
pub open spec fn eval_spec(ast: Value, st: EnvView, depth: nat) -> Outcome
    decreases depth, 0nat, ast, 1nat,
{
    match ast {
        Value::List(items) => if items.len() == 0 {
            gives(ast, st)
        } else {
            match head_form(items[0], st) {
                Some(expr) => expr_spec(expr, items.skip(1), st, depth),
                None => {
                    let r = eval_items(items, false, st, depth);
                    match r.result {
                        Err(e) => fails(e, r.state),
                        Ok(vals) => if depth == 0 {
                            fails(Failure::DepthExceeded, r.state)
                        } else {
                            apply_spec(vals[0], vals.skip(1), r.state, (depth - 1) as nat)
                        },
                    }
                },
            }
        },
        _ => eval_ast_spec(ast, st, depth),
    }
}

/// The special form that the head of a list stands for, if it is a symbol
/// that stands for one.
pub open spec fn head_form(head: Value, st: EnvView) -> Option<ExprView> {
    match head {
        Value::Symbol(name) => match st.lookup(name) {
            Some(Value::Bind(expr)) => Some(expr),
            _ => None,
        },
        _ => None,
    }
}

/// Structural evaluation: the elements of a list or a vector are
/// evaluated in order, of a map only the values; a symbol gives what it
/// stands for; everything else gives itself.
pub open spec fn eval_ast_spec(ast: Value, st: EnvView, depth: nat) -> Outcome
    decreases depth, 0nat, ast, 0nat,
{
    match ast {
        Value::List(items) => {
            let r = eval_items(items, false, st, depth);
            match r.result {
                Ok(vals) => gives(Value::List(vals), r.state),
                Err(e) => fails(e, r.state),
            }
        },
        Value::Vector(items) => {
            let r = eval_items(items, false, st, depth);
            match r.result {
                Ok(vals) => gives(Value::Vector(vals), r.state),
                Err(e) => fails(e, r.state),
            }
        },
        Value::HashMap(items) => {
            let r = eval_items(items, true, st, depth);
            match r.result {
                Ok(vals) => gives(Value::HashMap(vals), r.state),
                Err(e) => fails(e, r.state),
            }
        },
        Value::Symbol(name) => match st.lookup(name) {
            Some(v) => gives(v, st),
            None => fails(Failure::SymbolNotFound(name), st),
        },
        _ => gives(ast, st),
    }
}

/// The values of `items`, evaluated from the first to the last, each in
/// the environment that the one before it left. The first failure ends
/// it. With `keys`, the elements at even positions are keys: they stay
/// as they are.
pub open spec fn eval_items(items: Seq<Value>, keys: bool, st: EnvView, depth: nat) -> Outcomes
    decreases depth, 0nat, items, 0nat,
{
    if items.len() == 0 {
        Outcomes { result: Ok(Seq::empty()), state: st }
    } else {
        let before = eval_items(items.drop_last(), keys, st, depth);
        match before.result {
            Err(e) => before,
            Ok(vals) => if keys && (items.len() - 1) % 2 == 0 {
                Outcomes { result: Ok(vals.push(items.last())), state: before.state }
            } else {
                let o = eval_spec(items.last(), before.state, depth);
                match o.result {
                    Ok(v) => Outcomes { result: Ok(vals.push(v)), state: o.state },
                    Err(e) => Outcomes { result: Err(e), state: o.state },
                }
            },
        }
    }
}

/// What a built-in operation makes of its operands.
pub open spec fn expr_spec(expr: ExprView, operands: Seq<Value>, st: EnvView, depth: nat) -> Outcome
    decreases depth, 0nat, operands, 2nat,
{
    match expr.inner {
        Native::Def => def_spec(expr.symbol, operands, st, depth),
        Native::Let => let_spec(expr.symbol, operands, st, depth),
        Native::Do => do_spec(operands, st, depth),
        Native::If => if_spec(operands, st, depth),
        Native::Lambda => fn_spec(expr.symbol, operands, st),
        _ => native_spec(expr.inner, expr.symbol, operands, st),
    }
}

/// `def!`: the value of the second operand, bound in the current scope to
/// the symbol that is the first.
pub open spec fn def_spec(op: Seq<char>, operands: Seq<Value>, st: EnvView, depth: nat) -> Outcome
    decreases depth, 0nat, operands, 1nat,
{
    if operands.len() < 2 {
        fails(Failure::ArityMismatch, st)
    } else {
        match operands[0] {
            Value::Symbol(name) => {
                let o = eval_spec(operands[1], st, depth);
                match o.result {
                    Ok(v) => gives(v, o.state.bind(name, v)),
                    Err(e) => o,
                }
            },
            _ => fails(Failure::TypeMismatch(op, seq![operands[0]]), st),
        }
    }
}

/// `do`: every operand is evaluated in order; the value is that of the
/// last.
pub open spec fn do_spec(operands: Seq<Value>, st: EnvView, depth: nat) -> Outcome
    decreases depth, 0nat, operands, 1nat,
{
    if operands.len() == 0 {
        fails(Failure::ArityMismatch, st)
    } else {
        let before = eval_items(operands.drop_last(), false, st, depth);
        match before.result {
            Ok(_) => eval_spec(operands.last(), before.state, depth),
            Err(e) => fails(e, before.state),
        }
    }
}

/// `if`: where the first operand is falsy, the value of the third, or
/// `nil` if there is none; else the value of the second.
pub open spec fn if_spec(operands: Seq<Value>, st: EnvView, depth: nat) -> Outcome
    decreases depth, 0nat, operands, 1nat,
{
    if operands.len() != 2 && operands.len() != 3 {
        fails(Failure::ArityMismatch, st)
    } else {
        let c = eval_spec(operands[0], st, depth);
        match c.result {
            Err(e) => c,
            Ok(v) => if is_falsy(v) {
                if operands.len() == 3 {
                    eval_spec(operands[2], c.state, depth)
                } else {
                    gives(Value::Nil, c.state)
                }
            } else {
                eval_spec(operands[1], c.state, depth)
            },
        }
    }
}

/// `fn*`: a user function with the first operand, a list of symbols, as
/// its parameters and the second as its body. It holds the current scope
/// and gets an identity of its own.
pub open spec fn fn_spec(op: Seq<char>, operands: Seq<Value>, st: EnvView) -> Outcome {
    if operands.len() < 2 {
        fails(Failure::ArityMismatch, st)
    } else {
        match operands[0] {
            Value::List(params) => if all_symbols(params) {
                gives(
                    Value::Fn {
                        body: Box::new(operands[1]),
                        params: Box::new(operands[0]),
                        scope: st.current,
                        id: st.next_id,
                    },
                    st.numbered(),
                )
            } else {
                fails(Failure::TypeMismatch(op, seq![operands[0]]), st)
            },
            _ => fails(Failure::TypeMismatch(op, seq![operands[0]]), st),
        }
    }
}

/// The pairs of a `let*`, if its first operand is a list or a vector.
pub open spec fn let_pairs(v: Value) -> Option<Seq<Value>> {
    match v {
        Value::List(pairs) => Some(pairs),
        Value::Vector(pairs) => Some(pairs),
        _ => None,
    }
}

/// `let*`: in a new scope, each symbol of the pairs is bound to the value
/// of the form behind it, which may use the bindings made before it; the
/// value is that of the last operand in that scope. The scope is left
/// again whether that succeeds or fails, and given up where nothing can
/// refer to it.
pub open spec fn let_spec(op: Seq<char>, operands: Seq<Value>, st: EnvView, depth: nat) -> Outcome
    decreases depth, 0nat, operands, 1nat,
{
    if operands.len() < 2 {
        fails(Failure::ArityMismatch, st)
    } else {
        match let_pairs(operands[0]) {
            None => fails(Failure::TypeMismatch(op, seq![operands[0]]), st),
            Some(pairs) => if pairs.len() % 2 != 0 {
                fails(Failure::ArityMismatch, st)
            } else {
                let b = let_bind(op, pairs, 0, st.entered(), depth);
                let o = match b.result {
                    Err(e) => b,
                    Ok(_) => eval_spec(operands.last(), b.state, depth),
                };
                Outcome {
                    result: o.result,
                    state: o.state.exited().released(st.scopes.len(), st.next_id),
                }
            },
        }
    }
}

/// The pairs from position `i` on, bound one after the other in the
/// current scope. The value is `nil`.
pub open spec fn let_bind(
    op: Seq<char>,
    pairs: Seq<Value>,
    i: int,
    st: EnvView,
    depth: nat,
) -> Outcome
    decreases depth, 0nat, pairs, pairs.len() - i,
{
    if i < 0 || i + 1 >= pairs.len() {
        gives(Value::Nil, st)
    } else {
        match pairs[i] {
            Value::Symbol(name) => {
                let o = eval_spec(pairs[i + 1], st, depth);
                match o.result {
                    Err(e) => o,
                    Ok(v) => let_bind(op, pairs, i + 2, o.state.bind(name, v), depth),
                }
            },
            _ => fails(Failure::TypeMismatch(op, seq![pairs[i]]), st),
        }
    }
}

/// What applying `f` to the arguments `args` gives.
///
/// A user function binds its parameters to the arguments in a new scope
/// inside the scope it holds, and evaluates its body there. A library
/// function gets a new scope inside the current one. A binary operator
/// works where it is. Nothing else can be applied. After the call the
/// cursor is back where it was, and the scopes made during the call are
/// given up where nothing can refer to them.
pub open spec fn apply_spec(f: Value, args: Seq<Value>, st: EnvView, depth: nat) -> Outcome
    decreases depth, 1nat, args, 0nat,
{
    match f {
        Value::Fn { body, params, scope, id } => match bind_params(*params, args) {
            Err(e) => fails(e, st),
            Ok(vars) => {
                let o = eval_spec(
                    *body,
                    st.derived(scope, vars).focused(st.scopes.len()),
                    depth,
                );
                Outcome {
                    result: o.result,
                    state: o.state.focused(st.current).released(st.scopes.len(), st.next_id),
                }
            },
        },
        Value::LibFn { expr, pattern } => match bind_params(*pattern, args) {
            Err(e) => fails(e, st),
            Ok(vars) => {
                let o = expr_spec(
                    expr,
                    args,
                    st.derived(st.current, vars).focused(st.scopes.len()),
                    depth,
                );
                Outcome {
                    result: o.result,
                    state: o.state.focused(st.current).released(st.scopes.len(), st.next_id),
                }
            },
        },
        Value::BinOp(expr) => expr_spec(expr, args, st, depth),
        _ => fails(Failure::NotCallable, st),
    }
}

} // verus!
