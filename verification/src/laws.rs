//! Laws of evaluation and of environments, proved from the definitions.

use crate::environment::{bind_from, bind_params, rest_marker, EnvView};
use crate::error::Failure;
use crate::semantics::{
    apply_spec, def_spec, eval_ast_spec, eval_items, eval_spec, expr_spec, fails, fn_spec, gives,
    head_form, if_spec, is_falsy, is_special, let_bind, let_pairs, let_spec, native_result,
    native_state,
};
use crate::types::{ExprView, Native, Value};
use vstd::prelude::*;

verus! {

/// Evaluating the first `i` items of `items` is evaluating the items of
/// that prefix.
proof fn lemma_prefix_of_front(items: Seq<Value>, i: int)
    requires
        0 <= i < items.len(),
    ensures
        items.drop_last().take(i) == items.take(i),
{
}

/// Of the elements of a map literal only those at odd positions are
/// evaluated, each in the environment that the elements before it left;
/// those at even positions, the keys, come out as they went in and leave
/// the environment as it is.
pub proof fn lemma_map_keys_stay(items: Seq<Value>, st: EnvView, depth: nat)
    ensures
        eval_items(items, true, st, depth).result matches Ok(vals) ==> {
            &&& vals.len() == items.len()
            &&& forall|i: int|
                0 <= i < items.len() && i % 2 == 0 ==> {
                    &&& #[trigger] vals[i] == items[i]
                    &&& eval_items(items.take(i + 1), true, st, depth).state == eval_items(
                        items.take(i),
                        true,
                        st,
                        depth,
                    ).state
                }
            &&& forall|i: int|
                0 <= i < items.len() && i % 2 == 1 ==> eval_spec(
                    items[i],
                    eval_items(items.take(i), true, st, depth).state,
                    depth,
                ).result == Ok::<Value, crate::error::Failure>(#[trigger] vals[i])
        },
    decreases items.len(),
{
    if items.len() > 0 {
        let front = items.drop_last();
        let n = items.len() - 1;
        lemma_map_keys_stay(front, st, depth);
        assert(items.take(n) == front);
        assert(items.take(n + 1) == items);
        match eval_items(items, true, st, depth).result {
            Ok(vals) => {
                let before = eval_items(front, true, st, depth);
                let fronts = before.result->Ok_0;
                assert forall|i: int| 0 <= i < items.len() && i % 2 == 0 implies {
                    &&& #[trigger] vals[i] == items[i]
                    &&& eval_items(items.take(i + 1), true, st, depth).state == eval_items(
                        items.take(i),
                        true,
                        st,
                        depth,
                    ).state
                } by {
                    if i < n {
                        lemma_prefix_of_front(items, i);
                        assert(front.take(i + 1) == items.take(i + 1));
                        assert(vals[i] == fronts[i]);
                    }
                }
                assert forall|i: int| 0 <= i < items.len() && i % 2 == 1 implies eval_spec(
                    items[i],
                    eval_items(items.take(i), true, st, depth).state,
                    depth,
                ).result == Ok::<Value, crate::error::Failure>(#[trigger] vals[i]) by {
                    if i < n {
                        lemma_prefix_of_front(items, i);
                        assert(vals[i] == fronts[i]);
                    }
                }
            },
            Err(_) => {},
        }
    }
}

/// A map literal evaluates to a map of the same length with the same
/// keys, or fails.
pub proof fn lemma_map_literal(items: Seq<Value>, st: EnvView, depth: nat)
    ensures
        eval_spec(Value::HashMap(items), st, depth).result matches Ok(v) ==> {
            &&& v matches Value::HashMap(vals)
            &&& vals.len() == items.len()
            &&& forall|i: int| 0 <= i < items.len() && i % 2 == 0 ==> #[trigger] vals[i] == items[i]
        },
{
    lemma_map_keys_stay(items, st, depth);
    assert(eval_spec(Value::HashMap(items), st, depth) == eval_ast_spec(
        Value::HashMap(items),
        st,
        depth,
    ));
}

/// What was bound in the current scope is what a lookup gives, unless the
/// library has the name: the library comes first.
pub proof fn lemma_bind_then_lookup(st: EnvView, name: Seq<char>, v: Value)
    requires
        st.current < st.scopes.len(),
    ensures
        st.bind(name, v).lookup(name) == if st.defaults.contains_key(name) {
            Some(st.defaults[name])
        } else {
            Some(v)
        },
{
}

/// No binding hides a name of the library.
pub proof fn lemma_library_first(st: EnvView, name: Seq<char>, other: Seq<char>, v: Value)
    requires
        st.defaults.contains_key(name),
    ensures
        st.bind(other, v).lookup(name) == Some(st.defaults[name]),
        st.entered().lookup(name) == Some(st.defaults[name]),
        st.exited().lookup(name) == Some(st.defaults[name]),
{
}

/// Binding one name leaves what every other name stands for.
pub proof fn lemma_bind_leaves_others(st: EnvView, name: Seq<char>, other: Seq<char>, v: Value)
    requires
        name != other,
    ensures
        st.bind(name, v).lookup(other) == st.lookup(other),
{
    if st.current < st.scopes.len() {
        lemma_chain_after_bind(st, name, other, v, st.current);
    }
}

proof fn lemma_chain_after_bind(st: EnvView, name: Seq<char>, other: Seq<char>, v: Value, i: nat)
    requires
        name != other,
        st.current < st.scopes.len(),
    ensures
        st.bind(name, v).chain_lookup(i, other) == st.chain_lookup(i, other),
    decreases i,
{
    if i < st.scopes.len() {
        match st.scopes[i as int].outer {
            Some(j) => {
                if j < i {
                    lemma_chain_after_bind(st, name, other, v, j);
                }
            },
            None => {},
        }
    }
}

/// A new scope is empty and shows what the scope around it binds; leaving
/// it puts the cursor back.
pub proof fn lemma_enter_then_exit(st: EnvView, name: Seq<char>)
    requires
        st.current < st.scopes.len(),
    ensures
        st.entered().lookup(name) == st.lookup(name),
        st.entered().exited().current == st.current,
{
    let inner = st.entered();
    assert(inner.scopes[inner.current as int].outer == Some(st.current));
    lemma_chain_in_longer(st, inner, st.current, name);
}

/// Scopes added at the end change nothing for the scopes before them.
proof fn lemma_chain_in_longer(a: EnvView, b: EnvView, i: nat, name: Seq<char>)
    requires
        a.scopes.len() <= b.scopes.len(),
        forall|k: int| 0 <= k < a.scopes.len() ==> a.scopes[k] == b.scopes[k],
        i < a.scopes.len(),
    ensures
        b.chain_lookup(i, name) == a.chain_lookup(i, name),
    decreases i,
{
    match a.scopes[i as int].outer {
        Some(j) => {
            if j < i {
                lemma_chain_in_longer(a, b, j, name);
            }
        },
        None => {},
    }
}


/// Evaluation leaves the cursor where it was, on whatever path it ends:
/// a form evaluates, or fails, in an environment that still has every
/// scope it had, each inside the scope it was in, and the same library.
pub proof fn lemma_eval_keeps_cursor(ast: Value, st: EnvView, depth: nat)
    requires
        st.well_formed(),
    ensures
        eval_spec(ast, st, depth).state.well_formed(),
        st.leads_to(eval_spec(ast, st, depth).state),
    decreases depth, 0nat, ast, 1nat,
{
    match ast {
        Value::List(items) => {
            if items.len() > 0 {
                match head_form(items[0], st) {
                    Some(expr) => {
                        lemma_expr_keeps_cursor(expr, items.skip(1), st, depth);
                    },
                    None => {
                        lemma_items_keep_cursor(items, false, st, depth);
                        let r = eval_items(items, false, st, depth);
                        match r.result {
                            Ok(vals) => {
                                if depth > 0 {
                                    lemma_apply_keeps_cursor(
                                        vals[0],
                                        vals.skip(1),
                                        r.state,
                                        (depth - 1) as nat,
                                    );
                                }
                            },
                            Err(_) => {},
                        }
                    },
                }
            }
        },
        _ => {
            lemma_eval_ast_keeps_cursor(ast, st, depth);
        },
    }
}

/// Structural evaluation leaves the cursor where it was.
pub proof fn lemma_eval_ast_keeps_cursor(ast: Value, st: EnvView, depth: nat)
    requires
        st.well_formed(),
    ensures
        eval_ast_spec(ast, st, depth).state.well_formed(),
        st.leads_to(eval_ast_spec(ast, st, depth).state),
    decreases depth, 0nat, ast, 0nat,
{
    match ast {
        Value::List(items) => {
            lemma_items_keep_cursor(items, false, st, depth);
        },
        Value::Vector(items) => {
            lemma_items_keep_cursor(items, false, st, depth);
        },
        Value::HashMap(items) => {
            lemma_items_keep_cursor(items, true, st, depth);
        },
        _ => {},
    }
}

/// Evaluating forms one after the other leaves the cursor where it was.
pub proof fn lemma_items_keep_cursor(items: Seq<Value>, keys: bool, st: EnvView, depth: nat)
    requires
        st.well_formed(),
    ensures
        eval_items(items, keys, st, depth).state.well_formed(),
        st.leads_to(eval_items(items, keys, st, depth).state),
    decreases depth, 0nat, items, 0nat,
{
    if items.len() > 0 {
        lemma_items_keep_cursor(items.drop_last(), keys, st, depth);
        let before = eval_items(items.drop_last(), keys, st, depth);
        match before.result {
            Ok(vals) => {
                if !(keys && (items.len() - 1) % 2 == 0) {
                    lemma_eval_keeps_cursor(items.last(), before.state, depth);
                }
            },
            Err(_) => {},
        }
    }
}

/// A built-in operation leaves the cursor where it was.
pub proof fn lemma_expr_keeps_cursor(expr: ExprView, operands: Seq<Value>, st: EnvView, depth: nat)
    requires
        st.well_formed(),
    ensures
        expr_spec(expr, operands, st, depth).state.well_formed(),
        st.leads_to(expr_spec(expr, operands, st, depth).state),
    decreases depth, 0nat, operands, 2nat,
{
    match expr.inner {
        Native::Def => {
            if operands.len() >= 2 && operands[0] is Symbol {
                lemma_eval_keeps_cursor(operands[1], st, depth);
            }
        },
        Native::Let => {
            lemma_let_leaves_its_scope(expr.symbol, operands, st, depth);
        },
        Native::Do => {
            if operands.len() > 0 {
                lemma_items_keep_cursor(operands.drop_last(), false, st, depth);
                let before = eval_items(operands.drop_last(), false, st, depth);
                if before.result is Ok {
                    lemma_eval_keeps_cursor(operands.last(), before.state, depth);
                }
            }
        },
        Native::If => {
            if operands.len() == 2 || operands.len() == 3 {
                lemma_eval_keeps_cursor(operands[0], st, depth);
                let c = eval_spec(operands[0], st, depth);
                match c.result {
                    Ok(v) => {
                        if is_falsy(v) {
                            if operands.len() == 3 {
                                lemma_eval_keeps_cursor(operands[2], c.state, depth);
                            }
                        } else {
                            lemma_eval_keeps_cursor(operands[1], c.state, depth);
                        }
                    },
                    Err(_) => {},
                }
            }
        },
        _ => {},
    }
}

/// `let*` leaves the scope it entered, whether it succeeds or fails.
pub proof fn lemma_let_leaves_its_scope(
    op: Seq<char>,
    operands: Seq<Value>,
    st: EnvView,
    depth: nat,
)
    requires
        st.well_formed(),
    ensures
        let_spec(op, operands, st, depth).state.well_formed(),
        st.leads_to(let_spec(op, operands, st, depth).state),
    decreases depth, 0nat, operands, 1nat,
{
    if operands.len() >= 2 {
        match let_pairs(operands[0]) {
            Some(pairs) => {
                if pairs.len() % 2 == 0 {
                    let inner = st.entered();
                    lemma_let_bind_keeps_cursor(op, pairs, 0, inner, depth);
                    let b = let_bind(op, pairs, 0, inner, depth);
                    match b.result {
                        Ok(_) => {
                            lemma_eval_keeps_cursor(operands.last(), b.state, depth);
                        },
                        Err(_) => {},
                    }
                    let o = match b.result {
                        Err(e) => b,
                        Ok(_) => eval_spec(operands.last(), b.state, depth),
                    };
                    assert(inner.leads_to(o.state));
                    assert(o.state.scopes[inner.current as int].outer
                        == inner.scopes[inner.current as int].outer);
                    assert(o.state.exited().current == st.current);
                }
            },
            None => {},
        }
    }
}

/// Binding the pairs of a `let*` leaves the cursor where it was.
pub proof fn lemma_let_bind_keeps_cursor(
    op: Seq<char>,
    pairs: Seq<Value>,
    i: int,
    st: EnvView,
    depth: nat,
)
    requires
        st.well_formed(),
    ensures
        let_bind(op, pairs, i, st, depth).state.well_formed(),
        st.leads_to(let_bind(op, pairs, i, st, depth).state),
    decreases depth, 0nat, pairs, pairs.len() - i,
{
    if 0 <= i && i + 1 < pairs.len() {
        match pairs[i] {
            Value::Symbol(name) => {
                lemma_eval_keeps_cursor(pairs[i + 1], st, depth);
                let o = eval_spec(pairs[i + 1], st, depth);
                match o.result {
                    Ok(v) => {
                        lemma_let_bind_keeps_cursor(op, pairs, i + 2, o.state.bind(name, v), depth);
                    },
                    Err(_) => {},
                }
            },
            _ => {},
        }
    }
}

/// A call leaves the cursor where it was.
pub proof fn lemma_apply_keeps_cursor(f: Value, args: Seq<Value>, st: EnvView, depth: nat)
    requires
        st.well_formed(),
    ensures
        apply_spec(f, args, st, depth).state.well_formed(),
        st.leads_to(apply_spec(f, args, st, depth).state),
    decreases depth, 1nat, args, 0nat,
{
    match f {
        Value::Fn { body, params, scope, id } => {
            match bind_params(*params, args) {
                Ok(vars) => {
                    let inner = st.derived(scope, vars).focused(st.scopes.len());
                    lemma_eval_keeps_cursor(*body, inner, depth);
                },
                Err(_) => {},
            }
        },
        Value::LibFn { expr, pattern } => {
            match bind_params(*pattern, args) {
                Ok(vars) => {
                    let inner = st.derived(st.current, vars).focused(st.scopes.len());
                    lemma_expr_keeps_cursor(expr, args, inner, depth);
                },
                Err(_) => {},
            }
        },
        Value::BinOp(expr) => {
            lemma_expr_keeps_cursor(expr, args, st, depth);
        },
        _ => {},
    }
}


/// A pattern of one parameter and a rest parameter binds the first
/// argument to the one and the list of all others to the rest.
pub proof fn lemma_rest_parameter(a: Seq<char>, b: Seq<char>, args: Seq<Value>)
    requires
        a != rest_marker(),
        args.len() >= 1,
    ensures
        bind_params(
            Value::List(seq![Value::Symbol(a), Value::Symbol(rest_marker()), Value::Symbol(b)]),
            args,
        ) == Ok::<Map<Seq<char>, Value>, Failure>(
            Map::<Seq<char>, Value>::empty().insert(a, args[0]).insert(
                b,
                Value::List(args.skip(1)),
            ),
        ),
{
    let params = seq![Value::Symbol(a), Value::Symbol(rest_marker()), Value::Symbol(b)];
    let pattern = Value::List(params);
    let first = Map::<Seq<char>, Value>::empty().insert(a, args[0]);
    assert(bind_from(pattern, params, args, 1, first) == Ok::<Map<Seq<char>, Value>, Failure>(
        first.insert(b, Value::List(args.skip(1))),
    ));
    assert(bind_from(pattern, params, args, 0, Map::empty()) == bind_from(
        pattern,
        params,
        args,
        1,
        first,
    ));
}

/// A call with fewer arguments than the pattern has parameters in front of
/// any rest parameter fails.
pub proof fn lemma_too_few_arguments(params: Seq<Value>, args: Seq<Value>)
    requires
        args.len() < params.len(),
        forall|k: int|
            0 <= k <= args.len() ==> (#[trigger] params[k]) is Symbol && params[k]
                != Value::Symbol(rest_marker()),
    ensures
        bind_params(Value::List(params), args) == Err::<Map<Seq<char>, Value>, Failure>(
            Failure::ArityMismatch,
        ),
{
    lemma_too_few_from(params, args, 0, Map::empty());
}

proof fn lemma_too_few_from(
    params: Seq<Value>,
    args: Seq<Value>,
    i: int,
    acc: Map<Seq<char>, Value>,
)
    requires
        0 <= i <= args.len() < params.len(),
        forall|k: int|
            0 <= k <= args.len() ==> (#[trigger] params[k]) is Symbol && params[k]
                != Value::Symbol(rest_marker()),
    ensures
        bind_from(Value::List(params), params, args, i, acc) == Err::<
            Map<Seq<char>, Value>,
            Failure,
        >(Failure::ArityMismatch),
    decreases args.len() - i,
{
    assert(params[i] is Symbol);
    if i < args.len() {
        lemma_too_few_from(params, args, i + 1, acc.insert(params[i]->Symbol_0, args[i]));
    }
}


/// What `def!` bound is what the symbol stands for afterwards, unless the
/// library has the name.
pub proof fn lemma_def_then_lookup(
    op: Seq<char>,
    name: Seq<char>,
    form: Value,
    rest: Seq<Value>,
    st: EnvView,
    depth: nat,
)
    requires
        st.well_formed(),
        !st.defaults.contains_key(name),
    ensures
        def_spec(op, seq![Value::Symbol(name), form] + rest, st, depth).result matches Ok(v)
            ==> def_spec(op, seq![Value::Symbol(name), form] + rest, st, depth).state.lookup(name)
            == Some(v),
{
    let operands = seq![Value::Symbol(name), form] + rest;
    assert(operands[0] == Value::Symbol(name));
    assert(operands[1] == form);
    lemma_eval_keeps_cursor(form, st, depth);
    let o = eval_spec(form, st, depth);
    match o.result {
        Ok(v) => {
            lemma_bind_then_lookup(o.state, name, v);
        },
        Err(_) => {},
    }
}

/// A symbol that nothing binds fails to evaluate, with its name in the
/// failure; a symbol that is bound gives what it stands for.
pub proof fn lemma_symbol(name: Seq<char>, st: EnvView, depth: nat)
    ensures
        eval_spec(Value::Symbol(name), st, depth) == match st.lookup(name) {
            Some(v) => gives(v, st),
            None => fails(Failure::SymbolNotFound(name), st),
        },
{
}

/// Division by zero fails, whatever is divided.
pub proof fn lemma_division_by_zero(op: Seq<char>, a: i64, rest: Seq<Value>)
    ensures
        native_result(Native::Div, op, seq![Value::Number(a), Value::Number(0)] + rest) == Err::<
            Value,
            Failure,
        >(Failure::DivisionByZero),
{
    let args = seq![Value::Number(a), Value::Number(0)] + rest;
    assert(args[0] == Value::Number(a));
    assert(args[1] == Value::Number(0));
}

/// Only `nil` and `false` are falsy: with a condition of any other value
/// `if` gives the value of its second operand; with `nil` or `false`, that
/// of its third, or `nil` where there is none.
pub proof fn lemma_if_chooses(operands: Seq<Value>, st: EnvView, depth: nat)
    requires
        operands.len() == 2 || operands.len() == 3,
    ensures
        eval_spec(operands[0], st, depth).result matches Ok(v) ==> if_spec(operands, st, depth)
            == if v != Value::Nil && v != Value::Bool(false) {
            eval_spec(operands[1], eval_spec(operands[0], st, depth).state, depth)
        } else if operands.len() == 3 {
            eval_spec(operands[2], eval_spec(operands[0], st, depth).state, depth)
        } else {
            gives(Value::Nil, eval_spec(operands[0], st, depth).state)
        },
{
}

/// In the scope of a call a name stands for what the call bound it to,
/// and else for what it stands for in the scope that the function holds:
/// a user function sees the bindings around the place where it was made.
pub proof fn lemma_call_scope_lookup(
    st: EnvView,
    scope: nat,
    vars: Map<Seq<char>, Value>,
    name: Seq<char>,
)
    requires
        scope < st.scopes.len(),
    ensures
        st.derived(scope, vars).focused(st.scopes.len()).lookup(name) == if st.defaults.contains_key(
            name,
        ) {
            Some(st.defaults[name])
        } else if vars.contains_key(name) {
            Some(vars[name])
        } else {
            st.focused(scope).lookup(name)
        },
{
    let inner = st.derived(scope, vars).focused(st.scopes.len());
    let own = st.scopes.len();
    lemma_chain_in_longer(st, inner, scope, name);
    assert(inner.scopes[own as int].vars == vars);
    assert(inner.scopes[own as int].outer == Some(scope));
    assert(inner.chain_lookup(own, name) == if vars.contains_key(name) {
        Some(vars[name])
    } else {
        inner.chain_lookup(scope, name)
    });
    assert(st.focused(scope).chain_lookup(scope, name) == st.chain_lookup(scope, name)) by {
        lemma_chain_in_longer(st, st.focused(scope), scope, name);
    }
}


/// Whether an evaluation stayed within the depth it was given.
pub open spec fn in_depth(r: Result<Value, Failure>) -> bool {
    r != Err::<Value, Failure>(Failure::DepthExceeded)
}

/// Whether the evaluation of a sequence stayed within the depth it was
/// given.
pub open spec fn all_in_depth(r: Result<Seq<Value>, Failure>) -> bool {
    r != Err::<Seq<Value>, Failure>(Failure::DepthExceeded)
}

/// The depth only bounds evaluation: a form that evaluates, or fails,
/// within one depth does the same, and leaves the same environment,
/// with any greater depth.
pub proof fn lemma_depth_only_bounds(ast: Value, st: EnvView, depth: nat, more: nat)
    requires
        depth <= more,
        in_depth(eval_spec(ast, st, depth).result),
    ensures
        eval_spec(ast, st, more) == eval_spec(ast, st, depth),
    decreases depth, 0nat, ast, 1nat,
{
    match ast {
        Value::List(items) => {
            if items.len() > 0 {
                match head_form(items[0], st) {
                    Some(expr) => {
                        lemma_depth_of_expr(expr, items.skip(1), st, depth, more);
                    },
                    None => {
                        lemma_depth_of_items(items, false, st, depth, more);
                        let r = eval_items(items, false, st, depth);
                        match r.result {
                            Ok(vals) => {
                                lemma_depth_of_apply(
                                    vals[0],
                                    vals.skip(1),
                                    r.state,
                                    (depth - 1) as nat,
                                    (more - 1) as nat,
                                );
                            },
                            Err(_) => {},
                        }
                    },
                }
            }
        },
        _ => {
            lemma_depth_of_eval_ast(ast, st, depth, more);
        },
    }
}

/// Structural evaluation within one depth is the same with any greater.
pub proof fn lemma_depth_of_eval_ast(ast: Value, st: EnvView, depth: nat, more: nat)
    requires
        depth <= more,
        in_depth(eval_ast_spec(ast, st, depth).result),
    ensures
        eval_ast_spec(ast, st, more) == eval_ast_spec(ast, st, depth),
    decreases depth, 0nat, ast, 0nat,
{
    match ast {
        Value::List(items) => {
            lemma_depth_of_items(items, false, st, depth, more);
        },
        Value::Vector(items) => {
            lemma_depth_of_items(items, false, st, depth, more);
        },
        Value::HashMap(items) => {
            lemma_depth_of_items(items, true, st, depth, more);
        },
        _ => {},
    }
}

/// Evaluating forms one after the other within one depth is the same with
/// any greater.
pub proof fn lemma_depth_of_items(
    items: Seq<Value>,
    keys: bool,
    st: EnvView,
    depth: nat,
    more: nat,
)
    requires
        depth <= more,
        all_in_depth(eval_items(items, keys, st, depth).result),
    ensures
        eval_items(items, keys, st, more) == eval_items(items, keys, st, depth),
    decreases depth, 0nat, items, 0nat,
{
    if items.len() > 0 {
        let before = eval_items(items.drop_last(), keys, st, depth);
        lemma_depth_of_items(items.drop_last(), keys, st, depth, more);
        match before.result {
            Ok(vals) => {
                if !(keys && (items.len() - 1) % 2 == 0) {
                    lemma_depth_only_bounds(items.last(), before.state, depth, more);
                }
            },
            Err(_) => {},
        }
    }
}

/// A built-in operation within one depth is the same with any greater.
pub proof fn lemma_depth_of_expr(
    expr: ExprView,
    operands: Seq<Value>,
    st: EnvView,
    depth: nat,
    more: nat,
)
    requires
        depth <= more,
        in_depth(expr_spec(expr, operands, st, depth).result),
    ensures
        expr_spec(expr, operands, st, more) == expr_spec(expr, operands, st, depth),
    decreases depth, 0nat, operands, 2nat,
{
    match expr.inner {
        Native::Def => {
            if operands.len() >= 2 && operands[0] is Symbol {
                lemma_depth_only_bounds(operands[1], st, depth, more);
            }
        },
        Native::Let => {
            lemma_depth_of_let(expr.symbol, operands, st, depth, more);
        },
        Native::Do => {
            if operands.len() > 0 {
                lemma_depth_of_items(operands.drop_last(), false, st, depth, more);
                let before = eval_items(operands.drop_last(), false, st, depth);
                if before.result is Ok {
                    lemma_depth_only_bounds(operands.last(), before.state, depth, more);
                }
            }
        },
        Native::If => {
            if operands.len() == 2 || operands.len() == 3 {
                lemma_depth_only_bounds(operands[0], st, depth, more);
                let c = eval_spec(operands[0], st, depth);
                match c.result {
                    Ok(v) => {
                        if is_falsy(v) {
                            if operands.len() == 3 {
                                lemma_depth_only_bounds(operands[2], c.state, depth, more);
                            }
                        } else {
                            lemma_depth_only_bounds(operands[1], c.state, depth, more);
                        }
                    },
                    Err(_) => {},
                }
            }
        },
        _ => {},
    }
}

/// `let*` within one depth is the same with any greater.
pub proof fn lemma_depth_of_let(
    op: Seq<char>,
    operands: Seq<Value>,
    st: EnvView,
    depth: nat,
    more: nat,
)
    requires
        depth <= more,
        in_depth(let_spec(op, operands, st, depth).result),
    ensures
        let_spec(op, operands, st, more) == let_spec(op, operands, st, depth),
    decreases depth, 0nat, operands, 1nat,
{
    if operands.len() >= 2 {
        match let_pairs(operands[0]) {
            Some(pairs) => {
                if pairs.len() % 2 == 0 {
                    let inner = st.entered();
                    lemma_depth_of_let_bind(op, pairs, 0, inner, depth, more);
                    let b = let_bind(op, pairs, 0, inner, depth);
                    if b.result is Ok {
                        lemma_depth_only_bounds(operands.last(), b.state, depth, more);
                    }
                }
            },
            None => {},
        }
    }
}

/// Binding the pairs of a `let*` within one depth is the same with any
/// greater.
pub proof fn lemma_depth_of_let_bind(
    op: Seq<char>,
    pairs: Seq<Value>,
    i: int,
    st: EnvView,
    depth: nat,
    more: nat,
)
    requires
        depth <= more,
        in_depth(let_bind(op, pairs, i, st, depth).result),
    ensures
        let_bind(op, pairs, i, st, more) == let_bind(op, pairs, i, st, depth),
    decreases depth, 0nat, pairs, pairs.len() - i,
{
    if 0 <= i && i + 1 < pairs.len() {
        match pairs[i] {
            Value::Symbol(name) => {
                lemma_depth_only_bounds(pairs[i + 1], st, depth, more);
                let o = eval_spec(pairs[i + 1], st, depth);
                match o.result {
                    Ok(v) => {
                        lemma_depth_of_let_bind(
                            op,
                            pairs,
                            i + 2,
                            o.state.bind(name, v),
                            depth,
                            more,
                        );
                    },
                    Err(_) => {},
                }
            },
            _ => {},
        }
    }
}

/// A call within one depth is the same with any greater.
pub proof fn lemma_depth_of_apply(f: Value, args: Seq<Value>, st: EnvView, depth: nat, more: nat)
    requires
        depth <= more,
        in_depth(apply_spec(f, args, st, depth).result),
    ensures
        apply_spec(f, args, st, more) == apply_spec(f, args, st, depth),
    decreases depth, 1nat, args, 0nat,
{
    match f {
        Value::Fn { body, params, scope, id } => {
            match bind_params(*params, args) {
                Ok(vars) => {
                    let inner = st.derived(scope, vars).focused(st.scopes.len());
                    lemma_depth_only_bounds(*body, inner, depth, more);
                },
                Err(_) => {},
            }
        },
        Value::LibFn { expr, pattern } => {
            match bind_params(*pattern, args) {
                Ok(vars) => {
                    let inner = st.derived(st.current, vars).focused(st.scopes.len());
                    lemma_depth_of_expr(expr, args, inner, depth, more);
                },
                Err(_) => {},
            }
        },
        Value::BinOp(expr) => {
            lemma_depth_of_expr(expr, args, st, depth, more);
        },
        _ => {},
    }
}


/// Whether every value that the environment holds, in the library and in
/// every scope, has maps of even length only.
pub open spec fn even_env(st: EnvView) -> bool {
    &&& forall|name: Seq<char>| #[trigger]
        st.defaults.contains_key(name) ==> st.defaults[name].even_maps()
    &&& forall|i: int, name: Seq<char>|
        0 <= i < st.scopes.len() && #[trigger] st.scopes[i].vars.contains_key(name)
            ==> st.scopes[i].vars[name].even_maps()
}

/// Whether every value of the bindings has maps of even length only.
pub open spec fn even_vars(vars: Map<Seq<char>, Value>) -> bool {
    forall|name: Seq<char>| #[trigger] vars.contains_key(name) ==> vars[name].even_maps()
}

/// The maps of a sequence are even exactly if those of each element are.
pub proof fn lemma_even_maps_each(items: Seq<Value>)
    ensures
        Value::all_even_maps(items) == (forall|i: int|
            0 <= i < items.len() ==> (#[trigger] items[i]).even_maps()),
    decreases items.len(),
{
    if items.len() > 0 {
        let front = items.drop_last();
        lemma_even_maps_each(front);
        if Value::all_even_maps(items) {
            assert forall|i: int| 0 <= i < items.len() implies (#[trigger] items[i]).even_maps() by {
                if i < front.len() {
                    assert(front[i] == items[i]);
                }
            }
        }
        if forall|i: int| 0 <= i < items.len() ==> (#[trigger] items[i]).even_maps() {
            assert forall|i: int| 0 <= i < front.len() implies (#[trigger] front[i]).even_maps() by {
                assert(front[i] == items[i]);
            }
            assert(items.last() == items[items.len() - 1]);
        }
    }
}

/// What is left of a sequence with even maps has even maps.
proof fn lemma_even_maps_skip(items: Seq<Value>, k: int)
    requires
        Value::all_even_maps(items),
        0 <= k <= items.len(),
    ensures
        Value::all_even_maps(items.skip(k)),
{
    lemma_even_maps_each(items);
    lemma_even_maps_each(items.skip(k));
    assert forall|i: int| 0 <= i < items.skip(k).len() implies (#[trigger] items.skip(
        k,
    )[i]).even_maps() by {
        assert(items.skip(k)[i] == items[i + k]);
    }
}

proof fn lemma_even_maps_front(items: Seq<Value>)
    requires
        Value::all_even_maps(items),
        items.len() > 0,
    ensures
        Value::all_even_maps(items.drop_last()),
        items.last().even_maps(),
{
}

/// What a name stands for in an environment with even maps has even maps.
proof fn lemma_even_lookup(st: EnvView, name: Seq<char>)
    requires
        even_env(st),
    ensures
        st.lookup(name) matches Some(v) ==> v.even_maps(),
{
    if !st.defaults.contains_key(name) {
        lemma_even_chain(st, st.current, name);
    }
}

proof fn lemma_even_chain(st: EnvView, i: nat, name: Seq<char>)
    requires
        even_env(st),
    ensures
        st.chain_lookup(i, name) matches Some(v) ==> v.even_maps(),
    decreases i,
{
    if i < st.scopes.len() {
        if st.scopes[i as int].vars.contains_key(name) {
        } else {
            match st.scopes[i as int].outer {
                Some(j) => {
                    if j < i {
                        lemma_even_chain(st, j, name);
                    }
                },
                None => {},
            }
        }
    }
}

/// The bindings of a call with arguments of even maps have even maps.
proof fn lemma_even_bindings(
    pattern: Value,
    params: Seq<Value>,
    args: Seq<Value>,
    i: int,
    acc: Map<Seq<char>, Value>,
)
    requires
        Value::all_even_maps(args),
        even_vars(acc),
        0 <= i <= args.len(),
    ensures
        bind_from(pattern, params, args, i, acc) matches Ok(vars) ==> even_vars(vars),
    decreases params.len() - i,
{
    if i < params.len() {
        match params[i] {
            Value::Symbol(name) => {
                if name == rest_marker() {
                    lemma_even_maps_skip(args, i);
                } else if i < args.len() {
                    lemma_even_maps_each(args);
                    lemma_even_bindings(pattern, params, args, i + 1, acc.insert(name, args[i]));
                }
            },
            _ => {},
        }
    }
}

/// Binding a value of even maps keeps the maps of the environment even.
proof fn lemma_even_bind(st: EnvView, name: Seq<char>, v: Value)
    requires
        even_env(st),
        v.even_maps(),
    ensures
        even_env(st.bind(name, v)),
{
    let later = st.bind(name, v);
    assert forall|i: int, other: Seq<char>|
        0 <= i < later.scopes.len() && #[trigger] later.scopes[i].vars.contains_key(
            other,
        ) implies later.scopes[i].vars[other].even_maps() by {
        if i == st.current && other == name {
        } else {
            assert(st.scopes[i].vars.contains_key(other));
        }
    }
}

/// A new scope with bindings of even maps keeps the maps of the
/// environment even, wherever the cursor goes.
proof fn lemma_even_derived(st: EnvView, outer: nat, vars: Map<Seq<char>, Value>, id: nat)
    requires
        even_env(st),
        even_vars(vars),
    ensures
        even_env(st.derived(outer, vars).focused(id)),
{
    let later = st.derived(outer, vars).focused(id);
    assert forall|i: int, other: Seq<char>|
        0 <= i < later.scopes.len() && #[trigger] later.scopes[i].vars.contains_key(
            other,
        ) implies later.scopes[i].vars[other].even_maps() by {
        if i < st.scopes.len() {
            assert(st.scopes[i].vars.contains_key(other));
        }
    }
}

/// Moving the cursor and giving scopes up keeps the maps of the
/// environment even.
proof fn lemma_even_after(st: EnvView, id: nat, len: nat, mark: nat)
    requires
        even_env(st),
    ensures
        even_env(st.focused(id).released(len, mark)),
        even_env(st.exited().released(len, mark)),
        even_env(st.numbered()),
{
    let a = st.focused(id).released(len, mark);
    assert forall|i: int, other: Seq<char>|
        0 <= i < a.scopes.len() && #[trigger] a.scopes[i].vars.contains_key(
            other,
        ) implies a.scopes[i].vars[other].even_maps() by {
        assert(st.scopes[i].vars.contains_key(other));
    }
    let b = st.exited().released(len, mark);
    assert forall|i: int, other: Seq<char>|
        0 <= i < b.scopes.len() && #[trigger] b.scopes[i].vars.contains_key(
            other,
        ) implies b.scopes[i].vars[other].even_maps() by {
        assert(st.scopes[i].vars.contains_key(other));
    }
}

/// Evaluation makes no map of odd length: where every map in the form and
/// in the environment has an even number of elements, so has every map in
/// the value and in the environment afterwards.
pub proof fn lemma_eval_keeps_maps_even(ast: Value, st: EnvView, depth: nat)
    requires
        ast.even_maps(),
        even_env(st),
    ensures
        even_env(eval_spec(ast, st, depth).state),
        eval_spec(ast, st, depth).result matches Ok(v) ==> v.even_maps(),
    decreases depth, 0nat, ast, 1nat,
{
    match ast {
        Value::List(items) => {
            if items.len() > 0 {
                match head_form(items[0], st) {
                    Some(expr) => {
                        lemma_even_maps_skip(items, 1);
                        lemma_expr_keeps_maps_even(expr, items.skip(1), st, depth);
                    },
                    None => {
                        lemma_items_keep_maps_even(items, false, st, depth);
                        let r = eval_items(items, false, st, depth);
                        match r.result {
                            Ok(vals) => {
                                if depth > 0 {
                                    lemma_even_maps_each(vals);
                                    lemma_even_maps_skip(vals, 1);
                                    lemma_apply_keeps_maps_even(
                                        vals[0],
                                        vals.skip(1),
                                        r.state,
                                        (depth - 1) as nat,
                                    );
                                }
                            },
                            Err(_) => {},
                        }
                    },
                }
            }
        },
        _ => {
            lemma_eval_ast_keeps_maps_even(ast, st, depth);
        },
    }
}

proof fn lemma_eval_ast_keeps_maps_even(ast: Value, st: EnvView, depth: nat)
    requires
        ast.even_maps(),
        even_env(st),
    ensures
        even_env(eval_ast_spec(ast, st, depth).state),
        eval_ast_spec(ast, st, depth).result matches Ok(v) ==> v.even_maps(),
    decreases depth, 0nat, ast, 0nat,
{
    match ast {
        Value::List(items) => {
            lemma_items_keep_maps_even(items, false, st, depth);
        },
        Value::Vector(items) => {
            lemma_items_keep_maps_even(items, false, st, depth);
        },
        Value::HashMap(items) => {
            lemma_items_keep_maps_even(items, true, st, depth);
        },
        Value::Symbol(name) => {
            lemma_even_lookup(st, name);
        },
        _ => {},
    }
}

proof fn lemma_items_keep_maps_even(items: Seq<Value>, keys: bool, st: EnvView, depth: nat)
    requires
        Value::all_even_maps(items),
        even_env(st),
    ensures
        even_env(eval_items(items, keys, st, depth).state),
        eval_items(items, keys, st, depth).result matches Ok(vals) ==> Value::all_even_maps(vals)
            && vals.len() == items.len(),
    decreases depth, 0nat, items, 0nat,
{
    if items.len() > 0 {
        lemma_even_maps_front(items);
        lemma_items_keep_maps_even(items.drop_last(), keys, st, depth);
        let before = eval_items(items.drop_last(), keys, st, depth);
        match before.result {
            Ok(vals) => {
                if keys && (items.len() - 1) % 2 == 0 {
                    assert(vals.push(items.last()).drop_last() == vals);
                } else {
                    lemma_eval_keeps_maps_even(items.last(), before.state, depth);
                    match eval_spec(items.last(), before.state, depth).result {
                        Ok(v) => {
                            assert(vals.push(v).drop_last() == vals);
                        },
                        Err(_) => {},
                    }
                }
            },
            Err(_) => {},
        }
    }
}

proof fn lemma_expr_keeps_maps_even(expr: ExprView, operands: Seq<Value>, st: EnvView, depth: nat)
    requires
        Value::all_even_maps(operands),
        even_env(st),
    ensures
        even_env(expr_spec(expr, operands, st, depth).state),
        expr_spec(expr, operands, st, depth).result matches Ok(v) ==> v.even_maps(),
    decreases depth, 0nat, operands, 2nat,
{
    lemma_even_maps_each(operands);
    match expr.inner {
        Native::Def => {
            if operands.len() >= 2 {
                match operands[0] {
                    Value::Symbol(name) => {
                        lemma_eval_keeps_maps_even(operands[1], st, depth);
                        let o = eval_spec(operands[1], st, depth);
                        match o.result {
                            Ok(v) => {
                                lemma_even_bind(o.state, name, v);
                            },
                            Err(_) => {},
                        }
                    },
                    _ => {},
                }
            }
        },
        Native::Let => {
            lemma_let_keeps_maps_even(expr.symbol, operands, st, depth);
        },
        Native::Do => {
            if operands.len() > 0 {
                lemma_even_maps_front(operands);
                lemma_items_keep_maps_even(operands.drop_last(), false, st, depth);
                let before = eval_items(operands.drop_last(), false, st, depth);
                if before.result is Ok {
                    lemma_eval_keeps_maps_even(operands.last(), before.state, depth);
                }
            }
        },
        Native::If => {
            if operands.len() == 2 || operands.len() == 3 {
                lemma_eval_keeps_maps_even(operands[0], st, depth);
                let c = eval_spec(operands[0], st, depth);
                match c.result {
                    Ok(v) => {
                        if is_falsy(v) {
                            if operands.len() == 3 {
                                lemma_eval_keeps_maps_even(operands[2], c.state, depth);
                            }
                        } else {
                            lemma_eval_keeps_maps_even(operands[1], c.state, depth);
                        }
                    },
                    Err(_) => {},
                }
            }
        },
        Native::Lambda => {
            lemma_even_after(st, st.current, 0, 0);
        },
        _ => {
            lemma_native_keeps_maps_even(expr.inner, expr.symbol, operands, st);
        },
    }
}

proof fn lemma_native_keeps_maps_even(f: Native, op: Seq<char>, args: Seq<Value>, st: EnvView)
    requires
        !is_special(f),
        Value::all_even_maps(args),
        even_env(st),
    ensures
        even_env(native_state(f, args, st)),
        native_result(f, op, args) matches Ok(v) ==> v.even_maps(),
{
}

proof fn lemma_let_keeps_maps_even(op: Seq<char>, operands: Seq<Value>, st: EnvView, depth: nat)
    requires
        Value::all_even_maps(operands),
        even_env(st),
    ensures
        even_env(let_spec(op, operands, st, depth).state),
        let_spec(op, operands, st, depth).result matches Ok(v) ==> v.even_maps(),
    decreases depth, 0nat, operands, 1nat,
{
    lemma_even_maps_each(operands);
    if operands.len() >= 2 {
        match let_pairs(operands[0]) {
            Some(pairs) => {
                if pairs.len() % 2 == 0 {
                    let inner = st.entered();
                    lemma_even_derived(st, st.current, Map::empty(), st.scopes.len());
                    lemma_let_bind_keeps_maps_even(op, pairs, 0, inner, depth);
                    let b = let_bind(op, pairs, 0, inner, depth);
                    match b.result {
                        Ok(_) => {
                            assert(operands.last() == operands[operands.len() - 1]);
                            lemma_eval_keeps_maps_even(operands.last(), b.state, depth);
                        },
                        Err(_) => {},
                    }
                    let o = match b.result {
                        Err(e) => b,
                        Ok(_) => eval_spec(operands.last(), b.state, depth),
                    };
                    lemma_even_after(o.state, 0, st.scopes.len(), st.next_id);
                }
            },
            None => {},
        }
    }
}

proof fn lemma_let_bind_keeps_maps_even(
    op: Seq<char>,
    pairs: Seq<Value>,
    i: int,
    st: EnvView,
    depth: nat,
)
    requires
        Value::all_even_maps(pairs),
        even_env(st),
    ensures
        even_env(let_bind(op, pairs, i, st, depth).state),
    decreases depth, 0nat, pairs, pairs.len() - i,
{
    lemma_even_maps_each(pairs);
    if 0 <= i && i + 1 < pairs.len() {
        match pairs[i] {
            Value::Symbol(name) => {
                lemma_eval_keeps_maps_even(pairs[i + 1], st, depth);
                let o = eval_spec(pairs[i + 1], st, depth);
                match o.result {
                    Ok(v) => {
                        lemma_even_bind(o.state, name, v);
                        lemma_let_bind_keeps_maps_even(
                            op,
                            pairs,
                            i + 2,
                            o.state.bind(name, v),
                            depth,
                        );
                    },
                    Err(_) => {},
                }
            },
            _ => {},
        }
    }
}

proof fn lemma_apply_keeps_maps_even(f: Value, args: Seq<Value>, st: EnvView, depth: nat)
    requires
        f.even_maps(),
        Value::all_even_maps(args),
        even_env(st),
    ensures
        even_env(apply_spec(f, args, st, depth).state),
        apply_spec(f, args, st, depth).result matches Ok(v) ==> v.even_maps(),
    decreases depth, 1nat, args, 0nat,
{
    match f {
        Value::Fn { body, params, scope, id } => {
            match bind_params(*params, args) {
                Ok(vars) => {
                    lemma_even_bindings(*params, params->List_0, args, 0, Map::empty());
                    lemma_even_derived(st, scope, vars, st.scopes.len());
                    let inner = st.derived(scope, vars).focused(st.scopes.len());
                    lemma_eval_keeps_maps_even(*body, inner, depth);
                    let o = eval_spec(*body, inner, depth);
                    lemma_even_after(o.state, st.current, st.scopes.len(), st.next_id);
                },
                Err(_) => {},
            }
        },
        Value::LibFn { expr, pattern } => {
            match bind_params(*pattern, args) {
                Ok(vars) => {
                    lemma_even_bindings(*pattern, pattern->List_0, args, 0, Map::empty());
                    lemma_even_derived(st, st.current, vars, st.scopes.len());
                    let inner = st.derived(st.current, vars).focused(st.scopes.len());
                    lemma_expr_keeps_maps_even(expr, args, inner, depth);
                    let o = expr_spec(expr, args, inner, depth);
                    lemma_even_after(o.state, st.current, st.scopes.len(), st.next_id);
                },
                Err(_) => {},
            }
        },
        Value::BinOp(expr) => {
            lemma_expr_keeps_maps_even(expr, args, st, depth);
        },
        _ => {},
    }
}

/// A new environment holds no map of odd length.
pub proof fn lemma_initial_maps_even()
    ensures
        even_env(EnvView::initial()),
{
    let library = EnvView::initial().defaults;
    let nothing = Value::List(Seq::empty());
    assert(Value::all_even_maps(Seq::<Value>::empty()));
    assert(nothing.even_maps());
    assert forall|name: Seq<char>| #[trigger] library.contains_key(name) implies {
        let v = library[name];
        v is Bind || v is BinOp || (v matches Value::LibFn { pattern, .. } && *pattern == nothing)
    } by {}
    assert forall|name: Seq<char>| #[trigger] library.contains_key(name) implies {
        let v = library[name];
        v.even_maps()
    } by {}
}

} // verus!
