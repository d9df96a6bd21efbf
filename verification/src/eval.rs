//! The evaluator: the dispatch between special forms and application, and
//! the way functions of each kind are applied.

use crate::environment::Environment;
use crate::error::{outcome_of, EvalError};
use crate::library;
use crate::semantics::{
    apply_spec, eval_ast_spec, eval_items, eval_spec, expr_spec, Outcomes,
};
use crate::types::{values_of, MalExpr, MalFn, MalLibFn, MalType, Native, Value};
use vstd::prelude::*;
use vstd::slice::slice_subrange;

verus! {

/// Where a prefix of the items fails, the items fail in the same way.
pub proof fn lemma_items_prefix_fails(
    items: Seq<Value>,
    keys: bool,
    st: crate::environment::EnvView,
    depth: nat,
    k: int,
)
    requires
        0 <= k <= items.len(),
        eval_items(items.take(k), keys, st, depth).result is Err,
    ensures
        eval_items(items, keys, st, depth) == eval_items(items.take(k), keys, st, depth),
    decreases items.len() - k,
{
    if k < items.len() {
        assert(items.take(k + 1).drop_last() == items.take(k));
        lemma_items_prefix_fails(items, keys, st, depth, k + 1);
    } else {
        assert(items.take(k) == items);
    }
}

/// Evaluates `items` from the first to the last. With `keys`, the items
/// at even positions stay as they are.
#[verifier::loop_isolation(false)]
pub fn eval_each(items: &[MalType], keys: bool, env: &mut Environment) -> (r: Result<
    Vec<MalType>,
    EvalError,
>)
    requires
        old(env)@.well_formed(),
    ensures
        match eval_items(values_of(items@), keys, old(env)@, old(env).depth_left()).result {
            Ok(vals) => r matches Ok(found) && values_of(found@) == vals && found.len()
                == items.len(),
            Err(e) => r matches Err(x) && x@ == e,
        },
        final(env)@ == eval_items(values_of(items@), keys, old(env)@, old(env).depth_left()).state,
        final(env).depth_left() == old(env).depth_left(),
        final(env)@.well_formed(),
        old(env)@.leads_to(final(env)@),
    decreases old(env).depth_left(), 0nat, items@, 0nat,
{
    proof {
        crate::laws::lemma_items_keep_cursor(values_of(items@), keys, env@, env.depth_left());
    }
    let ghost vals = values_of(items@);
    let ghost start = env@;
    let ghost depth = env.depth_left();
    let mut out: Vec<MalType> = Vec::new();
    let mut i: usize = 0;
    assert(values_of(out@) =~= Seq::<Value>::empty());
    while i < items.len()
        invariant
            i <= items.len(),
            out.len() == i,
            env.depth_left() == depth,
            env@.well_formed(),
            eval_items(vals.take(i as int), keys, start, depth) == (Outcomes {
                result: Ok(values_of(out@)),
                state: env@,
            }),
        decreases items.len() - i,
    {
        let ghost before = values_of(out@);
        proof {
            assert(vals.take(i + 1).drop_last() == vals.take(i as int));
            assert(vals.take(i + 1).last() == items@[i as int]@);
        }
        if keys && i % 2 == 0 {
            let item = items[i].clone();
            out.push(item);
            assert(values_of(out@) =~= before.push(items@[i as int]@));
        } else {
            match eval(&items[i], env) {
                Ok(v) => {
                    out.push(v);
                    assert(values_of(out@) =~= before.push(v@));
                },
                Err(e) => {
                    proof {
                        lemma_items_prefix_fails(vals, keys, start, depth, i + 1);
                    }
                    return Err(e);
                },
            }
        }
        i += 1;
    }
    assert(vals.take(i as int) == vals);
    Ok(out)
}

/// Evaluates the form `ast` in `env`. Applications may nest as deep as
/// `env` allows; a form that needs more fails with `DepthExceeded`, and
/// every other result is the one that any greater depth gives too.
pub fn eval(ast: &MalType, env: &mut Environment) -> (r: Result<MalType, EvalError>)
    requires
        old(env)@.well_formed(),
    ensures
        outcome_of(r) == eval_spec(ast@, old(env)@, old(env).depth_left()).result,
        final(env)@ == eval_spec(ast@, old(env)@, old(env).depth_left()).state,
        final(env).depth_left() == old(env).depth_left(),
        final(env)@.well_formed(),
        old(env)@.leads_to(final(env)@),
    decreases old(env).depth_left(), 0nat, ast, 1nat,
{
    proof {
        crate::laws::lemma_eval_keeps_cursor(ast@, env@, env.depth_left());
    }
    match ast {
        MalType::List(inner) => {
            if inner.len() == 0 {
                assert(values_of(inner@).len() == 0);
                return Ok(ast.clone());
            }
            assert(values_of(inner@).len() == inner@.len());
            assert(values_of(inner@)[0] == inner@[0]@);
            let bind = if let MalType::Symbol(sym) = &inner[0] {
                env.get(sym.as_str())
            } else {
                None
            };
            if let Some(MalType::Bind(expr)) = bind {
                let operands = slice_subrange(inner.as_slice(), 1, inner.len());
                assert(values_of(operands@) =~= values_of(inner@).skip(1));
                expr.eval(operands, env)
            } else {
                let vals = match eval_each(inner.as_slice(), false, env) {
                    Ok(vals) => vals,
                    Err(e) => {
                        return Err(e);
                    },
                };
                let depth = env.depth();
                if depth == 0 {
                    return Err(EvalError::DepthExceeded);
                }
                env.set_depth(depth - 1);
                let func = vals[0].clone();
                let args = slice_subrange(vals.as_slice(), 1, vals.len());
                assert(values_of(args@) =~= values_of(vals@).skip(1));
                let r = func.eval(args, env);
                env.set_depth(depth);
                r
            }
        },
        _ => eval_ast(ast, env),
    }
}

/// Evaluates `ast` structurally.
pub fn eval_ast(ast: &MalType, env: &mut Environment) -> (r: Result<MalType, EvalError>)
    requires
        old(env)@.well_formed(),
    ensures
        outcome_of(r) == eval_ast_spec(ast@, old(env)@, old(env).depth_left()).result,
        final(env)@ == eval_ast_spec(ast@, old(env)@, old(env).depth_left()).state,
        final(env).depth_left() == old(env).depth_left(),
        final(env)@.well_formed(),
        old(env)@.leads_to(final(env)@),
    decreases old(env).depth_left(), 0nat, ast, 0nat,
{
    proof {
        crate::laws::lemma_eval_ast_keeps_cursor(ast@, env@, env.depth_left());
    }
    match ast {
        MalType::List(inner) => match eval_each(inner.as_slice(), false, env) {
            Ok(list) => Ok(MalType::List(list)),
            Err(e) => Err(e),
        },
        MalType::HashMap(map) => match eval_each(map.as_slice(), true, env) {
            Ok(list) => Ok(MalType::HashMap(list)),
            Err(e) => Err(e),
        },
        MalType::Vector(inner) => match eval_each(inner.as_slice(), false, env) {
            Ok(list) => Ok(MalType::Vector(list)),
            Err(e) => Err(e),
        },
        MalType::Symbol(sym) => match env.get(sym.as_str()) {
            Some(v) => Ok(v),
            None => Err(EvalError::SymbolNotFound(sym.clone())),
        },
        _ => Ok(ast.clone()),
    }
}

impl MalType {
    /// Applies the value to the arguments `val`.
    pub fn eval(self, val: &[MalType], env: &mut Environment) -> (r: Result<MalType, EvalError>)
        requires
            old(env)@.well_formed(),
        ensures
            outcome_of(r) == apply_spec(
                self@,
                values_of(val@),
                old(env)@,
                old(env).depth_left(),
            ).result,
            final(env)@ == apply_spec(
                self@,
                values_of(val@),
                old(env)@,
                old(env).depth_left(),
            ).state,
            final(env).depth_left() == old(env).depth_left(),
            final(env)@.well_formed(),
            old(env)@.leads_to(final(env)@),
        decreases old(env).depth_left(), 2nat, val@, 0nat,
    {
        proof {
            crate::laws::lemma_apply_keeps_cursor(self@, values_of(val@), env@, env.depth_left());
        }
        match self {
            MalType::Fn(expr) => expr.eval(val, env),
            MalType::LibFn(expr) => expr.eval(val, env),
            MalType::BinOp(expr) => expr.eval(val, env),
            _ => Err(EvalError::NotCallable),
        }
    }
}

impl MalFn {
    /// Calls the user function with the arguments `val`.
    pub fn eval(&self, val: &[MalType], env: &mut Environment) -> (r: Result<MalType, EvalError>)
        requires
            old(env)@.well_formed(),
        ensures
            outcome_of(r) == apply_spec(
                MalType::Fn(*self)@,
                values_of(val@),
                old(env)@,
                old(env).depth_left(),
            ).result,
            final(env)@ == apply_spec(
                MalType::Fn(*self)@,
                values_of(val@),
                old(env)@,
                old(env).depth_left(),
            ).state,
            final(env).depth_left() == old(env).depth_left(),
            final(env)@.well_formed(),
            old(env)@.leads_to(final(env)@),
        decreases old(env).depth_left(), 1nat, val@, 0nat,
    {
        proof {
            crate::laws::lemma_apply_keeps_cursor(
                MalType::Fn(*self)@,
                values_of(val@),
                env@,
                env.depth_left(),
            );
        }
        let saved = env.current();
        let len = env.scope_count();
        let id = env.next_id();
        let child = match env.from(self.captured_env, &self.captured_args, val) {
            Ok(child) => child,
            Err(e) => {
                return Err(e);
            },
        };
        env.focus(child);
        let r = eval(&self.expr, env);
        env.focus(saved);
        env.release(len, id);
        r
    }
}

impl MalLibFn {
    /// Calls the library function with the arguments `val`.
    pub fn eval(&self, val: &[MalType], env: &mut Environment) -> (r: Result<MalType, EvalError>)
        requires
            old(env)@.well_formed(),
        ensures
            outcome_of(r) == apply_spec(
                MalType::LibFn(*self)@,
                values_of(val@),
                old(env)@,
                old(env).depth_left(),
            ).result,
            final(env)@ == apply_spec(
                MalType::LibFn(*self)@,
                values_of(val@),
                old(env)@,
                old(env).depth_left(),
            ).state,
            final(env).depth_left() == old(env).depth_left(),
            final(env)@.well_formed(),
            old(env)@.leads_to(final(env)@),
        decreases old(env).depth_left(), 1nat, val@, 0nat,
    {
        proof {
            crate::laws::lemma_apply_keeps_cursor(
                MalType::LibFn(*self)@,
                values_of(val@),
                env@,
                env.depth_left(),
            );
        }
        let saved = env.current();
        let len = env.scope_count();
        let id = env.next_id();
        let child = match env.from(saved, &self.captured_env, val) {
            Ok(child) => child,
            Err(e) => {
                return Err(e);
            },
        };
        env.focus(child);
        let r = self.expr.eval(val, env);
        env.focus(saved);
        env.release(len, id);
        r
    }
}

impl MalExpr {
    /// Runs the built-in operation on the operands `val`.
    pub fn eval(&self, val: &[MalType], env: &mut Environment) -> (r: Result<MalType, EvalError>)
        requires
            old(env)@.well_formed(),
        ensures
            outcome_of(r) == expr_spec(
                self@,
                values_of(val@),
                old(env)@,
                old(env).depth_left(),
            ).result,
            final(env)@ == expr_spec(
                self@,
                values_of(val@),
                old(env)@,
                old(env).depth_left(),
            ).state,
            final(env).depth_left() == old(env).depth_left(),
            final(env)@.well_formed(),
            old(env)@.leads_to(final(env)@),
        decreases old(env).depth_left(), 0nat, val@, 2nat,
    {
        proof {
            crate::laws::lemma_expr_keeps_cursor(self@, values_of(val@), env@, env.depth_left());
        }
        let op = self.symbol.as_str();
        match self.inner {
            Native::Def => library::def(op, val, env),
            Native::Let => library::_let(op, val, env),
            Native::Do => library::_do(val, env),
            Native::If => library::_if(val, env),
            Native::Lambda => library::_fn(op, val, env),
            Native::PrStr => library::pr_str(op, val),
            Native::Str => library::str(op, val),
            Native::Prn => library::prn(val, env),
            Native::Println => library::println(val, env),
            Native::List => library::list(op, val),
            Native::IsList => library::is_list(op, val),
            Native::IsEmpty => library::any(op, val),
            Native::Count => library::count(op, val),
            f => library::bin_op(f, op, val),
        }
    }
}

} // verus!
