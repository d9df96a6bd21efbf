//! The built-in library: the special forms and native functions that every
//! environment starts with.

use crate::environment::Environment;
use crate::error::{outcome_of, EvalError, Failure};
use crate::expr::Expressions;
use crate::eval::{eval, eval_each};
use crate::semantics::{
    all_symbols, def_spec, display_all, do_spec, fn_spec, if_spec, is_special, let_bind, let_spec,
    native_result, native_state,
};
use crate::types::{values_of, ExprView, MalExpr, MalFn, MalLibFn, MalType, Native, Value};
use vstd::prelude::*;
use vstd::slice::slice_subrange;

verus! {

/// The value that a special form is registered as.
pub open spec fn bind_value(s: Seq<char>, f: Native) -> Value {
    Value::Bind(ExprView { symbol: s, arguments: 0, inner: f })
}

/// The value that a library function is registered as.
pub open spec fn fn_value(s: Seq<char>, f: Native) -> Value {
    Value::LibFn {
        expr: ExprView { symbol: s, arguments: 0, inner: f },
        pattern: Box::new(Value::List(Seq::empty())),
    }
}

/// The value that a binary operator is registered as.
pub open spec fn bin_op_value(s: Seq<char>, f: Native) -> Value {
    Value::BinOp(ExprView { symbol: s, arguments: 2, inner: f })
}

/// `table` with the whole library registered in it.
pub open spec fn with_library(table: Map<Seq<char>, Value>) -> Map<Seq<char>, Value> {
    table.insert("def!"@, bind_value("def!"@, Native::Def)).insert(
        "let*"@,
        bind_value("let*"@, Native::Let),
    ).insert("do"@, bind_value("do"@, Native::Do)).insert(
        "if"@,
        bind_value("if"@, Native::If),
    ).insert("fn*"@, bind_value("fn*"@, Native::Lambda)).insert(
        "pr-str"@,
        fn_value("pr-str"@, Native::PrStr),
    ).insert("str"@, fn_value("str"@, Native::Str)).insert(
        "prn"@,
        fn_value("prn"@, Native::Prn),
    ).insert("println"@, fn_value("println"@, Native::Println)).insert(
        "list"@,
        fn_value("list"@, Native::List),
    ).insert("list?"@, fn_value("list?"@, Native::IsList)).insert(
        "empty?"@,
        fn_value("empty?"@, Native::IsEmpty),
    ).insert("count"@, fn_value("count"@, Native::Count)).insert(
        "+"@,
        bin_op_value("+"@, Native::Add),
    ).insert("-"@, bin_op_value("-"@, Native::Sub)).insert(
        "*"@,
        bin_op_value("*"@, Native::Mul),
    ).insert("/"@, bin_op_value("/"@, Native::Div)).insert(
        "="@,
        bin_op_value("="@, Native::Equal),
    ).insert("<"@, bin_op_value("<"@, Native::Less)).insert(
        "<="@,
        bin_op_value("<="@, Native::LessEq),
    ).insert(">"@, bin_op_value(">"@, Native::Greater)).insert(
        ">="@,
        bin_op_value(">="@, Native::GreaterEq),
    )
}

/// Registers the whole library in `hm`.
pub fn add_functions(hm: &mut Expressions)
    ensures
        final(hm)@ == with_library(old(hm)@),
{
    make_bind(hm, "def!", Native::Def);
    make_bind(hm, "let*", Native::Let);
    make_bind(hm, "do", Native::Do);
    make_bind(hm, "if", Native::If);
    make_bind(hm, "fn*", Native::Lambda);

    make_fn(hm, "pr-str", Native::PrStr);
    make_fn(hm, "str", Native::Str);
    make_fn(hm, "prn", Native::Prn);
    make_fn(hm, "println", Native::Println);

    make_fn(hm, "list", Native::List);
    make_fn(hm, "list?", Native::IsList);
    make_fn(hm, "empty?", Native::IsEmpty);
    make_fn(hm, "count", Native::Count);

    make_bin_op(hm, "+", Native::Add);
    make_bin_op(hm, "-", Native::Sub);
    make_bin_op(hm, "*", Native::Mul);
    make_bin_op(hm, "/", Native::Div);

    make_bin_op(hm, "=", Native::Equal);
    make_bin_op(hm, "<", Native::Less);
    make_bin_op(hm, "<=", Native::LessEq);
    make_bin_op(hm, ">", Native::Greater);
    make_bin_op(hm, ">=", Native::GreaterEq);
}

/// Registers the binary operator `f` under the name `s`.
pub fn make_bin_op(hm: &mut Expressions, s: &str, f: Native)
    ensures
        final(hm)@ == old(hm)@.insert(s@, bin_op_value(s@, f)),
{
    let op = MalType::BinOp(MalExpr { symbol: String::from_str(s), arguments: 2, inner: f });
    hm.set(String::from_str(s), op);
}

/// Registers the special form `f` under the name `s`.
pub fn make_bind(hm: &mut Expressions, s: &'static str, f: Native)
    ensures
        final(hm)@ == old(hm)@.insert(s@, bind_value(s@, f)),
{
    let op = MalType::Bind(MalExpr { symbol: String::from_str(s), arguments: 0, inner: f });
    hm.set(String::from_str(s), op);
}

/// Registers the library function `f` under the name `s`.
pub fn make_fn(hm: &mut Expressions, s: &'static str, f: Native)
    ensures
        final(hm)@ == old(hm)@.insert(s@, fn_value(s@, f)),
{
    let op = MalExpr { symbol: String::from_str(s), arguments: 0, inner: f };
    let pattern = MalType::List(Vec::new());
    assert(pattern@ == Value::List(Seq::empty())) by {
        assert(crate::types::values_of(Seq::<MalType>::empty()) =~= Seq::<Value>::empty());
    }
    let _fn = MalType::LibFn(MalLibFn { expr: Box::new(op), captured_env: Box::new(pattern) });
    hm.set(String::from_str(s), _fn);
}


/// The failure of the operation `op` on the one operand `a`.
pub fn mismatch(op: &str, a: &MalType) -> (e: EvalError)
    ensures
        e@ == Failure::TypeMismatch(op@, seq![a@]),
{
    let mut operands: Vec<MalType> = Vec::new();
    operands.push(a.clone());
    assert(values_of(operands@) =~= seq![a@]);
    EvalError::TypeMismatch(String::from_str(op), operands)
}

/// The failure of the operation `op` on the two operands `a` and `b`.
pub fn mismatch_of_two(op: &str, a: &MalType, b: &MalType) -> (e: EvalError)
    ensures
        e@ == Failure::TypeMismatch(op@, seq![a@, b@]),
{
    let mut operands: Vec<MalType> = Vec::new();
    operands.push(a.clone());
    operands.push(b.clone());
    assert(values_of(operands@) =~= seq![a@, b@]);
    EvalError::TypeMismatch(String::from_str(op), operands)
}

/// `count`: the length of a list; 0 for `nil`.
pub fn count(op: &str, args: &[MalType]) -> (r: Result<MalType, EvalError>)
    ensures
        outcome_of(r) == native_result(Native::Count, op@, values_of(args@)),
{
    if args.len() < 1 {
        return Err(EvalError::ArityMismatch);
    }
    match &args[0] {
        MalType::List(inner) => {
            assert(values_of(inner@).len() == inner@.len());
            let n: u64 = inner.len() as u64;
            if n <= 0x7fff_ffff_ffff_ffff {
                Ok(MalType::Number(n as i64))
            } else {
                Ok(MalType::Number(i64::MAX))
            }
        },
        MalType::Nil => Ok(MalType::Number(0)),
        _ => Err(mismatch(op, &args[0])),
    }
}

/// `empty?`: whether a list has no element.
pub fn any(op: &str, args: &[MalType]) -> (r: Result<MalType, EvalError>)
    ensures
        outcome_of(r) == native_result(Native::IsEmpty, op@, values_of(args@)),
{
    if args.len() < 1 {
        return Err(EvalError::ArityMismatch);
    }
    match &args[0] {
        MalType::List(inner) => {
            assert(values_of(inner@).len() == inner@.len());
            Ok(MalType::Bool(inner.len() == 0))
        },
        _ => Err(mismatch(op, &args[0])),
    }
}

/// `list?`: whether the argument is a list.
pub fn is_list(op: &str, args: &[MalType]) -> (r: Result<MalType, EvalError>)
    ensures
        outcome_of(r) == native_result(Native::IsList, op@, values_of(args@)),
{
    if args.len() < 1 {
        return Err(EvalError::ArityMismatch);
    }
    match &args[0] {
        MalType::List(_) => Ok(MalType::Bool(true)),
        _ => Ok(MalType::Bool(false)),
    }
}

/// `list`: the list of the arguments.
pub fn list(op: &str, args: &[MalType]) -> (r: Result<MalType, EvalError>)
    ensures
        outcome_of(r) == native_result(Native::List, op@, values_of(args@)),
{
    Ok(MalType::List(crate::types::clone_items(args)))
}

/// `prn`: prints the first argument in readable form, or an empty line.
pub fn prn(args: &[MalType], env: &mut Environment) -> (r: Result<MalType, EvalError>)
    requires
        old(env)@.well_formed(),
    ensures
        outcome_of(r) == native_result(Native::Prn, Seq::empty(), values_of(args@)),
        final(env)@ == native_state(Native::Prn, values_of(args@), old(env)@),
        final(env).depth_left() == old(env).depth_left(),
        final(env)@.well_formed(),
        old(env)@.leads_to(final(env)@),
{
    if args.len() > 0 {
        env.print(args[0].to_readable());
    } else {
        env.print(String::new());
    }
    Ok(MalType::Nil)
}

/// `println`: prints the arguments for display, separated by spaces.
pub fn println(args: &[MalType], env: &mut Environment) -> (r: Result<MalType, EvalError>)
    requires
        old(env)@.well_formed(),
    ensures
        outcome_of(r) == native_result(Native::Println, Seq::empty(), values_of(args@)),
        final(env)@ == native_state(Native::Println, values_of(args@), old(env)@),
        final(env).depth_left() == old(env).depth_left(),
        final(env)@.well_formed(),
        old(env)@.leads_to(final(env)@),
{
    let mut buffer = String::new();
    crate::printer::write_items(args, false, &mut buffer);
    env.print(buffer);
    Ok(MalType::Nil)
}

/// `pr-str`: the arguments in readable form, separated by spaces.
pub fn pr_str(op: &str, args: &[MalType]) -> (r: Result<MalType, EvalError>)
    ensures
        outcome_of(r) == native_result(Native::PrStr, op@, values_of(args@)),
{
    let mut buffer = String::new();
    crate::printer::write_items(args, true, &mut buffer);
    Ok(MalType::String(buffer))
}

/// `str`: the arguments for display, one behind the other.
pub fn str(op: &str, args: &[MalType]) -> (r: Result<MalType, EvalError>)
    ensures
        outcome_of(r) == native_result(Native::Str, op@, values_of(args@)),
{
    let ghost vals = values_of(args@);
    let mut buffer = String::new();
    let mut i: usize = 0;
    while i < args.len()
        invariant
            i <= args.len(),
            vals == values_of(args@),
            buffer@ == display_all(vals.take(i as int)),
        decreases args.len() - i,
    {
        proof {
            assert(vals.take(i + 1).drop_last() == vals.take(i as int));
        }
        args[i].write(false, &mut buffer);
        i += 1;
    }
    assert(vals.take(i as int) == vals);
    Ok(MalType::String(buffer))
}

/// An arithmetic operator or a comparison on the first two arguments.
pub fn bin_op(f: Native, op: &str, args: &[MalType]) -> (r: Result<MalType, EvalError>)
    requires
        !is_special(f),
        !(f is PrStr || f is Str || f is Prn || f is Println || f is List || f is IsList
            || f is IsEmpty || f is Count),
    ensures
        outcome_of(r) == native_result(f, op@, values_of(args@)),
{
    if args.len() < 2 {
        return Err(EvalError::ArityMismatch);
    }
    let a = &args[0];
    let b = &args[1];
    if let Native::Equal = f {
        return Ok(MalType::Bool(a.same(b)));
    }
    match (a, b) {
        (MalType::Number(x), MalType::Number(y)) => match f {
            Native::Add => Ok(a.add(b)),
            Native::Sub => Ok(a.sub(b)),
            Native::Mul => Ok(a.mul(b)),
            Native::Div => if *y == 0 {
                Err(EvalError::DivisionByZero)
            } else {
                Ok(a.div(b))
            },
            Native::Less => Ok(MalType::Bool(*x < *y)),
            Native::LessEq => Ok(MalType::Bool(*x <= *y)),
            Native::Greater => Ok(MalType::Bool(*x > *y)),
            _ => Ok(MalType::Bool(*x >= *y)),
        },
        _ => Err(mismatch_of_two(op, a, b)),
    }
}


/// `do`: evaluates every operand in order, for the value of the last.
pub fn _do(args: &[MalType], env: &mut Environment) -> (r: Result<MalType, EvalError>)
    requires
        old(env)@.well_formed(),
    ensures
        outcome_of(r) == do_spec(values_of(args@), old(env)@, old(env).depth_left()).result,
        final(env)@ == do_spec(values_of(args@), old(env)@, old(env).depth_left()).state,
        final(env).depth_left() == old(env).depth_left(),
        final(env)@.well_formed(),
        old(env)@.leads_to(final(env)@),
    decreases old(env).depth_left(), 0nat, args@, 1nat,
{
    proof {
        crate::laws::lemma_expr_keeps_cursor(
            ExprView { symbol: Seq::empty(), arguments: 0, inner: Native::Do },
            values_of(args@),
            env@,
            env.depth_left(),
        );
    }
    if args.len() == 0 {
        return Err(EvalError::ArityMismatch);
    }
    let last = args.len() - 1;
    let front = slice_subrange(args, 0, last);
    assert(values_of(front@) =~= values_of(args@).drop_last());
    assert(values_of(args@).last() == args@[last as int]@);
    match eval_each(front, false, env) {
        Ok(_) => eval(&args[last], env),
        Err(e) => Err(e),
    }
}

/// `if`: evaluates the first operand and, by its value, the second or the
/// third.
pub fn _if(args: &[MalType], env: &mut Environment) -> (r: Result<MalType, EvalError>)
    requires
        old(env)@.well_formed(),
    ensures
        outcome_of(r) == if_spec(values_of(args@), old(env)@, old(env).depth_left()).result,
        final(env)@ == if_spec(values_of(args@), old(env)@, old(env).depth_left()).state,
        final(env).depth_left() == old(env).depth_left(),
        final(env)@.well_formed(),
        old(env)@.leads_to(final(env)@),
    decreases old(env).depth_left(), 0nat, args@, 1nat,
{
    proof {
        crate::laws::lemma_expr_keeps_cursor(
            ExprView { symbol: Seq::empty(), arguments: 0, inner: Native::If },
            values_of(args@),
            env@,
            env.depth_left(),
        );
    }
    if args.len() != 2 && args.len() != 3 {
        return Err(EvalError::ArityMismatch);
    }
    let booleanish = match eval(&args[0], env) {
        Ok(v) => v,
        Err(e) => {
            return Err(e);
        },
    };
    let falsy = match booleanish {
        MalType::Nil => true,
        MalType::Bool(x) => !x,
        _ => false,
    };
    if falsy {
        if args.len() < 3 {
            return Ok(MalType::Nil);
        }
        eval(&args[2], env)
    } else {
        eval(&args[1], env)
    }
}

fn only_symbols(items: &Vec<MalType>) -> (r: bool)
    ensures
        r == all_symbols(values_of(items@)),
{
    let mut i: usize = 0;
    while i < items.len()
        invariant
            i <= items.len(),
            forall|j: int| 0 <= j < i ==> #[trigger] values_of(items@)[j] is Symbol,
        decreases items.len() - i,
    {
        match &items[i] {
            MalType::Symbol(_) => {},
            _ => {
                assert(!(values_of(items@)[i as int] is Symbol));
                return false;
            },
        }
        i += 1;
    }
    true
}

/// `fn*`: makes a user function that holds the current scope.
pub fn _fn(op: &str, args: &[MalType], env: &mut Environment) -> (r: Result<MalType, EvalError>)
    requires
        old(env)@.well_formed(),
    ensures
        outcome_of(r) == fn_spec(op@, values_of(args@), old(env)@).result,
        final(env)@ == fn_spec(op@, values_of(args@), old(env)@).state,
        final(env).depth_left() == old(env).depth_left(),
        final(env)@.well_formed(),
        old(env)@.leads_to(final(env)@),
{
    if args.len() < 2 {
        return Err(EvalError::ArityMismatch);
    }
    match &args[0] {
        MalType::List(params) => {
            if !only_symbols(params) {
                return Err(mismatch(op, &args[0]));
            }
        },
        _ => {
            return Err(mismatch(op, &args[0]));
        },
    };
    let captured_env = env.current();
    let id = env.fresh_id();
    let mal_fn = MalFn {
        expr: Box::new(args[1].clone()),
        captured_args: Box::new(args[0].clone()),
        captured_env,
        id,
    };
    Ok(MalType::Fn(mal_fn))
}

/// `def!`: binds a symbol in the current scope to the value of a form.
pub fn def(op: &str, args: &[MalType], env: &mut Environment) -> (r: Result<MalType, EvalError>)
    requires
        old(env)@.well_formed(),
    ensures
        outcome_of(r) == def_spec(op@, values_of(args@), old(env)@, old(env).depth_left()).result,
        final(env)@ == def_spec(op@, values_of(args@), old(env)@, old(env).depth_left()).state,
        final(env).depth_left() == old(env).depth_left(),
        final(env)@.well_formed(),
        old(env)@.leads_to(final(env)@),
    decreases old(env).depth_left(), 0nat, args@, 1nat,
{
    proof {
        crate::laws::lemma_expr_keeps_cursor(
            ExprView { symbol: op@, arguments: 0, inner: Native::Def },
            values_of(args@),
            env@,
            env.depth_left(),
        );
    }
    if args.len() < 2 {
        return Err(EvalError::ArityMismatch);
    }
    match &args[0] {
        MalType::Symbol(_) => {},
        _ => {
            return Err(mismatch(op, &args[0]));
        },
    }
    let eval = match eval(&args[1], env) {
        Ok(v) => v,
        Err(e) => {
            return Err(e);
        },
    };
    env.set(args[0].clone(), eval.clone());
    Ok(eval)
}

/// `let*`: evaluates the last operand in a new scope that binds the
/// pairs of the first.
#[verifier::loop_isolation(false)]
pub fn _let(op: &str, args: &[MalType], env: &mut Environment) -> (r: Result<MalType, EvalError>)
    requires
        old(env)@.well_formed(),
    ensures
        outcome_of(r) == let_spec(op@, values_of(args@), old(env)@, old(env).depth_left()).result,
        final(env)@ == let_spec(op@, values_of(args@), old(env)@, old(env).depth_left()).state,
        final(env).depth_left() == old(env).depth_left(),
        final(env)@.well_formed(),
        old(env)@.leads_to(final(env)@),
    decreases old(env).depth_left(), 0nat, args@, 1nat,
{
    proof {
        crate::laws::lemma_expr_keeps_cursor(
            ExprView { symbol: op@, arguments: 0, inner: Native::Let },
            values_of(args@),
            env@,
            env.depth_left(),
        );
    }
    if args.len() < 2 {
        return Err(EvalError::ArityMismatch);
    }
    let pairs = match &args[0] {
        MalType::List(inner) => inner,
        MalType::Vector(inner) => inner,
        _ => {
            return Err(mismatch(op, &args[0]));
        },
    };
    let ghost forms = values_of(pairs@);
    assert(forms.len() == pairs@.len());
    if pairs.len() % 2 != 0 {
        return Err(EvalError::ArityMismatch);
    }
    let ghost depth = env.depth_left();
    let len = env.scope_count();
    let id = env.next_id();
    env.enter();
    let ghost entered = env@;
    let mut i: usize = 0;
    while i < pairs.len()
        invariant
            i <= pairs.len(),
            i % 2 == 0,
            env.depth_left() == depth,
            env@.well_formed(),
            entered.leads_to(env@),
            let_bind(op@, forms, 0, entered, depth) == let_bind(op@, forms, i as int, env@, depth),
        decreases pairs.len() - i,
    {
        assert(forms[i as int] == pairs@[i as int]@);
        assert(forms[i + 1] == pairs@[i + 1]@);
        match &pairs[i] {
            MalType::Symbol(_) => {},
            _ => {
                let e = mismatch(op, &pairs[i]);
                env.exit();
                env.release(len, id);
                return Err(e);
            },
        }
        match eval(&pairs[i + 1], env) {
            Ok(v) => {
                env.set(pairs[i].clone(), v);
            },
            Err(e) => {
                env.exit();
                env.release(len, id);
                return Err(e);
            },
        }
        i += 2;
    }
    let ret = eval(&args[args.len() - 1], env);
    env.exit();
    env.release(len, id);
    ret
}

} // verus!
