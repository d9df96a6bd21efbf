use ruste::environment::Environment;
use ruste::error::EvalError;
use ruste::eval::eval;
use ruste::reader::{Lexer, Parser};
use ruste::types::MalType;

fn read(text: &str) -> MalType {
    let mut forms = Parser::new(Lexer::tokenize(text)).parse().unwrap();
    assert_eq!(forms.len(), 1);
    forms.remove(0)
}

fn run(text: &str, env: &mut Environment) -> Result<MalType, EvalError> {
    eval(&read(text), env)
}

fn value(text: &str) -> MalType {
    run(text, &mut Environment::new()).unwrap()
}

fn failure(text: &str) -> EvalError {
    run(text, &mut Environment::new()).unwrap_err()
}

fn num(n: i64) -> MalType {
    MalType::Number(n)
}

fn sym(name: &str) -> MalType {
    MalType::Symbol(name.to_string())
}

#[test]
fn apply_list() {
    let ast = MalType::List(vec![MalType::Symbol(String::from("list"))]);
    let mut env = Environment::new();

    let r = eval(&ast, &mut env).unwrap();

    assert_eq!(r, MalType::List(vec![]))
}

#[test]
fn test_closures() {
    let lexer = Lexer::tokenize("( ( (fn* (a) (fn* (b) (+ a b))) 5) 7)");
    let mut parser = Parser::new(lexer);

    let ast = parser.parse().unwrap();
    let mut env = Environment::new();

    let r = eval(&ast[0], &mut env).unwrap();

    assert_eq!(r, MalType::Number(12))
}

#[test]
fn pr_str() {
    let ast = MalType::List(vec![MalType::Symbol(String::from("pr-str"))]);
    let mut env = Environment::new();

    let r = eval(&ast, &mut env).unwrap();

    assert_eq!(r, MalType::String(String::new()))
}

#[test]
fn def_twice_then_lookup() {
    let mut env = Environment::new();
    assert_eq!(run("(def! x 5)", &mut env).unwrap(), num(5));
    assert_eq!(run("(def! x 5)", &mut env).unwrap(), num(5));
    assert_eq!(run("x", &mut env).unwrap(), num(5));
    assert_eq!(env.get("x"), Some(num(5)));
}

#[test]
fn rest_parameter_takes_the_remaining_arguments() {
    assert_eq!(
        value("((fn* (a & b) (list a b)) 1 2 3)"),
        MalType::List(vec![num(1), MalType::List(vec![num(2), num(3)])])
    );
    assert_eq!(
        value("((fn* (a & b) (list a b)) 1)"),
        MalType::List(vec![num(1), MalType::List(vec![])])
    );
    assert_eq!(value("((fn* (& xs) (count xs)) 1 2 3 4)"), num(4));
}

#[test]
fn derive_binds_the_pattern_against_the_arguments() {
    let mut env = Environment::new();
    let pattern = MalType::List(vec![sym("a"), sym("&"), sym("b")]);
    let child = env.from(0, &pattern, &[num(1), num(2), num(3)]).unwrap();
    assert_eq!(child, 1);
    assert_eq!(env.get("a"), None);
    env.focus(child);
    assert_eq!(env.get("a"), Some(num(1)));
    assert_eq!(env.get("b"), Some(MalType::List(vec![num(2), num(3)])));
    assert_eq!(env.get("&"), None);
}

#[test]
fn derive_fails_on_too_few_arguments() {
    let mut env = Environment::new();
    let pattern = MalType::List(vec![sym("a"), sym("b")]);
    assert!(matches!(env.from(0, &pattern, &[num(1)]), Err(EvalError::ArityMismatch)));
    assert_eq!(env.scope_count(), 1);
    assert!(matches!(failure("((fn* (a b) a) 1)"), EvalError::ArityMismatch));
    assert!(matches!(failure("((fn* (a & b) a))"), EvalError::ArityMismatch));
}

#[test]
fn derive_ignores_surplus_arguments() {
    assert_eq!(value("((fn* (a) a) 1 2 3)"), num(1));
}

#[test]
fn derive_rejects_a_bad_pattern() {
    let mut env = Environment::new();
    assert!(matches!(env.from(0, &num(1), &[]), Err(EvalError::TypeMismatch(_, _))));
    let dangling = MalType::List(vec![sym("a"), sym("&")]);
    assert!(matches!(env.from(0, &dangling, &[num(1)]), Err(EvalError::TypeMismatch(_, _))));
    let not_symbol = MalType::List(vec![num(1)]);
    assert!(matches!(env.from(0, &not_symbol, &[num(1)]), Err(EvalError::TypeMismatch(_, _))));
}

#[test]
fn only_nil_and_false_are_falsy() {
    assert_eq!(value("(if nil 1 2)"), num(2));
    assert_eq!(value("(if false 1 2)"), num(2));
    assert_eq!(value("(if 0 1 2)"), num(1));
    assert_eq!(value("(if false 1)"), MalType::Nil);
    assert_eq!(value("(if nil 1)"), MalType::Nil);
    assert_eq!(value("(if true 1)"), num(1));
    assert_eq!(value("(if () 1 2)"), num(1));
    assert_eq!(value("(if \"\" 1 2)"), num(1));
}

#[test]
fn if_evaluates_one_branch_only() {
    assert_eq!(value("(if true 1 (/ 1 0))"), num(1));
    assert_eq!(value("(if false (/ 1 0) 2)"), num(2));
}

#[test]
fn if_takes_two_or_three_operands() {
    assert!(matches!(failure("(if)"), EvalError::ArityMismatch));
    assert!(matches!(failure("(if true)"), EvalError::ArityMismatch));
    assert!(matches!(failure("(if true 1 2 3)"), EvalError::ArityMismatch));
}

#[test]
fn division_by_zero_is_a_failure() {
    assert!(matches!(failure("(/ 1 0)"), EvalError::DivisionByZero));
    assert!(matches!(failure("(+ 1 (/ 5 0))"), EvalError::DivisionByZero));
}

#[test]
fn unbound_symbol_is_a_failure() {
    match failure("foo") {
        EvalError::SymbolNotFound(name) => assert_eq!(name, "foo"),
        other => panic!("{:?}", other),
    }
    match failure("(+ 1 bar)") {
        EvalError::SymbolNotFound(name) => assert_eq!(name, "bar"),
        other => panic!("{:?}", other),
    }
}

#[test]
fn a_failure_leaves_earlier_definitions() {
    let mut env = Environment::new();
    run("(def! x 1)", &mut env).unwrap();
    assert!(run("(def! y (/ 1 0))", &mut env).is_err());
    assert!(run("(do (def! z 3) nope)", &mut env).is_err());
    assert_eq!(run("x", &mut env).unwrap(), num(1));
    assert_eq!(env.get("y"), None);
    assert_eq!(run("z", &mut env).unwrap(), num(3));
}

#[test]
fn map_literal_keeps_its_keys_unevaluated() {
    let mut env = Environment::new();
    run("(def! a 1)", &mut env).unwrap();
    assert_eq!(
        run("{a a b (+ a 1)}", &mut env).unwrap(),
        MalType::HashMap(vec![sym("a"), num(1), sym("b"), num(2)])
    );
    assert_eq!(
        run("{(+ 1 2) (+ 1 2)}", &mut env).unwrap(),
        MalType::HashMap(vec![MalType::List(vec![sym("+"), num(1), num(2)]), num(3)])
    );
    assert_eq!(run("{}", &mut env).unwrap(), MalType::HashMap(vec![]));
    assert_eq!(
        run("{unbound 1 other (list a)}", &mut env).unwrap(),
        MalType::HashMap(vec![sym("unbound"), num(1), sym("other"), MalType::List(vec![num(1)])])
    );
}

#[test]
fn vectors_and_lists_evaluate_their_elements() {
    assert_eq!(value("[1 (+ 1 1) [(* 2 3)]]"), MalType::Vector(vec![
        num(1),
        num(2),
        MalType::Vector(vec![num(6)]),
    ]));
    assert_eq!(value("()"), MalType::List(vec![]));
    assert_eq!(value("(list 1 (+ 1 1))"), MalType::List(vec![num(1), num(2)]));
}

#[test]
fn atoms_evaluate_to_themselves() {
    assert_eq!(value("7"), num(7));
    assert_eq!(value("true"), MalType::Bool(true));
    assert_eq!(value("nil"), MalType::Nil);
    assert_eq!(value("\"s\""), MalType::String("s".to_string()));
}

#[test]
fn arithmetic_is_binary_and_ignores_further_arguments() {
    assert_eq!(value("(+ 1 2)"), num(3));
    assert_eq!(value("(- 1 2)"), num(-1));
    assert_eq!(value("(* 6 7)"), num(42));
    assert_eq!(value("(+ 1 2 100)"), num(3));
    assert_eq!(value("(* 2 3 4 5)"), num(6));
}

#[test]
fn division_truncates_toward_zero() {
    assert_eq!(value("(/ 7 2)"), num(3));
    assert_eq!(value("(/ -7 2)"), num(-3));
    assert_eq!(value("(/ 7 -2)"), num(-3));
    assert_eq!(value("(/ -7 -2)"), num(3));
    assert_eq!(value("(/ 0 5)"), num(0));
    assert_eq!(value("(/ -9223372036854775808 2)"), num(-4611686018427387904));
    assert_eq!(value("(/ -9223372036854775808 -2)"), num(4611686018427387904));
    assert_eq!(value("(/ -9223372036854775808 1)"), num(i64::MIN));
}

#[test]
fn arithmetic_wraps_around_at_64_bits() {
    assert_eq!(value("(+ 9223372036854775807 1)"), num(i64::MIN));
    assert_eq!(value("(- -9223372036854775808 1)"), num(i64::MAX));
    assert_eq!(value("(* 9223372036854775807 2)"), num(-2));
    assert_eq!(value("(/ -9223372036854775808 -1)"), num(i64::MIN));
}

#[test]
fn arithmetic_needs_two_numbers() {
    match failure("(+ 1 \"a\")") {
        EvalError::TypeMismatch(op, operands) => {
            assert_eq!(op, "+");
            assert_eq!(operands, vec![num(1), MalType::String("a".to_string())]);
        }
        other => panic!("{:?}", other),
    }
    assert!(matches!(failure("(- nil 1)"), EvalError::TypeMismatch(_, _)));
    assert!(matches!(failure("(* () 1)"), EvalError::TypeMismatch(_, _)));
    assert!(matches!(failure("(/ 1 true)"), EvalError::TypeMismatch(_, _)));
    assert!(matches!(failure("(+ 1)"), EvalError::ArityMismatch));
    assert!(matches!(failure("(+)"), EvalError::ArityMismatch));
}

#[test]
fn comparisons_order_numbers() {
    assert_eq!(value("(< 1 2)"), MalType::Bool(true));
    assert_eq!(value("(< 2 2)"), MalType::Bool(false));
    assert_eq!(value("(<= 2 2)"), MalType::Bool(true));
    assert_eq!(value("(<= 3 2)"), MalType::Bool(false));
    assert_eq!(value("(> 3 2)"), MalType::Bool(true));
    assert_eq!(value("(> 2 2)"), MalType::Bool(false));
    assert_eq!(value("(>= 2 2)"), MalType::Bool(true));
    assert_eq!(value("(>= 1 2)"), MalType::Bool(false));
    match failure("(< 1 nil)") {
        EvalError::TypeMismatch(op, operands) => {
            assert_eq!(op, "<");
            assert_eq!(operands, vec![num(1), MalType::Nil]);
        }
        other => panic!("{:?}", other),
    }
    assert!(matches!(failure("(>= \"a\" \"b\")"), EvalError::TypeMismatch(_, _)));
    assert!(matches!(failure("(< 1)"), EvalError::ArityMismatch));
}

#[test]
fn equality_follows_the_value_model() {
    assert_eq!(value("(= 1 1)"), MalType::Bool(true));
    assert_eq!(value("(= 1 2)"), MalType::Bool(false));
    assert_eq!(value("(= (list 1 2) (list 1 2))"), MalType::Bool(true));
    assert_eq!(value("(= (list 1 2) [1 2])"), MalType::Bool(false));
    assert_eq!(value("(= [1 2] [1 2])"), MalType::Bool(true));
    assert_eq!(value("(= {1 2} {1 2})"), MalType::Bool(true));
    assert_eq!(value("(= \"a\" \"a\")"), MalType::Bool(true));
    assert_eq!(value("(= \"a\" \"b\")"), MalType::Bool(false));
    assert_eq!(value("(= nil nil)"), MalType::Bool(true));
    assert_eq!(value("(= nil false)"), MalType::Bool(false));
    assert_eq!(value("(= 0 false)"), MalType::Bool(false));
    assert_eq!(value("(= + -)"), MalType::Bool(true));
    assert_eq!(value("(= list count)"), MalType::Bool(true));
    assert_eq!(value("(= + list)"), MalType::Bool(false));
    assert!(matches!(failure("(= 1)"), EvalError::ArityMismatch));
}

#[test]
fn user_functions_are_equal_to_themselves_only() {
    let mut env = Environment::new();
    run("(def! f (fn* (a) a))", &mut env).unwrap();
    run("(def! g (fn* (a) a))", &mut env).unwrap();
    assert_eq!(run("(= f f)", &mut env).unwrap(), MalType::Bool(true));
    assert_eq!(run("(= f g)", &mut env).unwrap(), MalType::Bool(false));
    assert_eq!(run("(= (fn* (a) a) (fn* (a) a))", &mut env).unwrap(), MalType::Bool(false));
}

#[test]
fn list_functions() {
    assert_eq!(value("(list)"), MalType::List(vec![]));
    assert_eq!(value("(list 1 \"a\" nil)"), MalType::List(vec![
        num(1),
        MalType::String("a".to_string()),
        MalType::Nil,
    ]));
    assert_eq!(value("(list? (list 1))"), MalType::Bool(true));
    assert_eq!(value("(list? (list))"), MalType::Bool(true));
    assert_eq!(value("(list? [1])"), MalType::Bool(false));
    assert_eq!(value("(list? {1 2})"), MalType::Bool(false));
    assert_eq!(value("(list? nil)"), MalType::Bool(false));
    assert_eq!(value("(empty? (list))"), MalType::Bool(true));
    assert_eq!(value("(empty? (list 1))"), MalType::Bool(false));
    assert_eq!(value("(count (list 1 2 3))"), num(3));
    assert_eq!(value("(count (list))"), num(0));
    assert_eq!(value("(count nil)"), num(0));
}

#[test]
fn list_functions_reject_other_operands() {
    match failure("(empty? [])") {
        EvalError::TypeMismatch(op, operands) => {
            assert_eq!(op, "empty?");
            assert_eq!(operands, vec![MalType::Vector(vec![])]);
        }
        other => panic!("{:?}", other),
    }
    assert!(matches!(failure("(empty? nil)"), EvalError::TypeMismatch(_, _)));
    match failure("(count 5)") {
        EvalError::TypeMismatch(op, operands) => {
            assert_eq!(op, "count");
            assert_eq!(operands, vec![num(5)]);
        }
        other => panic!("{:?}", other),
    }
    assert!(matches!(failure("(count [1 2])"), EvalError::TypeMismatch(_, _)));
    assert!(matches!(failure("(count)"), EvalError::ArityMismatch));
    assert!(matches!(failure("(empty?)"), EvalError::ArityMismatch));
    assert!(matches!(failure("(list?)"), EvalError::ArityMismatch));
}

#[test]
fn pr_str_joins_readable_text_with_spaces() {
    let mut env = Environment::new();
    let args = MalType::List(vec![
        sym("pr-str"),
        num(1),
        MalType::String("a\"b".to_string()),
        MalType::Nil,
    ]);
    assert_eq!(eval(&args, &mut env).unwrap(), MalType::String("1 \"a\\\"b\" nil".to_string()));
    assert_eq!(value("(pr-str (list 1 2) [3])"), MalType::String("(1 2) [3]".to_string()));
}

#[test]
fn str_joins_display_text_without_separator() {
    let mut env = Environment::new();
    let args = MalType::List(vec![
        sym("str"),
        num(1),
        MalType::String("a\"b".to_string()),
        MalType::Nil,
        MalType::Bool(true),
    ]);
    assert_eq!(eval(&args, &mut env).unwrap(), MalType::String("1a\"bniltrue".to_string()));
    assert_eq!(value("(str)"), MalType::String(String::new()));
}

#[test]
fn prn_prints_the_first_argument_in_readable_form() {
    let mut env = Environment::new();
    let form = MalType::List(vec![sym("prn"), MalType::String("a\nb".to_string()), num(2)]);
    assert_eq!(eval(&form, &mut env).unwrap(), MalType::Nil);
    assert_eq!(run("(prn)", &mut env).unwrap(), MalType::Nil);
    assert_eq!(env.take_output(), vec!["\"a\\nb\"".to_string(), String::new()]);
    assert!(env.take_output().is_empty());
}

#[test]
fn println_prints_all_arguments_for_display() {
    let mut env = Environment::new();
    let form = MalType::List(vec![sym("println"), MalType::String("a\"b".to_string()), num(2)]);
    assert_eq!(eval(&form, &mut env).unwrap(), MalType::Nil);
    assert_eq!(run("(println)", &mut env).unwrap(), MalType::Nil);
    assert_eq!(env.take_output(), vec!["a\"b 2".to_string(), String::new()]);
}

#[test]
fn do_gives_the_last_value() {
    let mut env = Environment::new();
    assert_eq!(run("(do 1 2 3)", &mut env).unwrap(), num(3));
    assert_eq!(run("(do (def! a 6) (+ a 1))", &mut env).unwrap(), num(7));
    assert_eq!(run("a", &mut env).unwrap(), num(6));
    assert!(matches!(run("(do)", &mut env), Err(EvalError::ArityMismatch)));
}

#[test]
fn do_stops_at_the_first_failure() {
    let mut env = Environment::new();
    assert!(matches!(
        run("(do (prn 1) (/ 1 0) (prn 2))", &mut env),
        Err(EvalError::DivisionByZero)
    ));
    assert_eq!(env.take_output(), vec!["1".to_string()]);
}

#[test]
fn def_binds_in_the_innermost_scope() {
    let mut env = Environment::new();
    assert_eq!(run("(def! x 1)", &mut env).unwrap(), num(1));
    assert_eq!(run("(let* (y 2) (do (def! x 10) (+ x y)))", &mut env).unwrap(), num(12));
    assert_eq!(run("x", &mut env).unwrap(), num(1));
    assert_eq!(run("((fn* () (def! x 20)))", &mut env).unwrap(), num(20));
    assert_eq!(run("x", &mut env).unwrap(), num(1));
}

#[test]
fn def_needs_a_symbol_and_a_form() {
    assert!(matches!(failure("(def! x)"), EvalError::ArityMismatch));
    assert!(matches!(failure("(def!)"), EvalError::ArityMismatch));
    match failure("(def! 1 2)") {
        EvalError::TypeMismatch(op, operands) => {
            assert_eq!(op, "def!");
            assert_eq!(operands, vec![num(1)]);
        }
        other => panic!("{:?}", other),
    }
}

#[test]
fn let_binds_in_sequence() {
    assert_eq!(value("(let* (a 1 b (+ a 1)) (* a b 1))"), num(2));
    assert_eq!(value("(let* [a 1 b (+ a 1)] (+ a b))"), num(3));
    assert_eq!(value("(let* () 5)"), num(5));
    assert_eq!(value("(let* (a 1) (let* (a 2) a))"), num(2));
    assert_eq!(value("(let* (a 1) (do (let* (a 2) a) a))"), num(1));
}

#[test]
fn let_leaves_its_scope_on_success_and_on_failure() {
    let mut env = Environment::new();
    assert_eq!(run("(let* (a 1) a)", &mut env).unwrap(), num(1));
    assert_eq!(env.current(), 0);
    assert_eq!(env.get("a"), None);
    assert!(run("(let* (a 1) (/ a 0))", &mut env).is_err());
    assert_eq!(env.current(), 0);
    assert!(run("(let* (a 1 b nope) a)", &mut env).is_err());
    assert_eq!(env.current(), 0);
    assert!(run("(let* (a 1 2 3) a)", &mut env).is_err());
    assert_eq!(env.current(), 0);
    assert_eq!(env.get("a"), None);
    assert_eq!(env.scope_count(), 1);
}

#[test]
fn let_rejects_malformed_bindings() {
    assert!(matches!(failure("(let* (a) a)"), EvalError::ArityMismatch));
    assert!(matches!(failure("(let* (a 1 b) a)"), EvalError::ArityMismatch));
    assert!(matches!(failure("(let* (a 1))"), EvalError::ArityMismatch));
    assert!(matches!(failure("(let*)"), EvalError::ArityMismatch));
    match failure("(let* 5 1)") {
        EvalError::TypeMismatch(op, operands) => {
            assert_eq!(op, "let*");
            assert_eq!(operands, vec![num(5)]);
        }
        other => panic!("{:?}", other),
    }
    match failure("(let* (1 2) 3)") {
        EvalError::TypeMismatch(op, operands) => {
            assert_eq!(op, "let*");
            assert_eq!(operands, vec![num(1)]);
        }
        other => panic!("{:?}", other),
    }
}

#[test]
fn fn_rejects_malformed_parameters() {
    assert!(matches!(failure("(fn* (a))"), EvalError::ArityMismatch));
    assert!(matches!(failure("(fn*)"), EvalError::ArityMismatch));
    match failure("(fn* [a] a)") {
        EvalError::TypeMismatch(op, operands) => {
            assert_eq!(op, "fn*");
            assert_eq!(operands, vec![MalType::Vector(vec![sym("a")])]);
        }
        other => panic!("{:?}", other),
    }
    assert!(matches!(failure("(fn* (a 1) a)"), EvalError::TypeMismatch(_, _)));
    assert!(matches!(failure("(fn* a a)"), EvalError::TypeMismatch(_, _)));
    assert!(matches!(failure("((fn* (a &) a) 1)"), EvalError::TypeMismatch(_, _)));
}

#[test]
fn closures_see_later_definitions_in_their_scope() {
    let mut env = Environment::new();
    run("(def! f (fn* () x))", &mut env).unwrap();
    assert!(run("(f)", &mut env).is_err());
    run("(def! x 3)", &mut env).unwrap();
    assert_eq!(run("(f)", &mut env).unwrap(), num(3));
    run("(def! x 4)", &mut env).unwrap();
    assert_eq!(run("(f)", &mut env).unwrap(), num(4));
}

#[test]
fn closures_keep_the_scope_they_were_made_in() {
    let mut env = Environment::new();
    run("(def! make (fn* (n) (fn* (m) (+ n m))))", &mut env).unwrap();
    run("(def! add2 (make 2))", &mut env).unwrap();
    run("(def! add5 (make 5))", &mut env).unwrap();
    assert_eq!(run("(add2 1)", &mut env).unwrap(), num(3));
    assert_eq!(run("(add5 1)", &mut env).unwrap(), num(6));
    assert_eq!(run("(let* (n 100) (add2 1))", &mut env).unwrap(), num(3));
    run("(def! held (let* (k 7) (fn* () k)))", &mut env).unwrap();
    assert_eq!(run("(held)", &mut env).unwrap(), num(7));
    assert_eq!(run("(let* (k 8) (held))", &mut env).unwrap(), num(7));
}

#[test]
fn user_functions_recurse() {
    let mut env = Environment::new();
    run("(def! sum (fn* (n) (if (= n 0) 0 (+ n (sum (- n 1))))))", &mut env).unwrap();
    assert_eq!(run("(sum 10)", &mut env).unwrap(), num(55));
    assert_eq!(run("(sum 100)", &mut env).unwrap(), num(5050));
    run("(def! fib (fn* (n) (if (< n 2) n (+ (fib (- n 1)) (fib (- n 2))))))", &mut env).unwrap();
    assert_eq!(run("(fib 15)", &mut env).unwrap(), num(610));
}

#[test]
fn calls_that_make_no_function_give_their_scopes_up() {
    let mut env = Environment::new();
    run("(def! sum (fn* (n) (if (= n 0) 0 (+ n (sum (- n 1))))))", &mut env).unwrap();
    assert_eq!(env.scope_count(), 1);
    run("(sum 50)", &mut env).unwrap();
    assert_eq!(env.scope_count(), 1);
    run("(let* (a 1) (list a))", &mut env).unwrap();
    assert_eq!(env.scope_count(), 1);
    run("(def! k (let* (a 1) (fn* () a)))", &mut env).unwrap();
    assert_eq!(env.scope_count(), 2);
}

#[test]
fn nesting_deeper_than_the_limit_is_a_failure() {
    let mut env = Environment::with_depth(10);
    run("(def! sum (fn* (n) (if (= n 0) 0 (+ n (sum (- n 1))))))", &mut env).unwrap();
    assert_eq!(run("(sum 3)", &mut env).unwrap(), num(6));
    assert!(matches!(run("(sum 50)", &mut env), Err(EvalError::DepthExceeded)));
    assert_eq!(env.depth(), 10);
    assert_eq!(env.current(), 0);
    assert_eq!(run("(sum 3)", &mut env).unwrap(), num(6));
    let mut flat = Environment::with_depth(0);
    assert_eq!(run("(if true 1 2)", &mut flat).unwrap(), num(1));
    assert!(matches!(run("(+ 1 2)", &mut flat), Err(EvalError::DepthExceeded)));
}

#[test]
fn endless_recursion_ends_in_a_failure() {
    let mut env = Environment::new();
    run("(def! spin (fn* (n) (spin (+ n 1))))", &mut env).unwrap();
    assert!(matches!(run("(spin 0)", &mut env), Err(EvalError::DepthExceeded)));
    assert_eq!(run("(+ 1 1)", &mut env).unwrap(), num(2));
}

#[test]
fn what_is_no_function_cannot_be_applied() {
    assert!(matches!(failure("(1 2 3)"), EvalError::NotCallable));
    assert!(matches!(failure("(nil)"), EvalError::NotCallable));
    assert!(matches!(failure("(\"f\" 1)"), EvalError::NotCallable));
    assert!(matches!(failure("((list 1) 1)"), EvalError::NotCallable));
    assert!(matches!(failure("([1] 1)"), EvalError::NotCallable));
    assert!(matches!(failure("((do if) true 1 2)"), EvalError::NotCallable));
}

#[test]
fn library_names_cannot_be_shadowed() {
    let mut env = Environment::new();
    run("(def! + 5)", &mut env).unwrap();
    assert_eq!(run("(+ 1 2)", &mut env).unwrap(), num(3));
    assert_eq!(run("(let* (list 1) (list 2))", &mut env).unwrap(), MalType::List(vec![num(2)]));
    assert_eq!(run("((fn* (count) (count (list 1 2))) 7)", &mut env).unwrap(), num(2));
    assert_eq!(run("(def! if 1)", &mut env).unwrap(), num(1));
    assert_eq!(run("(if false 1 2)", &mut env).unwrap(), num(2));
}

#[test]
fn special_forms_get_their_operands_unevaluated() {
    let mut env = Environment::new();
    assert_eq!(run("(def! later (fn* () undefined-yet))", &mut env).is_ok(), true);
    assert_eq!(run("(if true 1 undefined)", &mut env).unwrap(), num(1));
}

#[test]
fn not_can_be_defined_in_the_language() {
    let mut env = Environment::new();
    run("(def! not (fn* (a) (if a false true)))", &mut env).unwrap();
    assert_eq!(run("(not false)", &mut env).unwrap(), MalType::Bool(true));
    assert_eq!(run("(not nil)", &mut env).unwrap(), MalType::Bool(true));
    assert_eq!(run("(not 0)", &mut env).unwrap(), MalType::Bool(false));
}
