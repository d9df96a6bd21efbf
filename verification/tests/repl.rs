use ruste::console::Console;
use ruste::environment::Environment;
use ruste::error::{EvalError, ParseError};
use ruste::repl::{mal_define_fn, rep};
use ruste::types::MalType;

#[test]
fn accept_strips_the_line_break() {
    assert_eq!(Console::accept("(+ 1 2)\n"), Some("(+ 1 2)".to_string()));
    assert_eq!(Console::accept("(+ 1 2)\r\n"), Some("(+ 1 2)".to_string()));
    assert_eq!(Console::accept("(+ 1 2)"), Some("(+ 1 2)".to_string()));
    assert_eq!(Console::accept("a\n\n"), Some("a\n".to_string()));
    assert_eq!(Console::accept("a\r"), Some("a\r".to_string()));
    assert_eq!(Console::accept(" \n"), Some(" ".to_string()));
}

#[test]
fn accept_takes_a_blank_line_as_a_turn_without_input() {
    assert_eq!(Console::accept("\n"), Some(String::new()));
    assert_eq!(Console::accept("\r\n"), Some(String::new()));
    assert_eq!(Console::accept(""), Some(String::new()));
    assert_eq!(Console::accept("  \t\n"), Some("  \t".to_string()));
    let mut env = Environment::new();
    assert!(rep(&Console::accept("\n").unwrap(), &mut env).is_empty());
    assert!(rep(&Console::accept("  \t\n").unwrap(), &mut env).is_empty());
    assert_eq!(rep(&Console::accept("(+ 1 2)\n").unwrap(), &mut env), vec!["3"]);
}

#[test]
fn accept_ends_on_the_end_mark() {
    assert_eq!(Console::accept("\u{4}"), None);
    assert_eq!(Console::accept("\u{4}\n"), None);
    assert_eq!(Console::accept("\u{4}\r\n"), None);
    assert_eq!(Console::accept("a\u{4}\n"), Some("a\u{4}".to_string()));
    assert_eq!(Console::accept("\u{4}\u{4}\n"), Some("\u{4}\u{4}".to_string()));
}

#[test]
fn prompt_is_the_same_each_turn() {
    assert_eq!(Console::prompt(), "user> ");
}

#[test]
fn rep_answers_each_form_in_readable_form() {
    let mut env = Environment::new();
    assert_eq!(rep("(+ 1 2)", &mut env), vec!["3"]);
    assert_eq!(rep("1 (list 2 3) [4]", &mut env), vec!["1", "(2 3)", "[4]"]);
    assert_eq!(rep("(str 1 2)", &mut env), vec!["\"12\""]);
    assert_eq!(rep("\"a\"", &mut env), vec!["\"a\""]);
    assert_eq!(rep(r#""a\"b\\c\nd""#, &mut env), vec![r#""a\"b\\c\nd""#]);
    assert_eq!(rep("(str \"a\" \"b\")", &mut env), vec!["\"ab\""]);
    assert_eq!(rep("(println \"a\" \"b\")", &mut env), vec!["a b", "nil"]);
    assert_eq!(rep("", &mut env), Vec::<String>::new());
    assert_eq!(rep("  ; nothing here", &mut env), Vec::<String>::new());
}

#[test]
fn rep_keeps_definitions_between_turns() {
    let mut env = Environment::new();
    assert_eq!(rep("(def! x 5)", &mut env), vec!["5"]);
    assert_eq!(rep("(def! x 5)", &mut env), vec!["5"]);
    assert_eq!(rep("x", &mut env), vec!["5"]);
    assert_eq!(rep("(def! inc (fn* (n) (+ n 1)))", &mut env).len(), 1);
    assert_eq!(rep("(inc x)", &mut env), vec!["6"]);
}

#[test]
fn rep_reports_a_failure_to_read() {
    let mut env = Environment::new();
    assert_eq!(rep("(1 2", &mut env), vec!["Error: unexpected end of input"]);
    assert_eq!(rep("(1 2]", &mut env), vec!["Error: unbalanced collection"]);
    assert_eq!(rep(")", &mut env), vec!["Error: unbalanced collection"]);
    assert_eq!(rep("\"abc", &mut env), vec!["Error: unterminated string"]);
    assert_eq!(rep("{1}", &mut env), vec!["Error: unbalanced collection"]);
    assert_eq!(rep("99999999999999999999", &mut env), vec!["Error: number out of range"]);
    assert_eq!(rep("(def! x 1) (", &mut env), vec!["Error: unexpected end of input"]);
    assert_eq!(env.get("x"), None);
}

#[test]
fn rep_reports_a_failure_to_evaluate_and_goes_on_next_turn() {
    let mut env = Environment::new();
    assert_eq!(rep("foo", &mut env), vec!["Error: foo not found"]);
    assert_eq!(rep("(/ 1 0)", &mut env), vec!["Error: division by zero"]);
    assert_eq!(rep("(1 2)", &mut env), vec!["Error: not callable"]);
    assert_eq!(rep("(if)", &mut env), vec!["Error: wrong number of operands"]);
    assert_eq!(
        rep("(+ 1 (list 2 nil))", &mut env),
        vec!["Error: +: unexpected operands: 1 (2 nil)"]
    );
    assert_eq!(rep("(+ 1 2)", &mut env), vec!["3"]);
}

#[test]
fn rep_ends_the_turn_at_the_first_failure() {
    let mut env = Environment::new();
    assert_eq!(
        rep("(def! a 1) nope (def! b 2)", &mut env),
        vec!["1", "Error: nope not found"]
    );
    assert_eq!(env.get("a"), Some(MalType::Number(1)));
    assert_eq!(env.get("b"), None);
}

#[test]
fn rep_shows_what_was_printed_before_the_value() {
    let mut env = Environment::new();
    assert_eq!(rep("(prn 1 2)", &mut env), vec!["1", "nil"]);
    assert_eq!(rep("(println 1 (list 2 3))", &mut env), vec!["1 (2 3)", "nil"]);
    assert_eq!(rep("(do (prn 1) (prn) (/ 1 0))", &mut env), vec!["1", "", "Error: division by zero"]);
    assert_eq!(rep("(+ 1 1)", &mut env), vec!["2"]);
}

#[test]
fn rep_reports_nesting_that_is_too_deep() {
    let mut env = Environment::with_depth(5);
    rep("(def! spin (fn* (n) (spin n)))", &mut env);
    assert_eq!(rep("(spin 1)", &mut env), vec!["Error: applications nested too deep"]);
}

#[test]
fn failures_have_words() {
    assert_eq!(ParseError::UnexpectedEof.message(), "unexpected end of input");
    assert_eq!(ParseError::UnbalancedCollection.message(), "unbalanced collection");
    assert_eq!(ParseError::UnterminatedString.message(), "unterminated string");
    assert_eq!(ParseError::NumberParseError.message(), "number out of range");
    assert_eq!(EvalError::SymbolNotFound("x".to_string()).message(), "x not found");
    assert_eq!(EvalError::NotCallable.message(), "not callable");
    assert_eq!(EvalError::ArityMismatch.message(), "wrong number of operands");
    assert_eq!(EvalError::DivisionByZero.message(), "division by zero");
    assert_eq!(EvalError::DepthExceeded.message(), "applications nested too deep");
    assert_eq!(
        EvalError::TypeMismatch(
            "count".to_string(),
            vec![MalType::String("a\nb".to_string()), MalType::Nil]
        )
        .message(),
        "count: unexpected operands: \"a\\nb\" nil"
    );
}

#[test]
fn not_is_defined_at_the_start() {
    let mut env = Environment::new();
    assert!(mal_define_fn(&mut env).is_ok());
    assert_eq!(rep("(not true)", &mut env), vec!["false"]);
    assert_eq!(rep("(not nil)", &mut env), vec!["true"]);
    assert_eq!(rep("(not (list))", &mut env), vec!["false"]);
}
