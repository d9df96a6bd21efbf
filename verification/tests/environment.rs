use ruste::environment::{Environment, DEFAULT_DEPTH};
use ruste::expr::Expressions;
use ruste::library::add_functions;
use ruste::types::MalType;

fn num(n: i64) -> MalType {
    MalType::Number(n)
}

fn sym(name: &str) -> MalType {
    MalType::Symbol(name.to_string())
}

const LIBRARY_NAMES: [&str; 22] = [
    "def!", "let*", "do", "if", "fn*", "pr-str", "str", "prn", "println", "list", "list?",
    "empty?", "count", "+", "-", "*", "/", "=", "<", "<=", ">", ">=",
];

#[test]
fn a_table_binds_what_was_set_last() {
    let mut table = Expressions::new();
    assert_eq!(table.get("a"), None);
    table.set("a".to_string(), num(1));
    table.set("b".to_string(), num(2));
    assert_eq!(table.get("a"), Some(&num(1)));
    assert_eq!(table.get("b"), Some(&num(2)));
    table.set("a".to_string(), num(3));
    assert_eq!(table.get("a"), Some(&num(3)));
    assert_eq!(table.get("b"), Some(&num(2)));
    assert_eq!(table.get(""), None);
    assert_eq!(table.get("ab"), None);
}

#[test]
fn the_default_table_holds_the_library() {
    let table = Expressions::new_default();
    for name in LIBRARY_NAMES {
        assert!(table.get(name).is_some(), "{}", name);
    }
    assert_eq!(table.get("not"), None);
    assert_eq!(table.get("def"), None);
    assert_eq!(table.get("def!").unwrap().to_string(), "Bind: def! [0]");
    assert_eq!(table.get("list").unwrap().to_string(), "LibFn: list [()]");
    assert_eq!(table.get("+").unwrap().to_string(), "BinOp: + [2]");
    assert_eq!(table.get(">=").unwrap().to_string(), "BinOp: >= [2]");
}

#[test]
fn the_library_is_added_to_what_a_table_holds() {
    let mut table = Expressions::new();
    table.set("mine".to_string(), num(1));
    table.set("if".to_string(), num(2));
    add_functions(&mut table);
    assert_eq!(table.get("mine"), Some(&num(1)));
    assert_eq!(table.get("if").unwrap().to_string(), "Bind: if [0]");
}

#[test]
fn a_new_environment_is_one_empty_scope() {
    let env = Environment::new();
    assert_eq!(env.current(), 0);
    assert_eq!(env.scope_count(), 1);
    assert_eq!(env.depth(), DEFAULT_DEPTH);
    assert_eq!(env.next_id(), 0);
    assert_eq!(env.get("x"), None);
    for name in LIBRARY_NAMES {
        assert!(env.get(name).is_some(), "{}", name);
    }
}

#[test]
fn set_binds_in_the_innermost_scope_only() {
    let mut env = Environment::new();
    env.set(sym("x"), num(1));
    env.enter();
    assert_eq!(env.get("x"), Some(num(1)));
    env.set(sym("x"), num(2));
    env.set(sym("y"), num(3));
    assert_eq!(env.get("x"), Some(num(2)));
    assert_eq!(env.get("y"), Some(num(3)));
    env.exit();
    assert_eq!(env.get("x"), Some(num(1)));
    assert_eq!(env.get("y"), None);
}

#[test]
fn get_looks_at_the_library_first() {
    let mut env = Environment::new();
    env.set(sym("list"), num(1));
    assert_eq!(env.get("list").unwrap().to_string(), "LibFn: list [()]");
    env.enter();
    env.set(sym("+"), num(2));
    assert_eq!(env.get("+").unwrap().to_string(), "BinOp: + [2]");
}

#[test]
fn get_walks_from_the_innermost_scope_outward() {
    let mut env = Environment::new();
    env.set(sym("a"), num(1));
    env.enter();
    env.set(sym("b"), num(2));
    env.enter();
    env.set(sym("c"), num(3));
    assert_eq!(env.get("a"), Some(num(1)));
    assert_eq!(env.get("b"), Some(num(2)));
    assert_eq!(env.get("c"), Some(num(3)));
    assert_eq!(env.get("d"), None);
    assert_eq!(env.current(), 2);
}

#[test]
fn exit_at_the_root_changes_nothing() {
    let mut env = Environment::new();
    env.set(sym("a"), num(1));
    env.exit();
    env.exit();
    assert_eq!(env.current(), 0);
    assert_eq!(env.get("a"), Some(num(1)));
}

#[test]
fn a_derived_scope_lies_inside_the_scope_it_names() {
    let mut env = Environment::new();
    env.set(sym("a"), num(1));
    env.enter();
    env.set(sym("a"), num(2));
    let child = env.from(0, &MalType::List(vec![sym("p")]), &[num(9)]).unwrap();
    assert_eq!(env.current(), 1);
    assert_eq!(env.get("p"), None);
    env.focus(child);
    assert_eq!(env.get("p"), Some(num(9)));
    assert_eq!(env.get("a"), Some(num(1)));
    env.exit();
    assert_eq!(env.current(), 0);
}

#[test]
fn scopes_are_given_up_only_while_no_function_was_made() {
    let mut env = Environment::new();
    let id = env.next_id();
    env.enter();
    env.enter();
    env.focus(0);
    assert_eq!(env.scope_count(), 3);
    env.release(1, id);
    assert_eq!(env.scope_count(), 1);
    env.enter();
    assert_eq!(env.fresh_id(), 0);
    assert_eq!(env.fresh_id(), 1);
    env.focus(0);
    env.release(1, id);
    assert_eq!(env.scope_count(), 2);
    env.release(5, env.next_id());
    assert_eq!(env.scope_count(), 2);
}

#[test]
fn printed_lines_are_handed_over_once() {
    let mut env = Environment::new();
    env.print("one".to_string());
    env.print("two".to_string());
    assert_eq!(env.take_output(), vec!["one", "two"]);
    assert!(env.take_output().is_empty());
}

#[test]
fn the_depth_can_be_set() {
    let mut env = Environment::with_depth(3);
    assert_eq!(env.depth(), 3);
    env.set_depth(7);
    assert_eq!(env.depth(), 7);
}
