use ruste::reader::{Lexer, Parser};
use ruste::types::{MalCollection, MalExpr, MalFn, MalLibFn, MalType, Native};

fn text(s: &str) -> MalType {
    MalType::String(s.to_string())
}

#[test]
fn numbers_render_in_decimal() {
    assert_eq!(MalType::Number(0).to_string(), "0");
    assert_eq!(MalType::Number(7).to_string(), "7");
    assert_eq!(MalType::Number(1203).to_string(), "1203");
    assert_eq!(MalType::Number(-45).to_string(), "-45");
    assert_eq!(MalType::Number(i64::MAX).to_string(), "9223372036854775807");
    assert_eq!(MalType::Number(i64::MIN).to_string(), "-9223372036854775808");
    assert_eq!(MalType::Number(-45).to_readable(), "-45");
}

#[test]
fn words_render_as_themselves() {
    assert_eq!(MalType::Bool(true).to_string(), "true");
    assert_eq!(MalType::Bool(false).to_string(), "false");
    assert_eq!(MalType::Nil.to_string(), "nil");
    assert_eq!(MalType::Symbol("abc".to_string()).to_readable(), "abc");
}

#[test]
fn strings_render_raw_for_display() {
    assert_eq!(text("a\"b\\c\nd").to_string(), "a\"b\\c\nd");
    assert_eq!(text("").to_string(), "");
}

#[test]
fn strings_render_quoted_and_escaped_when_readable() {
    assert_eq!(text("abc").to_readable(), "\"abc\"");
    assert_eq!(text("").to_readable(), "\"\"");
    assert_eq!(text("a\"b").to_readable(), "\"a\\\"b\"");
    assert_eq!(text("a\\b").to_readable(), "\"a\\\\b\"");
    assert_eq!(text("a\nb").to_readable(), "\"a\\nb\"");
    assert_eq!(text("tab\there").to_readable(), "\"tab\there\"");
}

#[test]
fn collections_render_with_their_delimiters() {
    let items = vec![MalType::Number(1), text("x"), MalType::Nil];
    assert_eq!(MalType::List(items.clone()).to_string(), "(1 x nil)");
    assert_eq!(MalType::Vector(items.clone()).to_string(), "[1 x nil]");
    assert_eq!(MalType::HashMap(items.clone()).to_string(), "{1 x nil}");
    assert_eq!(MalType::List(items.clone()).to_readable(), "(1 \"x\" nil)");
    assert_eq!(MalType::Vector(items.clone()).to_readable(), "[1 \"x\" nil]");
    assert_eq!(MalType::HashMap(items).to_readable(), "{1 \"x\" nil}");
}

#[test]
fn empty_and_nested_collections_render() {
    assert_eq!(MalType::List(vec![]).to_string(), "()");
    assert_eq!(MalType::Vector(vec![]).to_readable(), "[]");
    assert_eq!(MalType::HashMap(vec![]).to_readable(), "{}");
    let nested = MalType::List(vec![
        MalType::Vector(vec![MalType::Number(1), MalType::List(vec![])]),
        MalType::List(vec![text("s")]),
    ]);
    assert_eq!(nested.to_string(), "([1 ()] (s))");
    assert_eq!(nested.to_readable(), "([1 ()] (\"s\"))");
}

#[test]
fn functions_render_as_a_tag_with_their_kind() {
    let bind = MalType::Bind(MalExpr { symbol: "def!".to_string(), arguments: 0, inner: Native::Def });
    assert_eq!(bind.to_string(), "Bind: def! [0]");
    let op = MalType::BinOp(MalExpr { symbol: "+".to_string(), arguments: 2, inner: Native::Add });
    assert_eq!(op.to_readable(), "BinOp: + [2]");
    let lib = MalType::LibFn(MalLibFn {
        expr: Box::new(MalExpr { symbol: "list".to_string(), arguments: 0, inner: Native::List }),
        captured_env: Box::new(MalType::List(vec![])),
    });
    assert_eq!(lib.to_string(), "LibFn: list [()]");
    let closure = MalType::Fn(MalFn {
        expr: Box::new(MalType::List(vec![
            MalType::Symbol("+".to_string()),
            MalType::Symbol("a".to_string()),
            text("s"),
        ])),
        captured_args: Box::new(MalType::List(vec![MalType::Symbol("a".to_string())])),
        captured_env: 0,
        id: 3,
    });
    assert_eq!(closure.to_string(), "Fn: (+ a s) [(a)]");
    assert_eq!(closure.to_readable(), "Fn: (+ a s) [(a)]");
}

#[test]
fn readable_text_of_literal_data_reads_back() {
    let values = vec![
        MalType::Number(0),
        MalType::Number(-9),
        MalType::Number(i64::MIN),
        MalType::Number(i64::MAX),
        MalType::Bool(true),
        MalType::Bool(false),
        MalType::Nil,
        text(""),
        text("abc"),
        text("a\"\\\n"),
        text("\\n"),
        text("\\\\"),
        text("\"\""),
        text("a b ; (c) [d] {e}"),
        text("true"),
        text("tab\there \\t"),
        MalType::List(vec![]),
        MalType::Vector(vec![]),
        MalType::List(vec![
            MalType::Number(1),
            MalType::Vector(vec![MalType::Nil, MalType::List(vec![MalType::Bool(true)])]),
            text("x) \"y"),
            MalType::Number(-2),
        ]),
        MalType::Vector(vec![text(""), text("\n"), MalType::List(vec![text("\\")])]),
    ];
    for value in values {
        let shown = value.to_readable();
        let read = Parser::new(Lexer::tokenize(&shown)).parse().unwrap();
        assert_eq!(read, vec![value], "on {}", shown);
    }
}

#[test]
fn readable_text_of_a_string_with_escapes_reads_back() {
    let value = text("a\"\\\n");
    let shown = value.to_readable();
    assert_eq!(shown, "\"a\\\"\\\\\\n\"");
    assert_eq!(shown.chars().count(), 9);
    let read = Parser::new(Lexer::tokenize(&shown)).parse().unwrap();
    assert_eq!(read, vec![value]);
}

#[test]
fn collection_kinds_know_their_delimiters() {
    assert_eq!(MalCollection::get("(").start(), "(");
    assert_eq!(MalCollection::get("(").end(), ")");
    assert_eq!(MalCollection::get("[").start(), "[");
    assert_eq!(MalCollection::get("[").end(), "]");
    assert_eq!(MalCollection::get("{").start(), "{");
    assert_eq!(MalCollection::get("{").end(), "}");
    assert_eq!(MalCollection::List.into(vec![MalType::Nil]), MalType::List(vec![MalType::Nil]));
    assert_eq!(MalCollection::Vector.into(vec![]), MalType::Vector(vec![]));
    assert_eq!(MalCollection::HashMap.into(vec![]), MalType::HashMap(vec![]));
}

#[test]
fn equality_is_by_kind_and_content() {
    let one = || MalType::Number(1);
    assert_eq!(MalType::List(vec![one()]), MalType::List(vec![one()]));
    assert_ne!(MalType::List(vec![one()]), MalType::Vector(vec![one()]));
    assert_ne!(MalType::List(vec![one()]), MalType::List(vec![one(), one()]));
    assert_ne!(MalType::List(vec![one()]), MalType::List(vec![MalType::Number(2)]));
    assert_ne!(text("a"), MalType::Symbol("a".to_string()));
    assert_eq!(text("a"), text("a"));
    assert_ne!(MalType::Nil, MalType::Bool(false));
    assert_eq!(MalType::Nil, MalType::Nil);
    let op = |s: &str, f: Native| MalType::BinOp(MalExpr { symbol: s.to_string(), arguments: 2, inner: f });
    assert_eq!(op("+", Native::Add), op("-", Native::Sub));
    let closure = |id: u64| {
        MalType::Fn(MalFn {
            expr: Box::new(MalType::Nil),
            captured_args: Box::new(MalType::List(vec![])),
            captured_env: 0,
            id,
        })
    };
    assert_eq!(closure(1), closure(1));
    assert_ne!(closure(1), closure(2));
}

#[test]
fn a_clone_is_equal_and_renders_alike() {
    let closure = MalType::Fn(MalFn {
        expr: Box::new(MalType::List(vec![MalType::Symbol("a".to_string())])),
        captured_args: Box::new(MalType::List(vec![MalType::Symbol("a".to_string())])),
        captured_env: 2,
        id: 9,
    });
    let values = vec![
        MalType::Number(-3),
        text("a\"b"),
        MalType::Symbol("s".to_string()),
        MalType::HashMap(vec![text("k"), MalType::Vector(vec![MalType::Nil, MalType::Bool(true)])]),
        closure,
        MalType::BinOp(MalExpr { symbol: "*".to_string(), arguments: 2, inner: Native::Mul }),
    ];
    for value in values {
        let copy = value.clone();
        assert_eq!(copy, value);
        assert_eq!(copy.to_readable(), value.to_readable());
        assert_eq!(format!("{:?}", copy), format!("{:?}", value));
    }
}

#[test]
fn arithmetic_on_numbers() {
    let n = |x: i64| MalType::Number(x);
    assert_eq!(n(2).add(&n(3)), n(5));
    assert_eq!(n(2).sub(&n(3)), n(-1));
    assert_eq!(n(-4).mul(&n(3)), n(-12));
    assert_eq!(n(-7).div(&n(2)), n(-3));
    assert_eq!(n(i64::MAX).add(&n(1)), n(i64::MIN));
    assert_eq!(n(i64::MIN).sub(&n(1)), n(i64::MAX));
    assert_eq!(n(i64::MIN).mul(&n(-1)), n(i64::MIN));
    assert_eq!(n(i64::MIN).div(&n(-1)), n(i64::MIN));
}

#[test]
fn symbols_are_known_by_their_name() {
    assert!(MalType::Symbol("&".to_string()).is_symbol("&"));
    assert!(!MalType::Symbol("&&".to_string()).is_symbol("&"));
    assert!(!text("&").is_symbol("&"));
}
