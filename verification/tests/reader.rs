use regex::Regex;
use ruste::error::ParseError;
use ruste::reader::{Lexer, Parser};
use ruste::types::MalType;

fn tokens(text: &str) -> Vec<String> {
    let mut lexer = Lexer::tokenize(text);
    let mut found = Vec::new();
    while let Some(token) = lexer.next() {
        found.push(token.clone());
    }
    found
}

fn read(text: &str) -> Result<Vec<MalType>, ParseError> {
    Parser::new(Lexer::tokenize(text)).parse()
}

fn pattern_tokens(text: &str) -> Vec<String> {
    let pattern = Regex::new(
        r###"[\s,]*(~@|[\[\]{}()'`~^@]|"(?:\\.|[^\\"])*"?|;.*|[^\s\[\]{}('"`,;)]+)"###,
    )
    .unwrap();
    let mut found = Vec::new();
    for capture in pattern.captures_iter(text) {
        if let Some(token) = capture.get(1) {
            let token = token.as_str();
            if !token.is_empty() && !token.starts_with(';') {
                found.push(token.to_string());
            }
        }
    }
    found
}

fn sym(name: &str) -> MalType {
    MalType::Symbol(name.to_string())
}

#[test]
fn tokenize_splits_delimiters_and_atoms() {
    assert_eq!(tokens("(+ 1 22)"), vec!["(", "+", "1", "22", ")"]);
    assert_eq!(tokens("[a,b , c]"), vec!["[", "a", "b", "c", "]"]);
    assert_eq!(tokens("{\"k\" v}"), vec!["{", "\"k\"", "v", "}"]);
}

#[test]
fn tokenize_of_nothing_is_empty() {
    assert!(tokens("").is_empty());
    assert!(tokens("  , \t\n").is_empty());
}

#[test]
fn tokenize_knows_the_splice_token() {
    assert_eq!(tokens("~@x ~y"), vec!["~@", "x", "~", "y"]);
    assert_eq!(tokens("'a `b ^c @d"), vec!["'", "a", "`", "b", "^", "c", "@", "d"]);
}

#[test]
fn tokenize_keeps_special_characters_inside_a_run() {
    assert_eq!(tokens("a~b^c@d"), vec!["a~b^c@d"]);
}

#[test]
fn tokenize_drops_comments() {
    assert_eq!(tokens("1 ; two (three\n4"), vec!["1", "4"]);
    assert_eq!(tokens("; only a comment"), Vec::<String>::new());
}

#[test]
fn tokenize_reads_strings_with_escapes() {
    assert_eq!(tokens(r#""a \" b" c"#), vec![r#""a \" b""#, "c"]);
    assert_eq!(tokens(r#""open"#), vec![r#""open"#]);
    assert_eq!(tokens("\"a\nb\""), vec!["\"a\nb\""]);
}

#[test]
fn tokenize_ends_a_string_at_a_backslash_with_nothing_to_escape() {
    assert_eq!(tokens("\"ab\\"), vec!["\"ab", "\\"]);
    assert_eq!(tokens("\"ab\\\ncd\""), vec!["\"ab", "\\", "cd", "\""]);
}

#[test]
fn tokenize_agrees_with_the_token_pattern() {
    let samples = [
        "",
        "   ",
        "(+ 1 2)",
        "( ( (fn* (a) (fn* (b) (+ a b))) 5) 7)",
        "[1,2,,3]",
        "{:a 1 \"b\" 2}",
        "~@(a b) ~c 'd `e ^f @g",
        "a~b ~@ ~ @",
        "\"plain\" \"with \\\" quote\" \"with \\\\ slash\"",
        "\"unterminated",
        "\"ends with backslash\\",
        "\"backslash newline\\\nrest\"",
        "\"two\nlines\"",
        "x ; comment \" ( [ \n y",
        ";; all comment",
        "a;b",
        "a\"b\"c",
        "-12 +3 007 9223372036854775808",
        "\u{a0}a\u{2003}b\u{3000}c\u{85}d\u{1680}e\u{2028}f\u{202f}g\u{205f}h",
        "\u{200b}zero-width \u{feff}bom",
        "tab\there\rcr\u{b}vt\u{c}ff",
        "(def! not (fn* (a) (if a false true)))",
        "\\ \\\\ \\n",
        "\"\" \"\"\"\"",
        ")]}([{",
        "caf\u{e9} \u{65e5}\u{672c}\u{8a9e} \u{1f600}",
    ];
    for sample in samples {
        assert_eq!(tokens(sample), pattern_tokens(sample), "on {:?}", sample);
    }
}

#[test]
fn tokenize_agrees_with_the_token_pattern_on_every_short_text() {
    let alphabet = [' ', ',', '\n', '(', ']', '"', '\\', ';', '~', '@', 'a', '1', '\u{a0}'];
    let pattern = Regex::new(
        r###"[\s,]*(~@|[\[\]{}()'`~^@]|"(?:\\.|[^\\"])*"?|;.*|[^\s\[\]{}('"`,;)]+)"###,
    )
    .unwrap();
    let mut texts = vec![String::new()];
    let mut checked = 0;
    for _ in 0..4 {
        let mut longer = Vec::new();
        for text in &texts {
            for c in alphabet {
                let mut next = text.clone();
                next.push(c);
                longer.push(next);
            }
        }
        for text in &longer {
            let mut wanted = Vec::new();
            for capture in pattern.captures_iter(text) {
                let token = capture.get(1).unwrap().as_str();
                if !token.starts_with(';') {
                    wanted.push(token.to_string());
                }
            }
            assert_eq!(tokens(text), wanted, "on {:?}", text);
            checked += 1;
        }
        texts = longer;
    }
    assert_eq!(checked, 13 + 13 * 13 + 13 * 13 * 13 + 13 * 13 * 13 * 13);
}

#[test]
fn lexer_cursor_moves_forward_only() {
    let mut lexer = Lexer::tokenize("a b");
    assert_eq!(lexer.peek().map(|t| t.as_str()), Some("a"));
    assert_eq!(lexer.peek().map(|t| t.as_str()), Some("a"));
    assert_eq!(lexer.next().map(|t| t.as_str()), Some("a"));
    assert_eq!(lexer.peek().map(|t| t.as_str()), Some("b"));
    assert_eq!(lexer.next().map(|t| t.as_str()), Some("b"));
    assert_eq!(lexer.peek(), None);
    assert_eq!(lexer.next(), None);
    assert_eq!(lexer.next(), None);
}

#[test]
fn parse_reads_the_literal_words() {
    assert_eq!(
        read("true false nil").unwrap(),
        vec![MalType::Bool(true), MalType::Bool(false), MalType::Nil]
    );
}

#[test]
fn parse_reads_integers() {
    assert_eq!(read("0").unwrap(), vec![MalType::Number(0)]);
    assert_eq!(read("007").unwrap(), vec![MalType::Number(7)]);
    assert_eq!(read("-12").unwrap(), vec![MalType::Number(-12)]);
    assert_eq!(read("-0").unwrap(), vec![MalType::Number(0)]);
    assert_eq!(read("9223372036854775807").unwrap(), vec![MalType::Number(i64::MAX)]);
    assert_eq!(read("-9223372036854775808").unwrap(), vec![MalType::Number(i64::MIN)]);
}

#[test]
fn parse_rejects_integers_that_do_not_fit() {
    assert_eq!(read("9223372036854775808"), Err(ParseError::NumberParseError));
    assert_eq!(read("-9223372036854775809"), Err(ParseError::NumberParseError));
    assert_eq!(read("99999999999999999999999999"), Err(ParseError::NumberParseError));
    assert_eq!(read("(1 18446744073709551616)"), Err(ParseError::NumberParseError));
}

#[test]
fn parse_reads_other_tokens_as_symbols() {
    assert_eq!(read("-").unwrap(), vec![sym("-")]);
    assert_eq!(read("--1").unwrap(), vec![sym("--1")]);
    assert_eq!(read("+1").unwrap(), vec![sym("+1")]);
    assert_eq!(read("1a").unwrap(), vec![sym("1a")]);
    assert_eq!(read("def!").unwrap(), vec![sym("def!")]);
    assert_eq!(read("'").unwrap(), vec![sym("'")]);
    assert_eq!(read("~@").unwrap(), vec![sym("~@")]);
}

#[test]
fn parse_takes_a_string_without_its_quotes() {
    assert_eq!(read(r#""abc""#).unwrap(), vec![MalType::String("abc".to_string())]);
    assert_eq!(read(r#""""#).unwrap(), vec![MalType::String(String::new())]);
    assert_eq!(read(r#""a b, (c)""#).unwrap(), vec![MalType::String("a b, (c)".to_string())]);
    assert_eq!(read("\"two\nlines\"").unwrap(), vec![MalType::String("two\nlines".to_string())]);
}

#[test]
fn parse_undoes_the_escapes_of_a_string() {
    assert_eq!(read(r#""a\"b""#).unwrap(), vec![MalType::String("a\"b".to_string())]);
    assert_eq!(read(r#""a\\b""#).unwrap(), vec![MalType::String("a\\b".to_string())]);
    assert_eq!(read(r#""a\nb""#).unwrap(), vec![MalType::String("a\nb".to_string())]);
    assert_eq!(read(r#""\\n""#).unwrap(), vec![MalType::String("\\n".to_string())]);
    assert_eq!(read(r#""\\\"""#).unwrap(), vec![MalType::String("\\\"".to_string())]);
    assert_eq!(
        read(r#""a\"\\\n""#).unwrap(),
        vec![MalType::String("a\"\\\n".to_string())]
    );
}

#[test]
fn parse_leaves_a_backslash_that_escapes_nothing() {
    assert_eq!(read(r#""a\tb""#).unwrap(), vec![MalType::String("a\\tb".to_string())]);
    assert_eq!(read(r#""abc\""#).unwrap(), vec![MalType::String("abc\\".to_string())]);
}

#[test]
fn parse_rejects_an_unterminated_string() {
    assert_eq!(read("\""), Err(ParseError::UnterminatedString));
    assert_eq!(read("\"abc"), Err(ParseError::UnterminatedString));
    assert_eq!(read("(1 \"abc)"), Err(ParseError::UnterminatedString));
}

#[test]
fn parse_reads_nested_collections() {
    assert_eq!(
        read("(1 [2 {a 3}] ())").unwrap(),
        vec![MalType::List(vec![
            MalType::Number(1),
            MalType::Vector(vec![
                MalType::Number(2),
                MalType::HashMap(vec![sym("a"), MalType::Number(3)]),
            ]),
            MalType::List(vec![]),
        ])]
    );
}

#[test]
fn parse_rejects_a_map_with_a_key_that_lacks_its_value() {
    assert_eq!(read("{1}"), Err(ParseError::UnbalancedCollection));
    assert_eq!(read("{a 1 b}"), Err(ParseError::UnbalancedCollection));
    assert_eq!(read("[1 {a}]"), Err(ParseError::UnbalancedCollection));
    assert_eq!(read("{a {b}}"), Err(ParseError::UnbalancedCollection));
    assert_eq!(read("(1 {a 2 3} 4)"), Err(ParseError::UnbalancedCollection));
    assert_eq!(read("{a"), Err(ParseError::UnexpectedEof));
}

#[test]
fn parse_reads_maps_of_pairs() {
    assert_eq!(read("{}").unwrap(), vec![MalType::HashMap(vec![])]);
    assert_eq!(
        read("{a 1 \"b\" [2]}").unwrap(),
        vec![MalType::HashMap(vec![
            sym("a"),
            MalType::Number(1),
            MalType::String("b".to_string()),
            MalType::Vector(vec![MalType::Number(2)]),
        ])]
    );
    assert_eq!(
        read("{a {b 1}}").unwrap(),
        vec![MalType::HashMap(vec![
            sym("a"),
            MalType::HashMap(vec![sym("b"), MalType::Number(1)]),
        ])]
    );
    assert_eq!(
        read("([1 2 3] (4))").unwrap(),
        vec![MalType::List(vec![
            MalType::Vector(vec![MalType::Number(1), MalType::Number(2), MalType::Number(3)]),
            MalType::List(vec![MalType::Number(4)]),
        ])]
    );
}

#[test]
fn parse_reads_every_top_level_form() {
    assert_eq!(
        read("1 (2) x").unwrap(),
        vec![MalType::Number(1), MalType::List(vec![MalType::Number(2)]), sym("x")]
    );
    assert_eq!(read("").unwrap(), Vec::<MalType>::new());
}

#[test]
fn parse_rejects_an_open_collection() {
    assert_eq!(read("(1 2"), Err(ParseError::UnexpectedEof));
    assert_eq!(read("["), Err(ParseError::UnexpectedEof));
    assert_eq!(read("{a (b"), Err(ParseError::UnexpectedEof));
}

#[test]
fn parse_rejects_a_stray_closing_delimiter() {
    assert_eq!(read(")"), Err(ParseError::UnbalancedCollection));
    assert_eq!(read("1 ]"), Err(ParseError::UnbalancedCollection));
    assert_eq!(read("(1) }"), Err(ParseError::UnbalancedCollection));
}

#[test]
fn parse_rejects_a_closing_delimiter_of_another_kind() {
    assert_eq!(read("(1 2]"), Err(ParseError::UnbalancedCollection));
    assert_eq!(read("[1 2)"), Err(ParseError::UnbalancedCollection));
    assert_eq!(read("{a 1)"), Err(ParseError::UnbalancedCollection));
    assert_eq!(read("([)]"), Err(ParseError::UnbalancedCollection));
}

#[test]
fn parse_starts_at_the_cursor() {
    let mut lexer = Lexer::tokenize("1 2 3");
    lexer.next();
    let mut parser = Parser::new(lexer);
    assert_eq!(parser.parse().unwrap(), vec![MalType::Number(2), MalType::Number(3)]);
    assert_eq!(parser.parse().unwrap(), Vec::<MalType>::new());
}
