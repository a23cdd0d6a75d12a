use interpolate::emit::{emit, expression_sources};
use interpolate::invoke::compile;
use interpolate::rewrite::{fstring, process_stream};
use interpolate::tokens::{Delim, Token};
use interpolate::Rules;

fn rw_ident(s: &str) -> Token {
    Token::Ident(s.to_string())
}

fn rw_lit(s: &str) -> Token {
    Token::Literal(s.to_string())
}

fn rw_punct(c: char) -> Token {
    Token::Punct(c)
}

/// Runs the invocation pipeline on one literal token under the brace
/// dialect, resolving each expression against the given bindings.
fn rw_compile_literal(lit: &Token, bindings: &[(&str, &str)]) -> String {
    let args = vec![match lit {
        Token::Literal(s) => Token::Literal(s.clone()),
        _ => panic!("expected a literal token"),
    }];
    let rules = Rules::curly();
    let segments = compile(&rules, &args).expect("compilation failed");
    let values: Vec<String> = expression_sources(&segments)
        .iter()
        .map(|source| {
            bindings
                .iter()
                .find(|(name, _)| name == source)
                .map(|(_, value)| value.to_string())
                .expect("unbound expression")
        })
        .collect();
    emit(&segments, &values)
}

#[test]
fn no_args() {
    let stream = vec![rw_ident("f"), rw_lit("\"Hello\"")];
    let out = fstring(&Vec::new(), &stream);
    let expected = vec![
        rw_ident("format"),
        rw_punct('!'),
        Token::Group(Delim::Parenthesis, vec![rw_lit("\"Hello\"")]),
    ];
    assert_eq!(expected, out);
    let compiled = match &out[2] {
        Token::Group(_, inner) => rw_compile_literal(&inner[0], &[]),
        _ => panic!("expected a group"),
    };
    assert_eq!("Hello", compiled);
}

#[test]
fn interpolation() {
    let name = "Elsa";
    let stream = vec![rw_ident("f"), rw_lit("\"Hello, {name}.\"")];
    let out = fstring(&Vec::new(), &stream);
    let expected = vec![
        rw_ident("format"),
        rw_punct('!'),
        Token::Group(Delim::Parenthesis, vec![rw_lit("\"Hello, {name}.\"")]),
    ];
    assert_eq!(expected, out);
    let compiled = match &out[2] {
        Token::Group(_, inner) => rw_compile_literal(&inner[0], &[("name", name)]),
        _ => panic!("expected a group"),
    };
    assert_eq!("Hello, Elsa.", compiled);
}

#[test]
fn ident_collision() {
    // the statements `let msg = f ( ) ;  let f = "hello" ;` hold an `f`
    // before a group and an `f` bound as a plain variable: neither may be
    // rewritten, and the literal after `=` must stay where it is
    let stream = vec![
        rw_ident("let"),
        rw_ident("msg"),
        rw_punct('='),
        rw_ident("f"),
        Token::Group(Delim::Parenthesis, Vec::new()),
        rw_punct(';'),
        rw_ident("let"),
        rw_ident("f"),
        rw_punct('='),
        rw_lit("\"hello\""),
        rw_punct(';'),
    ];
    let expected = vec![
        rw_ident("let"),
        rw_ident("msg"),
        rw_punct('='),
        rw_ident("f"),
        Token::Group(Delim::Parenthesis, Vec::new()),
        rw_punct(';'),
        rw_ident("let"),
        rw_ident("f"),
        rw_punct('='),
        rw_lit("\"hello\""),
        rw_punct(';'),
    ];
    let out = process_stream(&stream);
    assert_eq!(expected, out);
    assert_eq!(rw_ident("f"), out[3]);
}

#[test]
fn trailing_trigger_unchanged() {
    let stream = vec![rw_ident("x"), rw_punct('+'), rw_ident("f")];
    let expected = vec![rw_ident("x"), rw_punct('+'), rw_ident("f")];
    assert_eq!(expected, process_stream(&stream));
}

#[test]
fn lone_trigger_unchanged() {
    let stream = vec![rw_ident("f")];
    let expected = vec![rw_ident("f")];
    assert_eq!(expected, process_stream(&stream));
}

#[test]
fn nested_group_rewritten() {
    let stream = vec![Token::Group(
        Delim::Brace,
        vec![rw_ident("f"), rw_lit("\"deep\"")],
    )];
    let expected = vec![Token::Group(
        Delim::Brace,
        vec![
            rw_ident("format"),
            rw_punct('!'),
            Token::Group(Delim::Parenthesis, vec![rw_lit("\"deep\"")]),
        ],
    )];
    assert_eq!(expected, process_stream(&stream));
}

#[test]
fn literal_without_trigger_unchanged() {
    let stream = vec![rw_ident("g"), rw_lit("\"plain\"")];
    let expected = vec![rw_ident("g"), rw_lit("\"plain\"")];
    assert_eq!(expected, process_stream(&stream));
}

#[test]
fn consecutive_triggers() {
    // the first `f` is followed by an identifier, not a literal: only the
    // second pair is rewritten
    let stream = vec![rw_ident("f"), rw_ident("f"), rw_lit("\"x\"")];
    let expected = vec![
        rw_ident("f"),
        rw_ident("format"),
        rw_punct('!'),
        Token::Group(Delim::Parenthesis, vec![rw_lit("\"x\"")]),
    ];
    assert_eq!(expected, process_stream(&stream));
}
