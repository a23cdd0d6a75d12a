use interpolate::emit::{emit, expression_sources};
use interpolate::invoke::{compile, extract_template, CompileError};
use interpolate::tokens::Token;
use interpolate::Rules;

fn iv_lit(s: &str) -> Token {
    Token::Literal(s.to_string())
}

#[test]
fn compile_interpolates_through_the_invocation() {
    let rules = Rules::dollar_curly();
    let args = vec![iv_lit("\"Hi ${who}!\"")];
    let segments = compile(&rules, &args).unwrap();
    let sources = expression_sources(&segments);
    assert_eq!(vec!["who".to_string()], sources);
    let values = vec!["Bob".to_string()];
    assert_eq!("Hi Bob!", emit(&segments, &values));
}

#[test]
fn extract_strips_the_quotes() {
    let args = vec![iv_lit("\"a ${b} c\"")];
    assert_eq!(Ok("a ${b} c".to_string()), extract_template(&args));
}

#[test]
fn empty_invocation_rejected() {
    let args: Vec<Token> = Vec::new();
    assert_eq!(Err(CompileError::InvalidInvocation), extract_template(&args));
}

#[test]
fn two_token_invocation_rejected() {
    let args = vec![iv_lit("\"a\""), iv_lit("\"b\"")];
    assert_eq!(Err(CompileError::InvalidInvocation), extract_template(&args));
}

#[test]
fn non_literal_invocation_rejected() {
    let args = vec![Token::Ident("x".to_string())];
    assert_eq!(Err(CompileError::InvalidInvocation), extract_template(&args));
}

#[test]
fn unquoted_literal_rejected() {
    let args = vec![iv_lit("42")];
    assert_eq!(Err(CompileError::InvalidInvocation), extract_template(&args));
}

#[test]
fn raw_literal_rejected() {
    let args = vec![iv_lit("r\"no raw forms\"")];
    assert_eq!(Err(CompileError::RawLiteralRejected), extract_template(&args));
}

#[test]
fn scan_failure_surfaces_through_compile() {
    let rules = Rules::dollar_curly();
    let args = vec![iv_lit("\"Hello ${name\"")];
    assert_eq!(
        Err(CompileError::UnterminatedExpression { open_pos: 6 }),
        compile(&rules, &args).map(|_| ()),
    );
}

#[test]
fn compile_normalizes_literal_segments() {
    let rules = Rules::dollar_curly();
    let args = vec![iv_lit("\"all for $$9.99\"")];
    let segments = compile(&rules, &args).unwrap();
    let values: Vec<String> = Vec::new();
    assert_eq!("all for $9.99", emit(&segments, &values));
}
