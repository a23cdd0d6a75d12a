use interpolate::emit::{emit, emit_checked, expression_count, expression_sources};
use interpolate::normalize::{normalize, normalize_segments};
use interpolate::scanner::{scan, ScanError};
use interpolate::segment::Segment;
use interpolate::Rules;

/// Scans under the given dialect and interpolates each expression from the
/// bindings: the whole pipeline short of a real expression evaluator.
fn sc_run(rules: &Rules, template: &str, bindings: &[(&str, &str)]) -> Result<String, ScanError> {
    let segments = scan(rules, template)?;
    let segments = normalize_segments(rules, &segments);
    let values: Vec<String> = expression_sources(&segments)
        .iter()
        .map(|source| {
            bindings
                .iter()
                .find(|(name, _)| name == source)
                .map(|(_, value)| value.to_string())
                .expect("unbound expression")
        })
        .collect();
    Ok(emit(&segments, &values))
}

fn sc_dollar(template: &str, bindings: &[(&str, &str)]) -> Result<String, ScanError> {
    sc_run(&Rules::dollar_curly(), template, bindings)
}

#[test]
fn no_delimiters_is_identity() {
    let template = "A lantern, a lake, a long evening.";
    let segments = scan(&Rules::dollar_curly(), template).unwrap();
    assert_eq!(vec![Segment::Literal(template.to_string())], segments);
    assert_eq!(Ok(template.to_string()), sc_dollar(template, &[]));
}

#[test]
fn empty_template_has_no_segments() {
    let segments = scan(&Rules::dollar_curly(), "").unwrap();
    assert_eq!(Vec::<Segment>::new(), segments);
    assert_eq!(Ok(String::new()), sc_dollar("", &[]));
}

#[test]
fn single_wrapped_expression() {
    assert_eq!(
        Ok("Prince Charming".to_string()),
        sc_dollar("${name}", &[("name", "Prince Charming")]),
    );
}

#[test]
fn single_bare_expression() {
    assert_eq!(
        Ok("Prince Charming".to_string()),
        sc_dollar("$name", &[("name", "Prince Charming")]),
    );
}

#[test]
fn adjacent_expressions_concatenate() {
    let bindings = [("first", "Mickey"), ("second", "Mouse")];
    let all_forms = [
        "${first}${second}",
        "$first${second}",
        "${first}$second",
        "$first$second",
    ];
    for template in all_forms {
        assert_eq!(Ok("MickeyMouse".to_string()), sc_dollar(template, &bindings));
    }
}

#[test]
fn adjacent_expressions_separated_by_empty_literal() {
    let segments = scan(&Rules::dollar_curly(), "${a}${b}").unwrap();
    assert_eq!(
        vec![
            Segment::Literal(String::new()),
            Segment::Expression("a".to_string()),
            Segment::Literal(String::new()),
            Segment::Expression("b".to_string()),
        ],
        segments,
    );
}

#[test]
fn repeated_expression_evaluated_each_time() {
    assert_eq!(
        Ok("Aladdin is the star of Aladdin.".to_string()),
        sc_dollar("$name is the star of $name.", &[("name", "Aladdin")]),
    );
    let segments = scan(&Rules::dollar_curly(), "$name is the star of $name.").unwrap();
    assert_eq!(2, expression_count(&segments));
    assert_eq!(
        vec!["name".to_string(), "name".to_string()],
        expression_sources(&segments),
    );
}

#[test]
fn unicode_bare_identifier() {
    let segments = scan(&Rules::dollar_curly(), "~$héroïne~").unwrap();
    assert_eq!(
        vec![
            Segment::Literal("~".to_string()),
            Segment::Expression("héroïne".to_string()),
            Segment::Literal("~".to_string()),
        ],
        segments,
    );
    assert_eq!(Ok("~Mulan~".to_string()), sc_dollar("~$héroïne~", &[("héroïne", "Mulan")]));
}

#[test]
fn unterminated_expression_detected() {
    assert_eq!(
        Err(ScanError::UnterminatedExpression { open_pos: 6 }),
        scan(&Rules::dollar_curly(), "Hello ${name").map(|_| ()),
    );
}

#[test]
fn escaped_open_delimiter_yields_one_character() {
    let segments = scan(&Rules::dollar_curly(), "cost: $$5").unwrap();
    assert_eq!(vec![Segment::Literal("cost: $$5".to_string())], segments);
    assert_eq!(Ok("cost: $5".to_string()), sc_dollar("cost: $$5", &[]));
}

#[test]
fn whitespace_inside_wrapped_expression_trimmed() {
    let bindings = [("name", "Belle")];
    assert_eq!(sc_dollar("${name}", &bindings), sc_dollar("${ name }", &bindings));
    assert_eq!(Ok("Belle".to_string()), sc_dollar("${\t name \t}", &bindings));
}

#[test]
fn invalid_delimiter_follower_detected() {
    assert_eq!(
        Err(ScanError::InvalidDelimiterFollower { pos: 1, found: Some('1') }),
        scan(&Rules::dollar_curly(), "$1x").map(|_| ()),
    );
}

#[test]
fn open_delimiter_at_end_detected() {
    assert_eq!(
        Err(ScanError::InvalidDelimiterFollower { pos: 4, found: None }),
        scan(&Rules::dollar_curly(), "abc$").map(|_| ()),
    );
}

#[test]
fn curly_dialect_interpolates() {
    assert_eq!(
        Ok("Hello, Elsa.".to_string()),
        sc_run(&Rules::curly(), "Hello, {name}.", &[("name", "Elsa")]),
    );
}

#[test]
fn curly_dialect_escapes_doubled_braces() {
    assert_eq!(Ok("{verbatim}".to_string()), sc_run(&Rules::curly(), "{{verbatim}}", &[]));
}

#[test]
fn curly_dialect_unterminated() {
    assert_eq!(
        Err(ScanError::UnterminatedExpression { open_pos: 3 }),
        scan(&Rules::curly(), "abc{x").map(|_| ()),
    );
}

#[test]
fn close_delimiters_after_expression_stay_literal() {
    let rules = Rules::dollar_curly();
    let segments = scan(&rules, "${x}}}").unwrap();
    assert_eq!(
        vec![
            Segment::Literal(String::new()),
            Segment::Expression("x".to_string()),
            Segment::Literal("}}".to_string()),
        ],
        segments,
    );
    assert_eq!(Ok("V}".to_string()), sc_dollar("${x}}}", &[("x", "V")]));
}

#[test]
fn normalize_is_inert_without_escapes() {
    let rules = Rules::dollar_curly();
    assert_eq!("plain text", normalize(&rules, "plain text"));
    assert_eq!("a$b", normalize(&rules, "a$$b"));
    assert_eq!("}", normalize(&rules, "}}"));
}

#[test]
fn emit_checked_rejects_wrong_value_count() {
    let rules = Rules::dollar_curly();
    let segments = scan(&rules, "${a}${b}").unwrap();
    assert_eq!(None, emit_checked(&segments, &vec!["only one".to_string()]));
    let values = vec!["1".to_string(), "2".to_string()];
    assert_eq!(Some("12".to_string()), emit_checked(&segments, &values));
}
