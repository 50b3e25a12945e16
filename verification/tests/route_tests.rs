use route::lexer::{tokenize, LexError, Lexer};
use route::render::{render, RenderError};
use route::schema::{CompileErrorKind, RouteDef, Schema};
use route::token::{placeholders_of, Token};
use route::validate::{validate, ValidationError};

fn s(x: &str) -> String {
    x.to_string()
}

fn def(name: &str, template: &str, fields: &[&str]) -> RouteDef {
    RouteDef {
        name: s(name),
        template: s(template),
        fields: fields.iter().map(|f| s(f)).collect(),
    }
}

fn pairs(vs: &[(&str, &str)]) -> Vec<(String, String)> {
    vs.iter().map(|(k, v)| (s(k), s(v))).collect()
}

#[test]
fn tokenize_without_braces_is_one_literal() {
    let tokens = tokenize("/plain/path").unwrap();
    assert_eq!(tokens, vec![Token::Literal(s("/plain/path"))]);
}

#[test]
fn tokenize_empty_template_is_empty() {
    let tokens = tokenize("").unwrap();
    assert_eq!(tokens, vec![]);
}

#[test]
fn tokenize_escape_mid_string() {
    let tokens = tokenize("a{{b").unwrap();
    assert_eq!(
        tokens,
        vec![
            Token::Literal(s("a")),
            Token::Literal(s("{")),
            Token::Literal(s("b")),
        ]
    );
}

#[test]
fn tokenize_escape_at_start() {
    let tokens = tokenize("{{").unwrap();
    assert_eq!(tokens, vec![Token::Literal(s("{"))]);
}

#[test]
fn tokenize_lone_placeholder() {
    let tokens = tokenize("{id}").unwrap();
    assert_eq!(tokens, vec![Token::Placeholder(s("id"))]);
}

#[test]
fn tokenize_literal_then_placeholder() {
    let tokens = tokenize("/users/{id}").unwrap();
    assert_eq!(
        tokens,
        vec![Token::Literal(s("/users/")), Token::Placeholder(s("id"))]
    );
}

#[test]
fn tokenize_consecutive_placeholders() {
    let tokens = tokenize("{a}{b}").unwrap();
    assert_eq!(
        tokens,
        vec![Token::Placeholder(s("a")), Token::Placeholder(s("b"))]
    );
}

#[test]
fn tokenize_unterminated_placeholder_fails() {
    assert_eq!(tokenize("{unterminated"), Err(LexError::UnmatchedBrace));
}

#[test]
fn tokenize_empty_placeholder_name() {
    let tokens = tokenize("{}").unwrap();
    assert_eq!(tokens, vec![Token::Placeholder(s(""))]);
}

#[test]
fn tokenize_trailing_open_brace_is_literal() {
    let tokens = tokenize("abc{").unwrap();
    assert_eq!(tokens, vec![Token::Literal(s("abc")), Token::Literal(s("{"))]);
}

#[test]
fn lexer_streams_tokens_one_by_one() {
    let mut lexer = Lexer::new("/users/{id}");
    assert_eq!(lexer.next(), Ok(Some(Token::Literal(s("/users/")))));
    assert_eq!(lexer.next(), Ok(Some(Token::Placeholder(s("id")))));
    assert_eq!(lexer.next(), Ok(None));
}

#[test]
fn lexer_reports_unmatched_brace() {
    let mut lexer = Lexer::new("x{oops");
    assert_eq!(lexer.next(), Ok(Some(Token::Literal(s("x")))));
    assert_eq!(lexer.next(), Err(LexError::UnmatchedBrace));
}

#[test]
fn placeholders_extracted_in_order() {
    let tokens = tokenize("/posts/{year}/{month}/{day}/").unwrap();
    let names = placeholders_of(&tokens);
    assert_eq!(names, vec![s("year"), s("month"), s("day")]);
}

#[test]
fn validate_accepts_bijection() {
    let placeholders = vec![s("year"), s("month")];
    let fields = vec![s("month"), s("year")];
    assert_eq!(validate(&placeholders, &fields), Ok(()));
}

#[test]
fn validate_rejects_extra_field() {
    let placeholders = vec![s("id")];
    let fields = vec![s("id"), s("extra")];
    assert_eq!(
        validate(&placeholders, &fields),
        Err(ValidationError::FieldNotInTemplate(s("extra")))
    );
}

#[test]
fn validate_rejects_unknown_placeholder() {
    let placeholders = vec![s("typo")];
    let fields = vec![s("id")];
    assert_eq!(
        validate(&placeholders, &fields),
        Err(ValidationError::PlaceholderNotAField(s("typo")))
    );
}

#[test]
fn validate_rejects_duplicate_field() {
    let placeholders = vec![s("id")];
    let fields = vec![s("id"), s("id")];
    assert_eq!(
        validate(&placeholders, &fields),
        Err(ValidationError::DuplicateName(s("id")))
    );
}

#[test]
fn validate_rejects_duplicate_placeholder() {
    let placeholders = vec![s("x"), s("x")];
    let fields = vec![s("x")];
    assert_eq!(
        validate(&placeholders, &fields),
        Err(ValidationError::DuplicateName(s("x")))
    );
}

#[test]
fn compile_and_render_round_trip() {
    let schema = Schema::compile(&vec![def("User", "/users/{id}", &["id"])]).unwrap();
    let variant = schema.variant(&s("User")).unwrap();
    let url = render(&variant.tokens, &pairs(&[("id", "32")])).unwrap();
    assert_eq!(url, s("/users/32"));
}

#[test]
fn render_post_date_path() {
    let schema = Schema::compile(&vec![def(
        "Post",
        "/posts/{year}/{month}/{day}/",
        &["year", "month", "day"],
    )])
    .unwrap();
    let variant = schema.variant(&s("Post")).unwrap();
    let values = vec![
        (s("year"), 2016.to_string()),
        (s("month"), 1.to_string()),
        (s("day"), 12.to_string()),
    ];
    let url = render(&variant.tokens, &values).unwrap();
    assert_eq!(url, s("/posts/2016/1/12/"));
}

#[test]
fn compile_rejects_field_not_in_template() {
    let err = Schema::compile(&vec![def("User", "/users/{id}", &["id", "extra"])]).unwrap_err();
    assert_eq!(err.variant, s("User"));
    assert_eq!(
        err.kind,
        CompileErrorKind::Validation(ValidationError::FieldNotInTemplate(s("extra")))
    );
}

#[test]
fn compile_rejects_placeholder_not_a_field() {
    let err = Schema::compile(&vec![def("User", "/users/{typo}", &["id"])]).unwrap_err();
    assert_eq!(err.variant, s("User"));
    assert_eq!(
        err.kind,
        CompileErrorKind::Validation(ValidationError::PlaceholderNotAField(s("typo")))
    );
}

#[test]
fn compile_rejects_unmatched_brace() {
    let err = Schema::compile(&vec![def("Bad", "/users/{id", &["id"])]).unwrap_err();
    assert_eq!(err.variant, s("Bad"));
    assert_eq!(err.kind, CompileErrorKind::Lex(LexError::UnmatchedBrace));
}

#[test]
fn compile_fails_fast_on_first_bad_variant() {
    let err = Schema::compile(&vec![
        def("Home", "/", &[]),
        def("Bad", "{oops", &[]),
        def("AlsoBad", "{typo}", &[]),
    ])
    .unwrap_err();
    assert_eq!(err.variant, s("Bad"));
    assert_eq!(err.kind, CompileErrorKind::Lex(LexError::UnmatchedBrace));
}

#[test]
fn compile_empty_definitions_yields_empty_schema() {
    let schema = Schema::compile(&vec![]).unwrap();
    assert_eq!(schema.len(), 0);
}

#[test]
fn schema_lookup_of_unknown_variant_is_none() {
    let schema = Schema::compile(&vec![def("User", "/users/{id}", &["id"])]).unwrap();
    assert!(schema.variant(&s("Missing")).is_none());
}

#[test]
fn schema_renders_variant_by_name() {
    let schema = Schema::compile(&vec![def("User", "/users/{id}", &["id"])]).unwrap();
    assert_eq!(
        schema.render_variant(&s("User"), &pairs(&[("id", "32")])),
        Some(Ok(s("/users/32")))
    );
    assert_eq!(schema.render_variant(&s("Nope"), &pairs(&[])), None);
}

#[test]
fn render_empty_tokens_is_empty_string() {
    let url = render(&vec![], &pairs(&[])).unwrap();
    assert_eq!(url, s(""));
}

#[test]
fn render_escaped_brace_verbatim() {
    let tokens = tokenize("a{{b").unwrap();
    let url = render(&tokens, &pairs(&[])).unwrap();
    assert_eq!(url, s("a{b"));
}

#[test]
fn render_missing_value_fails() {
    let tokens = tokenize("/users/{id}").unwrap();
    assert_eq!(
        render(&tokens, &pairs(&[("other", "1")])),
        Err(RenderError::MissingValue(s("id")))
    );
}

#[test]
fn render_is_deterministic() {
    let tokens = tokenize("/users/{id}/posts/{post}").unwrap();
    let values = pairs(&[("id", "7"), ("post", "9")]);
    let first = render(&tokens, &values).unwrap();
    let second = render(&tokens, &values).unwrap();
    assert_eq!(first, second);
    assert_eq!(first, s("/users/7/posts/9"));
}

#[test]
fn render_uses_first_value_of_a_name() {
    let tokens = tokenize("{id}").unwrap();
    let url = render(&tokens, &pairs(&[("id", "1"), ("id", "2")])).unwrap();
    assert_eq!(url, s("1"));
}

#[test]
fn closing_brace_after_empty_placeholder_is_literal() {
    // the nearest `}` ends the placeholder, so its name never holds one
    let tokens = tokenize("{}}").unwrap();
    assert_eq!(
        tokens,
        vec![Token::Placeholder(s("")), Token::Literal(s("}"))]
    );
}

#[test]
fn lexer_keeps_yielding_none_at_the_end() {
    let mut lexer = Lexer::new("a");
    assert_eq!(lexer.next(), Ok(Some(Token::Literal(s("a")))));
    assert_eq!(lexer.next(), Ok(None));
    assert_eq!(lexer.next(), Ok(None));
}

#[test]
fn lexer_keeps_failing_after_an_unmatched_brace() {
    let mut lexer = Lexer::new("{oops");
    assert_eq!(lexer.next(), Err(LexError::UnmatchedBrace));
    assert_eq!(lexer.next(), Err(LexError::UnmatchedBrace));
}
