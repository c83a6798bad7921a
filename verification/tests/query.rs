use ast_find::dsl::Field;
use ast_find::parse_query;
use ast_find::Expr;
use ast_find::InvalidQuery;
use ast_find::Kind;
use ast_find::Pred;

#[test]
fn test_parse_call() {
    let expr = parse_query("call(callee=/^axios\\.get$/)").unwrap();
    if let Expr::Node { kind, preds, .. } = expr {
        assert_eq!(kind, Kind::Call);
        assert_eq!(preds.len(), 1);
    } else {
        panic!("Expected Node");
    }
}

#[test]
fn test_parse_import() {
    let expr = parse_query("import(module=/^requests$/)").unwrap();
    if let Expr::Node { kind, .. } = expr {
        assert_eq!(kind, Kind::Import);
    }
}

#[test]
fn test_parse_multiple_preds() {
    let expr = parse_query("call(callee=/foo/, arg=/bar/)").unwrap();
    if let Expr::Node { preds, .. } = expr {
        assert_eq!(preds.len(), 2);
    }
}

#[test]
fn test_parse_and_expr() {
    let expr = parse_query("and(call(callee=/foo/), not(import(module=/bar/)))").unwrap();
    match expr {
        Expr::And(children) => {
            assert_eq!(children.len(), 2);
            assert!(matches!(children[0], Expr::Node { .. }));
            assert!(matches!(children[1], Expr::Not(_)));
        }
        _ => panic!("expected And expression"),
    }
}

#[test]
fn test_parse_or_expr() {
    let expr = parse_query("or(call(callee=/foo/), call(callee=/bar/))").unwrap();
    match expr {
        Expr::Or(children) => {
            assert_eq!(children.len(), 2);
        }
        _ => panic!("expected Or expression"),
    }
}

#[test]
fn test_not_requires_single_operand() {
    assert!(parse_query("not(call(callee=/foo/), call(callee=/bar/))").is_err());
}

fn ids_of(expr: &Expr, out: &mut Vec<usize>) {
    match expr {
        Expr::Node { id, .. } => out.push(*id),
        Expr::And(children) | Expr::Or(children) => {
            for child in children {
                ids_of(child, out);
            }
        }
        Expr::Not(child) => ids_of(child, out),
    }
}

#[test]
fn terms_are_numbered_left_to_right() {
    let expr = parse_query("or(and(call(), def(name=/a/)), not(import()), call(arg=/x/))").unwrap();
    let mut ids = Vec::new();
    ids_of(&expr, &mut ids);
    assert_eq!(ids, vec![0, 1, 2, 3]);
}

#[test]
fn def_kind_and_every_field_parse() {
    let expr = parse_query(
        "def(callee=/a/, name=/b/, module=/c/, prop=/d/, arg=/e/, text=/f/)",
    )
    .unwrap();
    match expr {
        Expr::Node { kind, preds, id } => {
            assert_eq!(id, 0);
            assert_eq!(kind, Kind::Def);
            assert_eq!(preds.len(), 6);
            assert!(matches!(preds[0], Pred::Callee(_)));
            assert!(matches!(preds[1], Pred::Name(_)));
            assert!(matches!(preds[2], Pred::Module(_)));
            assert!(matches!(preds[3], Pred::Prop(_)));
            assert!(matches!(preds[4], Pred::Arg(_)));
            assert!(matches!(preds[5], Pred::Text(_)));
        }
        _ => panic!("expected a term"),
    }
}

#[test]
fn predicate_keeps_the_pattern_between_the_slashes() {
    let expr = parse_query("call(callee=/^ax(ios|e),x$/ , prop=/a\\/b/)");
    // The second literal holds an escaped slash, which still toggles the
    // literal: the list is split inside it and the pieces are refused.
    assert!(expr.is_err());
    let expr = parse_query("call(callee=/^ax(ios|e),x$/)").unwrap();
    match expr {
        Expr::Node { preds, .. } => match &preds[0] {
            Pred::Callee(re) => assert_eq!(re.as_str(), "^ax(ios|e),x$"),
            _ => panic!("expected callee"),
        },
        _ => panic!("expected a term"),
    }
}

#[test]
fn text_predicate_lets_dot_cross_lines() {
    let expr = parse_query("call(text=/a.b/)").unwrap();
    match expr {
        Expr::Node { preds, .. } => match &preds[0] {
            Pred::Text(re) => {
                assert_eq!(re.as_str(), "(?s)a.b");
                assert!(re.is_match("a\nb"));
            }
            _ => panic!("expected text"),
        },
        _ => panic!("expected a term"),
    }
    let expr = parse_query("call(callee=/a.b/)").unwrap();
    match expr {
        Expr::Node { preds, .. } => match &preds[0] {
            Pred::Callee(re) => assert!(!re.is_match("a\nb")),
            _ => panic!("expected callee"),
        },
        _ => panic!("expected a term"),
    }
}

#[test]
fn keyword_needs_paren_or_space_behind_it() {
    // `android` starts like `and` but is a word of its own.
    assert!(matches!(
        parse_query("android(callee=/x/)"),
        Err(InvalidQuery::UnknownKind { kind }) if kind == "android"
    ));
    assert!(matches!(parse_query("and (call())"), Ok(Expr::And(_))));
    assert!(matches!(parse_query("  or\t(call(),def(),)  "), Ok(Expr::Or(items)) if items.len() == 2));
    assert!(matches!(parse_query("not(def())"), Ok(Expr::Not(_))));
}

#[test]
fn every_error_has_an_input() {
    assert!(matches!(
        parse_query("call"),
        Err(InvalidQuery::Expected { wanted: '(', found: None })
    ));
    assert!(matches!(
        parse_query("call x"),
        Err(InvalidQuery::Expected { wanted: '(', found: Some('x') })
    ));
    assert!(matches!(parse_query("and()"), Err(InvalidQuery::EmptyAnd)));
    assert!(matches!(parse_query("or( )"), Err(InvalidQuery::EmptyOr)));
    assert!(matches!(parse_query("not()"), Err(InvalidQuery::NotArity)));
    assert!(matches!(
        parse_query("not(call(), def())"),
        Err(InvalidQuery::NotArity)
    ));
    assert!(matches!(
        parse_query("and(call() def())"),
        Err(InvalidQuery::UnexpectedInList { unexpected: 'd' })
    ));
    assert!(matches!(parse_query("and(call()"), Err(InvalidQuery::UnterminatedList)));
    assert!(matches!(parse_query(""), Err(InvalidQuery::ExpectedExpression)));
    assert!(matches!(parse_query("(call())"), Err(InvalidQuery::ExpectedExpression)));
    assert!(matches!(parse_query("and(call(), "), Err(InvalidQuery::ExpectedExpression)));
    assert!(matches!(
        parse_query("class(name=/x/)"),
        Err(InvalidQuery::UnknownKind { kind }) if kind == "class"
    ));
    assert!(matches!(parse_query("call(callee=/x/"), Err(InvalidQuery::UnterminatedGroup)));
    assert!(matches!(parse_query("call(callee=/x)"), Err(InvalidQuery::UnterminatedGroup)));
    assert!(matches!(
        parse_query("call(callee)"),
        Err(InvalidQuery::InvalidPredicate { text }) if text == "callee"
    ));
    assert!(matches!(
        parse_query("call(callee=foo)"),
        Err(InvalidQuery::MissingDelimiters { field }) if field == "callee"
    ));
    assert!(matches!(
        parse_query("call(callee=//x)"),
        Err(InvalidQuery::MissingDelimiters { field }) if field == "callee"
    ));
    assert!(matches!(
        parse_query("call(callee=/[/)"),
        Err(InvalidQuery::InvalidRegex { field, message }) if field == "callee" && !message.is_empty()
    ));
    assert!(matches!(
        parse_query("call(colour=/x/)"),
        Err(InvalidQuery::UnknownField { field }) if field == "colour"
    ));
    // A bad expression is reported before an unknown field.
    assert!(matches!(
        parse_query("call(colour=/[/)"),
        Err(InvalidQuery::InvalidRegex { field, .. }) if field == "colour"
    ));
    assert!(matches!(
        parse_query("call() def()"),
        Err(InvalidQuery::TrailingInput { position: 7 })
    ));
    assert!(matches!(
        parse_query("   call())"),
        Err(InvalidQuery::TrailingInput { position: 6 })
    ));
    // The position counts bytes: `é` takes two and `€` three.
    assert!(matches!(
        parse_query("call(name=/\u{e9}\u{20ac}/) x"),
        Err(InvalidQuery::TrailingInput { position: 19 })
    ));
}

#[test]
fn malformed_input_is_an_error_and_never_a_panic() {
    let inputs = [
        "\u{e9}(",
        "cal\u{e9}()",
        "call\u{a0}(\u{2003}name = /x/ )",
        "and(\u{3000}call()\u{2028})",
        "call(name=/)",
        "call(=//)",
        "call(,,,)",
        "call(name=/a/,)",
        ")",
        "/",
        "and",
        "not not",
        "call(name=/\u{1F600}/)",
        "call(((",
        "or(or(or(",
    ];
    for input in inputs {
        let _ = parse_query(input);
    }
    assert!(parse_query("call\u{a0}(\u{2003}name = /x/ )").is_ok());
    assert!(parse_query("and(\u{3000}call()\u{2028})").is_ok());
    assert!(parse_query("call(,,,)").is_ok());
    assert!(parse_query("call(name=/a/,)").is_ok());
    assert!(parse_query("call(name=/\u{1F600}/)").is_ok());
    assert!(parse_query("\u{e9}(").is_err());
}

#[test]
fn nesting_has_a_limit() {
    let nest = |depth: usize| format!("{}call(){}", "not(".repeat(depth), ")".repeat(depth));
    assert!(parse_query(&nest(0)).is_ok());
    assert!(parse_query(&nest(128)).is_ok());
    assert!(matches!(parse_query(&nest(129)), Err(InvalidQuery::TooDeep)));
    assert!(matches!(parse_query(&nest(200_000)), Err(InvalidQuery::TooDeep)));
    assert!(matches!(parse_query(&"and(".repeat(1_000_000)), Err(InvalidQuery::TooDeep)));
    assert!(matches!(
        parse_query(&"or(".repeat(100)),
        Err(InvalidQuery::ExpectedExpression)
    ));
    assert_eq!(
        parse_query(&nest(129)).err().map(|e| e.message()).as_deref(),
        Some("Expression is nested too deeply")
    );
    // Wide is not deep.
    let wide = format!("and({})", "call(),".repeat(5000));
    assert!(matches!(parse_query(&wide), Ok(Expr::And(items)) if items.len() == 5000));
    // Nor are parentheses inside a group.
    let group = format!("call({}name=/x/{})", "(".repeat(3), ")".repeat(3));
    assert!(parse_query(&group).is_err());
    let inside = format!("call(name=/{}/)", "(a)".repeat(1000));
    assert!(parse_query(&inside).is_ok());
}

#[test]
fn pred_matches_checks_field_and_text() {
    let expr = parse_query("call(callee=/^fo+$/)").unwrap();
    let Expr::Node { preds, .. } = expr else {
        panic!("expected a term");
    };
    assert!(preds[0].matches("callee", "foo"));
    assert!(!preds[0].matches("callee", "bar"));
    assert!(!preds[0].matches("name", "foo"));
    assert!(!preds[0].matches("", "foo"));
}

#[test]
fn kind_and_field_names() {
    assert_eq!(Kind::Call.name(), "call");
    assert_eq!(Kind::Import.name(), "import");
    assert_eq!(Kind::Def.name(), "def");
    let word: Vec<char> = "module".chars().collect();
    assert_eq!(Field::from_name(&word), Some(Field::Module));
    let word: Vec<char> = "Module".chars().collect();
    assert_eq!(Field::from_name(&word), None);
}
