use ast_find::adapter::CaptureBundle;
use ast_find::lang_by_ext;
use ast_find::order::rank;
use ast_find::order::Rank;
use ast_find::parse_lang_list;
use ast_find::parse_query;
use ast_find::select_language;
use ast_find::text::is_whitespace;
use ast_find::text::same_text;
use ast_find::text::trim;
use ast_find::Expr;
use ast_find::InvalidQuery;
use ast_find::Kind;
use ast_find::LangId;

#[test]
fn language_lists() {
    assert_eq!(parse_lang_list("py,ts,js"), vec![LangId::Python, LangId::TypeScript, LangId::JavaScript]);
    assert_eq!(
        parse_lang_list(" python , typescript,javascript ,csharp,c#,cs,rs,rust,go,golang,java"),
        vec![
            LangId::Python,
            LangId::TypeScript,
            LangId::JavaScript,
            LangId::CSharp,
            LangId::CSharp,
            LangId::CSharp,
            LangId::Rust,
            LangId::Rust,
            LangId::Go,
            LangId::Go,
            LangId::Java,
        ]
    );
    assert_eq!(parse_lang_list(""), Vec::<LangId>::new());
    assert_eq!(parse_lang_list(",,"), Vec::<LangId>::new());
    assert_eq!(parse_lang_list("cobol, py ,PY,"), vec![LangId::Python]);
    assert_eq!(parse_lang_list("p y"), Vec::<LangId>::new());
}

#[test]
fn extensions() {
    assert_eq!(lang_by_ext("js"), Some(LangId::JavaScript));
    assert_eq!(lang_by_ext("jsx"), Some(LangId::JavaScript));
    assert_eq!(lang_by_ext("ts"), Some(LangId::TypeScript));
    assert_eq!(lang_by_ext("tsx"), Some(LangId::TypeScript));
    assert_eq!(lang_by_ext("py"), Some(LangId::Python));
    assert_eq!(lang_by_ext("cs"), Some(LangId::CSharp));
    assert_eq!(lang_by_ext("csx"), Some(LangId::CSharp));
    assert_eq!(lang_by_ext("rs"), Some(LangId::Rust));
    assert_eq!(lang_by_ext("go"), Some(LangId::Go));
    assert_eq!(lang_by_ext("java"), Some(LangId::Java));
    assert_eq!(lang_by_ext(""), None);
    assert_eq!(lang_by_ext("JS"), None);
    assert_eq!(lang_by_ext(".js"), None);
    assert_eq!(lang_by_ext("python"), None);
}

#[test]
fn allow_list_overrides_the_extension_table() {
    assert_eq!(select_language("py", None), Some(LangId::Python));
    assert_eq!(select_language("txt", None), None);
    let allowed = vec![LangId::Rust, LangId::Python];
    assert_eq!(select_language("py", Some(&allowed)), Some(LangId::Python));
    assert_eq!(select_language("rs", Some(&allowed)), Some(LangId::Rust));
    assert_eq!(select_language("js", Some(&allowed)), None);
    assert_eq!(select_language("txt", Some(&allowed)), None);
    assert_eq!(select_language("py", Some(&Vec::new())), None);
}

#[test]
fn capture_bundle_binds_and_rebinds() {
    let mut bundle = CaptureBundle::new();
    assert_eq!(bundle.get("prop"), None);
    bundle.insert("prop".to_string(), "get".to_string());
    bundle.insert("obj".to_string(), "axios".to_string());
    assert_eq!(bundle.get("prop"), Some("get"));
    assert_eq!(bundle.get("obj"), Some("axios"));
    assert_eq!(bundle.get("pro"), None);
    bundle.insert("prop".to_string(), "post".to_string());
    assert_eq!(bundle.get("prop"), Some("post"));
    assert_eq!(bundle.get("obj"), Some("axios"));
    assert_eq!(CaptureBundle::default().get("obj"), None);
}

#[test]
fn whitespace_is_what_std_calls_whitespace() {
    for code in 0..=0x10FFFFu32 {
        if let Some(c) = char::from_u32(code) {
            assert_eq!(is_whitespace(c), c.is_whitespace(), "U+{:04X}", code);
        }
    }
}

#[test]
fn trim_is_what_std_trims() {
    let samples = [
        "",
        " ",
        "a",
        "  a b  ",
        "\t\n x \r\n",
        "\u{a0}x\u{3000}",
        "\u{2003}\u{2003}",
        "x\u{200b}",
        " \u{1680}a\u{85} ",
    ];
    for s in samples {
        let chars: Vec<char> = s.chars().collect();
        let got: String = trim(&chars).into_iter().collect();
        assert_eq!(got, s.trim());
    }
}

#[test]
fn same_text_compares_characters() {
    assert!(same_text("", ""));
    assert!(same_text("abc", "abc"));
    assert!(!same_text("abc", "abd"));
    assert!(!same_text("abc", "ab"));
    assert!(same_text("\u{e9}", "\u{e9}"));
    assert!(!same_text("\u{e9}", "e\u{301}"));
}

#[test]
fn rank_is_the_order_of_strings() {
    let samples = ["", "a", "aa", "ab", "b", "a.js", "ab.js", "a/b.js", "\u{e9}", "z", "Z", "0"];
    for a in samples {
        for b in samples {
            let expected = if a < b {
                Rank::Before
            } else if a == b {
                Rank::Same
            } else {
                Rank::After
            };
            assert_eq!(rank(a.as_bytes(), b.as_bytes()), expected);
        }
    }
}

#[test]
fn messages_of_invalid_queries() {
    let message = |q: &str| parse_query(q).err().map(|e| e.message()).unwrap_or_default();
    assert_eq!(message("call"), "Expected '(' but found end of input");
    assert_eq!(message("call x"), "Expected '(' but found 'x'");
    assert_eq!(message("and()"), "and() requires at least one operand");
    assert_eq!(message("or()"), "or() requires at least one operand");
    assert_eq!(message("not()"), "not() requires exactly one operand");
    assert_eq!(message("and(call() x)"), "Unexpected character 'x' in expression list");
    assert_eq!(message("and(call()"), "Unterminated expression list");
    assert_eq!(message(""), "Expected expression");
    assert_eq!(message("klass()"), "Unknown kind: klass");
    assert_eq!(message("call(name=/x/"), "Unterminated group");
    assert_eq!(message("call(name)"), "Invalid predicate format: name");
    assert_eq!(message("call(name=x)"), "Expected regex pattern like /.../ for name");
    assert_eq!(message("call(nom=/x/)"), "Unknown predicate field: nom");
    assert_eq!(message("call() call()"), "Unexpected token at position 7");
    assert_eq!(
        message("call() , , , , , x"),
        "Unexpected token at position 7"
    );
    assert!(message("call(name=/(/)").starts_with("Invalid regex for name: "));
    assert!(message("call(name=/(/)").len() > "Invalid regex for name: ".len());
    let long = format!("{}{}", " ".repeat(3), "def()  tail");
    assert_eq!(message(&long), "Unexpected token at position 7");
    let far = format!("def({}) x", "name=/a/,".repeat(20));
    assert_eq!(message(&far), format!("Unexpected token at position {}", 4 + 9 * 20 + 2));
    assert!(matches!(parse_query("x"), Err(InvalidQuery::UnknownKind { .. })));
}

#[test]
fn parsed_queries_are_well_formed() {
    for q in ["call()", "and(call(), def())", "or(not(call()), and(def(), import(), call()))"] {
        assert!(parse_query(q).unwrap().is_well_formed());
    }
    let twice = Expr::And(vec![
        Expr::Node { id: 4, kind: Kind::Call, preds: vec![] },
        Expr::Not(Box::new(Expr::Node { id: 4, kind: Kind::Def, preds: vec![] })),
    ]);
    assert!(!twice.is_well_formed());
    let apart = Expr::Or(vec![
        Expr::Node { id: 9, kind: Kind::Call, preds: vec![] },
        Expr::Node { id: 2, kind: Kind::Def, preds: vec![] },
    ]);
    assert!(apart.is_well_formed());
    let mut ids = Vec::new();
    apart.collect_ids(&mut ids);
    assert_eq!(ids, vec![9, 2]);
    assert!(Expr::And(vec![]).is_well_formed());
}
