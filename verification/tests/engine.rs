use ast_find::adapter::CompileError;
use ast_find::file_events;
use ast_find::get_adapter;
use ast_find::languages::CSharpAdapter;
use ast_find::languages::GoAdapter;
use ast_find::languages::JavaAdapter;
use ast_find::languages::JavaScriptAdapter;
use ast_find::languages::PythonAdapter;
use ast_find::languages::RustAdapter;
use ast_find::languages::TypeScriptAdapter;
use ast_find::merge_results;
use ast_find::parse_query;
use ast_find::process_file;
use ast_find::CaptureBundle;
use ast_find::Event;
use ast_find::Expr;
use ast_find::LangAdapter;
use ast_find::LangId;
use ast_find::MatchRecord;
use ast_find::ProcessError;

fn run<A: LangAdapter>(adapter: &A, path: &str, src: &str, query: &str, context: u32) -> Vec<MatchRecord> {
    let expr = parse_query(query).expect("parse query");
    process_file(adapter, path, src.as_bytes(), &expr, context).expect("process file")
}

fn lines(records: &[MatchRecord]) -> Vec<(u32, u32)> {
    let mut out: Vec<(u32, u32)> = records.iter().map(|r| (r.start_line, r.end_line)).collect();
    out.sort();
    out
}

#[test]
fn multi_line_text_predicate_matches() {
    let source = format!(
        r#"async function test() {{
    const result = axios.get(
        'https://api.example.com/data',
        {{
            headers: {{
                Authorization: 'Bearer token',
            }},
        }},
    );
    return result;
}}
"#
    );

    let adapter = JavaScriptAdapter;
    let sanity_expr = parse_query("call(prop=/^get$/)").expect("parse sanity query");
    let sanity_matches = process_file(&adapter, "test.js", source.as_bytes(), &sanity_expr, 0)
        .expect("process sanity file");
    assert_eq!(sanity_matches.len(), 1);

    let expr = parse_query(r"call(text=/axios\.get\(.*Authorization/)").expect("parse query");
    let matches =
        process_file(&adapter, "test.js", source.as_bytes(), &expr, 0).expect("process file");
    assert_eq!(matches.len(), 1);
}

#[test]
fn two_member_calls_give_two_records() {
    let src = "axios.get(url)\naxios.post(url)\n";
    let records = run(&JavaScriptAdapter, "a.js", src, "call(callee=/^(get|post)$/)", 0);
    assert_eq!(records.len(), 2);
    let mut by_line: Vec<&MatchRecord> = records.iter().collect();
    by_line.sort_by_key(|r| r.start_line);
    assert_eq!(by_line[0].capture.callee.as_deref(), Some("get"));
    assert_eq!(by_line[1].capture.callee.as_deref(), Some("post"));
    assert_eq!(by_line[0].capture.object.as_deref(), Some("axios"));
    assert_eq!(by_line[0].capture.attr, None);
    assert_eq!(by_line[0].capture.module, None);
    assert_eq!(by_line[0].capture.name, None);
    assert_eq!((by_line[0].start_line, by_line[0].end_line), (1, 1));
    assert_eq!((by_line[1].start_line, by_line[1].end_line), (2, 2));
    assert_eq!(by_line[0].lang.as_deref(), Some("javascript"));
    assert_eq!(by_line[0].path, "a.js");
    assert_eq!(by_line[0].excerpt.as_deref(), Some("axios.get(url)\n"));
    assert_eq!(by_line[1].excerpt.as_deref(), Some("axios.post(url)\n"));
    // The callee is tested on the called property alone, never on `obj.prop`.
    let none = run(&JavaScriptAdapter, "a.js", src, r"call(callee=/^axios\.(get|post)$/)", 0);
    assert_eq!(none.len(), 0);
}

#[test]
fn records_come_in_order_of_their_identifiers() {
    let src = "a()\nb()\nc()\nd()\ne()\n";
    let records = run(&JavaScriptAdapter, "o.js", src, "call()", 0);
    assert_eq!(records.len(), 5);
    for pair in records.windows(2) {
        assert!(pair[0].chunk_id < pair[1].chunk_id);
    }
    for r in &records {
        let key = format!("o.js:{}-{}", r.start_line, r.end_line);
        assert_eq!(r.chunk_id, blake3::hash(key.as_bytes()).to_hex().to_string());
        assert_eq!(r.chunk_id.len(), 64);
    }
}

#[test]
fn many_records_keep_the_algebra() {
    let mut src = String::new();
    for i in 0..300 {
        src.push_str(&format!("f{}();\n", i));
    }
    let all = run(&JavaScriptAdapter, "big.js", &src, "call()", 0);
    assert_eq!(all.len(), 300);
    for pair in all.windows(2) {
        assert!(pair[0].chunk_id < pair[1].chunk_id);
    }
    let sevens = lines(&run(&JavaScriptAdapter, "big.js", &src, "call(callee=/7$/)", 0));
    assert_eq!(sevens.len(), 30);
    let low = lines(&run(&JavaScriptAdapter, "big.js", &src, "call(callee=/^f1/)", 0));
    assert_eq!(low.len(), 111);
    let both = lines(&run(
        &JavaScriptAdapter,
        "big.js",
        &src,
        "and(call(callee=/^f1/), call(callee=/7$/))",
        0,
    ));
    let expected: Vec<(u32, u32)> = low.iter().filter(|l| sevens.contains(l)).cloned().collect();
    assert_eq!(both, expected);
    assert_eq!(both.len(), 11);
    let either = lines(&run(
        &JavaScriptAdapter,
        "big.js",
        &src,
        "or(call(callee=/^f1/), call(callee=/7$/))",
        0,
    ));
    assert_eq!(either.len(), 111 + 30 - 11);
    let rest = lines(&run(
        &JavaScriptAdapter,
        "big.js",
        &src,
        "and(call(), not(or(call(callee=/^f1/), call(callee=/7$/))))",
        0,
    ));
    assert_eq!(rest.len(), 300 - (111 + 30 - 11));
    assert!(rest.iter().all(|l| !either.contains(l)));
}

#[test]
fn negation_is_relative_to_the_other_terms() {
    let query = "and(call(callee=/foo/), not(import(module=/bar/)))";
    let records = run(&JavaScriptAdapter, "n.js", "foo();\n", query, 0);
    assert_eq!(records.len(), 1);
    assert_eq!(records[0].capture.callee.as_deref(), Some("foo"));
    // An import on the line of the call shares the call's identifier, so the
    // call is no longer in the complement.
    let records = run(&JavaScriptAdapter, "n.js", "import \"bar\"; foo();\n", query, 0);
    assert_eq!(records.len(), 0);
    // An import on a line of its own has an identifier of its own.
    let records = run(&JavaScriptAdapter, "n.js", "import \"bar\";\nfoo();\n", query, 0);
    assert_eq!(records.len(), 1);
}

#[test]
fn syntax_error_gives_one_parse_error_event() {
    let expr = parse_query("call()").unwrap();
    let result = process_file(&JavaScriptAdapter, "bad.js", b"function ( {{{\nfoo(\n", &expr, 0);
    assert!(matches!(result, Err(ProcessError::Syntax)));
    let events = file_events("bad.js", result);
    assert_eq!(events.len(), 1);
    match &events[0] {
        Event::Error { code, message, path_or_url } => {
            assert_eq!(code, "E_PARSE");
            assert!(!message.is_empty());
            assert_eq!(path_or_url.as_deref(), Some("bad.js"));
        }
        _ => panic!("expected an error event"),
    }
}

#[test]
fn unreadable_file_gives_one_error_event() {
    let events = file_events(
        "gone.js",
        Err(ProcessError::Unreadable { message: "No such file or directory".to_string() }),
    );
    assert_eq!(events.len(), 1);
    match &events[0] {
        Event::Error { code, message, path_or_url } => {
            assert_eq!(code, "E_PARSE");
            assert_eq!(message, "No such file or directory");
            assert_eq!(path_or_url.as_deref(), Some("gone.js"));
        }
        _ => panic!("expected an error event"),
    }
    let events = file_events("p.js", Err(ProcessError::Parse));
    assert!(matches!(&events[0], Event::Error { message, .. } if message == "Failed to parse file"));
}

#[test]
fn binary_content_gives_nothing() {
    let expr = parse_query("call()").unwrap();
    let records = process_file(&JavaScriptAdapter, "b.js", b"foo();\0bar();", &expr, 0).unwrap();
    assert!(records.is_empty());
    // A zero byte behind the sample does not count, but it is no JavaScript.
    let mut late = vec![b' '; 1024];
    late.extend_from_slice(b"\0");
    assert!(process_file(&JavaScriptAdapter, "b.js", &late, &expr, 0).is_err());
}

#[test]
fn and_is_intersection_or_is_union_not_is_complement() {
    let src = "foo(1)\nbar(2)\nfoo.bar(3)\nbaz(4)\n";
    let a = "call(callee=/foo/)";
    let b = "call(callee=/bar/)";
    let ra = lines(&run(&JavaScriptAdapter, "s.js", src, a, 0));
    let rb = lines(&run(&JavaScriptAdapter, "s.js", src, b, 0));
    assert_eq!(ra, vec![(1, 1)]);
    assert_eq!(rb, vec![(2, 2), (3, 3)]);
    let a2 = "call(text=/foo/)";
    let ra2 = lines(&run(&JavaScriptAdapter, "s.js", src, a2, 0));
    assert_eq!(ra2, vec![(1, 1), (3, 3)]);
    let and = lines(&run(&JavaScriptAdapter, "s.js", src, &format!("and({a2}, {b})"), 0));
    assert_eq!(and, vec![(3, 3)]);
    let or = lines(&run(&JavaScriptAdapter, "s.js", src, &format!("or({a}, {b})"), 0));
    assert_eq!(or, vec![(1, 1), (2, 2), (3, 3)]);
    let not = lines(&run(&JavaScriptAdapter, "s.js", src, &format!("and({b}, not({a2}))"), 0));
    assert_eq!(not, vec![(2, 2)]);
    // `baz(4)` is matched by no term, so it is not in the universe.
    let not = lines(&run(&JavaScriptAdapter, "s.js", src, &format!("or({b}, not({a2}))"), 0));
    assert_eq!(not, vec![(2, 2), (3, 3)]);
    let alone = lines(&run(&JavaScriptAdapter, "s.js", src, &format!("not({a2})"), 0));
    assert_eq!(alone, Vec::<(u32, u32)>::new());
}

#[test]
fn missing_capture_fails_a_predicate_and_arg_holds_always() {
    let src = "foo(1)\nobj.bar(2)\n";
    // A call binds no `name`, so a predicate on `name` fails even with a
    // pattern that matches everything.
    assert_eq!(run(&JavaScriptAdapter, "c.js", src, "call(name=/.*/)", 0).len(), 0);
    assert_eq!(run(&JavaScriptAdapter, "c.js", src, "call(module=/.*/)", 0).len(), 0);
    // A plain call binds no `prop`.
    assert_eq!(lines(&run(&JavaScriptAdapter, "c.js", src, "call(prop=/.*/)", 0)), vec![(2, 2)]);
    // `callee` is tested on the identifier or on the property.
    assert_eq!(
        lines(&run(&JavaScriptAdapter, "c.js", src, "call(callee=/^(foo|bar)$/)", 0)),
        vec![(1, 1), (2, 2)]
    );
    assert_eq!(lines(&run(&JavaScriptAdapter, "c.js", src, "call(callee=/^obj$/)", 0)), vec![]);
    // `arg` is accepted and holds of every match.
    assert_eq!(
        lines(&run(&JavaScriptAdapter, "c.js", src, "call(arg=/no such argument/)", 0)),
        vec![(1, 1), (2, 2)]
    );
    // Predicates are joined by `and`.
    assert_eq!(
        lines(&run(&JavaScriptAdapter, "c.js", src, "call(callee=/bar/, text=/^obj/)", 0)),
        vec![(2, 2)]
    );
    assert_eq!(
        lines(&run(&JavaScriptAdapter, "c.js", src, "call(callee=/bar/, text=/^foo/)", 0)),
        vec![]
    );
}

#[test]
fn or_keeps_the_record_of_the_first_operand() {
    let src = "import x from \"m\"; foo();\n";
    let first = run(&JavaScriptAdapter, "f.js", src, "or(import(), call())", 0);
    assert_eq!(first.len(), 1);
    assert_eq!(first[0].capture.module.as_deref(), Some("\"m\""));
    assert_eq!(first[0].capture.callee, None);
    let second = run(&JavaScriptAdapter, "f.js", src, "or(call(), import())", 0);
    assert_eq!(second.len(), 1);
    assert_eq!(second[0].capture.callee.as_deref(), Some("foo"));
    assert_eq!(second[0].capture.module, None);
}

#[test]
fn evaluating_twice_gives_the_same() {
    let src = "foo(1)\nbar(2)\n";
    let one = run(&JavaScriptAdapter, "i.js", src, "or(call(), def())", 1);
    let two = run(&JavaScriptAdapter, "i.js", src, "or(call(), def())", 1);
    assert_eq!(one.len(), two.len());
    for (x, y) in one.iter().zip(two.iter()) {
        assert_eq!(x.chunk_id, y.chunk_id);
        assert_eq!(x.excerpt, y.excerpt);
    }
}

#[test]
fn excerpt_takes_context_lines() {
    let src = "one\ntwo\nfoo()\nfour\nfive\nsix\n";
    let records = run(&JavaScriptAdapter, "e.js", src, "call()", 1);
    assert_eq!(records.len(), 1);
    assert_eq!(records[0].excerpt.as_deref(), Some("two\nfoo()\nfour\n"));
    let records = run(&JavaScriptAdapter, "e.js", src, "call()", 10);
    assert_eq!(records[0].excerpt.as_deref(), Some(src));
}

#[test]
fn every_language_compiles_every_kind() {
    let kinds = ["call()", "import()", "def()"];
    let langs = [
        LangId::JavaScript,
        LangId::TypeScript,
        LangId::Python,
        LangId::CSharp,
        LangId::Rust,
        LangId::Go,
        LangId::Java,
    ];
    let mut refused = Vec::new();
    for lang in langs {
        let adapter = get_adapter(lang);
        for kind in kinds {
            let expr = parse_query(kind).unwrap();
            if adapter.compile(&expr).is_err() {
                refused.push(format!("{} {}", adapter.name(), kind));
            }
        }
    }
    assert_eq!(refused, Vec::<String>::new());
}

#[test]
fn adapters_refuse_combinators() {
    let expr = parse_query("and(call())").unwrap();
    assert!(JavaScriptAdapter.compile(&expr).is_err());
    assert!(TypeScriptAdapter.compile(&expr).is_err());
    assert!(PythonAdapter.compile(&expr).is_err());
    assert!(CSharpAdapter.compile(&expr).is_err());
    assert!(RustAdapter.compile(&expr).is_err());
    assert!(GoAdapter.compile(&expr).is_err());
    assert!(JavaAdapter.compile(&expr).is_err());
}

#[test]
fn adapter_names() {
    assert_eq!(JavaScriptAdapter.name(), "javascript");
    assert_eq!(TypeScriptAdapter.name(), "typescript");
    assert_eq!(PythonAdapter.name(), "python");
    assert_eq!(CSharpAdapter.name(), "csharp");
    assert_eq!(RustAdapter.name(), "rust");
    assert_eq!(GoAdapter.name(), "go");
    assert_eq!(JavaAdapter.name(), "java");
    assert_eq!(get_adapter(LangId::Go).name(), "go");
}

#[test]
fn python_calls_imports_and_definitions() {
    let src = "import os\nfrom a.b import c\n\ndef f():\n    return os.getcwd()\n\nclass K:\n    pass\n\nf()\n";
    let imports = run(&PythonAdapter, "m.py", src, "import()", 0);
    let mut modules: Vec<String> = imports.iter().filter_map(|r| r.capture.module.clone()).collect();
    modules.sort();
    assert_eq!(modules, vec!["a.b".to_string(), "os".to_string()]);
    let defs = run(&PythonAdapter, "m.py", src, "def()", 0);
    let mut names: Vec<String> = defs.iter().filter_map(|r| r.capture.name.clone()).collect();
    names.sort();
    assert_eq!(names, vec!["K".to_string(), "f".to_string()]);
    let calls = run(&PythonAdapter, "m.py", src, "call(callee=/^f$/)", 0);
    assert_eq!(lines(&calls), vec![(10, 10)]);
    let attr = run(&PythonAdapter, "m.py", src, "call(text=/getcwd/)", 0);
    assert_eq!(attr.len(), 1);
    assert_eq!(attr[0].capture.attr.as_deref(), Some("getcwd"));
    assert_eq!(attr[0].capture.object.as_deref(), Some("os"));
    assert_eq!(attr[0].capture.callee, None);
}

#[test]
fn rust_go_java_csharp_typescript_match() {
    let rs = "use std::fmt;\nfn main() {\n    helper(1);\n    x.run();\n}\nstruct S;\n";
    assert_eq!(lines(&run(&RustAdapter, "m.rs", rs, "call(callee=/^helper$/)", 0)), vec![(3, 3)]);
    assert_eq!(lines(&run(&RustAdapter, "m.rs", rs, "call(prop=/^run$/)", 0)), vec![(4, 4)]);
    assert_eq!(lines(&run(&RustAdapter, "m.rs", rs, "import(module=/fmt/)", 0)), vec![(1, 1)]);
    assert_eq!(lines(&run(&RustAdapter, "m.rs", rs, "def()", 0)), vec![(2, 5), (6, 6)]);

    let go = "package main\n\nimport \"fmt\"\n\nfunc main() {\n\tfmt.Println(1)\n}\n";
    assert_eq!(lines(&run(&GoAdapter, "m.go", go, "call(callee=/^Println$/)", 0)), vec![(6, 6)]);
    assert_eq!(lines(&run(&GoAdapter, "m.go", go, "import(module=/fmt/)", 0)), vec![(3, 3)]);
    assert_eq!(lines(&run(&GoAdapter, "m.go", go, "def(name=/^main$/)", 0)), vec![(5, 7)]);

    let java = "import java.util.List;\nclass A {\n    void f() {}\n}\n";
    assert_eq!(lines(&run(&JavaAdapter, "A.java", java, "import(module=/List/)", 0)), vec![(1, 1)]);
    assert_eq!(lines(&run(&JavaAdapter, "A.java", java, "def(name=/^f$/)", 0)), vec![(3, 3)]);

    let cs = "using System;\nclass A {\n    void F() { Console.WriteLine(1); }\n}\n";
    assert_eq!(lines(&run(&CSharpAdapter, "A.cs", cs, "call(callee=/^WriteLine$/)", 0)), vec![(3, 3)]);
    assert_eq!(lines(&run(&CSharpAdapter, "A.cs", cs, "import(module=/System/)", 0)), vec![(1, 1)]);
    assert_eq!(lines(&run(&CSharpAdapter, "A.cs", cs, "def(name=/^F$/)", 0)), vec![(3, 3)]);

    let ts = "import { a } from \"./a\";\nfunction f(x: number): number { return a(x); }\n";
    assert_eq!(lines(&run(&TypeScriptAdapter, "m.ts", ts, "call(callee=/^a$/)", 0)), vec![(2, 2)]);
    assert_eq!(lines(&run(&TypeScriptAdapter, "m.ts", ts, "def(name=/^f$/)", 0)), vec![(2, 2)]);
    let records = run(&TypeScriptAdapter, "m.ts", ts, "import()", 0);
    assert_eq!(records.len(), 1);
    assert_eq!(records[0].lang.as_deref(), Some("typescript"));
}

/// JavaScript with a pattern that the grammar refuses for definitions, and a
/// filter that keeps only matches whose callee starts with `k`.
struct Picky;

impl LangAdapter for Picky {
    fn name(&self) -> &'static str {
        "picky"
    }

    fn language(&self) -> tree_sitter::Language {
        tree_sitter_javascript::language()
    }

    fn compile(&self, expr: &Expr) -> Result<Vec<tree_sitter::Query>, CompileError> {
        match expr {
            Expr::Node { kind: ast_find::Kind::Def, .. } => {
                match tree_sitter::Query::new(&self.language(), "(no_such_node) @def") {
                    Ok(q) => Ok(vec![q]),
                    Err(e) => Err(CompileError::Rejected { message: e.to_string() }),
                }
            }
            _ => JavaScriptAdapter.compile(expr),
        }
    }

    fn post_capture_filter(&self, caps: &CaptureBundle) -> bool {
        caps.get("callee_id").map(|t| t.starts_with('k')).unwrap_or(false)
    }
}

#[test]
fn refused_pattern_is_an_error_of_the_file() {
    let expr = parse_query("or(call(), def())").unwrap();
    let result = process_file(&Picky, "A.js", b"keep();\n", &expr, 0);
    match result {
        Err(ProcessError::Pattern { message }) => assert!(!message.is_empty()),
        _ => panic!("expected a refused pattern"),
    }
}

#[test]
fn adapter_filter_drops_matches() {
    let records = run(&Picky, "p.js", "keep();\ndrop();\nkeen();\n", "call()", 0);
    assert_eq!(lines(&records), vec![(1, 1), (3, 3)]);
}

/// JavaScript with a pattern that binds no capture, so that a match stands
/// for the whole file.
struct Bare;

impl LangAdapter for Bare {
    fn name(&self) -> &'static str {
        "bare"
    }

    fn language(&self) -> tree_sitter::Language {
        tree_sitter_javascript::language()
    }

    fn compile(&self, _expr: &Expr) -> Result<Vec<tree_sitter::Query>, CompileError> {
        match tree_sitter::Query::new(&self.language(), "(call_expression)") {
            Ok(q) => Ok(vec![q]),
            Err(e) => Err(CompileError::Rejected { message: e.to_string() }),
        }
    }

    fn post_capture_filter(&self, _caps: &CaptureBundle) -> bool {
        true
    }
}

#[test]
fn match_without_captures_stands_for_the_root() {
    let src = "\n\nfoo();\nbar();\n";
    let records = run(&Bare, "r.js", src, "call()", 0);
    // Both calls give the span of the root, so one record is left.
    assert_eq!(records.len(), 1);
    assert_eq!(records[0].start_line, 3);
    assert_eq!(records[0].end_line, 5);
    assert_eq!(records[0].capture.callee, None);
    let seen = run(&Bare, "r.js", src, "call(text=/^foo\\(\\);.bar\\(\\);.$/)", 0);
    assert_eq!(seen.len(), 1);
    let unseen = run(&Bare, "r.js", src, "call(callee=/foo/)", 0);
    assert_eq!(unseen.len(), 0);
}

#[test]
fn text_that_is_not_utf8_is_read_with_replacement() {
    let expr = parse_query("call(text=/^f\\(\"\u{fffd}\"\\)$/)").unwrap();
    let records = process_file(&JavaScriptAdapter, "l.js", b"f(\"\xff\")\n", &expr, 0).unwrap();
    assert_eq!(records.len(), 1);
    assert_eq!(records[0].excerpt, None);
    let expr = parse_query("call(text=/^f\\(\"\u{e9}\"\\)$/)").unwrap();
    let records =
        process_file(&JavaScriptAdapter, "l.js", "f(\"\u{e9}\")\n".as_bytes(), &expr, 0).unwrap();
    assert_eq!(records.len(), 1);
    assert_eq!(records[0].excerpt.as_deref(), Some("f(\"\u{e9}\")\n"));
}

fn record(path: &str, start_line: u32, end_line: u32) -> MatchRecord {
    let expr = parse_query("call()").unwrap();
    let mut src = String::new();
    for _ in 1..start_line {
        src.push('\n');
    }
    src.push_str("f(");
    for _ in start_line..end_line {
        src.push('\n');
    }
    src.push_str(")\n");
    let mut found = process_file(&JavaScriptAdapter, path, src.as_bytes(), &expr, 0).unwrap();
    assert_eq!(found.len(), 1);
    let r = found.remove(0);
    assert_eq!((r.start_line, r.end_line), (start_line, end_line));
    r
}

fn keys(events: &[Event]) -> Vec<(String, u32)> {
    events
        .iter()
        .map(|e| match e {
            Event::Match(r) => (r.path.clone(), r.start_line),
            Event::Error { path_or_url, .. } => (path_or_url.clone().unwrap_or_default(), 0),
        })
        .collect()
}

fn sample_files() -> Vec<Vec<Event>> {
    vec![
        file_events("b.js", Ok(vec![record("b.js", 7, 7), record("b.js", 2, 3)])),
        file_events("c.js", Err(ProcessError::Parse)),
        file_events("a.js", Ok(vec![record("a.js", 10, 10), record("a.js", 9, 9)])),
        file_events("ab.js", Ok(vec![])),
    ]
}

#[test]
fn merge_orders_by_path_and_line() {
    let merged = merge_results(sample_files(), 5000);
    assert_eq!(
        keys(&merged),
        vec![
            ("a.js".to_string(), 9),
            ("a.js".to_string(), 10),
            ("b.js".to_string(), 2),
            ("b.js".to_string(), 7),
            ("c.js".to_string(), 0),
        ]
    );
}

#[test]
fn merge_does_not_depend_on_the_order_of_files() {
    let mut files = sample_files();
    files.reverse();
    let merged = merge_results(files, 5000);
    assert_eq!(keys(&merged), keys(&merge_results(sample_files(), 5000)));
}

#[test]
fn cap_keeps_the_first_in_key_order() {
    assert_eq!(merge_results(sample_files(), 0).len(), 0);
    let three = merge_results(sample_files(), 3);
    assert_eq!(
        keys(&three),
        vec![("a.js".to_string(), 9), ("a.js".to_string(), 10), ("b.js".to_string(), 2)]
    );
    assert_eq!(merge_results(sample_files(), 5).len(), 5);
    assert_eq!(merge_results(sample_files(), 6).len(), 5);
}

#[test]
fn later_event_replaces_an_earlier_one_under_its_key() {
    let first = record("k.js", 4, 4);
    let second = record("k.js", 4, 6);
    let merged = merge_results(vec![vec![Event::Match(first), Event::Match(second)]], 10);
    assert_eq!(merged.len(), 1);
    match &merged[0] {
        Event::Match(r) => assert_eq!(r.end_line, 6),
        _ => panic!("expected a match"),
    }
}
