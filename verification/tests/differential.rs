use ast_find::parse_query;
use ast_find::Expr;
use ast_find::Pred;
use regex::Regex;

/// A query as text that shows all of its structure.
fn show(expr: &Expr) -> String {
    match expr {
        Expr::Node { id, kind, preds } => {
            let shown: Vec<String> = preds
                .iter()
                .map(|p| match p {
                    Pred::Callee(re) => format!("callee~{}", re.as_str()),
                    Pred::Name(re) => format!("name~{}", re.as_str()),
                    Pred::Module(re) => format!("module~{}", re.as_str()),
                    Pred::Prop(re) => format!("prop~{}", re.as_str()),
                    Pred::Arg(re) => format!("arg~{}", re.as_str()),
                    Pred::Text(re) => format!("text~{}", re.as_str()),
                })
                .collect();
            format!("{}#{}[{}]", kind.name(), id, shown.join(";"))
        }
        Expr::And(items) => format!("and({})", items.iter().map(show).collect::<Vec<_>>().join(",")),
        Expr::Or(items) => format!("or({})", items.iter().map(show).collect::<Vec<_>>().join(",")),
        Expr::Not(item) => format!("not({})", show(item)),
    }
}

/// The grammar read straight off with the string functions of std. Outside
/// regex literals and field names it works on ASCII text only.
struct Reader<'a> {
    src: &'a str,
    pos: usize,
    next_id: usize,
}

impl<'a> Reader<'a> {
    fn peek(&self) -> Option<char> {
        self.src[self.pos..].chars().next()
    }

    fn skip_ws(&mut self) {
        while let Some(ch) = self.peek() {
            if ch.is_whitespace() {
                self.pos += 1;
            } else {
                break;
            }
        }
    }

    fn keyword(&mut self, kw: &str) -> bool {
        self.skip_ws();
        let rest = &self.src[self.pos..];
        let follows = rest
            .get(kw.len()..)
            .and_then(|r| r.chars().next())
            .map(|ch| ch == '(' || ch.is_whitespace())
            .unwrap_or(false);
        if rest.starts_with(kw) && follows {
            self.pos += kw.len();
            true
        } else {
            false
        }
    }

    fn expect(&mut self, ch: char) -> Result<(), String> {
        self.skip_ws();
        match self.peek() {
            Some(actual) if actual == ch => {
                self.pos += 1;
                Ok(())
            }
            Some(actual) => Err(format!("Expected '{}' but found '{}'", ch, actual)),
            None => Err(format!("Expected '{}' but found end of input", ch)),
        }
    }

    fn nested(&mut self, depth: usize) -> Result<Vec<String>, String> {
        if depth == 0 {
            return Err("Expression is nested too deeply".to_string());
        }
        self.list(depth - 1)
    }

    fn expr(&mut self, depth: usize) -> Result<String, String> {
        self.skip_ws();
        if self.keyword("and") {
            let items = self.nested(depth)?;
            if items.is_empty() {
                return Err("and() requires at least one operand".to_string());
            }
            return Ok(format!("and({})", items.join(",")));
        }
        if self.keyword("or") {
            let items = self.nested(depth)?;
            if items.is_empty() {
                return Err("or() requires at least one operand".to_string());
            }
            return Ok(format!("or({})", items.join(",")));
        }
        if self.keyword("not") {
            let items = self.nested(depth)?;
            if items.len() != 1 {
                return Err("not() requires exactly one operand".to_string());
            }
            return Ok(format!("not({})", items[0]));
        }
        self.node()
    }

    fn list(&mut self, depth: usize) -> Result<Vec<String>, String> {
        self.expect('(')?;
        let mut items = Vec::new();
        loop {
            self.skip_ws();
            if self.peek() == Some(')') {
                self.pos += 1;
                break;
            }
            items.push(self.expr(depth)?);
            self.skip_ws();
            match self.peek() {
                Some(',') => self.pos += 1,
                Some(')') => {
                    self.pos += 1;
                    break;
                }
                Some(other) => {
                    return Err(format!("Unexpected character '{}' in expression list", other))
                }
                None => return Err("Unterminated expression list".to_string()),
            }
        }
        Ok(items)
    }

    fn node(&mut self) -> Result<String, String> {
        self.skip_ws();
        let start = self.pos;
        while let Some(ch) = self.peek() {
            if ch.is_alphabetic() {
                self.pos += 1;
            } else {
                break;
            }
        }
        let kind = match &self.src[start..self.pos] {
            "call" => "call",
            "import" => "import",
            "def" => "def",
            "" => return Err("Expected expression".to_string()),
            other => return Err(format!("Unknown kind: {}", other)),
        };
        let raw = self.group()?;
        let preds = predicates(&raw)?;
        let id = self.next_id;
        self.next_id += 1;
        Ok(format!("{}#{}[{}]", kind, id, preds.join(";")))
    }

    fn group(&mut self) -> Result<String, String> {
        self.expect('(')?;
        let mut contents = String::new();
        let mut depth = 1;
        let mut in_regex = false;
        while let Some(ch) = self.peek() {
            self.pos += ch.len_utf8();
            match ch {
                '/' => {
                    in_regex = !in_regex;
                    contents.push(ch);
                }
                '(' if !in_regex => {
                    depth += 1;
                    contents.push(ch);
                }
                ')' if !in_regex => {
                    depth -= 1;
                    if depth == 0 {
                        break;
                    }
                    contents.push(ch);
                }
                _ => contents.push(ch),
            }
        }
        if depth != 0 {
            return Err("Unterminated group".to_string());
        }
        Ok(contents)
    }
}

fn predicates(raw: &str) -> Result<Vec<String>, String> {
    let mut preds = Vec::new();
    let trimmed = raw.trim();
    if trimmed.is_empty() {
        return Ok(preds);
    }
    for part in split(trimmed) {
        let Some(eq) = part.find('=') else {
            return Err(format!("Invalid predicate format: {}", part));
        };
        let field = part[..eq].trim();
        let value = part[eq + 1..].trim();
        if !(value.len() >= 2 && value.starts_with('/') && value.ends_with('/')) {
            return Err(format!("Expected regex pattern like /.../ for {}", field));
        }
        let pattern = &value[1..value.len() - 1];
        let source = if field == "text" { format!("(?s){}", pattern) } else { pattern.to_string() };
        let re = Regex::new(&source).map_err(|e| format!("Invalid regex for {}: {}", field, e))?;
        match field {
            "callee" | "name" | "module" | "prop" | "arg" | "text" => {
                preds.push(format!("{}~{}", field, re.as_str()))
            }
            _ => return Err(format!("Unknown predicate field: {}", field)),
        }
    }
    Ok(preds)
}

fn split(s: &str) -> Vec<String> {
    let mut parts = Vec::new();
    let mut current = String::new();
    let mut in_regex = false;
    for ch in s.chars() {
        match ch {
            '/' => {
                in_regex = !in_regex;
                current.push(ch);
            }
            ',' if !in_regex => {
                if !current.trim().is_empty() {
                    parts.push(current.trim().to_string());
                    current.clear();
                }
            }
            _ => current.push(ch),
        }
    }
    if !current.trim().is_empty() {
        parts.push(current.trim().to_string());
    }
    parts
}

fn read(input: &str) -> Result<String, String> {
    let mut reader = Reader { src: input.trim(), pos: 0, next_id: 0 };
    let expr = reader.expr(128)?;
    reader.skip_ws();
    if reader.pos < reader.src.len() {
        return Err(format!("Unexpected token at position {}", reader.pos));
    }
    Ok(expr)
}

fn agree(input: &str) {
    let expected = read(input);
    let got = parse_query(input).map(|e| show(&e)).map_err(|e| e.message());
    assert_eq!(got, expected, "on {:?}", input);
}

#[test]
fn chosen_queries_read_the_same() {
    let inputs = [
        "call(callee=/^axios\\.(get|post)$/)",
        "import(module=/^requests$/)",
        "def(name=/^verifyJwt$/)",
        "and(call(callee=/foo/), not(import(module=/bar/)))",
        "or(call(callee=/foo/), call(callee=/bar/))",
        "not(call(callee=/foo/), call(callee=/bar/))",
        "call(callee=/foo/, arg=/bar/)",
        "call( callee = /a,b/ , name=/(/ )",
        "call(callee=/a)b/)",
        "call(callee=/a/b/)",
        "call(callee=/a/ , , prop=/b/,)",
        "call(a=b=/c/)",
        "call(text=/a.b/,callee=/c/)",
        " and ( call ( ) , def ( ) ) ",
        "and(or(not(call())),)",
        "and(call(),,def())",
        "call()()",
        "call(())",
        "call((callee=/a/))",
        "callee(callee=/a/)",
        "andcall()",
        "and\tcall()",
        "and call()",
        "not\n(\ndef\n(\nname=/x/\n)\n)",
        "call(name=/\u{e9}t\u{e9}/) trailing",
        "and(call(text=/\u{1F600}/), def(name=/\u{4e2d}\u{6587}/)) )",
        "call(n\u{e4}me=/x/)",
        "call(name=/\u{e9}/ \u{2003}) ,",
    ];
    for input in inputs {
        agree(input);
    }
}

#[test]
fn generated_queries_read_the_same() {
    let pieces = [
        "and", "or", "not", "call", "def", "import", "fn", "(", ")", "(", ")", ",", " ", "/",
        "=", "callee", "name", "text", "prop", "arg", "module", "colour", "a", "/a/", "/(/",
        "/a,b/", "/[/", "=/x/", "\t", "x(", "1",
    ];
    let mut state: u64 = 0x9E3779B97F4A7C15;
    let mut next = |bound: usize| -> usize {
        state = state.wrapping_mul(6364136223846793005).wrapping_add(1442695040888963407);
        ((state >> 33) as usize) % bound
    };
    let mut accepted = 0;
    for _ in 0..20000 {
        let len = 1 + next(14);
        let mut input = String::new();
        for _ in 0..len {
            input.push_str(pieces[next(pieces.len())]);
        }
        if parse_query(&input).is_ok() {
            accepted += 1;
        }
        agree(&input);
    }
    assert!(accepted > 0);
}

#[test]
fn nested_queries_read_the_same() {
    for depth in [1usize, 2, 17, 127, 128, 129, 130, 500] {
        for word in ["not", "and", "or"] {
            let open = format!("{}(", word).repeat(depth);
            agree(&format!("{}call(){}", open, ")".repeat(depth)));
            agree(&format!("{}call(){}", open, ")".repeat(depth - 1)));
            agree(&format!("{}{}", open, ")".repeat(depth)));
        }
    }
}

#[test]
fn built_queries_read_the_same() {
    let terms = [
        "call()",
        "def(name=/a/)",
        "import( module = /b,c/ )",
        "call(callee=/x/,text=/y(z/)",
        "klass()",
        "call(name=/[/)",
    ];
    let mut state: u64 = 42;
    let mut next = |bound: usize| -> usize {
        state = state.wrapping_mul(6364136223846793005).wrapping_add(1442695040888963407);
        ((state >> 33) as usize) % bound
    };
    fn build(depth: usize, terms: &[&str], next: &mut dyn FnMut(usize) -> usize) -> String {
        if depth == 0 || next(3) == 0 {
            return terms[next(terms.len())].to_string();
        }
        let word = ["and", "or", "not"][next(3)];
        let count = next(4);
        let items: Vec<String> = (0..count).map(|_| build(depth - 1, terms, next)).collect();
        let sep = [",", ", ", " ,", ",\n"][next(4)];
        format!("{}{}({})", word, ["", " "][next(2)], items.join(sep))
    }
    let mut accepted = 0;
    for _ in 0..5000 {
        let input = build(3, &terms, &mut next);
        if parse_query(&input).is_ok() {
            accepted += 1;
        }
        agree(&input);
    }
    assert!(accepted > 100);
}
