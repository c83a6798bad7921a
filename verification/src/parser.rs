//! The recursive-descent parser of the query language.

use crate::dsl::models;
use crate::dsl::Expr;
use crate::dsl::ExprModel;
use crate::dsl::Field;
use crate::dsl::Kind;
use crate::dsl::Pred;
use crate::dsl::InvalidQuery;
use crate::dsl::InvalidQueryModel;
use crate::grammar::expect_char;
use crate::grammar::expression;
use crate::grammar::first_equals;
use crate::grammar::group_close;
use crate::grammar::group_contents;
use crate::grammar::kept_part;
use crate::grammar::keyword_at;
use crate::grammar::lemma_query_valid;
use crate::grammar::operands;
use crate::grammar::operands_after;
use crate::grammar::predicate;
use crate::grammar::predicate_list;
use crate::grammar::predicates_from;
use crate::grammar::query;
use crate::grammar::split_from;
use crate::grammar::split_parts;
use crate::grammar::term;
use crate::grammar::word_and;
use crate::grammar::MAX_NESTING;
use crate::grammar::word_end;
use crate::grammar::word_not;
use crate::grammar::word_or;
use crate::pattern::compile_regex;
use crate::pattern::regex_error_text;
use crate::text::byte_offset;
use crate::text::chars_of;
use crate::text::copy_range;
use crate::text::is_ascii_letter;
use crate::text::lemma_skip_spaces_bounds;
use crate::text::skip_spaces;
use crate::text::skip_whitespace;
use crate::text::spells;
use crate::text::string_of;
use crate::text::string_of_range;
use crate::text::trim;
use crate::text::trimmed;
use vstd::prelude::*;
use vstd::string::StringExecFns;

verus! {

/// The texts of a sequence of character vectors, one for one.
pub open spec fn texts(parts: Seq<Vec<char>>) -> Seq<Seq<char>> {
    Seq::new(parts.len(), |i: int| parts[i]@)
}

/// Splits a predicate list at the commas that stand outside regex literals.
/// Every part comes trimmed, and blank parts are left out.
pub fn split_predicates(s: &Vec<char>) -> (parts: Vec<Vec<char>>)
    ensures
        texts(parts@) == split_parts(s@),
{
    let mut parts: Vec<Vec<char>> = Vec::new();
    let mut start: usize = 0;
    let mut in_regex = false;
    let mut i: usize = 0;
    while i < s.len()
        invariant
            start <= i <= s.len(),
            split_parts(s@) == texts(parts@) + split_from(s@, start as int, i as int, in_regex),
        decreases s.len() - i,
    {
        let ch = s[i];
        if ch == '/' {
            in_regex = !in_regex;
        } else if ch == ',' && !in_regex {
            let piece = copy_range(s, start, i);
            let part = trim(&piece);
            let ghost before = texts(parts@);
            if part.len() > 0 {
                parts.push(part);
                assert(texts(parts@) =~= before + kept_part(piece@));
            } else {
                assert(texts(parts@) =~= before + kept_part(piece@));
            }
            assert(before + (kept_part(piece@) + split_from(s@, i + 1, i + 1, false)) =~= (before
                + kept_part(piece@)) + split_from(s@, i + 1, i + 1, false));
            start = i + 1;
            in_regex = false;
        }
        i += 1;
    }
    let piece = copy_range(s, start, s.len());
    let part = trim(&piece);
    let ghost before = texts(parts@);
    if part.len() > 0 {
        parts.push(part);
    }
    assert(texts(parts@) =~= before + kept_part(piece@));
    parts
}

/// Reads one predicate, `field=/regex/`.
pub fn parse_predicate(part: &Vec<char>) -> (r: Result<Pred, InvalidQuery>)
    ensures
        match predicate(part@) {
            Ok(p) => r == Ok::<Pred, InvalidQuery>(p),
            Err(e) => r is Err && r->Err_0@ == e,
        },
{
    let mut eq: usize = 0;
    while eq < part.len() && part[eq] != '='
        invariant
            eq <= part.len(),
            first_equals(part@, 0) == first_equals(part@, eq as int),
        decreases part.len() - eq,
    {
        eq += 1;
    }
    if eq >= part.len() {
        return Err(InvalidQuery::InvalidPredicate { text: string_of(part) });
    }
    let field = trim(&copy_range(part, 0, eq));
    let value = trim(&copy_range(part, eq + 1, part.len()));
    if value.len() < 2 || value[0] != '/' || value[value.len() - 1] != '/' {
        return Err(InvalidQuery::MissingDelimiters { field: string_of(&field) });
    }
    let pattern = string_of_range(&value, 1, value.len() - 1);
    let named = Field::from_name(&field);
    let source = match named {
        Some(Field::Text) => {
            let mut flagged = "(?s)".to_owned();
            flagged.append(pattern.as_str());
            flagged
        },
        _ => pattern,
    };
    match compile_regex(source.as_str()) {
        Err(err) => Err(
            InvalidQuery::InvalidRegex {
                field: string_of(&field),
                message: regex_error_text(&err),
            },
        ),
        Ok(re) => match named {
            None => Err(InvalidQuery::UnknownField { field: string_of(&field) }),
            Some(f) => Ok(Pred::new(f, re)),
        },
    }
}

/// Reads the predicates written in the group of a term.
pub fn parse_predicates(contents: &Vec<char>) -> (r: Result<Vec<Pred>, InvalidQuery>)
    ensures
        match predicate_list(contents@) {
            Ok(preds) => r is Ok && r->Ok_0@ == preds,
            Err(e) => r is Err && r->Err_0@ == e,
        },
{
    let inner = trim(contents);
    let mut preds: Vec<Pred> = Vec::new();
    if inner.len() == 0 {
        return Ok(preds);
    }
    let parts = split_predicates(&inner);
    let mut i: usize = 0;
    while i < parts.len()
        invariant
            i <= parts.len(),
            texts(parts@) == split_parts(inner@),
            predicate_list(contents@) == predicates_from(texts(parts@), 0),
            predicates_from(texts(parts@), 0) == match predicates_from(texts(parts@), i as int) {
                Err(e) => Err::<Seq<Pred>, InvalidQueryModel>(e),
                Ok(rest) => Ok(preds@ + rest),
            },
        decreases parts.len() - i,
    {
        assert(texts(parts@)[i as int] == parts@[i as int]@);
        match parse_predicate(&parts[i]) {
            Err(e) => {
                return Err(e);
            },
            Ok(p) => {
                let ghost before = preds@;
                preds.push(p);
                proof {
                    match predicates_from(texts(parts@), i + 1) {
                        Err(e) => {},
                        Ok(rest) => {
                            assert(before + (seq![p] + rest) =~= preds@ + rest);
                        },
                    }
                }
            },
        }
        i += 1;
    }
    assert(preds@ + Seq::<Pred>::empty() =~= preds@);
    Ok(preds)
}

/// A cursor over the characters of a query.
pub struct Parser {
    pub src: Vec<char>,
    pub pos: usize,
    pub next_id: usize,
}

impl Parser {
    /// The cursor stands inside the text, and no more terms have been
    /// numbered than characters have been read.
    pub open spec fn wf(&self) -> bool {
        &&& self.pos <= self.src.len()
        &&& self.next_id <= self.pos
    }

    /// A cursor at the start of `input` without its surrounding whitespace.
    pub fn new(input: &str) -> (r: Parser)
        ensures
            r.wf(),
            r.src@ == trimmed(input@),
            r.pos == 0,
            r.next_id == 0,
    {
        let chars = chars_of(input);
        Parser { src: trim(&chars), pos: 0, next_id: 0 }
    }

    /// The character under the cursor.
    pub fn peek_char(&self) -> (r: Option<char>)
        requires
            self.wf(),
        ensures
            r == if self.pos < self.src.len() {
                Some(self.src@[self.pos as int])
            } else {
                None
            },
    {
        if self.pos < self.src.len() {
            Some(self.src[self.pos])
        } else {
            None
        }
    }

    /// Takes the character under the cursor.
    pub fn next_char(&mut self) -> (r: Option<char>)
        requires
            old(self).wf(),
        ensures
            final(self).src == old(self).src,
            final(self).next_id == old(self).next_id,
            final(self).wf(),
            r == if old(self).pos < old(self).src.len() {
                Some(old(self).src@[old(self).pos as int])
            } else {
                None
            },
            final(self).pos == if r is Some {
                old(self).pos + 1
            } else {
                old(self).pos as int
            },
    {
        if self.pos < self.src.len() {
            let ch = self.src[self.pos];
            self.pos += 1;
            Some(ch)
        } else {
            None
        }
    }

    /// Whether the cursor stands at the end of the text.
    pub fn is_eof(&self) -> (r: bool)
        ensures
            r == (self.pos >= self.src.len()),
    {
        self.pos >= self.src.len()
    }

    /// Moves the cursor over whitespace.
    pub fn skip_ws(&mut self)
        requires
            old(self).wf(),
        ensures
            final(self).src == old(self).src,
            final(self).next_id == old(self).next_id,
            final(self).wf(),
            final(self).pos == skip_spaces(old(self).src@, old(self).pos as int),
            old(self).pos <= final(self).pos,
    {
        self.pos = skip_whitespace(&self.src, self.pos);
    }

    /// Skips whitespace, then takes the keyword `kw` if it stands there
    /// followed by `(` or whitespace.
    pub fn consume_keyword(&mut self, kw: &str) -> (r: bool)
        requires
            old(self).wf(),
        ensures
            final(self).src == old(self).src,
            final(self).next_id == old(self).next_id,
            final(self).wf(),
            r == keyword_at(old(self).src@, skip_spaces(old(self).src@, old(self).pos as int), kw@),
            final(self).pos == skip_spaces(old(self).src@, old(self).pos as int) + if r {
                kw@.len() as int
            } else {
                0
            },
    {
        self.skip_ws();
        let word = chars_of(kw);
        if self.src.len() - self.pos <= word.len() {
            return false;
        }
        let mut i: usize = 0;
        while i < word.len()
            invariant
                i <= word.len(),
                self.wf(),
                self.src == old(self).src,
                self.next_id == old(self).next_id,
                self.pos == skip_spaces(old(self).src@, old(self).pos as int),
                word@ == kw@,
                self.pos + word.len() < self.src.len(),
                forall|j: int| 0 <= j < i ==> self.src@[self.pos + j] == word@[j],
            decreases word.len() - i,
        {
            if self.src[self.pos + i] != word[i] {
                assert(self.src@.subrange(self.pos as int, self.pos + word.len())[i as int]
                    != word@[i as int]);
                return false;
            }
            i += 1;
        }
        assert(self.src@.subrange(self.pos as int, self.pos + word.len()) =~= word@);
        let after = self.src[self.pos + word.len()];
        if after == '(' || crate::text::is_whitespace(after) {
            self.pos += word.len();
            true
        } else {
            false
        }
    }

    /// Skips whitespace, then takes the character `ch`.
    pub fn expect(&mut self, ch: char) -> (r: Result<(), InvalidQuery>)
        requires
            old(self).wf(),
        ensures
            final(self).src == old(self).src,
            final(self).next_id == old(self).next_id,
            final(self).wf(),
            match expect_char(old(self).src@, old(self).pos as int, ch) {
                Ok(after) => r is Ok && final(self).pos == after,
                Err(e) => r is Err && r->Err_0@ == e,
            },
            r is Ok ==> old(self).pos < final(self).pos,
    {
        self.skip_ws();
        match self.peek_char() {
            Some(actual) => {
                if actual == ch {
                    self.pos += 1;
                    Ok(())
                } else {
                    Err(InvalidQuery::Expected { wanted: ch, found: Some(actual) })
                }
            },
            None => Err(InvalidQuery::Expected { wanted: ch, found: None }),
        }
    }

    /// Reads `( .. )` and returns what stands between the parentheses. A `/`
    /// opens or closes a regex literal, inside which parentheses do not count.
    pub fn read_group_contents(&mut self) -> (r: Result<Vec<char>, InvalidQuery>)
        requires
            old(self).wf(),
        ensures
            final(self).src == old(self).src,
            final(self).next_id == old(self).next_id,
            final(self).wf(),
            match group_contents(old(self).src@, old(self).pos as int) {
                Ok((contents, after)) => r is Ok && r->Ok_0@ == contents && final(self).pos
                    == after,
                Err(e) => r is Err && r->Err_0@ == e,
            },
            r is Ok ==> old(self).pos + 2 <= final(self).pos,
    {
        match self.expect('(') {
            Err(e) => {
                return Err(e);
            },
            Ok(_) => {},
        }
        let open = self.pos;
        let mut depth: usize = 1;
        let mut in_regex = false;
        loop
            invariant
                self.wf(),
                self.src == old(self).src,
                self.next_id == old(self).next_id,
                old(self).pos < open <= self.pos,
                1 <= depth <= self.pos - open + 1,
                expect_char(old(self).src@, old(self).pos as int, '(') == Ok::<int, InvalidQueryModel>(
                    open as int,
                ),
                group_close(self.src@, open as int, 1, false) == group_close(
                    self.src@,
                    self.pos as int,
                    depth as nat,
                    in_regex,
                ),
            decreases self.src.len() - self.pos,
        {
            match self.next_char() {
                None => {
                    return Err(InvalidQuery::UnterminatedGroup);
                },
                Some(ch) => {
                    if ch == '/' {
                        in_regex = !in_regex;
                    } else if ch == '(' && !in_regex {
                        depth += 1;
                    } else if ch == ')' && !in_regex {
                        if depth == 1 {
                            let contents = copy_range(&self.src, open, self.pos - 1);
                            return Ok(contents);
                        }
                        depth -= 1;
                    }
                },
            }
        }
    }

    /// Reads one term, `kind(predlist)`.
    pub fn parse_node_expr(&mut self) -> (r: Result<Expr, InvalidQuery>)
        requires
            old(self).wf(),
        ensures
            final(self).src == old(self).src,
            final(self).wf(),
            match term(old(self).src@, old(self).pos as int, old(self).next_id as nat) {
                Ok(parsed) => r is Ok && r->Ok_0@ == parsed.value && final(self).pos == parsed.pos
                    && final(self).next_id == parsed.next_id,
                Err(e) => r is Err && r->Err_0@ == e,
            },
            r is Ok ==> old(self).pos < final(self).pos,
    {
        self.skip_ws();
        let start = self.pos;
        while self.pos < self.src.len() && is_ascii_letter(self.src[self.pos])
            invariant
                self.src == old(self).src,
                self.next_id == old(self).next_id,
                start <= self.pos <= self.src.len(),
                self.next_id <= start,
                word_end(self.src@, start as int) == word_end(self.src@, self.pos as int),
            decreases self.src.len() - self.pos,
        {
            self.pos += 1;
        }
        let word = copy_range(&self.src, start, self.pos);
        proof {
            reveal_strlit("call");
            reveal_strlit("import");
            reveal_strlit("def");
            assert("call"@ =~= Kind::Call.keyword());
            assert("import"@ =~= Kind::Import.keyword());
            assert("def"@ =~= Kind::Def.keyword());
        }
        let kind = if spells(&word, "call") {
            Kind::Call
        } else if spells(&word, "import") {
            Kind::Import
        } else if spells(&word, "def") {
            Kind::Def
        } else if word.len() == 0 {
            return Err(InvalidQuery::ExpectedExpression);
        } else {
            return Err(InvalidQuery::UnknownKind { kind: string_of(&word) });
        };
        let contents = match self.read_group_contents() {
            Err(e) => {
                return Err(e);
            },
            Ok(contents) => contents,
        };
        let preds = match parse_predicates(&contents) {
            Err(e) => {
                return Err(e);
            },
            Ok(preds) => preds,
        };
        let id = self.next_id;
        self.next_id += 1;
        Ok(Expr::Node { id, kind, preds })
    }

    /// Reads a parenthesised list of operands.
    pub fn parse_expr_list(&mut self, depth: usize) -> (r: Result<Vec<Expr>, InvalidQuery>)
        requires
            old(self).wf(),
        ensures
            final(self).src == old(self).src,
            final(self).wf(),
            match operands(
                old(self).src@,
                old(self).pos as int,
                old(self).next_id as nat,
                depth as nat,
            ) {
                Ok(parsed) => r is Ok && models(r->Ok_0@) == parsed.value && final(self).pos
                    == parsed.pos && final(self).next_id == parsed.next_id,
                Err(e) => r is Err && r->Err_0@ == e,
            },
            r is Ok ==> old(self).pos < final(self).pos,
        decreases old(self).src.len() - old(self).pos, 0nat,
    {
        proof {
            lemma_skip_spaces_bounds(self.src@, self.pos as int);
        }
        match self.expect('(') {
            Err(e) => {
                return Err(e);
            },
            Ok(_) => {},
        }
        let ghost open = self.pos;
        let ghost first_id = self.next_id;
        let mut items: Vec<Expr> = Vec::new();
        assert(models(items@) =~= Seq::<ExprModel>::empty());
        loop
            invariant
                self.wf(),
                self.src == old(self).src,
                old(self).pos < open <= self.pos,
                operands(
                    old(self).src@,
                    old(self).pos as int,
                    old(self).next_id as nat,
                    depth as nat,
                ) == operands_after(
                    self.src@,
                    open as int,
                    first_id as nat,
                    Seq::empty(),
                    depth as nat,
                ),
                operands_after(self.src@, open as int, first_id as nat, Seq::empty(), depth as nat)
                    == operands_after(
                    self.src@,
                    self.pos as int,
                    self.next_id as nat,
                    models(items@),
                    depth as nat,
                ),
            decreases self.src.len() - self.pos,
        {
            let ghost at = self.pos;
            let ghost id = self.next_id;
            let ghost done = models(items@);
            proof {
                lemma_skip_spaces_bounds(self.src@, self.pos as int);
            }
            self.skip_ws();
            if self.peek_char() == Some(')') {
                self.pos += 1;
                return Ok(items);
            }
            let expr = match self.parse_expr(depth) {
                Err(e) => {
                    return Err(e);
                },
                Ok(expr) => expr,
            };
            let ghost item = expr@;
            items.push(expr);
            assert(models(items@) =~= done.push(item));
            proof {
                lemma_skip_spaces_bounds(self.src@, self.pos as int);
            }
            self.skip_ws();
            match self.peek_char() {
                Some(',') => {
                    self.pos += 1;
                },
                Some(')') => {
                    self.pos += 1;
                    return Ok(items);
                },
                Some(other) => {
                    return Err(InvalidQuery::UnexpectedInList { unexpected: other });
                },
                None => {
                    return Err(InvalidQuery::UnterminatedList);
                },
            }
        }
    }

    /// Reads one expression: a combinator with its operands, or a term.
    pub fn parse_expr(&mut self, depth: usize) -> (r: Result<Expr, InvalidQuery>)
        requires
            old(self).wf(),
        ensures
            final(self).src == old(self).src,
            final(self).wf(),
            match expression(
                old(self).src@,
                old(self).pos as int,
                old(self).next_id as nat,
                depth as nat,
            ) {
                Ok(parsed) => r is Ok && r->Ok_0@ == parsed.value && final(self).pos == parsed.pos
                    && final(self).next_id == parsed.next_id,
                Err(e) => r is Err && r->Err_0@ == e,
            },
            r is Ok ==> old(self).pos < final(self).pos,
        decreases old(self).src.len() - old(self).pos, 1nat,
    {
        proof {
            lemma_skip_spaces_bounds(self.src@, self.pos as int);
            reveal_strlit("and");
            reveal_strlit("or");
            reveal_strlit("not");
            assert("and"@ =~= word_and());
            assert("or"@ =~= word_or());
            assert("not"@ =~= word_not());
        }
        if self.consume_keyword("and") {
            if depth == 0 {
                return Err(InvalidQuery::TooDeep);
            }
            let items = match self.parse_expr_list(depth - 1) {
                Err(e) => {
                    return Err(e);
                },
                Ok(items) => items,
            };
            if items.len() == 0 {
                return Err(InvalidQuery::EmptyAnd);
            }
            let r = Expr::And(items);
            assert(r@ == ExprModel::And(models(items@))) by {
                assert(r@->And_0 =~= models(items@));
            }
            return Ok(r);
        }
        if self.consume_keyword("or") {
            if depth == 0 {
                return Err(InvalidQuery::TooDeep);
            }
            let items = match self.parse_expr_list(depth - 1) {
                Err(e) => {
                    return Err(e);
                },
                Ok(items) => items,
            };
            if items.len() == 0 {
                return Err(InvalidQuery::EmptyOr);
            }
            let r = Expr::Or(items);
            assert(r@ == ExprModel::Or(models(items@))) by {
                assert(r@->Or_0 =~= models(items@));
            }
            return Ok(r);
        }
        if self.consume_keyword("not") {
            if depth == 0 {
                return Err(InvalidQuery::TooDeep);
            }
            let mut items = match self.parse_expr_list(depth - 1) {
                Err(e) => {
                    return Err(e);
                },
                Ok(items) => items,
            };
            if items.len() != 1 {
                return Err(InvalidQuery::NotArity);
            }
            let ghost only = items@[0];
            let child = items.remove(0);
            assert(child == only);
            return Ok(Expr::Not(Box::new(child)));
        }
        self.parse_node_expr()
    }
}

/// Parses a query. The whole text is checked before anything is returned:
/// kinds, fields, the shape of every predicate and every regular expression.
/// Every text gets an answer: an expression or the reason why there is none.
pub fn parse_query(input: &str) -> (r: Result<Expr, InvalidQuery>)
    ensures
        match query(input@) {
            Ok(expr) => r is Ok && r->Ok_0@ == expr,
            Err(e) => r is Err && r->Err_0@ == e,
        },
        r matches Ok(expr) ==> expr@.well_formed() && expr@.has_operands(),
{
    proof {
        lemma_query_valid(input@);
    }
    let mut parser = Parser::new(input);
    let expr = match parser.parse_expr(MAX_NESTING) {
        Err(e) => {
            return Err(e);
        },
        Ok(expr) => expr,
    };
    parser.skip_ws();
    if !parser.is_eof() {
        return Err(
            InvalidQuery::TrailingInput { position: byte_offset(&parser.src, parser.pos) },
        );
    }
    Ok(expr)
}

} // verus!
