//! What a query text means: the grammar of the query language as functions on
//! sequences of characters.
//!
//! ```text
//! expr     := 'and' '(' exprlist ')' | 'or' '(' exprlist ')' | 'not' '(' expr ')'
//!           | kind '(' predlist ')'
//! kind     := 'call' | 'import' | 'def'
//! predlist := field '=' '/' regex '/' { ',' field '=' '/' regex '/' }
//! ```
//!
//! A `/` opens or closes a regex literal; parentheses and commas between an
//! opening and a closing `/` belong to the literal.

use crate::dsl::ExprModel;
use crate::dsl::Field;
use crate::dsl::Kind;
use crate::dsl::Pred;
use crate::dsl::Term;
use crate::dsl::InvalidQueryModel;
use crate::pattern::compiled_regex;
use crate::text::byte_offset_of;
use crate::text::is_letter;
use crate::text::is_space;
use crate::text::lemma_skip_spaces_bounds;
use crate::text::skip_spaces;
use crate::text::trimmed;
use vstd::prelude::*;

verus! {

/// A value read from the text, where reading stopped, and the number that the
/// next term gets.
pub ghost struct Parsed<T> {
    pub value: T,
    pub pos: int,
    pub next_id: nat,
}

pub open spec fn word_and() -> Seq<char> {
    seq!['a', 'n', 'd']
}

pub open spec fn word_or() -> Seq<char> {
    seq!['o', 'r']
}

pub open spec fn word_not() -> Seq<char> {
    seq!['n', 'o', 't']
}

/// Whether `word` stands at `pos` and is followed by `(` or by whitespace, so
/// that a longer word that only starts like a keyword is not taken for one.
pub open spec fn keyword_at(s: Seq<char>, pos: int, word: Seq<char>) -> bool {
    &&& 0 <= pos
    &&& pos + word.len() < s.len()
    &&& s.subrange(pos, pos + word.len()) == word
    &&& (s[pos + word.len()] == '(' || is_space(s[pos + word.len()]))
}

/// Skips whitespace and reads the character `wanted`: the position behind it,
/// or what was found instead.
pub open spec fn expect_char(s: Seq<char>, pos: int, wanted: char) -> Result<
    int,
    InvalidQueryModel,
> {
    let p = skip_spaces(s, pos);
    if p < s.len() {
        if s[p] == wanted {
            Ok(p + 1)
        } else {
            Err(InvalidQueryModel::Expected { wanted, found: Some(s[p]) })
        }
    } else {
        Err(InvalidQueryModel::Expected { wanted, found: None })
    }
}

/// The position of the `)` that closes a group, scanning from `pos` with
/// `depth` groups open and `in_regex` telling whether a regex literal is open.
pub open spec fn group_close(s: Seq<char>, pos: int, depth: nat, in_regex: bool) -> Option<int>
    decreases s.len() - pos,
{
    if pos < 0 || pos >= s.len() {
        None
    } else if s[pos] == '/' {
        group_close(s, pos + 1, depth, !in_regex)
    } else if s[pos] == '(' && !in_regex {
        group_close(s, pos + 1, depth + 1, in_regex)
    } else if s[pos] == ')' && !in_regex {
        if depth <= 1 {
            Some(pos)
        } else {
            group_close(s, pos + 1, (depth - 1) as nat, in_regex)
        }
    } else {
        group_close(s, pos + 1, depth, in_regex)
    }
}

/// Reads `( .. )` and gives what stands between the parentheses.
pub open spec fn group_contents(s: Seq<char>, pos: int) -> Result<
    (Seq<char>, int),
    InvalidQueryModel,
> {
    match expect_char(s, pos, '(') {
        Err(e) => Err(e),
        Ok(open) => match group_close(s, open, 1, false) {
            None => Err(InvalidQueryModel::UnterminatedGroup),
            Some(close) => Ok((s.subrange(open, close), close + 1)),
        },
    }
}

/// A piece of a predicate list, trimmed; a blank piece counts for nothing.
pub open spec fn kept_part(piece: Seq<char>) -> Seq<Seq<char>> {
    if trimmed(piece).len() == 0 {
        Seq::empty()
    } else {
        seq![trimmed(piece)]
    }
}

/// The predicates of a list, split at the commas outside regex literals.
/// `start` is where the current piece began.
pub open spec fn split_from(s: Seq<char>, start: int, pos: int, in_regex: bool) -> Seq<Seq<char>>
    decreases s.len() - pos,
{
    if pos < 0 || pos >= s.len() || start < 0 || start > pos {
        if 0 <= start <= s.len() {
            kept_part(s.subrange(start, s.len() as int))
        } else {
            Seq::empty()
        }
    } else if s[pos] == '/' {
        split_from(s, start, pos + 1, !in_regex)
    } else if s[pos] == ',' && !in_regex {
        kept_part(s.subrange(start, pos)) + split_from(s, pos + 1, pos + 1, false)
    } else {
        split_from(s, start, pos + 1, in_regex)
    }
}

/// The predicates of a list, split at the commas outside regex literals.
pub open spec fn split_parts(s: Seq<char>) -> Seq<Seq<char>> {
    split_from(s, 0, 0, false)
}

/// The position of the first `=` at or after `pos`.
pub open spec fn first_equals(s: Seq<char>, pos: int) -> Option<int>
    decreases s.len() - pos,
{
    if pos < 0 || pos >= s.len() {
        None
    } else if s[pos] == '=' {
        Some(pos)
    } else {
        first_equals(s, pos + 1)
    }
}

/// The expression text that is compiled for a predicate. On `text`, which
/// sees a whole node and so often several lines, `.` matches a line feed
/// too: the pattern is compiled behind the flag `(?s)`.
pub open spec fn expression_source(field: Seq<char>, pattern: Seq<char>) -> Seq<char> {
    if Field::named(field) == Some(Field::Text) {
        "(?s)"@ + pattern
    } else {
        pattern
    }
}

/// One predicate, `field=/regex/`. The expression is compiled before the
/// field is looked up, so a bad expression is reported first.
pub open spec fn predicate(part: Seq<char>) -> Result<Pred, InvalidQueryModel> {
    match first_equals(part, 0) {
        None => Err(InvalidQueryModel::InvalidPredicate { text: part }),
        Some(eq) => {
            let field = trimmed(part.subrange(0, eq));
            let value = trimmed(part.subrange(eq + 1, part.len() as int));
            if value.len() < 2 || value[0] != '/' || value.last() != '/' {
                Err(InvalidQueryModel::MissingDelimiters { field })
            } else {
                let pattern = value.subrange(1, value.len() - 1);
                match compiled_regex(expression_source(field, pattern)) {
                    None => Err(InvalidQueryModel::InvalidRegex { field }),
                    Some(re) => match Field::named(field) {
                        None => Err(InvalidQueryModel::UnknownField { field }),
                        Some(f) => Ok(Pred::on(f, re)),
                    },
                }
            }
        },
    }
}

/// The predicates of `parts` from index `from` on; the first part that is
/// refused decides the error.
pub open spec fn predicates_from(parts: Seq<Seq<char>>, from: int) -> Result<
    Seq<Pred>,
    InvalidQueryModel,
>
    decreases parts.len() - from,
{
    if from < 0 || from >= parts.len() {
        Ok(Seq::empty())
    } else {
        match predicate(parts[from]) {
            Err(e) => Err(e),
            Ok(p) => match predicates_from(parts, from + 1) {
                Err(e) => Err(e),
                Ok(rest) => Ok(seq![p] + rest),
            },
        }
    }
}

/// The predicates written in the group of a term.
pub open spec fn predicate_list(contents: Seq<char>) -> Result<Seq<Pred>, InvalidQueryModel> {
    let inner = trimmed(contents);
    if inner.len() == 0 {
        Ok(Seq::empty())
    } else {
        predicates_from(split_parts(inner), 0)
    }
}

/// The end of the run of letters that starts at `pos`.
pub open spec fn word_end(s: Seq<char>, pos: int) -> int
    decreases s.len() - pos,
{
    if 0 <= pos < s.len() && is_letter(s[pos]) {
        word_end(s, pos + 1)
    } else {
        pos
    }
}

/// The kind that `word` names, if any.
pub open spec fn kind_named(word: Seq<char>) -> Option<Kind> {
    if word == Kind::Call.keyword() {
        Some(Kind::Call)
    } else if word == Kind::Import.keyword() {
        Some(Kind::Import)
    } else if word == Kind::Def.keyword() {
        Some(Kind::Def)
    } else {
        None
    }
}

/// One term, `kind(predlist)`, which gets the number `id`.
pub open spec fn term(s: Seq<char>, pos: int, id: nat) -> Result<
    Parsed<ExprModel>,
    InvalidQueryModel,
> {
    let start = skip_spaces(s, pos);
    let end = word_end(s, start);
    let word = s.subrange(start, end);
    if word.len() == 0 {
        Err(InvalidQueryModel::ExpectedExpression)
    } else {
        match kind_named(word) {
            None => Err(InvalidQueryModel::UnknownKind { kind: word }),
            Some(kind) => match group_contents(s, end) {
                Err(e) => Err(e),
                Ok((contents, after)) => match predicate_list(contents) {
                    Err(e) => Err(e),
                    Ok(preds) => Ok(
                        Parsed {
                            value: ExprModel::Node { id, kind, preds },
                            pos: after,
                            next_id: id + 1,
                        },
                    ),
                },
            },
        }
    }
}

/// How deep combinators may be nested in a query. The parser calls itself
/// once for every level, so the limit bounds the stack that it needs.
pub const MAX_NESTING: usize = 128;

/// One expression: a combinator with its operands, or a term. `depth` is how
/// many levels of combinators may still be opened.
pub open spec fn expression(s: Seq<char>, pos: int, id: nat, depth: nat) -> Result<
    Parsed<ExprModel>,
    InvalidQueryModel,
>
    decreases s.len() - pos, 1nat,
    when 0 <= pos <= s.len()
{
    let p = skip_spaces(s, pos);
    proof {
        lemma_skip_spaces_bounds(s, pos);
    }
    if keyword_at(s, p, word_and()) {
        match nested(s, p + 3, id, depth) {
            Err(e) => Err(e),
            Ok(list) => if list.value.len() == 0 {
                Err(InvalidQueryModel::EmptyAnd)
            } else {
                Ok(
                    Parsed {
                        value: ExprModel::And(list.value),
                        pos: list.pos,
                        next_id: list.next_id,
                    },
                )
            },
        }
    } else if keyword_at(s, p, word_or()) {
        match nested(s, p + 2, id, depth) {
            Err(e) => Err(e),
            Ok(list) => if list.value.len() == 0 {
                Err(InvalidQueryModel::EmptyOr)
            } else {
                Ok(
                    Parsed {
                        value: ExprModel::Or(list.value),
                        pos: list.pos,
                        next_id: list.next_id,
                    },
                )
            },
        }
    } else if keyword_at(s, p, word_not()) {
        match nested(s, p + 3, id, depth) {
            Err(e) => Err(e),
            Ok(list) => if list.value.len() != 1 {
                Err(InvalidQueryModel::NotArity)
            } else {
                Ok(
                    Parsed {
                        value: ExprModel::Not(Box::new(list.value[0])),
                        pos: list.pos,
                        next_id: list.next_id,
                    },
                )
            },
        }
    } else {
        term(s, p, id)
    }
}

/// The operands of a combinator, which open one more level of nesting.
pub open spec fn nested(s: Seq<char>, pos: int, id: nat, depth: nat) -> Result<
    Parsed<Seq<ExprModel>>,
    InvalidQueryModel,
>
    decreases s.len() - pos, 1nat,
    when 0 <= pos <= s.len()
{
    if depth == 0 {
        Err(InvalidQueryModel::TooDeep)
    } else {
        operands(s, pos, id, (depth - 1) as nat)
    }
}

/// A parenthesised list of operands, separated by commas; a comma may stand
/// before the closing parenthesis.
pub open spec fn operands(s: Seq<char>, pos: int, id: nat, depth: nat) -> Result<
    Parsed<Seq<ExprModel>>,
    InvalidQueryModel,
>
    decreases s.len() - pos, 0nat,
    when 0 <= pos <= s.len()
{
    proof {
        lemma_skip_spaces_bounds(s, pos);
    }
    match expect_char(s, pos, '(') {
        Err(e) => Err(e),
        Ok(open) => operands_after(s, open, id, Seq::empty(), depth),
    }
}

/// The rest of a list of operands, of which `done` have been read.
pub open spec fn operands_after(
    s: Seq<char>,
    pos: int,
    id: nat,
    done: Seq<ExprModel>,
    depth: nat,
) -> Result<
    Parsed<Seq<ExprModel>>,
    InvalidQueryModel,
>
    decreases s.len() - pos, 2nat,
    when 0 <= pos <= s.len()
{
    let p = skip_spaces(s, pos);
    proof {
        lemma_skip_spaces_bounds(s, pos);
    }
    if p < s.len() && s[p] == ')' {
        Ok(Parsed { value: done, pos: p + 1, next_id: id })
    } else {
        match expression(s, p, id, depth) {
            Err(e) => Err(e),
            Ok(item) => {
                let q = skip_spaces(s, item.pos);
                if q < 0 || q >= s.len() {
                    Err(InvalidQueryModel::UnterminatedList)
                } else if s[q] == ',' && pos <= q {
                    // An operand ends behind the place where it began, so
                    // `pos <= q` always holds here.
                    operands_after(s, q + 1, item.next_id, done.push(item.value), depth)
                } else if s[q] == ')' {
                    Ok(Parsed { value: done.push(item.value), pos: q + 1, next_id: item.next_id })
                } else {
                    Err(InvalidQueryModel::UnexpectedInList { unexpected: s[q] })
                }
            },
        }
    }
}

/// What a query text means: its expression, with the terms numbered from 0
/// left to right, or the reason why it is refused.
pub open spec fn query(input: Seq<char>) -> Result<ExprModel, InvalidQueryModel> {
    let s = trimmed(input);
    match expression(s, 0, 0, MAX_NESTING as nat) {
        Err(e) => Err(e),
        Ok(parsed) => {
            let rest = skip_spaces(s, parsed.pos);
            if 0 <= rest < s.len() {
                Err(InvalidQueryModel::TrailingInput { position: byte_offset_of(s, rest) })
            } else {
                Ok(parsed.value)
            }
        },
    }
}

/// Whether `terms` carry the numbers `from`, `from + 1`, .. up to `to`.
pub open spec fn numbered(terms: Seq<Term>, from: nat, to: nat) -> bool {
    &&& from <= to
    &&& terms.len() == to - from
    &&& forall|i: int| 0 <= i < terms.len() ==> (#[trigger] terms[i]).id == from + i
}

/// A group closes at or after the place where the scan starts.
pub proof fn lemma_group_close_bounds(s: Seq<char>, pos: int, depth: nat, in_regex: bool)
    requires
        0 <= pos,
    ensures
        group_close(s, pos, depth, in_regex) matches Some(close) ==> pos <= close < s.len(),
    decreases s.len() - pos,
{
    if pos < s.len() {
        if s[pos] == '/' {
            lemma_group_close_bounds(s, pos + 1, depth, !in_regex);
        } else if s[pos] == '(' && !in_regex {
            lemma_group_close_bounds(s, pos + 1, depth + 1, in_regex);
        } else if s[pos] == ')' && !in_regex {
            if depth > 1 {
                lemma_group_close_bounds(s, pos + 1, (depth - 1) as nat, in_regex);
            }
        } else {
            lemma_group_close_bounds(s, pos + 1, depth, in_regex);
        }
    }
}

/// The terms of the first `n` items do not depend on what follows them.
pub proof fn lemma_terms_of_prefix(a: Seq<ExprModel>, b: Seq<ExprModel>, n: nat)
    requires
        n <= a.len(),
        n <= b.len(),
        forall|i: int| 0 <= i < n ==> a[i] == b[i],
    ensures
        ExprModel::terms_of(a, n) == ExprModel::terms_of(b, n),
        ExprModel::all_have_operands(a, n) == ExprModel::all_have_operands(b, n),
    decreases n,
{
    if n > 0 {
        lemma_terms_of_prefix(a, b, (n - 1) as nat);
    }
}

/// A term that parses ends behind its start and takes one number.
pub proof fn lemma_term(s: Seq<char>, pos: int, id: nat)
    requires
        0 <= pos <= s.len(),
    ensures
        term(s, pos, id) matches Ok(parsed) ==> {
            &&& pos < parsed.pos <= s.len()
            &&& numbered(parsed.value.terms(), id, parsed.next_id)
            &&& parsed.value.has_operands()
        },
{
    lemma_skip_spaces_bounds(s, pos);
    let start = skip_spaces(s, pos);
    lemma_word_end_bounds(s, start);
    let end = word_end(s, start);
    lemma_skip_spaces_bounds(s, end);
    let open = skip_spaces(s, end) + 1;
    lemma_group_close_bounds(s, open, 1, false);
}

/// A run of letters ends at or after its start, within the text.
pub proof fn lemma_word_end_bounds(s: Seq<char>, pos: int)
    requires
        0 <= pos <= s.len(),
    ensures
        pos <= word_end(s, pos) <= s.len(),
    decreases s.len() - pos,
{
    if pos < s.len() && is_letter(s[pos]) {
        lemma_word_end_bounds(s, pos + 1);
    }
}

/// An expression that parses ends behind its start, numbers its terms
/// consecutively from `id`, and gives every `and` and `or` an operand.
pub proof fn lemma_expression(s: Seq<char>, pos: int, id: nat, depth: nat)
    requires
        0 <= pos <= s.len(),
    ensures
        expression(s, pos, id, depth) matches Ok(parsed) ==> {
            &&& pos < parsed.pos <= s.len()
            &&& numbered(parsed.value.terms(), id, parsed.next_id)
            &&& parsed.value.has_operands()
        },
    decreases s.len() - pos, 1nat,
{
    lemma_skip_spaces_bounds(s, pos);
    let p = skip_spaces(s, pos);
    if depth > 0 && keyword_at(s, p, word_and()) {
        lemma_operands(s, p + 3, id, (depth - 1) as nat);
    } else if depth > 0 && keyword_at(s, p, word_or()) {
        lemma_operands(s, p + 2, id, (depth - 1) as nat);
    } else if depth > 0 && keyword_at(s, p, word_not()) {
        lemma_operands(s, p + 3, id, (depth - 1) as nat);
        match operands(s, p + 3, id, (depth - 1) as nat) {
            Ok(list) => {
                if list.value.len() == 1 {
                    assert(ExprModel::terms_of(list.value, 0) =~= Seq::<Term>::empty());
                    assert(ExprModel::terms_of(list.value, 1) =~= list.value[0].terms());
                    assert(ExprModel::all_have_operands(list.value, 0));
                }
            },
            Err(_) => {},
        }
    } else if depth > 0 {
        lemma_term(s, p, id);
    } else if !keyword_at(s, p, word_and()) && !keyword_at(s, p, word_or()) && !keyword_at(
        s,
        p,
        word_not(),
    ) {
        lemma_term(s, p, id);
    }
}

/// A list of operands that parses ends behind its start and numbers the
/// terms of its operands consecutively from `id`.
pub proof fn lemma_operands(s: Seq<char>, pos: int, id: nat, depth: nat)
    requires
        0 <= pos <= s.len(),
    ensures
        operands(s, pos, id, depth) matches Ok(parsed) ==> {
            &&& pos < parsed.pos <= s.len()
            &&& numbered(
                ExprModel::terms_of(parsed.value, parsed.value.len()),
                id,
                parsed.next_id,
            )
            &&& ExprModel::all_have_operands(parsed.value, parsed.value.len())
        },
    decreases s.len() - pos, 0nat,
{
    lemma_skip_spaces_bounds(s, pos);
    match expect_char(s, pos, '(') {
        Err(_) => {},
        Ok(open) => {
            lemma_operands_after(s, open, id, Seq::empty(), id, depth);
        },
    }
}

/// The rest of a list of operands continues the numbering of what has been
/// read.
pub proof fn lemma_operands_after(
    s: Seq<char>,
    pos: int,
    id: nat,
    done: Seq<ExprModel>,
    first: nat,
    depth: nat,
)
    requires
        0 <= pos <= s.len(),
        numbered(ExprModel::terms_of(done, done.len()), first, id),
        ExprModel::all_have_operands(done, done.len()),
    ensures
        operands_after(s, pos, id, done, depth) matches Ok(parsed) ==> {
            &&& pos < parsed.pos <= s.len()
            &&& numbered(
                ExprModel::terms_of(parsed.value, parsed.value.len()),
                first,
                parsed.next_id,
            )
            &&& ExprModel::all_have_operands(parsed.value, parsed.value.len())
        },
    decreases s.len() - pos, 2nat,
{
    lemma_skip_spaces_bounds(s, pos);
    let p = skip_spaces(s, pos);
    if p < s.len() && s[p] == ')' {
    } else {
        lemma_expression(s, p, id, depth);
        match expression(s, p, id, depth) {
            Err(_) => {},
            Ok(item) => {
                lemma_skip_spaces_bounds(s, item.pos);
                let q = skip_spaces(s, item.pos);
                let more = done.push(item.value);
                lemma_terms_of_prefix(more, done, done.len());
                assert(more[done.len() as int] == item.value);
                assert(numbered(ExprModel::terms_of(more, more.len()), first, item.next_id));
                if q < s.len() && s[q] == ',' {
                    lemma_operands_after(s, q + 1, item.next_id, more, first, depth);
                }
            },
        }
    }
}

/// Consecutive numbers are all different.
pub proof fn lemma_numbered_well_formed(expr: ExprModel, from: nat, to: nat)
    requires
        numbered(expr.terms(), from, to),
    ensures
        expr.well_formed(),
{
    assert forall|i: int, j: int|
        0 <= i < expr.ids().len() && 0 <= j < expr.ids().len() && i != j implies expr.ids()[i]
        != expr.ids()[j] by {
        assert(expr.ids()[i] == expr.terms()[i].id);
        assert(expr.ids()[j] == expr.terms()[j].id);
    }
}

/// Every query that parses is well-formed: its terms carry the numbers 0, 1,
/// 2, .. from left to right, and every `and` and `or` has an operand.
pub proof fn lemma_query_valid(input: Seq<char>)
    ensures
        query(input) matches Ok(expr) ==> {
            &&& expr.well_formed()
            &&& expr.has_operands()
            &&& numbered(expr.terms(), 0, expr.terms().len())
        },
{
    let s = trimmed(input);
    lemma_expression(s, 0, 0, MAX_NESTING as nat);
    match expression(s, 0, 0, MAX_NESTING as nat) {
        Ok(parsed) => {
            lemma_numbered_well_formed(parsed.value, 0, parsed.next_id);
        },
        Err(_) => {},
    }
}

} // verus!
