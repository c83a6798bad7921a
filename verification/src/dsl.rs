//! The query language: terms, predicates and boolean combinators.
//!
//! A query names a syntactic role and constrains the captures of a match with
//! regular expressions, for example `call(callee=/^axios\.(get|post)$/)` or
//! `and(call(callee=/foo/), not(import(module=/bar/)))`.

use crate::pattern::regex_is_match;
use crate::pattern::regex_matches;
use crate::text::chars_of;
use crate::text::decimal_text;
use crate::text::push_char;
use crate::text::push_decimal;
use crate::text::spells;
use vstd::prelude::*;
use vstd::string::StringExecFns;

verus! {

/// The syntactic role that a term looks for.
#[derive(Debug, Clone, Copy, PartialEq, Eq, Structural)]
pub enum Kind {
    Call,
    Import,
    Def,
}

impl Kind {
    /// The keyword that names this kind in a query.
    pub open spec fn keyword(self) -> Seq<char> {
        match self {
            Kind::Call => seq!['c', 'a', 'l', 'l'],
            Kind::Import => seq!['i', 'm', 'p', 'o', 'r', 't'],
            Kind::Def => seq!['d', 'e', 'f'],
        }
    }

    /// The keyword that names this kind in a query.
    pub fn name(&self) -> (r: &'static str)
        ensures
            r@ == self.keyword(),
    {
        match self {
            Kind::Call => {
                proof {
                    reveal_strlit("call");
                    assert("call"@ =~= Kind::Call.keyword());
                }
                "call"
            },
            Kind::Import => {
                proof {
                    reveal_strlit("import");
                    assert("import"@ =~= Kind::Import.keyword());
                }
                "import"
            },
            Kind::Def => {
                proof {
                    reveal_strlit("def");
                    assert("def"@ =~= Kind::Def.keyword());
                }
                "def"
            },
        }
    }
}

/// The capture that a predicate constrains.
#[derive(Debug, Clone, Copy, PartialEq, Eq, Structural)]
pub enum Field {
    Callee,
    Name,
    Module,
    Prop,
    Arg,
    Text,
}

impl Field {
    /// The name of this field in a query.
    pub open spec fn keyword(self) -> Seq<char> {
        match self {
            Field::Callee => seq!['c', 'a', 'l', 'l', 'e', 'e'],
            Field::Name => seq!['n', 'a', 'm', 'e'],
            Field::Module => seq!['m', 'o', 'd', 'u', 'l', 'e'],
            Field::Prop => seq!['p', 'r', 'o', 'p'],
            Field::Arg => seq!['a', 'r', 'g'],
            Field::Text => seq!['t', 'e', 'x', 't'],
        }
    }

    /// The field that `word` names, if any.
    pub open spec fn named(word: Seq<char>) -> Option<Field> {
        if word == Field::Callee.keyword() {
            Some(Field::Callee)
        } else if word == Field::Name.keyword() {
            Some(Field::Name)
        } else if word == Field::Module.keyword() {
            Some(Field::Module)
        } else if word == Field::Prop.keyword() {
            Some(Field::Prop)
        } else if word == Field::Arg.keyword() {
            Some(Field::Arg)
        } else if word == Field::Text.keyword() {
            Some(Field::Text)
        } else {
            None
        }
    }

    /// The field that `word` names, if any.
    pub fn from_name(word: &Vec<char>) -> (r: Option<Field>)
        ensures
            r == Field::named(word@),
    {
        proof {
            reveal_strlit("callee");
            reveal_strlit("name");
            reveal_strlit("module");
            reveal_strlit("prop");
            reveal_strlit("arg");
            reveal_strlit("text");
            assert("callee"@ =~= Field::Callee.keyword());
            assert("name"@ =~= Field::Name.keyword());
            assert("module"@ =~= Field::Module.keyword());
            assert("prop"@ =~= Field::Prop.keyword());
            assert("arg"@ =~= Field::Arg.keyword());
            assert("text"@ =~= Field::Text.keyword());
        }
        if spells(word, "callee") {
            Some(Field::Callee)
        } else if spells(word, "name") {
            Some(Field::Name)
        } else if spells(word, "module") {
            Some(Field::Module)
        } else if spells(word, "prop") {
            Some(Field::Prop)
        } else if spells(word, "arg") {
            Some(Field::Arg)
        } else if spells(word, "text") {
            Some(Field::Text)
        } else {
            None
        }
    }
}

/// A regular expression that one capture of a match has to satisfy.
#[derive(Debug, Clone)]
pub enum Pred {
    Callee(regex::Regex),
    Name(regex::Regex),
    Module(regex::Regex),
    Prop(regex::Regex),
    Arg(regex::Regex),
    /// Matches against the full text of the matched node.
    Text(regex::Regex),
}

impl Pred {
    /// The predicate on `field` with the expression `re`.
    pub open spec fn on(field: Field, re: regex::Regex) -> Pred {
        match field {
            Field::Callee => Pred::Callee(re),
            Field::Name => Pred::Name(re),
            Field::Module => Pred::Module(re),
            Field::Prop => Pred::Prop(re),
            Field::Arg => Pred::Arg(re),
            Field::Text => Pred::Text(re),
        }
    }

    /// The field that this predicate constrains.
    pub open spec fn field(self) -> Field {
        match self {
            Pred::Callee(_) => Field::Callee,
            Pred::Name(_) => Field::Name,
            Pred::Module(_) => Field::Module,
            Pred::Prop(_) => Field::Prop,
            Pred::Arg(_) => Field::Arg,
            Pred::Text(_) => Field::Text,
        }
    }

    /// The expression of this predicate.
    pub open spec fn expression(self) -> regex::Regex {
        match self {
            Pred::Callee(re) => re,
            Pred::Name(re) => re,
            Pred::Module(re) => re,
            Pred::Prop(re) => re,
            Pred::Arg(re) => re,
            Pred::Text(re) => re,
        }
    }

    /// Builds the predicate on `field` with the expression `re`.
    pub fn new(field: Field, re: regex::Regex) -> (r: Pred)
        ensures
            r == Pred::on(field, re),
    {
        match field {
            Field::Callee => Pred::Callee(re),
            Field::Name => Pred::Name(re),
            Field::Module => Pred::Module(re),
            Field::Prop => Pred::Prop(re),
            Field::Arg => Pred::Arg(re),
            Field::Text => Pred::Text(re),
        }
    }

    /// Whether this predicate is about the field called `field` and its
    /// expression matches `text`.
    pub fn matches(&self, field: &str, text: &str) -> (r: bool)
        ensures
            r == (field@ == self.field().keyword() && regex_matches(self.expression(), text@)),
    {
        let word = chars_of(field);
        match Field::from_name(&word) {
            Some(f) => match (self, f) {
                (Pred::Callee(re), Field::Callee) => regex_is_match(re, text),
                (Pred::Name(re), Field::Name) => regex_is_match(re, text),
                (Pred::Module(re), Field::Module) => regex_is_match(re, text),
                (Pred::Prop(re), Field::Prop) => regex_is_match(re, text),
                (Pred::Arg(re), Field::Arg) => regex_is_match(re, text),
                (Pred::Text(re), Field::Text) => regex_is_match(re, text),
                _ => false,
            },
            None => false,
        }
    }
}

/// Why a query text was refused.
#[derive(Debug)]
pub enum InvalidQuery {
    /// The character `wanted` had to come next; `found` came, or the end of the text.
    Expected { wanted: char, found: Option<char> },
    /// `and()` without operands.
    EmptyAnd,
    /// `or()` without operands.
    EmptyOr,
    /// `not(..)` with no operand or with more than one.
    NotArity,
    /// Combinators are nested deeper than the parser follows.
    TooDeep,
    /// A character that neither separates nor closes a list of operands.
    UnexpectedInList { unexpected: char },
    /// The text ended inside a list of operands.
    UnterminatedList,
    /// Where a term had to start there is no word.
    ExpectedExpression,
    /// The word in front of a group is none of `call`, `import`, `def`.
    UnknownKind { kind: String },
    /// The text ended inside the group of a term.
    UnterminatedGroup,
    /// A predicate without `=`.
    InvalidPredicate { text: String },
    /// The value of a predicate is not written between two `/`.
    MissingDelimiters { field: String },
    /// The expression of a predicate does not compile.
    InvalidRegex { field: String, message: String },
    /// The field of a predicate is not one the language knows.
    UnknownField { field: String },
    /// After a complete query, something that is not whitespace is left.
    /// `position` is its byte offset from the start of the trimmed text.
    TrailingInput { position: usize },
}

/// The mathematical value of an `InvalidQuery`. The wording that the regex engine
/// gives for a rejected expression is not part of it.
pub ghost enum InvalidQueryModel {
    Expected { wanted: char, found: Option<char> },
    EmptyAnd,
    EmptyOr,
    NotArity,
    TooDeep,
    UnexpectedInList { unexpected: char },
    UnterminatedList,
    ExpectedExpression,
    UnknownKind { kind: Seq<char> },
    UnterminatedGroup,
    InvalidPredicate { text: Seq<char> },
    MissingDelimiters { field: Seq<char> },
    InvalidRegex { field: Seq<char> },
    UnknownField { field: Seq<char> },
    TrailingInput { position: nat },
}

impl View for InvalidQuery {
    type V = InvalidQueryModel;

    open spec fn view(&self) -> InvalidQueryModel {
        match self {
            InvalidQuery::Expected { wanted, found } => InvalidQueryModel::Expected {
                wanted: *wanted,
                found: *found,
            },
            InvalidQuery::EmptyAnd => InvalidQueryModel::EmptyAnd,
            InvalidQuery::EmptyOr => InvalidQueryModel::EmptyOr,
            InvalidQuery::NotArity => InvalidQueryModel::NotArity,
            InvalidQuery::TooDeep => InvalidQueryModel::TooDeep,
            InvalidQuery::UnexpectedInList { unexpected } => InvalidQueryModel::UnexpectedInList {
                unexpected: *unexpected,
            },
            InvalidQuery::UnterminatedList => InvalidQueryModel::UnterminatedList,
            InvalidQuery::ExpectedExpression => InvalidQueryModel::ExpectedExpression,
            InvalidQuery::UnknownKind { kind } => InvalidQueryModel::UnknownKind { kind: kind@ },
            InvalidQuery::UnterminatedGroup => InvalidQueryModel::UnterminatedGroup,
            InvalidQuery::InvalidPredicate { text } => InvalidQueryModel::InvalidPredicate {
                text: text@,
            },
            InvalidQuery::MissingDelimiters { field } => InvalidQueryModel::MissingDelimiters {
                field: field@,
            },
            InvalidQuery::InvalidRegex { field, message } => InvalidQueryModel::InvalidRegex {
                field: field@,
            },
            InvalidQuery::UnknownField { field } => InvalidQueryModel::UnknownField {
                field: field@,
            },
            InvalidQuery::TrailingInput { position } => InvalidQueryModel::TrailingInput {
                position: *position as nat,
            },
        }
    }
}

impl InvalidQuery {
    /// What is wrong with the query, in words.
    pub open spec fn text(self) -> Seq<char> {
        match self {
            InvalidQuery::Expected { wanted, found: Some(c) } => "Expected '"@ + seq![wanted]
                + "' but found '"@ + seq![c] + "'"@,
            InvalidQuery::Expected { wanted, found: None } => "Expected '"@ + seq![wanted]
                + "' but found end of input"@,
            InvalidQuery::EmptyAnd => "and() requires at least one operand"@,
            InvalidQuery::EmptyOr => "or() requires at least one operand"@,
            InvalidQuery::NotArity => "not() requires exactly one operand"@,
            InvalidQuery::TooDeep => "Expression is nested too deeply"@,
            InvalidQuery::UnexpectedInList { unexpected } => "Unexpected character '"@
                + seq![unexpected] + "' in expression list"@,
            InvalidQuery::UnterminatedList => "Unterminated expression list"@,
            InvalidQuery::ExpectedExpression => "Expected expression"@,
            InvalidQuery::UnknownKind { kind } => "Unknown kind: "@ + kind@,
            InvalidQuery::UnterminatedGroup => "Unterminated group"@,
            InvalidQuery::InvalidPredicate { text } => "Invalid predicate format: "@ + text@,
            InvalidQuery::MissingDelimiters { field } => "Expected regex pattern like /.../ for "@
                + field@,
            InvalidQuery::InvalidRegex { field, message } => "Invalid regex for "@ + field@ + ": "@
                + message@,
            InvalidQuery::UnknownField { field } => "Unknown predicate field: "@ + field@,
            InvalidQuery::TrailingInput { position } => "Unexpected token at position "@
                + decimal_text(position as nat),
        }
    }

    /// What is wrong with the query, in words.
    pub fn message(&self) -> (r: String)
        ensures
            r@ == self.text(),
    {
        match self {
            InvalidQuery::Expected { wanted, found: Some(c) } => {
                let mut s = "Expected '".to_owned();
                push_char(&mut s, *wanted);
                s.append("' but found '");
                push_char(&mut s, *c);
                s.append("'");
                s
            },
            InvalidQuery::Expected { wanted, found: None } => {
                let mut s = "Expected '".to_owned();
                push_char(&mut s, *wanted);
                s.append("' but found end of input");
                s
            },
            InvalidQuery::EmptyAnd => "and() requires at least one operand".to_owned(),
            InvalidQuery::EmptyOr => "or() requires at least one operand".to_owned(),
            InvalidQuery::NotArity => "not() requires exactly one operand".to_owned(),
            InvalidQuery::TooDeep => "Expression is nested too deeply".to_owned(),
            InvalidQuery::UnexpectedInList { unexpected } => {
                let mut s = "Unexpected character '".to_owned();
                push_char(&mut s, *unexpected);
                s.append("' in expression list");
                s
            },
            InvalidQuery::UnterminatedList => "Unterminated expression list".to_owned(),
            InvalidQuery::ExpectedExpression => "Expected expression".to_owned(),
            InvalidQuery::UnknownKind { kind } => {
                let mut s = "Unknown kind: ".to_owned();
                s.append(kind.as_str());
                s
            },
            InvalidQuery::UnterminatedGroup => "Unterminated group".to_owned(),
            InvalidQuery::InvalidPredicate { text } => {
                let mut s = "Invalid predicate format: ".to_owned();
                s.append(text.as_str());
                s
            },
            InvalidQuery::MissingDelimiters { field } => {
                let mut s = "Expected regex pattern like /.../ for ".to_owned();
                s.append(field.as_str());
                s
            },
            InvalidQuery::InvalidRegex { field, message } => {
                let mut s = "Invalid regex for ".to_owned();
                s.append(field.as_str());
                s.append(": ");
                s.append(message.as_str());
                s
            },
            InvalidQuery::UnknownField { field } => {
                let mut s = "Unknown predicate field: ".to_owned();
                s.append(field.as_str());
                s
            },
            InvalidQuery::TrailingInput { position } => {
                let mut s = "Unexpected token at position ".to_owned();
                push_decimal(&mut s, *position);
                s
            },
        }
    }
}

/// A query: one term, or terms combined by `and`, `or` and `not`.
///
/// Every term carries the number it was given when the query was built; a
/// well-formed query uses each number once.
#[derive(Debug)]
pub enum Expr {
    Node { id: usize, kind: Kind, preds: Vec<Pred> },
    And(Vec<Expr>),
    Or(Vec<Expr>),
    Not(Box<Expr>),
}

/// The mathematical value of an `Expr`.
pub ghost enum ExprModel {
    Node { id: nat, kind: Kind, preds: Seq<Pred> },
    And(Seq<ExprModel>),
    Or(Seq<ExprModel>),
    Not(Box<ExprModel>),
}

impl Expr {
    pub open spec fn model(self) -> ExprModel
        decreases self,
    {
        match self {
            Expr::Node { id, kind, preds } => ExprModel::Node {
                id: id as nat,
                kind,
                preds: preds@,
            },
            Expr::And(children) => ExprModel::And(
                Seq::new(
                    children@.len(),
                    |i: int|
                        if 0 <= i < children@.len() {
                            children@[i].model()
                        } else {
                            arbitrary()
                        },
                ),
            ),
            Expr::Or(children) => ExprModel::Or(
                Seq::new(
                    children@.len(),
                    |i: int|
                        if 0 <= i < children@.len() {
                            children@[i].model()
                        } else {
                            arbitrary()
                        },
                ),
            ),
            Expr::Not(child) => ExprModel::Not(Box::new(child.model())),
        }
    }
}

impl View for Expr {
    type V = ExprModel;

    open spec fn view(&self) -> ExprModel {
        self.model()
    }
}

/// The models of a sequence of expressions, one for one.
pub open spec fn models(items: Seq<Expr>) -> Seq<ExprModel> {
    Seq::new(items.len(), |i: int| items[i]@)
}

/// One term of a query: its number, its kind and its predicates.
pub ghost struct Term {
    pub id: nat,
    pub kind: Kind,
    pub preds: Seq<Pred>,
}

impl ExprModel {
    /// The terms of this query, left to right.
    pub open spec fn terms(self) -> Seq<Term>
        decreases self, 0nat,
    {
        match self {
            ExprModel::Node { id, kind, preds } => seq![Term { id, kind, preds }],
            ExprModel::And(children) => ExprModel::terms_of(children, children.len()),
            ExprModel::Or(children) => ExprModel::terms_of(children, children.len()),
            ExprModel::Not(child) => child.terms(),
        }
    }

    /// The terms of the first `n` of `items`, left to right.
    pub open spec fn terms_of(items: Seq<ExprModel>, n: nat) -> Seq<Term>
        decreases items, n,
    {
        if n == 0 || n > items.len() {
            Seq::empty()
        } else {
            ExprModel::terms_of(items, (n - 1) as nat) + items[n - 1].terms()
        }
    }

    /// The numbers of the terms of this query, left to right.
    pub open spec fn ids(self) -> Seq<nat> {
        self.terms().map_values(|t: Term| t.id)
    }

    /// Whether every term of this query has a number of its own.
    pub open spec fn well_formed(self) -> bool {
        self.ids().no_duplicates()
    }

    /// Whether every `and` and every `or` in this query has an operand.
    pub open spec fn has_operands(self) -> bool
        decreases self, 0nat,
    {
        match self {
            ExprModel::Node { .. } => true,
            ExprModel::And(children) => children.len() > 0 && ExprModel::all_have_operands(
                children,
                children.len(),
            ),
            ExprModel::Or(children) => children.len() > 0 && ExprModel::all_have_operands(
                children,
                children.len(),
            ),
            ExprModel::Not(child) => child.has_operands(),
        }
    }

    /// Whether `has_operands` holds of the first `n` of `items`.
    pub open spec fn all_have_operands(items: Seq<ExprModel>, n: nat) -> bool
        decreases items, n,
    {
        if n == 0 || n > items.len() {
            true
        } else {
            ExprModel::all_have_operands(items, (n - 1) as nat) && items[n - 1].has_operands()
        }
    }

    /// Whether every term of this query is a term of `whole`.
    pub open spec fn within(self, whole: ExprModel) -> bool {
        forall|i: int|
            0 <= i < self.terms().len() ==> whole.terms().contains(#[trigger] self.terms()[i])
    }
}

/// Numbers as they stand in models.
pub open spec fn as_nats(ids: Seq<usize>) -> Seq<nat> {
    ids.map_values(|id: usize| id as nat)
}

impl Expr {
    /// Appends the numbers of the terms of this query to `out`, left to right.
    pub fn collect_ids(&self, out: &mut Vec<usize>)
        ensures
            as_nats(final(out)@) == as_nats(old(out)@) + self@.ids(),
        decreases self, 0nat,
    {
        match self {
            Expr::Node { id, .. } => {
                out.push(*id);
                assert(self@.ids() =~= seq![*id as nat]);
                assert(as_nats(out@) =~= as_nats(old(out)@) + self@.ids());
            },
            Expr::And(children) => {
                assert(self@->And_0 =~= models(children@));
                Expr::collect_ids_of(children, out);
            },
            Expr::Or(children) => {
                assert(self@->Or_0 =~= models(children@));
                Expr::collect_ids_of(children, out);
            },
            Expr::Not(child) => {
                assert(self@.terms() == child@.terms());
                child.collect_ids(out);
            },
        }
    }

    /// Appends the numbers of the terms of `children` to `out`.
    fn collect_ids_of(children: &Vec<Expr>, out: &mut Vec<usize>)
        ensures
            as_nats(final(out)@) == as_nats(old(out)@) + ExprModel::terms_of(
                models(children@),
                children@.len(),
            ).map_values(|t: Term| t.id),
        decreases children, 1nat,
    {
        let ghost items = models(children@);
        let mut i: usize = 0;
        assert(as_nats(out@) =~= as_nats(old(out)@) + ExprModel::terms_of(items, 0).map_values(
            |t: Term| t.id,
        ));
        while i < children.len()
            invariant
                i <= children.len(),
                items == models(children@),
                as_nats(out@) == as_nats(old(out)@) + ExprModel::terms_of(items, i as nat).map_values(
                    |t: Term| t.id,
                ),
            decreases children.len() - i,
        {
            let ghost before = as_nats(out@);
            assert(items[i as int] == children@[i as int]@);
            children[i].collect_ids(out);
            assert(ExprModel::terms_of(items, (i + 1) as nat).map_values(|t: Term| t.id)
                =~= ExprModel::terms_of(items, i as nat).map_values(|t: Term| t.id)
                + items[i as int].ids());
            assert(as_nats(out@) =~= as_nats(old(out)@) + ExprModel::terms_of(
                items,
                (i + 1) as nat,
            ).map_values(|t: Term| t.id));
            i += 1;
        }
    }

    /// Whether every term of this query has a number of its own, as every
    /// query that `parse_query` builds has.
    pub fn is_well_formed(&self) -> (r: bool)
        ensures
            r == self@.well_formed(),
    {
        let mut ids: Vec<usize> = Vec::new();
        self.collect_ids(&mut ids);
        assert(as_nats(ids@) =~= self@.ids());
        let mut i: usize = 0;
        while i < ids.len()
            invariant
                i <= ids.len(),
                as_nats(ids@) == self@.ids(),
                forall|a: int, b: int| 0 <= a < b < i ==> ids@[a] != ids@[b],
            decreases ids.len() - i,
        {
            let mut j: usize = 0;
            while j < i
                invariant
                    j <= i < ids.len(),
                    as_nats(ids@) == self@.ids(),
                    forall|a: int| 0 <= a < j ==> ids@[a] != ids@[i as int],
                decreases i - j,
            {
                if ids[j] == ids[i] {
                    assert(self@.ids()[j as int] == ids@[j as int] as nat);
                    assert(self@.ids()[i as int] == ids@[i as int] as nat);
                    return false;
                }
                j += 1;
            }
            i += 1;
        }
        assert forall|a: int, b: int|
            0 <= a < self@.ids().len() && 0 <= b < self@.ids().len() && a != b implies self@.ids()[a]
            != self@.ids()[b] by {
            assert(self@.ids()[a] == ids@[a] as nat);
            assert(self@.ids()[b] == ids@[b] as nat);
            if a < b {
                assert(ids@[a] != ids@[b]);
            } else {
                assert(ids@[b] != ids@[a]);
            }
        }
        true
    }
}

/// The terms of an operand are terms of the list it stands in.
pub proof fn lemma_terms_of_holds(items: Seq<ExprModel>, n: nat, k: int, i: int)
    requires
        0 <= k < n <= items.len(),
        0 <= i < items[k].terms().len(),
    ensures
        ExprModel::terms_of(items, n).contains(items[k].terms()[i]),
    decreases n,
{
    let before = ExprModel::terms_of(items, (n - 1) as nat);
    let all = ExprModel::terms_of(items, n);
    if k == n - 1 {
        assert(all[before.len() + i] == items[k].terms()[i]);
    } else {
        lemma_terms_of_holds(items, (n - 1) as nat, k, i);
        let j = choose|j: int| 0 <= j < before.len() && before[j] == items[k].terms()[i];
        assert(all[j] == items[k].terms()[i]);
    }
}

/// In a well-formed query a number belongs to one term only.
pub proof fn lemma_term_by_id(whole: ExprModel, a: Term, b: Term)
    requires
        whole.well_formed(),
        whole.terms().contains(a),
        whole.terms().contains(b),
        a.id == b.id,
    ensures
        a == b,
{
    let i = choose|i: int| 0 <= i < whole.terms().len() && whole.terms()[i] == a;
    let j = choose|j: int| 0 <= j < whole.terms().len() && whole.terms()[j] == b;
    assert(whole.ids()[i] == a.id);
    assert(whole.ids()[j] == b.id);
}

} // verus!
