//! What the evaluation engine asks of a language: its name, its grammar, the
//! tree patterns of a term, and a last word on each match.

use crate::dsl::Expr;
use crate::dsl::ExprModel;
use crate::dsl::Kind;
use crate::languages::LangId;
use crate::syntax::compile_query;
use crate::syntax::compiled_query;
use crate::syntax::grammar_of;
use crate::syntax::query_error_text;
use crate::text::same_text;
use vstd::prelude::*;

verus! {

/// The captures of one structural match: capture label to captured text.
#[derive(Debug)]
pub struct CaptureBundle {
    entries: Vec<(String, String)>,
}

/// The mapping that a list of insertions leaves behind; a later insertion
/// under a label replaces an earlier one.
pub open spec fn bundle_map(entries: Seq<(Seq<char>, Seq<char>)>) -> Map<Seq<char>, Seq<char>>
    decreases entries.len(),
{
    if entries.len() == 0 {
        Map::empty()
    } else {
        bundle_map(entries.drop_last()).insert(entries.last().0, entries.last().1)
    }
}

impl CaptureBundle {
    pub closed spec fn entries(&self) -> Seq<(Seq<char>, Seq<char>)> {
        Seq::new(self.entries@.len(), |i: int| (self.entries@[i].0@, self.entries@[i].1@))
    }
}

impl View for CaptureBundle {
    type V = Map<Seq<char>, Seq<char>>;

    closed spec fn view(&self) -> Map<Seq<char>, Seq<char>> {
        bundle_map(self.entries())
    }
}

impl CaptureBundle {
    /// A bundle without captures.
    pub fn new() -> (r: CaptureBundle)
        ensures
            r@ == Map::<Seq<char>, Seq<char>>::empty(),
    {
        let r = CaptureBundle { entries: Vec::new() };
        assert(r.entries() =~= Seq::empty());
        r
    }

    /// Binds `key` to `value`; what `key` was bound to before is gone.
    pub fn insert(&mut self, key: String, value: String)
        ensures
            final(self)@ == old(self)@.insert(key@, value@),
    {
        let ghost before = self.entries();
        self.entries.push((key, value));
        assert(self.entries().drop_last() =~= before);
    }

    /// The text bound to `key`, if any.
    pub fn get(&self, key: &str) -> (r: Option<&str>)
        ensures
            match r {
                Some(text) => self@.contains_key(key@) && self@[key@] == text@,
                None => !self@.contains_key(key@),
            },
    {
        let mut i: usize = self.entries.len();
        assert(self.entries().subrange(0, i as int) =~= self.entries());
        while i > 0
            invariant
                i <= self.entries.len(),
                self@.contains_key(key@) == bundle_map(
                    self.entries().subrange(0, i as int),
                ).contains_key(key@),
                self@.contains_key(key@) ==> self@[key@] == bundle_map(
                    self.entries().subrange(0, i as int),
                )[key@],
            decreases i,
        {
            assert(self.entries().subrange(0, i as int).drop_last() =~= self.entries().subrange(
                0,
                i - 1,
            ));
            if same_text(self.entries[i - 1].0.as_str(), key) {
                return Some(self.entries[i - 1].1.as_str());
            }
            i -= 1;
        }
        None
    }
}

impl Default for CaptureBundle {
    fn default() -> (r: CaptureBundle)
        ensures
            r@ == Map::<Seq<char>, Seq<char>>::empty(),
    {
        CaptureBundle::new()
    }
}

/// Why an adapter has no patterns for an expression.
#[derive(Debug)]
pub enum CompileError {
    /// Only terms compile to patterns; combinators are the engine's business.
    Composite,
    /// The grammar refuses a pattern text.
    Rejected { message: String },
}

/// The patterns that `language` compiles from `sources`, one for one, or
/// `None` where it refuses one of them.
pub open spec fn compiled_all(language: tree_sitter::Language, sources: Seq<Seq<char>>) -> Option<
    Seq<tree_sitter::Query>,
>
    decreases sources.len(),
{
    if sources.len() == 0 {
        Some(Seq::empty())
    } else {
        match compiled_all(language, sources.drop_last()) {
            None => None,
            Some(queries) => match compiled_query(language, sources.last()) {
                None => None,
                Some(query) => Some(queries.push(query)),
            },
        }
    }
}

/// Where all of a list of pattern texts compile, there is one pattern for
/// each text.
pub proof fn lemma_compiled_all(language: tree_sitter::Language, sources: Seq<Seq<char>>)
    ensures
        compiled_all(language, sources) matches Some(queries) ==> {
            &&& queries.len() == sources.len()
            &&& forall|k: int|
                0 <= k < queries.len() ==> compiled_query(language, sources[k]) == Some(
                    #[trigger] queries[k],
                )
        },
    decreases sources.len(),
{
    if sources.len() > 0 {
        lemma_compiled_all(language, sources.drop_last());
    }
}

/// What a language contributes to the search: its grammar and the tree
/// patterns that stand for each kind of term.
pub trait LangAdapter {
    /// The language that this adapter speaks for. An adapter that does not
    /// say so leaves it open.
    open spec fn lang(&self) -> LangId {
        arbitrary()
    }

    /// The pattern texts that realise a kind of term in this language. An
    /// adapter that does not say so leaves them open.
    open spec fn patterns(&self, kind: Kind) -> Seq<Seq<char>> {
        arbitrary()
    }

    /// Whether a match with these captures is kept. By default every match is.
    open spec fn keeps(&self, caps: Map<Seq<char>, Seq<char>>) -> bool {
        true
    }

    /// Language identifier (e.g., "python", "javascript").
    fn name(&self) -> (r: &'static str)
        ensures
            r@ == self.lang().name(),
    ;

    /// The grammar of the language.
    fn language(&self) -> (r: tree_sitter::Language)
        ensures
            r == grammar_of(self.lang()),
    ;

    /// Compile a term into tree patterns. A combinator has none.
    fn compile(&self, expr: &Expr) -> (r: Result<Vec<tree_sitter::Query>, CompileError>)
        ensures
            match expr@ {
                ExprModel::Node { kind, .. } => match compiled_all(
                    grammar_of(self.lang()),
                    self.patterns(kind),
                ) {
                    Some(queries) => r is Ok && r->Ok_0@ == queries,
                    None => r is Err && r->Err_0 is Rejected,
                },
                _ => r is Err && r->Err_0 is Composite,
            },
    ;

    /// Optional post-processing filter on captures: whether the match is kept.
    fn post_capture_filter(&self, caps: &CaptureBundle) -> (r: bool)
        ensures
            r == self.keeps(caps@),
    ;
}

/// Compiles the one pattern text of a kind for `language`.
pub fn compile_source(language: &tree_sitter::Language, source: &str) -> (r: Result<
    Vec<tree_sitter::Query>,
    CompileError,
>)
    ensures
        match compiled_all(*language, seq![source@]) {
            Some(queries) => r is Ok && r->Ok_0@ == queries,
            None => r is Err && r->Err_0 is Rejected,
        },
{
    assert(seq![source@].drop_last() =~= Seq::<Seq<char>>::empty());
    assert(compiled_all(*language, Seq::empty()) == Some(Seq::<tree_sitter::Query>::empty()));
    match compile_query(language, source) {
        Ok(query) => {
            let mut queries: Vec<tree_sitter::Query> = Vec::new();
            queries.push(query);
            assert(queries@ =~= Seq::<tree_sitter::Query>::empty().push(query));
            Ok(queries)
        },
        Err(err) => Err(CompileError::Rejected { message: query_error_text(&err) }),
    }
}

} // verus!
