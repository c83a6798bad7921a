//! The evaluation engine: runs the patterns of each term over one file's
//! syntax tree, keeps the matches that the predicates accept, and combines
//! the terms by set algebra.

use crate::adapter::CaptureBundle;
use crate::adapter::compiled_all;
use crate::adapter::CompileError;
use crate::adapter::LangAdapter;
use crate::adapter::lemma_compiled_all;
use crate::dsl::Expr;
use crate::dsl::ExprModel;
use crate::dsl::lemma_term_by_id;
use crate::dsl::lemma_terms_of_holds;
use crate::dsl::models;
use crate::dsl::Pred;
use crate::dsl::Term;
use crate::pattern::regex_is_match;
use crate::records::CaptureSummary;
use crate::records::MatchMap;
use crate::records::MatchRecord;
use crate::records::MatchRecordModel;
use crate::records::record_models;
use crate::semantics::all_compile;
use crate::semantics::bundle;
use crate::semantics::capture_matches;
use crate::semantics::captured;
use crate::semantics::collected;
use crate::semantics::collected_of;
use crate::semantics::compiles;
use crate::semantics::eval;
use crate::semantics::gathered;
use crate::semantics::gathered_all;
use crate::semantics::line_of;
use crate::semantics::lookup;
use crate::semantics::outcome;
use crate::semantics::pred_holds;
use crate::semantics::preds_hold;
use crate::semantics::ProcessErrorModel;
use crate::semantics::record;
use crate::semantics::Scene;
use crate::semantics::span_text;
use crate::semantics::summary;
use crate::semantics::term_records;
use crate::semantics::universe;
use crate::source::is_probably_binary;
use crate::source::line_starts;
use crate::source::LineIndex;
use crate::source::lossy_string;
use crate::source::make_chunk_id;
use crate::source::slice_with_context;
use crate::syntax::capture_models;
use crate::syntax::compiled_query;
use crate::syntax::grammar_of;
use crate::syntax::match_models;
use crate::syntax::parse_tree;
use crate::syntax::parsed;
use crate::syntax::RawCapture;
use crate::syntax::root_span;
use crate::syntax::run_query;
use crate::syntax::Span;
use crate::syntax::tree_has_error;
use crate::syntax::tree_root_span;
use std::collections::HashMap;
use vstd::prelude::*;
use vstd::slice::slice_subrange;
use vstd::std_specs::hash::group_hash_axioms;

verus! {

broadcast use group_hash_axioms;

/// Why a file yields an error in place of records.
#[derive(Debug)]
pub enum ProcessError {
    /// The parser gave no tree.
    Parse,
    /// The text does not parse under the grammar of its language.
    Syntax,
    /// The grammar refuses the patterns of a term; `message` is what it says.
    Pattern { message: String },
    /// The file could not be read; `message` is what the reader says. The
    /// engine never gives this error: it is for the caller that reads files.
    Unreadable { message: String },
}

impl View for ProcessError {
    type V = ProcessErrorModel;

    open spec fn view(&self) -> ProcessErrorModel {
        match self {
            ProcessError::Parse => ProcessErrorModel::Parse,
            ProcessError::Syntax => ProcessErrorModel::Syntax,
            ProcessError::Pattern { .. } => ProcessErrorModel::Pattern,
            ProcessError::Unreadable { .. } => ProcessErrorModel::Unreadable,
        }
    }
}

/// The 1-based line of a 0-based row.
pub fn line_number(row: usize) -> (r: u32)
    ensures
        r == line_of(row),
{
    if row >= u32::MAX as usize {
        u32::MAX
    } else {
        (row + 1) as u32
    }
}

/// The text that a span covers.
pub fn node_text(src: &[u8], span: &Span) -> (r: String)
    ensures
        r@ == span_text(src@, *span),
{
    if span.start_byte <= span.end_byte && span.end_byte <= src.len() {
        lossy_string(slice_subrange(src, span.start_byte, span.end_byte))
    } else {
        String::new()
    }
}

/// Whether `bundle` binds `label` to a text that `re` matches.
fn capture_is_match(bundle: &CaptureBundle, label: &str, re: &regex::Regex) -> (r: bool)
    ensures
        r == capture_matches(bundle@, label@, *re),
{
    match bundle.get(label) {
        Some(text) => regex_is_match(re, text),
        None => false,
    }
}

/// Apply the predicates of a term to a capture bundle: all of them have to
/// hold, and a predicate whose capture is missing does not hold.
pub fn apply_predicates(preds: &Vec<Pred>, bundle: &CaptureBundle) -> (r: bool)
    ensures
        r == preds_hold(preds@, bundle@),
{
    let mut i: usize = 0;
    while i < preds.len()
        invariant
            i <= preds.len(),
            forall|j: int| 0 <= j < i ==> pred_holds(#[trigger] preds@[j], bundle@),
        decreases preds.len() - i,
    {
        let matched = match &preds[i] {
            Pred::Callee(re) => capture_is_match(bundle, "callee_id", re) || capture_is_match(
                bundle,
                "prop",
                re,
            ),
            Pred::Name(re) => capture_is_match(bundle, "name", re),
            Pred::Module(re) => capture_is_match(bundle, "module", re),
            Pred::Prop(re) => capture_is_match(bundle, "prop", re),
            Pred::Arg(_) => true,
            Pred::Text(re) => capture_is_match(bundle, "__node_text", re),
        };
        if !matched {
            return false;
        }
        i += 1;
    }
    true
}

/// An owned copy of the text bound to `label`, if any.
fn captured_text(bundle: &CaptureBundle, label: &str) -> (r: Option<String>)
    ensures
        crate::records::opt_text(r) == lookup(bundle@, label@),
{
    match bundle.get(label) {
        Some(text) => Some(text.to_owned()),
        None => None,
    }
}

/// What a record tells of the captures of its match.
pub fn summarize(bundle: &CaptureBundle) -> (r: CaptureSummary)
    ensures
        r@ == summary(bundle@),
{
    let callee = match captured_text(bundle, "callee_id") {
        Some(text) => Some(text),
        None => captured_text(bundle, "prop"),
    };
    CaptureSummary {
        callee,
        object: captured_text(bundle, "obj"),
        attr: captured_text(bundle, "attr"),
        module: captured_text(bundle, "module"),
        name: captured_text(bundle, "name"),
    }
}

/// The capture bundle of a match: every capture by its label, and the text of
/// the matched node under `__node_text`.
pub fn bundle_of(captures: &Vec<RawCapture>, root: &Span, src: &[u8]) -> (r: CaptureBundle)
    ensures
        r@ == bundle(capture_models(captures@), *root, src@),
{
    let mut out = CaptureBundle::new();
    let mut i: usize = 0;
    while i < captures.len()
        invariant
            i <= captures.len(),
            out@ == captured(capture_models(captures@), src@, i as nat),
        decreases captures.len() - i,
    {
        let text = node_text(src, &captures[i].span);
        out.insert(captures[i].name.clone(), text);
        i += 1;
    }
    let span = if captures.len() > 0 {
        captures[0].span
    } else {
        *root
    };
    out.insert("__node_text".to_owned(), node_text(src, &span));
    out
}

/// One file under evaluation.
struct EvalContext<'a, A: LangAdapter> {
    adapter: &'a A,
    tree: tree_sitter::Tree,
    src: &'a [u8],
    line_index: LineIndex,
    path: &'a str,
    context_lines: u32,
    lang_name: &'a str,
    /// The records of the terms that have been evaluated, by term number.
    node_cache: HashMap<usize, MatchMap>,
    /// What `not` takes its complement in, once it has been computed.
    universe: Option<MatchMap>,
    /// The query that the terms under evaluation belong to.
    root: Ghost<ExprModel>,
}

impl<'a, A: LangAdapter> EvalContext<'a, A> {
    /// The file as the meaning of a query sees it.
    spec fn scene(&self) -> Scene {
        Scene {
            tree: self.tree,
            src: self.src@,
            path: self.path@,
            lang_name: self.lang_name@,
            context_lines: self.context_lines,
        }
    }

    /// The records that `not` takes its complement in.
    spec fn universe_model(&self) -> Seq<MatchRecordModel> {
        match self.universe {
            Some(u) => u@,
            None => Seq::empty(),
        }
    }

    /// The tree belongs to the bytes, the line index too, the query is
    /// well-formed, and what the cache holds under the number of a term are
    /// the records of that term.
    spec fn inv(&self) -> bool {
        &&& parsed(grammar_of(self.adapter.lang()), self.src@) == Some(self.tree)
        &&& self.line_index@ == line_starts(self.src@)
        &&& self.root@.well_formed()
        &&& self.universe matches Some(u) ==> u.wf()
        &&& forall|id: usize, i: int|
            #![trigger self.node_cache@.contains_key(id), self.root@.terms()[i]]
            self.node_cache@.contains_key(id) && 0 <= i < self.root@.terms().len()
                && self.root@.terms()[i].id == id ==> {
                &&& self.node_cache@[id].wf()
                &&& compiles(*self.adapter, self.root@.terms()[i].kind)
                &&& self.node_cache@[id]@ == term_records(
                    *self.adapter,
                    self.scene(),
                    self.root@.terms()[i].kind,
                    self.root@.terms()[i].preds,
                )
            }
    }

    /// Evaluation touches nothing but the cache, which only grows.
    spec fn follows(&self, before: &Self) -> bool {
        &&& self.adapter == before.adapter
        &&& self.tree == before.tree
        &&& self.src == before.src
        &&& self.line_index == before.line_index
        &&& self.path == before.path
        &&& self.context_lines == before.context_lines
        &&& self.lang_name == before.lang_name
        &&& self.universe == before.universe
        &&& self.root == before.root
        &&& forall|id: usize|
            before.node_cache@.contains_key(id) ==> #[trigger] self.node_cache@.contains_key(id)
    }

    /// The record of a match.
    fn make_record(&self, captures: &Vec<RawCapture>, root: &Span, caps: &CaptureBundle) -> (r:
        MatchRecord)
        requires
            self.inv(),
            *root == root_span(self.tree),
            caps@ == bundle(capture_models(captures@), *root, self.src@),
        ensures
            r@ == record(self.scene(), capture_models(captures@)),
    {
        let span = if captures.len() > 0 {
            captures[0].span
        } else {
            *root
        };
        let start_line = line_number(span.start_row);
        let end_line = line_number(span.end_row);
        let chunk_id = make_chunk_id(self.path, start_line, end_line);
        let excerpt = slice_with_context(
            self.src,
            &self.line_index,
            start_line,
            end_line,
            self.context_lines,
        );
        MatchRecord {
            lang: Some(self.lang_name.to_owned()),
            path: self.path.to_owned(),
            start_line,
            end_line,
            chunk_id,
            excerpt,
            capture: summarize(caps),
        }
    }

    /// The records of a term. A term is evaluated once per file: a second
    /// call with its number is answered from the cache.
    fn eval_node(&mut self, expr: &Expr) -> (r: Result<MatchMap, ProcessError>)
        requires
            old(self).inv(),
            expr@ is Node,
            expr@.within(old(self).root@),
        ensures
            final(self).inv(),
            final(self).follows(old(self)),
            match r {
                Ok(map) => {
                    &&& map.wf()
                    &&& compiles(*old(self).adapter, expr@->kind)
                    &&& map@ == term_records(
                        *old(self).adapter,
                        old(self).scene(),
                        expr@->kind,
                        expr@->preds,
                    )
                },
                Err(e) => !compiles(*old(self).adapter, expr@->kind) && e@
                    == ProcessErrorModel::Pattern,
            },
    {
        let (id, preds) = match expr {
            Expr::Node { id, preds, .. } => (*id, preds),
            _ => {
                return Ok(MatchMap::new());
            },
        };
        let ghost term = Term { id: id as nat, kind: expr@->kind, preds: preds@ };
        proof {
            assert(expr@.terms()[0] == term);
            assert(self.root@.terms().contains(term));
        }
        let ghost at = choose|i: int|
            0 <= i < self.root@.terms().len() && self.root@.terms()[i] == term;
        match self.node_cache.get(&id) {
            Some(cached) => {
                assert(self.node_cache@.contains_key(id));
                assert(self.root@.terms()[at].id == id);
                return Ok(cached.duplicate());
            },
            None => {},
        }
        let queries = match self.adapter.compile(expr) {
            Ok(queries) => queries,
            Err(CompileError::Rejected { message }) => {
                return Err(ProcessError::Pattern { message });
            },
            Err(CompileError::Composite) => {
                return Err(ProcessError::Pattern { message: String::new() });
            },
        };
        let ghost language = grammar_of(self.adapter.lang());
        let ghost sources = self.adapter.patterns(expr@->kind);
        proof {
            lemma_compiled_all(language, sources);
        }
        let root = tree_root_span(&self.tree);
        let mut map = MatchMap::new();
        let mut q: usize = 0;
        while q < queries.len()
            invariant
                q <= queries.len(),
                self.inv(),
                *self == *old(self),
                root == root_span(self.tree),
                language == grammar_of(self.adapter.lang()),
                compiled_all(language, sources) == Some(queries@),
                queries@.len() == sources.len(),
                forall|k: int|
                    0 <= k < queries@.len() ==> compiled_query(language, sources[k]) == Some(
                        #[trigger] queries@[k],
                    ),
                map.wf(),
                map@ == gathered_all(*self.adapter, self.scene(), preds@, queries@, q as nat),
            decreases queries.len() - q,
        {
            assert(compiled_query(language, sources[q as int]) == Some(queries@[q as int]));
            let matches = run_query(&queries[q], &self.tree, self.src);
            let ghost found = match_models(matches@);
            let ghost base = map@;
            let mut m: usize = 0;
            while m < matches.len()
                invariant
                    m <= matches.len(),
                    self.inv(),
                    *self == *old(self),
                    root == root_span(self.tree),
                    found == match_models(matches@),
                    map.wf(),
                    map@ == gathered(*self.adapter, self.scene(), preds@, found, m as nat, base),
                decreases matches.len() - m,
            {
                assert(found[m as int] == capture_models(matches@[m as int]@));
                let caps = bundle_of(&matches[m], &root, self.src);
                if self.adapter.post_capture_filter(&caps) && apply_predicates(preds, &caps) {
                    let record = self.make_record(&matches[m], &root, &caps);
                    map.insert_if_absent(record);
                }
                m += 1;
            }
            q += 1;
        }
        let ghost before = self.node_cache@;
        self.node_cache.insert(id, map.duplicate());
        proof {
            assert forall|other: usize, i: int|
                #![trigger self.node_cache@.contains_key(other), self.root@.terms()[i]]
                self.node_cache@.contains_key(other) && 0 <= i < self.root@.terms().len()
                    && self.root@.terms()[i].id == other implies {
                &&& self.node_cache@[other].wf()
                &&& compiles(*self.adapter, self.root@.terms()[i].kind)
                &&& self.node_cache@[other]@ == term_records(
                    *self.adapter,
                    self.scene(),
                    self.root@.terms()[i].kind,
                    self.root@.terms()[i].preds,
                )
            } by {
                if other == id {
                    assert(self.root@.terms().contains(self.root@.terms()[i]));
                    lemma_term_by_id(self.root@, self.root@.terms()[i], term);
                } else {
                    assert(before.contains_key(other));
                }
            }
        }
        Ok(map)
    }

    /// Adds to `map` the records of every term of `expr`, wherever in the
    /// query the term stands.
    fn collect_node_matches(&mut self, expr: &Expr, map: &mut MatchMap) -> (r: Result<
        (),
        ProcessError,
    >)
        requires
            old(self).inv(),
            old(map).wf(),
            expr@.within(old(self).root@),
        ensures
            final(self).inv(),
            final(self).follows(old(self)),
            final(map).wf(),
            match r {
                Ok(_) => {
                    &&& all_compile(*old(self).adapter, expr@)
                    &&& final(map)@ == collected(
                        *old(self).adapter,
                        old(self).scene(),
                        expr@,
                        old(map)@,
                    )
                },
                Err(e) => !all_compile(*old(self).adapter, expr@) && e@
                    == ProcessErrorModel::Pattern,
            },
        decreases expr, 0nat,
    {
        match expr {
            Expr::Node { .. } => {
                assert(expr@.terms().len() == 1);
                assert(expr@.terms()[0].kind == expr@->kind);
                match self.eval_node(expr) {
                    Err(e) => Err(e),
                    Ok(matches) => {
                        map.merge_from(matches);
                        Ok(())
                    },
                }
            },
            Expr::And(children) => {
                proof {
                    assert(expr@->And_0 =~= models(children@));
                    lemma_operands_within(expr@->And_0, expr@, self.root@);
                }
                self.collect_children(children, map)
            },
            Expr::Or(children) => {
                proof {
                    assert(expr@->Or_0 =~= models(children@));
                    lemma_operands_within(expr@->Or_0, expr@, self.root@);
                }
                self.collect_children(children, map)
            },
            Expr::Not(child) => {
                assert(expr@.terms() == child@.terms());
                self.collect_node_matches(child, map)
            },
        }
    }

    /// Adds to `map` the records of every term of every operand.
    fn collect_children(&mut self, children: &Vec<Expr>, map: &mut MatchMap) -> (r: Result<
        (),
        ProcessError,
    >)
        requires
            old(self).inv(),
            old(map).wf(),
            forall|k: int|
                0 <= k < children@.len() ==> (#[trigger] models(children@)[k]).within(
                    old(self).root@,
                ),
        ensures
            final(self).inv(),
            final(self).follows(old(self)),
            final(map).wf(),
            match r {
                Ok(_) => {
                    &&& first_compile(*old(self).adapter, models(children@), children@.len())
                    &&& final(map)@ == collected_of(
                        *old(self).adapter,
                        old(self).scene(),
                        models(children@),
                        children@.len(),
                        old(map)@,
                    )
                },
                Err(e) => !first_compile(*old(self).adapter, models(children@), children@.len())
                    && e@ == ProcessErrorModel::Pattern,
            },
        decreases children, 1nat,
    {
        let ghost items = models(children@);
        let mut i: usize = 0;
        while i < children.len()
            invariant
                i <= children.len(),
                items == models(children@),
                self.inv(),
                self.follows(old(self)),
                map.wf(),
                forall|k: int|
                    0 <= k < children@.len() ==> (#[trigger] items[k]).within(self.root@),
                first_compile(*self.adapter, items, i as nat),
                map@ == collected_of(*self.adapter, self.scene(), items, i as nat, old(map)@),
            decreases children.len() - i,
        {
            assert(items[i as int] == children@[i as int]@);
            assert(items[i as int].within(self.root@));
            match self.collect_node_matches(&children[i], map) {
                Err(e) => {
                    proof {
                        lemma_first_compile_fails(
                            *self.adapter,
                            items,
                            children@.len(),
                            i as int,
                        );
                    }
                    return Err(e);
                },
                Ok(_) => {},
            }
            i += 1;
        }
        Ok(())
    }

    /// The universe of the query: the union of the records of all its terms.
    fn compute_universe(&mut self, expr: &Expr) -> (r: Result<MatchMap, ProcessError>)
        requires
            old(self).inv(),
            expr@.within(old(self).root@),
        ensures
            final(self).inv(),
            final(self).follows(old(self)),
            match r {
                Ok(found) => {
                    &&& found.wf()
                    &&& all_compile(*old(self).adapter, expr@)
                    &&& found@ == universe(*old(self).adapter, old(self).scene(), expr@)
                },
                Err(e) => !all_compile(*old(self).adapter, expr@) && e@
                    == ProcessErrorModel::Pattern,
            },
    {
        let mut found = MatchMap::new();
        match self.collect_node_matches(expr, &mut found) {
            Err(e) => Err(e),
            Ok(_) => Ok(found),
        }
    }

    /// The records of a query.
    fn eval_expr(&mut self, expr: &Expr) -> (r: Result<MatchMap, ProcessError>)
        requires
            old(self).inv(),
            expr@.within(old(self).root@),
        ensures
            final(self).inv(),
            final(self).follows(old(self)),
            match r {
                Ok(map) => map.wf() && map@ == eval(
                    *old(self).adapter,
                    old(self).scene(),
                    expr@,
                    old(self).universe_model(),
                ),
                Err(e) => !all_compile(*old(self).adapter, expr@) && e@
                    == ProcessErrorModel::Pattern,
            },
        decreases expr, 0nat,
    {
        match expr {
            Expr::Node { .. } => {
                assert(expr@.terms().len() == 1);
                assert(expr@.terms()[0].kind == expr@->kind);
                self.eval_node(expr)
            },
            Expr::And(children) => {
                proof {
                    assert(expr@->And_0 =~= models(children@));
                    lemma_operands_within(expr@->And_0, expr@, self.root@);
                }
                self.eval_and(children)
            },
            Expr::Or(children) => {
                proof {
                    assert(expr@->Or_0 =~= models(children@));
                    lemma_operands_within(expr@->Or_0, expr@, self.root@);
                }
                self.eval_or(children)
            },
            Expr::Not(child) => {
                assert(expr@.terms() == child@.terms());
                self.eval_not(child)
            },
        }
    }

    /// The intersection of the operands, left to right.
    fn eval_and(&mut self, children: &Vec<Expr>) -> (r: Result<MatchMap, ProcessError>)
        requires
            old(self).inv(),
            forall|k: int|
                0 <= k < children@.len() ==> (#[trigger] models(children@)[k]).within(
                    old(self).root@,
                ),
        ensures
            final(self).inv(),
            final(self).follows(old(self)),
            match r {
                Ok(map) => map.wf() && map@ == crate::semantics::eval_and(
                    *old(self).adapter,
                    old(self).scene(),
                    models(children@),
                    children@.len(),
                    old(self).universe_model(),
                ),
                Err(e) => !first_compile(*old(self).adapter, models(children@), children@.len())
                    && e@ == ProcessErrorModel::Pattern,
            },
        decreases children, 1nat,
    {
        let ghost items = models(children@);
        if children.len() == 0 {
            return Ok(MatchMap::new());
        }
        assert(items[0] == children@[0]@);
        let mut result = match self.eval_expr(&children[0]) {
            Err(e) => {
                proof {
                    lemma_first_compile_fails(*self.adapter, items, children@.len(), 0);
                }
                return Err(e);
            },
            Ok(map) => map,
        };
        let mut i: usize = 1;
        while i < children.len()
            invariant
                1 <= i <= children.len(),
                items == models(children@),
                self.inv(),
                self.follows(old(self)),
                forall|k: int|
                    0 <= k < children@.len() ==> (#[trigger] items[k]).within(self.root@),
                result.wf(),
                result@ == crate::semantics::eval_and(
                    *self.adapter,
                    self.scene(),
                    items,
                    i as nat,
                    self.universe_model(),
                ),
            decreases children.len() - i,
        {
            assert(items[i as int] == children@[i as int]@);
            assert(items[i as int].within(self.root@));
            let child_set = match self.eval_expr(&children[i]) {
                Err(e) => {
                    proof {
                        lemma_first_compile_fails(
                            *self.adapter,
                            items,
                            children@.len(),
                            i as int,
                        );
                    }
                    return Err(e);
                },
                Ok(map) => map,
            };
            result = result.retain_common(&child_set);
            i += 1;
        }
        Ok(result)
    }

    /// The union of the operands, left to right.
    fn eval_or(&mut self, children: &Vec<Expr>) -> (r: Result<MatchMap, ProcessError>)
        requires
            old(self).inv(),
            forall|k: int|
                0 <= k < children@.len() ==> (#[trigger] models(children@)[k]).within(
                    old(self).root@,
                ),
        ensures
            final(self).inv(),
            final(self).follows(old(self)),
            match r {
                Ok(map) => map.wf() && map@ == crate::semantics::eval_or(
                    *old(self).adapter,
                    old(self).scene(),
                    models(children@),
                    children@.len(),
                    old(self).universe_model(),
                ),
                Err(e) => !first_compile(*old(self).adapter, models(children@), children@.len())
                    && e@ == ProcessErrorModel::Pattern,
            },
        decreases children, 1nat,
    {
        let ghost items = models(children@);
        let mut result = MatchMap::new();
        let mut i: usize = 0;
        while i < children.len()
            invariant
                i <= children.len(),
                items == models(children@),
                self.inv(),
                self.follows(old(self)),
                forall|k: int|
                    0 <= k < children@.len() ==> (#[trigger] items[k]).within(self.root@),
                result.wf(),
                result@ == crate::semantics::eval_or(
                    *self.adapter,
                    self.scene(),
                    items,
                    i as nat,
                    self.universe_model(),
                ),
            decreases children.len() - i,
        {
            assert(items[i as int] == children@[i as int]@);
            assert(items[i as int].within(self.root@));
            let child_set = match self.eval_expr(&children[i]) {
                Err(e) => {
                    proof {
                        lemma_first_compile_fails(
                            *self.adapter,
                            items,
                            children@.len(),
                            i as int,
                        );
                    }
                    return Err(e);
                },
                Ok(map) => map,
            };
            result.merge_from(child_set);
            i += 1;
        }
        Ok(result)
    }

    /// The complement of the operand within the universe.
    fn eval_not(&mut self, child: &Expr) -> (r: Result<MatchMap, ProcessError>)
        requires
            old(self).inv(),
            child@.within(old(self).root@),
        ensures
            final(self).inv(),
            final(self).follows(old(self)),
            match r {
                Ok(map) => map.wf() && map@ == crate::records::without(
                    old(self).universe_model(),
                    eval(
                        *old(self).adapter,
                        old(self).scene(),
                        child@,
                        old(self).universe_model(),
                    ),
                ),
                Err(e) => !all_compile(*old(self).adapter, child@) && e@
                    == ProcessErrorModel::Pattern,
            },
        decreases child, 1nat,
    {
        let child_set = match self.eval_expr(child) {
            Err(e) => {
                return Err(e);
            },
            Ok(map) => map,
        };
        let all = match &self.universe {
            Some(u) => u.duplicate(),
            None => MatchMap::new(),
        };
        Ok(all.remove_all(&child_set))
    }
}

/// Whether the grammar accepts the patterns of every term of the first `n`
/// of `items`.
pub open spec fn first_compile<A: LangAdapter>(adapter: A, items: Seq<ExprModel>, n: nat) -> bool {
    forall|j: int|
        0 <= j < ExprModel::terms_of(items, n).len() ==> compiles(
            adapter,
            #[trigger] ExprModel::terms_of(items, n)[j].kind,
        )
}

/// Where an operand has a term whose patterns are refused, the list has one.
pub proof fn lemma_first_compile_fails<A: LangAdapter>(
    adapter: A,
    items: Seq<ExprModel>,
    n: nat,
    k: int,
)
    requires
        0 <= k < n <= items.len(),
        !all_compile(adapter, items[k]),
    ensures
        !first_compile(adapter, items, n),
{
    let i = choose|i: int|
        0 <= i < items[k].terms().len() && !compiles(adapter, #[trigger] items[k].terms()[i].kind);
    lemma_terms_of_holds(items, n, k, i);
    let all = ExprModel::terms_of(items, n);
    let j = choose|j: int| 0 <= j < all.len() && all[j] == items[k].terms()[i];
    assert(!compiles(adapter, all[j].kind));
}

/// The operands of a combinator that lies within a query lie within it.
pub proof fn lemma_operands_within(items: Seq<ExprModel>, parent: ExprModel, whole: ExprModel)
    requires
        parent.within(whole),
        parent.terms() == ExprModel::terms_of(items, items.len()),
    ensures
        forall|k: int| 0 <= k < items.len() ==> (#[trigger] items[k]).within(whole),
{
    assert forall|k: int| 0 <= k < items.len() implies (#[trigger] items[k]).within(whole) by {
        assert forall|i: int| 0 <= i < items[k].terms().len() implies whole.terms().contains(
            #[trigger] items[k].terms()[i],
        ) by {
            lemma_terms_of_holds(items, items.len(), k, i);
            let all = parent.terms();
            let j = choose|j: int| 0 <= j < all.len() && all[j] == items[k].terms()[i];
            assert(whole.terms().contains(all[j]));
        }
    }
}

/// Process the contents of a single file with the given adapter and query.
///
/// A file that looks binary yields nothing. A file that does not parse under
/// the grammar, or a term whose patterns the grammar refuses, yields an
/// error. Else the records of the query come back in ascending order of
/// their identifiers.
pub fn process_file<A: LangAdapter>(
    adapter: &A,
    path: &str,
    src: &[u8],
    expr: &Expr,
    context_lines: u32,
) -> (r: Result<Vec<MatchRecord>, ProcessError>)
    requires
        expr@.well_formed(),
    ensures
        match outcome(*adapter, path@, src@, expr@, context_lines) {
            Ok(records) => r is Ok && record_models(r->Ok_0@) == records,
            Err(e) => r is Err && r->Err_0@ == e,
        },
{
    if is_probably_binary(src) {
        let none: Vec<MatchRecord> = Vec::new();
        assert(record_models(none@) =~= Seq::<MatchRecordModel>::empty());
        return Ok(none);
    }
    let language = adapter.language();
    let tree = match parse_tree(&language, src) {
        None => {
            return Err(ProcessError::Parse);
        },
        Some(tree) => tree,
    };
    if tree_has_error(&tree) {
        return Err(ProcessError::Syntax);
    }
    let line_index = LineIndex::new(src);
    let mut ctx = EvalContext {
        adapter,
        tree,
        src,
        line_index,
        path,
        context_lines,
        lang_name: adapter.name(),
        node_cache: HashMap::new(),
        universe: None,
        root: Ghost(expr@),
    };
    let found = match ctx.compute_universe(expr) {
        Err(e) => {
            return Err(e);
        },
        Ok(found) => found,
    };
    ctx.universe = Some(found);
    let matches = match ctx.eval_expr(expr) {
        Err(e) => {
            return Err(e);
        },
        Ok(matches) => matches,
    };
    Ok(matches.into_values())
}

} // verus!
