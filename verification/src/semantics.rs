//! What a query matches in one file: the meaning of terms and combinators as
//! functions on the captures that the tree patterns deliver.

use crate::adapter::compiled_all;
use crate::adapter::LangAdapter;
use crate::dsl::ExprModel;
use crate::dsl::Kind;
use crate::dsl::Pred;
use crate::pattern::regex_matches;
use crate::records::CaptureSummaryModel;
use crate::records::common;
use crate::records::MatchRecordModel;
use crate::records::merged;
use crate::records::with_record;
use crate::records::without;
use crate::source::chunk_id;
use crate::source::excerpt;
use crate::source::line_starts;
use crate::source::looks_binary;
use crate::source::lossy_text;
use crate::syntax::grammar_of;
use crate::syntax::holds_syntax_error;
use crate::syntax::parsed;
use crate::syntax::query_matches;
use crate::syntax::RawCaptureModel;
use crate::syntax::root_span;
use crate::syntax::Span;
use vstd::prelude::*;

verus! {

/// One file under evaluation: its syntax tree, its bytes, the path and the
/// language name that records carry, and the number of context lines of an
/// excerpt.
pub ghost struct Scene {
    pub tree: tree_sitter::Tree,
    pub src: Seq<u8>,
    pub path: Seq<char>,
    pub lang_name: Seq<char>,
    pub context_lines: u32,
}

pub open spec fn label_callee_id() -> Seq<char> {
    "callee_id"@
}

pub open spec fn label_prop() -> Seq<char> {
    "prop"@
}

pub open spec fn label_obj() -> Seq<char> {
    "obj"@
}

pub open spec fn label_attr() -> Seq<char> {
    "attr"@
}

pub open spec fn label_module() -> Seq<char> {
    "module"@
}

pub open spec fn label_name() -> Seq<char> {
    "name"@
}

/// The label under which the text of the whole matched node is kept.
pub open spec fn label_node_text() -> Seq<char> {
    "__node_text"@
}

/// The 1-based line of a 0-based row; rows beyond the range of `u32` all
/// count as the last line.
pub open spec fn line_of(row: usize) -> u32 {
    if row >= u32::MAX {
        u32::MAX
    } else {
        (row + 1) as u32
    }
}

/// The node that a match stands for: that of its first capture, or the root
/// where the match has no capture.
pub open spec fn node_span(captures: Seq<RawCaptureModel>, root: Span) -> Span {
    if captures.len() > 0 {
        captures[0].span
    } else {
        root
    }
}

/// The text that a span covers; a span that does not lie in the text covers
/// nothing.
pub open spec fn span_text(src: Seq<u8>, span: Span) -> Seq<char> {
    if span.start_byte <= span.end_byte <= src.len() {
        lossy_text(src.subrange(span.start_byte as int, span.end_byte as int))
    } else {
        Seq::empty()
    }
}

/// The texts of the first `n` captures of a match, by label; of two captures
/// with one label the later one counts.
pub open spec fn captured(captures: Seq<RawCaptureModel>, src: Seq<u8>, n: nat) -> Map<
    Seq<char>,
    Seq<char>,
>
    decreases n,
{
    if n == 0 || n > captures.len() {
        Map::empty()
    } else {
        captured(captures, src, (n - 1) as nat).insert(
            captures[n - 1].name,
            span_text(src, captures[n - 1].span),
        )
    }
}

/// The capture bundle of a match: every capture by its label, and the text of
/// the matched node.
pub open spec fn bundle(captures: Seq<RawCaptureModel>, root: Span, src: Seq<u8>) -> Map<
    Seq<char>,
    Seq<char>,
> {
    captured(captures, src, captures.len()).insert(
        label_node_text(),
        span_text(src, node_span(captures, root)),
    )
}

/// Whether `caps` binds `label` to a text that `re` matches. A capture that
/// is missing fails the test.
pub open spec fn capture_matches(
    caps: Map<Seq<char>, Seq<char>>,
    label: Seq<char>,
    re: regex::Regex,
) -> bool {
    caps.contains_key(label) && regex_matches(re, caps[label])
}

/// Whether a match with the captures `caps` satisfies `pred`. `callee` is
/// tested on the called identifier and on the called property; `arg` holds
/// of every match.
pub open spec fn pred_holds(pred: Pred, caps: Map<Seq<char>, Seq<char>>) -> bool {
    match pred {
        Pred::Callee(re) => capture_matches(caps, label_callee_id(), re) || capture_matches(
            caps,
            label_prop(),
            re,
        ),
        Pred::Name(re) => capture_matches(caps, label_name(), re),
        Pred::Module(re) => capture_matches(caps, label_module(), re),
        Pred::Prop(re) => capture_matches(caps, label_prop(), re),
        Pred::Arg(_) => true,
        Pred::Text(re) => capture_matches(caps, label_node_text(), re),
    }
}

/// Whether a match with the captures `caps` satisfies every predicate.
pub open spec fn preds_hold(preds: Seq<Pred>, caps: Map<Seq<char>, Seq<char>>) -> bool {
    forall|i: int| 0 <= i < preds.len() ==> pred_holds(#[trigger] preds[i], caps)
}

/// The text bound to `label`, if any.
pub open spec fn lookup(caps: Map<Seq<char>, Seq<char>>, label: Seq<char>) -> Option<Seq<char>> {
    if caps.contains_key(label) {
        Some(caps[label])
    } else {
        None
    }
}

/// What a record tells of the captures: the callee is the called identifier
/// or else the called property.
pub open spec fn summary(caps: Map<Seq<char>, Seq<char>>) -> CaptureSummaryModel {
    CaptureSummaryModel {
        callee: if caps.contains_key(label_callee_id()) {
            Some(caps[label_callee_id()])
        } else {
            lookup(caps, label_prop())
        },
        object: lookup(caps, label_obj()),
        attr: lookup(caps, label_attr()),
        module: lookup(caps, label_module()),
        name: lookup(caps, label_name()),
    }
}

/// The record of a match.
pub open spec fn record(scene: Scene, captures: Seq<RawCaptureModel>) -> MatchRecordModel {
    let span = node_span(captures, root_span(scene.tree));
    let start_line = line_of(span.start_row);
    let end_line = line_of(span.end_row);
    MatchRecordModel {
        lang: Some(scene.lang_name),
        path: scene.path,
        start_line,
        end_line,
        chunk_id: chunk_id(scene.path, start_line, end_line),
        excerpt: excerpt(
            scene.src,
            line_starts(scene.src),
            start_line,
            end_line,
            scene.context_lines,
        ),
        capture: summary(bundle(captures, root_span(scene.tree), scene.src)),
    }
}

/// Whether a match is kept: the adapter accepts its captures and every
/// predicate of the term holds.
pub open spec fn kept<A: LangAdapter>(
    adapter: A,
    scene: Scene,
    preds: Seq<Pred>,
    captures: Seq<RawCaptureModel>,
) -> bool {
    let caps = bundle(captures, root_span(scene.tree), scene.src);
    adapter.keeps(caps) && preds_hold(preds, caps)
}

/// `found` with the records of the kept ones among the first `n` of
/// `matches`; the first record under an identifier stays.
pub open spec fn gathered<A: LangAdapter>(
    adapter: A,
    scene: Scene,
    preds: Seq<Pred>,
    matches: Seq<Seq<RawCaptureModel>>,
    n: nat,
    found: Seq<MatchRecordModel>,
) -> Seq<MatchRecordModel>
    decreases n,
{
    if n == 0 || n > matches.len() {
        found
    } else {
        let before = gathered(adapter, scene, preds, matches, (n - 1) as nat, found);
        if kept(adapter, scene, preds, matches[n - 1]) {
            with_record(before, record(scene, matches[n - 1]))
        } else {
            before
        }
    }
}

/// The records that the first `n` of `queries` yield for a term.
pub open spec fn gathered_all<A: LangAdapter>(
    adapter: A,
    scene: Scene,
    preds: Seq<Pred>,
    queries: Seq<tree_sitter::Query>,
    n: nat,
) -> Seq<MatchRecordModel>
    decreases n,
{
    if n == 0 || n > queries.len() {
        Seq::empty()
    } else {
        let matches = query_matches(queries[n - 1], scene.tree, scene.src);
        gathered(
            adapter,
            scene,
            preds,
            matches,
            matches.len(),
            gathered_all(adapter, scene, preds, queries, (n - 1) as nat),
        )
    }
}

/// Whether the grammar accepts the patterns of a kind of term.
pub open spec fn compiles<A: LangAdapter>(adapter: A, kind: Kind) -> bool {
    compiled_all(grammar_of(adapter.lang()), adapter.patterns(kind)) is Some
}

/// The records of a term: what its patterns match in the tree, without the
/// matches that the adapter or a predicate rejects.
pub open spec fn term_records<A: LangAdapter>(
    adapter: A,
    scene: Scene,
    kind: Kind,
    preds: Seq<Pred>,
) -> Seq<MatchRecordModel> {
    match compiled_all(grammar_of(adapter.lang()), adapter.patterns(kind)) {
        Some(queries) => gathered_all(adapter, scene, preds, queries, queries.len()),
        None => Seq::empty(),
    }
}

/// Whether the grammar accepts the patterns of every term of a query.
pub open spec fn all_compile<A: LangAdapter>(adapter: A, expr: ExprModel) -> bool {
    forall|i: int|
        0 <= i < expr.terms().len() ==> compiles(adapter, #[trigger] expr.terms()[i].kind)
}

/// The records of a query. `universe` is what `not` takes its complement in.
pub open spec fn eval<A: LangAdapter>(
    adapter: A,
    scene: Scene,
    expr: ExprModel,
    universe: Seq<MatchRecordModel>,
) -> Seq<MatchRecordModel>
    decreases expr, 0nat,
{
    match expr {
        ExprModel::Node { kind, preds, .. } => term_records(adapter, scene, kind, preds),
        ExprModel::And(children) => eval_and(adapter, scene, children, children.len(), universe),
        ExprModel::Or(children) => eval_or(adapter, scene, children, children.len(), universe),
        ExprModel::Not(child) => without(universe, eval(adapter, scene, *child, universe)),
    }
}

/// The intersection of the first `n` operands, left to right; the records
/// are those of the first operand.
pub open spec fn eval_and<A: LangAdapter>(
    adapter: A,
    scene: Scene,
    children: Seq<ExprModel>,
    n: nat,
    universe: Seq<MatchRecordModel>,
) -> Seq<MatchRecordModel>
    decreases children, n,
{
    if n == 0 || n > children.len() {
        Seq::empty()
    } else if n == 1 {
        eval(adapter, scene, children[0], universe)
    } else {
        common(
            eval_and(adapter, scene, children, (n - 1) as nat, universe),
            eval(adapter, scene, children[n - 1], universe),
        )
    }
}

/// The union of the first `n` operands, left to right; under one identifier
/// the record of the earliest operand stays.
pub open spec fn eval_or<A: LangAdapter>(
    adapter: A,
    scene: Scene,
    children: Seq<ExprModel>,
    n: nat,
    universe: Seq<MatchRecordModel>,
) -> Seq<MatchRecordModel>
    decreases children, n,
{
    if n == 0 || n > children.len() {
        Seq::empty()
    } else {
        merged(
            eval_or(adapter, scene, children, (n - 1) as nat, universe),
            eval(adapter, scene, children[n - 1], universe),
        )
    }
}

/// `found` with the records of every term of `expr`, wherever in the query
/// the term stands.
pub open spec fn collected<A: LangAdapter>(
    adapter: A,
    scene: Scene,
    expr: ExprModel,
    found: Seq<MatchRecordModel>,
) -> Seq<MatchRecordModel>
    decreases expr, 0nat,
{
    match expr {
        ExprModel::Node { kind, preds, .. } => merged(
            found,
            term_records(adapter, scene, kind, preds),
        ),
        ExprModel::And(children) => collected_of(adapter, scene, children, children.len(), found),
        ExprModel::Or(children) => collected_of(adapter, scene, children, children.len(), found),
        ExprModel::Not(child) => collected(adapter, scene, *child, found),
    }
}

/// `found` with the records of every term of the first `n` of `children`.
pub open spec fn collected_of<A: LangAdapter>(
    adapter: A,
    scene: Scene,
    children: Seq<ExprModel>,
    n: nat,
    found: Seq<MatchRecordModel>,
) -> Seq<MatchRecordModel>
    decreases children, n,
{
    if n == 0 || n > children.len() {
        found
    } else {
        collected(
            adapter,
            scene,
            children[n - 1],
            collected_of(adapter, scene, children, (n - 1) as nat, found),
        )
    }
}

/// The universe of a query in a file: the union of the records of all its
/// terms. Negation is relative to it.
pub open spec fn universe<A: LangAdapter>(adapter: A, scene: Scene, expr: ExprModel) -> Seq<
    MatchRecordModel,
> {
    collected(adapter, scene, expr, Seq::empty())
}

/// Why a file yields an error in place of records.
pub ghost enum ProcessErrorModel {
    /// The parser gave no tree.
    Parse,
    /// The text does not parse under the grammar of its language.
    Syntax,
    /// The grammar refuses the patterns of a term.
    Pattern,
    /// The file could not be read.
    Unreadable,
}

/// What a file yields for a query: nothing where it looks binary; an error
/// where it does not parse or a pattern is refused; else the records of the
/// query, in ascending order of their identifiers.
pub open spec fn outcome<A: LangAdapter>(
    adapter: A,
    path: Seq<char>,
    src: Seq<u8>,
    expr: ExprModel,
    context_lines: u32,
) -> Result<Seq<MatchRecordModel>, ProcessErrorModel> {
    if looks_binary(src) {
        Ok(Seq::empty())
    } else {
        match parsed(grammar_of(adapter.lang()), src) {
            None => Err(ProcessErrorModel::Parse),
            Some(tree) => if holds_syntax_error(tree) {
                Err(ProcessErrorModel::Syntax)
            } else if !all_compile(adapter, expr) {
                Err(ProcessErrorModel::Pattern)
            } else {
                let scene = Scene {
                    tree,
                    src,
                    path,
                    lang_name: adapter.lang().name(),
                    context_lines,
                };
                Ok(eval(adapter, scene, expr, universe(adapter, scene, expr)))
            },
        }
    }
}

} // verus!
