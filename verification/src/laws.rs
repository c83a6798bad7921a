//! What holds of every evaluation: the set algebra of the combinators, and
//! the order and the cap of a run's output.

use crate::adapter::compiled_all;
use crate::adapter::LangAdapter;
use crate::dsl::ExprModel;
use crate::dsl::Pred;
use crate::dsl::Term;
use crate::order::bytes_before;
use crate::order::lemma_order_total;
use crate::order::lemma_order_transitive;
use crate::records::common;
use crate::records::has_id;
use crate::records::ids;
use crate::records::key;
use crate::records::lemma_common;
use crate::records::lemma_merged;
use crate::records::lemma_with_record;
use crate::records::lemma_without;
use crate::records::merged;
use crate::records::ordered;
use crate::records::slot;
use crate::records::MatchRecordModel;
use crate::report::emitted;
use crate::report::events_ordered;
use crate::report::key_before;
use crate::report::merged_files;
use crate::report::place;
use crate::report::put;
use crate::report::put_all;
use crate::report::EventModel;
use crate::report::SortKey;
use crate::semantics::collected;
use crate::semantics::collected_of;
use crate::semantics::eval;
use crate::semantics::eval_and;
use crate::semantics::eval_or;
use crate::semantics::gathered;
use crate::semantics::gathered_all;
use crate::semantics::kept;
use crate::semantics::outcome;
use crate::semantics::record;
use crate::semantics::term_records;
use crate::semantics::universe;
use crate::semantics::ProcessErrorModel;
use crate::semantics::Scene;
use crate::syntax::grammar_of;
use crate::syntax::query_matches;
use crate::syntax::RawCaptureModel;
use vstd::prelude::*;

verus! {

/// The records gathered from matches stay in order.
pub proof fn lemma_gathered_ordered<A: LangAdapter>(
    adapter: A,
    scene: Scene,
    preds: Seq<Pred>,
    matches: Seq<Seq<RawCaptureModel>>,
    n: nat,
    found: Seq<MatchRecordModel>,
)
    requires
        ordered(found),
    ensures
        ordered(gathered(adapter, scene, preds, matches, n, found)),
    decreases n,
{
    if n == 0 || n > matches.len() {
    } else {
        lemma_gathered_ordered(adapter, scene, preds, matches, (n - 1) as nat, found);
        let before = gathered(adapter, scene, preds, matches, (n - 1) as nat, found);
        lemma_with_record(before, record(scene, matches[n - 1]));
    }
}

/// The records of the patterns of a term stay in order.
pub proof fn lemma_gathered_all_ordered<A: LangAdapter>(
    adapter: A,
    scene: Scene,
    preds: Seq<Pred>,
    queries: Seq<tree_sitter::Query>,
    n: nat,
)
    ensures
        ordered(gathered_all(adapter, scene, preds, queries, n)),
    decreases n,
{
    if n == 0 || n > queries.len() {
    } else {
        lemma_gathered_all_ordered(adapter, scene, preds, queries, (n - 1) as nat);
        let matches = query_matches(queries[n - 1], scene.tree, scene.src);
        lemma_gathered_ordered(
            adapter,
            scene,
            preds,
            matches,
            matches.len(),
            gathered_all(adapter, scene, preds, queries, (n - 1) as nat),
        );
    }
}

/// The records of a term stand in strictly ascending order of their
/// identifiers: no identifier occurs twice.
pub proof fn lemma_term_records_ordered<A: LangAdapter>(adapter: A, scene: Scene, term: ExprModel)
    requires
        term is Node,
    ensures
        ordered(eval(adapter, scene, term, Seq::empty())),
        forall|u: Seq<MatchRecordModel>|
            #[trigger] eval(adapter, scene, term, u) == eval(adapter, scene, term, Seq::empty()),
{
    match compiled_all(
        grammar_of(adapter.lang()),
        adapter.patterns(term->kind),
    ) {
        Some(queries) => {
            lemma_gathered_all_ordered(adapter, scene, term->preds, queries, queries.len());
        },
        None => {},
    }
}

/// Adding ordered records to nothing gives the same records.
pub proof fn lemma_merged_into_empty(b: Seq<MatchRecordModel>)
    requires
        ordered(b),
    ensures
        merged(Seq::empty(), b) == b,
    decreases b.len(),
{
    if b.len() > 0 {
        let init = b.drop_last();
        lemma_merged_into_empty(init);
        let last = b.last();
        assert(!has_id(init, last.chunk_id)) by {
            if has_id(init, last.chunk_id) {
                let i = choose|i: int|
                    0 <= i < init.len() && #[trigger] init[i].chunk_id == last.chunk_id;
                assert(b[i].chunk_id == init[i].chunk_id);
                assert(bytes_before(key(b[i].chunk_id), key(b[b.len() - 1].chunk_id)));
                lemma_order_total(key(last.chunk_id), key(last.chunk_id));
            }
        }
        lemma_slot_at_end(init, last.chunk_id, 0);
        assert(init.insert(init.len() as int, last) =~= b);
    }
}

/// An identifier that comes behind all records has its slot at the end.
pub proof fn lemma_slot_at_end(s: Seq<MatchRecordModel>, id: Seq<char>, from: int)
    requires
        0 <= from <= s.len(),
        forall|i: int|
            0 <= i < s.len() ==> bytes_before(key(#[trigger] s[i].chunk_id), key(id)),
    ensures
        slot(s, id, from) == s.len(),
    decreases s.len() - from,
{
    if from < s.len() {
        lemma_slot_at_end(s, id, from + 1);
    }
}

/// The query `and(a, b)`.
pub open spec fn both(a: ExprModel, b: ExprModel) -> ExprModel {
    ExprModel::And(seq![a, b])
}

/// The query `or(a, b)`.
pub open spec fn either(a: ExprModel, b: ExprModel) -> ExprModel {
    ExprModel::Or(seq![a, b])
}

/// For two terms `a` and `b` evaluated against one file, `and(a, b)` yields
/// the identifiers that both yield: the intersection by identifier. Its
/// records are records of `a`.
pub proof fn law_and_is_intersection<A: LangAdapter>(
    adapter: A,
    scene: Scene,
    a: ExprModel,
    b: ExprModel,
    universe: Seq<MatchRecordModel>,
)
    requires
        a is Node,
        b is Node,
    ensures
        ids(eval(adapter, scene, both(a, b), universe)) == ids(
            eval(adapter, scene, a, universe),
        ).intersect(ids(eval(adapter, scene, b, universe))),
        forall|i: int|
            0 <= i < eval(adapter, scene, both(a, b), universe).len() ==> eval(
                adapter,
                scene,
                a,
                universe,
            ).contains(#[trigger] eval(adapter, scene, both(a, b), universe)[i]),
{
    lemma_term_records_ordered(adapter, scene, a);
    let ea = eval(adapter, scene, a, universe);
    let eb = eval(adapter, scene, b, universe);
    let items = seq![a, b];
    assert(eval_and(adapter, scene, items, 1, universe) == ea);
    assert(eval_and(adapter, scene, items, 2, universe) == common(
        ea,
        eb,
    ));
    lemma_common(ea, eb);
}

/// For two terms `a` and `b` evaluated against one file, `or(a, b)` yields
/// the identifiers that either yields: the union by identifier. Every record
/// of `a` is in it, so under an identifier that both yield the record of the
/// operand seen first stays.
pub proof fn law_or_is_union<A: LangAdapter>(
    adapter: A,
    scene: Scene,
    a: ExprModel,
    b: ExprModel,
    universe: Seq<MatchRecordModel>,
)
    requires
        a is Node,
        b is Node,
    ensures
        ids(eval(adapter, scene, either(a, b), universe)) == ids(
            eval(adapter, scene, a, universe),
        ).union(ids(eval(adapter, scene, b, universe))),
        forall|i: int|
            0 <= i < eval(adapter, scene, a, universe).len() ==> eval(
                adapter,
                scene,
                either(a, b),
                universe,
            ).contains(#[trigger] eval(adapter, scene, a, universe)[i]),
        forall|i: int|
            0 <= i < eval(adapter, scene, either(a, b), universe).len() ==> {
                let r = #[trigger] eval(adapter, scene, either(a, b), universe)[i];
                eval(adapter, scene, a, universe).contains(r) || eval(
                    adapter,
                    scene,
                    b,
                    universe,
                ).contains(r)
            },
{
    lemma_term_records_ordered(adapter, scene, a);
    let ea = eval(adapter, scene, a, universe);
    let eb = eval(adapter, scene, b, universe);
    let items = seq![a, b];
    assert(eval_or(adapter, scene, items, 0, universe) == Seq::<
        MatchRecordModel,
    >::empty());
    assert(eval_or(adapter, scene, items, 1, universe) == merged(
        Seq::empty(),
        ea,
    ));
    lemma_merged_into_empty(ea);
    assert(eval_or(adapter, scene, items, 2, universe) == merged(ea, eb));
    lemma_merged(ea, eb);
}

/// Whether one of the first `n` of `terms` yields a record with the
/// identifier `id`.
pub open spec fn some_term_yields<A: LangAdapter>(
    adapter: A,
    scene: Scene,
    terms: Seq<Term>,
    n: int,
    id: Seq<char>,
) -> bool {
    exists|i: int|
        0 <= i < n && i < terms.len() && has_id(
            term_records(adapter, scene, (#[trigger] terms[i]).kind, terms[i].preds),
            id,
        )
}

/// Collecting the records of a query adds the identifiers that its terms
/// yield, keeps what was there, and keeps the order.
pub proof fn lemma_collected<A: LangAdapter>(
    adapter: A,
    scene: Scene,
    expr: ExprModel,
    found: Seq<MatchRecordModel>,
)
    requires
        ordered(found),
    ensures
        ordered(collected(adapter, scene, expr, found)),
        forall|id: Seq<char>|
            #[trigger] has_id(collected(adapter, scene, expr, found), id) <==> (has_id(found, id)
                || some_term_yields(adapter, scene, expr.terms(), expr.terms().len() as int, id)),
    decreases expr, 0nat,
{
    let after = collected(adapter, scene, expr, found);
    match expr {
        ExprModel::Node { id: number, kind, preds } => {
            let records = term_records(adapter, scene, kind, preds);
            lemma_merged(found, records);
            assert(expr.terms()[0] == Term { id: number, kind, preds });
            assert forall|id: Seq<char>| has_id(after, id) <==> (has_id(found, id)
                || some_term_yields(
                adapter,
                scene,
                expr.terms(),
                expr.terms().len() as int,
                id,
            )) by {
                assert(ids(after).contains(id) == ids(found).union(ids(records)).contains(id));
                if has_id(records, id) {
                    assert(has_id(
                        term_records(adapter, scene, expr.terms()[0].kind, expr.terms()[0].preds),
                        id,
                    ));
                }
            }
        },
        ExprModel::And(children) => {
            lemma_collected_of(adapter, scene, children, children.len(), found);
        },
        ExprModel::Or(children) => {
            lemma_collected_of(adapter, scene, children, children.len(), found);
        },
        ExprModel::Not(child) => {
            lemma_collected(adapter, scene, *child, found);
        },
    }
}

/// Collecting the records of the first `n` operands adds the identifiers that
/// their terms yield.
pub proof fn lemma_collected_of<A: LangAdapter>(
    adapter: A,
    scene: Scene,
    children: Seq<ExprModel>,
    n: nat,
    found: Seq<MatchRecordModel>,
)
    requires
        ordered(found),
        n <= children.len(),
    ensures
        ordered(collected_of(adapter, scene, children, n, found)),
        forall|id: Seq<char>|
            #[trigger] has_id(collected_of(adapter, scene, children, n, found), id) <==> (has_id(
                found,
                id,
            ) || some_term_yields(
                adapter,
                scene,
                ExprModel::terms_of(children, n),
                ExprModel::terms_of(children, n).len() as int,
                id,
            )),
    decreases children, n,
{
    if n > 0 {
        let before = collected_of(adapter, scene, children, (n - 1) as nat, found);
        let after = collected_of(adapter, scene, children, n, found);
        let head = ExprModel::terms_of(children, (n - 1) as nat);
        let tail = children[n - 1].terms();
        let all = ExprModel::terms_of(children, n);
        lemma_collected_of(adapter, scene, children, (n - 1) as nat, found);
        lemma_collected(adapter, scene, children[n - 1], before);
        assert(all == head + tail);
        assert forall|id: Seq<char>| #[trigger] has_id(after, id) <==> (has_id(found, id)
            || some_term_yields(adapter, scene, all, all.len() as int, id)) by {
            assert(has_id(after, id) <==> (has_id(before, id) || some_term_yields(
                adapter,
                scene,
                tail,
                tail.len() as int,
                id,
            )));
            assert(has_id(before, id) <==> (has_id(found, id) || some_term_yields(
                adapter,
                scene,
                head,
                head.len() as int,
                id,
            )));
            if some_term_yields(adapter, scene, head, head.len() as int, id) {
                let i = choose|i: int|
                    0 <= i < head.len() && i < head.len() && has_id(
                        term_records(adapter, scene, (#[trigger] head[i]).kind, head[i].preds),
                        id,
                    );
                assert(all[i] == head[i]);
            }
            if some_term_yields(adapter, scene, tail, tail.len() as int, id) {
                let i = choose|i: int|
                    0 <= i < tail.len() && i < tail.len() && has_id(
                        term_records(adapter, scene, (#[trigger] tail[i]).kind, tail[i].preds),
                        id,
                    );
                assert(all[head.len() + i] == tail[i]);
            }
            if some_term_yields(adapter, scene, all, all.len() as int, id) {
                let i = choose|i: int|
                    0 <= i < all.len() && i < all.len() && has_id(
                        term_records(adapter, scene, (#[trigger] all[i]).kind, all[i].preds),
                        id,
                    );
                if i < head.len() {
                    assert(head[i] == all[i]);
                } else {
                    assert(tail[i - head.len()] == all[i]);
                }
            }
        }
    }
}

/// The universe of a query holds exactly the identifiers that its terms
/// yield, wherever in the query a term stands: under `and`, `or` or `not`.
pub proof fn law_universe_is_union_of_terms<A: LangAdapter>(
    adapter: A,
    scene: Scene,
    expr: ExprModel,
)
    ensures
        ordered(universe(adapter, scene, expr)),
        forall|id: Seq<char>|
            #[trigger] has_id(universe(adapter, scene, expr), id) <==> some_term_yields(
                adapter,
                scene,
                expr.terms(),
                expr.terms().len() as int,
                id,
            ),
{
    let none = Seq::<MatchRecordModel>::empty();
    lemma_collected(adapter, scene, expr, none);
    assert forall|id: Seq<char>| !has_id(none, id) by {}
}

/// The records of any query stand in strictly ascending order of their
/// identifiers, where the universe does.
pub proof fn lemma_eval_ordered<A: LangAdapter>(
    adapter: A,
    scene: Scene,
    expr: ExprModel,
    universe: Seq<MatchRecordModel>,
)
    requires
        ordered(universe),
    ensures
        ordered(eval(adapter, scene, expr, universe)),
    decreases expr, 0nat,
{
    match expr {
        ExprModel::Node { .. } => {
            lemma_term_records_ordered(adapter, scene, expr);
        },
        ExprModel::And(children) => {
            lemma_eval_and_ordered(adapter, scene, children, children.len(), universe);
        },
        ExprModel::Or(children) => {
            lemma_eval_or_ordered(adapter, scene, children, children.len(), universe);
        },
        ExprModel::Not(child) => {
            lemma_without(universe, eval(adapter, scene, *child, universe));
        },
    }
}

/// The intersection of operands is ordered.
pub proof fn lemma_eval_and_ordered<A: LangAdapter>(
    adapter: A,
    scene: Scene,
    children: Seq<ExprModel>,
    n: nat,
    universe: Seq<MatchRecordModel>,
)
    requires
        ordered(universe),
    ensures
        ordered(eval_and(adapter, scene, children, n, universe)),
    decreases children, n,
{
    if n == 0 || n > children.len() {
    } else if n == 1 {
        lemma_eval_ordered(adapter, scene, children[0], universe);
    } else {
        lemma_eval_and_ordered(adapter, scene, children, (n - 1) as nat, universe);
        lemma_common(
            eval_and(adapter, scene, children, (n - 1) as nat, universe),
            eval(adapter, scene, children[n - 1], universe),
        );
    }
}

/// The union of operands is ordered.
pub proof fn lemma_eval_or_ordered<A: LangAdapter>(
    adapter: A,
    scene: Scene,
    children: Seq<ExprModel>,
    n: nat,
    universe: Seq<MatchRecordModel>,
)
    requires
        ordered(universe),
    ensures
        ordered(eval_or(adapter, scene, children, n, universe)),
    decreases children, n,
{
    if n == 0 || n > children.len() {
    } else {
        lemma_eval_or_ordered(adapter, scene, children, (n - 1) as nat, universe);
        lemma_merged(
            eval_or(adapter, scene, children, (n - 1) as nat, universe),
            eval(adapter, scene, children[n - 1], universe),
        );
    }
}

/// The records that a file yields stand in strictly ascending order of their
/// identifiers: every identifier occurs once.
pub proof fn law_records_are_ordered<A: LangAdapter>(
    adapter: A,
    path: Seq<char>,
    src: Seq<u8>,
    expr: ExprModel,
    context_lines: u32,
)
    ensures
        outcome(adapter, path, src, expr, context_lines) matches Ok(records) ==> ordered(records),
{
    match crate::syntax::parsed(grammar_of(adapter.lang()), src) {
        Some(tree) => {
            let scene = Scene { tree, src, path, lang_name: adapter.lang().name(), context_lines };
            law_universe_is_union_of_terms(adapter, scene, expr);
            lemma_eval_ordered(adapter, scene, expr, universe(adapter, scene, expr));
        },
        None => {},
    }
}

/// Negation is relative to the universe: `not(a)` yields the identifiers of
/// the universe that `a` does not yield, whatever the universe is.
pub proof fn law_not_is_complement_in_universe<A: LangAdapter>(
    adapter: A,
    scene: Scene,
    a: ExprModel,
    universe: Seq<MatchRecordModel>,
)
    requires
        ordered(universe),
    ensures
        ids(eval(adapter, scene, ExprModel::Not(Box::new(a)), universe)) == ids(
            universe,
        ).difference(ids(eval(adapter, scene, a, universe))),
{
    lemma_without(universe, eval(adapter, scene, a, universe));
}

/// In a query whose terms are `a` and `b`, here `and(b, not(a))`, the
/// universe holds what `a` or `b` yields, and `not(a)` yields what is left
/// of it without `a`: exactly what `b` yields and `a` does not.
pub proof fn law_not_is_relative_to_other_terms<A: LangAdapter>(
    adapter: A,
    scene: Scene,
    a: ExprModel,
    b: ExprModel,
)
    requires
        a is Node,
        b is Node,
    ensures
        ({
            let whole = ExprModel::And(seq![b, ExprModel::Not(Box::new(a))]);
            let u = universe(adapter, scene, whole);
            let ea = eval(adapter, scene, a, u);
            let eb = eval(adapter, scene, b, u);
            &&& ids(u) == ids(ea).union(ids(eb))
            &&& ids(eval(adapter, scene, ExprModel::Not(Box::new(a)), u)) == ids(ea).union(
                ids(eb),
            ).difference(ids(ea))
            &&& ids(eval(adapter, scene, ExprModel::Not(Box::new(a)), u)) == ids(eb).difference(
                ids(ea),
            )
        }),
{
    let not_a = ExprModel::Not(Box::new(a));
    let items = seq![b, not_a];
    let whole = ExprModel::And(items);
    let u = universe(adapter, scene, whole);
    lemma_term_records_ordered(adapter, scene, a);
    lemma_term_records_ordered(adapter, scene, b);
    let ea = eval(adapter, scene, a, u);
    let eb = eval(adapter, scene, b, u);
    let none = Seq::<MatchRecordModel>::empty();
    assert(collected_of(adapter, scene, items, 0, none) == none);
    assert(collected(adapter, scene, b, none) == merged(none, eb));
    assert(items[0] == b);
    assert(collected_of(adapter, scene, items, 1, none) == merged(none, eb));
    lemma_merged_into_empty(eb);
    assert(collected(adapter, scene, a, eb) == merged(eb, ea));
    assert(collected(adapter, scene, not_a, eb) == merged(eb, ea));
    assert(items[1] == not_a);
    assert(collected_of(adapter, scene, items, 2, none) == merged(eb, ea));
    assert(u == merged(eb, ea));
    lemma_merged(eb, ea);
    lemma_without(u, ea);
    assert(ids(eb).union(ids(ea)) =~= ids(ea).union(ids(eb)));
    assert(ids(ea).union(ids(eb)).difference(ids(ea)) =~= ids(eb).difference(ids(ea)));
}

/// Evaluating an unchanged file with the same query again gives the same:
/// two results that both are what `process_file` promises have the same
/// records, identifiers and excerpts included, or the same error.
pub proof fn law_evaluation_is_repeatable<A: LangAdapter>(
    adapter: A,
    path: Seq<char>,
    src: Seq<u8>,
    expr: ExprModel,
    context_lines: u32,
    first: Result<Seq<MatchRecordModel>, ProcessErrorModel>,
    second: Result<Seq<MatchRecordModel>, ProcessErrorModel>,
)
    requires
        first == outcome(adapter, path, src, expr, context_lines),
        second == outcome(adapter, path, src, expr, context_lines),
    ensures
        first == second,
        first matches Ok(records) ==> second matches Ok(again) && records.len() == again.len()
            && forall|i: int|
            0 <= i < records.len() ==> (#[trigger] records[i]).chunk_id == again[i].chunk_id
                && records[i].excerpt == again[i].excerpt,
{
}

/// The order of keys is transitive.
pub proof fn lemma_key_order_transitive(a: SortKey, b: SortKey, c: SortKey)
    requires
        key_before(a, b),
        key_before(b, c),
    ensures
        key_before(a, c),
{
    lemma_order_total(a.path, b.path);
    lemma_order_total(b.path, c.path);
    if bytes_before(a.path, b.path) && bytes_before(b.path, c.path) {
        lemma_order_transitive(a.path, b.path, c.path);
    }
}

/// Of two keys exactly one holds: the first comes before, they are equal, or
/// the second comes before.
pub proof fn lemma_key_order_total(a: SortKey, b: SortKey)
    ensures
        key_before(a, b) || a == b || key_before(b, a),
        !(key_before(a, b) && a == b),
        !(key_before(a, b) && key_before(b, a)),
{
    lemma_order_total(a.path, b.path);
}

/// Where the events before `from` come before `key`, the place of `key` is
/// behind them, and what stands at the place does not come before `key`.
pub proof fn lemma_place(s: Seq<EventModel>, key: SortKey, from: int)
    requires
        0 <= from <= s.len(),
        forall|i: int| 0 <= i < from ==> key_before((#[trigger] s[i]).sort_key(), key),
    ensures
        from <= place(s, key, from) <= s.len(),
        forall|i: int|
            0 <= i < place(s, key, from) ==> key_before((#[trigger] s[i]).sort_key(), key),
        place(s, key, from) < s.len() ==> !key_before(s[place(s, key, from)].sort_key(), key),
    decreases s.len() - from,
{
    if from < s.len() && key_before(s[from].sort_key(), key) {
        lemma_place(s, key, from + 1);
    }
}

/// Putting an event into ordered events leaves them ordered.
pub proof fn lemma_put_ordered(s: Seq<EventModel>, event: EventModel)
    requires
        events_ordered(s),
    ensures
        events_ordered(put(s, event)),
{
    let k = event.sort_key();
    lemma_place(s, k, 0);
    let at = place(s, k, 0);
    let t = put(s, event);
    if at < s.len() && s[at].sort_key() == k {
        assert forall|i: int, j: int| 0 <= i < j < t.len() implies key_before(
            (#[trigger] t[i]).sort_key(),
            (#[trigger] t[j]).sort_key(),
        ) by {
            assert(key_before(s[i].sort_key(), s[j].sort_key()));
        }
    } else {
        assert forall|j: int| at <= j < s.len() implies key_before(
            k,
            (#[trigger] s[j]).sort_key(),
        ) by {
            lemma_key_order_total(s[at].sort_key(), k);
            if j > at {
                assert(key_before(s[at].sort_key(), s[j].sort_key()));
                lemma_key_order_transitive(k, s[at].sort_key(), s[j].sort_key());
            }
        }
        assert forall|i: int, j: int| 0 <= i < j < t.len() implies key_before(
            (#[trigger] t[i]).sort_key(),
            (#[trigger] t[j]).sort_key(),
        ) by {
            if j < at {
                assert(t[i] == s[i] && t[j] == s[j]);
            } else if j == at {
                assert(t[i] == s[i]);
            } else if i < at {
                assert(t[i] == s[i] && t[j] == s[j - 1]);
            } else if i == at {
                assert(t[j] == s[j - 1]);
            } else {
                assert(t[i] == s[i - 1] && t[j] == s[j - 1]);
            }
        }
    }
}

/// Putting events into ordered events leaves them ordered.
pub proof fn lemma_put_all_ordered(s: Seq<EventModel>, events: Seq<EventModel>, n: nat)
    requires
        events_ordered(s),
    ensures
        events_ordered(put_all(s, events, n)),
    decreases n,
{
    if n == 0 || n > events.len() {
    } else {
        lemma_put_all_ordered(s, events, (n - 1) as nat);
        lemma_put_ordered(put_all(s, events, (n - 1) as nat), events[n - 1]);
    }
}

/// The merged events of any files stand in strictly ascending order of
/// their keys: by path, then by line, and no key twice.
pub proof fn lemma_merged_files_ordered(files: Seq<Seq<EventModel>>, n: nat)
    ensures
        events_ordered(merged_files(files, n)),
    decreases n,
{
    if n == 0 || n > files.len() {
    } else {
        lemma_merged_files_ordered(files, (n - 1) as nat);
        lemma_put_all_ordered(
            merged_files(files, (n - 1) as nat),
            files[n - 1],
            files[n - 1].len(),
        );
    }
}

/// A cap of 0 emits nothing. A cap of `cap` emits `cap` events where there
/// are that many, and all of them where there are fewer. What is emitted is
/// the start of all events in the order of their keys, so every event that is
/// kept comes before every event that is dropped.
pub proof fn law_cap_keeps_the_first_in_order(files: Seq<Seq<EventModel>>, cap: nat)
    ensures
        cap == 0 ==> emitted(files, cap).len() == 0,
        emitted(files, cap).len() == if cap < merged_files(files, files.len()).len() {
            cap
        } else {
            merged_files(files, files.len()).len()
        },
        events_ordered(merged_files(files, files.len())),
        events_ordered(emitted(files, cap)),
        forall|i: int|
            0 <= i < emitted(files, cap).len() ==> #[trigger] emitted(files, cap)[i]
                == merged_files(files, files.len())[i],
        forall|i: int, j: int|
            0 <= i < emitted(files, cap).len() <= j < merged_files(files, files.len()).len()
                ==> key_before(
                (#[trigger] emitted(files, cap)[i]).sort_key(),
                (#[trigger] merged_files(files, files.len())[j]).sort_key(),
            ),
{
    lemma_merged_files_ordered(files, files.len());
    let all = merged_files(files, files.len());
    let out = emitted(files, cap);
    assert forall|i: int, j: int| 0 <= i < j < out.len() implies key_before(
        (#[trigger] out[i]).sort_key(),
        (#[trigger] out[j]).sort_key(),
    ) by {
        assert(out[i] == all[i] && out[j] == all[j]);
    }
    assert forall|i: int, j: int| 0 <= i < out.len() <= j < all.len() implies key_before(
        (#[trigger] out[i]).sort_key(),
        (#[trigger] all[j]).sort_key(),
    ) by {
        assert(out[i] == all[i]);
    }
}

/// Whether the event at index `i` is the last of its key among the first
/// `n` of `events`.
pub open spec fn stays(events: Seq<EventModel>, n: int, i: int) -> bool {
    &&& 0 <= i < n <= events.len()
    &&& forall|j: int| i < j < n ==> (#[trigger] events[j]).sort_key() != events[i].sort_key()
}

/// Whether `x` is among the first `n` of `events` and the last of its key.
pub open spec fn survives(events: Seq<EventModel>, n: int, x: EventModel) -> bool {
    exists|i: int| #[trigger] stays(events, n, i) && events[i] == x
}

/// Whether none of the first `n` of `events` has the key `key`.
pub open spec fn lacks_key(events: Seq<EventModel>, n: int, key: SortKey) -> bool {
    forall|i: int| 0 <= i < n && i < events.len() ==> (#[trigger] events[i]).sort_key() != key
}

/// Whether `x` is an event of one of the first `n` files and the last of
/// its key in that file.
pub open spec fn is_final(files: Seq<Seq<EventModel>>, n: int, x: EventModel) -> bool {
    exists|f: int, i: int|
        0 <= f < n && f < files.len() && #[trigger] stays(files[f], files[f].len() as int, i)
            && files[f][i] == x
}

/// Whether events of different files have different keys, as they have where
/// every file has a path of its own.
pub open spec fn separate(files: Seq<Seq<EventModel>>) -> bool {
    forall|f: int, g: int, i: int, j: int|
        0 <= f < files.len() && 0 <= g < files.len() && f != g && 0 <= i < files[f].len() && 0
            <= j < files[g].len() ==> (#[trigger] files[f][i]).sort_key()
            != (#[trigger] files[g][j]).sort_key()
}

/// Whether two runs evaluated the same files, in whatever order.
pub open spec fn same_files(xs: Seq<Seq<EventModel>>, ys: Seq<Seq<EventModel>>) -> bool {
    &&& forall|i: int| 0 <= i < xs.len() ==> ys.contains(#[trigger] xs[i])
    &&& forall|j: int| 0 <= j < ys.len() ==> xs.contains(#[trigger] ys[j])
}

/// After an event is put in, the events are the new one and the old ones
/// with another key.
pub proof fn lemma_put_members(s: Seq<EventModel>, event: EventModel)
    requires
        events_ordered(s),
    ensures
        forall|x: EventModel|
            #[trigger] put(s, event).contains(x) <==> (x == event || (s.contains(x)
                && x.sort_key() != event.sort_key())),
{
    let k = event.sort_key();
    lemma_place(s, k, 0);
    let at = place(s, k, 0);
    let t = put(s, event);
    if at < s.len() && s[at].sort_key() == k {
        assert forall|x: EventModel| #[trigger] t.contains(x) <==> (x == event || (s.contains(x)
            && x.sort_key() != k)) by {
            if t.contains(x) {
                let j = choose|j: int| 0 <= j < t.len() && t[j] == x;
                if j != at {
                    assert(s[j] == x);
                    lemma_key_order_total(s[j].sort_key(), s[at].sort_key());
                    if j < at {
                        assert(key_before(s[j].sort_key(), s[at].sort_key()));
                    } else {
                        assert(key_before(s[at].sort_key(), s[j].sort_key()));
                    }
                }
            }
            if x == event {
                assert(t[at] == x);
            }
            if s.contains(x) && x.sort_key() != k {
                let j = choose|j: int| 0 <= j < s.len() && s[j] == x;
                assert(t[j] == x);
            }
        }
    } else {
        assert forall|j: int| 0 <= j < s.len() implies (#[trigger] s[j]).sort_key() != k by {
            lemma_key_order_total(s[j].sort_key(), k);
            if j >= at {
                lemma_key_order_total(s[at].sort_key(), k);
                if j > at {
                    assert(key_before(s[at].sort_key(), s[j].sort_key()));
                    lemma_key_order_transitive(k, s[at].sort_key(), s[j].sort_key());
                }
            }
        }
        assert forall|x: EventModel| #[trigger] t.contains(x) <==> (x == event || (s.contains(x)
            && x.sort_key() != k)) by {
            if t.contains(x) {
                let j = choose|j: int| 0 <= j < t.len() && t[j] == x;
                if j < at {
                    assert(s[j] == x);
                } else if j > at {
                    assert(s[j - 1] == x);
                }
            }
            if x == event {
                assert(t[at] == x);
            }
            if s.contains(x) {
                let j = choose|j: int| 0 <= j < s.len() && s[j] == x;
                if j < at {
                    assert(t[j] == x);
                } else {
                    assert(t[j + 1] == x);
                }
            }
        }
    }
}

/// After the first `n` of `events` are put in, the events are those of them
/// that are the last of their key, and the old ones whose key none of them
/// has.
pub proof fn lemma_put_all_members(base: Seq<EventModel>, events: Seq<EventModel>, n: nat)
    requires
        events_ordered(base),
        n <= events.len(),
    ensures
        forall|x: EventModel|
            #[trigger] put_all(base, events, n).contains(x) <==> (survives(events, n as int, x)
                || (base.contains(x) && lacks_key(events, n as int, x.sort_key()))),
    decreases n,
{
    if n == 0 {
        assert forall|x: EventModel| #[trigger] put_all(base, events, n).contains(x) <==> (
        survives(events, n as int, x) || (base.contains(x) && lacks_key(
            events,
            n as int,
            x.sort_key(),
        ))) by {
            if survives(events, 0, x) {
                let i = choose|i: int| #[trigger] stays(events, 0, i) && events[i] == x;
            }
        }
    } else {
        let before = put_all(base, events, (n - 1) as nat);
        let last = events[n - 1];
        lemma_put_all_members(base, events, (n - 1) as nat);
        lemma_put_all_ordered(base, events, (n - 1) as nat);
        lemma_put_members(before, last);
        let after = put_all(base, events, n);
        assert forall|x: EventModel| #[trigger] after.contains(x) <==> (survives(
            events,
            n as int,
            x,
        ) || (base.contains(x) && lacks_key(events, n as int, x.sort_key()))) by {
            if after.contains(x) {
                if x == last {
                    assert(stays(events, n as int, n - 1));
                } else {
                    assert(before.contains(x));
                    if survives(events, n - 1, x) {
                        let i = choose|i: int| #[trigger] stays(events, n - 1, i) && events[i] == x;
                        assert(stays(events, n as int, i));
                    }
                }
            }
            if survives(events, n as int, x) {
                let i = choose|i: int| #[trigger] stays(events, n as int, i) && events[i] == x;
                if i < n - 1 {
                    assert(stays(events, n - 1, i));
                    assert(events[n - 1].sort_key() != events[i].sort_key());
                    assert(before.contains(x));
                }
            }
            if base.contains(x) && lacks_key(events, n as int, x.sort_key()) {
                assert(lacks_key(events, n - 1, x.sort_key()));
                assert(events[n - 1].sort_key() != x.sort_key());
                assert(before.contains(x));
            }
        }
    }
}

/// Where events of different files have different keys, the merged events
/// are the events that are the last of their key in their file.
pub proof fn lemma_merged_files_members(files: Seq<Seq<EventModel>>, n: nat)
    requires
        separate(files),
        n <= files.len(),
    ensures
        forall|x: EventModel|
            #[trigger] merged_files(files, n).contains(x) <==> is_final(files, n as int, x),
    decreases n,
{
    if n == 0 {
        assert forall|x: EventModel| #[trigger] merged_files(files, n).contains(x) <==> is_final(
            files,
            n as int,
            x,
        ) by {}
    } else {
        let before = merged_files(files, (n - 1) as nat);
        let file = files[n - 1];
        lemma_merged_files_members(files, (n - 1) as nat);
        lemma_merged_files_ordered(files, (n - 1) as nat);
        lemma_put_all_members(before, file, file.len());
        let after = merged_files(files, n);
        assert forall|x: EventModel| #[trigger] after.contains(x) <==> is_final(
            files,
            n as int,
            x,
        ) by {
            if after.contains(x) {
                if survives(file, file.len() as int, x) {
                    let i = choose|i: int|
                        #[trigger] stays(file, file.len() as int, i) && file[i] == x;
                    assert(stays(files[n - 1], files[n - 1].len() as int, i));
                } else {
                    assert(before.contains(x));
                    assert(is_final(files, n - 1, x));
                    let (f, i) = choose|f: int, i: int|
                        0 <= f < n - 1 && f < files.len() && #[trigger] stays(
                            files[f],
                            files[f].len() as int,
                            i,
                        ) && files[f][i] == x;
                    assert(stays(files[f], files[f].len() as int, i));
                }
            }
            if is_final(files, n as int, x) {
                let (f, i) = choose|f: int, i: int|
                    0 <= f < n && f < files.len() && #[trigger] stays(
                        files[f],
                        files[f].len() as int,
                        i,
                    ) && files[f][i] == x;
                if f == n - 1 {
                    assert(survives(file, file.len() as int, x));
                } else {
                    assert(is_final(files, n - 1, x));
                    assert(before.contains(x));
                    assert forall|j: int| 0 <= j < file.len() implies (#[trigger] file[j]).sort_key()
                        != x.sort_key() by {
                        assert(files[n - 1][j].sort_key() != files[f][i].sort_key());
                    }
                    assert(lacks_key(file, file.len() as int, x.sort_key()));
                }
            }
        }
    }
}

/// Two ordered sequences with the same events are the same sequence.
pub proof fn lemma_ordered_events_unique(s: Seq<EventModel>, t: Seq<EventModel>)
    requires
        events_ordered(s),
        events_ordered(t),
        forall|x: EventModel| s.contains(x) <==> t.contains(x),
    ensures
        s == t,
    decreases s.len(),
{
    if s.len() == 0 {
        if t.len() > 0 {
            assert(t.contains(t[0]));
        }
        assert(s =~= t);
    } else {
        assert(s.contains(s[0]));
        let j = choose|j: int| 0 <= j < t.len() && t[j] == s[0];
        assert(t.contains(t[0]));
        let i = choose|i: int| 0 <= i < s.len() && s[i] == t[0];
        lemma_key_order_total(s[0].sort_key(), t[0].sort_key());
        if j > 0 {
            assert(key_before(t[0].sort_key(), t[j].sort_key()));
            if i > 0 {
                assert(key_before(s[0].sort_key(), s[i].sort_key()));
            }
        }
        assert(s[0] == t[0]);
        let s1 = s.drop_first();
        let t1 = t.drop_first();
        assert forall|a: int, b: int| 0 <= a < b < s1.len() implies key_before(
            (#[trigger] s1[a]).sort_key(),
            (#[trigger] s1[b]).sort_key(),
        ) by {
            assert(key_before(s[a + 1].sort_key(), s[b + 1].sort_key()));
        }
        assert forall|a: int, b: int| 0 <= a < b < t1.len() implies key_before(
            (#[trigger] t1[a]).sort_key(),
            (#[trigger] t1[b]).sort_key(),
        ) by {
            assert(key_before(t[a + 1].sort_key(), t[b + 1].sort_key()));
        }
        assert forall|x: EventModel| s1.contains(x) <==> t1.contains(x) by {
            if s1.contains(x) {
                let a = choose|a: int| 0 <= a < s1.len() && s1[a] == x;
                assert(s[a + 1] == x);
                assert(key_before(s[0].sort_key(), s[a + 1].sort_key()));
                lemma_key_order_total(s[0].sort_key(), x.sort_key());
                assert(t.contains(x));
                let b = choose|b: int| 0 <= b < t.len() && t[b] == x;
                assert(b > 0);
                assert(t1[b - 1] == x);
            }
            if t1.contains(x) {
                let b = choose|b: int| 0 <= b < t1.len() && t1[b] == x;
                assert(t[b + 1] == x);
                assert(key_before(t[0].sort_key(), t[b + 1].sort_key()));
                lemma_key_order_total(t[0].sort_key(), x.sort_key());
                assert(s.contains(x));
                let a = choose|a: int| 0 <= a < s.len() && s[a] == x;
                assert(a > 0);
                assert(s1[a - 1] == x);
            }
        }
        lemma_ordered_events_unique(s1, t1);
        assert(s =~= seq![s[0]] + s1);
        assert(t =~= seq![t[0]] + t1);
    }
}

/// The output of a run does not depend on the order in which its files were
/// evaluated: two runs over the same files, in whatever order, emit the same
/// events in the same order, under every cap. Every file has its own path,
/// so events of different files have different keys.
pub proof fn law_file_order_is_immaterial(
    xs: Seq<Seq<EventModel>>,
    ys: Seq<Seq<EventModel>>,
    cap: nat,
)
    requires
        same_files(xs, ys),
        separate(xs),
        separate(ys),
    ensures
        merged_files(xs, xs.len()) == merged_files(ys, ys.len()),
        emitted(xs, cap) == emitted(ys, cap),
{
    let mx = merged_files(xs, xs.len());
    let my = merged_files(ys, ys.len());
    lemma_merged_files_ordered(xs, xs.len());
    lemma_merged_files_ordered(ys, ys.len());
    lemma_merged_files_members(xs, xs.len());
    lemma_merged_files_members(ys, ys.len());
    assert forall|x: EventModel| mx.contains(x) <==> my.contains(x) by {
        if mx.contains(x) {
            let (f, i) = choose|f: int, i: int|
                0 <= f < xs.len() && f < xs.len() && #[trigger] stays(
                    xs[f],
                    xs[f].len() as int,
                    i,
                ) && xs[f][i] == x;
            assert(ys.contains(xs[f]));
            let g = choose|g: int| 0 <= g < ys.len() && ys[g] == xs[f];
            assert(stays(ys[g], ys[g].len() as int, i));
            assert(is_final(ys, ys.len() as int, x));
        }
        if my.contains(x) {
            let (g, i) = choose|g: int, i: int|
                0 <= g < ys.len() && g < ys.len() && #[trigger] stays(
                    ys[g],
                    ys[g].len() as int,
                    i,
                ) && ys[g][i] == x;
            assert(xs.contains(ys[g]));
            let f = choose|f: int| 0 <= f < xs.len() && xs[f] == ys[g];
            assert(stays(xs[f], xs[f].len() as int, i));
            assert(is_final(xs, xs.len() as int, x));
        }
    }
    lemma_ordered_events_unique(mx, my);
}

} // verus!
