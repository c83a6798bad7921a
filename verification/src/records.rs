//! Match records and the ordered map that the set algebra works on.

use crate::order::bytes_before;
use crate::order::lemma_order_total;
use crate::order::lemma_order_transitive;
use crate::order::rank;
use crate::order::Rank;
use vstd::prelude::*;
use vstd::utf8::encode_utf8;
use vstd::utf8::encode_utf8_decode_utf8;

verus! {

/// The text of an optional string.
pub open spec fn opt_text(o: Option<String>) -> Option<Seq<char>> {
    match o {
        Some(s) => Some(s@),
        None => None,
    }
}

/// A copy of an optional string.
pub fn copy_text(o: &Option<String>) -> (r: Option<String>)
    ensures
        opt_text(r) == opt_text(*o),
{
    match o {
        Some(s) => Some(s.clone()),
        None => None,
    }
}

/// What a match captured, by role. A role that the match did not bind is `None`.
#[derive(Debug, Clone)]
pub struct CaptureSummary {
    pub callee: Option<String>,
    pub object: Option<String>,
    pub attr: Option<String>,
    pub module: Option<String>,
    pub name: Option<String>,
}

/// The mathematical value of a `CaptureSummary`.
pub ghost struct CaptureSummaryModel {
    pub callee: Option<Seq<char>>,
    pub object: Option<Seq<char>>,
    pub attr: Option<Seq<char>>,
    pub module: Option<Seq<char>>,
    pub name: Option<Seq<char>>,
}

impl View for CaptureSummary {
    type V = CaptureSummaryModel;

    open spec fn view(&self) -> CaptureSummaryModel {
        CaptureSummaryModel {
            callee: opt_text(self.callee),
            object: opt_text(self.object),
            attr: opt_text(self.attr),
            module: opt_text(self.module),
            name: opt_text(self.name),
        }
    }
}

impl CaptureSummary {
    /// A copy with the same texts.
    pub fn duplicate(&self) -> (r: CaptureSummary)
        ensures
            r@ == self@,
    {
        CaptureSummary {
            callee: copy_text(&self.callee),
            object: copy_text(&self.object),
            attr: copy_text(&self.attr),
            module: copy_text(&self.module),
            name: copy_text(&self.name),
        }
    }
}

/// One match: where it is, what it captured, and the excerpt around it.
#[derive(Debug, Clone)]
pub struct MatchRecord {
    pub lang: Option<String>,
    pub path: String,
    pub start_line: u32,
    pub end_line: u32,
    pub chunk_id: String,
    pub excerpt: Option<String>,
    pub capture: CaptureSummary,
}

/// The mathematical value of a `MatchRecord`.
pub ghost struct MatchRecordModel {
    pub lang: Option<Seq<char>>,
    pub path: Seq<char>,
    pub start_line: u32,
    pub end_line: u32,
    pub chunk_id: Seq<char>,
    pub excerpt: Option<Seq<char>>,
    pub capture: CaptureSummaryModel,
}

impl View for MatchRecord {
    type V = MatchRecordModel;

    open spec fn view(&self) -> MatchRecordModel {
        MatchRecordModel {
            lang: opt_text(self.lang),
            path: self.path@,
            start_line: self.start_line,
            end_line: self.end_line,
            chunk_id: self.chunk_id@,
            excerpt: opt_text(self.excerpt),
            capture: self.capture@,
        }
    }
}

impl MatchRecord {
    /// A copy with the same contents.
    pub fn duplicate(&self) -> (r: MatchRecord)
        ensures
            r@ == self@,
    {
        MatchRecord {
            lang: copy_text(&self.lang),
            path: self.path.clone(),
            start_line: self.start_line,
            end_line: self.end_line,
            chunk_id: self.chunk_id.clone(),
            excerpt: copy_text(&self.excerpt),
            capture: self.capture.duplicate(),
        }
    }
}

/// The models of a sequence of records, one for one.
pub open spec fn record_models(records: Seq<MatchRecord>) -> Seq<MatchRecordModel> {
    Seq::new(records.len(), |i: int| records[i]@)
}

/// The key under which an identifier is ordered: its bytes.
pub open spec fn key(id: Seq<char>) -> Seq<u8> {
    encode_utf8(id)
}

/// Whether the records stand in strictly ascending order of their identifiers.
pub open spec fn ordered(s: Seq<MatchRecordModel>) -> bool {
    forall|i: int, j: int|
        0 <= i < j < s.len() ==> bytes_before(
            key(#[trigger] s[i].chunk_id),
            key(#[trigger] s[j].chunk_id),
        )
}

/// Whether a record with the identifier `id` is among `s`.
pub open spec fn has_id(s: Seq<MatchRecordModel>, id: Seq<char>) -> bool {
    exists|i: int| 0 <= i < s.len() && #[trigger] s[i].chunk_id == id
}

/// The identifiers of the records of `s`.
pub open spec fn ids(s: Seq<MatchRecordModel>) -> Set<Seq<char>> {
    Set::new(|id: Seq<char>| has_id(s, id))
}

/// The first index at or after `from` whose record does not come before `id`.
pub open spec fn slot(s: Seq<MatchRecordModel>, id: Seq<char>, from: int) -> int
    decreases s.len() - from,
{
    if 0 <= from < s.len() && bytes_before(key(s[from].chunk_id), key(id)) {
        slot(s, id, from + 1)
    } else {
        from
    }
}

/// `s` with `r` put in its place, unless a record with the identifier of `r`
/// is there already: the first record under an identifier stays.
pub open spec fn with_record(s: Seq<MatchRecordModel>, r: MatchRecordModel) -> Seq<
    MatchRecordModel,
> {
    if has_id(s, r.chunk_id) {
        s
    } else {
        s.insert(slot(s, r.chunk_id, 0), r)
    }
}

/// The union of `a` and `b` by identifier. Where both hold a record under one
/// identifier, that of `a` stays.
pub open spec fn merged(a: Seq<MatchRecordModel>, b: Seq<MatchRecordModel>) -> Seq<
    MatchRecordModel,
>
    decreases b.len(),
{
    if b.len() == 0 {
        a
    } else {
        with_record(merged(a, b.drop_last()), b.last())
    }
}

/// The records of `a` whose identifier `b` holds too.
pub open spec fn common(a: Seq<MatchRecordModel>, b: Seq<MatchRecordModel>) -> Seq<
    MatchRecordModel,
> {
    a.filter(|r: MatchRecordModel| has_id(b, r.chunk_id))
}

/// The records of `a` whose identifier `b` does not hold.
pub open spec fn without(a: Seq<MatchRecordModel>, b: Seq<MatchRecordModel>) -> Seq<
    MatchRecordModel,
> {
    a.filter(|r: MatchRecordModel| !has_id(b, r.chunk_id))
}

/// Different identifiers have different keys.
pub proof fn lemma_key_injective(a: Seq<char>, b: Seq<char>)
    ensures
        key(a) == key(b) <==> a == b,
{
    encode_utf8_decode_utf8(a);
    encode_utf8_decode_utf8(b);
}

/// In an ordered sequence the slot of an identifier is where its record
/// stands, if it has one, and where it belongs, if it has none.
pub proof fn lemma_slot(s: Seq<MatchRecordModel>, id: Seq<char>, from: int)
    requires
        ordered(s),
        0 <= from <= s.len(),
        forall|i: int| 0 <= i < from ==> bytes_before(key(#[trigger] s[i].chunk_id), key(id)),
    ensures
        from <= slot(s, id, from) <= s.len(),
        forall|i: int|
            0 <= i < slot(s, id, from) ==> bytes_before(key(#[trigger] s[i].chunk_id), key(id)),
        slot(s, id, from) < s.len() ==> !bytes_before(key(s[slot(s, id, from)].chunk_id), key(id)),
        has_id(s, id) <==> (slot(s, id, from) < s.len() && s[slot(s, id, from)].chunk_id == id),
        !has_id(s, id) ==> forall|i: int|
            slot(s, id, from) <= i < s.len() ==> bytes_before(
                key(id),
                key(#[trigger] s[i].chunk_id),
            ),
    decreases s.len() - from,
{
    if from < s.len() && bytes_before(key(s[from].chunk_id), key(id)) {
        lemma_slot(s, id, from + 1);
    } else {
        let at = from;
        assert forall|i: int| 0 <= i < s.len() && s[i].chunk_id == id implies i == at by {
            lemma_order_total(key(id), key(id));
            if i > at {
                assert(bytes_before(key(s[at].chunk_id), key(s[i].chunk_id)));
            }
        }
        if !has_id(s, id) {
            assert forall|i: int| at <= i < s.len() implies bytes_before(
                key(id),
                key(#[trigger] s[i].chunk_id),
            ) by {
                lemma_order_total(key(s[at].chunk_id), key(id));
                lemma_key_injective(s[at].chunk_id, id);
                if i > at {
                    assert(bytes_before(key(s[at].chunk_id), key(s[i].chunk_id)));
                    lemma_order_transitive(key(id), key(s[at].chunk_id), key(s[i].chunk_id));
                }
            }
        }
    }
}

/// The slot of an identifier is the place before which all records come
/// before it and at which the record does not.
pub proof fn lemma_slot_is(s: Seq<MatchRecordModel>, id: Seq<char>, from: int, at: int)
    requires
        0 <= from <= at <= s.len(),
        forall|i: int| from <= i < at ==> bytes_before(key(#[trigger] s[i].chunk_id), key(id)),
        at < s.len() ==> !bytes_before(key(s[at].chunk_id), key(id)),
    ensures
        slot(s, id, from) == at,
    decreases at - from,
{
    if from < at {
        lemma_slot_is(s, id, from + 1, at);
    }
}

/// Putting a record in keeps the order, adds its identifier, and leaves every
/// record that was there as it was.
pub proof fn lemma_with_record(s: Seq<MatchRecordModel>, r: MatchRecordModel)
    requires
        ordered(s),
    ensures
        ordered(with_record(s, r)),
        ids(with_record(s, r)) == ids(s).insert(r.chunk_id),
        forall|i: int| 0 <= i < s.len() ==> with_record(s, r).contains(#[trigger] s[i]),
        forall|i: int|
            0 <= i < with_record(s, r).len() ==> s.contains(#[trigger] with_record(s, r)[i])
                || with_record(s, r)[i] == r,
        !has_id(s, r.chunk_id) ==> with_record(s, r).contains(r),
{
    lemma_slot(s, r.chunk_id, 0);
    let t = with_record(s, r);
    let at = slot(s, r.chunk_id, 0);
    if has_id(s, r.chunk_id) {
        assert(ids(t) =~= ids(s).insert(r.chunk_id));
        assert forall|i: int| 0 <= i < s.len() implies t.contains(#[trigger] s[i]) by {
            assert(t[i] == s[i]);
        }
        assert forall|i: int| 0 <= i < t.len() implies s.contains(#[trigger] t[i]) by {
            assert(s[i] == t[i]);
        }
    } else {
        assert forall|i: int, j: int| 0 <= i < j < t.len() implies bytes_before(
            key(#[trigger] t[i].chunk_id),
            key(#[trigger] t[j].chunk_id),
        ) by {
            if j < at {
                assert(t[i] == s[i] && t[j] == s[j]);
            } else if j == at {
                assert(t[i] == s[i]);
            } else if i < at {
                assert(t[i] == s[i] && t[j] == s[j - 1]);
            } else if i == at {
                assert(t[j] == s[j - 1]);
            } else {
                assert(t[i] == s[i - 1] && t[j] == s[j - 1]);
            }
        }
        assert forall|id: Seq<char>| ids(t).contains(id) <==> ids(s).insert(r.chunk_id).contains(
            id,
        ) by {
            if has_id(t, id) {
                let i = choose|i: int| 0 <= i < t.len() && #[trigger] t[i].chunk_id == id;
                if i < at {
                    assert(s[i].chunk_id == id);
                } else if i > at {
                    assert(s[i - 1].chunk_id == id);
                }
            }
            if has_id(s, id) {
                let i = choose|i: int| 0 <= i < s.len() && #[trigger] s[i].chunk_id == id;
                if i < at {
                    assert(t[i].chunk_id == id);
                } else {
                    assert(t[i + 1].chunk_id == id);
                }
            }
            if id == r.chunk_id {
                assert(t[at].chunk_id == id);
            }
        }
        assert(ids(t) =~= ids(s).insert(r.chunk_id));
        assert forall|i: int| 0 <= i < s.len() implies t.contains(#[trigger] s[i]) by {
            if i < at {
                assert(t[i] == s[i]);
            } else {
                assert(t[i + 1] == s[i]);
            }
        }
        assert forall|i: int| 0 <= i < t.len() implies s.contains(#[trigger] t[i]) || t[i]
            == r by {
            if i < at {
                assert(s[i] == t[i]);
            } else if i > at {
                assert(s[i - 1] == t[i]);
            }
        }
        assert(t[at] == r);
    }
}

/// A union is ordered and holds the identifiers of both sides.
pub proof fn lemma_merged(a: Seq<MatchRecordModel>, b: Seq<MatchRecordModel>)
    requires
        ordered(a),
    ensures
        ordered(merged(a, b)),
        ids(merged(a, b)) == ids(a).union(ids(b)),
        forall|i: int| 0 <= i < a.len() ==> merged(a, b).contains(#[trigger] a[i]),
        forall|i: int|
            0 <= i < merged(a, b).len() ==> a.contains(#[trigger] merged(a, b)[i]) || b.contains(
                merged(a, b)[i],
            ),
    decreases b.len(),
{
    if b.len() == 0 {
        assert(ids(b) =~= Set::empty());
        assert(ids(a).union(ids(b)) =~= ids(a));
    } else {
        let rest = merged(a, b.drop_last());
        lemma_merged(a, b.drop_last());
        lemma_with_record(rest, b.last());
        assert forall|id: Seq<char>| ids(b).contains(id) <==> (ids(b.drop_last()).contains(id)
            || id == b.last().chunk_id) by {
            if has_id(b, id) {
                let i = choose|i: int| 0 <= i < b.len() && #[trigger] b[i].chunk_id == id;
                if i < b.len() - 1 {
                    assert(b.drop_last()[i].chunk_id == id);
                }
            }
            if has_id(b.drop_last(), id) {
                let i = choose|i: int|
                    0 <= i < b.drop_last().len() && #[trigger] b.drop_last()[i].chunk_id == id;
                assert(b[i].chunk_id == id);
            }
            if id == b.last().chunk_id {
                assert(b[b.len() - 1].chunk_id == id);
            }
        }
        assert(ids(merged(a, b)) =~= ids(a).union(ids(b)));
        let t = merged(a, b);
        assert forall|i: int| 0 <= i < a.len() implies t.contains(#[trigger] a[i]) by {
            assert(rest.contains(a[i]));
            let k = choose|k: int| 0 <= k < rest.len() && rest[k] == a[i];
            assert(t.contains(rest[k]));
        }
        assert forall|i: int| 0 <= i < t.len() implies a.contains(#[trigger] t[i]) || b.contains(
            t[i],
        ) by {
            if rest.contains(t[i]) {
                let k = choose|k: int| 0 <= k < rest.len() && rest[k] == t[i];
                if b.drop_last().contains(rest[k]) {
                    let m = choose|m: int|
                        0 <= m < b.drop_last().len() && b.drop_last()[m] == rest[k];
                    assert(b[m] == t[i]);
                }
            } else {
                assert(b[b.len() - 1] == t[i]);
            }
        }
    }
}

/// A selection from an ordered sequence is ordered, and it holds exactly the
/// records of the sequence that the test accepts.
pub proof fn lemma_filter_ordered(s: Seq<MatchRecordModel>, test: spec_fn(MatchRecordModel) -> bool)
    requires
        ordered(s),
    ensures
        ordered(s.filter(test)),
        forall|i: int|
            0 <= i < s.filter(test).len() ==> s.contains(#[trigger] s.filter(test)[i]) && test(
                s.filter(test)[i],
            ),
        forall|i: int| 0 <= i < s.len() && test(s[i]) ==> s.filter(test).contains(#[trigger] s[i]),
    decreases s.len(),
{
    reveal(Seq::filter);
    if s.len() > 0 {
        let init = s.drop_last();
        lemma_filter_ordered(init, test);
        let f = s.filter(test);
        let g = init.filter(test);
        assert forall|i: int| 0 <= i < f.len() implies s.contains(#[trigger] f[i]) && test(
            f[i],
        ) by {
            if i < g.len() {
                assert(f[i] == g[i]);
                let k = choose|k: int| 0 <= k < init.len() && init[k] == g[i];
                assert(s[k] == f[i]);
            } else {
                assert(f[i] == s[s.len() - 1]);
            }
        }
        assert forall|i: int| 0 <= i < s.len() && test(s[i]) implies f.contains(
            #[trigger] s[i],
        ) by {
            if i < s.len() - 1 {
                assert(init[i] == s[i]);
                assert(g.contains(init[i]));
                let k = choose|k: int| 0 <= k < g.len() && g[k] == init[i];
                assert(f[k] == s[i]);
            } else {
                assert(f[f.len() - 1] == s[i]);
            }
        }
        assert forall|i: int, j: int| 0 <= i < j < f.len() implies bytes_before(
            key(#[trigger] f[i].chunk_id),
            key(#[trigger] f[j].chunk_id),
        ) by {
            if j < g.len() {
                assert(f[i] == g[i] && f[j] == g[j]);
            } else {
                assert(f[i] == g[i]);
                let k = choose|k: int| 0 <= k < init.len() && init[k] == g[i];
                assert(s[k] == f[i]);
                assert(f[j] == s[s.len() - 1]);
            }
        }
    }
}

/// An intersection is ordered and holds the identifiers that both sides hold,
/// each with the record of the left side.
pub proof fn lemma_common(a: Seq<MatchRecordModel>, b: Seq<MatchRecordModel>)
    requires
        ordered(a),
    ensures
        ordered(common(a, b)),
        ids(common(a, b)) == ids(a).intersect(ids(b)),
        forall|i: int| 0 <= i < common(a, b).len() ==> a.contains(#[trigger] common(a, b)[i]),
{
    let test = |r: MatchRecordModel| has_id(b, r.chunk_id);
    lemma_filter_ordered(a, test);
    let c = common(a, b);
    assert forall|id: Seq<char>| ids(c).contains(id) <==> ids(a).intersect(ids(b)).contains(
        id,
    ) by {
        if has_id(c, id) {
            let i = choose|i: int| 0 <= i < c.len() && #[trigger] c[i].chunk_id == id;
            assert(a.contains(c[i]) && test(c[i]));
            let k = choose|k: int| 0 <= k < a.len() && a[k] == c[i];
            assert(a[k].chunk_id == id);
        }
        if has_id(a, id) && has_id(b, id) {
            let i = choose|i: int| 0 <= i < a.len() && #[trigger] a[i].chunk_id == id;
            assert(test(a[i]));
            assert(c.contains(a[i]));
            let k = choose|k: int| 0 <= k < c.len() && c[k] == a[i];
            assert(c[k].chunk_id == id);
        }
    }
    assert(ids(c) =~= ids(a).intersect(ids(b)));
}

/// A difference is ordered and holds the identifiers of the left side that
/// the right side does not hold.
pub proof fn lemma_without(a: Seq<MatchRecordModel>, b: Seq<MatchRecordModel>)
    requires
        ordered(a),
    ensures
        ordered(without(a, b)),
        ids(without(a, b)) == ids(a).difference(ids(b)),
        forall|i: int| 0 <= i < without(a, b).len() ==> a.contains(#[trigger] without(a, b)[i]),
{
    let test = |r: MatchRecordModel| !has_id(b, r.chunk_id);
    lemma_filter_ordered(a, test);
    let c = without(a, b);
    assert forall|id: Seq<char>| ids(c).contains(id) <==> ids(a).difference(ids(b)).contains(
        id,
    ) by {
        if has_id(c, id) {
            let i = choose|i: int| 0 <= i < c.len() && #[trigger] c[i].chunk_id == id;
            assert(a.contains(c[i]) && test(c[i]));
            let k = choose|k: int| 0 <= k < a.len() && a[k] == c[i];
            assert(a[k].chunk_id == id);
        }
        if has_id(a, id) && !has_id(b, id) {
            let i = choose|i: int| 0 <= i < a.len() && #[trigger] a[i].chunk_id == id;
            assert(test(a[i]));
            assert(c.contains(a[i]));
            let k = choose|k: int| 0 <= k < c.len() && c[k] == a[i];
            assert(c[k].chunk_id == id);
        }
    }
    assert(ids(c) =~= ids(a).difference(ids(b)));
}

/// An ordered map from chunk identifier to match record: the unit of the set
/// algebra. Its records stand in ascending order of their identifiers, and no
/// identifier occurs twice.
#[derive(Debug)]
pub struct MatchMap {
    entries: Vec<MatchRecord>,
}

impl View for MatchMap {
    type V = Seq<MatchRecordModel>;

    /// The records in ascending order of their identifiers.
    closed spec fn view(&self) -> Seq<MatchRecordModel> {
        record_models(self.entries@)
    }
}

impl MatchMap {
    /// The records stand in strictly ascending order of their identifiers.
    pub open spec fn wf(&self) -> bool {
        ordered(self@)
    }

    /// A map without records.
    pub fn new() -> (r: MatchMap)
        ensures
            r.wf(),
            r@ == Seq::<MatchRecordModel>::empty(),
    {
        let r = MatchMap { entries: Vec::new() };
        assert(r@ =~= Seq::<MatchRecordModel>::empty());
        r
    }

    /// The number of records.
    pub fn len(&self) -> (r: usize)
        ensures
            r == self@.len(),
    {
        self.entries.len()
    }

    /// Where the record with the identifier `id` stands or would stand, and
    /// whether it is there. The records are ordered, so the place is found by
    /// halving.
    fn position(&self, id: &str) -> (r: (usize, bool))
        requires
            self.wf(),
        ensures
            r.0 == slot(self@, id@, 0),
            r.0 <= self@.len(),
            r.1 == has_id(self@, id@),
    {
        let mut lo: usize = 0;
        let mut hi: usize = self.entries.len();
        while lo < hi
            invariant
                lo <= hi <= self.entries.len(),
                self.wf(),
                forall|k: int|
                    0 <= k < lo ==> bytes_before(key(#[trigger] self@[k].chunk_id), key(id@)),
                forall|k: int|
                    hi <= k < self@.len() ==> bytes_before(
                        key(id@),
                        key(#[trigger] self@[k].chunk_id),
                    ),
            decreases hi - lo,
        {
            let mid = lo + (hi - lo) / 2;
            proof {
                lemma_key_injective(self@[mid as int].chunk_id, id@);
                lemma_order_total(key(self@[mid as int].chunk_id), key(id@));
            }
            match rank(self.entries[mid].chunk_id.as_str().as_bytes(), id.as_bytes()) {
                Rank::Before => {
                    proof {
                        assert forall|k: int| 0 <= k < mid + 1 implies bytes_before(
                            key(#[trigger] self@[k].chunk_id),
                            key(id@),
                        ) by {
                            if k < mid {
                                assert(bytes_before(
                                    key(self@[k].chunk_id),
                                    key(self@[mid as int].chunk_id),
                                ));
                                lemma_order_transitive(
                                    key(self@[k].chunk_id),
                                    key(self@[mid as int].chunk_id),
                                    key(id@),
                                );
                            }
                        }
                    }
                    lo = mid + 1;
                },
                Rank::Same => {
                    proof {
                        assert forall|k: int| 0 <= k < mid implies bytes_before(
                            key(#[trigger] self@[k].chunk_id),
                            key(id@),
                        ) by {
                            assert(bytes_before(
                                key(self@[k].chunk_id),
                                key(self@[mid as int].chunk_id),
                            ));
                        }
                        lemma_slot_is(self@, id@, 0, mid as int);
                        lemma_slot(self@, id@, 0);
                    }
                    return (mid, true);
                },
                Rank::After => {
                    proof {
                        assert forall|k: int| mid <= k < self@.len() implies bytes_before(
                            key(id@),
                            key(#[trigger] self@[k].chunk_id),
                        ) by {
                            if k > mid {
                                assert(bytes_before(
                                    key(self@[mid as int].chunk_id),
                                    key(self@[k].chunk_id),
                                ));
                                lemma_order_transitive(
                                    key(id@),
                                    key(self@[mid as int].chunk_id),
                                    key(self@[k].chunk_id),
                                );
                            }
                        }
                    }
                    hi = mid;
                },
            }
        }
        proof {
            if lo < self@.len() {
                lemma_order_total(key(self@[lo as int].chunk_id), key(id@));
            }
            lemma_slot_is(self@, id@, 0, lo as int);
            lemma_slot(self@, id@, 0);
            if lo < self@.len() {
                lemma_key_injective(self@[lo as int].chunk_id, id@);
            }
        }
        (lo, false)
    }

    /// Whether a record with the identifier `id` is in the map.
    pub fn contains_key(&self, id: &str) -> (r: bool)
        requires
            self.wf(),
        ensures
            r == has_id(self@, id@),
    {
        self.position(id).1
    }

    /// Puts `record` into the map unless its identifier is taken: the first
    /// record under an identifier stays.
    pub fn insert_if_absent(&mut self, record: MatchRecord)
        requires
            old(self).wf(),
        ensures
            final(self).wf(),
            final(self)@ == with_record(old(self)@, record@),
    {
        proof {
            lemma_with_record(self@, record@);
        }
        let (at, found) = self.position(record.chunk_id.as_str());
        if !found {
            let ghost before = self@;
            self.entries.insert(at, record);
            assert(self@ =~= before.insert(at as int, record@));
        }
    }

    /// The records whose identifier `other` holds too.
    pub fn retain_common(self, other: &MatchMap) -> (r: MatchMap)
        requires
            self.wf(),
            other.wf(),
        ensures
            r.wf(),
            r@ == common(self@, other@),
    {
        let ghost test = |r: MatchRecordModel| has_id(other@, r.chunk_id);
        let ghost all = self@;
        let mut kept: Vec<MatchRecord> = Vec::new();
        proof {
            reveal(Seq::filter);
            assert(all.take(0).filter(test) =~= Seq::<MatchRecordModel>::empty());
            lemma_common(self@, other@);
        }
        for record in it: self.entries
            invariant
                other.wf(),
                all == record_models(it.seq()),
                test == (|r: MatchRecordModel| has_id(other@, r.chunk_id)),
                record_models(kept@) == all.take(it.index() as int).filter(test),
        {
            let ghost before = record_models(kept@);
            proof {
                assert(all.take(it.index() + 1) =~= all.take(it.index() as int).push(record@));
                all.take(it.index() as int).lemma_filter_push(record@, test);
            }
            if other.contains_key(record.chunk_id.as_str()) {
                kept.push(record);
                assert(record_models(kept@) =~= before.push(record@));
            }
        }
        assert(all.take(all.len() as int) =~= all);
        MatchMap { entries: kept }
    }

    /// The records whose identifier `other` does not hold.
    pub fn remove_all(self, other: &MatchMap) -> (r: MatchMap)
        requires
            self.wf(),
            other.wf(),
        ensures
            r.wf(),
            r@ == without(self@, other@),
    {
        let ghost test = |r: MatchRecordModel| !has_id(other@, r.chunk_id);
        let ghost all = self@;
        let mut kept: Vec<MatchRecord> = Vec::new();
        proof {
            reveal(Seq::filter);
            assert(all.take(0).filter(test) =~= Seq::<MatchRecordModel>::empty());
            lemma_without(self@, other@);
        }
        for record in it: self.entries
            invariant
                other.wf(),
                all == record_models(it.seq()),
                test == (|r: MatchRecordModel| !has_id(other@, r.chunk_id)),
                record_models(kept@) == all.take(it.index() as int).filter(test),
        {
            let ghost before = record_models(kept@);
            proof {
                assert(all.take(it.index() + 1) =~= all.take(it.index() as int).push(record@));
                all.take(it.index() as int).lemma_filter_push(record@, test);
            }
            if !other.contains_key(record.chunk_id.as_str()) {
                kept.push(record);
                assert(record_models(kept@) =~= before.push(record@));
            }
        }
        assert(all.take(all.len() as int) =~= all);
        MatchMap { entries: kept }
    }

    /// Adds the records of `other` whose identifiers are not taken.
    pub fn merge_from(&mut self, other: MatchMap)
        requires
            old(self).wf(),
        ensures
            final(self).wf(),
            final(self)@ == merged(old(self)@, other@),
    {
        let ghost incoming = other@;
        for record in it: other.entries
            invariant
                self.wf(),
                incoming == record_models(it.seq()),
                self@ == merged(old(self)@, incoming.take(it.index() as int)),
        {
            proof {
                assert(incoming.take(it.index() + 1).drop_last() =~= incoming.take(
                    it.index() as int,
                ));
            }
            self.insert_if_absent(record);
        }
        assert(incoming.take(incoming.len() as int) =~= incoming);
    }

    /// A copy with the same records.
    pub fn duplicate(&self) -> (r: MatchMap)
        ensures
            r@ == self@,
    {
        let mut entries: Vec<MatchRecord> = Vec::new();
        let mut i: usize = 0;
        while i < self.entries.len()
            invariant
                i <= self.entries.len(),
                record_models(entries@) == self@.take(i as int),
            decreases self.entries.len() - i,
        {
            let ghost before = record_models(entries@);
            entries.push(self.entries[i].duplicate());
            assert(record_models(entries@) =~= before.push(self@[i as int]));
            assert(self@.take(i + 1) =~= self@.take(i as int).push(self@[i as int]));
            i += 1;
        }
        assert(self@.take(self@.len() as int) =~= self@);
        MatchMap { entries }
    }

    /// The records, in ascending order of their identifiers.
    pub fn into_values(self) -> (r: Vec<MatchRecord>)
        ensures
            record_models(r@) == self@,
    {
        self.entries
    }
}

} // verus!
