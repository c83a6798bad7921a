//! The order of byte strings, the order in which `String` and `str` compare:
//! byte by byte, a proper prefix first.

use vstd::prelude::*;

verus! {

/// How one key stands to another.
#[derive(Debug, Clone, Copy, PartialEq, Eq, Structural)]
pub enum Rank {
    Before,
    Same,
    After,
}

/// The first index at or after `from` at which `a` and `b` differ or one of
/// them ends.
pub open spec fn first_difference(a: Seq<u8>, b: Seq<u8>, from: int) -> int
    decreases a.len() - from,
{
    if 0 <= from < a.len() && from < b.len() && a[from] == b[from] {
        first_difference(a, b, from + 1)
    } else {
        from
    }
}

/// Whether `a` comes strictly before `b`.
pub open spec fn bytes_before(a: Seq<u8>, b: Seq<u8>) -> bool {
    let d = first_difference(a, b, 0);
    d < b.len() && (d >= a.len() || a[d] < b[d])
}

pub proof fn lemma_first_difference(a: Seq<u8>, b: Seq<u8>, from: int)
    requires
        0 <= from <= a.len(),
        from <= b.len(),
    ensures
        from <= first_difference(a, b, from) <= a.len(),
        first_difference(a, b, from) <= b.len(),
        forall|i: int| from <= i < first_difference(a, b, from) ==> a[i] == b[i],
        first_difference(a, b, from) < a.len() && first_difference(a, b, from) < b.len() ==> a[first_difference(
            a,
            b,
            from,
        )] != b[first_difference(a, b, from)],
    decreases a.len() - from,
{
    if from < a.len() && from < b.len() && a[from] == b[from] {
        lemma_first_difference(a, b, from + 1);
    }
}

/// The first difference is the only place with the properties that
/// `lemma_first_difference` states.
pub proof fn lemma_first_difference_is(a: Seq<u8>, b: Seq<u8>, from: int, d: int)
    requires
        0 <= from <= d <= a.len(),
        d <= b.len(),
        forall|i: int| from <= i < d ==> a[i] == b[i],
        d < a.len() && d < b.len() ==> a[d] != b[d],
    ensures
        first_difference(a, b, from) == d,
    decreases d - from,
{
    if from < d {
        lemma_first_difference_is(a, b, from + 1, d);
    }
}

/// Of two keys exactly one holds: the first comes before, they are equal, or
/// the second comes before.
pub proof fn lemma_order_total(a: Seq<u8>, b: Seq<u8>)
    ensures
        bytes_before(a, b) || a == b || bytes_before(b, a),
        !(bytes_before(a, b) && a == b),
        !(bytes_before(b, a) && a == b),
        !(bytes_before(a, b) && bytes_before(b, a)),
{
    lemma_first_difference(a, b, 0);
    lemma_first_difference(b, a, 0);
    let d = first_difference(a, b, 0);
    lemma_first_difference_is(b, a, 0, d);
    if !bytes_before(a, b) && !bytes_before(b, a) {
        assert(a =~= b);
    }
}

pub proof fn lemma_order_transitive(a: Seq<u8>, b: Seq<u8>, c: Seq<u8>)
    requires
        bytes_before(a, b),
        bytes_before(b, c),
    ensures
        bytes_before(a, c),
{
    lemma_first_difference(a, b, 0);
    lemma_first_difference(b, c, 0);
    let d1 = first_difference(a, b, 0);
    let d2 = first_difference(b, c, 0);
    let d = if d1 <= d2 {
        d1
    } else {
        d2
    };
    lemma_first_difference_is(a, c, 0, d);
}

/// Compares two byte strings.
pub fn rank(a: &[u8], b: &[u8]) -> (r: Rank)
    ensures
        r is Before <==> bytes_before(a@, b@),
        r is Same <==> a@ == b@,
        r is After <==> bytes_before(b@, a@),
{
    proof {
        lemma_order_total(a@, b@);
    }
    let mut i: usize = 0;
    while i < a.len() && i < b.len() && a[i] == b[i]
        invariant
            i <= a.len(),
            i <= b.len(),
            first_difference(a@, b@, 0) == first_difference(a@, b@, i as int),
        decreases a.len() - i,
    {
        i += 1;
    }
    if i < b.len() && (i >= a.len() || a[i] < b[i]) {
        Rank::Before
    } else if i >= a.len() && i >= b.len() {
        proof {
            lemma_first_difference(a@, b@, 0);
            assert(a@ =~= b@);
        }
        Rank::Same
    } else {
        proof {
            lemma_first_difference(a@, b@, 0);
        }
        Rank::After
    }
}

} // verus!
