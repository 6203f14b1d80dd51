//! The list ordering: responses come back ordered by update time,
//! newest first, ties kept in their incoming order. The ordering is
//! pinned by a sorting function on views; the laws that it orders and
//! that it permutes are proved beside it.

use vstd::prelude::*;
use vstd::multiset::Multiset;
use vstd::seq_lib::lemma_multiset_commutative;
use crate::documents::{DocumentResponse, RespView};

verus! {

/// Where a response enters a descending run: after every element at
/// least as new, before the first strictly older one.
pub open spec fn ins_pos(s: Seq<RespView>, x: RespView) -> int
    decreases s.len(),
{
    if s.len() == 0 {
        0
    } else if s[0].updated_at >= x.updated_at {
        1 + ins_pos(s.skip(1), x)
    } else {
        0
    }
}

/// Inserts a response into a descending run, stably.
pub open spec fn insert_desc(s: Seq<RespView>, x: RespView) -> Seq<RespView>
    decreases s.len(),
{
    if s.len() == 0 {
        seq![x]
    } else if s[0].updated_at >= x.updated_at {
        seq![s[0]] + insert_desc(s.skip(1), x)
    } else {
        seq![x] + s
    }
}

/// Sorts responses by update time, newest first, stably.
pub open spec fn sort_desc(s: Seq<RespView>) -> Seq<RespView>
    decreases s.len(),
{
    if s.len() == 0 {
        s
    } else {
        insert_desc(sort_desc(s.drop_last()), s.last())
    }
}

/// Ordered by update time, newest first.
pub open spec fn sorted_desc(s: Seq<RespView>) -> bool {
    forall|i: int, j: int|
        0 <= i < j < s.len() ==> #[trigger] s[i].updated_at >= #[trigger] s[j].updated_at
}

proof fn lemma_insert_desc_pos(s: Seq<RespView>, x: RespView)
    ensures
        0 <= ins_pos(s, x) <= s.len(),
        insert_desc(s, x) == s.take(ins_pos(s, x)) + seq![x] + s.skip(ins_pos(s, x)),
        forall|k: int| 0 <= k < ins_pos(s, x) ==> #[trigger] s[k].updated_at >= x.updated_at,
        ins_pos(s, x) < s.len() ==> s[ins_pos(s, x)].updated_at < x.updated_at,
    decreases s.len(),
{
    if s.len() == 0 {
        assert(insert_desc(s, x) =~= s.take(0) + seq![x] + s.skip(0));
    } else if s[0].updated_at >= x.updated_at {
        lemma_insert_desc_pos(s.skip(1), x);
        let p1 = ins_pos(s.skip(1), x);
        let p = 1 + p1;
        assert(s.take(p) =~= seq![s[0]] + s.skip(1).take(p1));
        assert(s.skip(p) =~= s.skip(1).skip(p1));
        assert(seq![s[0]] + (s.skip(1).take(p1) + seq![x] + s.skip(1).skip(p1)) =~= (seq![s[0]]
            + s.skip(1).take(p1)) + seq![x] + s.skip(1).skip(p1));
        assert forall|k: int| 0 <= k < p implies #[trigger] s[k].updated_at >= x.updated_at by {
            if k > 0 {
                assert(s.skip(1)[k - 1].updated_at >= x.updated_at);
            }
        }
    } else {
        assert(insert_desc(s, x) =~= s.take(0) + seq![x] + s.skip(0));
    }
}

/// Pins the insertion point: a position that splits the run this way
/// is the insertion point.
proof fn lemma_ins_pos_at(s: Seq<RespView>, x: RespView, p: int)
    requires
        0 <= p <= s.len(),
        forall|k: int| 0 <= k < p ==> #[trigger] s[k].updated_at >= x.updated_at,
        p < s.len() ==> s[p].updated_at < x.updated_at,
    ensures
        ins_pos(s, x) == p,
{
    lemma_insert_desc_pos(s, x);
    let q = ins_pos(s, x);
    if p < q {
        assert(s[p].updated_at >= x.updated_at);
    } else if q < p {
        assert(s[q].updated_at >= x.updated_at);
    }
}

proof fn lemma_insert_desc_sorted(s: Seq<RespView>, x: RespView)
    requires
        sorted_desc(s),
    ensures
        sorted_desc(insert_desc(s, x)),
{
    lemma_insert_desc_pos(s, x);
    let p = ins_pos(s, x);
    let r = insert_desc(s, x);
    assert forall|i: int, j: int| 0 <= i < j < r.len() implies #[trigger] r[i].updated_at
        >= #[trigger] r[j].updated_at by {
        assert(r[i] == (if i < p {
            s[i]
        } else if i == p {
            x
        } else {
            s[i - 1]
        }));
        assert(r[j] == (if j < p {
            s[j]
        } else if j == p {
            x
        } else {
            s[j - 1]
        }));
        if i < p && j == p {
            assert(s[i].updated_at >= x.updated_at);
        } else if i == p && j > p {
            if j - 1 > p {
                assert(s[p].updated_at >= s[j - 1].updated_at);
            }
        } else if i < p && j > p {
            if i < j - 1 {
                assert(s[i].updated_at >= s[j - 1].updated_at);
            }
        }
    }
}

/// Law: the sorted sequence is ordered by update time, newest first.
pub proof fn lemma_sort_desc_sorted(s: Seq<RespView>)
    ensures
        sorted_desc(sort_desc(s)),
    decreases s.len(),
{
    if s.len() > 0 {
        lemma_sort_desc_sorted(s.drop_last());
        lemma_insert_desc_sorted(sort_desc(s.drop_last()), s.last());
    }
}

proof fn lemma_insert_desc_multiset(s: Seq<RespView>, x: RespView)
    ensures
        insert_desc(s, x).to_multiset() == s.to_multiset().insert(x),
{
    broadcast use vstd::seq_lib::group_to_multiset_ensures;

    lemma_insert_desc_pos(s, x);
    let p = ins_pos(s, x);
    let a = s.take(p);
    let b = s.skip(p);
    lemma_multiset_commutative(a + seq![x], b);
    lemma_multiset_commutative(a, seq![x]);
    lemma_multiset_commutative(a, b);
    assert(a + b =~= s);
    assert(seq![x] =~= Seq::<RespView>::empty().push(x));
    assert(seq![x].to_multiset() =~= Multiset::<RespView>::empty().insert(x));
    assert(insert_desc(s, x).to_multiset() =~= s.to_multiset().insert(x));
}

/// Law: sorting only reorders; the sorted sequence holds exactly the
/// same responses, with multiplicity.
pub proof fn lemma_sort_desc_permutes(s: Seq<RespView>)
    ensures
        sort_desc(s).to_multiset() == s.to_multiset(),
    decreases s.len(),
{
    broadcast use vstd::seq_lib::group_to_multiset_ensures;

    if s.len() > 0 {
        lemma_sort_desc_permutes(s.drop_last());
        lemma_insert_desc_multiset(sort_desc(s.drop_last()), s.last());
        assert(s =~= s.drop_last().push(s.last()));
    }
}

/// Sorts responses by update time, newest first, keeping ties in
/// their incoming order.
#[verifier::loop_isolation(false)]
pub fn sort_responses(items: Vec<DocumentResponse>) -> (r: Vec<DocumentResponse>)
    ensures
        r@.map_values(|d: DocumentResponse| d@) == sort_desc(
            items@.map_values(|d: DocumentResponse| d@),
        ),
{
    let ghost iv = items@.map_values(|d: DocumentResponse| d@);
    let mut rest = items;
    let mut out: Vec<DocumentResponse> = Vec::new();
    proof {
        assert(out@.map_values(|d: DocumentResponse| d@) =~= sort_desc(iv.take(0)));
        assert(rest@.map_values(|d: DocumentResponse| d@) =~= iv.skip(0));
    }
    while rest.len() > 0
        invariant
            rest@.map_values(|d: DocumentResponse| d@) == iv.skip(
                iv.len() - rest@.len() as int,
            ),
            rest@.len() <= iv.len(),
            out@.map_values(|d: DocumentResponse| d@) == sort_desc(
                iv.take(iv.len() - rest@.len() as int),
            ),
        decreases rest@.len(),
    {
        let ghost k = iv.len() - rest@.len() as int;
        let ghost out0 = out@.map_values(|d: DocumentResponse| d@);
        let ghost rv0 = rest@;
        let ghost rm0 = rest@.map_values(|d: DocumentResponse| d@);
        let x = rest.remove(0);
        proof {
            assert(x@ == rv0[0]@);
            assert(x@ == rm0[0]);
            assert(x@ == iv[k]);
            assert(rest@ =~= rv0.remove(0));
            assert(rest@.map_values(|d: DocumentResponse| d@) =~= rm0.skip(1));
            assert(rm0.skip(1) =~= iv.skip(k + 1));
        }
        let mut p: usize = 0;
        while p < out.len() && out[p].updated_at >= x.updated_at
            invariant
                0 <= p <= out@.len(),
                forall|q: int| 0 <= q < p ==> #[trigger] out0[q].updated_at >= x@.updated_at,
                out@.map_values(|d: DocumentResponse| d@) == out0,
            decreases out@.len() - p,
        {
            proof {
                assert(out0[p as int] == out@[p as int]@);
            }
            p = p + 1;
        }
        proof {
            if p < out.len() {
                assert(out0[p as int] == out@[p as int]@);
                assert(out0[p as int].updated_at < x@.updated_at);
            }
            lemma_ins_pos_at(out0, x@, p as int);
            lemma_insert_desc_pos(out0, x@);
        }
        out.insert(p, x);
        proof {
            assert(out@.map_values(|d: DocumentResponse| d@) =~= out0.take(p as int) + seq![x@]
                + out0.skip(p as int));
            assert(iv.take(k + 1).drop_last() =~= iv.take(k));
            assert(iv.take(k + 1).last() == iv[k]);
            assert(out@.map_values(|d: DocumentResponse| d@) == insert_desc(
                sort_desc(iv.take(k)),
                iv[k],
            ));
            assert(out@.map_values(|d: DocumentResponse| d@) == sort_desc(iv.take(k + 1)));
        }
    }
    proof {
        assert(iv.take(iv.len() as int) =~= iv);
    }
    out
}

} // verus!
