//! The service's cross-operation laws, stated over the same views and
//! spec functions the operations' contracts use.

use vstd::prelude::*;
use crate::documents::DocView;
use crate::handlers::{filtered, matches_query, QueryView};
use crate::store::{has_uuid, lookup, store_wf, unique_uuids, uuid_idx, StoreView};

verus! {

/// Law: in a well-formed store no two documents share an external id.
pub proof fn lemma_external_ids_unique(s: StoreView)
    requires
        store_wf(s),
    ensures
        unique_uuids(s.docs),
{
}

/// Law: a document just created under a fresh external id is exactly
/// what a fetch by that id returns.
pub proof fn lemma_create_then_get(docs: Seq<DocView>, d: DocView)
    requires
        !has_uuid(docs, d.uuid),
    ensures
        lookup(docs.push(d), d.uuid) == Some(d),
{
    let nd = docs.push(d);
    let i = docs.len() as int;
    assert(nd[i] == d);
    assert(has_uuid(nd, d.uuid));
    let j = uuid_idx(nd, d.uuid);
    assert(0 <= j < nd.len() && nd[j].uuid == d.uuid);
    if j < i {
        assert(docs[j].uuid == d.uuid);
        assert(has_uuid(docs, d.uuid));
    }
    assert(nd[j] == d);
}

/// Law: once the document carrying an external id is removed, a fetch
/// by that id finds nothing.
pub proof fn lemma_delete_then_get(docs: Seq<DocView>, e: u128)
    requires
        unique_uuids(docs),
        has_uuid(docs, e),
    ensures
        lookup(docs.remove(uuid_idx(docs, e)), e) is None,
{
    let i = uuid_idx(docs, e);
    assert(0 <= i < docs.len() && docs[i].uuid == e);
    let nd = docs.remove(i);
    assert forall|k: int| 0 <= k < nd.len() implies #[trigger] nd[k].uuid != e by {
        let k0 = if k < i {
            k
        } else {
            k + 1
        };
        assert(nd[k] == docs[k0]);
        if k0 < i {
            assert(docs[k0].uuid != docs[i].uuid);
        } else {
            assert(docs[i].uuid != docs[k0].uuid);
        }
    }
    assert(!has_uuid(nd, e));
}

/// Law: listing under the sentinel category "all" selects exactly what
/// an unrestricted listing selects.
pub proof fn lemma_category_all_unfiltered(docs: Seq<DocView>, search: Option<Seq<char>>)
    ensures
        filtered(docs, QueryView { category: Some("all"@), search }) == filtered(
            docs,
            QueryView { category: None, search },
        ),
    decreases docs.len(),
{
    if docs.len() > 0 {
        lemma_category_all_unfiltered(docs.drop_last(), search);
    }
}

/// Law: every document that passes a query is selected.
pub proof fn lemma_filtered_complete(docs: Seq<DocView>, q: QueryView, i: int)
    requires
        0 <= i < docs.len(),
        matches_query(docs[i], q),
    ensures
        filtered(docs, q).contains(docs[i]),
    decreases docs.len(),
{
    if i < docs.len() - 1 {
        lemma_filtered_complete(docs.drop_last(), q, i);
        assert(docs.drop_last()[i] == docs[i]);
        let f0 = filtered(docs.drop_last(), q);
        let k = choose|k: int| 0 <= k < f0.len() && f0[k] == docs[i];
        assert(filtered(docs, q)[k] == docs[i]);
    } else {
        let f = filtered(docs, q);
        assert(docs.last() == docs[i]);
        assert(f[f.len() - 1] == docs[i]);
    }
}

/// Law: only documents of the store that pass the query are selected.
pub proof fn lemma_filtered_sound(docs: Seq<DocView>, q: QueryView, k: int)
    requires
        0 <= k < filtered(docs, q).len(),
    ensures
        matches_query(filtered(docs, q)[k], q),
        docs.contains(filtered(docs, q)[k]),
    decreases docs.len(),
{
    let f = filtered(docs, q);
    let f0 = filtered(docs.drop_last(), q);
    if k < f0.len() {
        lemma_filtered_sound(docs.drop_last(), q, k);
        assert(f[k] == f0[k]);
        let m = choose|m: int|
            0 <= m < docs.drop_last().len() && docs.drop_last()[m] == f0[k];
        assert(docs[m] == f0[k]);
    } else {
        assert(f[k] == docs.last());
        assert(docs[docs.len() - 1] == docs.last());
    }
}

} // verus!
