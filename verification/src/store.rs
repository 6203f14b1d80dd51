//! The document store model: an in-memory reference implementation of
//! the storage contract the service relies on (find by identifier,
//! insert with id assignment, full-record replace, delete by internal
//! id, distinct categories), with the store invariant that every
//! readable record is well formed and both identifiers are unique.

use vstd::prelude::*;
use crate::documents::{DocView, Model};
use crate::errors::AppError;
use crate::text::trimmed_empty;
use vstd::string::StringExecFns;

verus! {

/// A record the service may let callers read: title and content hold
/// something after trimming, and the update time never precedes the
/// creation time.
pub open spec fn valid_doc(d: DocView) -> bool {
    &&& !trimmed_empty(d.title)
    &&& !trimmed_empty(d.content)
    &&& d.updated_at >= d.created_at
}

/// No two records share an internal id.
pub open spec fn unique_ids(docs: Seq<DocView>) -> bool {
    forall|i: int, j: int|
        0 <= i < j < docs.len() ==> #[trigger] docs[i].id != #[trigger] docs[j].id
}

/// No two records share an external id.
pub open spec fn unique_uuids(docs: Seq<DocView>) -> bool {
    forall|i: int, j: int|
        0 <= i < j < docs.len() ==> #[trigger] docs[i].uuid != #[trigger] docs[j].uuid
}

/// Some record carries this external id.
pub open spec fn has_uuid(docs: Seq<DocView>, e: u128) -> bool {
    exists|i: int| 0 <= i < docs.len() && #[trigger] docs[i].uuid == e
}

/// The position of the record with this external id.
pub open spec fn uuid_idx(docs: Seq<DocView>, e: u128) -> int {
    choose|i: int| 0 <= i < docs.len() && #[trigger] docs[i].uuid == e
}

/// The record with this external id, if any.
pub open spec fn lookup(docs: Seq<DocView>, e: u128) -> Option<DocView> {
    if has_uuid(docs, e) {
        Some(docs[uuid_idx(docs, e)])
    } else {
        None
    }
}

/// Some record carries this internal id.
pub open spec fn has_id(docs: Seq<DocView>, id: int) -> bool {
    exists|i: int| 0 <= i < docs.len() && #[trigger] docs[i].id == id
}

/// The position of the record with this internal id.
pub open spec fn id_idx(docs: Seq<DocView>, id: int) -> int {
    choose|i: int| 0 <= i < docs.len() && #[trigger] docs[i].id == id
}

/// Some record carries this category.
pub open spec fn has_category(docs: Seq<DocView>, c: Seq<char>) -> bool {
    exists|i: int| 0 <= i < docs.len() && #[trigger] docs[i].category == c
}

/// This sequence of texts holds this text.
pub open spec fn seq_has_str(ss: Seq<Seq<char>>, c: Seq<char>) -> bool {
    exists|k: int| 0 <= k < ss.len() && #[trigger] ss[k] == c
}

/// The mathematical view of the store.
pub struct StoreView {
    pub docs: Seq<DocView>,
    pub next_id: int,
}

/// The store invariant.
pub open spec fn store_wf(s: StoreView) -> bool {
    &&& 1 <= s.next_id <= i32::MAX
    &&& forall|i: int|
        0 <= i < s.docs.len() ==> valid_doc(#[trigger] s.docs[i]) && 1 <= s.docs[i].id
            < s.next_id
    &&& unique_ids(s.docs)
    &&& unique_uuids(s.docs)
}

/// With unique external ids, finding a record at some position pins
/// the lookup: that position, that record.
pub proof fn lemma_lookup_at(docs: Seq<DocView>, e: u128, i: int)
    requires
        unique_uuids(docs),
        0 <= i < docs.len(),
        docs[i].uuid == e,
    ensures
        has_uuid(docs, e),
        uuid_idx(docs, e) == i,
        lookup(docs, e) == Some(docs[i]),
{
    assert(has_uuid(docs, e));
    let j = uuid_idx(docs, e);
    assert(0 <= j < docs.len() && docs[j].uuid == e);
    if i < j {
        assert(docs[i].uuid != docs[j].uuid);
    } else if j < i {
        assert(docs[j].uuid != docs[i].uuid);
    }
}

/// The same, for internal ids.
pub proof fn lemma_id_at(docs: Seq<DocView>, id: int, i: int)
    requires
        unique_ids(docs),
        0 <= i < docs.len(),
        docs[i].id == id,
    ensures
        has_id(docs, id),
        id_idx(docs, id) == i,
{
    assert(has_id(docs, id));
    let j = id_idx(docs, id);
    assert(0 <= j < docs.len() && docs[j].id == id);
    if i < j {
        assert(docs[i].id != docs[j].id);
    } else if j < i {
        assert(docs[j].id != docs[i].id);
    }
}

/// The in-memory store: the records, and the next internal id to
/// assign.
pub struct DocumentStore {
    docs: Vec<Model>,
    next_id: i32,
}

impl View for DocumentStore {
    type V = StoreView;

    closed spec fn view(&self) -> StoreView {
        StoreView { docs: self.docs@.map_values(|m: Model| m@), next_id: self.next_id as int }
    }
}

impl DocumentStore {
    /// The store invariant, on this store.
    pub open spec fn wf(&self) -> bool {
        store_wf(self@)
    }

    /// An empty store.
    pub fn new() -> (r: DocumentStore)
        ensures
            r@.docs.len() == 0,
            r@.next_id == 1,
            r.wf(),
    {
        let r = DocumentStore { docs: Vec::new(), next_id: 1 };
        proof {
            assert(r@.docs =~= Seq::<DocView>::empty());
        }
        r
    }

    /// How many records the store holds.
    pub fn num_docs(&self) -> (n: usize)
        ensures
            n == self@.docs.len(),
    {
        self.docs.len()
    }

    /// The record at a position.
    pub fn doc_at(&self, i: usize) -> (m: &Model)
        requires
            i < self@.docs.len(),
        ensures
            m@ == self@.docs[i as int],
    {
        &self.docs[i]
    }

    /// The position of the record with this external id, if any.
    #[verifier::loop_isolation(false)]
    pub fn find_index(&self, e: u128) -> (r: Option<usize>)
        requires
            self.wf(),
        ensures
            (match r {
                Some(i) => i < self@.docs.len() && self@.docs[i as int].uuid == e && uuid_idx(
                    self@.docs,
                    e,
                ) == i && lookup(self@.docs, e) == Some(self@.docs[i as int]),
                None => !has_uuid(self@.docs, e) && lookup(self@.docs, e) is None,
            }),
    {
        let n = self.docs.len();
        let mut i: usize = 0;
        while i < n
            invariant
                0 <= i <= n,
                n == self@.docs.len(),
                forall|k: int| 0 <= k < i ==> #[trigger] self@.docs[k].uuid != e,
            decreases n - i,
        {
            if self.docs[i].uuid == e {
                proof {
                    lemma_lookup_at(self@.docs, e, i as int);
                }
                return Some(i);
            }
            i = i + 1;
        }
        None
    }

    /// The record with this external id, if any.
    pub fn get_by_external_id(&self, e: u128) -> (r: Option<Model>)
        requires
            self.wf(),
        ensures
            (match r {
                Some(m) => lookup(self@.docs, e) == Some(m@),
                None => lookup(self@.docs, e) is None,
            }),
    {
        match self.find_index(e) {
            Some(i) => Some(self.docs[i].clone()),
            None => None,
        }
    }

    /// Inserts a record, assigning the next internal id; refuses a
    /// duplicate external id (the store's uniqueness constraint) and an
    /// exhausted id space, as storage failures.
    pub fn insert(&mut self, m: Model) -> (r: Result<Model, AppError>)
        requires
            old(self).wf(),
            !trimmed_empty(m@.title),
            !trimmed_empty(m@.content),
            m@.updated_at >= m@.created_at,
        ensures
            final(self).wf(),
            (has_uuid(old(self)@.docs, m@.uuid) ==> final(self)@ == old(self)@
                && (r matches Err(e) && e matches AppError::Database(_))),
            (!has_uuid(old(self)@.docs, m@.uuid) && old(self)@.next_id == i32::MAX
                ==> final(self)@ == old(self)@
                && (r matches Err(e) && e matches AppError::Database(_))),
            (!has_uuid(old(self)@.docs, m@.uuid) && old(self)@.next_id < i32::MAX
                ==> (r matches Ok(d) && d@ == (DocView { id: old(self)@.next_id, ..m@ })
                && final(self)@.docs == old(self)@.docs.push(d@)
                && final(self)@.next_id == old(self)@.next_id + 1)),
    {
        match self.find_index(m.uuid) {
            Some(_) => {
                return Err(
                    AppError::Database(String::from_str("unique constraint violated on uuid")),
                );
            },
            None => {},
        }
        if self.next_id == i32::MAX {
            return Err(AppError::Database(String::from_str("internal id space exhausted")));
        }
        let id = self.next_id;
        let d = Model {
            id,
            uuid: m.uuid,
            title: m.title,
            content: m.content,
            category: m.category,
            tags: m.tags,
            created_at: m.created_at,
            updated_at: m.updated_at,
        };
        let out = d.clone();
        self.docs.push(d);
        self.next_id = id + 1;
        proof {
            let od = old(self)@.docs;
            let nd = self@.docs;
            assert(nd =~= od.push(out@));
            assert forall|i: int, j: int| 0 <= i < j < nd.len() implies #[trigger] nd[i].uuid
                != #[trigger] nd[j].uuid by {
                if j < od.len() {
                    assert(od[i].uuid != od[j].uuid);
                } else {
                    assert(nd[j] == out@);
                    assert(nd[i] == od[i]);
                }
            }
            assert forall|i: int, j: int| 0 <= i < j < nd.len() implies #[trigger] nd[i].id
                != #[trigger] nd[j].id by {
                if j < od.len() {
                    assert(od[i].id != od[j].id);
                } else {
                    assert(nd[j] == out@);
                    assert(nd[i] == od[i]);
                }
            }
        }
        Ok(out)
    }

    /// Replaces the record that carries this internal id, wholesale; a
    /// missing record is a storage failure. The caller hands back the
    /// same internal and external id the record already carries.
    #[verifier::loop_isolation(false)]
    pub fn replace(&mut self, m: Model) -> (r: Result<(), AppError>)
        requires
            old(self).wf(),
            !trimmed_empty(m@.title),
            !trimmed_empty(m@.content),
            m@.updated_at >= m@.created_at,
            forall|i: int|
                0 <= i < old(self)@.docs.len() && #[trigger] old(self)@.docs[i].id == m@.id
                    ==> old(self)@.docs[i].uuid == m@.uuid,
        ensures
            final(self).wf(),
            (has_id(old(self)@.docs, m@.id) ==> final(self)@.docs == old(self)@.docs.update(
                id_idx(old(self)@.docs, m@.id),
                m@,
            ) && final(self)@.next_id == old(self)@.next_id && r is Ok),
            (!has_id(old(self)@.docs, m@.id) ==> final(self)@ == old(self)@
                && (r matches Err(e) && e matches AppError::Database(_))),
    {
        let n = self.docs.len();
        let mut i: usize = 0;
        while i < n
            invariant
                0 <= i <= n,
                n == self@.docs.len(),
                forall|k: int| 0 <= k < i ==> #[trigger] self@.docs[k].id != m@.id,
                self@ == old(self)@,
                old(self).wf(),
            decreases n - i,
        {
            if self.docs[i].id == m.id {
                proof {
                    lemma_id_at(self@.docs, m@.id as int, i as int);
                }
                let ghost od = self@.docs;
                let ghost mv = m@;
                self.docs.set(i, m);
                proof {
                    let nd = self@.docs;
                    assert(nd =~= od.update(i as int, mv));
                    assert(od[i as int].uuid == mv.uuid);
                    assert(od[i as int].id == mv.id);
                    assert(forall|k: int|
                        0 <= k < nd.len() ==> #[trigger] nd[k].uuid == od[k].uuid);
                    assert(forall|k: int| 0 <= k < nd.len() ==> #[trigger] nd[k].id == od[k].id);
                    assert forall|a: int, b: int| 0 <= a < b < nd.len() implies #[trigger] nd[a].id
                        != #[trigger] nd[b].id by {
                        assert(od[a].id != od[b].id);
                    }
                    assert forall|a: int, b: int|
                        0 <= a < b < nd.len() implies #[trigger] nd[a].uuid
                        != #[trigger] nd[b].uuid by {
                        assert(od[a].uuid != od[b].uuid);
                    }
                }
                return Ok(());
            }
            i = i + 1;
        }
        Err(AppError::Database(String::from_str("record to update is gone")))
    }

    /// Removes the record that carries this internal id, if any.
    #[verifier::loop_isolation(false)]
    pub fn delete_by_internal_id(&mut self, id: i32)
        requires
            old(self).wf(),
        ensures
            final(self).wf(),
            (has_id(old(self)@.docs, id as int) ==> final(self)@.docs == old(self)@.docs.remove(
                id_idx(old(self)@.docs, id as int),
            ) && final(self)@.next_id == old(self)@.next_id),
            (!has_id(old(self)@.docs, id as int) ==> final(self)@ == old(self)@),
    {
        let n = self.docs.len();
        let mut i: usize = 0;
        while i < n
            invariant
                0 <= i <= n,
                n == self@.docs.len(),
                forall|k: int| 0 <= k < i ==> #[trigger] self@.docs[k].id != id as int,
                self@ == old(self)@,
                old(self).wf(),
            decreases n - i,
        {
            if self.docs[i].id == id {
                proof {
                    lemma_id_at(self@.docs, id as int, i as int);
                }
                let ghost od = self@.docs;
                self.docs.remove(i);
                proof {
                    let nd = self@.docs;
                    assert(nd =~= od.remove(i as int));
                    assert(forall|k: int|
                        0 <= k < nd.len() ==> #[trigger] nd[k] == (if k < i as int {
                            od[k]
                        } else {
                            od[k + 1]
                        }));
                    assert forall|a: int, b: int| 0 <= a < b < nd.len() implies #[trigger] nd[a].id
                        != #[trigger] nd[b].id by {
                        let a0 = if a < i as int { a } else { a + 1 };
                        let b0 = if b < i as int { b } else { b + 1 };
                        assert(od[a0].id != od[b0].id);
                    }
                    assert forall|a: int, b: int|
                        0 <= a < b < nd.len() implies #[trigger] nd[a].uuid
                        != #[trigger] nd[b].uuid by {
                        let a0 = if a < i as int { a } else { a + 1 };
                        let b0 = if b < i as int { b } else { b + 1 };
                        assert(od[a0].uuid != od[b0].uuid);
                    }
                }
                return ;
            }
            i = i + 1;
        }
    }

    /// The distinct categories in use, without duplicates; every
    /// returned category is carried by some record, and every record's
    /// category is returned.
    #[verifier::loop_isolation(false)]
    pub fn distinct_categories(&self) -> (r: Vec<String>)
        ensures
            forall|a: int, b: int| 0 <= a < b < r@.len() ==> #[trigger] r@[a]@ != #[trigger] r@[b]@,
            forall|k: int| 0 <= k < r@.len() ==> has_category(self@.docs, #[trigger] r@[k]@),
            forall|d: int|
                0 <= d < self@.docs.len() ==> seq_has_str(
                    r@.map_values(|t: String| t@),
                    #[trigger] self@.docs[d].category,
                ),
    {
        let n = self.docs.len();
        let mut r: Vec<String> = Vec::new();
        let mut i: usize = 0;
        while i < n
            invariant
                0 <= i <= n,
                n == self@.docs.len(),
                forall|a: int, b: int|
                    0 <= a < b < r@.len() ==> #[trigger] r@[a]@ != #[trigger] r@[b]@,
                forall|k: int| 0 <= k < r@.len() ==> has_category(self@.docs, #[trigger] r@[k]@),
                forall|d: int|
                    0 <= d < i ==> seq_has_str(
                        r@.map_values(|t: String| t@),
                        #[trigger] self@.docs[d].category,
                    ),
            decreases n - i,
        {
            let c = &self.docs[i].category;
            proof {
                assert(self@.docs[i as int] == self.docs@[i as int]@);
                assert(c@ == self@.docs[i as int].category);
            }
            let mut seen = false;
            let mut k: usize = 0;
            let rlen = r.len();
            while !seen && k < rlen
                invariant
                    0 <= k <= rlen,
                    rlen == r@.len(),
                    i < n,
                    n == self@.docs.len(),
                    seen ==> seq_has_str(
                        r@.map_values(|t: String| t@),
                        self@.docs[i as int].category,
                    ),
                    !seen ==> forall|k2: int|
                        0 <= k2 < k ==> #[trigger] r@[k2]@ != self@.docs[i as int].category,
                decreases rlen - k + (if seen { 0int } else { 1int }),
            {
                if r[k] == *c {
                    seen = true;
                    proof {
                        let rv = r@.map_values(|t: String| t@);
                        assert(rv[k as int] == r@[k as int]@);
                        assert(rv[k as int] == self@.docs[i as int].category);
                        assert(seq_has_str(rv, self@.docs[i as int].category));
                    }
                } else {
                    proof {
                        assert(r@[k as int]@ != self@.docs[i as int].category);
                    }
                    k = k + 1;
                }
            }
            if !seen {
                let ghost r0 = r@;
                let ghost rv0 = r@.map_values(|t: String| t@);
                r.push(c.clone());
                proof {
                    let rv = r@.map_values(|t: String| t@);
                    assert(rv =~= rv0.push(self@.docs[i as int].category));
                    assert(rv[rv.len() - 1] == self@.docs[i as int].category);
                    assert forall|a: int, b: int| 0 <= a < b < r@.len() implies #[trigger] r@[a]@
                        != #[trigger] r@[b]@ by {
                        if b < r0.len() {
                            assert(r0[a]@ != r0[b]@);
                        } else {
                            assert(r@[b]@ == self@.docs[i as int].category);
                            assert(r@[a]@ != self@.docs[i as int].category);
                        }
                    }
                    assert(has_category(self@.docs, self@.docs[i as int].category));
                    assert forall|d: int| 0 <= d < i + 1 implies seq_has_str(
                        rv,
                        #[trigger] self@.docs[d].category,
                    ) by {
                        if d < i {
                            assert(seq_has_str(rv0, self@.docs[d].category));
                            let k0 = choose|k0: int|
                                0 <= k0 < rv0.len() && #[trigger] rv0[k0] == self@.docs[d].category;
                            assert(rv[k0] == self@.docs[d].category);
                        } else {
                            assert(rv[rv.len() - 1] == self@.docs[d].category);
                        }
                    }
                }
            } else {
                proof {
                    let rv = r@.map_values(|t: String| t@);
                    assert forall|d: int| 0 <= d < i + 1 implies seq_has_str(
                        rv,
                        #[trigger] self@.docs[d].category,
                    ) by {}
                }
            }
            i = i + 1;
        }
        r
    }
}

} // verus!
