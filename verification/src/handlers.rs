//! The document service: validation, filtering and search, creation,
//! partial update, deletion and the category query, each with its full
//! request/response contract over the store model.

use vstd::prelude::*;
use vstd::string::StringExecFns;
use crate::clock::now_millis;
use crate::documents::{
    CreateDocumentRequest, CreateView, DocView, DocumentResponse, Model, UpdateDocumentRequest,
    UpdateView, shape,
};
use crate::errors::{AppError, AppResult};
use crate::ids::{fresh_external_id, parse_external_id, parsed_uuid};
use crate::order::{sort_desc, sort_responses};
use crate::store::{
    DocumentStore, has_category, has_uuid, lookup, seq_has_str, uuid_idx, lemma_id_at,
};
use crate::tags::{encode_tags, encode_tags_spec, lemma_tags_round_trip};
use crate::text::{contains_ci, contains_ci_str, has_content, trimmed_empty};

verus! {

/// The list operation's parameters: an optional category restriction
/// and an optional search string.
pub struct DocumentQuery {
    pub category: Option<String>,
    pub search: Option<String>,
}

/// The view of a query.
pub struct QueryView {
    pub category: Option<Seq<char>>,
    pub search: Option<Seq<char>>,
}

impl View for DocumentQuery {
    type V = QueryView;

    open spec fn view(&self) -> QueryView {
        QueryView {
            category: match self.category {
                Some(c) => Some(c@),
                None => None,
            },
            search: match self.search {
                Some(s) => Some(s@),
                None => None,
            },
        }
    }
}

/// Whether a record passes a query: a present category restricts to an
/// exact match unless it is the sentinel "all"; a present search
/// restricts to records whose title or content contains it as a
/// case-insensitive substring.
pub open spec fn matches_query(d: DocView, q: QueryView) -> bool {
    (match q.category {
        Some(c) => c == "all"@ || d.category == c,
        None => true,
    }) && (match q.search {
        Some(s) => contains_ci(d.title, s) || contains_ci(d.content, s),
        None => true,
    })
}

/// The records that pass a query, in store order.
pub open spec fn filtered(docs: Seq<DocView>, q: QueryView) -> Seq<DocView>
    decreases docs.len(),
{
    if docs.len() == 0 {
        Seq::empty()
    } else {
        filtered(docs.drop_last(), q) + (if matches_query(docs.last(), q) {
            seq![docs.last()]
        } else {
            Seq::empty()
        })
    }
}

/// Whether a record passes a query, decided on the record.
pub fn matches_query_x(m: &Model, q: &DocumentQuery) -> (r: bool)
    ensures
        r == matches_query(m@, q@),
{
    let cat_ok: bool = match &q.category {
        Some(c) => {
            let all = String::from_str("all");
            *c == all || *c == m.category
        },
        None => true,
    };
    let search_ok: bool = match &q.search {
        Some(s) => contains_ci_str(m.title.as_str(), s.as_str()) || contains_ci_str(
            m.content.as_str(),
            s.as_str(),
        ),
        None => true,
    };
    cat_ok && search_ok
}

/// Rejects a value that is empty once trimmed, with the message
/// `"<field_name> cannot be empty"`.
pub fn validate_non_empty(field_name: &str, value: &str) -> (r: AppResult<()>)
    ensures
        r is Ok <==> !trimmed_empty(value@),
        (r matches Err(e) ==> (e matches AppError::BadRequest(m) && m@ == field_name@
            + " cannot be empty"@)),
{
    if has_content(value) {
        Ok(())
    } else {
        Err(AppError::BadRequest(String::from_str(field_name).concat(" cannot be empty")))
    }
}

/// The health probe's body: the status and the banner message.
pub fn health_check() -> (r: (String, String))
    ensures
        r.0@ == "ok"@,
        r.1@ == "Tech Docs API is running"@,
{
    (String::from_str("ok"), String::from_str("Tech Docs API is running"))
}

/// Lists the documents that pass the query, shaped, ordered by update
/// time newest first.
#[verifier::loop_isolation(false)]
pub fn get_documents(store: &DocumentStore, query: &DocumentQuery) -> (r: Vec<DocumentResponse>)
    ensures
        r@.map_values(|d: DocumentResponse| d@) == sort_desc(
            filtered(store@.docs, query@).map_values(|d: DocView| shape(d)),
        ),
{
    let n = store.num_docs();
    let mut picked: Vec<DocumentResponse> = Vec::new();
    proof {
        assert(picked@.map_values(|d: DocumentResponse| d@) =~= filtered(
            store@.docs.take(0),
            query@,
        ).map_values(|d: DocView| shape(d)));
    }
    let mut i: usize = 0;
    while i < n
        invariant
            0 <= i <= n,
            picked@.map_values(|d: DocumentResponse| d@) == filtered(
                store@.docs.take(i as int),
                query@,
            ).map_values(|d: DocView| shape(d)),
        decreases n - i,
    {
        let ghost pv0 = picked@.map_values(|d: DocumentResponse| d@);
        let m = store.doc_at(i);
        proof {
            assert(store@.docs.take(i + 1).drop_last() =~= store@.docs.take(i as int));
            assert(store@.docs.take(i + 1).last() == store@.docs[i as int]);
        }
        if matches_query_x(m, query) {
            let resp = DocumentResponse::from_model(m.clone());
            let ghost rv = resp@;
            picked.push(resp);
            proof {
                let f = filtered(store@.docs.take(i + 1), query@);
                assert(f =~= filtered(store@.docs.take(i as int), query@) + seq![
                    store@.docs[i as int],
                ]);
                assert(rv == shape(store@.docs[i as int]));
                assert(picked@.map_values(|d: DocumentResponse| d@) =~= pv0.push(rv));
                assert(f.map_values(|d: DocView| shape(d)) =~= pv0.push(rv));
            }
        } else {
            proof {
                let f = filtered(store@.docs.take(i + 1), query@);
                assert(f =~= filtered(store@.docs.take(i as int), query@));
            }
        }
        i = i + 1;
    }
    proof {
        assert(store@.docs.take(n as int) =~= store@.docs);
    }
    sort_responses(picked)
}

/// Fetches one document by its external id: bad input for a malformed
/// identifier, not found for an unknown one, the shaped record
/// otherwise.
pub fn get_document(store: &DocumentStore, id: &str) -> (r: AppResult<DocumentResponse>)
    requires
        store.wf(),
    ensures
        (match parsed_uuid(id@) {
            None => (r matches Err(e) && e matches AppError::BadRequest(m) && m@
                == "Invalid UUID format"@),
            Some(e) => (match lookup(store@.docs, e) {
                None => (r matches Err(er) && er matches AppError::NotFound(m) && m@
                    == "Document not found"@),
                Some(d) => (r matches Ok(resp) && resp@ == shape(d)),
            }),
        }),
{
    let e = match parse_external_id(id) {
        Ok(e) => e,
        Err(err) => {
            return Err(err);
        },
    };
    match store.get_by_external_id(e) {
        Some(m) => Ok(DocumentResponse::from_model(m)),
        None => Err(AppError::NotFound(String::from_str("Document not found"))),
    }
}

/// The record a create request makes, given the assigned internal id,
/// the fresh external id, and the creation instant.
pub open spec fn new_doc(id: int, e: u128, req: CreateView, now: int) -> DocView {
    DocView {
        id,
        uuid: e,
        title: req.title,
        content: req.content,
        category: req.category,
        tags: encode_tags_spec(req.tags),
        created_at: now,
        updated_at: now,
    }
}

/// Creates a document from a request, with the external id and the
/// creation instant supplied; title and content must hold something
/// after trimming, and a colliding external id is a storage failure,
/// as the store's uniqueness constraint would make it.
pub fn create_document_with(
    store: &mut DocumentStore,
    request: &CreateDocumentRequest,
    external_id: u128,
    now: i64,
) -> (r: AppResult<DocumentResponse>)
    requires
        old(store).wf(),
    ensures
        final(store).wf(),
        (trimmed_empty(request@.title) ==> final(store)@ == old(store)@
            && (r matches Err(e) && e matches AppError::BadRequest(m) && m@
            == "Title cannot be empty"@)),
        (!trimmed_empty(request@.title) && trimmed_empty(request@.content)
            ==> final(store)@ == old(store)@
            && (r matches Err(e) && e matches AppError::BadRequest(m) && m@
            == "Content cannot be empty"@)),
        (!trimmed_empty(request@.title) && !trimmed_empty(request@.content)
            && has_uuid(old(store)@.docs, external_id) ==> final(store)@ == old(store)@
            && (r matches Err(e) && e matches AppError::Database(_))),
        (!trimmed_empty(request@.title) && !trimmed_empty(request@.content)
            && !has_uuid(old(store)@.docs, external_id) && old(store)@.next_id == i32::MAX
            ==> final(store)@ == old(store)@
            && (r matches Err(e) && e matches AppError::Database(_))),
        (!trimmed_empty(request@.title) && !trimmed_empty(request@.content)
            && !has_uuid(old(store)@.docs, external_id) && old(store)@.next_id < i32::MAX
            ==> final(store)@.docs == old(store)@.docs.push(
                new_doc(old(store)@.next_id, external_id, request@, now as int),
            )
            && final(store)@.next_id == old(store)@.next_id + 1
            && (r matches Ok(resp) && resp@ == shape(
                new_doc(old(store)@.next_id, external_id, request@, now as int),
            ) && resp@.tags == request@.tags)),
{
    proof {
        reveal_strlit("Title");
        reveal_strlit("Content");
        reveal_strlit(" cannot be empty");
        reveal_strlit("Title cannot be empty");
        reveal_strlit("Content cannot be empty");
        assert("Title"@ + " cannot be empty"@ =~= "Title cannot be empty"@);
        assert("Content"@ + " cannot be empty"@ =~= "Content cannot be empty"@);
    }
    if let Err(e) = validate_non_empty("Title", request.title.as_str()) {
        return Err(e);
    }
    if let Err(e) = validate_non_empty("Content", request.content.as_str()) {
        return Err(e);
    }
    let blob = encode_tags(&request.tags);
    let m = Model {
        id: 0,
        uuid: external_id,
        title: request.title.clone(),
        content: request.content.clone(),
        category: request.category.clone(),
        tags: blob,
        created_at: now,
        updated_at: now,
    };
    match store.insert(m) {
        Ok(d) => {
            proof {
                lemma_tags_round_trip(request@.tags);
                assert(d@ == new_doc(old(store)@.next_id, external_id, request@, now as int));
            }
            Ok(DocumentResponse::from_model(d))
        },
        Err(e) => Err(e),
    }
}

/// Creates a document, drawing a fresh external id and stamping both
/// timestamps with the same creation instant.
pub fn create_document(store: &mut DocumentStore, request: &CreateDocumentRequest) -> (r:
    AppResult<DocumentResponse>)
    requires
        old(store).wf(),
    ensures
        final(store).wf(),
        (trimmed_empty(request@.title) ==> final(store)@ == old(store)@
            && (r matches Err(e) && e matches AppError::BadRequest(m) && m@
            == "Title cannot be empty"@)),
        (!trimmed_empty(request@.title) && trimmed_empty(request@.content)
            ==> final(store)@ == old(store)@
            && (r matches Err(e) && e matches AppError::BadRequest(m) && m@
            == "Content cannot be empty"@)),
        (r is Err ==> final(store)@ == old(store)@),
        (!trimmed_empty(request@.title) && !trimmed_empty(request@.content)
            ==> (r is Ok || (r matches Err(e) && e matches AppError::Database(_)))),
        (r matches Ok(resp) ==> ({
            let d = final(store)@.docs.last();
            &&& final(store)@.docs == old(store)@.docs.push(d)
            &&& final(store)@.next_id == old(store)@.next_id + 1
            &&& d.id == old(store)@.next_id
            &&& !has_uuid(old(store)@.docs, d.uuid)
            &&& d.title == request@.title
            &&& d.content == request@.content
            &&& d.category == request@.category
            &&& d.tags == encode_tags_spec(request@.tags)
            &&& d.created_at == d.updated_at
            &&& resp@ == shape(d)
            &&& resp@.tags == request@.tags
        })),
{
    let external_id = fresh_external_id();
    let now = now_millis();
    create_document_with(store, request, external_id, now)
}

/// The record an update request leaves behind: present fields replace,
/// absent fields stay, tags replace wholesale, the update instant is
/// refreshed (never before the creation instant).
pub open spec fn merged_doc(d: DocView, req: UpdateView, now: int) -> DocView {
    DocView {
        id: d.id,
        uuid: d.uuid,
        title: match req.title {
            Some(t) => t,
            None => d.title,
        },
        content: match req.content {
            Some(t) => t,
            None => d.content,
        },
        category: match req.category {
            Some(t) => t,
            None => d.category,
        },
        tags: match req.tags {
            Some(t) => encode_tags_spec(t),
            None => d.tags,
        },
        created_at: d.created_at,
        updated_at: if now >= d.created_at {
            now
        } else {
            d.created_at
        },
    }
}

/// Updates a document by its external id, with the update instant
/// supplied: present fields are validated and merged onto the record,
/// absent fields are left untouched, and the update time is refreshed
/// even when no field is present.
pub fn update_document_with(
    store: &mut DocumentStore,
    id: &str,
    request: &UpdateDocumentRequest,
    now: i64,
) -> (r: AppResult<DocumentResponse>)
    requires
        old(store).wf(),
    ensures
        final(store).wf(),
        (match parsed_uuid(id@) {
            None => final(store)@ == old(store)@ && (r matches Err(e)
                && e matches AppError::BadRequest(m) && m@ == "Invalid UUID format"@),
            Some(e) => (match lookup(old(store)@.docs, e) {
                None => final(store)@ == old(store)@ && (r matches Err(er)
                    && er matches AppError::NotFound(m) && m@ == "Document not found"@),
                Some(d) => ({
                    let tbad = (request@.title matches Some(t) && trimmed_empty(t));
                    let cbad = (request@.content matches Some(t) && trimmed_empty(t));
                    let nd = merged_doc(d, request@, now as int);
                    &&& (tbad ==> final(store)@ == old(store)@ && (r matches Err(er)
                        && er matches AppError::BadRequest(m) && m@ == "Title cannot be empty"@))
                    &&& (!tbad && cbad ==> final(store)@ == old(store)@ && (r matches Err(er)
                        && er matches AppError::BadRequest(m) && m@
                        == "Content cannot be empty"@))
                    &&& (!tbad && !cbad ==> final(store)@.docs == old(store)@.docs.update(
                        uuid_idx(old(store)@.docs, e),
                        nd,
                    ) && final(store)@.next_id == old(store)@.next_id && (r matches Ok(resp)
                        && resp@ == shape(nd)) && (request@.tags matches Some(t)
                        ==> shape(nd).tags == t))
                }),
            }),
        }),
{
    proof {
        reveal_strlit("Title");
        reveal_strlit("Content");
        reveal_strlit(" cannot be empty");
        reveal_strlit("Title cannot be empty");
        reveal_strlit("Content cannot be empty");
        assert("Title"@ + " cannot be empty"@ =~= "Title cannot be empty"@);
        assert("Content"@ + " cannot be empty"@ =~= "Content cannot be empty"@);
    }
    let e = match parse_external_id(id) {
        Ok(e) => e,
        Err(err) => {
            return Err(err);
        },
    };
    let i = match store.find_index(e) {
        Some(i) => i,
        None => {
            return Err(AppError::NotFound(String::from_str("Document not found")));
        },
    };
    let doc = store.doc_at(i).clone();
    let ghost d = store@.docs[i as int];
    let title = match &request.title {
        Some(t) => {
            if let Err(er) = validate_non_empty("Title", t.as_str()) {
                return Err(er);
            }
            t.clone()
        },
        None => doc.title,
    };
    let content = match &request.content {
        Some(t) => {
            if let Err(er) = validate_non_empty("Content", t.as_str()) {
                return Err(er);
            }
            t.clone()
        },
        None => doc.content,
    };
    let category = match &request.category {
        Some(t) => t.clone(),
        None => doc.category,
    };
    let tags = match &request.tags {
        Some(t) => {
            proof {
                lemma_tags_round_trip(request@.tags->0);
            }
            encode_tags(t)
        },
        None => doc.tags,
    };
    let updated_at = if now >= doc.created_at {
        now
    } else {
        doc.created_at
    };
    let m = Model {
        id: doc.id,
        uuid: doc.uuid,
        title,
        content,
        category,
        tags,
        created_at: doc.created_at,
        updated_at,
    };
    proof {
        assert(m@ == merged_doc(d, request@, now as int));
        lemma_id_at(store@.docs, d.id, i as int);
        assert forall|k: int|
            0 <= k < store@.docs.len() && #[trigger] store@.docs[k].id == m@.id
            implies store@.docs[k].uuid == m@.uuid by {
            if k != i as int {
                lemma_id_at(store@.docs, d.id, k);
            }
        }
    }
    let out = m.clone();
    match store.replace(m) {
        Ok(_) => Ok(DocumentResponse::from_model(out)),
        Err(_) => Err(AppError::Internal(String::from_str("update lost its record"))),
    }
}

/// Updates a document, stamping the update time with the current
/// instant.
pub fn update_document(store: &mut DocumentStore, id: &str, request: &UpdateDocumentRequest) -> (r:
    AppResult<DocumentResponse>)
    requires
        old(store).wf(),
    ensures
        final(store).wf(),
        (match parsed_uuid(id@) {
            None => final(store)@ == old(store)@ && (r matches Err(e)
                && e matches AppError::BadRequest(m) && m@ == "Invalid UUID format"@),
            Some(e) => (match lookup(old(store)@.docs, e) {
                None => final(store)@ == old(store)@ && (r matches Err(er)
                    && er matches AppError::NotFound(m) && m@ == "Document not found"@),
                Some(d) => ({
                    let tbad = (request@.title matches Some(t) && trimmed_empty(t));
                    let cbad = (request@.content matches Some(t) && trimmed_empty(t));
                    &&& (tbad ==> final(store)@ == old(store)@ && (r matches Err(er)
                        && er matches AppError::BadRequest(m) && m@ == "Title cannot be empty"@))
                    &&& (!tbad && cbad ==> final(store)@ == old(store)@ && (r matches Err(er)
                        && er matches AppError::BadRequest(m) && m@
                        == "Content cannot be empty"@))
                    &&& (!tbad && !cbad ==> (exists|t: int|
                        final(store)@.docs == old(store)@.docs.update(
                            uuid_idx(old(store)@.docs, e),
                            #[trigger] merged_doc(d, request@, t),
                        ) && (r matches Ok(resp) && resp@ == shape(merged_doc(d, request@, t))))
                        && final(store)@.next_id == old(store)@.next_id)
                }),
            }),
        }),
{
    let now = now_millis();
    let r = update_document_with(store, id, request, now);
    proof {
        match parsed_uuid(id@) {
            Some(e) => {
                match lookup(old(store)@.docs, e) {
                    Some(d) => {
                        let tbad = (request@.title matches Some(t) && trimmed_empty(t));
                        let cbad = (request@.content matches Some(t) && trimmed_empty(t));
                        if !tbad && !cbad {
                            assert(final(store)@.docs == old(store)@.docs.update(
                                uuid_idx(old(store)@.docs, e),
                                merged_doc(d, request@, now as int),
                            ) && (r matches Ok(resp) && resp@ == shape(
                                merged_doc(d, request@, now as int),
                            )));
                        }
                    },
                    None => {},
                }
            },
            None => {},
        }
    }
    r
}

/// Deletes a document by its external id; afterwards no record carries
/// that id.
pub fn delete_document(store: &mut DocumentStore, id: &str) -> (r: AppResult<()>)
    requires
        old(store).wf(),
    ensures
        final(store).wf(),
        (match parsed_uuid(id@) {
            None => final(store)@ == old(store)@ && (r matches Err(e)
                && e matches AppError::BadRequest(m) && m@ == "Invalid UUID format"@),
            Some(e) => (match lookup(old(store)@.docs, e) {
                None => final(store)@ == old(store)@ && (r matches Err(er)
                    && er matches AppError::NotFound(m) && m@ == "Document not found"@),
                Some(d) => final(store)@.docs == old(store)@.docs.remove(
                    uuid_idx(old(store)@.docs, e),
                ) && final(store)@.next_id == old(store)@.next_id && r is Ok && !has_uuid(
                    final(store)@.docs,
                    e,
                ),
            }),
        }),
{
    let e = match parse_external_id(id) {
        Ok(e) => e,
        Err(err) => {
            return Err(err);
        },
    };
    let i = match store.find_index(e) {
        Some(i) => i,
        None => {
            return Err(AppError::NotFound(String::from_str("Document not found")));
        },
    };
    let internal = store.doc_at(i).id;
    let ghost od = store@.docs;
    proof {
        lemma_id_at(od, internal as int, i as int);
    }
    store.delete_by_internal_id(internal);
    proof {
        let nd = store@.docs;
        assert(nd == od.remove(i as int));
        assert forall|k: int| 0 <= k < nd.len() implies #[trigger] nd[k].uuid != e by {
            let k0 = if k < i as int {
                k
            } else {
                k + 1
            };
            assert(nd[k] == od[k0]);
            if k0 < i as int {
                assert(od[k0].uuid != od[i as int].uuid);
            } else if k0 > i as int {
                assert(od[i as int].uuid != od[k0].uuid);
            }
        }
    }
    Ok(())
}

/// The distinct categories in use: no duplicates, nothing missing,
/// nothing invented.
pub fn get_categories(store: &DocumentStore) -> (r: Vec<String>)
    ensures
        forall|a: int, b: int| 0 <= a < b < r@.len() ==> #[trigger] r@[a]@ != #[trigger] r@[b]@,
        forall|k: int| 0 <= k < r@.len() ==> has_category(store@.docs, #[trigger] r@[k]@),
        forall|d: int|
            0 <= d < store@.docs.len() ==> seq_has_str(
                r@.map_values(|t: String| t@),
                #[trigger] store@.docs[d].category,
            ),
{
    store.distinct_categories()
}

} // verus!
