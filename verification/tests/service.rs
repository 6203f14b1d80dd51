use techdocs::documents::{CreateDocumentRequest, UpdateDocumentRequest};
use techdocs::errors::AppError;
use techdocs::handlers::{
    create_document, create_document_with, delete_document, get_categories, get_document,
    get_documents, health_check, update_document_with, validate_non_empty, DocumentQuery,
};
use techdocs::ids::parse_external_id;
use techdocs::store::DocumentStore;

fn req(title: &str, content: &str, category: &str, tags: &[&str]) -> CreateDocumentRequest {
    CreateDocumentRequest {
        title: title.to_string(),
        content: content.to_string(),
        category: category.to_string(),
        tags: tags.iter().map(|t| t.to_string()).collect(),
    }
}

fn no_change() -> UpdateDocumentRequest {
    UpdateDocumentRequest { title: None, content: None, category: None, tags: None }
}

fn uuid_text(v: u128) -> String {
    uuid::Uuid::from_u128(v).hyphenated().to_string()
}

#[test]
fn create_rejects_empty_title() {
    let mut store = DocumentStore::new();
    let r = create_document_with(&mut store, &req("", "body", "c", &[]), 1, 10);
    match r {
        Err(AppError::BadRequest(m)) => assert_eq!(m, "Title cannot be empty"),
        _ => panic!("expected bad request"),
    }
}

#[test]
fn create_rejects_whitespace_content() {
    let mut store = DocumentStore::new();
    let r = create_document_with(&mut store, &req("t", " \t\n ", "c", &[]), 1, 10);
    match r {
        Err(AppError::BadRequest(m)) => assert_eq!(m, "Content cannot be empty"),
        _ => panic!("expected bad request"),
    }
}

#[test]
fn create_accepts_single_characters() {
    let mut store = DocumentStore::new();
    let r = create_document_with(&mut store, &req("x", "y", "", &[]), 1, 10);
    assert!(r.is_ok());
}

#[test]
fn update_rejects_empty_title() {
    let mut store = DocumentStore::new();
    let d = create_document_with(&mut store, &req("t", "b", "c", &[]), 7, 10).unwrap();
    let up = UpdateDocumentRequest {
        title: Some("   ".to_string()),
        content: None,
        category: None,
        tags: None,
    };
    let r = update_document_with(&mut store, &uuid_text(d.uuid), &up, 20);
    match r {
        Err(AppError::BadRequest(m)) => assert_eq!(m, "Title cannot be empty"),
        _ => panic!("expected bad request"),
    }
}

#[test]
fn create_then_get_round_trips_tags_in_order() {
    let mut store = DocumentStore::new();
    let d = create_document_with(&mut store, &req("t", "b", "c", &["a", "b", "c"]), 9, 10)
        .unwrap();
    assert_eq!(d.tags, vec!["a", "b", "c"]);
    let got = get_document(&store, &uuid_text(d.uuid)).unwrap();
    assert_eq!(got.tags, vec!["a", "b", "c"]);
    assert_eq!(got.title, "t");
    assert_eq!(got.content, "b");
    assert_eq!(got.category, "c");
    assert_eq!(got.id, d.id);
    assert_eq!(got.uuid, d.uuid);
    assert_eq!(got.created_at, 10);
    assert_eq!(got.updated_at, 10);
}

#[test]
fn malformed_identifier_is_bad_input() {
    let mut store = DocumentStore::new();
    match get_document(&store, "not-a-uuid") {
        Err(AppError::BadRequest(m)) => assert_eq!(m, "Invalid UUID format"),
        _ => panic!("expected bad request"),
    }
    match update_document_with(&mut store, "not-a-uuid", &no_change(), 5) {
        Err(AppError::BadRequest(m)) => assert_eq!(m, "Invalid UUID format"),
        _ => panic!("expected bad request"),
    }
    match delete_document(&mut store, "not-a-uuid") {
        Err(AppError::BadRequest(m)) => assert_eq!(m, "Invalid UUID format"),
        _ => panic!("expected bad request"),
    }
}

#[test]
fn parse_external_id_accepts_canonical_text() {
    let v = parse_external_id("a1a2a3a4-b1b2-c1c2-d1d2-d3d4d5d6d7d8").unwrap();
    assert_eq!(v, 0xa1a2a3a4b1b2c1c2d1d2d3d4d5d6d7d8);
}

#[test]
fn delete_missing_is_not_found_and_delete_removes() {
    let mut store = DocumentStore::new();
    match delete_document(&mut store, &uuid_text(42)) {
        Err(AppError::NotFound(m)) => assert_eq!(m, "Document not found"),
        _ => panic!("expected not found"),
    }
    let d = create_document_with(&mut store, &req("t", "b", "c", &[]), 42, 10).unwrap();
    let id = uuid_text(d.uuid);
    assert!(delete_document(&mut store, &id).is_ok());
    match get_document(&store, &id) {
        Err(AppError::NotFound(m)) => assert_eq!(m, "Document not found"),
        _ => panic!("expected not found"),
    }
}

#[test]
fn update_with_no_fields_refreshes_updated_at_only() {
    let mut store = DocumentStore::new();
    let d = create_document_with(&mut store, &req("t", "b", "c", &["x"]), 5, 10).unwrap();
    let r = update_document_with(&mut store, &uuid_text(d.uuid), &no_change(), 99).unwrap();
    assert_eq!(r.title, "t");
    assert_eq!(r.content, "b");
    assert_eq!(r.category, "c");
    assert_eq!(r.tags, vec!["x"]);
    assert_eq!(r.created_at, 10);
    assert_eq!(r.updated_at, 99);
    assert_eq!(r.id, d.id);
    assert_eq!(r.uuid, d.uuid);
}

#[test]
fn update_replaces_tags_wholesale() {
    let mut store = DocumentStore::new();
    let d = create_document_with(&mut store, &req("t", "b", "c", &["a", "b"]), 5, 10).unwrap();
    let up = UpdateDocumentRequest {
        title: None,
        content: None,
        category: None,
        tags: Some(vec!["x".to_string()]),
    };
    let r = update_document_with(&mut store, &uuid_text(d.uuid), &up, 20).unwrap();
    assert_eq!(r.tags, vec!["x"]);
}

#[test]
fn list_all_category_equals_unfiltered() {
    let mut store = DocumentStore::new();
    create_document_with(&mut store, &req("t1", "b1", "rust", &[]), 1, 10).unwrap();
    create_document_with(&mut store, &req("t2", "b2", "go", &[]), 2, 20).unwrap();
    let with_all = get_documents(
        &store,
        &DocumentQuery { category: Some("all".to_string()), search: None },
    );
    let plain = get_documents(&store, &DocumentQuery { category: None, search: None });
    let ids_all: Vec<i32> = with_all.iter().map(|d| d.id).collect();
    let ids_plain: Vec<i32> = plain.iter().map(|d| d.id).collect();
    assert_eq!(ids_all, ids_plain);
    let rust_only = get_documents(
        &store,
        &DocumentQuery { category: Some("rust".to_string()), search: None },
    );
    assert_eq!(rust_only.len(), 1);
    assert_eq!(rust_only[0].title, "t1");
}

#[test]
fn search_is_case_insensitive_substring() {
    let mut store = DocumentStore::new();
    create_document_with(&mut store, &req("FooBar guide", "b1", "c", &[]), 1, 10).unwrap();
    create_document_with(&mut store, &req("other", "all about FOO", "c", &[]), 2, 20).unwrap();
    create_document_with(&mut store, &req("nothing", "here", "c", &[]), 3, 30).unwrap();
    let hits = get_documents(
        &store,
        &DocumentQuery { category: None, search: Some("foo".to_string()) },
    );
    let mut titles: Vec<String> = hits.iter().map(|d| d.title.clone()).collect();
    titles.sort();
    assert_eq!(titles, vec!["FooBar guide", "other"]);
}

#[test]
fn list_orders_by_updated_at_descending() {
    let mut store = DocumentStore::new();
    create_document_with(&mut store, &req("old", "b", "c", &[]), 1, 10).unwrap();
    create_document_with(&mut store, &req("newest", "b", "c", &[]), 2, 30).unwrap();
    create_document_with(&mut store, &req("middle", "b", "c", &[]), 3, 20).unwrap();
    let all = get_documents(&store, &DocumentQuery { category: None, search: None });
    let titles: Vec<String> = all.iter().map(|d| d.title.clone()).collect();
    assert_eq!(titles, vec!["newest", "middle", "old"]);
}

#[test]
fn categories_hold_no_duplicates() {
    let mut store = DocumentStore::new();
    create_document_with(&mut store, &req("t1", "b", "rust", &[]), 1, 10).unwrap();
    create_document_with(&mut store, &req("t2", "b", "rust", &[]), 2, 20).unwrap();
    create_document_with(&mut store, &req("t3", "b", "go", &[]), 3, 30).unwrap();
    let mut cats = get_categories(&store);
    cats.sort();
    assert_eq!(cats, vec!["go", "rust"]);
}

#[test]
fn duplicate_external_id_is_a_storage_failure() {
    let mut store = DocumentStore::new();
    create_document_with(&mut store, &req("t1", "b", "c", &[]), 5, 10).unwrap();
    match create_document_with(&mut store, &req("t2", "b", "c", &[]), 5, 20) {
        Err(AppError::Database(_)) => {},
        _ => panic!("expected storage failure"),
    }
}

#[test]
fn create_document_draws_a_fresh_usable_id() {
    let mut store = DocumentStore::new();
    let d = create_document(&mut store, &req("t", "b", "c", &["z"])).unwrap();
    assert_eq!(d.tags, vec!["z"]);
    assert_eq!(d.created_at, d.updated_at);
    let got = get_document(&store, &uuid_text(d.uuid)).unwrap();
    assert_eq!(got.uuid, d.uuid);
    assert_eq!(got.title, "t");
}

#[test]
fn validate_non_empty_names_the_field() {
    match validate_non_empty("Name", "   ") {
        Err(AppError::BadRequest(m)) => assert_eq!(m, "Name cannot be empty"),
        _ => panic!("expected bad request"),
    }
    assert!(validate_non_empty("Name", " x ").is_ok());
}

#[test]
fn error_responses_map_to_the_wire_contract() {
    let (s, e, m) = AppError::Database("cause stays inside".to_string()).error_response();
    assert_eq!((s, e.as_str(), m.as_str()), (500, "Internal server error", "Database operation failed"));
    let (s, e, m) = AppError::NotFound("Document not found".to_string()).error_response();
    assert_eq!((s, e.as_str(), m.as_str()), (404, "Not found", "Document not found"));
    let (s, e, m) = AppError::BadRequest("Invalid UUID format".to_string()).error_response();
    assert_eq!((s, e.as_str(), m.as_str()), (400, "Bad request", "Invalid UUID format"));
    let (s, e, m) = AppError::Internal("boom".to_string()).error_response();
    assert_eq!((s, e.as_str(), m.as_str()), (500, "Internal server error", "boom"));
}

#[test]
fn update_never_moves_updated_at_before_creation() {
    let mut store = DocumentStore::new();
    let d = create_document_with(&mut store, &req("t", "b", "c", &[]), 5, 100).unwrap();
    let r = update_document_with(&mut store, &uuid_text(d.uuid), &no_change(), 50).unwrap();
    assert_eq!(r.created_at, 100);
    assert_eq!(r.updated_at, 100);
}

#[test]
fn unicode_whitespace_counts_as_empty() {
    let mut store = DocumentStore::new();
    let r = create_document_with(&mut store, &req("\u{a0}\u{2003}", "b", "c", &[]), 1, 10);
    match r {
        Err(AppError::BadRequest(m)) => assert_eq!(m, "Title cannot be empty"),
        _ => panic!("expected bad request"),
    }
}

#[test]
fn empty_store_lists_nothing() {
    let store = DocumentStore::new();
    assert!(get_documents(&store, &DocumentQuery { category: None, search: None }).is_empty());
    assert!(get_categories(&store).is_empty());
}

#[test]
fn category_and_search_combine() {
    let mut store = DocumentStore::new();
    create_document_with(&mut store, &req("Rust intro", "b", "rust", &[]), 1, 10).unwrap();
    create_document_with(&mut store, &req("Rust deep dive", "b", "rust", &[]), 2, 20).unwrap();
    create_document_with(&mut store, &req("Go intro", "b", "go", &[]), 3, 30).unwrap();
    let hits = get_documents(
        &store,
        &DocumentQuery {
            category: Some("rust".to_string()),
            search: Some("INTRO".to_string()),
        },
    );
    assert_eq!(hits.len(), 1);
    assert_eq!(hits[0].title, "Rust intro");
}

#[test]
fn health_check_reports_running() {
    let (status, message) = health_check();
    assert_eq!(status, "ok");
    assert_eq!(message, "Tech Docs API is running");
}
