//! The document record and the wire-facing request and response
//! shapes, with their mathematical views and the response shaping.

use vstd::prelude::*;
use crate::tags::{decode_tags, decoded_tags};

verus! {

/// A persisted document record. The external id is the only handle
/// callers may use; the tags sit in the record as one encoded blob.
pub struct Model {
    pub id: i32,
    pub uuid: u128,
    pub title: String,
    pub content: String,
    pub category: String,
    pub tags: String,
    pub created_at: i64,
    pub updated_at: i64,
}

/// The mathematical view of a record.
pub struct DocView {
    pub id: int,
    pub uuid: u128,
    pub title: Seq<char>,
    pub content: Seq<char>,
    pub category: Seq<char>,
    pub tags: Seq<char>,
    pub created_at: int,
    pub updated_at: int,
}

impl View for Model {
    type V = DocView;

    open spec fn view(&self) -> DocView {
        DocView {
            id: self.id as int,
            uuid: self.uuid,
            title: self.title@,
            content: self.content@,
            category: self.category@,
            tags: self.tags@,
            created_at: self.created_at as int,
            updated_at: self.updated_at as int,
        }
    }
}

impl Clone for Model {
    fn clone(&self) -> (r: Model)
        ensures
            r@ == self@,
    {
        Model {
            id: self.id,
            uuid: self.uuid,
            title: self.title.clone(),
            content: self.content.clone(),
            category: self.category.clone(),
            tags: self.tags.clone(),
            created_at: self.created_at,
            updated_at: self.updated_at,
        }
    }
}

/// What a create request carries; every field is required, though the
/// tag sequence may be empty.
pub struct CreateDocumentRequest {
    pub title: String,
    pub content: String,
    pub category: String,
    pub tags: Vec<String>,
}

/// The view of a create request.
pub struct CreateView {
    pub title: Seq<char>,
    pub content: Seq<char>,
    pub category: Seq<char>,
    pub tags: Seq<Seq<char>>,
}

impl View for CreateDocumentRequest {
    type V = CreateView;

    open spec fn view(&self) -> CreateView {
        CreateView {
            title: self.title@,
            content: self.content@,
            category: self.category@,
            tags: self.tags@.map_values(|t: String| t@),
        }
    }
}

/// What an update request carries: each field is present or absent, so
/// that an omitted field is left untouched.
pub struct UpdateDocumentRequest {
    pub title: Option<String>,
    pub content: Option<String>,
    pub category: Option<String>,
    pub tags: Option<Vec<String>>,
}

/// The view of an update request.
pub struct UpdateView {
    pub title: Option<Seq<char>>,
    pub content: Option<Seq<char>>,
    pub category: Option<Seq<char>>,
    pub tags: Option<Seq<Seq<char>>>,
}

impl View for UpdateDocumentRequest {
    type V = UpdateView;

    open spec fn view(&self) -> UpdateView {
        UpdateView {
            title: match self.title {
                Some(t) => Some(t@),
                None => None,
            },
            content: match self.content {
                Some(t) => Some(t@),
                None => None,
            },
            category: match self.category {
                Some(t) => Some(t@),
                None => None,
            },
            tags: match self.tags {
                Some(t) => Some(t@.map_values(|x: String| x@)),
                None => None,
            },
        }
    }
}

/// The outward representation of a document: every scalar field
/// verbatim, the tags decoded back into an ordered sequence.
pub struct DocumentResponse {
    pub id: i32,
    pub uuid: u128,
    pub title: String,
    pub content: String,
    pub category: String,
    pub tags: Vec<String>,
    pub created_at: i64,
    pub updated_at: i64,
}

/// The view of a response.
pub struct RespView {
    pub id: int,
    pub uuid: u128,
    pub title: Seq<char>,
    pub content: Seq<char>,
    pub category: Seq<char>,
    pub tags: Seq<Seq<char>>,
    pub created_at: int,
    pub updated_at: int,
}

impl View for DocumentResponse {
    type V = RespView;

    open spec fn view(&self) -> RespView {
        RespView {
            id: self.id as int,
            uuid: self.uuid,
            title: self.title@,
            content: self.content@,
            category: self.category@,
            tags: self.tags@.map_values(|t: String| t@),
            created_at: self.created_at as int,
            updated_at: self.updated_at as int,
        }
    }
}

/// Response shaping: scalar fields copied verbatim, the tags blob
/// decoded; a malformed blob shapes to an empty tag sequence.
pub open spec fn shape(d: DocView) -> RespView {
    RespView {
        id: d.id,
        uuid: d.uuid,
        title: d.title,
        content: d.content,
        category: d.category,
        tags: decoded_tags(d.tags),
        created_at: d.created_at,
        updated_at: d.updated_at,
    }
}

impl DocumentResponse {
    /// Shapes a persisted record into its outward representation.
    pub fn from_model(m: Model) -> (r: DocumentResponse)
        ensures
            r@ == shape(m@),
    {
        let tags = decode_tags(m.tags.as_str());
        let r = DocumentResponse {
            id: m.id,
            uuid: m.uuid,
            title: m.title,
            content: m.content,
            category: m.category,
            tags,
            created_at: m.created_at,
            updated_at: m.updated_at,
        };
        r
    }
}

} // verus!
