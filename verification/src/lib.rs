//! A verified document-access core: the data model, validation rules,
//! filtering and search semantics, partial-update merge logic, and the
//! request/response contract of a small document CRUD service.

pub mod clock;
pub mod documents;
pub mod errors;
pub mod handlers;
pub mod ids;
pub mod laws;
pub mod order;
pub mod store;
pub mod tags;
pub mod text;
