//! External identifiers: the caller-facing 128-bit document handle,
//! parsed from its textual form and freshly drawn at creation.

use vstd::prelude::*;
use vstd::string::StringExecFns;
use crate::errors::AppError;

verus! {

/// What parsing an identifier text yields: the 128-bit value a valid
/// textual encoding denotes, or nothing for any other string.
pub uninterp spec fn parsed_uuid(s: Seq<char>) -> Option<u128>;

/// Relies on `uuid::Uuid::parse_str` and `Uuid::as_u128`: parsing is a
/// function of the input text alone; a valid textual 128-bit
/// identifier yields its value, any other string an error.
#[verifier::external_body]
fn parse_uuid_str(s: &str) -> (r: Option<u128>)
    ensures
        r == parsed_uuid(s@),
{
    match uuid::Uuid::parse_str(s) {
        Ok(u) => Some(u.as_u128()),
        Err(_) => None,
    }
}

/// Relies on `uuid::Uuid::new_v4` and `Uuid::as_u128`: a freshly drawn
/// random 128-bit identifier; nothing is assumed about its value.
#[verifier::external_body]
pub(crate) fn fresh_external_id() -> u128 {
    uuid::Uuid::new_v4().as_u128()
}

/// Parses a caller-supplied identifier string, rejecting anything that
/// is not a valid textual 128-bit identifier before any store access.
pub fn parse_external_id(s: &str) -> (r: Result<u128, AppError>)
    ensures
        (match parsed_uuid(s@) {
            Some(e) => r == Ok::<u128, AppError>(e),
            None => r matches Err(err) && err matches AppError::BadRequest(m) && m@
                == "Invalid UUID format"@,
        }),
{
    match parse_uuid_str(s) {
        Some(e) => Ok(e),
        None => Err(AppError::BadRequest(String::from_str("Invalid UUID format"))),
    }
}

} // verus!
