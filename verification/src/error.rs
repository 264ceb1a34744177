//! The ways a verification attempt can fail.

use vstd::prelude::*;

verus! {

/// Why a query string was rejected. Every kind is terminal for the request
/// it came from; none carries partial information about the signature.
#[derive(Debug, Clone, Copy, PartialEq, Eq, Structural)]
pub enum AuthError {
    /// The request carried no query component at all.
    MissingQueryString,
    /// A query component was present but could not be decoded into
    /// key/value pairs.
    InvalidQueryString,
    /// The decoded pairs contain no signature field.
    MissingHash,
    /// The signature recomputed over the canonical string differs from the
    /// claimed one (in length or in content; the two are not distinguished).
    HashDoesntMatch,
    /// The signature checked out, but the payload has no `user` field.
    MissingUser,
    /// The `user` field is present but its value is not a well-formed user
    /// record.
    InvalidUserJson,
}

} // verus!
