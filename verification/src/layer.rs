//! The interception layer: one authorizer instance, bound at construction to
//! one key-derivation strategy, wrapped around a downstream handler. Every
//! inbound request's query string must pass the authorizer before the
//! request may reach the handler.

use vstd::prelude::*;
use vstd::string::StringSliceAdditionalSpecFns;

use crate::authorizer::{
    authorize_spec, embedded_key_of, external_key_of, query_view, result_matches, Authorizer,
    Embedded, External, User,
};
use crate::error::AuthError;

verus! {

/// Builds interception services around downstream handlers, all sharing one
/// authorizer.
#[derive(Clone)]
pub struct AuthorizationLayer<A: Authorizer> {
    authorizer: A,
}

impl<A: Authorizer> AuthorizationLayer<A> {
    /// The verification key the layer's authorizer holds.
    pub closed spec fn key_spec(&self) -> Seq<u8> {
        self.authorizer.key_spec()
    }

    /// Wraps one downstream handler into a service guarded by this layer's
    /// authorizer.
    pub fn layer<S>(self, inner: S) -> (r: AuthorizationService<S, A>)
        ensures
            r.key_spec() == self.key_spec(),
    {
        AuthorizationService { inner, authorizer: self.authorizer }
    }
}

impl AuthorizationLayer<Embedded> {
    /// A layer verifying with the embedded strategy: the key is derived from
    /// the platform bot token.
    pub fn new_embedded(bot_token: &str) -> (r: Self)
        ensures
            r.key_spec() == embedded_key_of(bot_token.spec_bytes()),
    {
        AuthorizationLayer { authorizer: Embedded::new(bot_token) }
    }
}

impl AuthorizationLayer<External> {
    /// A layer verifying with the external strategy: the key is derived from
    /// a shared secret.
    pub fn new_external(bot_token: &str) -> (r: Self)
        ensures
            r.key_spec() == external_key_of(bot_token.spec_bytes()),
    {
        AuthorizationLayer { authorizer: External::new(bot_token) }
    }
}

/// One downstream handler behind the authorization check. The handler is
/// reached only by requests whose query string verified.
#[derive(Clone)]
pub struct AuthorizationService<S, A: Authorizer> {
    inner: S,
    authorizer: A,
}

impl<S, A: Authorizer> AuthorizationService<S, A> {
    /// The verification key the service's authorizer holds.
    pub closed spec fn key_spec(&self) -> Seq<u8> {
        self.authorizer.key_spec()
    }

    /// Verifies one inbound request's query string; only an `Ok` identity
    /// may be attached to the request before it is forwarded.
    pub fn authorize(&self, query_string: Option<&str>) -> (r: Result<User, AuthError>)
        ensures
            result_matches(r, authorize_spec(self.key_spec(), query_view(query_string))),
    {
        self.authorizer.authorize(query_string)
    }
}

} // verus!
