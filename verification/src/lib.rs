//! Verification of signed identity payloads carried in a request's query
//! string, in the style used by chat-platform mini-apps: the platform signs
//! the payload's fields with a key derived from a server-held secret, and
//! this library recomputes that signature, checks it, and only then extracts
//! the embedded user identity.

pub mod bytes;
pub mod authorizer;
pub mod canonical;
pub mod crypto;
pub mod error;
pub mod extract;
pub mod layer;

pub use authorizer::{Authorizer, Embedded, External, User};
pub use error::AuthError;
pub use extract::TelegramUser;
pub use layer::{AuthorizationLayer, AuthorizationService};
