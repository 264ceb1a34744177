//! The authorizer: decodes a query string into an authorization payload,
//! recomputes the keyed signature over the payload's canonical string,
//! compares it to the claimed one, and only on success parses the `user`
//! field into a verified identity.

use vstd::prelude::*;
use vstd::seq_lib::lemma_sorted_unique;
use vstd::string::StringSliceAdditionalSpecFns;

use crate::bytes::{bytes_eq, hash_key, hash_key_bytes, hex_encode, hex_of, user_key,
    user_key_bytes, web_app_data, web_app_data_bytes};
use crate::canonical::{canonical_bytes, canonical_of, find_last, find_spec, lemma_find_unique,
    lemma_pair_order_total, lemma_remove_key_multiset_congruence, lemma_remove_key_sorted,
    other_key, remove_key,
    pair_order, pairs_view, sort_pairs, sort_pairs_vec};
use crate::crypto::{hmac_sha256, hmac_sha256_tag, sha256, sha256_digest};
use crate::error::AuthError;

verus! {

/// The verified user record, extracted from the payload's `user` field only
/// after the signature over the canonical string has checked out.
#[derive(Debug, Clone)]
pub struct User {
    pub id: u64,
    pub first_name: String,
    pub last_name: Option<String>,
    pub username: Option<String>,
}

/// The mathematical value of a user record: identifier, display name,
/// optional surname, optional handle.
pub type UserView = (u64, Seq<char>, Option<Seq<char>>, Option<Seq<char>>);

impl View for User {
    type V = UserView;

    open spec fn view(&self) -> UserView {
        (
            self.id,
            self.first_name@,
            match self.last_name {
                Option::Some(s) => Option::Some(s@),
                Option::None => Option::None::<Seq<char>>,
            },
            match self.username {
                Option::Some(s) => Option::Some(s@),
                Option::None => Option::None::<Seq<char>>,
            },
        )
    }
}

/// The user record encoded by a `user` field's bytes, if they form a JSON
/// object of the expected shape: an integer `id`, a string `first_name`, and
/// optional string `last_name` and `username` members.
pub uninterp spec fn user_of_json(raw: Seq<u8>) -> Option<UserView>;

/// Relies on serde_json: parses the field as a JSON object and reads its
/// `id`, `first_name`, `last_name` and `username` members, a deterministic
/// function of the bytes alone.
#[verifier::external_body]
fn parse_user_json(raw: &[u8]) -> (r: Option<User>)
    ensures
        match r {
            Some(u) => user_of_json(raw@) == Some(u@),
            None => user_of_json(raw@) is None,
        },
{
    let v: serde_json::Value = match serde_json::from_slice(raw) {
        Ok(v) => v,
        Err(_) => return None,
    };
    let id = v.get("id")?.as_u64()?;
    let first_name = v.get("first_name")?.as_str()?.to_string();
    let last_name = match v.get("last_name") {
        None | Some(serde_json::Value::Null) => None,
        Some(x) => Some(x.as_str()?.to_string()),
    };
    let username = match v.get("username") {
        None | Some(serde_json::Value::Null) => None,
        Some(x) => Some(x.as_str()?.to_string()),
    };
    Some(User { id, first_name, last_name, username })
}

/// The key/value pairs a query component decodes to, if it decodes at all.
pub uninterp spec fn query_pairs_of(q: Seq<u8>) -> Option<Seq<(Seq<u8>, Seq<u8>)>>;

/// Relies on serde_querystring::from_bytes in url-encoded mode: decodes the
/// query component into its key/value pairs (percent- and plus-decoding both
/// sides, collapsing repeated keys), or reports that it cannot.
#[verifier::external_body]
fn parse_query_pairs(raw: &[u8]) -> (r: Option<Vec<(Vec<u8>, Vec<u8>)>>)
    ensures
        match r {
            Some(v) => query_pairs_of(raw@) == Some(pairs_view(v@)),
            None => query_pairs_of(raw@) is None,
        },
{
    let pairs: std::collections::BTreeMap<String, String> = match serde_querystring::from_bytes(
        raw,
        serde_querystring::ParseMode::UrlEncoded,
    ) {
        Ok(m) => m,
        Err(_) => return None,
    };
    Some(pairs.into_iter().map(|(k, v)| (k.into_bytes(), v.into_bytes())).collect())
}

/// The outcome owed for a decoded payload under a given verification key:
/// the signature field must be present, the keyed hash over the canonical
/// string must equal it, and only then is the `user` field consulted.
pub open spec fn verify_pairs_spec(key: Seq<u8>, raw: Seq<(Seq<u8>, Seq<u8>)>) -> Result<
    UserView,
    AuthError,
> {
    let pairs = sort_pairs(raw);
    match find_spec(pairs, hash_key()) {
        Option::None => Result::Err(AuthError::MissingHash),
        Option::Some(sig) => if hex_of(hmac_sha256(key, canonical_of(raw))) != sig {
            Result::Err(AuthError::HashDoesntMatch)
        } else {
            match find_spec(pairs, user_key()) {
                Option::None => Result::Err(AuthError::MissingUser),
                Option::Some(uraw) => match user_of_json(uraw) {
                    Option::None => Result::Err(AuthError::InvalidUserJson),
                    Option::Some(u) => Result::Ok(u),
                },
            }
        },
    }
}

/// The bytes of an optional query component.
pub open spec fn query_view(q: Option<&str>) -> Option<Seq<u8>> {
    match q {
        Option::Some(s) => Option::Some(s.spec_bytes()),
        Option::None => Option::None::<Seq<u8>>,
    }
}

/// The outcome owed for a raw query component under a given verification
/// key, step by step: the component must be present, must decode, and the
/// decoded payload must pass `verify_pairs_spec`.
pub open spec fn authorize_spec(key: Seq<u8>, q: Option<Seq<u8>>) -> Result<UserView, AuthError> {
    match q {
        Option::None => Result::Err(AuthError::MissingQueryString),
        Option::Some(qb) => match query_pairs_of(qb) {
            Option::None => Result::Err(AuthError::InvalidQueryString),
            Option::Some(raw) => verify_pairs_spec(key, raw),
        },
    }
}

/// An executable outcome agrees with a specified one: same error, or a user
/// record whose value is the specified one.
pub open spec fn result_matches(r: Result<User, AuthError>, s: Result<UserView, AuthError>) -> bool {
    match (r, s) {
        (Result::Ok(u), Result::Ok(t)) => u@ == t,
        (Result::Err(a), Result::Err(b)) => a == b,
        _ => false,
    }
}

/// Runs the whole verification pipeline for one query component under the
/// given verification key.
pub(crate) fn authorize_with_key(key: &[u8], query_string: Option<&str>) -> (r: Result<
    User,
    AuthError,
>)
    ensures
        result_matches(r, authorize_spec(key@, query_view(query_string))),
{
    let qs = match query_string {
        Some(s) => s,
        None => return Err(AuthError::MissingQueryString),
    };
    let raw = match parse_query_pairs(qs.as_bytes()) {
        Some(v) => v,
        None => return Err(AuthError::InvalidQueryString),
    };
    let pairs = sort_pairs_vec(&raw);
    let hk = hash_key_bytes();
    let sig = match find_last(&pairs, hk.as_slice()) {
        Some(s) => s,
        None => return Err(AuthError::MissingHash),
    };
    let canon = canonical_bytes(&pairs);
    let tag = hmac_sha256_tag(key, canon.as_slice());
    let computed = hex_encode(tag.as_slice());
    if !bytes_eq(computed.as_slice(), sig.as_slice()) {
        return Err(AuthError::HashDoesntMatch);
    }
    let uk = user_key_bytes();
    let uraw = match find_last(&pairs, uk.as_slice()) {
        Some(u) => u,
        None => return Err(AuthError::MissingUser),
    };
    match parse_user_json(uraw.as_slice()) {
        Some(u) => Ok(u),
        None => Err(AuthError::InvalidUserJson),
    }
}

/// A key-derivation strategy bound to one verification key, exposing the one
/// verify operation the pipeline shares.
pub trait Authorizer: Sized + Clone {
    /// The verification key this strategy derived.
    spec fn key_spec(&self) -> Seq<u8>;

    /// Verifies the signature carried by `query_string` and, only on
    /// success, returns the identity embedded in its `user` field.
    fn authorize(&self, query_string: Option<&str>) -> (r: Result<User, AuthError>)
        ensures
            result_matches(r, authorize_spec(self.key_spec(), query_view(query_string)));
}

/// The verification key of the embedded strategy: the HMAC-SHA256 tag over
/// the bot token under the fixed domain-separation key `WebAppData`.
pub open spec fn embedded_key_of(token: Seq<u8>) -> Seq<u8> {
    hmac_sha256(web_app_data(), token)
}

/// The embedded strategy: the key is derived from the platform bot token.
pub struct Embedded {
    key: Vec<u8>,
}

impl Embedded {
    /// Derives the verification key from the bot token.
    pub fn new(bot_token: &str) -> (r: Self)
        ensures
            r.key_spec() == embedded_key_of(bot_token.spec_bytes()),
    {
        let wad = web_app_data_bytes();
        let tag = hmac_sha256_tag(wad.as_slice(), bot_token.as_bytes());
        Embedded { key: tag }
    }
}

impl Clone for Embedded {
    /// A clone holds the same verification key.
    fn clone(&self) -> (r: Self)
        ensures
            r.key_spec() == self.key_spec(),
    {
        Embedded { key: vstd::slice::slice_to_vec(self.key.as_slice()) }
    }
}

impl Authorizer for Embedded {
    closed spec fn key_spec(&self) -> Seq<u8> {
        self.key@
    }

    fn authorize(&self, query_string: Option<&str>) -> (r: Result<User, AuthError>) {
        authorize_with_key(self.key.as_slice(), query_string)
    }
}

/// The verification key of the external strategy: the SHA-256 digest of the
/// shared secret.
pub open spec fn external_key_of(secret: Seq<u8>) -> Seq<u8> {
    sha256(secret)
}

/// The external strategy: the key is derived from an arbitrary shared
/// secret.
pub struct External {
    key: Vec<u8>,
}

impl External {
    /// Derives the verification key from the shared secret.
    pub fn new(key: &str) -> (r: Self)
        ensures
            r.key_spec() == external_key_of(key.spec_bytes()),
    {
        External { key: sha256_digest(key.as_bytes()) }
    }
}

impl Clone for External {
    /// A clone holds the same verification key.
    fn clone(&self) -> (r: Self)
        ensures
            r.key_spec() == self.key_spec(),
    {
        External { key: vstd::slice::slice_to_vec(self.key.as_slice()) }
    }
}

impl Authorizer for External {
    closed spec fn key_spec(&self) -> Seq<u8> {
        self.key@
    }

    fn authorize(&self, query_string: Option<&str>) -> (r: Result<User, AuthError>) {
        authorize_with_key(self.key.as_slice(), query_string)
    }
}

/// Law: a payload whose signature field carries exactly the keyed hash of
/// the payload's own canonical string verifies, and yields the identity its
/// `user` field embeds, unchanged.
pub proof fn lemma_correct_signature_verifies(
    key: Seq<u8>,
    raw: Seq<(Seq<u8>, Seq<u8>)>,
    uv: UserView,
)
    requires
        find_spec(sort_pairs(raw), hash_key()) == Some(
            hex_of(hmac_sha256(key, canonical_of(raw))),
        ),
        match find_spec(sort_pairs(raw), user_key()) {
            Option::Some(u) => user_of_json(u) == Some(uv),
            Option::None => false,
        },
    ensures
        verify_pairs_spec(key, raw) == Result::<UserView, AuthError>::Ok(uv),
{
}

/// Law: attaching to a signature-free payload the keyed hash of its own
/// canonical string, as its signature field, yields a payload that verifies
/// and returns the identity its `user` field embeds, unchanged.
pub proof fn lemma_resigning_payload_verifies(
    key: Seq<u8>,
    fields: Seq<(Seq<u8>, Seq<u8>)>,
    uraw: Seq<u8>,
    uv: UserView,
)
    requires
        forall|i: int, j: int|
            0 <= i < j < fields.len() ==> (#[trigger] fields[i]).0 != (#[trigger] fields[j]).0,
        forall|i: int| 0 <= i < fields.len() ==> (#[trigger] fields[i]).0 != hash_key(),
        fields.contains((user_key(), uraw)),
        user_of_json(uraw) == Some(uv),
    ensures
        verify_pairs_spec(
            key,
            fields.push((hash_key(), hex_of(hmac_sha256(key, canonical_of(fields))))),
        ) == Result::<UserView, AuthError>::Ok(uv),
{
    broadcast use vstd::seq_lib::group_to_multiset_ensures;
    broadcast use vstd::multiset::group_multiset_axioms;

    lemma_pair_order_total();
    let rr = pair_order();
    let sig = hex_of(hmac_sha256(key, canonical_of(fields)));
    let h = (hash_key(), sig);
    let raw2 = fields.push(h);
    let s1 = sort_pairs(fields);
    let s2 = sort_pairs(raw2);
    fields.lemma_sort_by_ensures(rr);
    raw2.lemma_sort_by_ensures(rr);
    assert(hash_key() != user_key()) by {
        assert(hash_key()[0] == 104u8);
        assert(user_key()[0] == 117u8);
    }
    assert(raw2.to_multiset() == fields.to_multiset().insert(h));
    assert forall|i: int|
        0 <= i < s2.len() implies (s2[i] == h || fields.contains(#[trigger] s2[i])) by {
        assert(s2.contains(s2[i])) by {
            assert(s2[i] == s2[i]);
        }
        assert(s2.to_multiset().count(s2[i]) > 0);
        assert(raw2.to_multiset().count(s2[i]) > 0);
        if s2[i] != h {
            assert(fields.to_multiset().count(s2[i]) > 0);
            assert(fields.contains(s2[i]));
        }
    }
    assert(raw2.contains(h)) by {
        assert(raw2[fields.len() as int] == h);
    }
    assert(raw2.to_multiset().count(h) > 0);
    assert(s2.to_multiset().count(h) > 0);
    assert(s2.contains(h));
    assert forall|i: int|
        0 <= i < s2.len() && (#[trigger] s2[i]).0 == hash_key() implies s2[i].1 == sig by {
        if s2[i] != h {
            assert(fields.contains(s2[i]));
            let m = choose|m: int| 0 <= m < fields.len() && fields[m] == s2[i];
            assert(fields[m].0 != hash_key());
            assert(false);
        }
    }
    lemma_find_unique(s2, hash_key(), sig);
    assert(s2.to_multiset() == s1.push(h).to_multiset());
    lemma_remove_key_multiset_congruence(s2, s1.push(h), hash_key());
    s1.lemma_filter_push(h, other_key(hash_key()));
    assert(remove_key(s1.push(h), hash_key()) == remove_key(s1, hash_key()));
    lemma_remove_key_sorted(s2, hash_key());
    lemma_remove_key_sorted(s1, hash_key());
    lemma_sorted_unique(remove_key(s2, hash_key()), remove_key(s1, hash_key()), rr);
    assert(canonical_of(raw2) == canonical_of(fields));
    assert(s2.contains((user_key(), uraw))) by {
        assert(fields.to_multiset().count((user_key(), uraw)) > 0);
        assert(h != (user_key(), uraw));
        assert(raw2.to_multiset().count((user_key(), uraw)) > 0);
        assert(s2.to_multiset().count((user_key(), uraw)) > 0);
    }
    assert forall|i: int|
        0 <= i < s2.len() && (#[trigger] s2[i]).0 == user_key() implies s2[i].1 == uraw by {
        assert(s2[i] != h);
        assert(fields.contains(s2[i]));
        let m = choose|m: int| 0 <= m < fields.len() && fields[m] == s2[i];
        let m0 = choose|m0: int| 0 <= m0 < fields.len() && fields[m0] == (user_key(), uraw);
        if m < m0 {
            assert(fields[m].0 != fields[m0].0);
            assert(false);
        } else if m0 < m {
            assert(fields[m0].0 != fields[m].0);
            assert(false);
        }
        assert(s2[i] == (user_key(), uraw));
    }
    lemma_find_unique(s2, user_key(), uraw);
}

/// Law: a payload whose signature field differs in any way from the keyed
/// hash of its canonical string is rejected as a hash mismatch, whatever
/// else it holds.
pub proof fn lemma_wrong_signature_rejected(key: Seq<u8>, raw: Seq<(Seq<u8>, Seq<u8>)>, sig: Seq<u8>)
    requires
        find_spec(sort_pairs(raw), hash_key()) == Some(sig),
        sig != hex_of(hmac_sha256(key, canonical_of(raw))),
    ensures
        verify_pairs_spec(key, raw) == Result::<UserView, AuthError>::Err(AuthError::HashDoesntMatch),
{
}

/// Law: a payload without a signature field is rejected for that absence,
/// never treated as exempt from the check.
pub proof fn lemma_missing_signature_rejected(key: Seq<u8>, raw: Seq<(Seq<u8>, Seq<u8>)>)
    requires
        find_spec(sort_pairs(raw), hash_key()) is None,
    ensures
        verify_pairs_spec(key, raw) == Result::<UserView, AuthError>::Err(AuthError::MissingHash),
{
}

/// Law: a payload whose signature verifies but whose `user` field does not
/// parse as a user record is rejected for that, never accepted.
pub proof fn lemma_invalid_user_json_rejected(key: Seq<u8>, raw: Seq<(Seq<u8>, Seq<u8>)>)
    requires
        find_spec(sort_pairs(raw), hash_key()) == Some(
            hex_of(hmac_sha256(key, canonical_of(raw))),
        ),
        match find_spec(sort_pairs(raw), user_key()) {
            Option::Some(u) => user_of_json(u) is None,
            Option::None => false,
        },
    ensures
        verify_pairs_spec(key, raw) == Result::<UserView, AuthError>::Err(AuthError::InvalidUserJson),
{
}

/// Law: the order in which a payload's fields arrive is irrelevant; two
/// payloads with the same pairs, however arranged, meet the same outcome.
pub proof fn lemma_field_order_irrelevant(
    key: Seq<u8>,
    a: Seq<(Seq<u8>, Seq<u8>)>,
    b: Seq<(Seq<u8>, Seq<u8>)>,
)
    requires
        a.to_multiset() == b.to_multiset(),
    ensures
        verify_pairs_spec(key, a) == verify_pairs_spec(key, b),
{
    lemma_pair_order_total();
    a.lemma_sort_by_ensures(pair_order());
    b.lemma_sort_by_ensures(pair_order());
    lemma_sorted_unique(sort_pairs(a), sort_pairs(b), pair_order());
    assert(sort_pairs(a) == sort_pairs(b));
}

/// Law: key derivation is deterministic; two keys derived from the same bot
/// token accept and reject exactly the same queries, with the same outcome.
pub proof fn lemma_embedded_derivation_deterministic(
    token: Seq<u8>,
    key1: Seq<u8>,
    key2: Seq<u8>,
    q: Option<Seq<u8>>,
)
    requires
        key1 == embedded_key_of(token),
        key2 == embedded_key_of(token),
    ensures
        authorize_spec(key1, q) == authorize_spec(key2, q),
{
}

} // verus!
