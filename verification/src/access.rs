//! Who may call the gateway: API keys presented as bearer tokens, the models
//! a key may use, and the checks of the admin API.
use vstd::prelude::*;

use crate::config::{clone_opt_string, clone_strings};
use crate::loader::AdminStoreWrite;
use crate::snapshot::CompiledSnapshot;
use crate::strmap::str_eq;
use crate::text::{concat, contains_char, str_chars, string_from_chars, to_owned_string};
use crate::types::{ErrorKind, GatewayError, KeyMeta};

verus! {

/// The error for a missing, malformed, unknown or expired API key.
pub fn invalid_api_key() -> (e: GatewayError)
    ensures
        e.kind == ErrorKind::Authentication,
        e.message@ == "Invalid API key"@,
{
    GatewayError { kind: ErrorKind::Authentication, message: to_owned_string("Invalid API key") }
}

/// An ASCII letter in lower case; other characters unchanged.
pub open spec fn ascii_lower(c: char) -> char {
    if 'A' <= c && c <= 'Z' {
        ((c as u32) + 32) as char
    } else {
        c
    }
}

/// Equality of two strings when ASCII case is ignored.
pub open spec fn eq_ignore_ascii_case(a: Seq<char>, b: Seq<char>) -> bool {
    a.len() == b.len() && forall|i: int| 0 <= i < a.len() ==> ascii_lower(a[i]) == ascii_lower(b[i])
}

/// The word that names the bearer scheme.
pub open spec fn bearer_word() -> Seq<char> {
    seq!['b', 'e', 'a', 'r', 'e', 'r']
}

/// The token of an `Authorization` header value: the header splits at its
/// first space into a scheme, which must be `bearer` in any case, and a token
/// that must not be empty.
pub open spec fn bearer_token_of(header: Option<Seq<char>>) -> Option<Seq<char>> {
    match header {
        None => None,
        Some(v) => match v.index_of_first(' ') {
            None => None,
            Some(i) => if eq_ignore_ascii_case(v.take(i), bearer_word()) && i + 1 < v.len() {
                Some(v.skip(i + 1))
            } else {
                None
            },
        },
    }
}

/// Whether `c` is `lower` or its upper-case form.
fn matches_ignoring_case(c: char, lower: char, upper: char) -> (res: bool)
    requires
        'a' <= lower <= 'z',
        upper as u32 == lower as u32 - 32,
    ensures
        res == (ascii_lower(c) == lower),
{
    proof {
        vstd::utf8::char_u32_cast(upper, upper as u32);
    }
    c == lower || c == upper
}

/// The bearer token of an `Authorization` header value, if it holds one.
pub fn bearer_token(header: Option<&str>) -> (res: Result<String, GatewayError>)
    ensures
        match bearer_token_of(
            match header {
                Some(h) => Some(h@),
                None => None,
            },
        ) {
            Some(t) => res matches Ok(s) && s@ == t,
            None => res matches Err(e) && e.kind == ErrorKind::Authentication && e.message@
                == "Invalid API key"@,
        },
{
    let value = match header {
        Some(h) => h,
        None => {
            return Err(invalid_api_key());
        },
    };
    let chars = str_chars(value);
    let mut i: usize = 0;
    while i < chars.len()
        invariant
            i <= chars@.len(),
            forall|j: int| 0 <= j < i ==> chars@[j] != ' ',
        ensures
            i <= chars@.len(),
            forall|j: int| 0 <= j < i ==> chars@[j] != ' ',
            i < chars@.len() ==> chars@[i as int] == ' ',
        decreases chars@.len() - i,
    {
        if chars[i] == ' ' {
            break;
        }
        i = i + 1;
    }
    proof {
        chars@.index_of_first_ensures(' ');
    }
    if i == chars.len() {
        proof {
            assert(!chars@.contains(' '));
        }
        return Err(invalid_api_key());
    }
    proof {
        let k = chars@.index_of_first(' ').unwrap();
        assert(chars@[i as int] == ' ');
        assert(k == i);
    }
    let scheme_ok = i == 6 && matches_ignoring_case(chars[0], 'b', 'B') && matches_ignoring_case(
        chars[1],
        'e',
        'E',
    ) && matches_ignoring_case(chars[2], 'a', 'A') && matches_ignoring_case(chars[3], 'r', 'R')
        && matches_ignoring_case(chars[4], 'e', 'E') && matches_ignoring_case(chars[5], 'r', 'R');
    proof {
        let w = bearer_word();
        if i == 6 {
            let s = chars@.take(6);
            assert(ascii_lower(w[0]) == 'b' && ascii_lower(w[1]) == 'e' && ascii_lower(w[2]) == 'a'
                && ascii_lower(w[3]) == 'r' && ascii_lower(w[4]) == 'e' && ascii_lower(w[5]) == 'r');
            assert(s[0] == chars@[0] && s[1] == chars@[1] && s[2] == chars@[2] && s[3] == chars@[3]
                && s[4] == chars@[4] && s[5] == chars@[5]);
            if scheme_ok {
                assert(eq_ignore_ascii_case(s, w));
            } else {
                assert(!eq_ignore_ascii_case(s, w)) by {
                    if eq_ignore_ascii_case(s, w) {
                        assert(ascii_lower(s[0]) == ascii_lower(w[0]));
                        assert(ascii_lower(s[1]) == ascii_lower(w[1]));
                        assert(ascii_lower(s[2]) == ascii_lower(w[2]));
                        assert(ascii_lower(s[3]) == ascii_lower(w[3]));
                        assert(ascii_lower(s[4]) == ascii_lower(w[4]));
                        assert(ascii_lower(s[5]) == ascii_lower(w[5]));
                    }
                }
            }
        }
    }
    if !scheme_ok || i + 1 >= chars.len() {
        return Err(invalid_api_key());
    }
    let mut token_chars: Vec<char> = Vec::new();
    let mut j: usize = i + 1;
    while j < chars.len()
        invariant
            i + 1 <= j <= chars@.len(),
            token_chars@ == chars@.subrange(i + 1, j as int),
        decreases chars@.len() - j,
    {
        token_chars.push(chars[j]);
        j = j + 1;
        proof {
            assert(token_chars@ =~= chars@.subrange(i + 1, j as int));
        }
    }
    proof {
        assert(token_chars@ =~= chars@.skip(i + 1));
    }
    Ok(string_from_chars(&token_chars))
}

/// A bearer scheme in any case, a space and a token that is not empty give
/// that token.
pub proof fn lemma_bearer_scheme_ignores_case(scheme: Seq<char>, token: Seq<char>)
    requires
        eq_ignore_ascii_case(scheme, bearer_word()),
        token.len() > 0,
    ensures
        bearer_token_of(Some(scheme + seq![' '] + token)) == Some(token),
{
    let v = scheme + seq![' '] + token;
    assert(!scheme.contains(' ')) by {
        if scheme.contains(' ') {
            let j = choose|j: int| 0 <= j < scheme.len() && scheme[j] == ' ';
            assert(ascii_lower(scheme[j]) == ascii_lower(bearer_word()[j]));
        }
    }
    assert(v[scheme.len() as int] == ' ');
    assert(!v.subrange(0, scheme.len() as int).contains(' ')) by {
        assert(v.subrange(0, scheme.len() as int) =~= scheme);
    }
    v.index_of_first_ensures(' ');
    let k = v.index_of_first(' ').unwrap();
    if k < scheme.len() {
        assert(v[k] == scheme[k]);
    }
    assert(k == scheme.len());
    assert(v.take(k) =~= scheme);
    assert(v.skip(k + 1) =~= token);
}

/// A request's API key, after it has been checked.
#[derive(Debug)]
pub struct AuthenticatedKey {
    pub token: String,
    pub meta: KeyMeta,
}

/// `copy` holds the same values as `meta`.
pub open spec fn same_key_meta(copy: KeyMeta, meta: KeyMeta) -> bool {
    &&& copy.key_id@ == meta.key_id@
    &&& copy.user_id == meta.user_id
    &&& copy.customer_id == meta.customer_id
    &&& copy.alias == meta.alias
    &&& copy.expires_at == meta.expires_at
    &&& copy.allowed_models@ == meta.allowed_models@
}

/// A copy of a key's metadata.
pub fn copy_key_meta(meta: &KeyMeta) -> (copy: KeyMeta)
    ensures
        same_key_meta(copy, *meta),
{
    KeyMeta {
        key_id: meta.key_id.clone(),
        user_id: clone_opt_string(&meta.user_id),
        customer_id: clone_opt_string(&meta.customer_id),
        alias: clone_opt_string(&meta.alias),
        expires_at: meta.expires_at,
        allowed_models: clone_strings(&meta.allowed_models),
    }
}

/// A key has expired when its expiry instant is at or before `now`.
pub open spec fn key_expired(meta: KeyMeta, now: i128) -> bool {
    meta.expires_at matches Some(at) && at <= now
}

/// Checks the API key that a request presents in its `Authorization`
/// header against the snapshot, at instant `now` (nanoseconds since the Unix
/// epoch): the token must name a key, and the key must not have expired.
pub fn authenticate(snapshot: &CompiledSnapshot, header: Option<&str>, now: i128) -> (res: Result<
    AuthenticatedKey,
    GatewayError,
>)
    requires
        snapshot.wf(),
    ensures
        match bearer_token_of(
            match header {
                Some(h) => Some(h@),
                None => None,
            },
        ) {
            Some(t) => if snapshot.keys_by_token@.contains_key(t) && !key_expired(
                snapshot.keys_by_token@[t],
                now,
            ) {
                res matches Ok(k) && k.token@ == t && same_key_meta(
                    k.meta,
                    snapshot.keys_by_token@[t],
                )
            } else {
                res matches Err(e) && e.kind == ErrorKind::Authentication && e.message@
                    == "Invalid API key"@
            },
            None => res matches Err(e) && e.kind == ErrorKind::Authentication && e.message@
                == "Invalid API key"@,
        },
{
    let token = match bearer_token(header) {
        Ok(t) => t,
        Err(e) => {
            return Err(e);
        },
    };
    let meta = match snapshot.keys_by_token.get(token.as_str()) {
        Some(m) => copy_key_meta(m),
        None => {
            return Err(invalid_api_key());
        },
    };
    match meta.expires_at {
        Some(at) => {
            if at <= now {
                return Err(invalid_api_key());
            }
        },
        None => {},
    }
    Ok(AuthenticatedKey { token, meta })
}

/// The token that an Anthropic request presents: its `x-api-key` header
/// when that is not empty, else its bearer token.
pub open spec fn anthropic_token_of(x_api_key: Option<Seq<char>>, authorization: Option<Seq<char>>) -> Option<
    Seq<char>,
> {
    match x_api_key {
        Some(k) if k.len() > 0 => Some(k),
        _ => bearer_token_of(authorization),
    }
}

/// An Anthropic request is identified by its `x-api-key` header when that
/// is set and not empty; otherwise exactly as an OpenAI request is, by the
/// bearer token of its `Authorization` header.  So with no `x-api-key`, a
/// header `Bearer <token>` (the scheme in any case) gives that token.
pub proof fn lemma_anthropic_token_falls_back_to_bearer(
    x_api_key: Option<Seq<char>>,
    authorization: Option<Seq<char>>,
    scheme: Seq<char>,
    token: Seq<char>,
)
    ensures
        x_api_key is None ==> anthropic_token_of(x_api_key, authorization) == bearer_token_of(
            authorization,
        ),
        x_api_key == Some(Seq::<char>::empty()) ==> anthropic_token_of(x_api_key, authorization)
            == bearer_token_of(authorization),
        (x_api_key matches Some(k) && k.len() > 0) ==> anthropic_token_of(x_api_key, authorization)
            == x_api_key,
        eq_ignore_ascii_case(scheme, bearer_word()) && token.len() > 0 ==> anthropic_token_of(
            None,
            Some(scheme + seq![' '] + token),
        ) == Some(token),
{
    if eq_ignore_ascii_case(scheme, bearer_word()) && token.len() > 0 {
        lemma_bearer_scheme_ignores_case(scheme, token);
    }
}

/// Checks the API key of an Anthropic request, at instant `now`.
pub fn authenticate_anthropic(
    snapshot: &CompiledSnapshot,
    x_api_key: Option<&str>,
    authorization: Option<&str>,
    now: i128,
) -> (res: Result<KeyMeta, GatewayError>)
    requires
        snapshot.wf(),
    ensures
        match anthropic_token_of(
            match x_api_key {
                Some(h) => Some(h@),
                None => None,
            },
            match authorization {
                Some(h) => Some(h@),
                None => None,
            },
        ) {
            Some(t) => if snapshot.keys_by_token@.contains_key(t) && !key_expired(
                snapshot.keys_by_token@[t],
                now,
            ) {
                res matches Ok(m) && same_key_meta(m, snapshot.keys_by_token@[t])
            } else {
                res matches Err(e) && e.kind == ErrorKind::Authentication && e.message@
                    == "Invalid API key"@
            },
            None => res matches Err(e) && e.kind == ErrorKind::Authentication && e.message@
                == "Invalid API key"@,
        },
{
    let token: String = match x_api_key {
        Some(k) if !k.is_empty() => to_owned_string(k),
        _ => match bearer_token(authorization) {
            Ok(t) => t,
            Err(e) => {
                return Err(e);
            },
        },
    };
    let meta = match snapshot.keys_by_token.get(token.as_str()) {
        Some(m) => copy_key_meta(m),
        None => {
            return Err(invalid_api_key());
        },
    };
    match meta.expires_at {
        Some(at) => {
            if at <= now {
                return Err(invalid_api_key());
            }
        },
        None => {},
    }
    Ok(meta)
}

/// Whether `models` holds `model`.
pub open spec fn model_listed(models: Seq<String>, model: Seq<char>) -> bool {
    exists|i: int| 0 <= i < models.len() && #[trigger] models[i]@ == model
}

/// Checks that a key may use the model a request names.
pub fn ensure_model_allowed(meta: &KeyMeta, requested_model: &str) -> (res: Result<(), GatewayError>)
    ensures
        model_listed(meta.allowed_models@, requested_model@) ==> res is Ok,
        !model_listed(meta.allowed_models@, requested_model@) ==> (res matches Err(e) && e.kind
            == ErrorKind::Permission && e.message@ == "Model '"@ + requested_model@
            + "' is not allowed for this key"@),
{
    let mut i: usize = 0;
    while i < meta.allowed_models.len()
        invariant
            i <= meta.allowed_models@.len(),
            forall|j: int| 0 <= j < i ==> #[trigger] meta.allowed_models@[j]@ != requested_model@,
        decreases meta.allowed_models@.len() - i,
    {
        if str_eq(meta.allowed_models[i].as_str(), requested_model) {
            return Ok(());
        }
        i = i + 1;
    }
    let head = concat("Model '", requested_model);
    Err(
        GatewayError {
            kind: ErrorKind::Permission,
            message: concat(head.as_str(), "' is not allowed for this key"),
        },
    )
}

/// The error for a missing or unknown admin key.
pub fn invalid_admin_key() -> (e: GatewayError)
    ensures
        e.kind == ErrorKind::Authentication,
        e.message@ == "Invalid admin key"@,
{
    GatewayError { kind: ErrorKind::Authentication, message: to_owned_string("Invalid admin key") }
}

/// The keys that open the admin API.
#[derive(Debug)]
pub struct AdminKeys {
    pub keys: Vec<String>,
}

impl AdminKeys {
    /// Whether `key` is one of the admin keys.
    pub fn is_authorized(&self, key: &str) -> (res: bool)
        ensures
            res == model_listed(self.keys@, key@),
    {
        let mut i: usize = 0;
        while i < self.keys.len()
            invariant
                i <= self.keys@.len(),
                forall|j: int| 0 <= j < i ==> #[trigger] self.keys@[j]@ != key@,
            decreases self.keys@.len() - i,
        {
            if str_eq(self.keys[i].as_str(), key) {
                return true;
            }
            i = i + 1;
        }
        false
    }
}

/// Checks an admin request: the admin API must be enabled, and the
/// `x-admin-key` header must hold one of its keys.
pub fn require_admin(admin: Option<&AdminKeys>, supplied: Option<&str>) -> (res: Result<
    (),
    GatewayError,
>)
    ensures
        match admin {
            None => res matches Err(e) && e.kind == ErrorKind::Permission && e.message@
                == "admin api is disabled"@,
            Some(a) => match supplied {
                Some(k) if model_listed(a.keys@, k@) => res is Ok,
                _ => res matches Err(e) && e.kind == ErrorKind::Authentication && e.message@
                    == "Invalid admin key"@,
            },
        },
{
    let admin = match admin {
        Some(a) => a,
        None => {
            return Err(
                GatewayError {
                    kind: ErrorKind::Permission,
                    message: to_owned_string("admin api is disabled"),
                },
            );
        },
    };
    let supplied = match supplied {
        Some(k) => k,
        None => {
            return Err(invalid_admin_key());
        },
    };
    if !admin.is_authorized(supplied) {
        return Err(invalid_admin_key());
    }
    Ok(())
}

/// A store failure, reported as an internal error with its text.
pub fn internal_admin_error(text: &str) -> (e: GatewayError)
    ensures
        e.kind == ErrorKind::Internal,
        e.message@ == text@,
{
    GatewayError { kind: ErrorKind::Internal, message: to_owned_string(text) }
}

/// The error for a resource that the store does not hold.
pub fn missing_admin_resource(collection: &str, id: &str) -> (e: GatewayError)
    ensures
        e.kind == ErrorKind::NotFound,
        e.message@ == collection@ + " '"@ + id@ + "' not found"@,
{
    let a = concat(collection, " '");
    let b = concat(a.as_str(), id);
    GatewayError { kind: ErrorKind::NotFound, message: concat(b.as_str(), "' not found") }
}

/// Checks that an admin resource id holds no `/`.
pub fn ensure_valid_resource_id(id: &str) -> (res: Result<(), GatewayError>)
    ensures
        !id@.contains('/') ==> res is Ok,
        id@.contains('/') ==> (res matches Err(e) && e.kind == ErrorKind::InvalidRequest
            && e.message@ == "admin resource id '"@ + id@ + "' must not contain '/'"@),
{
    let chars = str_chars(id);
    if contains_char(&chars, '/') {
        let a = concat("admin resource id '", id);
        return Err(
            GatewayError {
                kind: ErrorKind::InvalidRequest,
                message: concat(a.as_str(), "' must not contain '/'"),
            },
        );
    }
    Ok(())
}

/// Checks that the id in an admin path and the id in the body are valid and
/// the same.
pub fn ensure_path_matches_body_id(path_id: &str, body_id: &str) -> (res: Result<(), GatewayError>)
    ensures
        path_id@.contains('/') ==> (res matches Err(e) && e.kind == ErrorKind::InvalidRequest
            && e.message@ == "admin resource id '"@ + path_id@ + "' must not contain '/'"@),
        !path_id@.contains('/') && body_id@.contains('/') ==> (res matches Err(e) && e.kind
            == ErrorKind::InvalidRequest && e.message@ == "admin resource id '"@ + body_id@
            + "' must not contain '/'"@),
        !path_id@.contains('/') && !body_id@.contains('/') ==> if path_id@ == body_id@ {
            res is Ok
        } else {
            res matches Err(e) && e.kind == ErrorKind::InvalidRequest && e.message@ == "path id '"@
                + path_id@ + "' does not match body id '"@ + body_id@ + "'"@
        },
{
    match ensure_valid_resource_id(path_id) {
        Ok(()) => {},
        Err(e) => {
            return Err(e);
        },
    }
    match ensure_valid_resource_id(body_id) {
        Ok(()) => {},
        Err(e) => {
            return Err(e);
        },
    }
    if str_eq(path_id, body_id) {
        return Ok(());
    }
    let a = concat("path id '", path_id);
    let b = concat(a.as_str(), "' does not match body id '");
    let c = concat(b.as_str(), body_id);
    Err(GatewayError { kind: ErrorKind::InvalidRequest, message: concat(c.as_str(), "'") })
}

/// What an admin write reports: the id, the stored key and the revision.
#[derive(Debug, Clone, PartialEq, Eq)]
pub struct AdminWriteResult {
    pub id: String,
    pub path: String,
    pub revision: i64,
}

/// The report of a write that the store made.
pub fn write_result(id: &str, write: AdminStoreWrite) -> (r: AdminWriteResult)
    ensures
        r.id@ == id@,
        r.path@ == write.key@,
        r.revision == write.revision,
{
    AdminWriteResult { id: to_owned_string(id), path: write.key, revision: write.revision }
}

/// The report of a delete: an error when nothing was stored under the id.
pub fn delete_result(collection: &str, id: &str, write: AdminStoreWrite, existed: bool) -> (res:
    Result<AdminWriteResult, GatewayError>)
    ensures
        existed ==> (res matches Ok(r) && r.id@ == id@ && r.path@ == write.key@ && r.revision
            == write.revision),
        !existed ==> (res matches Err(e) && e.kind == ErrorKind::NotFound && e.message@
            == collection@ + " '"@ + id@ + "' not found"@),
{
    if !existed {
        return Err(missing_admin_resource(collection, id));
    }
    Ok(write_result(id, write))
}

} // verus!
