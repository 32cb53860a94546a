//! The settings of a connection pool, and the connections that it gives out.

use crate::encoding::{base64_bytes, base64_encode, base64_text, is_base64_char};
use crate::named_map::NamedMap;
use crate::number::{
    decimal_text, parse_unsigned, text_of_unsigned, u16_fault, u16_of, u64_fault, u64_of,
};
use crate::text::{ascii_lowercase, same_text, starts_with, trim_end_of, trimmed_end_of};
use crate::trinoconn::{http_url, is_http_url, is_success, TrinoConnection, UnsupportedTypeAction};
use reqwest::header::{HeaderMap, HeaderValue};
use reqwest::Client;
use reqwest::Error as RequestError;
use reqwest::Identity;
use reqwest::StatusCode;
use std::fmt::Error as FormatError;
use std::fmt::Formatter;
use std::io::Error as IoError;
use std::num::ParseIntError;
use std::sync::Arc;
use vstd::prelude::*;
use vstd::utf8::encode_utf8;

verus! {

#[verifier::external_type_specification]
#[verifier::external_body]
pub struct ExIoError(IoError);

#[verifier::external_type_specification]
#[verifier::external_body]
#[verifier::reject_recursive_types(T)]
pub struct ExHeaderMap<T>(HeaderMap<T>);

#[verifier::external_type_specification]
#[verifier::external_body]
pub struct ExHeaderValue(HeaderValue);

#[derive(Debug)]
pub enum Error {
    TrinoConnectionError { source: RequestError },
    InvalidIntegerParameterError { parameter_name: String, source: ParseIntError },
    InvalidHostOrPortError { source: IoError, host: String, port: u16 },
    AuthenticationFailedError,
    InvalidTrinoUrl { url: String },
    MissingRequiredParameter { parameter_name: String },
    FailedToBuildTrinoHttpClient { source: RequestError },
    TrinoServerError { status_code: u16, message: String },
    InvalidAuthConfig { details: String },
    UnableToReadIdentityPem { path: String, source: IoError },
    InvalidIdentityPem { path: String, source: RequestError },
}

/// The mathematical value of an `Error`: its kind and what it holds.
pub enum ErrorView {
    TrinoConnectionError(RequestError),
    InvalidIntegerParameterError(Seq<char>, ParseIntError),
    InvalidHostOrPortError(IoError, Seq<char>, u16),
    AuthenticationFailedError,
    InvalidTrinoUrl(Seq<char>),
    MissingRequiredParameter(Seq<char>),
    FailedToBuildTrinoHttpClient(RequestError),
    TrinoServerError(u16, Seq<char>),
    InvalidAuthConfig(Seq<char>),
    UnableToReadIdentityPem(Seq<char>, IoError),
    InvalidIdentityPem(Seq<char>, RequestError),
}

impl View for Error {
    type V = ErrorView;

    open spec fn view(&self) -> ErrorView {
        match self {
            Error::TrinoConnectionError { source } => ErrorView::TrinoConnectionError(*source),
            Error::InvalidIntegerParameterError { parameter_name, source } =>
                ErrorView::InvalidIntegerParameterError(parameter_name@, *source),
            Error::InvalidHostOrPortError { source, host, port } =>
                ErrorView::InvalidHostOrPortError(*source, host@, *port),
            Error::AuthenticationFailedError => ErrorView::AuthenticationFailedError,
            Error::InvalidTrinoUrl { url } => ErrorView::InvalidTrinoUrl(url@),
            Error::MissingRequiredParameter { parameter_name } =>
                ErrorView::MissingRequiredParameter(parameter_name@),
            Error::FailedToBuildTrinoHttpClient { source } =>
                ErrorView::FailedToBuildTrinoHttpClient(*source),
            Error::TrinoServerError { status_code, message } => ErrorView::TrinoServerError(
                *status_code,
                message@,
            ),
            Error::InvalidAuthConfig { details } => ErrorView::InvalidAuthConfig(details@),
            Error::UnableToReadIdentityPem { path, source } => ErrorView::UnableToReadIdentityPem(
                path@,
                *source,
            ),
            Error::InvalidIdentityPem { path, source } => ErrorView::InvalidIdentityPem(
                path@,
                *source,
            ),
        }
    }
}

/// Whether joins between tables can be left to the coordinator.
#[derive(Debug, Clone, PartialEq)]
pub enum JoinPushDown {
    Disallowed,
    /// Between tables of pools with this same text.
    AllowedFor(String),
}

/// Parameters by name.
pub type Params = NamedMap<String>;

/// The text of a parameter.
pub open spec fn param(params: Map<Seq<char>, String>, name: Seq<char>) -> Option<Seq<char>> {
    if params.contains_key(name) {
        Some(params[name]@)
    } else {
        None
    }
}

/// A name without a prefix, where it has it.
pub open spec fn stripped(name: Seq<char>, prefix: Seq<char>) -> Seq<char> {
    if prefix.is_prefix_of(name) {
        name.skip(prefix.len() as int)
    } else {
        name
    }
}

/// The first `k` parameters by their names without a prefix. The last of several with one name
/// has it.
pub open spec fn without_prefix(
    pairs: Seq<(String, String)>,
    prefix: Seq<char>,
    k: nat,
) -> Map<Seq<char>, String>
    decreases k,
{
    if k == 0 {
        Map::empty()
    } else {
        without_prefix(pairs, prefix, (k - 1) as nat).insert(
            stripped(pairs[k - 1].0@, prefix),
            pairs[k - 1].1,
        )
    }
}

/// Parameters by their names without a prefix.
pub fn remove_prefix(pairs: &Vec<(String, String)>, prefix: &str) -> (r: Params)
    ensures
        r.wf(),
        r@ == without_prefix(pairs@, prefix@, pairs@.len()),
{
    let mut params: Params = NamedMap::new();
    for i in 0..pairs.len()
        invariant
            params.wf(),
            params@ == without_prefix(pairs@, prefix@, i as nat),
    {
        let name = pairs[i].0.as_str();
        let short = if starts_with(name, prefix) {
            let rest = name.substring_char(prefix.unicode_len(), name.unicode_len());
            assert(rest@ =~= name@.skip(prefix@.len() as int));
            rest
        } else {
            name
        };
        params.insert(short.to_owned(), pairs[i].1.clone());
    }
    params
}

/// What an unsigned integer parameter says: its number, or the number that it has by itself.
pub open spec fn unsigned_param(
    params: Map<Seq<char>, String>,
    name: Seq<char>,
    default: nat,
    max: nat,
) -> Option<nat> {
    match param(params, name) {
        Some(text) => parse_unsigned(text, max),
        None => Some(default),
    }
}

/// An unsigned integer parameter of 64 bits.
pub fn parse_u64_param(params: &Params, key: &str, default: u64) -> (r: Result<u64, Error>)
    requires
        params.wf(),
    ensures
        match r {
            Ok(n) => unsigned_param(params@, key@, default as nat, u64::MAX as nat) == Some(
                n as nat,
            ),
            Err(e) => unsigned_param(params@, key@, default as nat, u64::MAX as nat) is None && e@
                == ErrorView::InvalidIntegerParameterError(
                key@,
                u64_fault(param(params@, key@)->0),
            ),
        },
{
    match params.get(key) {
        Some(text) => match u64_of(text.as_str()) {
            Ok(n) => Ok(n),
            Err(source) => Err(
                Error::InvalidIntegerParameterError { parameter_name: key.to_owned(), source },
            ),
        },
        None => Ok(default),
    }
}

/// An unsigned integer parameter of 16 bits.
pub fn parse_u16_param(params: &Params, key: &str, default: u16) -> (r: Result<u16, Error>)
    requires
        params.wf(),
    ensures
        match r {
            Ok(n) => unsigned_param(params@, key@, default as nat, u16::MAX as nat) == Some(
                n as nat,
            ),
            Err(e) => unsigned_param(params@, key@, default as nat, u16::MAX as nat) is None && e@
                == ErrorView::InvalidIntegerParameterError(
                key@,
                u16_fault(param(params@, key@)->0),
            ),
        },
{
    match params.get(key) {
        Some(text) => match u16_of(text.as_str()) {
            Ok(n) => Ok(n),
            Err(source) => Err(
                Error::InvalidIntegerParameterError { parameter_name: key.to_owned(), source },
            ),
        },
        None => Ok(default),
    }
}

/// What a flag parameter says. Anything but `true` and `false` says nothing.
pub open spec fn flag_param(
    params: Map<Seq<char>, String>,
    name: Seq<char>,
    default: bool,
) -> bool {
    match param(params, name) {
        Some(text) => if text == "true"@ {
            true
        } else if text == "false"@ {
            false
        } else {
            default
        },
        None => default,
    }
}

/// A flag parameter.
pub fn parse_bool_param(params: &Params, key: &str, default: bool) -> (r: Result<bool, Error>)
    requires
        params.wf(),
    ensures
        r == Ok::<bool, Error>(flag_param(params@, key@, default)),
{
    match params.get(key) {
        Some(text) => if same_text(text.as_str(), "true") {
            Ok(true)
        } else if same_text(text.as_str(), "false") {
            Ok(false)
        } else {
            Ok(default)
        },
        None => Ok(default),
    }
}

/// What the parameters say of the coordinator's URL: the URL; the URL of a host that must be
/// reached first; or an error.
pub enum UrlReading {
    Ready(Seq<char>),
    Probe(Seq<char>, u16, Seq<char>),
    Failed(ErrorView),
}

/// The URL of a host.
pub open spec fn host_url(ssl: bool, host: Seq<char>, port: u16) -> Seq<char> {
    (if ssl {
        "https"@
    } else {
        "http"@
    }) + "://"@ + host + ":"@ + decimal_text(port as nat)
}

/// What the parameters say of the coordinator's URL.
pub open spec fn url_reading(params: Map<Seq<char>, String>) -> UrlReading {
    match param(params, "url"@) {
        Some(url) => if is_http_url(url) {
            UrlReading::Ready(trim_end_of(url, '/'))
        } else {
            UrlReading::Failed(ErrorView::InvalidTrinoUrl(url))
        },
        None => match param(params, "host"@) {
            Some(host) => match unsigned_param(params, "port"@, 8080, u16::MAX as nat) {
                Some(port) => UrlReading::Probe(
                    host,
                    port as u16,
                    host_url(flag_param(params, "ssl"@, false), host, port as u16),
                ),
                None => UrlReading::Failed(
                    ErrorView::InvalidIntegerParameterError(
                        "port"@,
                        u16_fault(param(params, "port"@)->0),
                    ),
                ),
            },
            None => UrlReading::Failed(ErrorView::MissingRequiredParameter("url or host"@)),
        },
    }
}

/// The coordinator's URL, and the host to reach before it is used.
pub enum UrlPlan {
    Ready(String),
    Probe { host: String, port: u16, base_url: String },
}

/// The coordinator's URL, from the parameters.
pub fn build_base_url(params: &Params) -> (r: Result<UrlPlan, Error>)
    requires
        params.wf(),
    ensures
        match url_reading(params@) {
            UrlReading::Ready(url) => r matches Ok(UrlPlan::Ready(base_url)) && base_url@ == url,
            UrlReading::Probe(h, p, url) => r matches Ok(
                UrlPlan::Probe { host, port, base_url },
            ) && host@ == h && port == p && base_url@ == url,
            UrlReading::Failed(e) => r matches Err(error) && error@ == e,
        },
{
    if let Some(url) = params.get("url") {
        if !http_url(url.as_str()) {
            return Err(Error::InvalidTrinoUrl { url: url.clone() });
        }
        return Ok(UrlPlan::Ready(trimmed_end_of(url.as_str(), '/').to_owned()));
    }
    let host = match params.get("host") {
        Some(host) => host,
        None => return Err(
            Error::MissingRequiredParameter { parameter_name: "url or host".to_owned() },
        ),
    };
    let port = match parse_u16_param(params, "port", 8080) {
        Ok(port) => port,
        Err(e) => return Err(e),
    };
    let ssl = match parse_bool_param(params, "ssl", false) {
        Ok(ssl) => ssl,
        Err(e) => return Err(e),
    };
    let mut base_url = if ssl {
        "https".to_owned()
    } else {
        "http".to_owned()
    };
    base_url.append("://");
    base_url.append(host.as_str());
    base_url.append(":");
    base_url.append(text_of_unsigned(port as u64).as_str());
    Ok(UrlPlan::Probe { host: host.clone(), port, base_url })
}

impl UrlPlan {
    /// The URL, once it is known whether its host, where there is one to reach, was reached.
    pub fn settle(self, reached: Result<(), IoError>) -> (r: Result<String, Error>)
        ensures
            match (self, reached) {
                (UrlPlan::Probe { host, port, .. }, Err(source)) => r == Err::<String, Error>(
                    Error::InvalidHostOrPortError { source, host, port },
                ),
                (UrlPlan::Probe { base_url, .. }, Ok(())) => r == Ok::<String, Error>(base_url),
                (UrlPlan::Ready(base_url), _) => r == Ok::<String, Error>(base_url),
            },
    {
        match self {
            UrlPlan::Ready(base_url) => Ok(base_url),
            UrlPlan::Probe { host, port, base_url } => match reached {
                Ok(()) => Ok(base_url),
                Err(source) => Err(Error::InvalidHostOrPortError { source, host, port }),
            },
        }
    }
}

/// The schema that the parameters say.
pub open spec fn schema_param(params: Map<Seq<char>, String>) -> Seq<char> {
    match param(params, "schema"@) {
        Some(schema) => schema,
        None => "default"@,
    }
}

/// The catalog, which there must be, and the schema.
pub fn get_catalog_and_schema(params: &Params) -> (r: Result<(String, String), Error>)
    requires
        params.wf(),
    ensures
        match param(params@, "catalog"@) {
            Some(catalog) => r matches Ok((c, s)) && c@ == catalog && s@ == schema_param(params@),
            None => r matches Err(e) && e@ == ErrorView::MissingRequiredParameter("catalog"@),
        },
{
    let catalog = match params.get("catalog") {
        Some(catalog) => catalog.clone(),
        None => return Err(
            Error::MissingRequiredParameter { parameter_name: "catalog".to_owned() },
        ),
    };
    let schema = match params.get("schema") {
        Some(schema) => schema.clone(),
        None => "default".to_owned(),
    };
    Ok((catalog, schema))
}

/// The text of an optional string.
pub open spec fn text(s: Option<String>) -> Option<Seq<char>> {
    crate::types::option_text(s)
}

fn optional_param(params: &Params, key: &str) -> (r: Option<String>)
    requires
        params.wf(),
    ensures
        text(r) == param(params@, key@),
{
    match params.get(key) {
        Some(value) => Some(value.clone()),
        None => None,
    }
}

/// The user and the password.
pub fn get_user_and_password(params: &Params) -> (r: (Option<String>, Option<String>))
    requires
        params.wf(),
    ensures
        text(r.0) == param(params@, "user"@),
        text(r.1) == param(params@, "password"@),
{
    (optional_param(params, "user"), optional_param(params, "password"))
}

/// Whether exactly one of three holds.
pub open spec fn exactly_one(a: bool, b: bool, c: bool) -> bool {
    (a && !b && !c) || (!a && b && !c) || (!a && !b && c)
}

/// Whether there is exactly one way to authenticate: a user or a password, a certificate, or a
/// bearer token.
pub open spec fn one_way_in(params: Map<Seq<char>, String>, user: bool, password: bool) -> bool {
    exactly_one(
        user || password,
        params.contains_key("identity_pem_path"@),
        params.contains_key("bearer_token"@),
    )
}

/// Refuses parameters with more than one way to authenticate, or with none.
pub fn validate_auth_exclusivity(
    params: &Params,
    user: &Option<String>,
    password: &Option<String>,
) -> (r: Result<(), Error>)
    requires
        params.wf(),
    ensures
        match r {
            Ok(()) => one_way_in(params@, user is Some, password is Some),
            Err(e) => !one_way_in(params@, user is Some, password is Some) && e@
                == ErrorView::InvalidAuthConfig(
                "Exactly one authentication method must be provided: basic auth, mTLS, or bearer token"@,
            ),
        },
{
    let has_user_pass = user.is_some() || password.is_some();
    let has_identity = params.get("identity_pem_path").is_some();
    let has_token = params.get("bearer_token").is_some();
    let auth_count: u8 = has_user_pass as u8 + has_identity as u8 + has_token as u8;
    if auth_count != 1 {
        return Err(
            Error::InvalidAuthConfig {
                details:
                    "Exactly one authentication method must be provided: basic auth, mTLS, or bearer token".to_owned(),
            },
        );
    }
    Ok(())
}

/// Whether a text can be the name of a header here: letters, digits and hyphens.
pub open spec fn is_header_name(s: Seq<char>) -> bool {
    &&& 0 < s.len() <= 64
    &&& forall|i: int|
        0 <= i < s.len() ==> {
            let c = #[trigger] s[i];
            'a' <= c <= 'z' || 'A' <= c <= 'Z' || '0' <= c <= '9' || c == '-'
        }
}

/// Whether a text can be the value of a header: it has no control characters but tabs.
pub open spec fn is_header_value(s: Seq<char>) -> bool {
    forall|i: int| 0 <= i < s.len() ==> is_header_char(#[trigger] s[i])
}

/// Whether a character can stand in the value of a header.
pub open spec fn is_header_char(c: char) -> bool {
    (c >= ' ' && c != '\u{7f}') || c == '\t'
}

/// The headers of a map: by their names in lower case, the bytes of the first value.
pub uninterp spec fn header_view(headers: HeaderMap<HeaderValue>) -> Map<Seq<char>, Seq<u8>>;

/// No headers.
pub open spec fn no_headers() -> Map<Seq<char>, Seq<u8>> {
    Map::empty()
}

/// `HeaderMap::new`: no headers.
#[verifier::external_body]
fn new_headers() -> (r: HeaderMap<HeaderValue>)
    ensures
        header_view(r) == no_headers(),
{
    HeaderMap::new()
}

/// `HeaderMap::insert` with `HeaderValue::from_str`: puts a header in, in place of those with its
/// name. Names are the same in upper and lower case. It panics where the name or the value has
/// characters that none may have, or where the map is full.
#[verifier::external_body]
fn insert_header(headers: &mut HeaderMap<HeaderValue>, name: &'static str, value: &str)
    requires
        is_header_name(name@),
        is_header_value(value@),
        header_view(*old(headers)).dom().finite(),
        header_view(*old(headers)).dom().len() < 1_000,
    ensures
        header_view(*final(headers)) == header_view(*old(headers)).insert(
            ascii_lowercase(name@),
            encode_utf8(value@),
        ),
{
    headers.insert(name, HeaderValue::from_str(value).unwrap());
}

/// Whether a text can be the value of a header.
pub fn can_be_header(s: &str) -> (r: bool)
    ensures
        r == is_header_value(s@),
{
    for c in it: s.chars()
        invariant
            it.seq() == s@,
            forall|i: int| 0 <= i < it.index() ==> is_header_char(#[trigger] s@[i]),
    {
        if !((c >= ' ' && c != '\u{7f}') || c == '\t') {
            assert(!is_header_char(s@[it.index()]));
            return false;
        }
    }
    true
}

/// The value of the header that authenticates, where there is one: the user and the password in
/// Base64, or a bearer token.
pub open spec fn authorization(
    user: Option<Seq<char>>,
    password: Option<Seq<char>>,
    token: Option<Seq<char>>,
) -> Option<Seq<char>> {
    match (user, password) {
        (Some(u), Some(p)) => Some("Basic "@ + base64_text(encode_utf8(u + ":"@ + p))),
        _ => match token {
            Some(t) => Some("Bearer "@ + t),
            None => None,
        },
    }
}

/// Headers after one more, where it has a value.
pub open spec fn with_header(
    headers: Map<Seq<char>, Seq<u8>>,
    name: Seq<char>,
    value: Option<Seq<char>>,
) -> Map<Seq<char>, Seq<u8>> {
    match value {
        Some(v) => headers.insert(name, encode_utf8(v)),
        None => headers,
    }
}

/// The headers that go with each request.
pub open spec fn request_headers(
    catalog: Seq<char>,
    schema: Seq<char>,
    user: Option<Seq<char>>,
    password: Option<Seq<char>>,
    token: Option<Seq<char>>,
) -> Map<Seq<char>, Seq<u8>> {
    let fixed = no_headers().insert("x-trino-catalog"@, encode_utf8(catalog)).insert(
        "x-trino-schema"@,
        encode_utf8(schema),
    );
    with_header(
        with_header(fixed, "x-trino-user"@, user),
        "authorization"@,
        authorization(user, password, token),
    )
}

/// Whether an optional text, where there is one, can be the value of a header.
pub open spec fn sendable(value: Option<Seq<char>>) -> bool {
    match value {
        Some(v) => is_header_value(v),
        None => true,
    }
}

proof fn lemma_header_names()
    ensures
        is_header_name("X-Trino-Catalog"@),
        is_header_name("X-Trino-Schema"@),
        is_header_name("X-Trino-User"@),
        is_header_name("Authorization"@),
        ascii_lowercase("X-Trino-Catalog"@) == "x-trino-catalog"@,
        ascii_lowercase("X-Trino-Schema"@) == "x-trino-schema"@,
        ascii_lowercase("X-Trino-User"@) == "x-trino-user"@,
        ascii_lowercase("Authorization"@) == "authorization"@,
{
    reveal_strlit("X-Trino-Catalog");
    reveal_strlit("X-Trino-Schema");
    reveal_strlit("X-Trino-User");
    reveal_strlit("Authorization");
    reveal_strlit("x-trino-catalog");
    reveal_strlit("x-trino-schema");
    reveal_strlit("x-trino-user");
    reveal_strlit("authorization");
    assert(ascii_lowercase("X-Trino-Catalog"@) =~= "x-trino-catalog"@);
    assert(ascii_lowercase("X-Trino-Schema"@) =~= "x-trino-schema"@);
    assert(ascii_lowercase("X-Trino-User"@) =~= "x-trino-user"@);
    assert(ascii_lowercase("Authorization"@) =~= "authorization"@);
}

/// The headers that go with each request.
pub fn build_headers(
    catalog: &str,
    schema: &str,
    user: &Option<String>,
    password: &Option<String>,
    bearer_token: &Option<String>,
) -> (r: Result<HeaderMap<HeaderValue>, Error>)
    requires
        is_header_value(catalog@),
        is_header_value(schema@),
        sendable(text(*user)),
        user is Some && password is Some || sendable(text(*bearer_token)),
    ensures
        r matches Ok(headers) && header_view(headers) == request_headers(
            catalog@,
            schema@,
            text(*user),
            text(*password),
            text(*bearer_token),
        ),
        (user, password) matches (Some(u), Some(p)) ==> base64_bytes(
            base64_text(encode_utf8(u@ + ":"@ + p@)),
        ) == Some(encode_utf8(u@ + ":"@ + p@)),
{
    proof {
        lemma_header_names();
    }
    let mut headers = new_headers();
    insert_header(&mut headers, "X-Trino-Catalog", catalog);
    insert_header(&mut headers, "X-Trino-Schema", schema);
    if let Some(user) = user {
        insert_header(&mut headers, "X-Trino-User", user.as_str());
    }
    match (user, password) {
        (Some(user), Some(password)) => {
            let mut credentials = user.clone();
            credentials.append(":");
            credentials.append(password.as_str());
            let encoded = base64_encode(credentials.as_str());
            let mut value = "Basic ".to_owned();
            value.append(encoded.as_str());
            proof {
                reveal_strlit("Basic ");
                assert forall|i: int| 0 <= i < value@.len() implies is_header_char(
                    #[trigger] value@[i],
                ) by {
                    if i >= 6 {
                        assert(value@[i] == encoded@[i - 6]);
                        assert(is_base64_char(encoded@[i - 6]));
                    }
                }
            }
            insert_header(&mut headers, "Authorization", value.as_str());
        },
        _ => {
            if let Some(token) = bearer_token {
                let mut value = "Bearer ".to_owned();
                value.append(token.as_str());
                proof {
                    reveal_strlit("Bearer ");
                    assert forall|i: int| 0 <= i < value@.len() implies is_header_char(
                        #[trigger] value@[i],
                    ) by {
                        if i >= 7 {
                            assert(value@[i] == token@[i - 7]);
                        }
                    }
                }
                insert_header(&mut headers, "Authorization", value.as_str());
            }
        },
    }
    Ok(headers)
}

/// What the parameters say of a pool, beside the coordinator's URL.
pub struct PoolConfig {
    pub base_url: String,
    pub catalog: String,
    pub schema: String,
    pub user: Option<String>,
    pub headers: HeaderMap<HeaderValue>,
    pub timeout_seconds: u64,
    pub ssl_verification: bool,
    pub identity_pem_path: Option<String>,
}

/// Whether the parameters get as far as headers.
pub open spec fn reaches_headers(params: Map<Seq<char>, String>) -> bool {
    params.contains_key("catalog"@) && one_way_in(
        params,
        params.contains_key("user"@),
        params.contains_key("password"@),
    )
}

/// Why the parameters make no pool.
pub open spec fn config_error(params: Map<Seq<char>, String>) -> Option<ErrorView> {
    if param(params, "catalog"@) is None {
        Some(ErrorView::MissingRequiredParameter("catalog"@))
    } else if !one_way_in(
        params,
        params.contains_key("user"@),
        params.contains_key("password"@),
    ) {
        Some(
            ErrorView::InvalidAuthConfig(
                "Exactly one authentication method must be provided: basic auth, mTLS, or bearer token"@,
            ),
        )
    } else if unsigned_param(params, "timeout"@, 300, u64::MAX as nat) is None {
        Some(
            ErrorView::InvalidIntegerParameterError(
                "timeout"@,
                u64_fault(param(params, "timeout"@)->0),
            ),
        )
    } else {
        None
    }
}

/// How many seconds a request may take.
pub open spec fn wanted_timeout(params: Map<Seq<char>, String>) -> Option<nat> {
    unsigned_param(params, "timeout"@, 300, u64::MAX as nat)
}

/// Whether the coordinator's certificate is checked.
pub open spec fn wanted_verification(params: Map<Seq<char>, String>) -> bool {
    flag_param(params, "ssl_verification"@, true)
}

/// Whether the parameters that go into headers can.
pub open spec fn all_sendable(params: Map<Seq<char>, String>) -> bool {
    &&& sendable(param(params, "catalog"@))
    &&& sendable(param(params, "schema"@))
    &&& sendable(param(params, "user"@))
    &&& sendable(param(params, "bearer_token"@))
}

fn optional_sendable(params: &Params, key: &str) -> (r: bool)
    requires
        params.wf(),
    ensures
        r == sendable(param(params@, key@)),
{
    match params.get(key) {
        Some(value) => can_be_header(value.as_str()),
        None => true,
    }
}

/// Whether the parameters that go into headers can, where it gets that far.
pub fn can_configure(params: &Params) -> (r: bool)
    requires
        params.wf(),
    ensures
        r == (reaches_headers(params@) ==> all_sendable(params@)),
{
    let (user, password) = get_user_and_password(params);
    if params.get("catalog").is_none() || validate_auth_exclusivity(
        params,
        &user,
        &password,
    ).is_err() {
        return true;
    }
    optional_sendable(params, "catalog") && optional_sendable(params, "schema")
        && optional_sendable(params, "user") && optional_sendable(params, "bearer_token")
}

/// The settings of a pool, from the parameters and the coordinator's URL.
pub fn configure(params: &Params, base_url: String) -> (r: Result<PoolConfig, Error>)
    requires
        params.wf(),
        reaches_headers(params@) ==> all_sendable(params@),
    ensures
        match r {
            Ok(config) => {
                &&& config_error(params@) is None
                &&& config.base_url == base_url
                &&& Some(config.catalog@) == param(params@, "catalog"@)
                &&& config.schema@ == schema_param(params@)
                &&& text(config.user) == param(params@, "user"@)
                &&& header_view(config.headers) == request_headers(
                    config.catalog@,
                    config.schema@,
                    param(params@, "user"@),
                    param(params@, "password"@),
                    param(params@, "bearer_token"@),
                )
                &&& Some(config.timeout_seconds as nat) == unsigned_param(
                    params@,
                    "timeout"@,
                    300,
                    u64::MAX as nat,
                )
                &&& Some(config.timeout_seconds as nat) == wanted_timeout(params@)
                &&& config.ssl_verification == flag_param(params@, "ssl_verification"@, true)
                &&& config.ssl_verification == wanted_verification(params@)
                &&& text(config.identity_pem_path) == param(params@, "identity_pem_path"@)
            },
            Err(e) => config_error(params@) == Some(e@),
        },
{
    proof {
        reveal_strlit("default");
    }
    let (catalog, schema) = match get_catalog_and_schema(params) {
        Ok(pair) => pair,
        Err(e) => return Err(e),
    };
    let (user, password) = get_user_and_password(params);
    let bearer_token = optional_param(params, "bearer_token");
    match validate_auth_exclusivity(params, &user, &password) {
        Ok(()) => {},
        Err(e) => return Err(e),
    }
    let headers = match build_headers(
        catalog.as_str(),
        schema.as_str(),
        &user,
        &password,
        &bearer_token,
    ) {
        Ok(headers) => headers,
        Err(e) => return Err(e),
    };
    let timeout_seconds = match parse_u64_param(params, "timeout", 300) {
        Ok(n) => n,
        Err(e) => return Err(e),
    };
    let ssl_verification = match parse_bool_param(params, "ssl_verification", true) {
        Ok(flag) => flag,
        Err(e) => return Err(e),
    };
    let identity_pem_path = optional_param(params, "identity_pem_path");
    Ok(
        PoolConfig {
            base_url,
            catalog,
            schema,
            user,
            headers,
            timeout_seconds,
            ssl_verification,
            identity_pem_path,
        },
    )
}

#[verifier::external_type_specification]
#[verifier::external_body]
pub struct ExIdentity(Identity);

/// The client certificates and the private key that bytes in PEM hold, or why they are no identity.
pub uninterp spec fn pem_identity(pem: Seq<u8>) -> Result<Identity, RequestError>;

/// `Identity::from_pem`: the client certificates and the private key that bytes in PEM hold, where
/// they hold both, and no section of another sort. The bytes alone decide which identity it is, and
/// which error comes in its place.
#[verifier::external_body]
fn identity_from_pem(pem: &Vec<u8>) -> (r: Result<Identity, RequestError>)
    ensures
        r == pem_identity(pem@),
{
    Identity::from_pem(pem)
}

/// The client certificate of a file, from its path and from what came of reading it.
pub fn read_identity(path: String, pem: Result<Vec<u8>, IoError>) -> (r: Result<Identity, Error>)
    ensures
        match pem {
            Err(source) => r == Err::<Identity, Error>(
                Error::UnableToReadIdentityPem { path, source },
            ),
            Ok(bytes) => match pem_identity(bytes@) {
                Ok(identity) => r == Ok::<Identity, Error>(identity),
                Err(source) => r == Err::<Identity, Error>(
                    Error::InvalidIdentityPem { path, source },
                ),
            },
        },
{
    match pem {
        Err(source) => Err(Error::UnableToReadIdentityPem { path, source }),
        Ok(bytes) => match identity_from_pem(&bytes) {
            Ok(identity) => Ok(identity),
            Err(source) => Err(Error::InvalidIdentityPem { path, source }),
        },
    }
}

/// A pool of connections to one coordinator.
#[derive(Clone)]
pub struct TrinoConnectionPool {
    pub base_url: String,
    pub catalog: String,
    pub schema: String,
    pub client: Arc<Client>,
    pub join_push_down: JoinPushDown,
    pub unsupported_type_action: UnsupportedTypeAction,
}

#[verifier::external_type_specification]
#[verifier::external_body]
pub struct ExFormatter<'a>(Formatter<'a>);

#[verifier::external_type_specification]
#[verifier::external_body]
pub struct ExFormatError(FormatError);

impl std::fmt::Debug for TrinoConnectionPool {
    /// Shows all but the client, whose headers authenticate.
    #[verifier::external_body]
    fn fmt(&self, f: &mut Formatter<'_>) -> Result<(), FormatError> {
        f.debug_struct("TrinoConnectionPool")
            .field("base_url", &self.base_url)
            .field("catalog", &self.catalog)
            .field("schema", &self.schema)
            .field("join_push_down", &self.join_push_down)
            .field("unsupported_type_action", &self.unsupported_type_action)
            .finish()
    }
}

/// Whether a number is an HTTP status.
pub open spec fn is_status(status_code: u16) -> bool {
    100 <= status_code < 1000
}

/// An HTTP status with its reason, as text.
pub uninterp spec fn status_text(status_code: u16) -> Seq<char>;

/// `StatusCode::from_u16` and the text that the status is shown as.
#[verifier::external_body]
fn text_of_status(status_code: u16) -> (r: String)
    requires
        is_status(status_code),
    ensures
        r@ == status_text(status_code),
{
    StatusCode::from_u16(status_code).unwrap().to_string()
}

/// Why a coordinator is not taken, by the status of its reply.
pub open spec fn connection_fault(status_code: u16) -> Option<ErrorView> {
    if is_success(status_code) {
        None
    } else if status_code == 401 {
        Some(ErrorView::AuthenticationFailedError)
    } else {
        Some(
            ErrorView::TrinoServerError(
                status_code,
                "Connection test failed with HTTP "@ + status_text(status_code),
            ),
        )
    }
}

/// The text that pools whose tables can be joined at the coordinator share.
pub open spec fn join_context(
    base_url: Seq<char>,
    catalog: Seq<char>,
    schema: Seq<char>,
    user: Option<Seq<char>>,
) -> Seq<char> {
    let common = "url="@ + base_url + ",catalog="@ + catalog + ",schema="@ + schema;
    match user {
        Some(user) => common + ",user="@ + user,
        None => common,
    }
}

impl TrinoConnectionPool {
    /// A pool with some settings, over a client that was made by them.
    pub fn new(config: PoolConfig, client: Arc<Client>) -> (r: TrinoConnectionPool)
        ensures
            r.base_url == config.base_url,
            r.catalog == config.catalog,
            r.schema == config.schema,
            r.client == client,
            r.join_push_down matches JoinPushDown::AllowedFor(context) && context@ == join_context(
                config.base_url@,
                config.catalog@,
                config.schema@,
                text(config.user),
            ),
            r.unsupported_type_action == UnsupportedTypeAction::Error,
    {
        let join_push_down = Self::get_join_context(
            config.base_url.as_str(),
            config.catalog.as_str(),
            config.schema.as_str(),
            &config.user,
        );
        TrinoConnectionPool {
            base_url: config.base_url,
            catalog: config.catalog,
            schema: config.schema,
            client,
            join_push_down,
            unsupported_type_action: UnsupportedTypeAction::default(),
        }
    }

    #[must_use]
    pub fn with_unsupported_type_action(self, action: UnsupportedTypeAction) -> (r:
        TrinoConnectionPool)
        ensures
            r == (TrinoConnectionPool { unsupported_type_action: action, ..self }),
    {
        let mut pool = self;
        pool.unsupported_type_action = action;
        pool
    }

    /// Where a coordinator tells about itself.
    pub fn info_url(base_url: &str) -> (r: String)
        ensures
            r@ == base_url@ + "/v1/info"@,
    {
        let mut url = base_url.to_owned();
        url.append("/v1/info");
        url
    }

    /// What the status of a coordinator's reply says, once it was asked about itself.
    pub fn test_connection(status_code: u16) -> (r: Result<(), Error>)
        requires
            is_status(status_code),
        ensures
            match r {
                Ok(()) => is_success(status_code),
                Err(e) => !is_success(status_code) && e@ == (if status_code == 401 {
                    ErrorView::AuthenticationFailedError
                } else {
                    ErrorView::TrinoServerError(
                        status_code,
                        "Connection test failed with HTTP "@ + status_text(status_code),
                    )
                }),
            },
            connection_fault(status_code) == (match r {
                Ok(()) => None,
                Err(e) => Some(e@),
            }),
    {
        if status_code == 401 {
            return Err(Error::AuthenticationFailedError);
        }
        if !(200 <= status_code && status_code < 300) {
            let mut message = "Connection test failed with HTTP ".to_owned();
            message.append(text_of_status(status_code).as_str());
            return Err(Error::TrinoServerError { status_code, message });
        }
        Ok(())
    }

    /// The pools whose tables can be joined with those of this one.
    pub fn get_join_context(
        base_url: &str,
        catalog: &str,
        schema: &str,
        user: &Option<String>,
    ) -> (r: JoinPushDown)
        ensures
            r matches JoinPushDown::AllowedFor(context) && context@ == join_context(
                base_url@,
                catalog@,
                schema@,
                text(*user),
            ),
    {
        let mut context = "url=".to_owned();
        context.append(base_url);
        context.append(",catalog=");
        context.append(catalog);
        context.append(",schema=");
        context.append(schema);
        if let Some(user) = user {
            context.append(",user=");
            context.append(user.as_str());
        }
        JoinPushDown::AllowedFor(context)
    }

    /// A connection.
    pub fn connect(&self) -> (r: Result<TrinoConnection, crate::trinoconn::Error>)
        ensures
            match r {
                Ok(c) => is_http_url(self.base_url@) && c.client == self.client && c.base_url@
                    == self.base_url@ && c.unsupported_type_action == self.unsupported_type_action,
                Err(e) => !is_http_url(self.base_url@) && e@
                    == crate::trinoconn::ErrorView::InvalidUrl(self.base_url@),
            },
    {
        match TrinoConnection::new_with_config(self.client.clone(), self.base_url.clone()) {
            Ok(connection) => Ok(
                connection.with_unsupported_type_action(self.unsupported_type_action),
            ),
            Err(e) => Err(e),
        }
    }

    /// The pools whose tables can be joined with those of this one.
    pub fn join_push_down(&self) -> (r: JoinPushDown)
        ensures
            r == self.join_push_down,
    {
        match &self.join_push_down {
            JoinPushDown::Disallowed => JoinPushDown::Disallowed,
            JoinPushDown::AllowedFor(context) => JoinPushDown::AllowedFor(context.clone()),
        }
    }
}

/// The URL of a host is one that a connection takes.
pub proof fn lemma_host_urls_connect(ssl: bool, host: Seq<char>, port: u16)
    ensures
        is_http_url(host_url(ssl, host, port)),
{
    reveal_strlit("http");
    reveal_strlit("https");
    reveal_strlit("://");
    reveal_strlit("http://");
    reveal_strlit("https://");
    let url = host_url(ssl, host, port);
    if ssl {
        assert("https://"@ =~= url.subrange(0, 8));
    } else {
        assert("http://"@ =~= url.subrange(0, 7));
    }
}

proof fn lemma_trim_end_keeps(s: Seq<char>, c: char, i: int)
    requires
        0 <= i < s.len(),
        s[i] != c,
    ensures
        i < trim_end_of(s, c).len() <= s.len(),
        trim_end_of(s, c) == s.take(trim_end_of(s, c).len() as int),
    decreases s.len(),
{
    if s.last() == c {
        lemma_trim_end_keeps(s.drop_last(), c, i);
        let n = trim_end_of(s, c).len() as int;
        assert(s.drop_last().take(n) =~= s.take(n));
    } else {
        assert(s.take(s.len() as int) =~= s);
    }
}

/// A URL that names anything behind its scheme is still one that a connection takes once the
/// slashes at its end are gone.
pub proof fn lemma_trimmed_urls_connect(url: Seq<char>, i: int)
    requires
        is_http_url(url),
        "https://"@.is_prefix_of(url) ==> 8 <= i < url.len(),
        "http://"@.is_prefix_of(url) ==> 7 <= i < url.len(),
        url[i] != '/',
    ensures
        is_http_url(trim_end_of(url, '/')),
{
    reveal_strlit("http://");
    reveal_strlit("https://");
    lemma_trim_end_keeps(url, '/', i);
    let short = trim_end_of(url, '/');
    if "https://"@.is_prefix_of(url) {
        assert(short.subrange(0, 8) =~= url.subrange(0, 8));
        assert("https://"@.is_prefix_of(short));
    } else {
        assert(short.subrange(0, 7) =~= url.subrange(0, 7));
        assert("http://"@.is_prefix_of(short));
    }
}

/// Requests carry the header that authenticates exactly where there is a user with a password, or
/// a bearer token.
pub proof fn lemma_authorization_sent(
    catalog: Seq<char>,
    schema: Seq<char>,
    user: Option<Seq<char>>,
    password: Option<Seq<char>>,
    token: Option<Seq<char>>,
)
    ensures
        request_headers(catalog, schema, user, password, token).contains_key("authorization"@) <==>
            (user is Some && password is Some) || token is Some,
{
    reveal_strlit("authorization");
    reveal_strlit("x-trino-catalog");
    reveal_strlit("x-trino-schema");
    reveal_strlit("x-trino-user");
    assert("authorization"@.len() == 13);
    assert("x-trino-catalog"@.len() == 15);
    assert("x-trino-schema"@.len() == 14);
    assert("x-trino-user"@.len() == 12);
}

proof fn lemma_first_comma(x: Seq<char>, r: Seq<char>, y: Seq<char>, s: Seq<char>)
    requires
        x + seq![','] + r == y + seq![','] + s,
        !x.contains(','),
        !y.contains(','),
    ensures
        x == y,
        r == s,
{
    let whole = x + seq![','] + r;
    let other = y + seq![','] + s;
    if x.len() < y.len() {
        assert(whole[x.len() as int] == ',');
        assert(y[x.len() as int] == other[x.len() as int]);
    } else if y.len() < x.len() {
        assert(other[y.len() as int] == ',');
        assert(x[y.len() as int] == whole[y.len() as int]);
    }
    assert(x =~= whole.take(x.len() as int));
    assert(y =~= other.take(y.len() as int));
    assert(r =~= whole.skip(x.len() as int + 1));
    assert(s =~= other.skip(y.len() as int + 1));
}

/// What follows the schema in a join context.
spec fn user_context(user: Option<Seq<char>>) -> Seq<char> {
    match user {
        Some(user) => seq![','] + ("user="@ + user),
        None => seq![],
    }
}

proof fn lemma_join_context_parts(
    base_url: Seq<char>,
    catalog: Seq<char>,
    schema: Seq<char>,
    user: Option<Seq<char>>,
)
    ensures
        join_context(base_url, catalog, schema, user) == "url="@ + (base_url + seq![','] + (
        "catalog="@ + (catalog + seq![','] + ("schema="@ + (schema + user_context(user)))))),
{
    reveal_strlit("url=");
    reveal_strlit(",catalog=");
    reveal_strlit(",schema=");
    reveal_strlit(",user=");
    reveal_strlit("catalog=");
    reveal_strlit("schema=");
    reveal_strlit("user=");
    assert(",catalog="@ =~= seq![','] + "catalog="@);
    assert(",schema="@ =~= seq![','] + "schema="@);
    assert(",user="@ =~= seq![','] + "user="@);
    assert(join_context(base_url, catalog, schema, user) =~= "url="@ + (base_url + seq![','] + (
    "catalog="@ + (catalog + seq![','] + ("schema="@ + (schema + user_context(user)))))));
}

proof fn lemma_same_start(p: Seq<char>, x: Seq<char>, y: Seq<char>)
    requires
        p + x == p + y,
    ensures
        x == y,
{
    assert(x =~= (p + x).skip(p.len() as int));
    assert(y =~= (p + y).skip(p.len() as int));
}

/// Two pools share a join context only where they have the same coordinator, catalog, schema and
/// user, as long as no coordinator, catalog or schema has a comma in it.
pub proof fn lemma_join_contexts_differ(
    a: (Seq<char>, Seq<char>, Seq<char>, Option<Seq<char>>),
    b: (Seq<char>, Seq<char>, Seq<char>, Option<Seq<char>>),
)
    requires
        !a.0.contains(',') && !a.1.contains(',') && !a.2.contains(','),
        !b.0.contains(',') && !b.1.contains(',') && !b.2.contains(','),
        join_context(a.0, a.1, a.2, a.3) == join_context(b.0, b.1, b.2, b.3),
    ensures
        a == b,
{
    lemma_join_context_parts(a.0, a.1, a.2, a.3);
    lemma_join_context_parts(b.0, b.1, b.2, b.3);
    let end_a = "schema="@ + (a.2 + user_context(a.3));
    let end_b = "schema="@ + (b.2 + user_context(b.3));
    let mid_a = "catalog="@ + (a.1 + seq![','] + end_a);
    let mid_b = "catalog="@ + (b.1 + seq![','] + end_b);
    lemma_same_start("url="@, a.0 + seq![','] + mid_a, b.0 + seq![','] + mid_b);
    lemma_first_comma(a.0, mid_a, b.0, mid_b);
    lemma_same_start("catalog="@, a.1 + seq![','] + end_a, b.1 + seq![','] + end_b);
    lemma_first_comma(a.1, end_a, b.1, end_b);
    lemma_same_start("schema="@, a.2 + user_context(a.3), b.2 + user_context(b.3));
    match (a.3, b.3) {
        (Some(u), Some(v)) => {
            assert(a.2 + user_context(a.3) =~= a.2 + seq![','] + ("user="@ + u));
            assert(b.2 + user_context(b.3) =~= b.2 + seq![','] + ("user="@ + v));
            lemma_first_comma(a.2, "user="@ + u, b.2, "user="@ + v);
            lemma_same_start("user="@, u, v);
        },
        (Some(u), None) => {
            assert(b.2 + user_context(b.3) =~= b.2);
            assert(b.2[a.2.len() as int] == (a.2 + user_context(a.3))[a.2.len() as int]);
        },
        (None, Some(v)) => {
            assert(a.2 + user_context(a.3) =~= a.2);
            assert(a.2[b.2.len() as int] == (b.2 + user_context(b.3))[b.2.len() as int]);
        },
        (None, None) => {
            assert(a.2 + user_context(a.3) =~= a.2);
            assert(b.2 + user_context(b.3) =~= b.2);
        },
    }
}

} // verus!
