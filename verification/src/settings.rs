//! What the parameters of a pool settle.

use crate::encoding::base64_text;
use crate::number::{decimal_text, u16_fault, u64_fault};
use crate::numerals::{digits_number, is_digits, lemma_unsigned_numbers_are_read};
use crate::text::trim_end_of;
use crate::trinoconn::{is_http_url, poll_fault, submission_fault, ErrorView as ReplyErrorView};
use crate::trinodbpool::{
    all_sendable, config_error, connection_fault, flag_param, is_header_char, is_header_value,
    join_context, one_way_in, param, reaches_headers, request_headers, schema_param, sendable,
    status_text, unsigned_param, url_reading, wanted_timeout, wanted_verification, without_prefix,
    ErrorView, UrlReading,
};
use vstd::prelude::*;
use vstd::utf8::encode_utf8;

verus! {

proof fn lemma_first_params(
    a: Seq<(String, String)>,
    b: Seq<(String, String)>,
    prefix: Seq<char>,
    k: nat,
)
    requires
        k <= a.len(),
        k <= b.len(),
        forall|i: int| 0 <= i < k ==> a[i] == b[i],
    ensures
        without_prefix(a, prefix, k) == without_prefix(b, prefix, k),
    decreases k,
{
    if k > 0 {
        lemma_first_params(a, b, prefix, (k - 1) as nat);
        assert(a[k - 1] == b[k - 1]);
    }
}

/// A parameter whose name has the prefix is there under the name without it, and one whose name has
/// not under its own name, with its value as it is. It takes the place of an earlier one under that
/// name, and leaves the others as they are.
pub proof fn lemma_prefixes_are_taken_off(
    pairs: Seq<(String, String)>,
    pair: (String, String),
    prefix: Seq<char>,
    short: Seq<char>,
)
    ensures
        ({
            let before = without_prefix(pairs, prefix, pairs.len());
            let now = without_prefix(pairs.push(pair), prefix, pairs.len() + 1);
            &&& without_prefix(seq![], prefix, 0) == Map::<Seq<char>, String>::empty()
            &&& pair.0@ == prefix + short ==> now == before.insert(short, pair.1)
            &&& !prefix.is_prefix_of(pair.0@) ==> now == before.insert(pair.0@, pair.1)
        }),
{
    let all = pairs.push(pair);
    lemma_first_params(all, pairs, prefix, pairs.len());
    assert(all[pairs.len() as int] == pair);
    if pair.0@ == prefix + short {
        assert((prefix + short).subrange(0, prefix.len() as int) =~= prefix);
        assert(prefix.is_prefix_of(pair.0@));
        assert(pair.0@.skip(prefix.len() as int) =~= short);
    }
}

/// A parameter of digits is their number, where it is in the range, and one that is missing is the
/// number that it has by itself. Anything but digits, with a `+` before them at most, is refused.
pub proof fn lemma_number_params(
    params: Map<Seq<char>, String>,
    name: Seq<char>,
    default: nat,
    max: nat,
)
    ensures
        !params.contains_key(name) ==> unsigned_param(params, name, default, max) == Some(default),
        params.contains_key(name) && is_digits(params[name]@) ==> unsigned_param(
            params,
            name,
            default,
            max,
        ) == (if digits_number(params[name]@) <= max {
            Some(digits_number(params[name]@) as nat)
        } else {
            None
        }),
        params.contains_key(name) && !is_digits(params[name]@) && !(params[name]@.len() > 1
            && params[name]@[0] == '+') ==> unsigned_param(params, name, default, max) is None,
{
    if params.contains_key(name) {
        lemma_unsigned_numbers_are_read(params[name]@, max);
    }
}

/// A flag that says `true` or `false` is that, and one that says anything else, or is missing, is
/// what it is by itself.
pub proof fn lemma_flag_params(params: Map<Seq<char>, String>, name: Seq<char>, default: bool)
    ensures
        params.contains_key(name) && params[name]@ == "true"@ ==> flag_param(params, name, default),
        params.contains_key(name) && params[name]@ == "false"@ ==> !flag_param(
            params,
            name,
            default,
        ),
        params.contains_key(name) && params[name]@ != "true"@ && params[name]@ != "false"@
            ==> flag_param(params, name, default) == default,
        !params.contains_key(name) ==> flag_param(params, name, default) == default,
{
    reveal_strlit("true");
    reveal_strlit("false");
    assert("true"@.len() == 4 && "false"@.len() == 5);
}

/// What is left of a text without the slashes at its end is its beginning, does not end in one, and
/// has nothing but slashes behind it.
pub proof fn lemma_ends_are_trimmed(s: Seq<char>, c: char)
    ensures
        ({
            let short = trim_end_of(s, c);
            &&& short.len() <= s.len()
            &&& short == s.take(short.len() as int)
            &&& short.len() > 0 ==> short.last() != c
            &&& forall|i: int| short.len() <= i < s.len() ==> s[i] == c
        }),
    decreases s.len(),
{
    if s.len() > 0 && s.last() == c {
        let rest = s.drop_last();
        lemma_ends_are_trimmed(rest, c);
        let short = trim_end_of(s, c);
        assert(rest.take(short.len() as int) =~= s.take(short.len() as int));
        assert forall|i: int| short.len() <= i < s.len() implies s[i] == c by {
            if i < rest.len() {
                assert(rest[i] == s[i]);
            }
        }
    } else {
        assert(s.take(s.len() as int) =~= s);
    }
}

/// The coordinator's URL is the parameter `url` without the slashes at its end, where it begins
/// like one. Without that parameter it is made of the host, the port, which is 8080 by itself, and
/// `http`, or `https` where `ssl` says `true`; the host must then be reached. Without a host there
/// is none.
pub proof fn lemma_urls_from_parameters(params: Map<Seq<char>, String>)
    ensures
        params.contains_key("url"@) && is_http_url(params["url"@]@) ==> url_reading(params)
            == UrlReading::Ready(trim_end_of(params["url"@]@, '/')),
        params.contains_key("url"@) && !is_http_url(params["url"@]@) ==> url_reading(params)
            == UrlReading::Failed(ErrorView::InvalidTrinoUrl(params["url"@]@)),
        !params.contains_key("url"@) && !params.contains_key("host"@) ==> url_reading(params)
            == UrlReading::Failed(ErrorView::MissingRequiredParameter("url or host"@)),
        !params.contains_key("url"@) && params.contains_key("host"@) ==> {
            let host = params["host"@]@;
            let scheme = if params.contains_key("ssl"@) && params["ssl"@]@ == "true"@ {
                "https://"@
            } else {
                "http://"@
            };
            &&& !params.contains_key("port"@) ==> url_reading(params) == UrlReading::Probe(
                host,
                8080,
                scheme + host + ":"@ + decimal_text(8080),
            )
            &&& params.contains_key("port"@) && is_digits(params["port"@]@) && digits_number(
                params["port"@]@,
            ) <= 65_535 ==> url_reading(params) == UrlReading::Probe(
                host,
                digits_number(params["port"@]@) as u16,
                scheme + host + ":"@ + decimal_text(digits_number(params["port"@]@) as nat),
            )
            &&& params.contains_key("port"@) && is_digits(params["port"@]@) && digits_number(
                params["port"@]@,
            ) > 65_535 ==> url_reading(params) == UrlReading::Failed(
                ErrorView::InvalidIntegerParameterError("port"@, u16_fault(params["port"@]@)),
            )
        },
{
    reveal_strlit("http");
    reveal_strlit("https");
    reveal_strlit("://");
    reveal_strlit("http://");
    reveal_strlit("https://");
    lemma_number_params(params, "port"@, 8080, u16::MAX as nat);
    lemma_flag_params(params, "ssl"@, false);
    assert("http"@ + "://"@ =~= "http://"@);
    assert("https"@ + "://"@ =~= "https://"@);
    if params.contains_key("port"@) {
        lemma_unsigned_numbers_are_read(params["port"@]@, u16::MAX as nat);
    }
}

/// The schema is the parameter of that name, and `default` without one. A request may take 300
/// seconds, and the coordinator's certificate is checked, unless the parameters say otherwise.
pub proof fn lemma_defaults(params: Map<Seq<char>, String>)
    ensures
        params.contains_key("schema"@) ==> schema_param(params) == params["schema"@]@,
        !params.contains_key("schema"@) ==> schema_param(params) == "default"@,
        !params.contains_key("timeout"@) ==> wanted_timeout(params) == Some(300nat),
        params.contains_key("timeout"@) && is_digits(params["timeout"@]@) && digits_number(
            params["timeout"@]@,
        ) <= u64::MAX ==> wanted_timeout(params) == Some(
            digits_number(params["timeout"@]@) as nat,
        ),
        wanted_verification(params) <==> !(params.contains_key("ssl_verification"@)
            && params["ssl_verification"@]@ == "false"@),
{
    lemma_number_params(params, "timeout"@, 300, u64::MAX as nat);
    lemma_flag_params(params, "ssl_verification"@, true);
}

/// How many of three hold.
pub open spec fn how_many(a: bool, b: bool, c: bool) -> int {
    (if a {
        1int
    } else {
        0int
    }) + (if b {
        1int
    } else {
        0int
    }) + (if c {
        1int
    } else {
        0int
    })
}

/// There is one way to authenticate where just one is there of a user or a password, a certificate
/// and a bearer token.
pub proof fn lemma_one_way_in(params: Map<Seq<char>, String>, user: bool, password: bool)
    ensures
        one_way_in(params, user, password) <==> how_many(
            user || password,
            params.contains_key("identity_pem_path"@),
            params.contains_key("bearer_token"@),
        ) == 1,
{
}

/// Parameters are refused without a catalog, then without just one way to authenticate, then for a
/// timeout that is no number, and for nothing else.
pub proof fn lemma_refused_parameters(params: Map<Seq<char>, String>)
    ensures
        ({
            let one = how_many(
                params.contains_key("user"@) || params.contains_key("password"@),
                params.contains_key("identity_pem_path"@),
                params.contains_key("bearer_token"@),
            ) == 1;
            &&& !params.contains_key("catalog"@) ==> config_error(params) == Some(
                ErrorView::MissingRequiredParameter("catalog"@),
            )
            &&& params.contains_key("catalog"@) && !one ==> config_error(params) == Some(
                ErrorView::InvalidAuthConfig(
                    "Exactly one authentication method must be provided: basic auth, mTLS, or bearer token"@,
                ),
            )
            &&& params.contains_key("catalog"@) && one && wanted_timeout(params) is None
                ==> config_error(params) == Some(
                ErrorView::InvalidIntegerParameterError(
                    "timeout"@,
                    u64_fault(params["timeout"@]@),
                ),
            )
            &&& params.contains_key("catalog"@) && one && wanted_timeout(params) is Some
                ==> config_error(params) is None
        }),
{
}

/// Requests carry the catalog, the schema, the user, where there is one, and one header that
/// authenticates: a user with a password as `Basic` with both in Base64 and a colon between them,
/// otherwise a bearer token as `Bearer`. They carry nothing else.
pub proof fn lemma_requests_carry_their_headers(
    catalog: Seq<char>,
    schema: Seq<char>,
    user: Option<Seq<char>>,
    password: Option<Seq<char>>,
    token: Option<Seq<char>>,
    name: Seq<char>,
)
    ensures
        ({
            let headers = request_headers(catalog, schema, user, password, token);
            &&& headers.contains_key("x-trino-catalog"@) && headers["x-trino-catalog"@]
                == encode_utf8(catalog)
            &&& headers.contains_key("x-trino-schema"@) && headers["x-trino-schema"@]
                == encode_utf8(schema)
            &&& user matches Some(u) ==> headers.contains_key("x-trino-user"@)
                && headers["x-trino-user"@] == encode_utf8(u)
            &&& user is None ==> !headers.contains_key("x-trino-user"@)
            &&& (user, password) matches (Some(u), Some(p)) ==> headers.contains_key(
                "authorization"@,
            ) && headers["authorization"@] == encode_utf8(
                "Basic "@ + base64_text(encode_utf8(u + seq![':'] + p)),
            )
            &&& (user is None || password is None) && token is Some ==> headers.contains_key(
                "authorization"@,
            ) && headers["authorization"@] == encode_utf8("Bearer "@ + token->0)
            &&& (user is None || password is None) && token is None ==> !headers.contains_key(
                "authorization"@,
            )
            &&& headers.contains_key(name) ==> name == "x-trino-catalog"@ || name
                == "x-trino-schema"@ || name == "x-trino-user"@ || name == "authorization"@
        }),
{
    reveal_strlit("authorization");
    reveal_strlit("x-trino-catalog");
    reveal_strlit("x-trino-schema");
    reveal_strlit("x-trino-user");
    reveal_strlit(":");
    assert("authorization"@.len() == 13);
    assert("x-trino-catalog"@.len() == 15);
    assert("x-trino-schema"@.len() == 14);
    assert("x-trino-user"@.len() == 12);
    assert(":"@ =~= seq![':']);
}

/// A text can be sent in a header just where it has no control characters but tabs.
pub proof fn lemma_headers_have_no_control_characters(s: Seq<char>)
    ensures
        is_header_value(s) <==> forall|i: int|
            0 <= i < s.len() ==> (#[trigger] s[i] == '\u{9}' || (s[i] >= '\u{20}' && s[i]
                != '\u{7f}')),
        sendable(Some(s)) <==> is_header_value(s),
        sendable(None),
{
    if is_header_value(s) {
        assert forall|i: int| 0 <= i < s.len() implies (#[trigger] s[i] == '\u{9}' || (s[i]
            >= '\u{20}' && s[i] != '\u{7f}')) by {
            assert(is_header_char(s[i]));
        }
    } else {
        let i = choose|i: int| 0 <= i < s.len() && !is_header_char(#[trigger] s[i]);
        assert(!(s[i] == '\u{9}' || (s[i] >= '\u{20}' && s[i] != '\u{7f}')));
    }
}

/// Of the parameters, the catalog, the schema, the user and the bearer token are sent as they are.
pub proof fn lemma_sent_parameters(params: Map<Seq<char>, String>)
    ensures
        all_sendable(params) <==> forall|name: Seq<char>|
            (name == "catalog"@ || name == "schema"@ || name == "user"@ || name == "bearer_token"@)
                && #[trigger] params.contains_key(name) ==> is_header_value(params[name]@),
{
    if all_sendable(params) {
        assert forall|name: Seq<char>|
            (name == "catalog"@ || name == "schema"@ || name == "user"@ || name == "bearer_token"@)
                && #[trigger] params.contains_key(name) implies is_header_value(params[name]@) by {
            assert(sendable(param(params, name)));
        }
    } else {
        if !sendable(param(params, "catalog"@)) {
            assert(params.contains_key("catalog"@));
        }
        if !sendable(param(params, "schema"@)) {
            assert(params.contains_key("schema"@));
        }
        if !sendable(param(params, "user"@)) {
            assert(params.contains_key("user"@));
        }
        if !sendable(param(params, "bearer_token"@)) {
            assert(params.contains_key("bearer_token"@));
        }
    }
}

/// The join context of a pool is made of its coordinator's URL, its catalog, its schema and, where
/// there is one, its user.
pub proof fn lemma_join_contexts_are_made_of_the_settings(
    base_url: Seq<char>,
    catalog: Seq<char>,
    schema: Seq<char>,
    user: Seq<char>,
)
    ensures
        join_context(base_url, catalog, schema, None) == "url="@ + base_url + ",catalog="@ + catalog
            + ",schema="@ + schema,
        join_context(base_url, catalog, schema, Some(user)) == join_context(
            base_url,
            catalog,
            schema,
            None,
        ) + ",user="@ + user,
{
}

/// A reply is taken just where its status is from 200 to 299. A status of 401 tells that the
/// authentication has failed, where a statement was sent or the connection is tested; any other
/// refused reply gives its status, and its text or what the status is called.
pub proof fn lemma_statuses_decide(status: u16, message: Seq<char>)
    ensures
        submission_fault(status, message) is None <==> 200 <= status <= 299,
        poll_fault(status, message) is None <==> 200 <= status <= 299,
        connection_fault(status) is None <==> 200 <= status <= 299,
        submission_fault(401, message) == Some(ReplyErrorView::AuthenticationFailedError),
        connection_fault(401) == Some(ErrorView::AuthenticationFailedError),
        !(200 <= status <= 299) ==> poll_fault(status, message) == Some(
            ReplyErrorView::TrinoServerError(status, message),
        ),
        !(200 <= status <= 299) && status != 401 ==> submission_fault(status, message) == Some(
            ReplyErrorView::TrinoServerError(status, message),
        ) && connection_fault(status) == Some(
            ErrorView::TrinoServerError(
                status,
                "Connection test failed with HTTP "@ + status_text(status),
            ),
        ),
{
}

/// Parameters get as far as headers with a catalog and just one way to authenticate.
pub proof fn lemma_parameters_that_reach_headers(params: Map<Seq<char>, String>)
    ensures
        reaches_headers(params) <==> params.contains_key("catalog"@) && how_many(
            params.contains_key("user"@) || params.contains_key("password"@),
            params.contains_key("identity_pem_path"@),
            params.contains_key("bearer_token"@),
        ) == 1,
{
}

/// A parameter is its text, as it stands, where it is there.
pub proof fn lemma_params_are_their_texts(params: Map<Seq<char>, String>, name: Seq<char>)
    ensures
        params.contains_key(name) ==> param(params, name) == Some(params[name]@),
        !params.contains_key(name) ==> param(params, name) is None,
{
}

} // verus!
