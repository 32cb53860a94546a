use reqwest::Client;
use std::io::{Error as IoError, ErrorKind};
use std::num::IntErrorKind;
use std::sync::Arc;
use trino_arrow::trinoconn::{Error as ConnectionError, UnsupportedTypeAction};
use trino_arrow::trinodbpool::{
    build_base_url, build_headers, can_be_header, can_configure, configure,
    get_catalog_and_schema, get_user_and_password, parse_bool_param, parse_u16_param,
    parse_u64_param, read_identity, remove_prefix, validate_auth_exclusivity, Error, JoinPushDown, Params,
    TrinoConnectionPool, UrlPlan,
};

fn params(pairs: &[(&str, &str)]) -> Params {
    let pairs = pairs.iter().map(|(k, v)| (k.to_string(), v.to_string())).collect();
    remove_prefix(&pairs, "trino_")
}

fn not_found() -> Result<(), IoError> {
    Err(IoError::from(ErrorKind::NotFound))
}

fn some(s: &str) -> Option<String> {
    Some(s.to_string())
}

#[test]
fn prefixes_are_removed() {
    let p = params(&[("trino_url", "a"), ("host", "b"), ("trino_trino_x", "c"), ("trino_host", "d")]);
    assert_eq!(p.get("url").unwrap(), "a");
    assert_eq!(p.get("host").unwrap(), "d");
    assert_eq!(p.get("trino_x").unwrap(), "c");
    assert!(p.get("trino_url").is_none());
}

#[test]
fn numbers_and_flags_are_parsed() {
    let p = params(&[("n", "65536"), ("m", "+65535"), ("bad", "1s"), ("t", "true"), ("f", "false"), ("T", "TRUE")]);
    assert_eq!(parse_u64_param(&p, "n", 1).unwrap(), 65_536);
    assert_eq!(parse_u64_param(&p, "none", u64::MAX).unwrap(), u64::MAX);
    assert!(matches!(
        parse_u64_param(&p, "bad", 1),
        Err(Error::InvalidIntegerParameterError { parameter_name, .. }) if parameter_name == "bad"
    ));
    for (text, kind) in [
        ("", IntErrorKind::Empty),
        ("-1", IntErrorKind::InvalidDigit),
        ("18446744073709551616", IntErrorKind::PosOverflow),
    ] {
        match parse_u64_param(&params(&[("timeout", text)]), "timeout", 300) {
            Err(Error::InvalidIntegerParameterError { source, .. }) => assert_eq!(source.kind(), &kind),
            _ => panic!("{text}"),
        }
    }
    assert_eq!(parse_u16_param(&p, "m", 1).unwrap(), 65_535);
    assert_eq!(parse_u16_param(&p, "none", 8080).unwrap(), 8080);
    assert!(matches!(
        parse_u16_param(&p, "n", 1),
        Err(Error::InvalidIntegerParameterError { parameter_name, source })
            if parameter_name == "n" && source.kind() == &IntErrorKind::PosOverflow
    ));
    assert!(parse_bool_param(&p, "t", false).unwrap());
    assert!(!parse_bool_param(&p, "f", true).unwrap());
    assert!(parse_bool_param(&p, "T", true).unwrap() && !parse_bool_param(&p, "T", false).unwrap());
    assert!(parse_bool_param(&p, "none", true).unwrap());
}

#[test]
fn urls_are_taken_without_slashes_at_the_end() {
    let plan = build_base_url(&params(&[("url", "https://h/x//"), ("host", "h")])).unwrap();
    assert!(matches!(&plan, UrlPlan::Ready(url) if url == "https://h/x"));
    assert_eq!(plan.settle(not_found()).unwrap(), "https://h/x");
    assert!(matches!(
        build_base_url(&params(&[("url", "h:8080")])),
        Err(Error::InvalidTrinoUrl { url }) if url == "h:8080"
    ));
}

#[test]
fn hosts_must_be_reached() {
    let plan = || build_base_url(&params(&[("host", "h")])).unwrap();
    assert!(matches!(plan(), UrlPlan::Probe { host, port: 8080, .. } if host == "h"));
    assert_eq!(plan().settle(Ok(())).unwrap(), "http://h:8080");
    assert!(matches!(
        plan().settle(not_found()),
        Err(Error::InvalidHostOrPortError { host, port: 8080, source })
            if host == "h" && source.kind() == ErrorKind::NotFound
    ));
    let plan = build_base_url(&params(&[("host", "h"), ("port", "443"), ("ssl", "true")])).unwrap();
    assert_eq!(plan.settle(Ok(())).unwrap(), "https://h:443");
    assert!(matches!(
        build_base_url(&params(&[("host", "h"), ("port", "-1")])),
        Err(Error::InvalidIntegerParameterError { parameter_name, .. }) if parameter_name == "port"
    ));
    assert!(matches!(
        build_base_url(&params(&[("port", "1")])),
        Err(Error::MissingRequiredParameter { parameter_name }) if parameter_name == "url or host"
    ));
}

#[test]
fn catalogs_are_required() {
    let (catalog, schema) = get_catalog_and_schema(&params(&[("catalog", "c")])).unwrap();
    assert_eq!((catalog.as_str(), schema.as_str()), ("c", "default"));
    let (_, schema) = get_catalog_and_schema(&params(&[("catalog", "c"), ("schema", "s")])).unwrap();
    assert_eq!(schema, "s");
    assert!(matches!(
        get_catalog_and_schema(&params(&[("schema", "s")])),
        Err(Error::MissingRequiredParameter { parameter_name }) if parameter_name == "catalog"
    ));
}

#[test]
fn there_is_exactly_one_way_in() {
    let allowed: [&[(&str, &str)]; 5] = [
        &[("user", "u")],
        &[("password", "p")],
        &[("user", "u"), ("password", "p")],
        &[("identity_pem_path", "x")],
        &[("bearer_token", "t")],
    ];
    for pairs in allowed {
        let p = params(pairs);
        let (user, password) = get_user_and_password(&p);
        assert!(validate_auth_exclusivity(&p, &user, &password).is_ok());
    }
    let refused: [&[(&str, &str)]; 4] = [
        &[],
        &[("user", "u"), ("bearer_token", "t")],
        &[("identity_pem_path", "x"), ("bearer_token", "t")],
        &[("password", "p"), ("identity_pem_path", "x"), ("bearer_token", "t")],
    ];
    for pairs in refused {
        let p = params(pairs);
        let (user, password) = get_user_and_password(&p);
        match validate_auth_exclusivity(&p, &user, &password) {
            Err(Error::InvalidAuthConfig { details }) => assert_eq!(
                details,
                "Exactly one authentication method must be provided: basic auth, mTLS, or bearer token"
            ),
            _ => panic!("accepted"),
        }
    }
}

#[test]
fn headers_authenticate() {
    let headers = build_headers("c", "s", &some("user"), &some("secret"), &None).unwrap();
    assert_eq!(headers.len(), 4);
    assert_eq!(headers["x-trino-catalog"], "c");
    assert_eq!(headers["X-Trino-Schema"], "s");
    assert_eq!(headers["x-trino-user"], "user");
    assert_eq!(headers["authorization"], "Basic dXNlcjpzZWNyZXQ=");
    let headers = build_headers("c", "s", &None, &None, &some("t\u{e9}")).unwrap();
    assert_eq!(headers.len(), 3);
    assert_eq!(headers["authorization"].as_bytes(), "Bearer t\u{e9}".as_bytes());
    let headers = build_headers("", "\t~", &some("u"), &None, &None).unwrap();
    assert!(headers.get("authorization").is_none());
    assert_eq!(headers["x-trino-catalog"], "");
    assert_eq!(headers["x-trino-schema"], "\t~");
}

#[test]
fn control_characters_stay_out_of_headers() {
    assert!(can_be_header("a b\té~"));
    for bad in ["\n", "a\r", "\u{7f}", "\0"] {
        assert!(!can_be_header(bad));
        assert!(!can_configure(&params(&[("catalog", bad), ("user", "u")])));
        assert!(!can_configure(&params(&[("catalog", "c"), ("schema", bad), ("user", "u")])));
        assert!(!can_configure(&params(&[("catalog", "c"), ("user", bad)])));
        assert!(!can_configure(&params(&[("catalog", "c"), ("bearer_token", bad)])));
        assert!(can_configure(&params(&[("catalog", "c"), ("password", bad)])));
        assert!(can_configure(&params(&[("catalog", bad)])));
        assert!(can_configure(&params(&[("schema", bad), ("user", "u")])));
    }
}

#[test]
fn pools_are_configured() {
    let url = || "http://h".to_string();
    let config = configure(&params(&[("catalog", "c"), ("trino_user", "u")]), url()).unwrap();
    assert_eq!((config.timeout_seconds, config.ssl_verification), (300, true));
    assert!(config.identity_pem_path.is_none());
    assert_eq!(config.headers.len(), 3);
    let config = configure(
        &params(&[
            ("catalog", "c"), ("schema", "s"), ("identity_pem_path", "/k.pem"), ("timeout", "7"),
            ("ssl_verification", "false"),
        ]),
        url(),
    ).unwrap();
    assert_eq!((config.timeout_seconds, config.ssl_verification), (7, false));
    assert_eq!(config.identity_pem_path.as_deref(), Some("/k.pem"));
    assert_eq!((config.base_url.as_str(), config.schema.as_str()), ("http://h", "s"));
    assert!(matches!(
        configure(&params(&[("user", "u")]), url()),
        Err(Error::MissingRequiredParameter { .. })
    ));
    assert!(matches!(
        configure(&params(&[("catalog", "c")]), url()),
        Err(Error::InvalidAuthConfig { .. })
    ));
    assert!(matches!(
        configure(&params(&[("catalog", "c"), ("user", "u"), ("timeout", "x")]), url()),
        Err(Error::InvalidIntegerParameterError { parameter_name, .. }) if parameter_name == "timeout"
    ));
}

#[test]
fn pools_give_connections() {
    let client = Arc::new(Client::new());
    let config = configure(
        &params(&[("catalog", "c"), ("user", "u")]), "http://h".to_string(),
    ).unwrap();
    let pool = TrinoConnectionPool::new(config, client.clone())
        .with_unsupported_type_action(UnsupportedTypeAction::Ignore);
    let shown = format!("{:?}", pool.clone());
    assert_eq!(
        shown,
        "TrinoConnectionPool { base_url: \"http://h\", catalog: \"c\", schema: \"default\", \
         join_push_down: AllowedFor(\"url=http://h,catalog=c,schema=default,user=u\"), \
         unsupported_type_action: Ignore }"
    );
    let connection = pool.connect().unwrap();
    assert!(Arc::ptr_eq(&connection.client, &client));
    assert_eq!(connection.base_url, "http://h");
    assert!(connection.unsupported_type_action == UnsupportedTypeAction::Ignore);
    match pool.join_push_down() {
        JoinPushDown::AllowedFor(context) => {
            assert_eq!(context, "url=http://h,catalog=c,schema=default,user=u");
        }
        JoinPushDown::Disallowed => panic!("disallowed"),
    }
    // The slashes of a scheme are taken with those at the end.
    let base_url = build_base_url(&params(&[("url", "http://")])).unwrap().settle(Ok(())).unwrap();
    let config = configure(&params(&[("catalog", "c"), ("user", "u")]), base_url).unwrap();
    assert!(matches!(
        TrinoConnectionPool::new(config, client).connect(),
        Err(ConnectionError::InvalidUrl { url }) if url == "http:"
    ));
}

#[test]
fn join_contexts_differ() {
    let context = |url: &str, schema: &str, user: Option<String>| {
        match TrinoConnectionPool::get_join_context(url, "c", schema, &user) {
            JoinPushDown::AllowedFor(context) => context,
            JoinPushDown::Disallowed => panic!("disallowed"),
        }
    };
    assert_eq!(context("u", "s", None), "url=u,catalog=c,schema=s");
    assert_ne!(context("u", "s", None), context("u", "s", some("")));
    assert_ne!(context("u", "s", None), context("v", "s", None));
}

#[test]
fn connections_are_tested() {
    assert_eq!(TrinoConnectionPool::info_url("http://h"), "http://h/v1/info");
    assert!(TrinoConnectionPool::test_connection(200).is_ok());
    assert!(matches!(
        TrinoConnectionPool::test_connection(401),
        Err(Error::AuthenticationFailedError)
    ));
    match TrinoConnectionPool::test_connection(503) {
        Err(Error::TrinoServerError { status_code, message }) => {
            assert_eq!(status_code, 503);
            assert_eq!(message, "Connection test failed with HTTP 503 Service Unavailable");
        }
        _ => panic!("accepted"),
    }
}

fn section(label: &str) -> String {
    format!("-----BEGIN {label}-----\nAAAA\n-----END {label}-----\n")
}

#[test]
fn identities_are_read() {
    let path = || "/k.pem".to_string();
    let both = section("CERTIFICATE") + &section("PRIVATE KEY");
    assert!(read_identity(path(), Ok(both.into_bytes())).is_ok());
    let chain = section("PRIVATE KEY") + &section("CERTIFICATE") + &section("CERTIFICATE");
    assert!(read_identity(path(), Ok(chain.into_bytes())).is_ok());
    let odd = section("CERTIFICATE") + &section("PRIVATE KEY") + &section("CERTIFICATE REQUEST");
    let halves = "private key or certificate not found";
    for (pem, fault) in [
        (String::new(), halves),
        (section("CERTIFICATE"), halves),
        (section("PRIVATE KEY"), halves),
        (odd, "No valid certificate was found"),
    ] {
        match read_identity(path(), Ok(pem.into_bytes())) {
            Err(Error::InvalidIdentityPem { path, source }) => {
                assert_eq!(path, "/k.pem");
                assert!(format!("{source:?}").contains(fault), "{source:?}");
            }
            _ => panic!("accepted"),
        }
    }
    match read_identity(path(), Err(IoError::from(ErrorKind::PermissionDenied))) {
        Err(Error::UnableToReadIdentityPem { path, source }) => {
            assert_eq!(path, "/k.pem");
            assert_eq!(source.kind(), ErrorKind::PermissionDenied);
        }
        _ => panic!("read"),
    }
}
