use http::{HeaderMap, Request};
use ws_kit::origin::{normalize_origin, origin_allowed, origin_allowed_in_parts};

#[test]
fn normalize_origin_basic_and_case() {
    assert_eq!(
        normalize_origin("https://example.com"),
        "https://example.com"
    );
    assert_eq!(
        normalize_origin("HTTPS://EXAMPLE.COM"),
        "https://example.com"
    );
    assert_eq!(
        normalize_origin("https://EXAMPLE.com"),
        "https://example.com"
    );
    assert_eq!(
        normalize_origin("  https://example.com  "),
        "https://example.com"
    );
}

#[test]
fn normalize_origin_default_ports_omitted() {
    assert_eq!(
        normalize_origin("https://example.com:443"),
        "https://example.com"
    );
    assert_eq!(
        normalize_origin("http://example.com:80"),
        "http://example.com"
    );
    assert_eq!(
        normalize_origin("wss://example.com:443"),
        "wss://example.com"
    );
    assert_eq!(normalize_origin("ws://example.com:80"), "ws://example.com");
}

#[test]
fn normalize_origin_custom_ports_kept() {
    assert_eq!(
        normalize_origin("https://example.com:8443"),
        "https://example.com:8443"
    );
    // Port differences must NOT collapse: different origin.
    assert_ne!(
        normalize_origin("https://example.com:8443"),
        normalize_origin("https://example.com")
    );
    assert_ne!(
        normalize_origin("http://example.com:8080"),
        normalize_origin("http://example.com")
    );
}

#[test]
fn normalize_origin_ipv6() {
    assert_eq!(
        normalize_origin("https://[2001:DB8::1]:443"),
        "https://[2001:db8::1]"
    );
    assert_eq!(normalize_origin("http://[::1]:8080"), "http://[::1]:8080");
    assert_eq!(normalize_origin("http://[::1]"), "http://[::1]");
}

#[test]
fn normalize_origin_no_scheme_fail_closed() {
    // Malformed values do not gain a scheme — they cannot masquerade as
    // a scheme-normalized allow-list entry.
    assert_eq!(normalize_origin("example.com"), "example.com");
    assert_eq!(normalize_origin("localhost:3000"), "localhost:3000");
}

#[test]
fn origin_allowed_empty_list_allows_all() {
    assert!(origin_allowed(Some("https://anything.dev"), &[]));
    assert!(origin_allowed(None, &[]));
}

#[test]
fn origin_allowed_match_and_normalization() {
    let allowed = vec!["https://example.com".to_string()];
    assert!(origin_allowed(Some("https://example.com"), &allowed));
    // default-port equivalence
    assert!(origin_allowed(Some("https://example.com:443"), &allowed));
    // case-insensitive host and scheme
    assert!(origin_allowed(Some("HTTPS://EXAMPLE.COM"), &allowed));
    // allow-list entries are normalized the same way
    let allowed443 = vec!["https://example.com:443".to_string()];
    assert!(origin_allowed(Some("https://example.com"), &allowed443));
}

#[test]
fn origin_allowed_missing_origin_rejected_when_listed() {
    let allowed = vec!["https://example.com".to_string()];
    assert!(!origin_allowed(None, &allowed));
}

#[test]
fn origin_allowed_no_wildcard_or_suffix_matching() {
    let allowed = vec!["https://example.com".to_string()];
    assert!(!origin_allowed(Some("https://evil-example.com"), &allowed));
    assert!(!origin_allowed(
        Some("https://example.com.evil.com"),
        &allowed
    ));
    assert!(!origin_allowed(Some("https://api.example.com"), &allowed));
    assert!(!origin_allowed(Some("https://example.com:8443"), &allowed));
}

#[test]
fn origin_allowed_scheme_matters() {
    let allowed = vec!["https://example.com".to_string()];
    assert!(!origin_allowed(Some("http://example.com"), &allowed));
    assert!(!origin_allowed(Some("ws://example.com"), &allowed));
}

fn parts_with_origin(origin: Option<&str>) -> http::request::Parts {
    let mut builder = Request::builder().uri("/ws");
    if let Some(o) = origin {
        builder = builder.header(http::header::ORIGIN, o);
    }
    let (parts, _) = builder.body(()).unwrap().into_parts();
    parts
}

#[test]
fn origin_allowed_in_parts_reads_header() {
    let allowed = vec!["https://example.com".to_string()];
    assert!(origin_allowed_in_parts(
        &parts_with_origin(Some("https://example.com")),
        &allowed
    ));
    assert!(!origin_allowed_in_parts(
        &parts_with_origin(Some("https://evil.com")),
        &allowed
    ));
    assert!(!origin_allowed_in_parts(&parts_with_origin(None), &allowed));
    assert!(origin_allowed_in_parts(&parts_with_origin(None), &[]));
}

#[test]
fn origin_allowed_in_parts_host_header_ignored() {
    // A Host header must not stand in for Origin.
    let allowed = vec!["https://example.com".to_string()];
    let mut headers = HeaderMap::new();
    headers.insert(http::header::HOST, "example.com".parse().unwrap());
    let req = Request::builder().uri("/ws").body(()).unwrap();
    let (mut parts, _) = req.into_parts();
    parts.headers = headers;
    assert!(!origin_allowed_in_parts(&parts, &allowed));
}

#[test]
fn ports_are_read_as_numbers() {
    assert_eq!(normalize_origin("https://h:0443"), "https://h");
    assert_eq!(normalize_origin("https://h:+443"), "https://h");
    assert_eq!(normalize_origin("https://h:"), "https://h");
    assert_eq!(normalize_origin("https://h:65979"), "https://h:65979");
    assert_eq!(normalize_origin("https://h:80"), "https://h:80");
    assert_eq!(normalize_origin("http://h:443"), "http://h:443");
    assert_eq!(normalize_origin("ftp://h:80"), "ftp://h:80");
    assert_eq!(normalize_origin("http://h:8o"), "http://h:8o");
    assert_eq!(normalize_origin("http://h:80:80"), "http://h:80:80");
}

#[test]
fn odd_brackets_are_kept() {
    assert_eq!(normalize_origin("http://[::1"), "http://[::1");
    assert_eq!(normalize_origin("http://[::1]x:80"), "http://[::1]x:80");
    assert_eq!(normalize_origin("http://[::1]:80"), "http://[::1]");
}

#[test]
fn default_and_custom_ports() {
    let allowed = vec!["wss://[::1]:443".to_string(), "http://h:8080".to_string()];
    assert!(origin_allowed(Some("WSS://[::1]"), &allowed));
    assert!(origin_allowed(Some("http://H:8080"), &allowed));
    assert!(!origin_allowed(Some("http://h"), &allowed));
    assert!(!origin_allowed(Some("h:8080"), &allowed));
}

#[test]
fn unreadable_origin_counts_as_missing() {
    let mut headers = HeaderMap::new();
    headers.insert(
        http::header::ORIGIN,
        http::HeaderValue::from_bytes(b"https://\xff").unwrap(),
    );
    let (mut parts, _) = Request::builder().uri("/ws").body(()).unwrap().into_parts();
    parts.headers = headers;
    assert!(!origin_allowed_in_parts(
        &parts,
        &["https://example.com".to_string()]
    ));
    assert!(origin_allowed_in_parts(&parts, &[]));
}

/// The status that an upgrade handler answers with.
fn handshake_status(allowed: &[String], origin: Option<&str>) -> u16 {
    if origin_allowed_in_parts(&parts_with_origin(origin), allowed) {
        101
    } else {
        403
    }
}

fn example() -> Vec<String> {
    vec!["https://example.com".to_string()]
}

#[test]
fn req_wskit_200_allowed_origin_passes_upgrade() {
    assert_eq!(
        handshake_status(&example(), Some("https://example.com")),
        101
    );
}

#[test]
fn req_wskit_200_disallowed_origin_rejected_403_pre_upgrade() {
    assert_eq!(handshake_status(&example(), Some("https://evil.com")), 403);
}

#[test]
fn req_wskit_200_missing_origin_rejected_403() {
    assert_eq!(handshake_status(&example(), None), 403);
}

#[test]
fn req_wskit_200_port_normalized_match_passes() {
    // https default port 443 is omitted during normalization
    assert_eq!(
        handshake_status(&example(), Some("https://example.com:443")),
        101
    );
    // non-default ports do NOT collapse to the bare entry
    assert_eq!(
        handshake_status(&example(), Some("https://example.com:8443")),
        403
    );
}

#[test]
fn req_wskit_200_no_wildcard_suffix_match() {
    assert_eq!(
        handshake_status(&example(), Some("https://evil-example.com")),
        403
    );
    assert_eq!(
        handshake_status(&example(), Some("https://example.com.evil.com")),
        403
    );
    assert_eq!(
        handshake_status(&example(), Some("https://api.example.com")),
        403
    );
}

#[test]
fn req_wskit_201_default_config_allows_all_origins() {
    assert_eq!(handshake_status(&[], Some("https://any-site.dev")), 101);
    assert_eq!(handshake_status(&[], None), 101);
}
