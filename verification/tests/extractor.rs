use http::{HeaderMap, Request};
use ws_kit::extractor::{hex_val, url_decode, TokenExtractor, TokenSourceKind, WsAuthError};

#[test]
fn parse_bearer_ok() {
    assert_eq!(
        TokenExtractor::parse_bearer("Bearer abc123"),
        Some("abc123".to_string())
    );
    assert_eq!(
        TokenExtractor::parse_bearer("bearer abc123"),
        Some("abc123".to_string())
    );
    assert_eq!(
        TokenExtractor::parse_bearer("BEARER abc123"),
        Some("abc123".to_string())
    );
    assert_eq!(
        TokenExtractor::parse_bearer("Bearer   spaced  "),
        Some("spaced".to_string())
    );
}

#[test]
fn parse_bearer_fail() {
    assert_eq!(TokenExtractor::parse_bearer("Basic abc"), None);
    assert_eq!(TokenExtractor::parse_bearer("Bearer "), None);
    assert_eq!(TokenExtractor::parse_bearer("Bearer"), None);
    assert_eq!(TokenExtractor::parse_bearer(""), None);
}

#[test]
fn query_param_extraction() {
    assert_eq!(
        TokenExtractor::extract_query_param("token=abc123&foo=bar", "token"),
        Some("abc123".to_string())
    );
    assert_eq!(
        TokenExtractor::extract_query_param("?access_token=xyz", "access_token"),
        Some("xyz".to_string())
    );
    assert_eq!(
        TokenExtractor::extract_query_param("foo=1&token=second", "token"),
        Some("second".to_string())
    );
    assert_eq!(TokenExtractor::extract_query_param("", "token"), None);
    assert_eq!(
        TokenExtractor::extract_query_param("token=&foo=bar", "token"),
        None
    );
}

#[test]
fn query_url_decode() {
    assert_eq!(
        TokenExtractor::extract_query_param("token=hello%20world", "token"),
        Some("hello world".to_string())
    );
    assert_eq!(
        TokenExtractor::extract_query_param("token=a%2Bb", "token"),
        Some("a+b".to_string())
    );
}

#[test]
fn cookie_extraction() {
    assert_eq!(
        TokenExtractor::parse_cookie("session=abc; token=xyz; foo=bar", "token"),
        Some("xyz".to_string())
    );
    assert_eq!(
        TokenExtractor::parse_cookie("token=hello%20world", "token"),
        Some("hello world".to_string())
    );
    assert_eq!(TokenExtractor::parse_cookie("a=b; c=d", "token"), None);
}

#[test]
fn extractor_order_header_first() {
    let ex = TokenExtractor::default();
    let token = ex.extract_from_parts(Some("Bearer header_tok"), None, "token=query_tok");
    assert_eq!(token, Some("header_tok".to_string()));
}

#[test]
fn extractor_fallback_to_query() {
    let ex = TokenExtractor::default();
    let token = ex.extract_from_parts(None, None, "token=query_tok");
    assert_eq!(token, Some("query_tok".to_string()));
}

#[test]
fn extractor_fallback_access_token() {
    let ex = TokenExtractor::default();
    let token = ex.extract_from_parts(None, None, "access_token=at");
    assert_eq!(token, Some("at".to_string()));
}

#[test]
fn extractor_cookie_source() {
    let ex = TokenExtractor::new(vec![TokenSourceKind::Cookie("session".to_string())]);
    let token = ex.extract_from_parts(None, Some("session=mycookie"), "");
    assert_eq!(token, Some("mycookie".to_string()));
}

#[test]
fn extractor_none_when_missing() {
    let ex = TokenExtractor::default();
    assert_eq!(ex.extract_from_parts(None, None, ""), None);
}

fn parts_with(headers: HeaderMap, uri: &str) -> http::request::Parts {
    let req = Request::builder().uri(uri).body(()).unwrap();
    let (mut parts, _) = req.into_parts();
    parts.headers = headers;
    parts
}

#[test]
fn axum_bearer_extraction() {
    let mut headers = HeaderMap::new();
    headers.insert(
        http::header::AUTHORIZATION,
        "Bearer axum_tok".parse().unwrap(),
    );
    let parts = parts_with(headers, "/ws?token=ignored");
    let ex = TokenExtractor::default();
    assert_eq!(
        ex.extract_token(&parts, "token=ignored"),
        Some("axum_tok".to_string())
    );
}

#[test]
fn axum_query_fallback() {
    let parts = parts_with(HeaderMap::new(), "/ws?token=qtoken");
    let ex = TokenExtractor::default();
    assert_eq!(
        ex.extract_token(&parts, "token=qtoken"),
        Some("qtoken".to_string())
    );
}

#[test]
fn axum_cookie() {
    let mut headers = HeaderMap::new();
    headers.insert(http::header::COOKIE, "tok=cookie_val".parse().unwrap());
    let parts = parts_with(headers, "/ws");
    let ex = TokenExtractor::new(vec![TokenSourceKind::Cookie("tok".to_string())]);
    assert_eq!(ex.extract_token(&parts, ""), Some("cookie_val".to_string()));
}

#[test]
fn extractor_bearer_and_query() {
    let ex = TokenExtractor::default();
    // header wins
    let tok = ex.extract_from_parts(Some("Bearer hdr"), None, "token=qry");
    assert_eq!(tok, Some("hdr".to_string()));
    // fallback to query
    let tok2 = ex.extract_from_parts(None, None, "token=qry");
    assert_eq!(tok2, Some("qry".to_string()));
    // access_token
    let tok3 = ex.extract_from_parts(None, None, "access_token=secret");
    assert_eq!(tok3, Some("secret".to_string()));
}

#[test]
fn extractor_cookie() {
    let ex = TokenExtractor::new(vec![TokenSourceKind::Cookie("sess".to_string())]);
    let tok = ex.extract_from_parts(None, Some("sess=abc123; other=xyz"), "");
    assert_eq!(tok, Some("abc123".to_string()));
}

#[test]
fn extractor_axum_parts() {
    let mut headers = HeaderMap::new();
    headers.insert(
        http::header::AUTHORIZATION,
        "Bearer axum_token".parse().unwrap(),
    );
    let parts = parts_with(headers, "/ws?token=ignored");
    let ex = TokenExtractor::default();
    assert_eq!(
        ex.extract_token(&parts, "token=ignored"),
        Some("axum_token".to_string())
    );
}

#[test]
fn bearer_values_with_wide_characters_are_refused() {
    assert_eq!(TokenExtractor::parse_bearer("Bearé abc"), None);
    assert_eq!(TokenExtractor::parse_bearer("éééé"), None);
    assert_eq!(TokenExtractor::parse_bearer("Bearer🌐abc"), None);
    assert_eq!(
        TokenExtractor::parse_bearer("Bearer é🌐"),
        Some("é🌐".to_string())
    );
}

#[test]
fn bearer_tokens_lose_unicode_white_space() {
    assert_eq!(
        TokenExtractor::parse_bearer("Bearer \u{3000}tok\u{a0}\t"),
        Some("tok".to_string())
    );
    assert_eq!(TokenExtractor::parse_bearer("Bearer \u{2003}"), None);
}

#[test]
fn decoding_of_escapes() {
    assert_eq!(url_decode("a+b"), "a b");
    assert_eq!(url_decode("%41%7a"), "Az");
    assert_eq!(url_decode("%e9"), "é");
    assert_eq!(url_decode("%"), "%");
    assert_eq!(url_decode("%4"), "%4");
    assert_eq!(url_decode("%+"), "%+");
    assert_eq!(url_decode("%zz+"), "%zz ");
    // the two characters behind a stray percent sign are kept as they are
    assert_eq!(url_decode("%%20"), "%%20");
    assert_eq!(url_decode("plain"), "plain");
    assert_eq!(url_decode(""), "");
}

#[test]
fn hexadecimal_digits() {
    assert_eq!(hex_val('0'), Some(0));
    assert_eq!(hex_val('9'), Some(9));
    assert_eq!(hex_val('a'), Some(10));
    assert_eq!(hex_val('F'), Some(15));
    assert_eq!(hex_val('g'), None);
    assert_eq!(hex_val('é'), None);
}

#[test]
fn query_edge_cases() {
    assert_eq!(
        TokenExtractor::extract_query_param("token=&token=late", "token"),
        Some("late".to_string())
    );
    assert_eq!(
        TokenExtractor::extract_query_param("&&token=a=b&", "token"),
        Some("a=b".to_string())
    );
    assert_eq!(
        TokenExtractor::extract_query_param("to%6ben=x", "token"),
        Some("x".to_string())
    );
    assert_eq!(
        TokenExtractor::extract_query_param("???token=q", "token"),
        Some("q".to_string())
    );
    assert_eq!(TokenExtractor::extract_query_param("token", "token"), None);
}

#[test]
fn cookie_edge_cases() {
    assert_eq!(
        TokenExtractor::parse_cookie("  token = \"quoted\" ", "token"),
        Some("quoted".to_string())
    );
    assert_eq!(
        TokenExtractor::parse_cookie("token=\"\"; token=x", "token"),
        Some("x".to_string())
    );
    assert_eq!(
        TokenExtractor::parse_cookie("token=a=b", "token"),
        Some("a=b".to_string())
    );
    assert_eq!(TokenExtractor::parse_cookie("", "token"), None);
}

#[test]
fn sources_are_asked_in_order() {
    let ex = TokenExtractor::new(vec![TokenSourceKind::Cookie("c".to_string())])
        .with_source(TokenSourceKind::QueryParam("q".to_string()))
        .with_source(TokenSourceKind::AuthorizationHeader);
    assert_eq!(
        ex.sources(),
        &[
            TokenSourceKind::Cookie("c".to_string()),
            TokenSourceKind::QueryParam("q".to_string()),
            TokenSourceKind::AuthorizationHeader
        ]
    );
    assert_eq!(
        ex.extract_from_parts(Some("Bearer h"), Some("c=cookie"), "q=query"),
        Some("cookie".to_string())
    );
    assert_eq!(
        ex.extract_from_parts(Some("Bearer h"), Some("c="), "q=query"),
        Some("query".to_string())
    );
    assert_eq!(
        ex.extract_from_parts(Some("Bearer h"), None, ""),
        Some("h".to_string())
    );
    assert_eq!(ex.extract_from_parts(Some("Basic h"), None, ""), None);
}

#[test]
fn bearer_only_reads_the_header_alone() {
    let ex = TokenExtractor::bearer_only();
    assert_eq!(ex.sources(), &[TokenSourceKind::AuthorizationHeader]);
    assert_eq!(ex.extract_from_parts(None, Some("token=c"), "token=q"), None);
}

#[test]
fn required_token() {
    let ex = TokenExtractor::default();
    let parts = parts_with(HeaderMap::new(), "/ws");
    assert_eq!(ex.require_token(&parts, ""), Err(WsAuthError::Missing));
    assert_eq!(ex.require_token(&parts, "token=t"), Ok("t".to_string()));
    let mut headers = HeaderMap::new();
    headers.insert(
        http::header::AUTHORIZATION,
        http::HeaderValue::from_bytes(b"Bearer \xff").unwrap(),
    );
    let parts = parts_with(headers, "/ws");
    assert_eq!(ex.require_token(&parts, ""), Err(WsAuthError::Missing));
}

#[test]
fn auth_error_messages() {
    assert_eq!(
        WsAuthError::Missing.to_string(),
        "authentication token missing"
    );
    assert_eq!(
        WsAuthError::Invalid.to_string(),
        "authentication token invalid"
    );
    assert_eq!(
        WsAuthError::Expired.to_string(),
        "authentication token expired"
    );
}

#[test]
fn clones_look_in_the_same_places() {
    let ex = TokenExtractor::bearer_only()
        .with_source(TokenSourceKind::QueryParam("q".to_string()))
        .with_source(TokenSourceKind::Cookie("c".to_string()));
    assert_eq!(ex.clone().sources(), ex.sources());
    assert_eq!(ex.sources().len(), 3);
    assert_eq!(WsAuthError::Expired.clone(), WsAuthError::Expired);
}
