use golfsetridak::vector::client::{check_embedding_count, EmbedInput};
use golfsetridak::vector::error::EmbedError;
use golfsetridak::vector::http::{
    build_request, build_request_with_headers, parse_endpoint, request_with_bearer, split_response,
    Endpoint,
};

#[test]
fn single_body_serializes_in_order() {
    let body = EmbedInput::Single("hej \"þú\"".into()).to_json_body("m");
    assert_eq!(body, r#"{"model":"m","input":"hej \"þú\""}"#);
}

#[test]
fn many_body_serializes_array() {
    let body = EmbedInput::Many(vec!["a".into(), "b".into()]).to_json_body("gemma");
    assert_eq!(body, r#"{"model":"gemma","input":["a","b"]}"#);
}

#[test]
fn parses_host_and_port() {
    let e = parse_endpoint("http://192.168.8.14:8081").unwrap();
    assert_eq!(e.host, "192.168.8.14");
    assert_eq!(e.port, 8081);
}

#[test]
fn defaults_port_80() {
    let e = parse_endpoint("http://localhost").unwrap();
    assert_eq!(e.host, "localhost");
    assert_eq!(e.port, 80);
}

#[test]
fn ignores_trailing_path() {
    let e = parse_endpoint("http://host:9000/v1/embeddings").unwrap();
    assert_eq!(e.host, "host");
    assert_eq!(e.port, 9000);
}

#[test]
fn rejects_https() {
    assert_eq!(
        parse_endpoint("https://host:443"),
        Err(EmbedError::TlsUnsupported("https://host:443".into()))
    );
}

#[test]
fn embed_rejects_https_without_network() {
    assert!(matches!(
        parse_endpoint("https://secure:443"),
        Err(EmbedError::TlsUnsupported(_))
    ));
}

#[test]
fn rejects_unknown_scheme_and_empty_host() {
    assert!(matches!(
        parse_endpoint("ftp://host"),
        Err(EmbedError::InvalidEndpoint(_))
    ));
    assert!(matches!(
        parse_endpoint("http://"),
        Err(EmbedError::InvalidEndpoint(_))
    ));
}

#[test]
fn build_request_is_well_formed_single() {
    let input = EmbedInput::Single("hello".into());
    let req = build_request("titan", 8081, "embeddinggemma", &input);
    let body = r#"{"model":"embeddinggemma","input":"hello"}"#;
    assert!(req.starts_with("POST /v1/embeddings HTTP/1.1\r\n"));
    assert!(req.contains("Host: titan:8081\r\n"));
    assert!(req.contains("Content-Type: application/json\r\n"));
    assert!(req.contains("Connection: close\r\n"));
    assert!(req.contains(&format!("Content-Length: {}\r\n", body.len())));
    assert!(req.ends_with(&format!("\r\n\r\n{body}")));
}

#[test]
fn build_request_host_header_omits_port_80() {
    let input = EmbedInput::Single("x".into());
    let req = build_request("localhost", 80, "m", &input);
    assert!(req.contains("Host: localhost\r\n"));
}

#[test]
fn build_request_accepts_safe_extra_headers() {
    let input = EmbedInput::Single("x".into());
    let req = build_request_with_headers(
        "localhost",
        80,
        "m",
        &input,
        &[("Authorization", "Bearer akr_test")],
    );
    assert!(req.contains("Authorization: Bearer akr_test\r\n"));
}

#[test]
fn build_request_skips_unsafe_extra_headers() {
    let input = EmbedInput::Single("x".into());
    let req = build_request_with_headers(
        "localhost",
        80,
        "m",
        &input,
        &[
            ("Bad\r\nName", "ok"),
            ("Authorization", "Bearer x\r\nBad: y"),
        ],
    );
    assert!(!req.contains("Bad"));
    assert!(!req.contains("Authorization"));
}

#[test]
fn build_request_batch_body() {
    let input = EmbedInput::Many(vec!["a".into(), "b".into()]);
    let req = build_request("h", 8080, "m", &input);
    let body = r#"{"model":"m","input":["a","b"]}"#;
    assert!(req.ends_with(&format!("\r\n\r\n{body}")));
    assert!(req.contains(&format!("Content-Length: {}\r\n", body.len())));
}

#[test]
fn content_length_counts_utf8_bytes() {
    let input = EmbedInput::Single("þú".into());
    let req = build_request("h", 80, "m", &input);
    let body = r#"{"model":"m","input":"þú"}"#;
    assert!(req.contains(&format!("Content-Length: {}\r\n", body.len())));
}

#[test]
fn bearer_token_is_trimmed_or_dropped() {
    let ep = Endpoint { host: "h".into(), port: 80 };
    let input = EmbedInput::Single("x".into());
    let with = request_with_bearer(&ep, "m", &input, "  tok ");
    assert!(with.contains("Authorization: Bearer tok\r\n"));
    let without = request_with_bearer(&ep, "m", &input, "   ");
    assert!(!without.contains("Authorization"));
}

#[test]
fn split_response_extracts_2xx_body() {
    let raw = "HTTP/1.1 200 OK\r\nContent-Type: application/json\r\n\r\n{\"data\":[]}";
    assert_eq!(split_response(raw).unwrap(), "{\"data\":[]}");
}

#[test]
fn split_response_accepts_lf_only_separator() {
    let raw = "HTTP/1.1 201 Created\nX: y\n\nBODY";
    assert_eq!(split_response(raw).unwrap(), "BODY");
}

#[test]
fn split_response_flags_non_2xx() {
    let raw = "HTTP/1.1 500 Internal Server Error\r\n\r\noops";
    assert_eq!(
        split_response(raw),
        Err(EmbedError::HttpStatus {
            code: 500,
            snippet: "oops".into()
        })
    );
}

#[test]
fn split_response_rejects_garbage() {
    assert_eq!(
        split_response("no separator here"),
        Err(EmbedError::ShortResponse)
    );
    assert_eq!(
        split_response("GARBAGE LINE\r\n\r\nbody"),
        Err(EmbedError::ShortResponse)
    );
}

#[test]
fn count_mismatch_is_reported() {
    let input = EmbedInput::Many(vec!["a".into(), "b".into()]);
    assert_eq!(check_embedding_count(&input, 2), Ok(()));
    assert_eq!(
        check_embedding_count(&input, 1),
        Err(EmbedError::CountMismatch { expected: 2, got: 1 })
    );
}

#[test]
fn error_messages_name_the_failure() {
    assert_eq!(EmbedError::Timeout.message(), "read timed out");
    assert_eq!(
        EmbedError::CountMismatch { expected: 3, got: 1 }.message(),
        "expected 3 embeddings, got 1"
    );
    assert_eq!(
        EmbedError::HttpStatus { code: 503, snippet: "busy".into() }.message(),
        "embedding endpoint returned HTTP 503: busy"
    );
}
