use api_studio::server::{error, invalid_token, invoke_status, secure_headers, token_text, valid_token, validate_host_origin};

#[test]
fn only_expected_loopback_authority_and_origin_are_accepted() {
    assert!(validate_host_origin(Some("127.0.0.1:8180"), None, "127.0.0.1:8180").is_ok());
    assert!(validate_host_origin(Some("127.0.0.1:8180"), Some(Some("http://127.0.0.1:8180")), "127.0.0.1:8180").is_ok());
    assert!(validate_host_origin(Some("127.0.0.1:8180"), Some(Some("https://evil.example")), "127.0.0.1:8180").is_err());
    assert!(validate_host_origin(Some("evil.example"), None, "127.0.0.1:8180").is_err());
}

#[test]
fn invoke_requires_header_token() {
    assert!(!valid_token(None, "secret"));
    assert!(!valid_token(Some("wrong"), "secret"));
    assert!(valid_token(Some("secret"), "secret"));
}

#[test]
fn security_headers_apply_to_rejected_requests() {
    let response = error(403, "invalid_host", "Wrong host");
    assert_eq!(response.status, 403);
    assert_eq!(response.error.code, "invalid_host");
    let headers = secure_headers();
    let find = |name: &str| headers.iter().find(|(n, _)| *n == name).map(|(_, v)| *v).unwrap();
    assert_eq!(find("cache-control"), "no-store");
    assert_eq!(find("x-frame-options"), "DENY");
    assert!(find("content-security-policy").contains("frame-ancestors 'none'"));
}

#[test]
fn refusals_name_the_header_that_failed() {
    let host = validate_host_origin(None, None, "127.0.0.1:8180").unwrap_err();
    assert_eq!(host.status, 403);
    assert_eq!(host.error.code, "invalid_host");
    assert_eq!(host.error.message, "This service accepts only its loopback address.");
    assert!(!host.error.recoverable);
    let origin = validate_host_origin(Some("127.0.0.1:8180"), Some(None), "127.0.0.1:8180").unwrap_err();
    assert_eq!(origin.error.code, "invalid_origin");
    let token = invalid_token();
    assert_eq!(token.status, 401);
    assert_eq!(token.error.code, "invalid_token");
}

#[test]
fn failed_commands_map_to_statuses() {
    assert_eq!(invoke_status("unknown_command"), 404);
    assert_eq!(invoke_status("invalid_arguments"), 400);
    assert_eq!(invoke_status("storage_error"), 422);
}

#[test]
fn session_tokens_are_64_hex_digits() {
    let bytes: Vec<u8> = (0u8..32).collect();
    let token = token_text(&bytes);
    assert_eq!(token.len(), 64);
    assert_eq!(&token[..8], "00010203");
    assert!(token.chars().all(|c| c.is_ascii_hexdigit()));
}
