use ledger_auth::base64url::{b64_decode, b64_encode};
use ledger_auth::claims::{claims_json_bytes, parse_claims_bytes, Claims, TokenKind};
use ledger_auth::errors::AuthError;
use ledger_auth::gate::{authorize, extract_bearer};
use ledger_auth::jwt::JwtService;

fn b64(input: &[u8]) -> String {
    String::from_utf8(b64_encode(&input.to_vec())).unwrap()
}

#[test]
fn base64url_known_values() {
    assert_eq!(b64(b""), "");
    assert_eq!(b64(&[0]), "AA");
    assert_eq!(b64(b"Man"), "TWFu");
    assert_eq!(b64(b"Ma"), "TWE");
    assert_eq!(b64(b"M"), "TQ");
    assert_eq!(b64(b"hello world"), "aGVsbG8gd29ybGQ");
    // the url-safe alphabet, not the standard one
    assert_eq!(b64(&[251, 239]), "--8");
    assert_eq!(b64(&[255, 255, 255]), "____");
}

#[test]
fn base64url_round_trip() {
    let cases: Vec<Vec<u8>> = vec![
        vec![],
        vec![0],
        vec![255],
        vec![1, 2, 3],
        vec![1, 2, 3, 4],
        vec![1, 2, 3, 4, 5],
        (0u8..=255).collect(),
    ];
    for bytes in cases {
        let enc = b64_encode(&bytes);
        let dec = b64_decode(&enc).expect("canonical encoding must decode");
        assert_eq!(dec, bytes);
    }
}

#[test]
fn base64url_strict_decoding() {
    // impossible length
    assert!(b64_decode(&b"A".to_vec()).is_none());
    assert!(b64_decode(&b"AAAAA".to_vec()).is_none());
    // character outside the alphabet
    assert!(b64_decode(&b"A+".to_vec()).is_none());
    assert!(b64_decode(&b"A/AA".to_vec()).is_none());
    assert!(b64_decode(&b"AA==".to_vec()).is_none());
    // non-canonical trailing bits
    assert!(b64_decode(&b"AB".to_vec()).is_none());
    assert!(b64_decode(&b"AAB".to_vec()).is_none());
    assert!(b64_decode(&b"TWE".to_vec()).is_some());
}

#[test]
fn claims_json_exact_bytes() {
    let c = Claims { user_id: -5, email: "a@x.com".to_string(), exp: 42, kind: TokenKind::Access };
    let bytes = claims_json_bytes(&c).unwrap();
    assert_eq!(
        String::from_utf8(bytes).unwrap(),
        r#"{"user_id":-5,"email":"a@x.com","exp":42,"kind":"access"}"#
    );
}

#[test]
fn claims_json_round_trip() {
    let c = Claims {
        user_id: 9007199254740993,
        email: "someone@example.org".to_string(),
        exp: 1893456000,
        kind: TokenKind::Refresh,
    };
    let bytes = claims_json_bytes(&c).unwrap();
    let back = parse_claims_bytes(&bytes).unwrap();
    assert_eq!(back.user_id, 9007199254740993);
    assert_eq!(back.email, "someone@example.org");
    assert_eq!(back.exp, 1893456000);
    assert_eq!(back.kind, TokenKind::Refresh);
}

#[test]
fn claims_json_rejects_unescapable_email() {
    let c = Claims {
        user_id: 1,
        email: "a\"b@x.com".to_string(),
        exp: 1,
        kind: TokenKind::Access,
    };
    assert!(claims_json_bytes(&c).is_none());
    let c2 = Claims { user_id: 1, email: "π@x.com".to_string(), exp: 1, kind: TokenKind::Access };
    assert!(claims_json_bytes(&c2).is_none());
}

#[test]
fn claims_parser_is_strict() {
    let ok = br#"{"user_id":7,"email":"a@x.com","exp":42,"kind":"access"}"#.to_vec();
    assert!(parse_claims_bytes(&ok).is_some());
    // leading zero in a number
    let bad1 = br#"{"user_id":07,"email":"a@x.com","exp":42,"kind":"access"}"#.to_vec();
    assert!(parse_claims_bytes(&bad1).is_none());
    // negative zero
    let bad2 = br#"{"user_id":-0,"email":"a@x.com","exp":42,"kind":"access"}"#.to_vec();
    assert!(parse_claims_bytes(&bad2).is_none());
    // trailing content
    let bad3 = br#"{"user_id":7,"email":"a@x.com","exp":42,"kind":"access"} "#.to_vec();
    assert!(parse_claims_bytes(&bad3).is_none());
    // reordered keys
    let bad4 = br#"{"email":"a@x.com","user_id":7,"exp":42,"kind":"access"}"#.to_vec();
    assert!(parse_claims_bytes(&bad4).is_none());
    // a kind outside the two issued ones
    let bad5 = br#"{"user_id":7,"email":"a@x.com","exp":42,"kind":"session"}"#.to_vec();
    assert!(parse_claims_bytes(&bad5).is_none());
    // missing kind
    let bad6 = br#"{"user_id":7,"email":"a@x.com","exp":42}"#.to_vec();
    assert!(parse_claims_bytes(&bad6).is_none());
}

#[test]
fn token_round_trip_before_expiry() {
    let jwt = JwtService::new("test-secret");
    let token = jwt.generate_access_token_at(7, "a@x.com", 1000).unwrap();
    let claims = jwt.verify_token_at(&token, 1000).unwrap();
    assert_eq!(claims.user_id, 7);
    assert_eq!(claims.email, "a@x.com");
    assert_eq!(claims.exp, 1900);
    assert_eq!(claims.kind, TokenKind::Access);
    let claims2 = jwt.verify_token_at(&token, 1899).unwrap();
    assert_eq!(claims2.user_id, 7);
}

#[test]
fn token_rejected_at_and_after_expiry() {
    let jwt = JwtService::new("test-secret");
    let token = jwt.generate_access_token_at(7, "a@x.com", 1000).unwrap();
    assert_eq!(jwt.verify_token_at(&token, 1900).unwrap_err(), AuthError::InvalidToken);
    assert_eq!(jwt.verify_token_at(&token, 5000).unwrap_err(), AuthError::InvalidToken);
}

#[test]
fn refresh_token_expiry_window() {
    let jwt = JwtService::new("test-secret");
    let token = jwt.generate_refresh_token_at(7, "a@x.com", 1000).unwrap();
    let claims = jwt.verify_token_at(&token, 1000).unwrap();
    assert_eq!(claims.exp, 604800 + 1000);
    assert_eq!(claims.kind, TokenKind::Refresh);
    assert!(jwt.verify_token_at(&token, 604800 + 999).is_ok());
    assert_eq!(jwt.verify_token_at(&token, 604800 + 1000).unwrap_err(), AuthError::InvalidToken);
}

#[test]
fn token_structure_is_standard() {
    let jwt = JwtService::new("test-secret");
    let token = jwt.generate_access_token_at(7, "a@x.com", 1000).unwrap();
    let parts: Vec<&str> = token.split('.').collect();
    assert_eq!(parts.len(), 3);
    // the header is the base64url of {"alg":"HS256","typ":"JWT"}
    assert_eq!(parts[0], "eyJhbGciOiJIUzI1NiIsInR5cCI6IkpXVCJ9");
    let payload = b64_decode(&parts[1].as_bytes().to_vec()).unwrap();
    assert_eq!(
        String::from_utf8(payload).unwrap(),
        r#"{"user_id":7,"email":"a@x.com","exp":1900,"kind":"access"}"#
    );
}

#[test]
fn signature_agrees_with_jsonwebtoken() {
    // the signature segment must be what jsonwebtoken computes over the
    // first two segments: a token our service issues verifies under the
    // crate's own HS256 check, and fails once tampered with
    let jwt = JwtService::new("test-secret");
    let token = jwt.generate_access_token_at(7, "a@x.com", 1000).unwrap();
    let dot = token.rfind('.').unwrap();
    let (message, sig) = token.split_at(dot);
    let sig = &sig[1..];
    let key = jsonwebtoken::DecodingKey::from_secret(b"test-secret");
    let ok = jsonwebtoken::crypto::verify(
        sig,
        message.as_bytes(),
        &key,
        jsonwebtoken::Algorithm::HS256,
    )
    .unwrap();
    assert!(ok);
    let other_key = jsonwebtoken::DecodingKey::from_secret(b"other-secret");
    let cross = jsonwebtoken::crypto::verify(
        sig,
        message.as_bytes(),
        &other_key,
        jsonwebtoken::Algorithm::HS256,
    )
    .unwrap();
    assert!(!cross);
}

#[test]
fn tampering_any_signature_character_fails() {
    let jwt = JwtService::new("test-secret");
    let token = jwt.generate_access_token_at(7, "a@x.com", 1000).unwrap();
    assert!(jwt.verify_token_at(&token, 1000).is_ok());
    let dot = token.rfind('.').unwrap();
    let chars: Vec<char> = token.chars().collect();
    for i in (dot + 1)..chars.len() {
        let mut tampered = chars.clone();
        tampered[i] = if tampered[i] == 'A' { 'B' } else { 'A' };
        let tampered: String = tampered.into_iter().collect();
        if tampered == token {
            continue;
        }
        assert_eq!(
            jwt.verify_token_at(&tampered, 1000).unwrap_err(),
            AuthError::InvalidToken,
            "a tampered signature must be rejected"
        );
    }
}

#[test]
fn tampering_payload_fails() {
    let jwt = JwtService::new("test-secret");
    let token = jwt.generate_access_token_at(7, "a@x.com", 1000).unwrap();
    let parts: Vec<&str> = token.split('.').collect();
    let other = jwt.generate_access_token_at(8, "a@x.com", 1000).unwrap();
    let other_parts: Vec<&str> = other.split('.').collect();
    // a payload carried under another payload's signature must be refused
    let forged = format!("{}.{}.{}", parts[0], other_parts[1], parts[2]);
    assert_eq!(jwt.verify_token_at(&forged, 1000).unwrap_err(), AuthError::InvalidToken);
}

#[test]
fn verify_rejects_garbage() {
    let jwt = JwtService::new("test-secret");
    for bad in ["", ".", "..", "a.b", "a.b.c", "not a token", "a.b.c.d", "π.π.π"] {
        assert_eq!(jwt.verify_token_at(bad, 0).unwrap_err(), AuthError::InvalidToken);
    }
}

#[test]
fn verify_needs_the_right_secret() {
    let jwt = JwtService::new("test-secret");
    let other = JwtService::new("another-secret");
    let token = jwt.generate_access_token_at(7, "a@x.com", 1000).unwrap();
    assert!(jwt.verify_token_at(&token, 1000).is_ok());
    assert_eq!(other.verify_token_at(&token, 1000).unwrap_err(), AuthError::InvalidToken);
}

#[test]
fn issuance_refuses_unrepresentable_inputs() {
    let jwt = JwtService::new("test-secret");
    assert_eq!(
        jwt.generate_access_token_at(7, "π@x.com", 1000),
        Err(AuthError::TokenEncoding)
    );
    assert_eq!(
        jwt.generate_access_token_at(7, "a@x.com", -1),
        Err(AuthError::TokenEncoding)
    );
    assert_eq!(
        jwt.generate_access_token_at(7, "a@x.com", i64::MAX),
        Err(AuthError::TokenEncoding)
    );
}

#[test]
fn bearer_extraction() {
    assert_eq!(extract_bearer(None), Err(AuthError::MissingAuth));
    assert_eq!(extract_bearer(Some("Token abc")), Err(AuthError::MalformedAuth));
    assert_eq!(extract_bearer(Some("bearer abc")), Err(AuthError::MalformedAuth));
    assert_eq!(extract_bearer(Some("Bearer")), Err(AuthError::MalformedAuth));
    assert_eq!(extract_bearer(Some("Bearer abc")), Ok("abc"));
    assert_eq!(extract_bearer(Some("Bearer ")), Ok(""));
}

#[test]
fn gate_authorizes_valid_bearer() {
    let jwt = JwtService::new("test-secret");
    let far_future = 4_000_000_000i64;
    let token = jwt.generate_access_token_at(7, "a@x.com", far_future).unwrap();
    let header = format!("Bearer {}", token);
    assert_eq!(authorize(&jwt, Some(&header)), Ok(7));
    assert_eq!(authorize(&jwt, None), Err(AuthError::MissingAuth));
    assert_eq!(authorize(&jwt, Some(&token)), Err(AuthError::MalformedAuth));
    let header_bad = format!("Bearer x{}", token);
    assert_eq!(authorize(&jwt, Some(&header_bad)), Err(AuthError::InvalidToken));
}
