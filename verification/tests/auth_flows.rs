use ledger_auth::directory::{MemoryUserRepository, UserRepository};
use ledger_auth::errors::AuthError;
use ledger_auth::jwt::JwtService;
use ledger_auth::password::{hash_password, verify_password};
use ledger_auth::schemas::{LoginRequest, SignupRequest, UserResponse};
use ledger_auth::service::AuthService;
use ledger_auth::user::User;

fn service() -> AuthService<MemoryUserRepository> {
    AuthService::new(MemoryUserRepository::new(), JwtService::new("test-secret"))
}

#[test]
fn hash_then_verify_succeeds() {
    for pwd in ["longpassword1", "", "π unicode ∞", "short"] {
        let h = hash_password(pwd).unwrap();
        assert_eq!(verify_password(pwd, &h), Ok(true));
    }
}

#[test]
fn verify_rejects_other_passwords() {
    let h = hash_password("longpassword1").unwrap();
    for wrong in ["longpassword2", "Longpassword1", "longpassword1 ", "", "x"] {
        assert_eq!(verify_password(wrong, &h), Ok(false));
    }
}

#[test]
fn hashes_are_salted() {
    let h1 = hash_password("longpassword1").unwrap();
    let h2 = hash_password("longpassword1").unwrap();
    assert_ne!(h1, h2, "two hashes of one password must differ by their salts");
    assert_eq!(verify_password("longpassword1", &h1), Ok(true));
    assert_eq!(verify_password("longpassword1", &h2), Ok(true));
}

#[test]
fn stored_hash_shape() {
    let h = hash_password("longpassword1").unwrap();
    let bytes = h.as_bytes();
    assert!(bytes.len() > 33);
    assert!(bytes[..32]
        .iter()
        .all(|b| (b'0'..=b'9').contains(b) || (b'a'..=b'f').contains(b)));
    assert_eq!(bytes[32], b'$');
}

#[test]
fn malformed_stored_hash_is_an_error() {
    for bad in ["", "short", "no-dollar-separator-here-just-32-chars-or-more", "ZZZZZZZZZZZZZZZZZZZZZZZZZZZZZZZZ$mac", "0123456789abcdef0123456789abcdef:mac"] {
        assert_eq!(
            verify_password("whatever", bad),
            Err(AuthError::HashingError),
            "hash {:?} must be refused as malformed",
            bad
        );
    }
}

#[test]
fn signup_duplicate_email_creates_no_record() {
    let mut svc = service();
    svc.signup(
        "a@x.com".to_string(),
        "longpassword1".to_string(),
        "Al".to_string(),
        None,
    )
    .unwrap();
    assert_eq!(svc.user_count(), 1);
    let err = svc
        .signup(
            "a@x.com".to_string(),
            "anotherpassword".to_string(),
            "Bo".to_string(),
            None,
        )
        .unwrap_err();
    assert_eq!(err, AuthError::DuplicateEmail);
    assert_eq!(svc.user_count(), 1, "a refused signup must not create a record");
}

#[test]
fn login_failures_are_indistinguishable() {
    let mut svc = service();
    svc.signup(
        "a@x.com".to_string(),
        "longpassword1".to_string(),
        "Al".to_string(),
        None,
    )
    .unwrap();
    let wrong_password = svc
        .login("a@x.com".to_string(), "wrongpass".to_string())
        .unwrap_err();
    let unknown_email = svc
        .login("nobody@x.com".to_string(), "longpassword1".to_string())
        .unwrap_err();
    assert_eq!(wrong_password, AuthError::InvalidCredentials);
    assert_eq!(unknown_email, AuthError::InvalidCredentials);
    assert_eq!(wrong_password, unknown_email, "the two failures must be one kind");
    assert_eq!(
        wrong_password.message(),
        unknown_email.message(),
        "the two failures must carry one message"
    );
}

#[test]
fn signup_login_refresh_scenario() {
    let mut svc = service();
    let (user, access, refresh) = svc
        .signup(
            "a@x.com".to_string(),
            "longpassword1".to_string(),
            "Al".to_string(),
            None,
        )
        .unwrap();
    let id = user.id;
    assert!(id >= 1);
    assert_eq!(user.email, "a@x.com");
    assert_eq!(user.nickname, "Al");
    assert!(!access.is_empty() && !refresh.is_empty());
    assert_ne!(access, refresh);

    let (user2, access2, _refresh2) = svc
        .login("a@x.com".to_string(), "longpassword1".to_string())
        .unwrap();
    assert_eq!(user2.id, id, "login must find the user signup created");
    assert!(!access2.is_empty());

    assert_eq!(
        svc.login("a@x.com".to_string(), "wrongpass".to_string()).unwrap_err(),
        AuthError::InvalidCredentials
    );

    let new_access = svc.refresh_token(refresh.clone()).unwrap();
    // stateless verification: any service holding the secret can read the
    // new token's claims
    let checker = JwtService::new("test-secret");
    let claims = checker.verify_token(&new_access).unwrap();
    assert_eq!(claims.user_id, id);
    assert_eq!(claims.email, "a@x.com");
}

#[test]
fn refresh_requires_a_refresh_token() {
    // a valid short-lived access token must not drive the refresh flow
    let mut svc = service();
    let (_, access, refresh) = svc
        .signup(
            "a@x.com".to_string(),
            "longpassword1".to_string(),
            "Al".to_string(),
            None,
        )
        .unwrap();
    assert_eq!(svc.refresh_token(access), Err(AuthError::InvalidToken));
    assert!(svc.refresh_token(refresh).is_ok());
}

#[test]
fn refresh_rejects_bad_tokens() {
    let svc = service();
    assert_eq!(
        svc.refresh_token("not.a.token".to_string()),
        Err(AuthError::InvalidToken)
    );
}

#[test]
fn refresh_of_deleted_user_fails() {
    // a token can outlive its user: the refresh flow must then refuse it
    let mut svc = service();
    let (_, _, refresh) = svc
        .signup(
            "a@x.com".to_string(),
            "longpassword1".to_string(),
            "Al".to_string(),
            None,
        )
        .unwrap();
    let empty = service();
    assert_eq!(empty.refresh_token(refresh), Err(AuthError::UserNotFound));
}

#[test]
fn store_assigns_distinct_ids() {
    let mut svc = service();
    let (u1, _, _) = svc
        .signup("a@x.com".to_string(), "longpassword1".to_string(), "Al".to_string(), None)
        .unwrap();
    let (u2, _, _) = svc
        .signup("b@x.com".to_string(), "longpassword2".to_string(), "Bo".to_string(), None)
        .unwrap();
    assert_ne!(u1.id, u2.id);
    assert_eq!(svc.user_count(), 2);
}

#[test]
fn repository_operations() {
    let mut repo = MemoryUserRepository::new();
    let template = User {
        id: 0,
        email: "a@x.com".to_string(),
        password_hash: "h".to_string(),
        nickname: "Al".to_string(),
        avatar_url: None,
        group_id: None,
        default_currency: Some("KRW".to_string()),
        created_at: 0,
    };
    let created = repo.create(&template).unwrap();
    assert_eq!(created.email, "a@x.com");
    assert!(created.id >= 1);
    assert_eq!(repo.count(), 1);

    let dup = repo.create(&template).unwrap_err();
    assert_eq!(dup, AuthError::DuplicateEmail);
    assert_eq!(repo.count(), 1);

    let by_email = repo.find_by_email("a@x.com").unwrap();
    assert_eq!(by_email.id, created.id);
    assert!(repo.find_by_email("b@x.com").is_none());

    let by_id = repo.find_by_id(created.id).unwrap();
    assert_eq!(by_id.email, "a@x.com");
    assert!(repo.find_by_id(created.id + 1).is_none());

    let mut renamed = by_id;
    renamed.nickname = "Alfred".to_string();
    let updated = repo.update(&renamed).unwrap();
    assert_eq!(updated.nickname, "Alfred");
    assert_eq!(repo.find_by_id(created.id).unwrap().nickname, "Alfred");

    let mut ghost_user = renamed.clone();
    ghost_user.id = created.id + 7;
    assert_eq!(repo.update(&ghost_user).unwrap_err(), AuthError::UserNotFound);
}

#[test]
fn request_validation() {
    let good = SignupRequest {
        email: "a@x.com".to_string(),
        password: "longpassword1".to_string(),
        nickname: "Al".to_string(),
        invite_code: None,
    };
    assert!(good.validate().is_ok());

    let bad_email = SignupRequest { email: "ax.com".to_string(), ..clone_signup(&good) };
    assert!(bad_email.validate().is_err());
    let at_at_end = SignupRequest { email: "ax.com@".to_string(), ..clone_signup(&good) };
    assert!(at_at_end.validate().is_err());
    let short_password = SignupRequest { password: "short".to_string(), ..clone_signup(&good) };
    assert!(short_password.validate().is_err());
    let empty_nickname = SignupRequest { nickname: "".to_string(), ..clone_signup(&good) };
    assert!(empty_nickname.validate().is_err());
    let long_nickname =
        SignupRequest { nickname: "x".repeat(61), ..clone_signup(&good) };
    assert!(long_nickname.validate().is_err());

    let login_ok = LoginRequest { email: "a@x.com".to_string(), password: "p".to_string() };
    assert!(login_ok.validate().is_ok());
    let login_empty = LoginRequest { email: "a@x.com".to_string(), password: "".to_string() };
    assert!(login_empty.validate().is_err());
}

fn clone_signup(r: &SignupRequest) -> SignupRequest {
    SignupRequest {
        email: r.email.clone(),
        password: r.password.clone(),
        nickname: r.nickname.clone(),
        invite_code: r.invite_code.clone(),
    }
}

#[test]
fn user_response_hides_credentials() {
    let user = User {
        id: 3,
        email: "a@x.com".to_string(),
        password_hash: "secret-hash".to_string(),
        nickname: "Al".to_string(),
        avatar_url: Some("http://example.org/a.png".to_string()),
        group_id: Some(9),
        default_currency: Some("KRW".to_string()),
        created_at: 1000,
    };
    let resp = UserResponse::from(user);
    assert_eq!(resp.id, 3);
    assert_eq!(resp.email, "a@x.com");
    assert_eq!(resp.nickname, "Al");
    assert_eq!(resp.avatar_url.as_deref(), Some("http://example.org/a.png"));
    assert_eq!(resp.group_id, Some(9));
    assert_eq!(resp.default_currency.as_deref(), Some("KRW"));
}
