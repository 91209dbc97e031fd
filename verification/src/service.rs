//! The signup, login and refresh flows.
//!
//! The orchestrator coordinates the user-record store, the credential
//! hasher and the token service.  Signup refuses a registered email and
//! otherwise creates exactly one record; login answers "unknown email" and
//! "wrong password" with one and the same error; refresh re-issues an
//! access token for the user a valid refresh token names.

use vstd::prelude::*;

use crate::claims::{ClaimsV, TokenKind, email_encodable};
use crate::directory::{UserRepository, repo_inv};
use crate::errors::AuthError;
use crate::jwt::{
    JwtService, current_timestamp, issued_token, token_issued_with_ttl, spec_verify_token,
    verifies_to, ACCESS_TOKEN_TTL_SECS, REFRESH_TOKEN_TTL_SECS,
};
use crate::password::{hash_password, verify_password, password_matches, hash_wf};
use crate::user::{User, UserV};

verus! {

use vstd::string::StrSliceExecFns;

/// Whether some record holds this email.
pub open spec fn email_registered(rs: Seq<UserV>, email: Seq<char>) -> bool {
    exists|i: int| 0 <= i < rs.len() && #[trigger] rs[i].email == email
}

/// Whether this exact record is in the store.
pub open spec fn has_record(rs: Seq<UserV>, u: UserV) -> bool {
    exists|i: int| 0 <= i < rs.len() && #[trigger] rs[i] == u
}

/// Coordinates a user-record store, the credential hasher and a token
/// service through the signup, login and refresh flows.
pub struct AuthService<R: UserRepository> {
    user_repo: R,
    jwt_service: JwtService,
}

impl<R: UserRepository> AuthService<R> {
    /// The records of the underlying store.
    pub closed spec fn records(&self) -> Seq<UserV> {
        self.user_repo.records()
    }

    /// The signing secret of the underlying token service.
    pub closed spec fn secret(&self) -> Seq<u8> {
        self.jwt_service@
    }

    /// The service is usable when its store is intact.
    pub open spec fn wf(&self) -> bool {
        repo_inv(self.records())
    }

    /// A service over the given store and token service.
    pub fn new(user_repo: R, jwt_service: JwtService) -> (s: Self)
        ensures
            s.records() == user_repo.records(),
            s.secret() == jwt_service@,
    {
        AuthService { user_repo, jwt_service }
    }

    /// How many records the store holds.
    pub fn user_count(&self) -> (r: usize)
        ensures
            r as int == self.records().len(),
    {
        self.user_repo.count()
    }

    /// Signs a new user up: refuses a registered email and otherwise
    /// hashes the password, creates one record, and issues an access and
    /// a refresh token for the new identity.
    #[verifier::rlimit(50)]
    pub fn signup(
        &mut self,
        email: String,
        password: String,
        nickname: String,
        invite_code: Option<String>,
    ) -> (r: Result<(User, String, String), AuthError>)
        requires
            old(self).wf(),
        ensures
            final(self).wf(),
            final(self).secret() == old(self).secret(),
            email_registered(old(self).records(), email@) ==> r == Err::<
                (User, String, String),
                AuthError,
            >(AuthError::DuplicateEmail) && final(self).records() == old(self).records(),
            r == Err::<(User, String, String), AuthError>(AuthError::DuplicateEmail)
                ==> email_registered(old(self).records(), email@),
            r is Err ==> final(self).records() == old(self).records(),
            r matches Ok(t) ==> {
                &&& !email_registered(old(self).records(), email@)
                &&& final(self).records() == old(self).records().push(t.0@)
                &&& t.0@.email == email@
                &&& t.0@.nickname == nickname@
                &&& password_matches(vstd::utf8::encode_utf8(password@), t.0@.password_hash)
                &&& token_issued_with_ttl(
                    t.1@,
                    t.0@.id,
                    email@,
                    ACCESS_TOKEN_TTL_SECS as int,
                    TokenKind::Access,
                    old(self).secret(),
                )
                &&& token_issued_with_ttl(
                    t.2@,
                    t.0@.id,
                    email@,
                    REFRESH_TOKEN_TTL_SECS as int,
                    TokenKind::Refresh,
                    old(self).secret(),
                )
            },
    {
        // joining a group by invite code is outside the auth core
        let _ = invite_code;
        let ghost email_v = email@;
        match self.user_repo.find_by_email(email.as_str()) {
            Some(existing) => {
                proof {
                    assert(self.records()[choose|i: int|
                        0 <= i < self.records().len() && #[trigger] self.records()[i]
                            == existing@].email == email_v);
                    assert(email_registered(self.records(), email_v));
                }
                return Err(AuthError::DuplicateEmail);
            },
            None => {},
        }
        let password_hash = match hash_password(password.as_str()) {
            Ok(h) => h,
            Err(_) => {
                return Err(AuthError::HashingError);
            },
        };
        if !email_encodable(email.as_str()) {
            return Err(AuthError::TokenEncoding);
        }
        let now = current_timestamp();
        if now < 0 || now > i64::MAX - REFRESH_TOKEN_TTL_SECS {
            return Err(AuthError::TokenEncoding);
        }
        let exp_r = now + REFRESH_TOKEN_TTL_SECS;
        if (exp_r as u64) > usize::MAX as u64 {
            return Err(AuthError::TokenEncoding);
        }
        let user = User {
            id: 0,
            email: email.clone(),
            password_hash,
            nickname: nickname.clone(),
            avatar_url: None,
            group_id: None,
            default_currency: Some("KRW".to_owned()),
            created_at: now,
        };
        let created = match self.user_repo.create(&user) {
            Ok(u) => u,
            Err(e) => {
                return Err(e);
            },
        };
        let access_token = match self.jwt_service.generate_access_token_at(
            created.id,
            created.email.as_str(),
            now,
        ) {
            Ok(t) => t,
            Err(_) => {
                proof {
                    assert(false);
                }
                return Err(AuthError::TokenEncoding);
            },
        };
        let refresh_token = match self.jwt_service.generate_refresh_token_at(
            created.id,
            created.email.as_str(),
            now,
        ) {
            Ok(t) => t,
            Err(_) => {
                proof {
                    assert(false);
                }
                return Err(AuthError::TokenEncoding);
            },
        };
        proof {
            assert(issued_token(
                access_token@,
                created@.id,
                email_v,
                now as int + ACCESS_TOKEN_TTL_SECS as int,
                TokenKind::Access,
                old(self).secret(),
            ));
            assert(issued_token(
                refresh_token@,
                created@.id,
                email_v,
                now as int + REFRESH_TOKEN_TTL_SECS as int,
                TokenKind::Refresh,
                old(self).secret(),
            ));
            assert(token_issued_with_ttl(
                access_token@,
                created@.id,
                email_v,
                ACCESS_TOKEN_TTL_SECS as int,
                TokenKind::Access,
                old(self).secret(),
            )) by {
                reveal(token_issued_with_ttl);
            }
            assert(token_issued_with_ttl(
                refresh_token@,
                created@.id,
                email_v,
                REFRESH_TOKEN_TTL_SECS as int,
                TokenKind::Refresh,
                old(self).secret(),
            )) by {
                reveal(token_issued_with_ttl);
            }
        }
        Ok((created, access_token, refresh_token))
    }

    /// Logs a user in.  Unknown email and wrong password fail with the
    /// one same error; a structurally broken stored hash surfaces as
    /// `HashingError`; a correct password yields the user's record and a
    /// fresh access and refresh token.
    pub fn login(&self, email: String, password: String) -> (r: Result<
        (User, String, String),
        AuthError,
    >)
        requires
            self.wf(),
        ensures
            !email_registered(self.records(), email@) ==> r == Err::<
                (User, String, String),
                AuthError,
            >(AuthError::InvalidCredentials),
            forall|i: int|
                (0 <= i < self.records().len() && #[trigger] self.records()[i].email == email@
                    && hash_wf(self.records()[i].password_hash) && !password_matches(
                    vstd::utf8::encode_utf8(password@),
                    self.records()[i].password_hash,
                )) ==> r == Err::<(User, String, String), AuthError>(AuthError::InvalidCredentials),
            forall|i: int|
                (0 <= i < self.records().len() && #[trigger] self.records()[i].email == email@
                    && !hash_wf(self.records()[i].password_hash)) ==> r == Err::<
                    (User, String, String),
                    AuthError,
                >(AuthError::HashingError),
            r matches Ok(t) ==> {
                &&& has_record(self.records(), t.0@)
                &&& t.0@.email == email@
                &&& password_matches(vstd::utf8::encode_utf8(password@), t.0@.password_hash)
                &&& token_issued_with_ttl(
                    t.1@,
                    t.0@.id,
                    t.0@.email,
                    ACCESS_TOKEN_TTL_SECS as int,
                    TokenKind::Access,
                    self.secret(),
                )
                &&& token_issued_with_ttl(
                    t.2@,
                    t.0@.id,
                    t.0@.email,
                    REFRESH_TOKEN_TTL_SECS as int,
                    TokenKind::Refresh,
                    self.secret(),
                )
            },
            r is Err ==> (r == Err::<(User, String, String), AuthError>(
                AuthError::InvalidCredentials,
            ) || r == Err::<(User, String, String), AuthError>(AuthError::HashingError) || r
                == Err::<(User, String, String), AuthError>(AuthError::TokenEncoding)),
            // success is owed to a correct password: only the clock can
            // still stand in the way of issuing the tokens
            forall|i: int|
                (0 <= i < self.records().len() && #[trigger] self.records()[i].email == email@
                    && password_matches(
                    vstd::utf8::encode_utf8(password@),
                    self.records()[i].password_hash,
                )) ==> (r is Ok || r == Err::<(User, String, String), AuthError>(
                    AuthError::TokenEncoding,
                )),
    {
        let user = match self.user_repo.find_by_email(email.as_str()) {
            Some(u) => u,
            None => {
                return Err(AuthError::InvalidCredentials);
            },
        };
        proof {
            // the store's email uniqueness pins every record with this
            // email to the one the lookup returned
            assert forall|i: int|
                0 <= i < self.records().len() && #[trigger] self.records()[i].email
                    == email@ implies self.records()[i] == user@ by {
                let k = choose|k: int|
                    0 <= k < self.records().len() && #[trigger] self.records()[k] == user@;
                if i != k {
                    assert(self.records()[i].email != self.records()[k].email);
                }
            }
        }
        let matched = match verify_password(password.as_str(), user.password_hash.as_str()) {
            Ok(b) => b,
            Err(_) => {
                return Err(AuthError::HashingError);
            },
        };
        if !matched {
            return Err(AuthError::InvalidCredentials);
        }
        let access_token = match self.jwt_service.generate_access_token(
            user.id,
            user.email.as_str(),
        ) {
            Ok(t) => t,
            Err(_) => {
                return Err(AuthError::TokenEncoding);
            },
        };
        let refresh_token = match self.jwt_service.generate_refresh_token(
            user.id,
            user.email.as_str(),
        ) {
            Ok(t) => t,
            Err(_) => {
                return Err(AuthError::TokenEncoding);
            },
        };
        proof {
            assert(token_issued_with_ttl(
                access_token@,
                user@.id,
                user@.email,
                ACCESS_TOKEN_TTL_SECS as int,
                TokenKind::Access,
                self.secret(),
            ));
            assert(token_issued_with_ttl(
                refresh_token@,
                user@.id,
                user@.email,
                REFRESH_TOKEN_TTL_SECS as int,
                TokenKind::Refresh,
                self.secret(),
            ));
        }
        Ok((user, access_token, refresh_token))
    }

    /// Exchanges a valid refresh token for a fresh access token, provided
    /// the user the token names still exists.
    pub fn refresh_token(&self, refresh_token: String) -> (r: Result<String, AuthError>)
        requires
            self.wf(),
        ensures
            (forall|now: int|
                spec_verify_token(
                    vstd::utf8::encode_utf8(refresh_token@),
                    self.secret(),
                    now,
                ) is None) ==> r == Err::<String, AuthError>(AuthError::InvalidToken),
            r == Err::<String, AuthError>(AuthError::UserNotFound) ==> exists|c: ClaimsV|
                #[trigger] verifies_to(refresh_token@, self.secret(), c) && (forall|i: int|
                    0 <= i < self.records().len() ==> #[trigger] self.records()[i].id
                        != c.user_id),
            r matches Ok(at) ==> exists|u: UserV, c: ClaimsV|
                #![trigger token_issued_with_ttl(at@, u.id, u.email, ACCESS_TOKEN_TTL_SECS as int, TokenKind::Access, self.secret()), verifies_to(refresh_token@, self.secret(), c)]
                {
                    &&& verifies_to(refresh_token@, self.secret(), c)
                    &&& c.kind == TokenKind::Refresh
                    &&& has_record(self.records(), u)
                    &&& u.id == c.user_id
                    &&& token_issued_with_ttl(
                        at@,
                        u.id,
                        u.email,
                        ACCESS_TOKEN_TTL_SECS as int,
                        TokenKind::Access,
                        self.secret(),
                    )
                },
            r is Err ==> (r == Err::<String, AuthError>(AuthError::InvalidToken) || r == Err::<
                String,
                AuthError,
            >(AuthError::UserNotFound) || r == Err::<String, AuthError>(AuthError::TokenEncoding)),
    {
        let claims = match self.jwt_service.verify_token(refresh_token.as_str()) {
            Ok(c) => c,
            Err(_) => {
                return Err(AuthError::InvalidToken);
            },
        };
        if claims.kind != TokenKind::Refresh {
            return Err(AuthError::InvalidToken);
        }
        let user = match self.user_repo.find_by_id(claims.user_id) {
            Some(u) => u,
            None => {
                proof {
                    assert(verifies_to(refresh_token@, self.secret(), claims@));
                }
                return Err(AuthError::UserNotFound);
            },
        };
        let access_token = match self.jwt_service.generate_access_token(
            user.id,
            user.email.as_str(),
        ) {
            Ok(t) => t,
            Err(_) => {
                return Err(AuthError::TokenEncoding);
            },
        };
        proof {
            assert(verifies_to(refresh_token@, self.secret(), claims@));
            assert(claims@.kind == TokenKind::Refresh);
            assert(token_issued_with_ttl(
                access_token@,
                user@.id,
                user@.email,
                ACCESS_TOKEN_TTL_SECS as int,
                TokenKind::Access,
                self.secret(),
            ));
        }
        Ok(access_token)
    }
}




} // verus!
