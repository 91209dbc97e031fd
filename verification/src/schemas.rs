//! Request and response shapes of the authentication endpoints, with
//! their validation rules.

use vstd::prelude::*;

use crate::errors::DomainError;
use crate::user::User;

verus! {

use vstd::string::StrSliceExecFns;
use vstd::string::StringExecFns;

/// A plausible email: an `@` strictly inside the string.
pub open spec fn valid_email_chars(s: Seq<char>) -> bool {
    exists|i: int| 0 < i < s.len() - 1 && s[i] == '@'
}

/// The body of `POST /auth/signup`.
pub struct SignupRequest {
    pub email: String,
    pub password: String,
    pub nickname: String,
    pub invite_code: Option<String>,
}

/// The body of `POST /auth/login`.
pub struct LoginRequest {
    pub email: String,
    pub password: String,
}

/// The body of `POST /auth/refresh`.
pub struct RefreshTokenRequest {
    pub refresh_token: String,
}

/// What signup and login answer: the user and a token pair.
pub struct AuthResponse {
    pub user: UserResponse,
    pub access_token: String,
    pub refresh_token: String,
}

/// The public face of a user record: everything but the credentials.
pub struct UserResponse {
    pub id: i64,
    pub email: String,
    pub nickname: String,
    pub avatar_url: Option<String>,
    pub group_id: Option<i64>,
    pub default_currency: Option<String>,
}

/// What refresh answers: the new access token.
pub struct RefreshTokenResponse {
    pub access_token: String,
}

/// Whether `s` has an `@` strictly inside it.
fn has_interior_at(s: &str) -> (r: bool)
    ensures
        r == valid_email_chars(s@),
{
    let n = s.unicode_len();
    if n < 3 {
        proof {
            if valid_email_chars(s@) {
                let i = choose|i: int| 0 < i < s@.len() - 1 && s@[i] == '@';
            }
        }
        return false;
    }
    let mut i: usize = 1;
    while i < n - 1
        invariant
            1 <= i <= n - 1,
            3 <= n == s@.len(),
            forall|j: int| 0 < j < i ==> s@[j] != '@',
        decreases n - i,
    {
        if s.get_char(i) == '@' {
            return true;
        }
        i = i + 1;
    }
    proof {
        if valid_email_chars(s@) {
            let j = choose|j: int| 0 < j < s@.len() - 1 && s@[j] == '@';
        }
    }
    false
}

impl SignupRequest {
    /// The rules a signup body must meet: a plausible email, a password of
    /// at least eight characters, a nickname of one to sixty characters.
    pub open spec fn valid(&self) -> bool {
        &&& valid_email_chars(self.email@)
        &&& self.password@.len() >= 8
        &&& 1 <= self.nickname@.len() <= 60
    }

    /// Checks the body against its rules.
    pub fn validate(&self) -> (r: Result<(), DomainError>)
        ensures
            r is Ok <==> self.valid(),
    {
        if !has_interior_at(self.email.as_str()) {
            return Err(DomainError::InvalidInput("email is not well-formed".to_owned()));
        }
        if self.password.as_str().unicode_len() < 8 {
            return Err(
                DomainError::InvalidInput("password must be at least 8 characters".to_owned()),
            );
        }
        let nick_len = self.nickname.as_str().unicode_len();
        if nick_len < 1 || nick_len > 60 {
            return Err(
                DomainError::InvalidInput("nickname must be 1 to 60 characters".to_owned()),
            );
        }
        Ok(())
    }
}

impl LoginRequest {
    /// The rules a login body must meet: a plausible email and a
    /// non-empty password.
    pub open spec fn valid(&self) -> bool {
        &&& valid_email_chars(self.email@)
        &&& self.password@.len() >= 1
    }

    /// Checks the body against its rules.
    pub fn validate(&self) -> (r: Result<(), DomainError>)
        ensures
            r is Ok <==> self.valid(),
    {
        if !has_interior_at(self.email.as_str()) {
            return Err(DomainError::InvalidInput("email is not well-formed".to_owned()));
        }
        if self.password.as_str().unicode_len() < 1 {
            return Err(DomainError::InvalidInput("password must not be empty".to_owned()));
        }
        Ok(())
    }
}

impl From<User> for UserResponse {
    /// The public view of a record: the credentials stay behind.
    fn from(user: User) -> (r: Self) {
        UserResponse {
            id: user.id,
            email: user.email,
            nickname: user.nickname,
            avatar_url: user.avatar_url,
            group_id: user.group_id,
            default_currency: user.default_currency,
        }
    }
}

impl vstd::std_specs::convert::FromSpecImpl<User> for UserResponse {
    open spec fn obeys_from_spec() -> bool {
        true
    }

    open spec fn from_spec(user: User) -> Self {
        UserResponse {
            id: user.id,
            email: user.email,
            nickname: user.nickname,
            avatar_url: user.avatar_url,
            group_id: user.group_id,
            default_currency: user.default_currency,
        }
    }
}

} // verus!
