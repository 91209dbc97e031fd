//! The bearer gate protected requests run behind.
//!
//! An inbound request carries its token in the authorization header,
//! after the case-sensitive `Bearer ` prefix.

use vstd::prelude::*;

use crate::claims::ClaimsV;
use crate::errors::AuthError;
use crate::jwt::{JwtService, spec_verify_token, verifies_to};

verus! {

use vstd::string::StrSliceExecFns;

/// The characters `Bearer `, exactly: case-sensitive, one space.
pub open spec fn bearer_prefix() -> Seq<char> {
    seq!['B', 'e', 'a', 'r', 'e', 'r', ' ']
}

/// Whether a header value begins with the exact bearer prefix.
pub open spec fn has_bearer_prefix(h: Seq<char>) -> bool {
    h.len() >= 7 && h.subrange(0, 7) == bearer_prefix()
}

/// The token a bearer header carries: everything after the prefix.
pub open spec fn bearer_token_of(h: Seq<char>) -> Seq<char> {
    h.subrange(7, h.len() as int)
}

/// Takes the token out of an `Authorization` header value: an absent
/// header is `MissingAuth`, a present one without the exact `Bearer `
/// prefix is `MalformedAuth`.
pub fn extract_bearer<'a>(header: Option<&'a str>) -> (r: Result<&'a str, AuthError>)
    ensures
        header is None ==> r == Err::<&'a str, AuthError>(AuthError::MissingAuth),
        header is Some && !has_bearer_prefix(header->Some_0@) ==> r == Err::<&'a str, AuthError>(
            AuthError::MalformedAuth,
        ),
        header is Some && has_bearer_prefix(header->Some_0@) ==> r is Ok,
        header is Some && has_bearer_prefix(header->Some_0@) && r is Ok ==> (r->Ok_0)@
            == bearer_token_of(header->Some_0@),
{
    let h = match header {
        None => {
            return Err(AuthError::MissingAuth);
        },
        Some(h) => h,
    };
    let n = h.unicode_len();
    if n < 7 {
        return Err(AuthError::MalformedAuth);
    }
    if h.get_char(0) != 'B' || h.get_char(1) != 'e' || h.get_char(2) != 'a' || h.get_char(3) != 'r'
        || h.get_char(4) != 'e' || h.get_char(5) != 'r' || h.get_char(6) != ' ' {
        proof {
            assert(h@.subrange(0, 7) != bearer_prefix());
        }
        return Err(AuthError::MalformedAuth);
    }
    proof {
        assert(h@.subrange(0, 7) =~= bearer_prefix());
    }
    Ok(h.substring_char(7, n))
}

/// Authorizes one request from its authorization header value: extracts
/// the bearer token, checks it at the current time, and returns the user
/// id the claims carry for the handler's context.
pub fn authorize(jwt: &JwtService, header: Option<&str>) -> (r: Result<i64, AuthError>)
    ensures
        header is None ==> r == Err::<i64, AuthError>(AuthError::MissingAuth),
        header is Some && !has_bearer_prefix(header->Some_0@) ==> r == Err::<i64, AuthError>(
            AuthError::MalformedAuth,
        ),
        header is Some && has_bearer_prefix(header->Some_0@) && r is Ok ==> exists|c: ClaimsV|
            #[trigger] verifies_to(bearer_token_of(header->Some_0@), jwt@, c) && c.user_id == (
            r->Ok_0) as int,
        header is Some && has_bearer_prefix(header->Some_0@) && (forall|now: int|
            spec_verify_token(
                vstd::utf8::encode_utf8(bearer_token_of(header->Some_0@)),
                jwt@,
                now,
            ) is None) ==> r == Err::<i64, AuthError>(AuthError::InvalidToken),
        header is Some && has_bearer_prefix(header->Some_0@) && r is Err ==> r == Err::<
            i64,
            AuthError,
        >(AuthError::InvalidToken),
{
    let token = match extract_bearer(header) {
        Ok(t) => t,
        Err(e) => {
            return Err(e);
        },
    };
    let claims = match jwt.verify_token(token) {
        Ok(c) => c,
        Err(_) => {
            return Err(AuthError::InvalidToken);
        },
    };
    proof {
        let h = header->Some_0;
        assert(token@ == bearer_token_of(h@));
        assert(verifies_to(bearer_token_of(h@), jwt@, claims@));
    }
    Ok(claims.user_id)
}

} // verus!
