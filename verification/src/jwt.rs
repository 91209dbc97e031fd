//! Issuing and verifying signed, time-bound bearer tokens.
//!
//! A token is three dot-separated base64url segments: a fixed header, the
//! claims JSON, and an HMAC-SHA256 signature over the first two segments.
//! Assembly, splitting, decoding and the expiry rule are implemented and
//! verified here; the signature bytes themselves come from the outside
//! crate behind one trusted wrapper, and verification recomputes them and
//! compares in constant time.

use vstd::prelude::*;

use crate::ascii::{bytes_of_chars, chars_of_bytes, string_of_ascii_bytes};
use crate::base64url::{
    spec_b64_encode, spec_b64_decode, is_b64_byte, b64_encode, b64_decode, lemma_b64_encode_is_b64,
};
use crate::claims::{
    Claims, ClaimsV, TokenKind, spec_claims_json, spec_parse_claims, claims_json_bytes,
    parse_claims_bytes, email_wire_ok, wf_claims,
};
use crate::errors::AuthError;

verus! {

use vstd::string::StrSliceExecFns;

/// Access tokens live for fifteen minutes.
pub const ACCESS_TOKEN_TTL_SECS: i64 = 900;

/// Refresh tokens live for seven days.
pub const REFRESH_TOKEN_TTL_SECS: i64 = 604800;

/// The base64url signature jsonwebtoken's HS256 signing returns for a key
/// and a message.  It is a pure function of the two arguments: HMAC-SHA256
/// is deterministic.
pub uninterp spec fn hs256_sig_chars(secret: Seq<u8>, message: Seq<u8>) -> Seq<char>;

/// Relies on `jsonwebtoken::crypto::sign` with `Algorithm::HS256` and a
/// key from `EncodingKey::from_secret`: it always succeeds, returning the
/// unpadded base64url form of the 32-byte HMAC-SHA256 tag — 43 characters,
/// all from the base64url alphabet, determined by key and message alone.
#[verifier::external_body]
pub(crate) fn sign_hs256(secret: &Vec<u8>, message: &Vec<u8>) -> (r: String)
    ensures
        r@ == hs256_sig_chars(secret@, message@),
        r@.len() == 43,
        forall|i: int|
            0 <= i < r@.len() ==> '\0' <= #[trigger] r@[i] <= '\u{7f}' && is_b64_byte(
                r@[i] as u8,
            ),
{
    let key = jsonwebtoken::EncodingKey::from_secret(secret);
    match jsonwebtoken::crypto::sign(message, &key, jsonwebtoken::Algorithm::HS256) {
        Ok(s) => s,
        Err(_) => String::new(),
    }
}

/// Relies on `chrono::Utc::now().timestamp()` for the current number of
/// seconds since the Unix epoch.  Nothing is assumed of the value.
#[verifier::external_body]
pub fn current_timestamp() -> i64 {
    chrono::Utc::now().timestamp()
}

/// The fixed token header, `{"alg":"HS256","typ":"JWT"}`.
pub open spec fn header_json() -> Seq<u8> {
    seq![
        '{' as u8,
        '"' as u8,
        'a' as u8,
        'l' as u8,
        'g' as u8,
        '"' as u8,
        ':' as u8,
        '"' as u8,
        'H' as u8,
        'S' as u8,
        '2' as u8,
        '5' as u8,
        '6' as u8,
        '"' as u8,
        ',' as u8,
        '"' as u8,
        't' as u8,
        'y' as u8,
        'p' as u8,
        '"' as u8,
        ':' as u8,
        '"' as u8,
        'J' as u8,
        'W' as u8,
        'T' as u8,
        '"' as u8,
        '}' as u8,
    ]
}

/// The first two segments joined by a dot: what the signature signs.
pub open spec fn spec_signing_input(payload: Seq<u8>) -> Seq<u8> {
    spec_b64_encode(header_json()) + seq![46u8] + spec_b64_encode(payload)
}

/// The full token for a claims value under a secret.
pub open spec fn spec_token_bytes(c: ClaimsV, secret: Seq<u8>) -> Seq<u8> {
    let si = spec_signing_input(spec_claims_json(c));
    si + seq![46u8] + bytes_of_chars(hs256_sig_chars(secret, si))
}

/// The first position at or after `from` holding a dot, or the end.
pub open spec fn dot_run(s: Seq<u8>, from: int) -> int
    decreases s.len() - from,
{
    if from < 0 || from >= s.len() {
        s.len() as int
    } else if s[from] == 46 {
        from
    } else {
        dot_run(s, from + 1)
    }
}

/// `dot_run` lands exactly on the first dot boundary.
pub proof fn lemma_dot_run_char(s: Seq<u8>, from: int, to: int)
    requires
        0 <= from <= to <= s.len(),
        forall|i: int| from <= i < to ==> #[trigger] s[i] != 46,
        to == s.len() || s[to] == 46,
    ensures
        dot_run(s, from) == to,
    decreases to - from,
{
    if from < to {
        lemma_dot_run_char(s, from + 1, to);
    }
}

/// What verifying a token under a secret at time `now` yields: the claims
/// carried by a structurally exact, correctly signed, unexpired token, and
/// nothing otherwise.
pub open spec fn spec_verify_token(s: Seq<u8>, secret: Seq<u8>, now: int) -> Option<ClaimsV> {
    let i = dot_run(s, 0);
    if i >= s.len() {
        None
    } else {
        let j = dot_run(s, i + 1);
        if j >= s.len() {
            None
        } else if s.subrange(0, i) != spec_b64_encode(header_json()) {
            None
        } else if s.subrange(j + 1, s.len() as int) != bytes_of_chars(
            hs256_sig_chars(secret, s.subrange(0, j)),
        ) {
            None
        } else {
            match spec_b64_decode(s.subrange(i + 1, j)) {
                None => None,
                Some(payload) => match spec_parse_claims(payload) {
                    None => None,
                    Some(c) => if now < c.exp {
                        Some(c)
                    } else {
                        None
                    },
                },
            }
        }
    }
}

/// Whether verification of this token under this secret can yield these
/// claims at some time.
pub open spec fn verifies_to(token: Seq<char>, secret: Seq<u8>, c: ClaimsV) -> bool {
    exists|now: int| #[trigger] spec_verify_token(vstd::utf8::encode_utf8(token), secret, now)
        == Some(c)
}

/// The end of the run of non-dot bytes starting at `from`.
fn scan_to_dot(v: &Vec<u8>, from: usize) -> (r: usize)
    requires
        from <= v@.len(),
    ensures
        from <= r <= v@.len(),
        r as int == dot_run(v@, from as int),
        forall|j: int| from <= j < r ==> #[trigger] v@[j] != 46,
        r < v@.len() ==> v@[r as int] == 46,
{
    let n = v.len();
    let mut i = from;
    while i < n && v[i] != 46
        invariant
            from <= i <= n,
            n == v@.len(),
            forall|j: int| from <= j < i ==> #[trigger] v@[j] != 46,
        decreases n - i,
    {
        i = i + 1;
    }
    proof {
        lemma_dot_run_char(v@, from as int, i as int);
    }
    i
}

/// Compares two byte vectors in constant time: the work done never depends
/// on where a mismatch sits.
pub fn ct_bytes_eq(a: &Vec<u8>, b: &Vec<u8>) -> (r: bool)
    ensures
        r == (a@ == b@),
{
    let n = a.len();
    if n != b.len() {
        return false;
    }
    let mut diff: u8 = 0;
    let mut i: usize = 0;
    while i < n
        invariant
            i <= n,
            n == a@.len() == b@.len(),
            diff == 0 <==> (forall|j: int| 0 <= j < i ==> a@[j] == b@[j]),
        decreases n - i,
    {
        let x = a[i];
        let y = b[i];
        let d = x ^ y;
        proof {
            assert((x ^ y == 0) == (x == y)) by (bit_vector);
        }
        let old_diff = diff;
        diff = diff | d;
        proof {
            assert((old_diff | d == 0) == (old_diff == 0 && d == 0)) by (bit_vector);
        }
        i = i + 1;
    }
    if diff == 0 {
        proof {
            assert(a@ =~= b@);
        }
        true
    } else {
        false
    }
}

/// The fixed header bytes.
fn header_bytes() -> (r: Vec<u8>)
    ensures
        r@ == header_json(),
{
    let mut out: Vec<u8> = Vec::new();
    out.push(123);
    out.push(34);
    out.push(97);
    out.push(108);
    out.push(103);
    out.push(34);
    out.push(58);
    out.push(34);
    out.push(72);
    out.push(83);
    out.push(50);
    out.push(53);
    out.push(54);
    out.push(34);
    out.push(44);
    out.push(34);
    out.push(116);
    out.push(121);
    out.push(112);
    out.push(34);
    out.push(58);
    out.push(34);
    out.push(74);
    out.push(87);
    out.push(84);
    out.push(34);
    out.push(125);
    proof {
        assert(out@ =~= header_json());
    }
    out
}

/// A token string issued for these claims under this secret.
pub open spec fn issued_token(
    t: Seq<char>,
    user_id: int,
    email: Seq<char>,
    exp: int,
    kind: TokenKind,
    secret: Seq<u8>,
) -> bool {
    t == chars_of_bytes(spec_token_bytes(ClaimsV { user_id, email, exp, kind }, secret))
}

/// A token issued for this identity and purpose under this secret, with
/// an expiry at least `ttl`.
#[verifier::opaque]
pub open spec fn token_issued_with_ttl(
    t: Seq<char>,
    user_id: int,
    email: Seq<char>,
    ttl: int,
    kind: TokenKind,
    secret: Seq<u8>,
) -> bool {
    exists|exp: int| ttl <= exp && #[trigger] issued_token(t, user_id, email, exp, kind, secret)
}

/// Whether a token with this email and expiry can be put on the wire.
pub open spec fn issuable(email: Seq<char>, exp: int) -> bool {
    &&& email_wire_ok(email)
    &&& 0 <= exp <= usize::MAX
    &&& exp <= 0x7fff_ffff_ffff_ffff
}

/// Issues and verifies bearer tokens under one signing secret, fixed at
/// construction.
pub struct JwtService {
    secret: Vec<u8>,
}

impl View for JwtService {
    type V = Seq<u8>;

    closed spec fn view(&self) -> Seq<u8> {
        self.secret@
    }
}

impl JwtService {
    /// A service signing with the UTF-8 bytes of `secret`.
    pub fn new(secret: &str) -> (s: Self)
        ensures
            s@ == vstd::utf8::encode_utf8(secret@),
    {
        JwtService { secret: secret.as_bytes_vec() }
    }

    /// Builds and signs the token whose claims are `user_id`, `email` and
    /// expiry `now + ttl`; fails exactly when that expiry or email cannot
    /// be represented.
    fn issue_at(&self, user_id: i64, email: &str, ttl: i64, kind: TokenKind, now: i64) -> (r:
        Result<String, AuthError>)
        requires
            0 < ttl <= 604800,
        ensures
            r is Ok <==> issuable(email@, now as int + ttl as int) && 0 <= now,
            r matches Ok(t) ==> issued_token(
                t@,
                user_id as int,
                email@,
                now as int + ttl as int,
                kind,
                self@,
            ),
            r is Err ==> r == Err::<String, AuthError>(AuthError::TokenEncoding),
    {
        if now < 0 {
            return Err(AuthError::TokenEncoding);
        }
        if now > i64::MAX - ttl {
            return Err(AuthError::TokenEncoding);
        }
        let exp_i = now + ttl;
        let exp_u = exp_i as u64;
        if exp_u > usize::MAX as u64 {
            return Err(AuthError::TokenEncoding);
        }
        let exp = exp_u as usize;
        let c = Claims { user_id, email: email.to_owned(), exp, kind };
        let payload = match claims_json_bytes(&c) {
            Some(p) => p,
            None => {
                return Err(AuthError::TokenEncoding);
            },
        };
        let hdr = header_bytes();
        let h64 = b64_encode(&hdr);
        let p64 = b64_encode(&payload);
        let mut msg = h64;
        msg.push(46);
        let mut p64v = p64;
        msg.append(&mut p64v);
        proof {
            assert(msg@ =~= spec_signing_input(spec_claims_json(c@)));
        }
        let sig = sign_hs256(&self.secret, &msg);
        let sigb = match crate::ascii::ascii_bytes_of_str(sig.as_str()) {
            Some(b) => b,
            None => {
                proof {
                    assert(vstd::utf8::is_ascii_chars(sig@));
                    assert(false);
                }
                return Err(AuthError::TokenEncoding);
            },
        };
        let mut tok = msg;
        tok.push(46);
        let mut sbv = sigb;
        tok.append(&mut sbv);
        proof {
            lemma_b64_encode_is_b64(header_json());
            lemma_b64_encode_is_b64(spec_claims_json(c@));
            assert(tok@ =~= spec_token_bytes(c@, self@));
            assert forall|k: int| 0 <= k < tok@.len() implies #[trigger] tok@[k] < 128 by {
                let si = spec_signing_input(spec_claims_json(c@));
                if k < si.len() {
                    let h = spec_b64_encode(header_json());
                    let p = spec_b64_encode(spec_claims_json(c@));
                    if k < h.len() {
                        assert(si[k] == h[k]);
                        crate::base64url::lemma_b64_byte_ascii(h[k]);
                    } else if k == h.len() {
                        assert(si[k] == 46);
                    } else {
                        assert(si[k] == p[k - h.len() - 1]);
                        crate::base64url::lemma_b64_byte_ascii(p[k - h.len() - 1]);
                    }
                } else if k == si.len() {
                    assert(tok@[k] == 46);
                }
            }
        }
        let t = string_of_ascii_bytes(tok);
        proof {
            assert(t@ =~= chars_of_bytes(spec_token_bytes(c@, self@)));
        }
        Ok(t)
    }

    /// An access token for `user_id` and `email`, expiring fifteen minutes
    /// after `now`.
    pub fn generate_access_token_at(&self, user_id: i64, email: &str, now: i64) -> (r: Result<
        String,
        AuthError,
    >)
        ensures
            r is Ok <==> issuable(email@, now as int + ACCESS_TOKEN_TTL_SECS as int) && 0 <= now,
            r matches Ok(t) ==> issued_token(
                t@,
                user_id as int,
                email@,
                now as int + ACCESS_TOKEN_TTL_SECS as int,
                TokenKind::Access,
                self@,
            ),
            r is Err ==> r == Err::<String, AuthError>(AuthError::TokenEncoding),
    {
        self.issue_at(user_id, email, ACCESS_TOKEN_TTL_SECS, TokenKind::Access, now)
    }

    /// A refresh token for `user_id` and `email`, expiring seven days
    /// after `now`.
    pub fn generate_refresh_token_at(&self, user_id: i64, email: &str, now: i64) -> (r: Result<
        String,
        AuthError,
    >)
        ensures
            r is Ok <==> issuable(email@, now as int + REFRESH_TOKEN_TTL_SECS as int) && 0 <= now,
            r matches Ok(t) ==> issued_token(
                t@,
                user_id as int,
                email@,
                now as int + REFRESH_TOKEN_TTL_SECS as int,
                TokenKind::Refresh,
                self@,
            ),
            r is Err ==> r == Err::<String, AuthError>(AuthError::TokenEncoding),
    {
        self.issue_at(user_id, email, REFRESH_TOKEN_TTL_SECS, TokenKind::Refresh, now)
    }

    /// An access token expiring fifteen minutes from the current time.
    pub fn generate_access_token(&self, user_id: i64, email: &str) -> (r: Result<
        String,
        AuthError,
    >)
        ensures
            r matches Ok(t) ==> token_issued_with_ttl(
                t@,
                user_id as int,
                email@,
                ACCESS_TOKEN_TTL_SECS as int,
                TokenKind::Access,
                self@,
            ),
            !email_wire_ok(email@) ==> r == Err::<String, AuthError>(AuthError::TokenEncoding),
            r is Err ==> r == Err::<String, AuthError>(AuthError::TokenEncoding),
    {
        let now = current_timestamp();
        let r = self.generate_access_token_at(user_id, email, now);
        proof {
            if r is Ok {
                assert(issued_token(
                    r->Ok_0@,
                    user_id as int,
                    email@,
                    now as int + ACCESS_TOKEN_TTL_SECS as int,
                    TokenKind::Access,
                    self@,
                ));
                assert(token_issued_with_ttl(
                    r->Ok_0@,
                    user_id as int,
                    email@,
                    ACCESS_TOKEN_TTL_SECS as int,
                    TokenKind::Access,
                    self@,
                )) by {
                    reveal(token_issued_with_ttl);
                }
            }
        }
        r
    }

    /// A refresh token expiring seven days from the current time.
    pub fn generate_refresh_token(&self, user_id: i64, email: &str) -> (r: Result<
        String,
        AuthError,
    >)
        ensures
            r matches Ok(t) ==> token_issued_with_ttl(
                t@,
                user_id as int,
                email@,
                REFRESH_TOKEN_TTL_SECS as int,
                TokenKind::Refresh,
                self@,
            ),
            !email_wire_ok(email@) ==> r == Err::<String, AuthError>(AuthError::TokenEncoding),
            r is Err ==> r == Err::<String, AuthError>(AuthError::TokenEncoding),
    {
        let now = current_timestamp();
        let r = self.generate_refresh_token_at(user_id, email, now);
        proof {
            if r is Ok {
                assert(issued_token(
                    r->Ok_0@,
                    user_id as int,
                    email@,
                    now as int + REFRESH_TOKEN_TTL_SECS as int,
                    TokenKind::Refresh,
                    self@,
                ));
                assert(token_issued_with_ttl(
                    r->Ok_0@,
                    user_id as int,
                    email@,
                    REFRESH_TOKEN_TTL_SECS as int,
                    TokenKind::Refresh,
                    self@,
                )) by {
                    reveal(token_issued_with_ttl);
                }
            }
        }
        r
    }

    /// Verifies a token against this service's secret at time `now`:
    /// exactly `spec_verify_token` on the token's bytes, with every
    /// rejection reported as `InvalidToken`.
    pub fn verify_token_at(&self, token: &str, now: i64) -> (r: Result<Claims, AuthError>)
        ensures
            match spec_verify_token(vstd::utf8::encode_utf8(token@), self@, now as int) {
                Some(c) => r matches Ok(cl) && cl@ == c && wf_claims(c),
                None => r == Err::<Claims, AuthError>(AuthError::InvalidToken),
            },
    {
        let tb = token.as_bytes_vec();
        let n = tb.len();
        let i = scan_to_dot(&tb, 0);
        if i == n {
            return Err(AuthError::InvalidToken);
        }
        let j = scan_to_dot(&tb, i + 1);
        if j == n {
            return Err(AuthError::InvalidToken);
        }
        let hdr = header_bytes();
        let h64 = b64_encode(&hdr);
        let header_seg = crate::claims::subvec_bytes(&tb, 0, i);
        if !ct_bytes_eq(&header_seg, &h64) {
            return Err(AuthError::InvalidToken);
        }
        let msg = crate::claims::subvec_bytes(&tb, 0, j);
        let sig_seg = crate::claims::subvec_bytes(&tb, j + 1, n);
        let computed = sign_hs256(&self.secret, &msg);
        let computed_bytes = match crate::ascii::ascii_bytes_of_str(computed.as_str()) {
            Some(b) => b,
            None => {
                proof {
                    assert(vstd::utf8::is_ascii_chars(computed@));
                    assert(false);
                }
                return Err(AuthError::InvalidToken);
            },
        };
        if !ct_bytes_eq(&sig_seg, &computed_bytes) {
            return Err(AuthError::InvalidToken);
        }
        let payload_b64 = crate::claims::subvec_bytes(&tb, i + 1, j);
        let payload = match b64_decode(&payload_b64) {
            Some(p) => p,
            None => {
                return Err(AuthError::InvalidToken);
            },
        };
        let c = match parse_claims_bytes(&payload) {
            Some(c) => c,
            None => {
                return Err(AuthError::InvalidToken);
            },
        };
        if now < 0 || (now as u64) < (c.exp as u64) {
            Ok(c)
        } else {
            Err(AuthError::InvalidToken)
        }
    }

    /// Verifies a token against this service's secret at the current time.
    pub fn verify_token(&self, token: &str) -> (r: Result<Claims, AuthError>)
        ensures
            r matches Ok(c) ==> wf_claims(c@) && exists|now: int|
                #[trigger] spec_verify_token(vstd::utf8::encode_utf8(token@), self@, now) == Some(
                    c@,
                ),
            r is Err ==> r == Err::<Claims, AuthError>(AuthError::InvalidToken),
            (forall|now: int|
                spec_verify_token(vstd::utf8::encode_utf8(token@), self@, now) is None) ==> r
                == Err::<Claims, AuthError>(AuthError::InvalidToken),
    {
        let now = current_timestamp();
        let r = self.verify_token_at(token, now);
        proof {
            if r is Ok {
                assert(spec_verify_token(
                    vstd::utf8::encode_utf8(token@),
                    self@,
                    now as int,
                ) == Some(r->Ok_0@));
            }
        }
        r
    }
}


/// Round trip of issuance and verification: the token built for a
/// well-formed claims value verifies to exactly that value at any time
/// before its expiry, and fails at any time at or past its expiry.
pub proof fn lemma_token_round_trip(c: ClaimsV, secret: Seq<u8>, now: int)
    requires
        wf_claims(c),
    ensures
        now < c.exp ==> spec_verify_token(spec_token_bytes(c, secret), secret, now) == Some(c),
        now >= c.exp ==> spec_verify_token(spec_token_bytes(c, secret), secret, now) is None,
{
    let pj = spec_claims_json(c);
    let h = spec_b64_encode(header_json());
    let p = spec_b64_encode(pj);
    let si = spec_signing_input(pj);
    let g = hs256_sig_chars(secret, si);
    let sig = bytes_of_chars(g);
    let s = spec_token_bytes(c, secret);
    assert(s =~= h + seq![46u8] + p + seq![46u8] + sig);
    crate::base64url::lemma_b64_encode_is_b64(header_json());
    crate::base64url::lemma_b64_encode_is_b64(pj);

    let i = h.len() as int;
    let j = si.len() as int;
    assert(si =~= h + seq![46u8] + p);
    assert(j == i + 1 + p.len());
    assert(s.len() == j + 1 + sig.len());

    assert forall|k: int| 0 <= k < i implies #[trigger] s[k] != 46 by {
        assert(s[k] == h[k]);
        assert(is_b64_byte(h[k]));
    }
    assert(s[i] == 46);
    lemma_dot_run_char(s, 0, i);

    assert forall|k: int| i + 1 <= k < j implies #[trigger] s[k] != 46 by {
        assert(s[k] == p[k - i - 1]);
        assert(is_b64_byte(p[k - i - 1]));
    }
    assert(s[j] == 46);
    lemma_dot_run_char(s, i + 1, j);

    assert(s.subrange(0, i) =~= h);
    assert(s.subrange(0, j) =~= si);
    assert(s.subrange(j + 1, s.len() as int) =~= sig);
    assert(s.subrange(i + 1, j) =~= p);

    crate::base64url::lemma_b64_round_trip(pj);
    crate::claims::lemma_claims_round_trip(c);
}

/// Any change confined to the signature segment of a token breaks it:
/// a same-length byte string that agrees with the token through the second
/// dot but is not the token never verifies, at any time.
pub proof fn lemma_signature_tamper(c: ClaimsV, secret: Seq<u8>, now: int, t2: Seq<u8>)
    requires
        wf_claims(c),
        t2.len() == spec_token_bytes(c, secret).len(),
        forall|k: int|
            0 <= k <= spec_signing_input(spec_claims_json(c)).len() ==> #[trigger] t2[k]
                == spec_token_bytes(c, secret)[k],
        t2 != spec_token_bytes(c, secret),
    ensures
        spec_verify_token(t2, secret, now) is None,
{
    let pj = spec_claims_json(c);
    let h = spec_b64_encode(header_json());
    let p = spec_b64_encode(pj);
    let si = spec_signing_input(pj);
    let g = hs256_sig_chars(secret, si);
    let sig = bytes_of_chars(g);
    let s = spec_token_bytes(c, secret);
    assert(s =~= h + seq![46u8] + p + seq![46u8] + sig);
    crate::base64url::lemma_b64_encode_is_b64(header_json());
    crate::base64url::lemma_b64_encode_is_b64(pj);

    let i = h.len() as int;
    let j = si.len() as int;
    assert(si =~= h + seq![46u8] + p);
    assert(j == i + 1 + p.len());
    assert(s.len() == j + 1 + sig.len());

    assert forall|k: int| 0 <= k < i implies #[trigger] t2[k] != 46 by {
        assert(t2[k] == s[k]);
        assert(s[k] == h[k]);
        assert(is_b64_byte(h[k]));
    }
    assert(t2[i] == 46);
    lemma_dot_run_char(t2, 0, i);

    assert forall|k: int| i + 1 <= k < j implies #[trigger] t2[k] != 46 by {
        assert(t2[k] == s[k]);
        assert(s[k] == p[k - i - 1]);
        assert(is_b64_byte(p[k - i - 1]));
    }
    assert(t2[j] == 46);
    lemma_dot_run_char(t2, i + 1, j);

    let sig2 = t2.subrange(j + 1, t2.len() as int);
    assert(t2.subrange(0, j) =~= si) by {
        assert forall|k: int| 0 <= k < j implies t2.subrange(0, j)[k] == si[k] by {
            assert(t2[k] == s[k]);
        }
    }
    // were the signature segment also unchanged, the whole token would be
    if sig2 == sig {
        assert(t2 =~= s) by {
            assert forall|k: int| 0 <= k < t2.len() implies t2[k] == s[k] by {
                if k > j {
                    assert(t2[k] == sig2[k - j - 1]);
                    assert(s[k] == sig[k - j - 1]);
                }
            }
        }
        assert(false);
    }
    assert(sig2 != bytes_of_chars(hs256_sig_chars(secret, t2.subrange(0, j))));
}


/// The byte sequence of an issued token is ASCII, so the token string's
/// UTF-8 bytes are the token bytes themselves.  The premise on the
/// signature characters holds of every signature the signer returns.
pub proof fn lemma_token_bytes_ascii(c: ClaimsV, secret: Seq<u8>)
    requires
        wf_claims(c),
        vstd::utf8::is_ascii_chars(
            hs256_sig_chars(secret, spec_signing_input(spec_claims_json(c))),
        ),
    ensures
        vstd::utf8::encode_utf8(chars_of_bytes(spec_token_bytes(c, secret))) == spec_token_bytes(
            c,
            secret,
        ),
{
    let pj = spec_claims_json(c);
    let h = spec_b64_encode(header_json());
    let p = spec_b64_encode(pj);
    let si = spec_signing_input(pj);
    let g = hs256_sig_chars(secret, si);
    let b = spec_token_bytes(c, secret);
    crate::base64url::lemma_b64_encode_is_b64(header_json());
    crate::base64url::lemma_b64_encode_is_b64(pj);
    assert(si =~= h + seq![46u8] + p);
    assert(b =~= si + seq![46u8] + bytes_of_chars(g));
    assert forall|k: int| 0 <= k < b.len() implies #[trigger] b[k] < 128 by {
        if k < si.len() {
            if k < h.len() {
                assert(si[k] == h[k]);
                crate::base64url::lemma_b64_byte_ascii(h[k]);
            } else if k == h.len() {
                assert(si[k] == 46);
            } else {
                assert(si[k] == p[k - h.len() - 1]);
                crate::base64url::lemma_b64_byte_ascii(p[k - h.len() - 1]);
            }
        } else if k == si.len() {
            assert(b[k] == 46);
        } else {
            assert(b[k] == g[k - si.len() - 1] as u8);
            assert('\0' <= g[k - si.len() - 1] <= '\u{7f}');
        }
    }
    let t = chars_of_bytes(b);
    assert forall|k: int| 0 <= k < t.len() implies '\0' <= #[trigger] t[k] <= '\u{7f}' by {
        assert(b[k] < 128);
    }
    crate::ascii::lemma_encode_utf8_ascii(t);
    assert(crate::ascii::bytes_of_chars(t) =~= b);
    assert(vstd::utf8::encode_utf8(t) =~= b);
}

/// Issue-then-verify at the token-string level: the string issued for a
/// well-formed claims value verifies to exactly that value at any time
/// before its expiry, and fails at any time at or past it.  The premise
/// on the signature characters holds of every signature the signer
/// returns.
pub proof fn lemma_token_string_round_trip(c: ClaimsV, secret: Seq<u8>, now: int)
    requires
        wf_claims(c),
        vstd::utf8::is_ascii_chars(
            hs256_sig_chars(secret, spec_signing_input(spec_claims_json(c))),
        ),
    ensures
        now < c.exp ==> spec_verify_token(
            vstd::utf8::encode_utf8(chars_of_bytes(spec_token_bytes(c, secret))),
            secret,
            now,
        ) == Some(c),
        now >= c.exp ==> spec_verify_token(
            vstd::utf8::encode_utf8(chars_of_bytes(spec_token_bytes(c, secret))),
            secret,
            now,
        ) is None,
{
    lemma_token_bytes_ascii(c, secret);
    lemma_token_round_trip(c, secret, now);
}

} // verus!
