//! Credential hashing and constant-time verification.
//!
//! A stored credential is `salt$mac`: a fresh 32-character hexadecimal
//! salt, a separator, and the keyed MAC of the password bytes under that
//! salt.  Hashing accepts any password; verification recomputes the MAC
//! and compares it in constant time, failing only on a structurally
//! malformed stored hash.

use vstd::prelude::*;

use crate::ascii::{bytes_of_chars, ascii_bytes_of_str};
use crate::claims::subvec_bytes;
use crate::errors::AuthError;
use crate::jwt::{hs256_sig_chars, sign_hs256, ct_bytes_eq};

verus! {

use vstd::string::StrSliceExecFns;
use vstd::string::StringExecFns;

/// A lowercase hexadecimal character.
pub open spec fn is_hex_char(c: char) -> bool {
    ('0' <= c <= '9') || ('a' <= c <= 'f')
}

/// A well-formed salt: exactly 32 lowercase hexadecimal characters.
pub open spec fn salt_wf(salt: Seq<char>) -> bool {
    salt.len() == 32 && forall|i: int| 0 <= i < 32 ==> is_hex_char(#[trigger] salt[i])
}

/// The stored form of a credential hashed with a given salt.
pub open spec fn spec_hash_string(salt: Seq<char>, pwd_bytes: Seq<u8>) -> Seq<char> {
    salt + seq!['$'] + hs256_sig_chars(bytes_of_chars(salt), pwd_bytes)
}

/// A structurally well-formed stored hash: ASCII, a 32-character salt,
/// then the separator.
pub open spec fn hash_wf(h: Seq<char>) -> bool {
    &&& h.len() >= 33
    &&& salt_wf(h.subrange(0, 32))
    &&& h[32] == '$'
    &&& vstd::utf8::is_ascii_chars(h)
}

/// Whether a password's bytes re-hash, under the stored salt, to the
/// stored MAC.
pub open spec fn password_matches(pwd_bytes: Seq<u8>, h: Seq<char>) -> bool {
    &&& hash_wf(h)
    &&& h.subrange(33, h.len() as int) == hs256_sig_chars(
        bytes_of_chars(h.subrange(0, 32)),
        pwd_bytes,
    )
}

/// Relies on `uuid::Uuid::new_v4` and `Simple::encode_lower`: a fresh
/// random identifier formatted as exactly 32 lowercase hexadecimal
/// characters.  Nothing is assumed about which value comes back.
#[verifier::external_body]
fn fresh_salt() -> (r: String)
    ensures
        salt_wf(r@),
{
    let mut buf = [0u8; 32];
    let s: &str = uuid::Uuid::new_v4().simple().encode_lower(&mut buf);
    s.to_owned()
}

/// Hashes a password under a fresh salt.  Accepts every password and
/// always succeeds; the result always verifies against the same password.
pub fn hash_password(password: &str) -> (r: Result<String, AuthError>)
    ensures
        r is Ok,
        r matches Ok(h) ==> password_matches(vstd::utf8::encode_utf8(password@), h@),
        r matches Ok(h) ==> exists|salt: Seq<char>|
            salt_wf(salt) && h@ == #[trigger] spec_hash_string(
                salt,
                vstd::utf8::encode_utf8(password@),
            ),
{
    let salt = fresh_salt();
    let salt_b = match ascii_bytes_of_str(salt.as_str()) {
        Some(b) => b,
        None => {
            proof {
                assert forall|i: int| 0 <= i < salt@.len() implies '\0' <= #[trigger] salt@[i]
                    <= '\u{7f}' by {
                    assert(is_hex_char(salt@[i]));
                }
                assert(false);
            }
            return Err(AuthError::HashingError);
        },
    };
    let pwd_b = password.as_bytes_vec();
    let sig = sign_hs256(&salt_b, &pwd_b);
    let ghost salt0 = salt@;
    let mut h = salt;
    h.append("$");
    h.append(sig.as_str());
    proof {
        reveal_strlit("$");
        assert("$"@ =~= seq!['$']);
        assert(h@ =~= spec_hash_string(salt0, vstd::utf8::encode_utf8(password@)));
        let hv = h@;
        assert(hv.subrange(0, 32) =~= salt0);
        assert(hv.subrange(33, hv.len() as int) =~= hs256_sig_chars(
            bytes_of_chars(salt0),
            vstd::utf8::encode_utf8(password@),
        ));
        assert forall|i: int| 0 <= i < hv.len() implies '\0' <= #[trigger] hv[i] <= '\u{7f}' by {
            if i < 32 {
                assert(hv[i] == salt0[i]);
                assert(is_hex_char(salt0[i]));
            } else if i > 32 {
                assert(hv[i] == sig@[i - 33]);
            }
        }
    }
    Ok(h)
}

/// Whether the first 32 bytes are lowercase hexadecimal.
fn salt_bytes_ok(b: &Vec<u8>) -> (r: bool)
    requires
        b@.len() >= 32,
    ensures
        r == forall|i: int|
            0 <= i < 32 ==> ((48 <= #[trigger] b@[i] <= 57) || (97 <= b@[i] <= 102)),
{
    let mut i: usize = 0;
    while i < 32
        invariant
            i <= 32,
            b@.len() >= 32,
            forall|j: int| 0 <= j < i ==> ((48 <= #[trigger] b@[j] <= 57) || (97 <= b@[j] <= 102)),
        decreases 32 - i,
    {
        let x = b[i];
        if !((48 <= x && x <= 57) || (97 <= x && x <= 102)) {
            return false;
        }
        i = i + 1;
    }
    true
}

/// Verifies a password against a stored hash: recomputes the MAC under
/// the stored salt and compares in constant time.  Fails only when the
/// stored hash is structurally malformed.
pub fn verify_password(password: &str, hash: &str) -> (r: Result<bool, AuthError>)
    ensures
        hash_wf(hash@) ==> r == Ok::<bool, AuthError>(
            password_matches(vstd::utf8::encode_utf8(password@), hash@),
        ),
        !hash_wf(hash@) ==> r == Err::<bool, AuthError>(AuthError::HashingError),
{
    if !hash.is_ascii() {
        return Err(AuthError::HashingError);
    }
    let hb = match ascii_bytes_of_str(hash) {
        Some(b) => b,
        None => {
            proof {
                assert(false);
            }
            return Err(AuthError::HashingError);
        },
    };
    let n = hb.len();
    if n < 33 {
        return Err(AuthError::HashingError);
    }
    proof {
        assert forall|i: int| 0 <= i < hb@.len() implies #[trigger] hb@[i] == hash@[i] as u8 by {}
    }
    if !salt_bytes_ok(&hb) {
        proof {
            let i = choose|i: int|
                0 <= i < 32 && !((48 <= #[trigger] hb@[i] <= 57) || (97 <= hb@[i] <= 102));
            assert(hash@[i] as u8 == hb@[i]);
            assert('\0' <= hash@[i] <= '\u{7f}');
            assert(!is_hex_char(hash@.subrange(0, 32)[i]));
        }
        return Err(AuthError::HashingError);
    }
    if hb[32] != 36 {
        proof {
            assert(hash@[32] as u8 == hb@[32]);
            assert('\0' <= hash@[32] <= '\u{7f}');
            assert(hash@[32] != '$');
        }
        return Err(AuthError::HashingError);
    }
    proof {
        assert forall|i: int| 0 <= i < 32 implies is_hex_char(
            #[trigger] hash@.subrange(0, 32)[i],
        ) by {
            assert(hb@[i] == hash@[i] as u8);
            assert('\0' <= hash@[i] <= '\u{7f}');
        }
        assert(hash@[32] as u8 == 36);
        assert(hash@[32] == '$');
        assert(hash_wf(hash@));
    }
    let salt_b = subvec_bytes(&hb, 0, 32);
    let mac_b = subvec_bytes(&hb, 33, n);
    let pwd_b = password.as_bytes_vec();
    let computed = sign_hs256(&salt_b, &pwd_b);
    let cb = match ascii_bytes_of_str(computed.as_str()) {
        Some(b) => b,
        None => {
            proof {
                assert(false);
            }
            return Err(AuthError::HashingError);
        },
    };
    let eq = ct_bytes_eq(&mac_b, &cb);
    proof {
        let hv = hash@;
        let salt_chars = hv.subrange(0, 32);
        let mac_chars = hv.subrange(33, hv.len() as int);
        let sig_chars = hs256_sig_chars(bytes_of_chars(salt_chars), vstd::utf8::encode_utf8(
            password@,
        ));
        assert(salt_b@ =~= bytes_of_chars(salt_chars));
        assert(mac_b@ =~= bytes_of_chars(mac_chars));
        assert(cb@ == bytes_of_chars(computed@));
        assert(computed@ == sig_chars);
        if eq {
            // equal byte images of ASCII character sequences force the
            // character sequences themselves to agree
            assert(mac_chars =~= sig_chars) by {
                assert forall|i: int| 0 <= i < mac_chars.len() implies mac_chars[i]
                    == sig_chars[i] by {
                    assert(bytes_of_chars(mac_chars)[i] == bytes_of_chars(sig_chars)[i]);
                    assert(mac_chars[i] as u8 == sig_chars[i] as u8);
                    assert('\0' <= mac_chars[i] <= '\u{7f}');
                    assert('\0' <= sig_chars[i] <= '\u{7f}');
                    assert(mac_chars[i] as int == mac_chars[i] as u8 as int);
                    assert(sig_chars[i] as int == sig_chars[i] as u8 as int);
                }
            }
        } else {
            if mac_chars == sig_chars {
                assert(bytes_of_chars(mac_chars) =~= bytes_of_chars(sig_chars));
                assert(false);
            }
        }
    }
    Ok(eq)
}

/// Hash-then-verify law: any password verifies against the stored form
/// built from it, under every well-formed salt the hasher could draw.
/// The second premise holds of every signature the signer actually
/// returns: its characters are base64url, hence ASCII.
pub proof fn lemma_verify_after_hash(pwd_bytes: Seq<u8>, salt: Seq<char>)
    requires
        salt_wf(salt),
        vstd::utf8::is_ascii_chars(hs256_sig_chars(bytes_of_chars(salt), pwd_bytes)),
    ensures
        password_matches(pwd_bytes, spec_hash_string(salt, pwd_bytes)),
{
    let h = spec_hash_string(salt, pwd_bytes);
    let sig = hs256_sig_chars(bytes_of_chars(salt), pwd_bytes);
    assert(h.subrange(0, 32) =~= salt);
    assert(h[32] == '$');
    assert(h.subrange(33, h.len() as int) =~= sig);
    assert(bytes_of_chars(h.subrange(0, 32)) =~= bytes_of_chars(salt));
    assert forall|i: int| 0 <= i < h.len() implies '\0' <= #[trigger] h[i] <= '\u{7f}' by {
        if i < 32 {
            assert(h[i] == salt[i]);
            assert(is_hex_char(salt[i]));
        } else if i > 32 {
            assert(h[i] == sig[i - 33]);
        }
    }
}

} // verus!
