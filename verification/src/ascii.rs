//! Byte-level view of ASCII strings.
//!
//! The token and hash wire formats are ASCII, and all of their codec logic
//! works over byte sequences.  This module holds the spec-level
//! correspondence between ASCII byte sequences and character sequences, and
//! the one conversion from verified bytes back into a `String`.

use vstd::prelude::*;

verus! {

use vstd::string::StrSliceExecFns;

/// The characters an ASCII byte sequence spells.
pub open spec fn chars_of_bytes(b: Seq<u8>) -> Seq<char> {
    b.map(|_i: int, x: u8| x as char)
}

/// The bytes an ASCII character sequence is stored as.
pub open spec fn bytes_of_chars(s: Seq<char>) -> Seq<u8> {
    s.map(|_i: int, c: char| c as u8)
}

/// Every byte is in the ASCII range.
pub open spec fn bytes_ascii(b: Seq<u8>) -> bool {
    forall|i: int| 0 <= i < b.len() ==> b[i] < 128
}

/// On ASCII character sequences, the UTF-8 encoding is exactly the bytes of
/// the characters, so the two byte-level views agree.
pub proof fn lemma_encode_utf8_ascii(s: Seq<char>)
    requires
        vstd::utf8::is_ascii_chars(s),
    ensures
        vstd::utf8::encode_utf8(s) =~= bytes_of_chars(s),
        chars_of_bytes(bytes_of_chars(s)) =~= s,
        bytes_ascii(bytes_of_chars(s)),
{
    vstd::utf8::is_ascii_chars_encode_utf8(s);
}

/// Relies on `String::from_utf8`: a byte vector that is valid UTF-8 becomes
/// the string those bytes encode; bytes below 128 each encode their own
/// code point.
#[verifier::external_body]
pub fn string_of_ascii_bytes(b: Vec<u8>) -> (r: String)
    requires
        bytes_ascii(b@),
    ensures
        r@ == chars_of_bytes(b@),
{
    match String::from_utf8(b) {
        Ok(s) => s,
        Err(_) => String::new(),
    }
}

/// The bytes a string is stored as, together with the fact that for an
/// ASCII string they are exactly the bytes of its characters.
pub fn ascii_bytes_of_str(s: &str) -> (r: Option<Vec<u8>>)
    ensures
        vstd::utf8::is_ascii_chars(s@) ==> (r matches Some(b) && b@ == bytes_of_chars(s@)),
        !vstd::utf8::is_ascii_chars(s@) ==> r is None,
        r matches Some(b) ==> bytes_ascii(b@) && b@ == bytes_of_chars(s@),
{
    if s.is_ascii() {
        let b = s.as_bytes_vec();
        proof {
            lemma_encode_utf8_ascii(s@);
        }
        Some(b)
    } else {
        None
    }
}

} // verus!
