//! Token claims and their JSON wire format.
//!
//! Claims travel inside a token as one JSON object,
//! `{"user_id":N,"email":"E","exp":N,"kind":"K"}`.  Serialization and
//! parsing are both
//! implemented and verified here, against a single canonical format: the
//! parser accepts exactly the serializer's output, so a token payload
//! round-trips to the claims it was built from.

use vstd::prelude::*;

use crate::ascii::{bytes_of_chars, chars_of_bytes, string_of_ascii_bytes, ascii_bytes_of_str};

verus! {

use crate::ascii::bytes_ascii;

/// The purpose a token was issued for.  The refresh flow accepts refresh
/// tokens only, so a short-lived access token cannot stand in for one.
#[derive(Clone, Copy, Debug, PartialEq, Eq, Structural)]
pub enum TokenKind {
    Access,
    Refresh,
}

/// The structured payload of a signed token: who the bearer is, until
/// when the token speaks for them (seconds since the Unix epoch), and
/// what it was issued for.
#[derive(Debug)]
pub struct Claims {
    pub user_id: i64,
    pub email: String,
    pub exp: usize,
    pub kind: TokenKind,
}

/// The mathematical value of a `Claims`.
pub struct ClaimsV {
    pub user_id: int,
    pub email: Seq<char>,
    pub exp: int,
    pub kind: TokenKind,
}

impl View for Claims {
    type V = ClaimsV;

    open spec fn view(&self) -> ClaimsV {
        ClaimsV {
            user_id: self.user_id as int,
            email: self.email@,
            exp: self.exp as int,
            kind: self.kind,
        }
    }
}

/// A character the claims JSON carries verbatim: printable ASCII except the
/// two characters JSON strings treat specially.
pub open spec fn email_char_ok(c: char) -> bool {
    ' ' <= c <= '~' && c != '"' && c != '\\'
}

/// An email the wire format can carry.
pub open spec fn email_wire_ok(s: Seq<char>) -> bool {
    forall|i: int| 0 <= i < s.len() ==> email_char_ok(#[trigger] s[i])
}

/// The byte-level counterpart of `email_char_ok`.
pub open spec fn wire_byte_ok(b: u8) -> bool {
    32 <= b <= 126 && b != 34 && b != 92
}

/// The largest number of digits either numeric field may have on the wire.
/// Nineteen digits keep every accepted value below `10^19`, inside both
/// `u64` and the magnitude range of `i64` arithmetic used while parsing.
pub const MAX_NUM_DIGITS: usize = 19;

/// `10^k`.
pub open spec fn pow10(k: nat) -> int
    decreases k,
{
    if k == 0 {
        1
    } else {
        10 * pow10((k - 1) as nat)
    }
}

/// Claims the wire format can carry: an `i64` user id, a representable
/// email, and an expiry whose decimal form fits the parser's digit bound.
pub open spec fn wf_claims(c: ClaimsV) -> bool {
    &&& -0x8000_0000_0000_0000 <= c.user_id <= 0x7fff_ffff_ffff_ffff
    &&& email_wire_ok(c.email)
    &&& 0 <= c.exp <= usize::MAX
    &&& c.exp < pow10(MAX_NUM_DIGITS as nat)
}

/// The decimal digits of `n >= 0`, most significant first, no leading zero.
pub open spec fn dec_digits(n: int) -> Seq<u8>
    decreases n,
{
    if n < 10 {
        seq![(48 + if n >= 0 { n } else { 0 }) as u8]
    } else {
        dec_digits(n / 10) + seq![(48 + n % 10) as u8]
    }
}

/// The decimal form of an integer: a minus sign for negative values.
pub open spec fn int_json(n: int) -> Seq<u8> {
    if n < 0 {
        seq![45u8] + dec_digits(-n)
    } else {
        dec_digits(n)
    }
}

/// `{"user_id":` — the opening of the claims object.
pub open spec fn key_user_id() -> Seq<u8> {
    seq![
        '{' as u8,
        '"' as u8,
        'u' as u8,
        's' as u8,
        'e' as u8,
        'r' as u8,
        '_' as u8,
        'i' as u8,
        'd' as u8,
        '"' as u8,
        ':' as u8,
    ]
}

/// `,"email":"` — between the user id and the email value.
pub open spec fn key_email() -> Seq<u8> {
    seq![
        ',' as u8,
        '"' as u8,
        'e' as u8,
        'm' as u8,
        'a' as u8,
        'i' as u8,
        'l' as u8,
        '"' as u8,
        ':' as u8,
        '"' as u8,
    ]
}

/// `","exp":` — closes the email string and opens the expiry field.
pub open spec fn key_exp() -> Seq<u8> {
    seq!['"' as u8, ',' as u8, '"' as u8, 'e' as u8, 'x' as u8, 'p' as u8, '"' as u8, ':' as u8]
}

/// `,"kind":"` — closes the expiry field and opens the kind field.
pub open spec fn key_kind() -> Seq<u8> {
    seq![
        ',' as u8,
        '"' as u8,
        'k' as u8,
        'i' as u8,
        'n' as u8,
        'd' as u8,
        '"' as u8,
        ':' as u8,
        '"' as u8,
    ]
}

/// The kind value together with the closing quote and brace.
pub open spec fn kind_tail(k: TokenKind) -> Seq<u8> {
    match k {
        TokenKind::Access => seq![
            'a' as u8,
            'c' as u8,
            'c' as u8,
            'e' as u8,
            's' as u8,
            's' as u8,
            '"' as u8,
            '}' as u8,
        ],
        TokenKind::Refresh => seq![
            'r' as u8,
            'e' as u8,
            'f' as u8,
            'r' as u8,
            'e' as u8,
            's' as u8,
            'h' as u8,
            '"' as u8,
            '}' as u8,
        ],
    }
}

/// The canonical JSON bytes of a claims value.
pub open spec fn spec_claims_json(c: ClaimsV) -> Seq<u8> {
    key_user_id() + int_json(c.user_id) + key_email() + bytes_of_chars(c.email) + key_exp()
        + dec_digits(c.exp) + key_kind() + kind_tail(c.kind)
}

/// A decimal digit byte.
pub open spec fn is_digit(b: u8) -> bool {
    48 <= b <= 57
}

/// The value of a digit sequence read in base ten.
pub open spec fn digits_val(s: Seq<u8>) -> int
    decreases s.len(),
{
    if s.len() == 0 {
        0
    } else {
        digits_val(s.take(s.len() - 1)) * 10 + (s.last() - 48)
    }
}

/// The first position at or after `from` that does not hold a digit.
pub open spec fn digit_run(s: Seq<u8>, from: int) -> int
    decreases s.len() - from,
{
    if from < 0 || from >= s.len() {
        s.len() as int
    } else if is_digit(s[from]) {
        digit_run(s, from + 1)
    } else {
        from
    }
}

/// The first position at or after `from` that does not hold a verbatim
/// string character.
pub open spec fn email_run(s: Seq<u8>, from: int) -> int
    decreases s.len() - from,
{
    if from < 0 || from >= s.len() {
        s.len() as int
    } else if wire_byte_ok(s[from]) {
        email_run(s, from + 1)
    } else {
        from
    }
}

/// Every byte `dec_digits` writes is a digit.
pub proof fn lemma_dec_digits_are_digits(n: int)
    ensures
        forall|i: int| 0 <= i < dec_digits(n).len() ==> is_digit(#[trigger] dec_digits(n)[i]),
        dec_digits(n).len() >= 1,
    decreases n,
{
    if n >= 10 {
        lemma_dec_digits_are_digits(n / 10);
        let d = dec_digits(n);
        let pre = dec_digits(n / 10);
        assert forall|i: int| 0 <= i < d.len() implies is_digit(d[i]) by {
            if i < pre.len() {
                assert(d[i] == pre[i]);
            }
        }
    }
}

/// Reading the digits of `n` back gives `n`.
pub proof fn lemma_digits_val_dec_digits(n: int)
    requires
        n >= 0,
    ensures
        digits_val(dec_digits(n)) == n,
    decreases n,
{
    if n < 10 {
        let d = dec_digits(n);
        assert(d =~= seq![(48 + n) as u8]);
        assert(d.len() == 1);
        assert(d.take(0) =~= Seq::<u8>::empty());
        assert(digits_val(d.take(0)) == 0);
        assert(d.last() == (48 + n) as u8);
        assert((48 + n) as u8 - 48 == n);
        assert(digits_val(d) == digits_val(d.take(0)) * 10 + (d.last() - 48));
    } else {
        lemma_digits_val_dec_digits(n / 10);
        let d = dec_digits(n);
        let pre = dec_digits(n / 10);
        assert(d =~= pre + seq![(48 + n % 10) as u8]);
        assert(d.take(d.len() - 1) =~= pre);
        assert(d.last() == (48 + n % 10) as u8);
        assert((48 + n % 10) as u8 - 48 == n % 10);
        assert(digits_val(d) == digits_val(d.take(d.len() - 1)) * 10 + (d.last() - 48));
        assert(digits_val(d) == (n / 10) * 10 + n % 10);
    }
}

/// A positive number's decimal form never begins with a zero.
pub proof fn lemma_dec_digits_no_leading_zero(n: int)
    requires
        n >= 1,
    ensures
        dec_digits(n)[0] != 48,
    decreases n,
{
    if n >= 10 {
        lemma_dec_digits_no_leading_zero(n / 10);
        assert(dec_digits(n)[0] == dec_digits(n / 10)[0]);
    }
}

/// A digit sequence of length `k` reads to a value below `10^k`.
pub proof fn lemma_digits_val_bound(s: Seq<u8>)
    requires
        forall|i: int| 0 <= i < s.len() ==> is_digit(#[trigger] s[i]),
    ensures
        0 <= digits_val(s) < pow10(s.len() as nat),
    decreases s.len(),
{
    if s.len() > 0 {
        let pre = s.take(s.len() - 1);
        assert(forall|i: int| 0 <= i < pre.len() ==> is_digit(#[trigger] pre[i]));
        lemma_digits_val_bound(pre);
        assert(s.last() - 48 <= 9);
    }
}

/// `n` has fewer than `k` digits when `n < 10^k`.
pub proof fn lemma_dec_digits_len(n: int, k: nat)
    requires
        0 <= n < pow10(k),
        k >= 1,
    ensures
        dec_digits(n).len() <= k,
    decreases n,
{
    if n >= 10 {
        assert(pow10(k) == 10 * pow10((k - 1) as nat));
        lemma_dec_digits_len(n / 10, (k - 1) as nat);
    }
}

/// `digit_run` lands exactly on the first non-digit boundary.
pub proof fn lemma_digit_run_char(s: Seq<u8>, from: int, to: int)
    requires
        0 <= from <= to <= s.len(),
        forall|i: int| from <= i < to ==> is_digit(#[trigger] s[i]),
        to == s.len() || !is_digit(s[to]),
    ensures
        digit_run(s, from) == to,
    decreases to - from,
{
    if from < to {
        lemma_digit_run_char(s, from + 1, to);
    }
}

/// Appends the decimal digits of `n`.
pub fn push_dec_u64(out: &mut Vec<u8>, n: u64)
    ensures
        final(out)@ == old(out)@ + dec_digits(n as int),
    decreases n,
{
    if n < 10 {
        out.push(48 + (n as u8));
        proof {
            assert(out@ =~= old(out)@ + dec_digits(n as int));
        }
    } else {
        push_dec_u64(out, n / 10);
        out.push(48 + ((n % 10) as u8));
        proof {
            assert(dec_digits(n as int) =~= dec_digits(n as int / 10) + seq![
                (48 + n as int % 10) as u8,
            ]);
            assert(out@ =~= old(out)@ + dec_digits(n as int));
        }
    }
}

/// Appends the decimal form of `n`, minus sign included.
pub fn push_dec_i64(out: &mut Vec<u8>, n: i64)
    ensures
        final(out)@ == old(out)@ + int_json(n as int),
{
    if n < 0 {
        let m: u64 = ((-(n + 1)) as u64) + 1;
        proof {
            assert(m as int == -(n as int));
        }
        out.push(45);
        push_dec_u64(out, m);
        proof {
            assert(int_json(n as int) =~= seq![45u8] + dec_digits(m as int));
            assert(out@ =~= old(out)@ + int_json(n as int));
        }
    } else {
        push_dec_u64(out, n as u64);
    }
}

/// Appends `{"user_id":`.
pub fn push_key_user_id(out: &mut Vec<u8>)
    ensures
        final(out)@ == old(out)@ + key_user_id(),
{
    out.push(123);
    out.push(34);
    out.push(117);
    out.push(115);
    out.push(101);
    out.push(114);
    out.push(95);
    out.push(105);
    out.push(100);
    out.push(34);
    out.push(58);
    proof {
        assert(out@ =~= old(out)@ + key_user_id());
    }
}

/// Appends `,"email":"`.
pub fn push_key_email(out: &mut Vec<u8>)
    ensures
        final(out)@ == old(out)@ + key_email(),
{
    out.push(44);
    out.push(34);
    out.push(101);
    out.push(109);
    out.push(97);
    out.push(105);
    out.push(108);
    out.push(34);
    out.push(58);
    out.push(34);
    proof {
        assert(out@ =~= old(out)@ + key_email());
    }
}

/// Appends `","exp":`.
pub fn push_key_exp(out: &mut Vec<u8>)
    ensures
        final(out)@ == old(out)@ + key_exp(),
{
    out.push(34);
    out.push(44);
    out.push(34);
    out.push(101);
    out.push(120);
    out.push(112);
    out.push(34);
    out.push(58);
    proof {
        assert(out@ =~= old(out)@ + key_exp());
    }
}

/// Appends `,"kind":"`.
pub fn push_key_kind(out: &mut Vec<u8>)
    ensures
        final(out)@ == old(out)@ + key_kind(),
{
    out.push(44);
    out.push(34);
    out.push(107);
    out.push(105);
    out.push(110);
    out.push(100);
    out.push(34);
    out.push(58);
    out.push(34);
    proof {
        assert(out@ =~= old(out)@ + key_kind());
    }
}

/// Appends the kind value, closing quote and brace.
pub fn push_kind_tail(out: &mut Vec<u8>, k: TokenKind)
    ensures
        final(out)@ == old(out)@ + kind_tail(k),
{
    match k {
        TokenKind::Access => {
            out.push(97);
            out.push(99);
            out.push(99);
            out.push(101);
            out.push(115);
            out.push(115);
        },
        TokenKind::Refresh => {
            out.push(114);
            out.push(101);
            out.push(102);
            out.push(114);
            out.push(101);
            out.push(115);
            out.push(104);
        },
    }
    out.push(34);
    out.push(125);
    proof {
        assert(out@ =~= old(out)@ + kind_tail(k));
    }
}

/// Checks that every byte can stand verbatim inside the JSON string.
pub fn all_wire_bytes_ok(b: &Vec<u8>) -> (r: bool)
    ensures
        r == forall|i: int| 0 <= i < b@.len() ==> wire_byte_ok(#[trigger] b@[i]),
{
    let n = b.len();
    let mut i: usize = 0;
    while i < n
        invariant
            i <= n,
            n == b@.len(),
            forall|j: int| 0 <= j < i ==> wire_byte_ok(#[trigger] b@[j]),
        decreases n - i,
    {
        let x = b[i];
        if !(32 <= x && x <= 126 && x != 34 && x != 92) {
            return false;
        }
        i = i + 1;
    }
    true
}

/// Whether an email can stand verbatim in the claims JSON.
pub fn email_encodable(email: &str) -> (r: bool)
    ensures
        r == email_wire_ok(email@),
{
    match ascii_bytes_of_str(email) {
        None => {
            proof {
                let s = email@;
                assert(!vstd::utf8::is_ascii_chars(s));
                assert(exists|i: int| 0 <= i < s.len() && !('\0' <= #[trigger] s[i] <= '\u{7f}'));
                let i = choose|i: int| 0 <= i < s.len() && !('\0' <= #[trigger] s[i] <= '\u{7f}');
                assert(!email_char_ok(s[i]));
            }
            false
        },
        Some(eb) => {
            let ok = all_wire_bytes_ok(&eb);
            proof {
                let s = email@;
                if ok {
                    assert forall|i: int| 0 <= i < s.len() implies email_char_ok(
                        #[trigger] s[i],
                    ) by {
                        assert(wire_byte_ok(eb@[i]));
                        assert(eb@[i] == s[i] as u8);
                        assert('\0' <= s[i] <= '\u{7f}');
                    }
                } else {
                    let i = choose|i: int| 0 <= i < eb@.len() && !wire_byte_ok(#[trigger] eb@[i]);
                    assert(eb@[i] == s[i] as u8);
                    assert('\0' <= s[i] <= '\u{7f}');
                    assert(!email_char_ok(s[i]));
                }
            }
            ok
        },
    }
}

/// The canonical JSON bytes of `c`, or `None` when the email holds a
/// character the wire format cannot carry.
pub fn claims_json_bytes(c: &Claims) -> (r: Option<Vec<u8>>)
    ensures
        r is Some <==> email_wire_ok(c.email@),
        r matches Some(v) ==> v@ == spec_claims_json(c@),
{
    let eb = match ascii_bytes_of_str(c.email.as_str()) {
        Some(eb) => eb,
        None => {
            proof {
                let s = c.email@;
                assert(!vstd::utf8::is_ascii_chars(s));
                assert(exists|i: int| 0 <= i < s.len() && !('\0' <= #[trigger] s[i] <= '\u{7f}'));
                let i = choose|i: int| 0 <= i < s.len() && !('\0' <= #[trigger] s[i] <= '\u{7f}');
                assert(!email_char_ok(s[i]));
            }
            return None;
        },
    };
    if !all_wire_bytes_ok(&eb) {
        proof {
            let s = c.email@;
            let i = choose|i: int| 0 <= i < eb@.len() && !wire_byte_ok(#[trigger] eb@[i]);
            assert(eb@[i] == s[i] as u8);
            assert('\0' <= s[i] <= '\u{7f}');
            assert(!email_char_ok(s[i]));
        }
        return None;
    }
    proof {
        let s = c.email@;
        assert forall|i: int| 0 <= i < s.len() implies email_char_ok(#[trigger] s[i]) by {
            assert(wire_byte_ok(eb@[i]));
            assert(eb@[i] == s[i] as u8);
            assert('\0' <= s[i] <= '\u{7f}');
        }
    }
    let mut out: Vec<u8> = Vec::new();
    push_key_user_id(&mut out);
    push_dec_i64(&mut out, c.user_id);
    push_key_email(&mut out);
    let mut email_bytes = eb;
    out.append(&mut email_bytes);
    push_key_exp(&mut out);
    push_dec_u64(&mut out, c.exp as u64);
    push_key_kind(&mut out);
    push_kind_tail(&mut out, c.kind);
    proof {
        assert(out@ =~= spec_claims_json(c@));
    }
    Some(out)
}

/// `email_run` lands exactly on the first non-verbatim boundary.
pub proof fn lemma_email_run_char(s: Seq<u8>, from: int, to: int)
    requires
        0 <= from <= to <= s.len(),
        forall|i: int| from <= i < to ==> wire_byte_ok(#[trigger] s[i]),
        to == s.len() || !wire_byte_ok(s[to]),
    ensures
        email_run(s, from) == to,
    decreases to - from,
{
    if from < to {
        lemma_email_run_char(s, from + 1, to);
    }
}

/// Parses the canonical claims JSON.  `None` unless the whole byte
/// sequence is exactly `spec_claims_json` of some well-formed claims value;
/// digits may not start with a redundant zero, a negative zero is refused,
/// and both numbers must fit the wire bounds.
pub open spec fn spec_parse_claims(s: Seq<u8>) -> Option<ClaimsV> {
    let p0 = key_user_id().len() as int;
    if s.len() < p0 || s.subrange(0, p0) != key_user_id() {
        None
    } else {
        let neg = p0 < s.len() && s[p0] == 45;
        let d0 = if neg {
            p0 + 1
        } else {
            p0
        };
        let d1 = digit_run(s, d0);
        let mag = digits_val(s.subrange(d0, d1));
        let uid = if neg {
            -mag
        } else {
            mag
        };
        if d1 == d0 || d1 - d0 > MAX_NUM_DIGITS || (d1 - d0 > 1 && s[d0] == 48) || (neg && mag
            == 0) || !(-0x8000_0000_0000_0000 <= uid <= 0x7fff_ffff_ffff_ffff) {
            None
        } else if s.len() < d1 + 10 || s.subrange(d1, d1 + 10) != key_email() {
            None
        } else {
            let e0 = d1 + 10;
            let e1 = email_run(s, e0);
            if e1 >= s.len() || s[e1] != 34 {
                None
            } else if s.len() < e1 + 8 || s.subrange(e1, e1 + 8) != key_exp() {
                None
            } else {
                let x0 = e1 + 8;
                let x1 = digit_run(s, x0);
                let exp = digits_val(s.subrange(x0, x1));
                if x1 == x0 || x1 - x0 > MAX_NUM_DIGITS || (x1 - x0 > 1 && s[x0] == 48) || exp
                    > usize::MAX {
                    None
                } else if s.len() < x1 + 9 || s.subrange(x1, x1 + 9) != key_kind() {
                    None
                } else if s.subrange(x1 + 9, s.len() as int) == kind_tail(TokenKind::Access) {
                    Some(
                        ClaimsV {
                            user_id: uid,
                            email: chars_of_bytes(s.subrange(e0, e1)),
                            exp,
                            kind: TokenKind::Access,
                        },
                    )
                } else if s.subrange(x1 + 9, s.len() as int) == kind_tail(TokenKind::Refresh) {
                    Some(
                        ClaimsV {
                            user_id: uid,
                            email: chars_of_bytes(s.subrange(e0, e1)),
                            exp,
                            kind: TokenKind::Refresh,
                        },
                    )
                } else {
                    None
                }
            }
        }
    }
}

/// `10^a <= 10^b` when `a <= b`.
pub proof fn lemma_pow10_mono(a: nat, b: nat)
    requires
        a <= b,
    ensures
        pow10(a) <= pow10(b),
        pow10(a) >= 1,
    decreases b,
{
    if b > 0 {
        if a == b {
            lemma_pow10_mono((b - 1) as nat, (b - 1) as nat);
        } else {
            lemma_pow10_mono(a, (b - 1) as nat);
        }
    }
}

/// Whether a vector carries `pat` starting at `from`.
fn subrange_eq(v: &Vec<u8>, from: usize, pat: &Vec<u8>) -> (r: bool)
    ensures
        r == (from + pat@.len() <= v@.len() && v@.subrange(
            from as int,
            from as int + pat@.len(),
        ) == pat@),
{
    let m = pat.len();
    let n = v.len();
    if from > n || m > n - from {
        return false;
    }
    let mut i: usize = 0;
    while i < m
        invariant
            i <= m,
            m == pat@.len(),
            n == v@.len(),
            from + m <= n,
            forall|j: int| 0 <= j < i ==> v@[from + j] == pat@[j],
        decreases m - i,
    {
        if v[from + i] != pat[i] {
            proof {
                let sub = v@.subrange(from as int, from as int + m);
                assert(sub[i as int] != pat@[i as int]);
            }
            return false;
        }
        i = i + 1;
    }
    proof {
        assert(v@.subrange(from as int, from as int + m) =~= pat@);
    }
    true
}

/// The end of the digit run starting at `from`.
fn scan_digits(v: &Vec<u8>, from: usize) -> (r: usize)
    requires
        from <= v@.len(),
    ensures
        from <= r <= v@.len(),
        r as int == digit_run(v@, from as int),
        forall|j: int| from <= j < r ==> is_digit(#[trigger] v@[j]),
{
    let n = v.len();
    let mut i = from;
    while i < n && 48 <= v[i] && v[i] <= 57
        invariant
            from <= i <= n,
            n == v@.len(),
            forall|j: int| from <= j < i ==> is_digit(#[trigger] v@[j]),
        decreases n - i,
    {
        i = i + 1;
    }
    proof {
        lemma_digit_run_char(v@, from as int, i as int);
    }
    i
}

/// The end of the verbatim-character run starting at `from`.
fn scan_email(v: &Vec<u8>, from: usize) -> (r: usize)
    requires
        from <= v@.len(),
    ensures
        from <= r <= v@.len(),
        r as int == email_run(v@, from as int),
        forall|j: int| from <= j < r ==> wire_byte_ok(#[trigger] v@[j]),
{
    let n = v.len();
    let mut i = from;
    while i < n && 32 <= v[i] && v[i] <= 126 && v[i] != 34 && v[i] != 92
        invariant
            from <= i <= n,
            n == v@.len(),
            forall|j: int| from <= j < i ==> wire_byte_ok(#[trigger] v@[j]),
        decreases n - i,
    {
        i = i + 1;
    }
    proof {
        lemma_email_run_char(v@, from as int, i as int);
    }
    i
}

/// Reads a run of at most `MAX_NUM_DIGITS` digits as a `u64`.
fn parse_u64(v: &Vec<u8>, from: usize, to: usize) -> (r: u64)
    requires
        from <= to <= v@.len(),
        to - from <= MAX_NUM_DIGITS,
        forall|j: int| from <= j < to ==> is_digit(#[trigger] v@[j]),
    ensures
        r as int == digits_val(v@.subrange(from as int, to as int)),
{
    let mut acc: u64 = 0;
    let mut i = from;
    proof {
        assert(v@.subrange(from as int, from as int) =~= Seq::<u8>::empty());
    }
    while i < to
        invariant
            from <= i <= to,
            to <= v@.len(),
            to - from <= MAX_NUM_DIGITS,
            forall|j: int| from <= j < to ==> is_digit(#[trigger] v@[j]),
            acc as int == digits_val(v@.subrange(from as int, i as int)),
        decreases to - i,
    {
        proof {
            let pre = v@.subrange(from as int, i as int);
            assert(forall|j: int| 0 <= j < pre.len() ==> is_digit(#[trigger] pre[j]));
            lemma_digits_val_bound(pre);
            lemma_pow10_mono(pre.len() as nat, (MAX_NUM_DIGITS - 1) as nat);
            reveal_with_fuel(pow10, 20);
            assert(pow10((MAX_NUM_DIGITS - 1) as nat) == 1_000_000_000_000_000_000);
        }
        let d = v[i] - 48;
        acc = acc * 10 + (d as u64);
        proof {
            let pre = v@.subrange(from as int, i as int);
            let cur = v@.subrange(from as int, i as int + 1);
            assert(cur.take(cur.len() - 1) =~= pre);
            assert(cur.last() == v@[i as int]);
        }
        i = i + 1;
    }
    proof {
        assert(v@.subrange(from as int, to as int) =~= v@.subrange(from as int, i as int));
    }
    acc
}

/// A copy of `v[from..to]`.
pub fn subvec_bytes(v: &Vec<u8>, from: usize, to: usize) -> (r: Vec<u8>)
    requires
        from <= to <= v@.len(),
    ensures
        r@ == v@.subrange(from as int, to as int),
{
    let mut out: Vec<u8> = Vec::new();
    let mut i = from;
    while i < to
        invariant
            from <= i <= to,
            to <= v@.len(),
            out@ =~= v@.subrange(from as int, i as int),
        decreases to - i,
    {
        out.push(v[i]);
        proof {
            assert(out@ =~= v@.subrange(from as int, i as int + 1));
        }
        i = i + 1;
    }
    proof {
        assert(out@ =~= v@.subrange(from as int, to as int));
    }
    out
}

/// Parses the canonical claims JSON bytes.  Accepts exactly the output of
/// `claims_json_bytes`, and returns a well-formed claims value.
pub fn parse_claims_bytes(v: &Vec<u8>) -> (r: Option<Claims>)
    ensures
        r is Some <==> spec_parse_claims(v@) is Some,
        r matches Some(c) ==> Some(c@) == spec_parse_claims(v@) && wf_claims(c@),
{
    let n = v.len();
    let mut key1: Vec<u8> = Vec::new();
    push_key_user_id(&mut key1);
    if !subrange_eq(v, 0, &key1) {
        return None;
    }
    let p0: usize = 11;
    proof {
        assert(key_user_id().len() == 11);
    }
    let neg = p0 < n && v[p0] == 45;
    let d0 = if neg {
        12
    } else {
        11
    };
    let d1 = scan_digits(v, d0);
    if d1 == d0 || d1 - d0 > MAX_NUM_DIGITS {
        return None;
    }
    if d1 - d0 > 1 && v[d0] == 48 {
        return None;
    }
    let mag = parse_u64(v, d0, d1);
    if neg && mag == 0 {
        return None;
    }
    let uid: i64 = if neg {
        if mag > 9_223_372_036_854_775_808u64 {
            return None;
        } else if mag == 9_223_372_036_854_775_808u64 {
            i64::MIN
        } else {
            -(mag as i64)
        }
    } else {
        if mag > 9_223_372_036_854_775_807u64 {
            return None;
        }
        mag as i64
    };
    let mut key2: Vec<u8> = Vec::new();
    push_key_email(&mut key2);
    if !subrange_eq(v, d1, &key2) {
        return None;
    }
    let e0 = d1 + 10;
    let e1 = scan_email(v, e0);
    if e1 == n {
        return None;
    }
    if v[e1] != 34 {
        return None;
    }
    let mut key3: Vec<u8> = Vec::new();
    push_key_exp(&mut key3);
    if !subrange_eq(v, e1, &key3) {
        return None;
    }
    let x0 = e1 + 8;
    let x1 = scan_digits(v, x0);
    if x1 == x0 || x1 - x0 > MAX_NUM_DIGITS {
        return None;
    }
    if x1 - x0 > 1 && v[x0] == 48 {
        return None;
    }
    let expv = parse_u64(v, x0, x1);
    if expv > usize::MAX as u64 {
        return None;
    }
    let mut key4: Vec<u8> = Vec::new();
    push_key_kind(&mut key4);
    if !subrange_eq(v, x1, &key4) {
        return None;
    }
    let k0 = x1 + 9;
    let mut tail_access: Vec<u8> = Vec::new();
    push_kind_tail(&mut tail_access, TokenKind::Access);
    let mut tail_refresh: Vec<u8> = Vec::new();
    push_kind_tail(&mut tail_refresh, TokenKind::Refresh);
    let kind: TokenKind = if n - k0 == 8 && subrange_eq(v, k0, &tail_access) {
        proof {
            assert(v@.subrange(k0 as int, n as int) == kind_tail(TokenKind::Access));
        }
        TokenKind::Access
    } else if n - k0 == 9 && subrange_eq(v, k0, &tail_refresh) {
        proof {
            assert(v@.subrange(k0 as int, n as int) != kind_tail(TokenKind::Access));
            assert(v@.subrange(k0 as int, n as int) == kind_tail(TokenKind::Refresh));
        }
        TokenKind::Refresh
    } else {
        proof {
            assert(v@.subrange(k0 as int, n as int) != kind_tail(TokenKind::Access));
            assert(v@.subrange(k0 as int, n as int) != kind_tail(TokenKind::Refresh));
        }
        return None;
    };
    let email_bytes = subvec_bytes(v, e0, e1);
    proof {
        assert(bytes_ascii(email_bytes@));
    }
    let email = string_of_ascii_bytes(email_bytes);
    proof {
        let s = v@;
        let ev = chars_of_bytes(s.subrange(e0 as int, e1 as int));
        assert(email@ =~= ev);
        assert forall|i: int| 0 <= i < ev.len() implies email_char_ok(#[trigger] ev[i]) by {
            assert(wire_byte_ok(s.subrange(e0 as int, e1 as int)[i]));
        }
        let digs = s.subrange(x0 as int, x1 as int);
        lemma_digits_val_bound(digs);
        lemma_pow10_mono(digs.len() as nat, MAX_NUM_DIGITS as nat);
    }
    Some(Claims { user_id: uid, email, exp: expv as usize, kind })
}


/// The parser accepts exactly the serializer's output: the canonical JSON
/// of any well-formed claims value parses back to that value.
#[verifier::rlimit(100)]
pub proof fn lemma_claims_round_trip(c: ClaimsV)
    requires
        wf_claims(c),
    ensures
        spec_parse_claims(spec_claims_json(c)) == Some(c),
{
    let s = spec_claims_json(c);
    let ka = key_user_id();
    let b = int_json(c.user_id);
    let kb = key_email();
    let d = bytes_of_chars(c.email);
    let kc = key_exp();
    let f = dec_digits(c.exp);
    let kd = key_kind();
    let tl = kind_tail(c.kind);

    let neg = c.user_id < 0;
    let mag = if neg {
        -c.user_id
    } else {
        c.user_id
    };
    let m = dec_digits(mag);
    lemma_dec_digits_are_digits(mag);
    lemma_dec_digits_are_digits(c.exp);
    lemma_digits_val_dec_digits(mag);
    lemma_digits_val_dec_digits(c.exp);
    reveal_with_fuel(pow10, 20);
    lemma_dec_digits_len(mag, MAX_NUM_DIGITS as nat);
    lemma_dec_digits_len(c.exp, MAX_NUM_DIGITS as nat);

    assert(b =~= if neg { seq![45u8] + m } else { m });

    let d0: int = if neg {
        12
    } else {
        11
    };
    let d1 = d0 + m.len();
    let e0 = d1 + 10;
    let e1 = e0 + d.len();
    let x0 = e1 + 8;
    let x1 = x0 + f.len();
    assert(s.len() == 11 + b.len() + 10 + d.len() + 8 + f.len() + 9 + tl.len());
    assert(s.len() == x1 + 9 + tl.len());

    assert(s.subrange(0, 11) =~= ka);
    if neg {
        assert(s[11] == 45);
    } else {
        assert(s[11] == m[0]);
        assert(is_digit(m[0]));
        assert(s[11] != 45);
    }
    assert(s.subrange(d0, d1) =~= m);
    assert(s[d1] == kb[0]);
    assert(s[d1] == ',' as u8);
    assert(!is_digit(s[d1]));
    assert forall|j: int| d0 <= j < d1 implies is_digit(#[trigger] s[j]) by {
        assert(s[j] == m[j - d0]);
    }
    lemma_digit_run_char(s, d0, d1);

    assert(digits_val(s.subrange(d0, d1)) == mag);
    assert(m.len() >= 1);
    if m.len() > 1 {
        assert(mag >= 10);
        lemma_dec_digits_no_leading_zero(mag);
        assert(s[d0] == m[0]);
        assert(s[d0] != 48);
    }
    if neg {
        assert(mag >= 1);
    }

    assert(s.subrange(d1, d1 + 10) =~= kb);
    assert forall|j: int| e0 <= j < e1 implies wire_byte_ok(#[trigger] s[j]) by {
        assert(s[j] == d[j - e0]);
        assert(d[j - e0] == c.email[j - e0] as u8);
        assert(email_char_ok(c.email[j - e0]));
    }
    assert(s[e1] == kc[0]);
    assert(s[e1] == 34);
    assert(!wire_byte_ok(s[e1]));
    lemma_email_run_char(s, e0, e1);

    assert(s.subrange(e1, e1 + 8) =~= kc);
    assert(s.subrange(x0, x1) =~= f);
    assert forall|j: int| x0 <= j < x1 implies is_digit(#[trigger] s[j]) by {
        assert(s[j] == f[j - x0]);
    }
    assert(s[x1] == kd[0]);
    assert(s[x1] == ',' as u8);
    assert(!is_digit(s[x1]));
    lemma_digit_run_char(s, x0, x1);
    assert(s.subrange(x1, x1 + 9) =~= kd);
    assert(s.subrange(x1 + 9, s.len() as int) =~= tl);
    if c.kind is Refresh {
        assert(kind_tail(TokenKind::Access).len() == 8);
        assert(tl.len() == 9);
        assert(s.subrange(x1 + 9, s.len() as int) != kind_tail(TokenKind::Access));
    }

    assert(digits_val(s.subrange(x0, x1)) == c.exp);
    assert(f.len() >= 1);
    if f.len() > 1 {
        assert(c.exp >= 10);
        lemma_dec_digits_no_leading_zero(c.exp);
        assert(s[x0] == f[0]);
        assert(s[x0] != 48);
    }

    assert(s.subrange(e0, e1) =~= d);
    assert forall|i: int| 0 <= i < c.email.len() implies '\0' <= #[trigger] c.email[i]
        <= '\u{7f}' by {
        assert(email_char_ok(c.email[i]));
    }
    vstd::utf8::is_ascii_chars_encode_utf8(c.email);
    crate::ascii::lemma_encode_utf8_ascii(c.email);
    assert(chars_of_bytes(s.subrange(e0, e1)) =~= c.email);

    match spec_parse_claims(s) {
        Some(p) => {
            assert(p.user_id == c.user_id);
            assert(p.email =~= c.email);
            assert(p.exp == c.exp);
            assert(p.kind == c.kind);
            assert(p == c);
        },
        None => {
            assert(false);
        },
    }
}

} // verus!
