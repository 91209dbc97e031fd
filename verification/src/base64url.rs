//! Unpadded base64url, the encoding every token segment uses.
//!
//! Both directions are implemented and verified here, with a proof that
//! decoding inverts encoding.  Decoding is strict: it rejects characters
//! outside the alphabet, impossible lengths, and non-canonical trailing
//! bits, so every byte sequence has exactly one accepted encoding.

use vstd::prelude::*;

verus! {

/// The alphabet byte that stands for a six-bit value.
pub open spec fn b64_byte_of_val(v: int) -> u8 {
    if v < 26 {
        (65 + v) as u8
    } else if v < 52 {
        (97 + (v - 26)) as u8
    } else if v < 62 {
        (48 + (v - 52)) as u8
    } else if v == 62 {
        45u8
    } else {
        95u8
    }
}

/// Whether a byte belongs to the base64url alphabet
/// (`A-Z`, `a-z`, `0-9`, `-`, `_`).
pub open spec fn is_b64_byte(b: u8) -> bool {
    (65 <= b < 91) || (97 <= b < 123) || (48 <= b < 58) || b == 45 || b == 95
}

/// The six-bit value an alphabet byte stands for.
pub open spec fn b64_val_of_byte(b: u8) -> int {
    if 65 <= b < 91 {
        b - 65
    } else if 97 <= b < 123 {
        b - 97 + 26
    } else if 48 <= b < 58 {
        b - 48 + 52
    } else if b == 45 {
        62
    } else {
        63
    }
}

/// Unpadded base64url encoding of a byte sequence: each group of three
/// bytes becomes four alphabet bytes; a trailing byte becomes two and a
/// trailing pair becomes three, with the unused low bits zero.
pub open spec fn spec_b64_encode(b: Seq<u8>) -> Seq<u8>
    decreases b.len(),
{
    if b.len() == 0 {
        Seq::empty()
    } else if b.len() == 1 {
        seq![
            b64_byte_of_val(b[0] as int / 4),
            b64_byte_of_val((b[0] as int % 4) * 16),
        ]
    } else if b.len() == 2 {
        seq![
            b64_byte_of_val(b[0] as int / 4),
            b64_byte_of_val((b[0] as int % 4) * 16 + b[1] as int / 16),
            b64_byte_of_val((b[1] as int % 16) * 4),
        ]
    } else {
        seq![
            b64_byte_of_val(b[0] as int / 4),
            b64_byte_of_val((b[0] as int % 4) * 16 + b[1] as int / 16),
            b64_byte_of_val((b[1] as int % 16) * 4 + b[2] as int / 64),
            b64_byte_of_val(b[2] as int % 64),
        ] + spec_b64_encode(b.skip(3))
    }
}

/// Prepends already-decoded bytes to the outcome of decoding a remainder;
/// a failed remainder fails the whole.
pub open spec fn decode_join(pre: Seq<u8>, rest: Option<Seq<u8>>) -> Option<Seq<u8>> {
    match rest {
        Some(r) => Some(pre + r),
        None => None,
    }
}

/// Strict base64url decoding: `None` on a byte outside the alphabet, on a
/// length that no byte sequence encodes to, or on nonzero trailing bits.
pub open spec fn spec_b64_decode(s: Seq<u8>) -> Option<Seq<u8>>
    decreases s.len(),
{
    if s.len() == 0 {
        Some(Seq::empty())
    } else if s.len() == 1 {
        None
    } else if s.len() == 2 {
        if is_b64_byte(s[0]) && is_b64_byte(s[1]) && b64_val_of_byte(s[1]) % 16 == 0 {
            Some(seq![(b64_val_of_byte(s[0]) * 4 + b64_val_of_byte(s[1]) / 16) as u8])
        } else {
            None
        }
    } else if s.len() == 3 {
        if is_b64_byte(s[0]) && is_b64_byte(s[1]) && is_b64_byte(s[2]) && b64_val_of_byte(s[2])
            % 4 == 0 {
            Some(
                seq![
                    (b64_val_of_byte(s[0]) * 4 + b64_val_of_byte(s[1]) / 16) as u8,
                    ((b64_val_of_byte(s[1]) % 16) * 16 + b64_val_of_byte(s[2]) / 4) as u8,
                ],
            )
        } else {
            None
        }
    } else {
        if is_b64_byte(s[0]) && is_b64_byte(s[1]) && is_b64_byte(s[2]) && is_b64_byte(s[3]) {
            decode_join(
                seq![
                    (b64_val_of_byte(s[0]) * 4 + b64_val_of_byte(s[1]) / 16) as u8,
                    ((b64_val_of_byte(s[1]) % 16) * 16 + b64_val_of_byte(s[2]) / 4) as u8,
                    ((b64_val_of_byte(s[2]) % 4) * 64 + b64_val_of_byte(s[3])) as u8,
                ],
                spec_b64_decode(s.skip(4)),
            )
        } else {
            None
        }
    }
}

/// Reading an alphabet byte back gives the six-bit value it was written for.
pub proof fn lemma_b64_inv(v: int)
    requires
        0 <= v < 64,
    ensures
        is_b64_byte(b64_byte_of_val(v)),
        b64_val_of_byte(b64_byte_of_val(v)) == v,
{
}

/// Every byte of an encoding lies in the base64url alphabet.
pub proof fn lemma_b64_encode_is_b64(b: Seq<u8>)
    ensures
        forall|i: int|
            0 <= i < spec_b64_encode(b).len() ==> is_b64_byte(#[trigger] spec_b64_encode(b)[i]),
    decreases b.len(),
{
    if b.len() == 0 {
    } else if b.len() == 1 {
        lemma_b64_inv(b[0] as int / 4);
        lemma_b64_inv((b[0] as int % 4) * 16);
    } else if b.len() == 2 {
        lemma_b64_inv(b[0] as int / 4);
        lemma_b64_inv((b[0] as int % 4) * 16 + b[1] as int / 16);
        lemma_b64_inv((b[1] as int % 16) * 4);
    } else {
        lemma_b64_inv(b[0] as int / 4);
        lemma_b64_inv((b[0] as int % 4) * 16 + b[1] as int / 16);
        lemma_b64_inv((b[1] as int % 16) * 4 + b[2] as int / 64);
        lemma_b64_inv(b[2] as int % 64);
        lemma_b64_encode_is_b64(b.skip(3));
        let e = spec_b64_encode(b);
        let rest = spec_b64_encode(b.skip(3));
        assert forall|i: int| 0 <= i < e.len() implies is_b64_byte(e[i]) by {
            if 4 <= i {
                assert(e[i] == rest[i - 4]);
            }
        }
    }
}

/// Alphabet bytes are ASCII.
pub proof fn lemma_b64_byte_ascii(b: u8)
    requires
        is_b64_byte(b),
    ensures
        b < 128,
{
}

/// Decoding inverts encoding: the strict decoder accepts exactly the
/// canonical encoding of `b` and returns `b`.
pub proof fn lemma_b64_round_trip(b: Seq<u8>)
    ensures
        spec_b64_decode(spec_b64_encode(b)) == Some(b),
    decreases b.len(),
{
    let e = spec_b64_encode(b);
    if b.len() == 0 {
        assert(e.len() == 0);
        assert(spec_b64_decode(e) == Some(Seq::<u8>::empty()));
        assert(Seq::<u8>::empty() =~= b);
    } else if b.len() == 1 {
        let v0 = b[0] as int / 4;
        let v1 = (b[0] as int % 4) * 16;
        lemma_b64_inv(v0);
        lemma_b64_inv(v1);
        assert(v1 % 16 == 0);
        assert(v0 * 4 + v1 / 16 == b[0] as int);
        assert(spec_b64_decode(e) matches Some(d) && d =~= b);
    } else if b.len() == 2 {
        let v0 = b[0] as int / 4;
        let v1 = (b[0] as int % 4) * 16 + b[1] as int / 16;
        let v2 = (b[1] as int % 16) * 4;
        lemma_b64_inv(v0);
        lemma_b64_inv(v1);
        lemma_b64_inv(v2);
        assert(v2 % 4 == 0);
        assert(v0 * 4 + v1 / 16 == b[0] as int);
        assert((v1 % 16) * 16 + v2 / 4 == b[1] as int);
        assert(spec_b64_decode(e) matches Some(d) && d =~= b);
    } else {
        let v0 = b[0] as int / 4;
        let v1 = (b[0] as int % 4) * 16 + b[1] as int / 16;
        let v2 = (b[1] as int % 16) * 4 + b[2] as int / 64;
        let v3 = b[2] as int % 64;
        lemma_b64_inv(v0);
        lemma_b64_inv(v1);
        lemma_b64_inv(v2);
        lemma_b64_inv(v3);
        lemma_b64_round_trip(b.skip(3));
        assert(e.skip(4) =~= spec_b64_encode(b.skip(3)));
        assert(v0 * 4 + v1 / 16 == b[0] as int);
        assert((v1 % 16) * 16 + v2 / 4 == b[1] as int);
        assert((v2 % 4) * 64 + v3 == b[2] as int);
        assert(spec_b64_decode(e) matches Some(d) && d =~= b);
    }
}

/// The alphabet byte for a six-bit value.
fn byte_of_val(v: u8) -> (r: u8)
    requires
        v < 64,
    ensures
        r == b64_byte_of_val(v as int),
{
    if v < 26 {
        65 + v
    } else if v < 52 {
        97 + (v - 26)
    } else if v < 62 {
        48 + (v - 52)
    } else if v == 62 {
        45
    } else {
        95
    }
}

/// The six-bit value of an alphabet byte, or `None` outside the alphabet.
fn val_of_byte(b: u8) -> (r: Option<u8>)
    ensures
        is_b64_byte(b) <==> r is Some,
        r matches Some(v) ==> v as int == b64_val_of_byte(b) && v < 64,
{
    if 65 <= b && b < 91 {
        Some(b - 65)
    } else if 97 <= b && b < 123 {
        Some(b - 97 + 26)
    } else if 48 <= b && b < 58 {
        Some(b - 48 + 52)
    } else if b == 45 {
        Some(62)
    } else if b == 95 {
        Some(63)
    } else {
        None
    }
}

/// Encodes a byte vector as unpadded base64url.
pub fn b64_encode(input: &Vec<u8>) -> (r: Vec<u8>)
    ensures
        r@ == spec_b64_encode(input@),
{
    let n = input.len();
    let mut out: Vec<u8> = Vec::new();
    let mut i: usize = 0;
    proof {
        assert(input@.skip(0) =~= input@);
    }
    while n - i >= 3
        invariant
            i <= n,
            n == input@.len(),
            spec_b64_encode(input@) == out@ + spec_b64_encode(input@.skip(i as int)),
        decreases n - i,
    {
        let b0 = input[i];
        let b1 = input[i + 1];
        let b2 = input[i + 2];
        out.push(byte_of_val(b0 / 4));
        out.push(byte_of_val((b0 % 4) * 16 + b1 / 16));
        out.push(byte_of_val((b1 % 16) * 4 + b2 / 64));
        out.push(byte_of_val(b2 % 64));
        proof {
            let s = input@.skip(i as int);
            assert(s.len() >= 3);
            assert(s[0] == b0 && s[1] == b1 && s[2] == b2);
            assert(s.skip(3) =~= input@.skip(i as int + 3));
            assert(out@ =~= out@.subrange(0, out@.len() - 4) + seq![
                b64_byte_of_val(b0 as int / 4),
                b64_byte_of_val((b0 as int % 4) * 16 + b1 as int / 16),
                b64_byte_of_val((b1 as int % 16) * 4 + b2 as int / 64),
                b64_byte_of_val(b2 as int % 64),
            ]);
            assert(spec_b64_encode(input@) =~= out@ + spec_b64_encode(input@.skip(i as int + 3)));
        }
        i = i + 3;
    }
    if n - i == 1 {
        let b0 = input[i];
        out.push(byte_of_val(b0 / 4));
        out.push(byte_of_val((b0 % 4) * 16));
        proof {
            let s = input@.skip(i as int);
            assert(s.len() == 1 && s[0] == b0);
            assert(spec_b64_encode(input@) =~= out@);
        }
    } else if n - i == 2 {
        let b0 = input[i];
        let b1 = input[i + 1];
        out.push(byte_of_val(b0 / 4));
        out.push(byte_of_val((b0 % 4) * 16 + b1 / 16));
        out.push(byte_of_val((b1 % 16) * 4));
        proof {
            let s = input@.skip(i as int);
            assert(s.len() == 2 && s[0] == b0 && s[1] == b1);
            assert(spec_b64_encode(input@) =~= out@);
        }
    } else {
        proof {
            let s = input@.skip(i as int);
            assert(s.len() == 0);
            assert(spec_b64_encode(input@) =~= out@);
        }
    }
    out
}

/// Decodes unpadded base64url strictly, refusing anything that is not the
/// canonical encoding of some byte sequence.
pub fn b64_decode(input: &Vec<u8>) -> (r: Option<Vec<u8>>)
    ensures
        r is Some <==> spec_b64_decode(input@) is Some,
        r matches Some(v) ==> Some(v@) == spec_b64_decode(input@),
{
    let n = input.len();
    let mut out: Vec<u8> = Vec::new();
    let mut i: usize = 0;
    proof {
        assert(input@.skip(0) =~= input@);
    }
    while n - i >= 4
        invariant
            i <= n,
            n == input@.len(),
            spec_b64_decode(input@) == decode_join(out@, spec_b64_decode(input@.skip(i as int))),
        decreases n - i,
    {
        let s0 = val_of_byte(input[i]);
        let s1 = val_of_byte(input[i + 1]);
        let s2 = val_of_byte(input[i + 2]);
        let s3 = val_of_byte(input[i + 3]);
        proof {
            let s = input@.skip(i as int);
            assert(s.len() >= 4);
            assert(s[0] == input@[i as int] && s[1] == input@[i as int + 1] && s[2] == input@[
                i as int + 2
            ] && s[3] == input@[i as int + 3]);
        }
        match (s0, s1, s2, s3) {
            (Some(v0), Some(v1), Some(v2), Some(v3)) => {
                let b0 = v0 * 4 + v1 / 16;
                let b1 = (v1 % 16) * 16 + v2 / 4;
                let b2 = (v2 % 4) * 64 + v3;
                out.push(b0);
                out.push(b1);
                out.push(b2);
                proof {
                    let s = input@.skip(i as int);
                    assert(s.skip(4) =~= input@.skip(i as int + 4));
                    assert(spec_b64_decode(s) == decode_join(
                        seq![b0, b1, b2],
                        spec_b64_decode(input@.skip(i as int + 4)),
                    ));
                    assert(decode_join(
                        out@.subrange(0, out@.len() - 3),
                        spec_b64_decode(s),
                    ) == decode_join(out@, spec_b64_decode(input@.skip(i as int + 4)))) by {
                        match spec_b64_decode(input@.skip(i as int + 4)) {
                            Some(rest) => {
                                assert(out@.subrange(0, out@.len() - 3) + (seq![b0, b1, b2]
                                    + rest) =~= out@ + rest);
                            },
                            None => {},
                        }
                    }
                }
                i = i + 4;
            },
            _ => {
                proof {
                    let s = input@.skip(i as int);
                    assert(spec_b64_decode(s) is None);
                }
                return None;
            },
        }
    }
    let rem = n - i;
    if rem == 0 {
        proof {
            let s = input@.skip(i as int);
            assert(s.len() == 0);
            assert(spec_b64_decode(input@) == Some(out@));
        }
        Some(out)
    } else if rem == 2 {
        let s0 = val_of_byte(input[i]);
        let s1 = val_of_byte(input[i + 1]);
        proof {
            let s = input@.skip(i as int);
            assert(s.len() == 2);
            assert(s[0] == input@[i as int] && s[1] == input@[i as int + 1]);
        }
        match (s0, s1) {
            (Some(v0), Some(v1)) => {
                if v1 % 16 == 0 {
                    let b0 = v0 * 4 + v1 / 16;
                    out.push(b0);
                    proof {
                        let s = input@.skip(i as int);
                        assert(spec_b64_decode(s) == Some(seq![b0]));
                        assert(out@ =~= out@.subrange(0, out@.len() - 1) + seq![b0]);
                        assert(spec_b64_decode(input@) == Some(out@));
                    }
                    Some(out)
                } else {
                    None
                }
            },
            _ => None,
        }
    } else if rem == 3 {
        let s0 = val_of_byte(input[i]);
        let s1 = val_of_byte(input[i + 1]);
        let s2 = val_of_byte(input[i + 2]);
        proof {
            let s = input@.skip(i as int);
            assert(s.len() == 3);
            assert(s[0] == input@[i as int] && s[1] == input@[i as int + 1] && s[2] == input@[
                i as int + 2
            ]);
        }
        match (s0, s1, s2) {
            (Some(v0), Some(v1), Some(v2)) => {
                if v2 % 4 == 0 {
                    let b0 = v0 * 4 + v1 / 16;
                    let b1 = (v1 % 16) * 16 + v2 / 4;
                    out.push(b0);
                    out.push(b1);
                    proof {
                        let s = input@.skip(i as int);
                        assert(spec_b64_decode(s) == Some(seq![b0, b1]));
                        assert(out@ =~= out@.subrange(0, out@.len() - 2) + seq![b0, b1]);
                        assert(spec_b64_decode(input@) == Some(out@));
                    }
                    Some(out)
                } else {
                    None
                }
            },
            _ => None,
        }
    } else {
        proof {
            let s = input@.skip(i as int);
            assert(s.len() == 1);
        }
        None
    }
}

} // verus!
