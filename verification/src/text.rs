//! UTF-8 helpers shared by the mutation algorithms: encoding one character to
//! its byte sequence, turning a scalar value back into a character, and how
//! decoding interacts with concatenation and with excising one character.

use vstd::prelude::*;

verus! {

use vstd::string::StringSliceAdditionalSpecFns;
use vstd::utf8::*;

/// The UTF-8 encoding of one character: the bytes stand in `r.0[0 .. r.1]`.
///
/// The filled prefix equals [`encode_scalar`] of the character's scalar value,
/// so appending it to valid UTF-8 text keeps the text valid.
pub fn encode_char(c: char) -> (r: ([u8; 4], usize))
    ensures
        1 <= r.1 <= 4,
        r.0@.subrange(0, r.1 as int) == encode_scalar(c as u32),
{
    proof {
        char_is_scalar(c);
    }
    let v: u32 = c as u32;
    let mut buf = [0u8; 4];
    if v <= 0x7F {
        proof {
            assert((v & 0x7F) as u8 == v as u8) by (bit_vector)
                requires
                    v <= 0x7F,
            ;
        }
        buf[0] = v as u8;
        proof {
            assert(buf@.subrange(0, 1) =~= encode_scalar(c as u32));
        }
        (buf, 1)
    } else if v <= 0x7FF {
        buf[0] = 0xC0u8 | ((v >> 6) & 0x1F) as u8;
        buf[1] = 0x80u8 | (v & 0x3F) as u8;
        proof {
            assert(buf@.subrange(0, 2) =~= encode_scalar(c as u32));
        }
        (buf, 2)
    } else if v <= 0xFFFF {
        buf[0] = 0xE0u8 | ((v >> 12) & 0x0F) as u8;
        buf[1] = 0x80u8 | ((v >> 6) & 0x3F) as u8;
        buf[2] = 0x80u8 | (v & 0x3F) as u8;
        proof {
            assert(buf@.subrange(0, 3) =~= encode_scalar(c as u32));
        }
        (buf, 3)
    } else {
        buf[0] = 0xF0u8 | ((v >> 18) & 0x07) as u8;
        buf[1] = 0x80u8 | ((v >> 12) & 0x3F) as u8;
        buf[2] = 0x80u8 | ((v >> 6) & 0x3F) as u8;
        buf[3] = 0x80u8 | (v & 0x3F) as u8;
        proof {
            assert(buf@.subrange(0, 4) =~= encode_scalar(c as u32));
        }
        (buf, 4)
    }
}

/// Relies on `str::from_utf8`: valid UTF-8 bytes are exactly the encoding of
/// the returned text, which `Ok` carries whenever the bytes are valid.
#[verifier::external_body]
pub fn str_from_bytes(v: &[u8]) -> (r: &str)
    requires
        valid_utf8(v@),
    ensures
        r.spec_bytes() == v@,
{
    match core::str::from_utf8(v) {
        Ok(s) => s,
        Err(_) => "",
    }
}

/// Relies on `char::from_u32`: for every Unicode scalar value it returns the
/// character with exactly that value.
#[verifier::external_body]
pub fn scalar_to_char(v: u32) -> (c: char)
    requires
        is_scalar(v),
    ensures
        c as u32 == v,
{
    char::from_u32(v).unwrap_or('\u{0}')
}

/// The first scalar decoded from a well-formed encoding is a Unicode scalar
/// value, so it can be turned back into a character.
pub proof fn lemma_first_scalar_is_scalar(bytes: Seq<u8>)
    requires
        valid_first_scalar(bytes),
    ensures
        is_scalar(decode_first_scalar(bytes)),
{
    let b0 = bytes[0];
    if is_leading_byte_width_1(b0) {
    } else if is_leading_byte_width_2(b0) {
        let b1 = bytes[1];
        assert((((b0 & 0x1F) as u32) << 6) | ((b1 & 0x3F) as u32) <= 0x7FF) by (bit_vector);
    } else if is_leading_byte_width_3(b0) {
        let b1 = bytes[1];
        let b2 = bytes[2];
        assert((((b0 & 0x0F) as u32) << 12) | (((b1 & 0x3F) as u32) << 6) | ((b2
            & 0x3F) as u32) <= 0xFFFF) by (bit_vector);
    } else {
    }
}

/// The text built by writing one valid UTF-8 sequence after another is valid,
/// and splitting it back at the seam is a character boundary.
pub proof fn lemma_concat_boundary(a: Seq<u8>, b: Seq<u8>)
    requires
        valid_utf8(a),
        valid_utf8(b),
    ensures
        valid_utf8(a + b),
        is_char_boundary(a + b, a.len() as int),
    decreases a.len(),
{
    valid_utf8_concat(a, b);
    if a.len() == 0 {
        assert(a + b =~= b);
    } else {
        let k = length_of_first_scalar(a);
        assert((a + b)[0] == a[0]);
        assert(valid_first_scalar(a));
        lemma_concat_boundary(pop_first_scalar(a), b);
        assert(pop_first_scalar(a + b) =~= pop_first_scalar(a) + b);
        assert(length_of_first_scalar(a + b) == k);
    }
}

/// Decoding distributes over concatenation of two valid UTF-8 texts.
pub proof fn lemma_decode_utf8_concat(a: Seq<u8>, b: Seq<u8>)
    requires
        valid_utf8(a),
        valid_utf8(b),
    ensures
        valid_utf8(a + b),
        decode_utf8(a + b) == decode_utf8(a) + decode_utf8(b),
{
    lemma_concat_boundary(a, b);
    decode_utf8_split(a + b, a.len() as int);
    assert((a + b).subrange(0, a.len() as int) =~= a);
    assert((a + b).subrange(a.len() as int, (a + b).len() as int) =~= b);
}

/// The width in bytes of the character encoded at byte `i` of `s`.
pub open spec fn char_width_at(s: Seq<u8>, i: int) -> int {
    length_of_first_scalar(s.subrange(i, s.len() as int))
}

/// The character encoded at byte `i` of `s`.
pub open spec fn char_at(s: Seq<u8>, i: int) -> char {
    decode_first_scalar(s.subrange(i, s.len() as int)) as char
}

/// `s` with the bytes of the character at byte `i` excised.
pub open spec fn splice_out(s: Seq<u8>, i: int) -> Seq<u8> {
    s.subrange(0, i) + s.subrange(i + char_width_at(s, i), s.len() as int)
}

/// Excising the character that starts at byte `i` of a valid UTF-8 text.
///
/// The bytes `s[i .. i + k]`, with `k` the width of the character's encoding,
/// are exactly that character's encoding; what remains is valid UTF-8 and
/// decodes to the original characters with that one character removed.
pub proof fn lemma_decode_utf8_remove(s: Seq<u8>, i: int)
    requires
        valid_utf8(s),
        is_char_boundary(s, i),
        0 <= i < s.len(),
    ensures
        ({
            let tail = s.subrange(i, s.len() as int);
            let k = length_of_first_scalar(tail);
            let rest = s.subrange(0, i) + s.subrange(i + k, s.len() as int);
            &&& valid_first_scalar(tail)
            &&& is_scalar(decode_first_scalar(tail))
            &&& 1 <= k <= 4
            &&& i + k <= s.len()
            &&& encode_scalar(decode_first_scalar(tail)) == s.subrange(i, i + k)
            &&& valid_utf8(rest)
            &&& decode_utf8(tail).len() > 0
            &&& decode_utf8(tail)[0] as u32 == decode_first_scalar(tail)
            &&& decode_utf8(s) == decode_utf8(s.subrange(0, i)) + decode_utf8(tail)
            &&& decode_utf8(rest) == decode_utf8(s.subrange(0, i)) + decode_utf8(
                tail,
            ).drop_first()
        }),
{
    let tail = s.subrange(i, s.len() as int);
    let k = length_of_first_scalar(tail);
    valid_utf8_split(s, i);
    decode_utf8_split(s, i);
    assert(valid_first_scalar(tail));
    lemma_first_scalar_is_scalar(tail);
    char_u32_cast(decode_first_scalar(tail) as char, decode_first_scalar(tail));
    decode_utf8_first_scalar(tail);
    assert(take_first_scalar(tail) =~= s.subrange(i, i + k));
    assert(pop_first_scalar(tail) =~= s.subrange(i + k, s.len() as int));
    lemma_decode_utf8_concat(s.subrange(0, i), s.subrange(i + k, s.len() as int));
    assert(decode_utf8(tail).drop_first() =~= decode_utf8(s.subrange(i + k, s.len() as int)));
}

} // verus!
