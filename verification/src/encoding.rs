//! Facts connecting the character-level model to the UTF-8 bytes on the
//! wire, together with the one trusted decoding primitive.

use vstd::prelude::*;
use vstd::utf8::*;
use crate::text::{is_ascii_upper, lower, lower_char};

verus! {

/// UTF-8 encoding distributes over concatenation.
pub proof fn lemma_encode_utf8_concat(a: Seq<char>, b: Seq<char>)
    ensures
        encode_utf8(a + b) == encode_utf8(a) + encode_utf8(b),
    decreases a.len(),
{
    if a.len() == 0 {
        assert(a + b =~= b);
        assert(encode_utf8(a) + encode_utf8(b) =~= encode_utf8(b));
    } else {
        assert((a + b).len() > 0);
        assert((a + b)[0] == a[0]);
        assert((a + b).drop_first() =~= a.drop_first() + b);
        lemma_encode_utf8_concat(a.drop_first(), b);
        assert(encode_scalar(a[0] as u32) + (encode_utf8(a.drop_first()) + encode_utf8(b))
            =~= (encode_scalar(a[0] as u32) + encode_utf8(a.drop_first())) + encode_utf8(b));
    }
}

/// An ASCII character is encoded as its own single byte.
pub proof fn lemma_encode_scalar_ascii(c: char)
    requires
        (c as u32) < 0x80,
    ensures
        encode_scalar(c as u32) == seq![(c as u32) as u8],
{
    let v = c as u32;
    assert(leading_byte_width_1(v) == v as u8) by (bit_vector)
        requires
            v < 0x80,
    ;
}

/// Every byte in the encoding of a non-ASCII character is at least `0x80`.
pub proof fn lemma_encode_scalar_high(c: char)
    requires
        (c as u32) >= 0x80,
    ensures
        forall|i: int|
            0 <= i < encode_scalar(c as u32).len() ==> #[trigger] encode_scalar(c as u32)[i]
                >= 0x80,
{
    char_is_scalar(c);
    let v = c as u32;
    assert(0x80u8 | ((v & 0x3F) as u8) >= 0x80) by (bit_vector);
    assert(0x80u8 | (((v >> 6) & 0x3F) as u8) >= 0x80) by (bit_vector);
    assert(0x80u8 | (((v >> 12) & 0x3F) as u8) >= 0x80) by (bit_vector);
    assert(0xC0u8 | (((v >> 6) & 0x1F) as u8) >= 0x80) by (bit_vector);
    assert(0xE0u8 | (((v >> 12) & 0x0F) as u8) >= 0x80) by (bit_vector);
    assert(0xF0u8 | (((v >> 18) & 0x7) as u8) >= 0x80) by (bit_vector);
}

/// An ASCII byte occurs in an encoded sequence only where its character
/// occurs in the source: if the character is absent, so is the byte.
pub proof fn lemma_encode_no_ascii_byte(s: Seq<char>, c0: char, b: u8)
    requires
        c0 as u32 == b as u32,
        b < 0x80,
        forall|i: int| 0 <= i < s.len() ==> s[i] != c0,
    ensures
        forall|i: int| 0 <= i < encode_utf8(s).len() ==> #[trigger] encode_utf8(s)[i] != b,
    decreases s.len(),
{
    if s.len() > 0 {
        let c = s[0];
        let e = encode_scalar(c as u32);
        assert forall|i: int| 0 <= i < e.len() implies #[trigger] e[i] != b by {
            if (c as u32) < 0x80 {
                lemma_encode_scalar_ascii(c);
                if e[i] == b {
                    assert((c as u32) as u8 == b);
                    assert(c as u32 == b as u32);
                    char_u32_cast(c, c as u32);
                    char_u32_cast(c0, c0 as u32);
                    assert(c == c0);
                    assert(s[0] != c0);
                }
            } else {
                lemma_encode_scalar_high(c);
                assert(e[i] >= 0x80);
            }
        }
        assert forall|i: int| 0 <= i < s.drop_first().len() implies s.drop_first()[i] != c0 by {
            assert(s.drop_first()[i] == s[i + 1]);
        }
        lemma_encode_no_ascii_byte(s.drop_first(), c0, b);
        assert(encode_utf8(s) == e + encode_utf8(s.drop_first()));
        assert forall|i: int|
            0 <= i < encode_utf8(s).len() implies #[trigger] encode_utf8(s)[i] != b by {
            if i < e.len() {
                assert(encode_utf8(s)[i] == e[i]);
            } else {
                assert(encode_utf8(s)[i] == encode_utf8(s.drop_first())[i - e.len()]);
            }
        }
    }
}

/// ASCII lowercasing of one byte, matching [`lower_char`] on the encoding.
pub open spec fn lower_byte(b: u8) -> u8 {
    if 0x41 <= b && b <= 0x5a {
        (b + 0x20) as u8
    } else {
        b
    }
}

/// Lowercasing characters and lowercasing the encoded bytes agree.
pub proof fn lemma_lower_bytes(s: Seq<char>)
    ensures
        Seq::new(encode_utf8(s).len(), |i: int| lower_byte(encode_utf8(s)[i])) == encode_utf8(
            lower(s),
        ),
    decreases s.len(),
{
    let mapped = Seq::new(encode_utf8(s).len(), |i: int| lower_byte(encode_utf8(s)[i]));
    if s.len() == 0 {
        assert(lower(s) =~= Seq::<char>::empty());
        assert(mapped =~= encode_utf8(lower(s)));
    } else {
        let c = s[0];
        let rest = s.drop_first();
        let e = encode_scalar(c as u32);
        // head: the scalar's bytes lowercase to the lowered scalar's bytes
        assert(Seq::new(e.len(), |i: int| lower_byte(e[i])) == encode_scalar(
            lower_char(c) as u32,
        )) by {
            if is_ascii_upper(c) {
                lemma_encode_scalar_ascii(c);
                let lc = lower_char(c);
                assert(lc as u32 == c as u32 + 32);
                lemma_encode_scalar_ascii(lc);
                assert(lower_byte((c as u32) as u8) == (lc as u32) as u8);
                assert(Seq::new(e.len(), |i: int| lower_byte(e[i])) =~= encode_scalar(lc as u32));
            } else if (c as u32) < 0x80 {
                lemma_encode_scalar_ascii(c);
                let v = c as u32;
                assert((v as u8) as u32 == v) by (bit_vector)
                    requires
                        v < 0x80u32,
                ;
                assert(!(0x41 <= (c as u32) as u8 && (c as u32) as u8 <= 0x5a));
                assert(Seq::new(e.len(), |i: int| lower_byte(e[i])) =~= encode_scalar(c as u32));
            } else {
                lemma_encode_scalar_high(c);
                assert(!is_ascii_upper(c));
                assert forall|i: int| 0 <= i < e.len() implies lower_byte(e[i]) == e[i] by {
                    assert(e[i] >= 0x80);
                }
                assert(Seq::new(e.len(), |i: int| lower_byte(e[i])) =~= encode_scalar(c as u32));
            }
        }
        lemma_lower_bytes(rest);
        assert(encode_utf8(s) == e + encode_utf8(rest));
        assert(lower(s) =~= seq![lower_char(c)] + lower(rest)) by {
            assert forall|i: int| 0 <= i < s.len() implies lower(s)[i] == (seq![lower_char(c)]
                + lower(rest))[i] by {
                if i > 0 {
                    assert(lower(rest)[i - 1] == lower_char(rest[i - 1]));
                    assert(rest[i - 1] == s[i]);
                }
            }
        }
        lemma_encode_utf8_concat(seq![lower_char(c)], lower(rest));
        assert(encode_utf8(seq![lower_char(c)]) =~= encode_scalar(lower_char(c) as u32)) by {
            let s0 = seq![lower_char(c)];
            assert(s0.len() == 1);
            assert(s0[0] == lower_char(c));
            assert(s0.drop_first() =~= Seq::<char>::empty());
            assert(encode_utf8(Seq::<char>::empty()) =~= Seq::<u8>::empty());
            assert(encode_scalar(lower_char(c) as u32) + Seq::<u8>::empty() =~= encode_scalar(
                lower_char(c) as u32,
            ));
        }
        assert(mapped =~= encode_scalar(lower_char(c) as u32) + encode_utf8(lower(rest))) by {
            assert forall|i: int| 0 <= i < mapped.len() implies mapped[i] == (encode_scalar(
                lower_char(c) as u32,
            ) + encode_utf8(lower(rest)))[i] by {
                if i < e.len() {
                    assert(encode_utf8(s)[i] == e[i]);
                    assert(Seq::new(e.len(), |k: int| lower_byte(e[k]))[i] == lower_byte(e[i]));
                } else {
                    assert(encode_utf8(s)[i] == encode_utf8(rest)[i - e.len()]);
                    assert(Seq::new(
                        encode_utf8(rest).len(),
                        |k: int| lower_byte(encode_utf8(rest)[k]),
                    )[i - e.len()] == lower_byte(encode_utf8(rest)[i - e.len()]));
                }
            }
        }
    }
}

/// Relies on `core::str::from_utf8`: it succeeds exactly on byte sequences
/// that are valid UTF-8 (as vstd's model defines validity) and returns the
/// characters they encode.
#[verifier::external_body]
pub(crate) fn bytes_to_string(v: &[u8]) -> (r: Option<String>)
    ensures
        match r {
            Some(s) => valid_utf8(v@) && s@ == decode_utf8(v@),
            None => !valid_utf8(v@),
        },
{
    match core::str::from_utf8(v) {
        Ok(s) => Some(s.to_string()),
        Err(_) => None,
    }
}

} // verus!
