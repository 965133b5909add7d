//! The 4-byte chunk type code.
//!
//! A type code is four ASCII letters; the letter case of each byte carries
//! one boolean flag (critical/ancillary, public/private, reserved,
//! safe-to-copy).  Case carries semantics, not validity: a code whose
//! reserved byte is lowercase is still constructible, only non-conforming.

use crate::error::PngError;
use vstd::prelude::*;

verus! {

broadcast use
    vstd::utf8::is_ascii_chars_encode_utf8,
    vstd::utf8::encode_utf8_decode_utf8,
    vstd::utf8::encode_utf8_valid_utf8,
;

/// Whether `b` is an ASCII letter.
pub open spec fn is_ascii_letter(b: u8) -> bool {
    (65 <= b && b <= 90) || (97 <= b && b <= 122)
}

/// Whether `b` is an uppercase ASCII letter.
pub open spec fn is_ascii_upper(b: u8) -> bool {
    65 <= b && b <= 90
}

/// Whether `b` is a lowercase ASCII letter.
pub open spec fn is_ascii_lower(b: u8) -> bool {
    97 <= b && b <= 122
}

/// Whether `c` is an ASCII letter.
pub open spec fn is_ascii_letter_char(c: char) -> bool {
    ('A' <= c && c <= 'Z') || ('a' <= c && c <= 'z')
}

/// A 4-byte chunk type identifier.
///
/// Each field holds one byte of the code, in byte order; the field name
/// says which flag the byte's letter case carries.
#[derive(Clone, Copy, Debug, PartialEq, Eq, Structural)]
pub struct ChunkType {
    pub ancillary_bit: u8,
    pub private_bit: u8,
    pub reserved_bit: u8,
    pub safe_to_copy_bit: u8,
}

impl ChunkType {
    /// All four bytes are ASCII letters.
    pub open spec fn wf(self) -> bool {
        is_ascii_letter(self.ancillary_bit) && is_ascii_letter(self.private_bit)
            && is_ascii_letter(self.reserved_bit) && is_ascii_letter(self.safe_to_copy_bit)
    }

    /// The four bytes of the code, in byte order.
    pub open spec fn spec_bytes(self) -> Seq<u8> {
        seq![self.ancillary_bit, self.private_bit, self.reserved_bit, self.safe_to_copy_bit]
    }

    /// The four bytes of the code, in byte order.
    pub fn bytes(&self) -> (r: [u8; 4])
        ensures
            r@ == self.spec_bytes(),
    {
        let r = [self.ancillary_bit, self.private_bit, self.reserved_bit, self.safe_to_copy_bit];
        proof {
            assert(r@ =~= self.spec_bytes());
        }
        r
    }

    /// Builds a type code from four raw bytes; every byte must be an
    /// ASCII letter, with no restriction on case.
    pub fn try_from(bits: [u8; 4]) -> (r: Result<ChunkType, PngError>)
        ensures
            r is Ok <==> (is_ascii_letter(bits@[0]) && is_ascii_letter(bits@[1])
                && is_ascii_letter(bits@[2]) && is_ascii_letter(bits@[3])),
            r matches Ok(t) ==> t.wf() && t.spec_bytes() == bits@,
            r matches Err(e) ==> e == PngError::InvalidTypeCode,
    {
        if letter_byte(bits[0]) && letter_byte(bits[1]) && letter_byte(bits[2]) && letter_byte(
            bits[3],
        ) {
            let t = ChunkType {
                ancillary_bit: bits[0],
                private_bit: bits[1],
                reserved_bit: bits[2],
                safe_to_copy_bit: bits[3],
            };
            proof {
                assert(t.spec_bytes() =~= bits@);
            }
            Ok(t)
        } else {
            Err(PngError::InvalidTypeCode)
        }
    }

    /// Builds a type code from a string; the string must be exactly four
    /// characters, all ASCII letters.
    pub fn from_str(s: &str) -> (r: Result<ChunkType, PngError>)
        ensures
            r is Ok <==> (s@.len() == 4 && (forall|i: int|
                0 <= i < 4 ==> is_ascii_letter_char(#[trigger] s@[i]))),
            r matches Ok(t) ==> t.wf() && s@.len() == 4 && t.spec_bytes() == Seq::new(
                4,
                |i: int| s@[i] as u8,
            ),
            r matches Err(e) ==> e == PngError::InvalidTypeCode,
    {
        let bytes: &[u8] = s.as_bytes();
        if bytes.len() != 4 {
            proof {
                if s@.len() == 4 && (forall|i: int|
                    0 <= i < 4 ==> is_ascii_letter_char(#[trigger] s@[i])) {
                    assert(vstd::utf8::is_ascii_chars(s@));
                    assert(bytes@.len() == 4);
                }
            }
            return Err(PngError::InvalidTypeCode);
        }
        let b0 = *vstd::slice::slice_index_get(bytes, 0);
        let b1 = *vstd::slice::slice_index_get(bytes, 1);
        let b2 = *vstd::slice::slice_index_get(bytes, 2);
        let b3 = *vstd::slice::slice_index_get(bytes, 3);
        if letter_byte(b0) && letter_byte(b1) && letter_byte(b2) && letter_byte(b3) {
            let t = ChunkType {
                ancillary_bit: b0,
                private_bit: b1,
                reserved_bit: b2,
                safe_to_copy_bit: b3,
            };
            proof {
                let cs = Seq::new(4, |i: int| bytes@[i] as char);
                assert(vstd::utf8::is_ascii_chars(cs)) by {
                    assert forall|i: int| 0 <= i < 4 implies '\0' <= #[trigger] cs[i]
                        <= '\u{7f}' by {
                        assert(cs[i] as u32 == bytes@[i]);
                    }
                }
                assert(vstd::utf8::encode_utf8(cs) =~= bytes@) by {
                    vstd::utf8::is_ascii_chars_encode_utf8(cs);
                    assert forall|i: int| 0 <= i < 4 implies vstd::utf8::encode_utf8(cs)[i]
                        == bytes@[i] by {
                        assert(cs[i] as u8 == bytes@[i]);
                    }
                }
                assert(s@ == cs) by {
                    assert(vstd::utf8::decode_utf8(vstd::utf8::encode_utf8(cs)) == cs);
                    assert(vstd::utf8::decode_utf8(vstd::utf8::encode_utf8(s@)) == s@);
                    assert(vstd::utf8::encode_utf8(s@) == bytes@);
                }
                assert(t.spec_bytes() =~= Seq::new(4, |i: int| s@[i] as u8)) by {
                    assert forall|i: int| 0 <= i < 4 implies t.spec_bytes()[i] == (s@[i] as u8) by {
                        assert(s@[i] == cs[i]);
                        assert(cs[i] as u8 == bytes@[i]);
                    }
                }
                assert forall|i: int| 0 <= i < 4 implies is_ascii_letter_char(
                    #[trigger] s@[i],
                ) by {
                    assert(s@[i] == (bytes@[i] as char));
                }
            }
            Ok(t)
        } else {
            proof {
                if s@.len() == 4 && (forall|i: int|
                    0 <= i < 4 ==> is_ascii_letter_char(#[trigger] s@[i])) {
                    assert(vstd::utf8::is_ascii_chars(s@));
                    assert forall|i: int| 0 <= i < 4 implies is_ascii_letter(
                        #[trigger] bytes@[i],
                    ) by {
                        assert(s@[i] as u8 == vstd::utf8::encode_utf8(s@)[i]);
                    }
                }
            }
            Err(PngError::InvalidTypeCode)
        }
    }

    /// The code as a 4-character string.
    pub fn to_string(&self) -> (r: String)
        requires
            self.wf(),
        ensures
            r@.len() == 4,
            forall|i: int| 0 <= i < 4 ==> r@[i] == (self.spec_bytes()[i] as char),
    {
        let mut v: Vec<u8> = Vec::new();
        v.push(self.ancillary_bit);
        v.push(self.private_bit);
        v.push(self.reserved_bit);
        v.push(self.safe_to_copy_bit);
        proof {
            assert(v@ =~= self.spec_bytes());
            let cs = Seq::new(4, |i: int| v@[i] as char);
            assert(vstd::utf8::is_ascii_chars(cs)) by {
                assert forall|i: int| 0 <= i < 4 implies '\0' <= #[trigger] cs[i] <= '\u{7f}' by {
                    assert(cs[i] as u32 == v@[i]);
                }
            }
            assert(vstd::utf8::encode_utf8(cs) =~= v@) by {
                vstd::utf8::is_ascii_chars_encode_utf8(cs);
                assert forall|i: int| 0 <= i < 4 implies vstd::utf8::encode_utf8(cs)[i]
                    == v@[i] by {
                    assert(cs[i] as u8 == v@[i]);
                }
            }
            vstd::utf8::encode_utf8_valid_utf8(cs);
            vstd::utf8::encode_utf8_decode_utf8(cs);
        }
        let r = crate::text::vec_into_string(v);
        let s = r.unwrap();
        proof {
            assert forall|i: int| 0 <= i < 4 implies s@[i] == (self.spec_bytes()[i] as char) by {
                assert(s@[i] as u32 == self.spec_bytes()[i]);
                vstd::utf8::char_u32_cast(s@[i], s@[i] as u32);
            }
        }
        s
    }

    /// Whether the code conforms to the current format revision: true iff
    /// the reserved byte is uppercase.
    pub fn is_valid(&self) -> (r: bool)
        ensures
            r == is_ascii_upper(self.reserved_bit),
    {
        65 <= self.reserved_bit && self.reserved_bit <= 90
    }

    /// Whether the chunk is critical: true iff the first byte is uppercase.
    pub fn is_critical(&self) -> (r: bool)
        ensures
            r == is_ascii_upper(self.ancillary_bit),
    {
        65 <= self.ancillary_bit && self.ancillary_bit <= 90
    }

    /// Whether the type is publicly registered: true iff the second byte
    /// is uppercase.
    pub fn is_public(&self) -> (r: bool)
        ensures
            r == is_ascii_upper(self.private_bit),
    {
        65 <= self.private_bit && self.private_bit <= 90
    }

    /// Whether the reserved byte is uppercase, as [`Self::is_valid`].
    pub fn is_reserved_bit_valid(&self) -> (r: bool)
        ensures
            r == is_ascii_upper(self.reserved_bit),
    {
        65 <= self.reserved_bit && self.reserved_bit <= 90
    }

    /// Whether a generic editor may copy the chunk unmodified: true iff
    /// the fourth byte is lowercase.
    pub fn is_safe_to_copy(&self) -> (r: bool)
        ensures
            r == is_ascii_lower(self.safe_to_copy_bit),
    {
        97 <= self.safe_to_copy_bit && self.safe_to_copy_bit <= 122
    }
}

/// Whether `b` is an ASCII letter.
fn letter_byte(b: u8) -> (r: bool)
    ensures
        r == is_ascii_letter(b),
{
    (65 <= b && b <= 90) || (97 <= b && b <= 122)
}

} // verus!
