//! The four-byte chunk type code: each byte must be an ASCII letter, and the
//! third byte must be uppercase (the reserved bit). The case of the other
//! bytes encodes the critical / public / safe-to-copy flags.

use vstd::prelude::*;
use vstd::utf8::{valid_utf8, decode_utf8, encode_utf8};

verus! {

/// A byte is an ASCII uppercase letter.
pub open spec fn is_upper(b: u8) -> bool {
    0x41 <= b <= 0x5a
}

/// A byte is an ASCII lowercase letter.
pub open spec fn is_lower(b: u8) -> bool {
    0x61 <= b <= 0x7a
}

/// A byte is an ASCII letter, upper or lower case.
pub open spec fn is_alpha(b: u8) -> bool {
    is_upper(b) || is_lower(b)
}

/// A character is an ASCII uppercase letter.
pub open spec fn is_upper_char(c: char) -> bool {
    0x41 <= (c as u32) <= 0x5a
}

/// A character is an ASCII lowercase letter.
pub open spec fn is_lower_char(c: char) -> bool {
    0x61 <= (c as u32) <= 0x7a
}

/// A character is an ASCII letter, upper or lower case.
pub open spec fn is_alpha_char(c: char) -> bool {
    is_upper_char(c) || is_lower_char(c)
}

/// On an ASCII byte the byte-level and character-level classes agree.
pub proof fn lemma_ascii_byte_char(b: u8)
    requires
        b < 0x80,
    ensures
        is_upper_char(b as char) == is_upper(b),
        is_lower_char(b as char) == is_lower(b),
        is_alpha_char(b as char) == is_alpha(b),
{
}

/// On an ASCII character the character-level and byte-level classes agree.
pub proof fn lemma_ascii_char_byte(c: char)
    requires
        (c as u32) < 0x80,
    ensures
        is_upper(c as u8) == is_upper_char(c),
        is_lower(c as u8) == is_lower_char(c),
        is_alpha(c as u8) == is_alpha_char(c),
{
}

/// A byte sequence is a well-formed type code: exactly four ASCII letters,
/// with the third one uppercase.
pub open spec fn valid_code(s: Seq<u8>) -> bool {
    &&& s.len() == 4
    &&& forall|i: int| 0 <= i < 4 ==> is_alpha(#[trigger] s[i])
    &&& is_upper(s[2])
}

/// The error raised by a type code that was rejected, one variant per rule.
#[derive(Debug, Clone, Copy, PartialEq, Eq, Structural)]
pub enum ChunkTypeError {
    /// The third character is not uppercase.
    InvalidBit,
    /// The decoded text is not exactly four characters long; carries the
    /// character count that was found.
    InvalidLength { num_bit_received: usize },
    /// A character is not an ASCII letter.
    Ascii,
    /// The bytes are not valid UTF-8 text; carries how many leading bytes
    /// form valid UTF-8 on their own.
    Utf8 { valid_up_to: usize },
}

/// The length of the longest prefix of a byte sequence that is valid UTF-8
/// on its own: whole scalar encodings are taken from the front until one is
/// malformed or incomplete.
pub open spec fn spec_valid_up_to(v: Seq<u8>) -> nat
    decreases v.len(),
{
    if v.len() == 0 {
        0
    } else if vstd::utf8::valid_first_scalar(v) {
        (vstd::utf8::length_of_first_scalar(v) + spec_valid_up_to(
            vstd::utf8::pop_first_scalar(v),
        )) as nat
    } else {
        0
    }
}

/// The outcome of validating a candidate code, `None` meaning acceptance.
/// The checks run in a fixed order: text decoding, then — on the decoded
/// characters — length, letters, reserved bit.
pub open spec fn spec_validate(v: Seq<u8>) -> Option<ChunkTypeError> {
    if !valid_utf8(v) {
        Some(ChunkTypeError::Utf8 { valid_up_to: spec_valid_up_to(v) as usize })
    } else {
        let chars = decode_utf8(v);
        if chars.len() != 4 {
            Some(ChunkTypeError::InvalidLength { num_bit_received: chars.len() as usize })
        } else if !(forall|i: int| 0 <= i < 4 ==> is_alpha_char(#[trigger] chars[i])) {
            Some(ChunkTypeError::Ascii)
        } else if !is_upper_char(chars[2]) {
            Some(ChunkTypeError::InvalidBit)
        } else {
            None
        }
    }
}

/// A sequence of ASCII bytes is valid UTF-8, and decodes to itself,
/// character for character.
pub proof fn lemma_ascii_bytes_utf8(s: Seq<u8>)
    requires
        forall|i: int| 0 <= i < s.len() ==> #[trigger] s[i] < 0x80,
    ensures
        valid_utf8(s),
        decode_utf8(s) == s.map(|i: int, b: u8| b as char),
{
    let chars = s.map(|i: int, b: u8| b as char);
    assert(vstd::utf8::is_ascii_chars(chars)) by {
        assert forall|i: int| 0 <= i < chars.len() implies '\0' <= #[trigger] chars[i]
            <= '\u{7f}' by {
            assert(s[i] < 0x80);
        }
    }
    vstd::utf8::is_ascii_chars_encode_utf8(chars);
    assert(encode_utf8(chars) =~= s);
    vstd::utf8::encode_utf8_valid_utf8(chars);
    vstd::utf8::encode_utf8_decode_utf8(chars);
}

/// A validated four-byte chunk type code. Values of this type always satisfy
/// `valid_code`: construction goes through the validating parsers only.
#[derive(Debug, Clone, Copy, PartialEq, Eq)]
pub struct ChunkType {
    code: [u8; 4],
}

impl View for ChunkType {
    type V = Seq<u8>;

    closed spec fn view(&self) -> Seq<u8> {
        self.code@
    }
}

/// Relies on `str::from_utf8`: it returns `Ok` exactly when the bytes are a
/// valid UTF-8 encoding, and the text it returns decodes those bytes. Its
/// error's `valid_up_to` is documented as the maximum index up to which the
/// input would have been accepted, which `spec_valid_up_to` spells out.
#[verifier::external_body]
fn utf8_to_str(v: &[u8]) -> (r: Result<&str, usize>)
    ensures
        r is Ok <==> valid_utf8(v@),
        r matches Ok(s) ==> s@ == decode_utf8(v@),
        r matches Err(n) ==> n as nat == spec_valid_up_to(v@),
{
    match core::str::from_utf8(v) {
        Ok(s) => Ok(s),
        Err(e) => Err(e.valid_up_to()),
    }
}

/// Relies on `String::from_utf8`: it returns `Ok` exactly when the bytes are
/// a valid UTF-8 encoding, and the string it returns decodes those bytes.
#[verifier::external_body]
pub(crate) fn utf8_decode(v: &Vec<u8>) -> (r: Option<String>)
    ensures
        r is Some <==> valid_utf8(v@),
        r matches Some(s) ==> s@ == decode_utf8(v@),
{
    match String::from_utf8(v.clone()) {
        Ok(s) => Some(s),
        Err(_) => None,
    }
}

/// A byte is an ASCII uppercase letter.
fn upper_byte(b: u8) -> (r: bool)
    ensures
        r == is_upper(b),
{
    0x41 <= b && b <= 0x5a
}

/// A character is an ASCII uppercase letter.
fn upper_char(c: char) -> (r: bool)
    ensures
        r == is_upper_char(c),
{
    let u = c as u32;
    0x41 <= u && u <= 0x5a
}

/// A character is an ASCII letter.
fn alpha_char(c: char) -> (r: bool)
    ensures
        r == is_alpha_char(c),
{
    let u = c as u32;
    (0x41 <= u && u <= 0x5a) || (0x61 <= u && u <= 0x7a)
}

impl ChunkType {
    #[verifier::type_invariant]
    spec fn wf(self) -> bool {
        valid_code(self.code@)
    }

    /// The four raw bytes of the code.
    pub fn bytes(&self) -> (r: [u8; 4])
        ensures
            r@ == self@,
            valid_code(self@),
    {
        proof {
            use_type_invariant(self);
        }
        self.code
    }

    /// The code is critical: its first byte is uppercase.
    pub fn is_critical(&self) -> (r: bool)
        ensures
            r == is_upper(self@[0]),
    {
        proof {
            use_type_invariant(self);
        }
        upper_byte(self.code[0])
    }

    /// The code is public: its second byte is uppercase.
    pub fn is_public(&self) -> (r: bool)
        ensures
            r == is_upper(self@[1]),
    {
        proof {
            use_type_invariant(self);
        }
        upper_byte(self.code[1])
    }

    /// The code is safe to copy: its fourth byte is lowercase.
    pub fn is_safe_to_copy(&self) -> (r: bool)
        ensures
            r == is_lower(self@[3]),
    {
        proof {
            use_type_invariant(self);
        }
        !upper_byte(self.code[3])
    }

    /// Validates a byte sequence as a type code. The checks run in the order
    /// of `spec_validate`: text decoding first, then — on the decoded
    /// characters — the length, the letters, and the reserved bit, the first
    /// failure naming the rule broken. The length rule counts decoded
    /// characters, not bytes.
    ///
    /// Two rules hold without any caveat on the text decoding: four letters
    /// with a lowercase third one are always rejected for the reserved bit,
    /// and four ASCII bytes among which one is not a letter are always
    /// rejected for that character.
    pub fn try_from(value: &[u8]) -> (r: Result<ChunkType, ChunkTypeError>)
        ensures
            r is Ok <==> spec_validate(value@) is None,
            r matches Ok(t) ==> t@ == value@,
            r matches Err(e) ==> spec_validate(value@) == Some(e),
            value@.len() == 4 && (forall|i: int| 0 <= i < 4 ==> is_alpha(#[trigger] value@[i]))
                && !is_upper(value@[2]) ==> r == Err::<ChunkType, ChunkTypeError>(
                ChunkTypeError::InvalidBit,
            ),
            value@.len() == 4 && (forall|i: int| 0 <= i < 4 ==> #[trigger] value@[i] < 0x80) && (
            exists|i: int| 0 <= i < 4 && !is_alpha(#[trigger] value@[i])) ==> r == Err::<
                ChunkType,
                ChunkTypeError,
            >(ChunkTypeError::Ascii),
    {
        proof {
            if forall|i: int| 0 <= i < value@.len() ==> #[trigger] value@[i] < 0x80 {
                lemma_ascii_bytes_utf8(value@);
                assert forall|i: int| 0 <= i < value@.len() implies {
                    &&& #[trigger] decode_utf8(value@)[i] == value@[i] as char
                    &&& is_alpha_char(decode_utf8(value@)[i]) == is_alpha(value@[i])
                    &&& is_upper_char(decode_utf8(value@)[i]) == is_upper(value@[i])
                } by {
                    lemma_ascii_byte_char(value@[i]);
                }
            }
        }
        let s = match utf8_to_str(value) {
            Ok(s) => s,
            Err(n) => {
                return Err(ChunkTypeError::Utf8 { valid_up_to: n });
            },
        };
        let n = s.unicode_len();
        if n != 4 {
            return Err(ChunkTypeError::InvalidLength { num_bit_received: n });
        }
        let c0 = s.get_char(0);
        let c1 = s.get_char(1);
        let c2 = s.get_char(2);
        let c3 = s.get_char(3);
        if !(alpha_char(c0) && alpha_char(c1) && alpha_char(c2) && alpha_char(c3)) {
            return Err(ChunkTypeError::Ascii);
        }
        if !upper_char(c2) {
            return Err(ChunkTypeError::InvalidBit);
        }
        proof {
            let chars = decode_utf8(value@);
            vstd::utf8::decode_utf8_encode_utf8(value@);
            assert(vstd::utf8::is_ascii_chars(chars)) by {
                assert forall|i: int| 0 <= i < chars.len() implies '\0' <= #[trigger] chars[i]
                    <= '\u{7f}' by {
                    assert(is_alpha_char(chars[i]));
                }
            }
            vstd::utf8::is_ascii_chars_encode_utf8(chars);
            assert(value@.len() == 4);
            assert forall|i: int| 0 <= i < 4 implies is_alpha(#[trigger] value@[i]) by {
                lemma_ascii_char_byte(chars[i]);
                assert(value@[i] == chars[i] as u8);
            }
            assert(is_upper(value@[2])) by {
                lemma_ascii_char_byte(chars[2]);
                assert(value@[2] == chars[2] as u8);
            }
        }
        Ok(ChunkType { code: [value[0], value[1], value[2], value[3]] })
    }

    /// The code's text form: four characters, one per byte.
    pub fn to_text(&self) -> (r: String)
        ensures
            r@ == decode_utf8(self@),
            r@.len() == 4,
            forall|i: int| 0 <= i < 4 ==> #[trigger] r@[i] == self@[i] as char,
    {
        proof {
            use_type_invariant(self);
        }
        let mut v: Vec<u8> = Vec::new();
        v.push(self.code[0]);
        v.push(self.code[1]);
        v.push(self.code[2]);
        v.push(self.code[3]);
        proof {
            assert(v@ =~= self@);
            assert(forall|i: int| 0 <= i < v@.len() ==> #[trigger] v@[i] < 0x80);
            lemma_ascii_bytes_utf8(v@);
        }
        match utf8_decode(&v) {
            Some(s) => s,
            None => vstd::pervasive::unreached(),
        }
    }

    /// Validates a text string as a type code, entering through the string's
    /// UTF-8 bytes exactly as `try_from` does.
    pub fn from_str(s: &str) -> (r: Result<ChunkType, ChunkTypeError>)
        ensures
            r is Ok <==> spec_validate(encode_utf8(s@)) is None,
            r matches Ok(t) ==> t@ == encode_utf8(s@),
            r matches Err(e) ==> spec_validate(encode_utf8(s@)) == Some(e),
    {
        ChunkType::try_from(s.as_bytes())
    }
}

} // verus!
