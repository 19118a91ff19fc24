use std::str::FromStr;
use vstd::prelude::*;
use vstd::std_specs::convert::TryFromSpecImpl;
use vstd::string::StringSliceAdditionalSpecFns;
use vstd::utf8::{
    decode_utf8, decode_utf8_encode_utf8, encode_utf8, encode_utf8_decode_utf8,
    is_leading_byte_width_1, partial_valid_utf8, partial_valid_utf8_extend_ascii_block, valid_utf8,
};
use crate::error::PngError;
use crate::text::utf8_text;

verus! {

/// The four-byte tag that says what a chunk is for.
///
/// Any four bytes make a chunk type. Bit 5 (value `0x20`) of each byte is a
/// flag: in an ASCII letter it is the difference between upper and lower case.
#[derive(Debug, PartialEq, Eq, Clone, Copy)]
pub struct ChunkType {
    value: [u8; 4],
}

/// Bit 5 (value `0x20`) of `byte` is clear.
pub open spec fn bit5_clear(byte: u8) -> bool {
    byte & 0x20 == 0
}

/// `byte` is one of `A` to `Z`.
pub open spec fn upper_case_letter(byte: u8) -> bool {
    65 <= byte <= 90
}

/// `byte` is one of `a` to `z`.
pub open spec fn lower_case_letter(byte: u8) -> bool {
    97 <= byte <= 122
}

/// `bytes` can be written as a chunk type: exactly four ASCII letters.
pub open spec fn is_type_text(bytes: Seq<u8>) -> bool {
    &&& bytes.len() == 4
    &&& forall|i: int|
        0 <= i < 4 ==> upper_case_letter(#[trigger] bytes[i]) || lower_case_letter(bytes[i])
}

/// Four ASCII letters are UTF-8, so a chunk type read from text can be
/// written as text again.
pub proof fn lemma_type_text_is_utf8(bytes: Seq<u8>)
    requires
        is_type_text(bytes),
    ensures
        valid_utf8(bytes),
{
    assert(bytes.subrange(0, 0) =~= Seq::<u8>::empty());
    assert(partial_valid_utf8(bytes, 0));
    assert forall|i: int| 0 <= i < 4 implies #[trigger] is_leading_byte_width_1(bytes[i]) by {
        assert(upper_case_letter(bytes[i]) || lower_case_letter(bytes[i]));
    }
    partial_valid_utf8_extend_ascii_block(bytes, 0, 4);
    assert(bytes.subrange(0, 4) =~= bytes);
}

/// To compare a chunk type with a name as text or as bytes comes to the
/// same: where the type's bytes are UTF-8, they decode to `name` exactly
/// when they are the bytes of `name`.
pub proof fn lemma_same_text_same_bytes(tag: Seq<u8>, name: Seq<char>)
    requires
        valid_utf8(tag),
    ensures
        decode_utf8(tag) == name <==> tag == encode_utf8(name),
{
    decode_utf8_encode_utf8(tag);
    encode_utf8_decode_utf8(name);
}

impl View for ChunkType {
    type V = Seq<u8>;

    /// The four bytes, in order.
    closed spec fn view(&self) -> Seq<u8> {
        self.value@
    }
}

impl ChunkType {
    /// A chunk type is always four bytes long.
    pub broadcast proof fn lemma_view_len(self)
        ensures
            #[trigger] self@.len() == 4,
    {
    }

    /// The first byte's flag: a critical chunk must be understood by every reader.
    pub open spec fn spec_is_critical(self) -> bool {
        bit5_clear(self@[0])
    }

    /// The second byte's flag: a public chunk is one of the PNG standard.
    pub open spec fn spec_is_public(self) -> bool {
        bit5_clear(self@[1])
    }

    /// The third byte's flag, which the PNG standard asks to be clear.
    pub open spec fn spec_is_reserved_bit_valid(self) -> bool {
        bit5_clear(self@[2])
    }

    /// The fourth byte's flag, the other way round: set means safe to copy.
    pub open spec fn spec_is_safe_to_copy(self) -> bool {
        !bit5_clear(self@[3])
    }

    /// A chunk type is valid when its reserved bit is; the other flags only inform.
    pub open spec fn spec_is_valid(self) -> bool {
        self.spec_is_reserved_bit_valid()
    }

    pub fn new(value: [u8; 4]) -> (r: Self)
        ensures
            r@ == value@,
    {
        Self { value }
    }

    pub fn bytes(self) -> (r: [u8; 4])
        ensures
            r@ == self@,
    {
        self.value
    }

    pub fn is_critical(&self) -> (r: bool)
        ensures
            r == self.spec_is_critical(),
    {
        bit5_is_zero(&self.value[0])
    }

    pub fn is_public(&self) -> (r: bool)
        ensures
            r == self.spec_is_public(),
    {
        bit5_is_zero(&self.value[1])
    }

    pub fn is_reserved_bit_valid(&self) -> (r: bool)
        ensures
            r == self.spec_is_reserved_bit_valid(),
    {
        bit5_is_zero(&self.value[2])
    }

    pub fn is_safe_to_copy(&self) -> (r: bool)
        ensures
            r == self.spec_is_safe_to_copy(),
    {
        !bit5_is_zero(&self.value[3])
    }

    pub fn is_valid(&self) -> (r: bool)
        ensures
            r == self.spec_is_valid(),
            r == (self@[2] & 0x20 == 0),
    {
        self.is_reserved_bit_valid()
    }

    /// Reads a chunk type written as text: `s` must be four ASCII letters.
    /// What comes out can be written as text again.
    pub fn from_str(s: &str) -> (r: Result<Self, PngError>)
        ensures
            match r {
                Ok(t) => is_type_text(s.spec_bytes()) && t@ == s.spec_bytes() && valid_utf8(t@),
                Err(e) => !is_type_text(s.spec_bytes()) && e == PngError::ChunkTypeError,
            },
    {
        let arr = s.as_bytes();
        if arr.len() != 4 {
            return Err(PngError::ChunkTypeError);
        }
        let mut i: usize = 0;
        while i < 4
            invariant
                i <= 4,
                arr@.len() == 4,
                arr@ == s.spec_bytes(),
                forall|j: int|
                    0 <= j < i ==> upper_case_letter(#[trigger] arr@[j]) || lower_case_letter(
                        arr@[j],
                    ),
            decreases 4 - i,
        {
            if !is_lower_case_letter(&arr[i]) && !is_upper_case_letter(&arr[i]) {
                assert(!upper_case_letter(arr@[i as int]) && !lower_case_letter(arr@[i as int]));
                return Err(PngError::ChunkTypeError);
            }
            i += 1;
        }
        let t = Self { value: [arr[0], arr[1], arr[2], arr[3]] };
        proof {
            assert(t@ =~= arr@);
            lemma_type_text_is_utf8(arr@);
        }
        Ok(t)
    }

    /// The chunk type as text. Its bytes must be UTF-8, as four letters are.
    pub fn to_string(&self) -> (s: String)
        requires
            valid_utf8(self@),
        ensures
            s@ == decode_utf8(self@),
    {
        match utf8_text(self.value.as_slice()) {
            Ok(s) => s.to_owned(),
            Err(_) => String::new(),
        }
    }
}

impl TryFrom<[u8; 4]> for ChunkType {
    type Error = PngError;

    /// Any four bytes are taken; this never fails.
    fn try_from(value: [u8; 4]) -> (r: Result<Self, PngError>)
        ensures
            r is Ok,
            r->Ok_0@ == value@,
    {
        Ok(Self { value })
    }
}

impl TryFromSpecImpl<[u8; 4]> for ChunkType {
    open spec fn obeys_try_from_spec() -> bool {
        true
    }

    closed spec fn try_from_spec(value: [u8; 4]) -> Result<Self, PngError> {
        Ok(ChunkType { value })
    }
}

impl FromStr for ChunkType {
    type Err = PngError;

    /// As the function of the same name that the type itself has.
    fn from_str(s: &str) -> (r: Result<Self, PngError>)
        ensures
            match r {
                Ok(t) => is_type_text(s.spec_bytes()) && t@ == s.spec_bytes() && valid_utf8(t@),
                Err(e) => !is_type_text(s.spec_bytes()) && e == PngError::ChunkTypeError,
            },
    {
        ChunkType::from_str(s)
    }
}

pub fn is_upper_case_letter(byte: &u8) -> (r: bool)
    ensures
        r == upper_case_letter(*byte),
{
    65 <= *byte && *byte <= 90
}

pub fn is_lower_case_letter(byte: &u8) -> (r: bool)
    ensures
        r == lower_case_letter(*byte),
{
    97 <= *byte && *byte <= 122
}

pub fn bit5_is_zero(bit5: &u8) -> (r: bool)
    ensures
        r == bit5_clear(*bit5),
{
    let b: u8 = *bit5;
    assert(((b & 0x20) != 0x20) == (b & 0x20 == 0)) by (bit_vector);
    (b & 0x20) != 0x20
}

} // verus!
