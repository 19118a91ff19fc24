use vstd::prelude::*;
use vstd::slice::{slice_subrange, slice_to_vec};
use vstd::std_specs::convert::TryFromSpecImpl;
use vstd::string::StringExecFns;
use vstd::utf8::{decode_utf8, valid_utf8};
use crate::bytes::{
    append_bytes, be_bytes, be_value, lemma_be_bytes_of_value, lemma_be_value_of_bytes,
    u32_from_be, u32_to_be,
};
use crate::checksum::{checksum, crc32_iso_hdlc};
use crate::chunk_type::ChunkType;
use crate::error::{DecodeError, PngError};
use crate::text::{byte_list, decimal, decimal_text, list_text, utf8_text};

verus! {

/// One record of a PNG file: a type, a payload, and the two fields that are
/// derived from them and stored beside them.
#[derive(Debug)]
pub struct Chunk {
    len: u32,
    chunk_type: ChunkType,
    data: Vec<u8>,
    crc: u32,
}

/// What a chunk holds, as plain values.
pub struct ChunkView {
    /// The payload's length as the chunk states it.
    pub length: u32,
    /// The four bytes of the chunk type.
    pub chunk_type: Seq<u8>,
    /// The payload.
    pub data: Seq<u8>,
    /// The checksum as the chunk states it.
    pub crc: u32,
}

impl ChunkView {
    /// The bytes that the checksum is taken over: the type, then the payload.
    pub open spec fn checked_bytes(self) -> Seq<u8> {
        self.chunk_type + self.data
    }

    /// The derived fields say what they should: the length is the payload's,
    /// the checksum is the one of type and payload.
    pub open spec fn wf(self) -> bool {
        &&& self.chunk_type.len() == 4
        &&& self.length == self.data.len()
        &&& self.crc == crc32_iso_hdlc(self.checked_bytes())
    }

    /// The chunk as it stands in a file: length, type, payload, checksum,
    /// the two numbers as four big-endian bytes each.
    pub open spec fn frame(self) -> Seq<u8> {
        be_bytes(self.length) + self.chunk_type + self.data + be_bytes(self.crc)
    }
}

/// The chunk that is made for a type and a payload: its length and its
/// checksum are derived from them.
pub open spec fn fresh_chunk(chunk_type: Seq<u8>, data: Seq<u8>) -> ChunkView {
    ChunkView {
        length: data.len() as u32,
        chunk_type,
        data,
        crc: crc32_iso_hdlc(chunk_type + data),
    }
}

/// `bytes` is laid out as one chunk: at least the twelve bytes of length,
/// type and checksum, and between type and checksum exactly as many bytes
/// as the length field says.
pub open spec fn well_framed(bytes: Seq<u8>) -> bool {
    &&& bytes.len() >= 12
    &&& bytes.len() == 12 + be_value(bytes.subrange(0, 4))
}

/// The checksum that a well-framed chunk carries in its last four bytes.
pub open spec fn stored_crc(bytes: Seq<u8>) -> u32 {
    be_value(bytes.subrange(bytes.len() - 4, bytes.len() as int))
}

/// The type and payload of a well-framed chunk, as the checksum covers them.
pub open spec fn framed_body(bytes: Seq<u8>) -> Seq<u8> {
    bytes.subrange(4, bytes.len() - 4)
}

/// What reading `bytes` as one chunk gives: the chunk, or the reason why
/// there is none. Framing is judged before the checksum.
pub open spec fn parse_frame(bytes: Seq<u8>) -> Result<ChunkView, PngError> {
    if !well_framed(bytes) {
        Err(PngError::ChunkError)
    } else if crc32_iso_hdlc(framed_body(bytes)) != stored_crc(bytes) {
        Err(PngError::CRCError)
    } else {
        Ok(
            ChunkView {
                length: be_value(bytes.subrange(0, 4)),
                chunk_type: bytes.subrange(4, 8),
                data: bytes.subrange(8, bytes.len() - 4),
                crc: stored_crc(bytes),
            },
        )
    }
}

/// Round trip: the chunk made for a type and a payload, written and read
/// again, is that chunk, with the same length, type, payload and checksum.
pub proof fn lemma_round_trip(chunk_type: Seq<u8>, data: Seq<u8>)
    requires
        chunk_type.len() == 4,
        data.len() <= u32::MAX,
    ensures
        fresh_chunk(chunk_type, data).wf(),
        parse_frame(fresh_chunk(chunk_type, data).frame()) == Ok::<ChunkView, PngError>(
            fresh_chunk(chunk_type, data),
        ),
{
    lemma_parse_frame_of_frame(fresh_chunk(chunk_type, data));
}

/// Reading undoes writing: the frame of a well-formed chunk parses, and
/// gives that chunk back, field by field.
pub proof fn lemma_parse_frame_of_frame(c: ChunkView)
    requires
        c.wf(),
    ensures
        parse_frame(c.frame()) == Ok::<ChunkView, PngError>(c),
{
    let bytes = c.frame();
    lemma_be_value_of_bytes(c.length);
    lemma_be_value_of_bytes(c.crc);
    assert(bytes.subrange(0, 4) =~= be_bytes(c.length));
    assert(bytes.subrange(bytes.len() - 4, bytes.len() as int) =~= be_bytes(c.crc));
    assert(bytes.subrange(4, 8) =~= c.chunk_type);
    assert(bytes.subrange(8, bytes.len() - 4) =~= c.data);
    assert(framed_body(bytes) =~= c.checked_bytes());
}

/// Writing undoes reading: bytes that parse as a chunk are that chunk's
/// frame, and the chunk is well formed.
pub proof fn lemma_frame_of_parse_frame(bytes: Seq<u8>)
    requires
        parse_frame(bytes) is Ok,
    ensures
        parse_frame(bytes)->Ok_0.wf(),
        parse_frame(bytes)->Ok_0.frame() == bytes,
{
    let c = parse_frame(bytes)->Ok_0;
    lemma_be_bytes_of_value(bytes.subrange(0, 4));
    lemma_be_bytes_of_value(bytes.subrange(bytes.len() - 4, bytes.len() as int));
    assert(c.checked_bytes() =~= framed_body(bytes));
    assert(c.frame() =~= bytes);
}

/// A well-formed chunk's frame can be cut off the front of whatever follows
/// it: its length field says where it ends.
pub proof fn lemma_frame_prefix(c: ChunkView, tail: Seq<u8>)
    requires
        c.wf(),
    ensures
        c.frame().len() == 12 + c.length,
        be_value((c.frame() + tail).subrange(0, 4)) == c.length,
        (c.frame() + tail).subrange(0, 12 + c.length) == c.frame(),
        (c.frame() + tail).subrange(12 + c.length, (c.frame() + tail).len() as int) == tail,
{
    let bytes = c.frame() + tail;
    lemma_be_value_of_bytes(c.length);
    assert(bytes.subrange(0, 4) =~= be_bytes(c.length));
    assert(bytes.subrange(0, 12 + c.length) =~= c.frame());
    assert(bytes.subrange(12 + c.length, bytes.len() as int) =~= tail);
}

/// The checksum depends on type and payload alone: two well-formed chunks
/// with the same type and the same payload carry the same checksum, and the
/// same length.
pub proof fn lemma_crc_determined(a: ChunkView, b: ChunkView)
    requires
        a.wf(),
        b.wf(),
        a.chunk_type == b.chunk_type,
        a.data == b.data,
    ensures
        a.crc == b.crc,
        a == b,
{
}

/// A chunk in one line, for people to read: length, type, payload and
/// checksum in round brackets.
pub open spec fn chunk_text(c: ChunkView) -> Seq<char> {
    seq!['('] + decimal_text(c.length as nat) + seq![',', ' '] + decode_utf8(c.chunk_type) + seq![
        ',',
        ' ',
    ] + list_text(c.data) + seq![',', ' '] + decimal_text(c.crc as nat) + seq![')']
}

impl View for Chunk {
    type V = ChunkView;

    closed spec fn view(&self) -> ChunkView {
        ChunkView {
            length: self.len,
            chunk_type: self.chunk_type@,
            data: self.data@,
            crc: self.crc,
        }
    }
}

impl Chunk {
    /// The derived fields of a chunk always say what they should.
    #[verifier::type_invariant]
    spec fn well_formed(self) -> bool {
        self@.wf()
    }

    /// Builds a chunk for `data`, with its length and its checksum.
    ///
    /// The length field of a chunk has four bytes, so the payload must be
    /// shorter than 2^32 bytes.
    pub fn new(chunk_type: ChunkType, data: Vec<u8>) -> (c: Self)
        requires
            data@.len() <= u32::MAX,
        ensures
            c@ == fresh_chunk(chunk_type@, data@),
            c@.wf(),
    {
        let len = data.len() as u32;
        let mut bytes: Vec<u8> = Vec::new();
        let tag = chunk_type.bytes();
        append_bytes(&mut bytes, tag.as_slice());
        append_bytes(&mut bytes, data.as_slice());
        let crc = checksum(bytes.as_slice());
        proof {
            chunk_type.lemma_view_len();
            assert(bytes@ =~= chunk_type@ + data@);
        }
        Chunk { len, chunk_type, data, crc }
    }

    /// Keeps the chunk if its checksum is `expected`, the one that was
    /// stored with it.
    pub fn check_crc(self, expected: u32) -> (r: Result<Self, PngError>)
        ensures
            match r {
                Ok(c) => self@.crc == expected && c@ == self@ && c@.wf(),
                Err(e) => self@.crc != expected && e == PngError::CRCError,
            },
    {
        proof {
            use_type_invariant(&self);
        }
        if self.crc != expected {
            return Err(PngError::CRCError);
        }
        Ok(self)
    }

    /// The payload's length.
    pub fn length(&self) -> (r: u32)
        ensures
            r == self@.length,
            r == self@.data.len(),
    {
        proof {
            use_type_invariant(self);
        }
        self.len
    }

    /// The checksum of type and payload.
    pub fn crc(&self) -> (r: u32)
        ensures
            r == self@.crc,
            r == crc32_iso_hdlc(self@.checked_bytes()),
    {
        proof {
            use_type_invariant(self);
        }
        self.crc
    }

    /// The chunk's type.
    pub fn chunk_type(&self) -> (r: &ChunkType)
        ensures
            r@ == self@.chunk_type,
    {
        &self.chunk_type
    }

    /// The payload.
    pub fn data(&self) -> (r: &[u8])
        ensures
            r@ == self@.data,
    {
        self.data.as_slice()
    }

    /// The payload as text, if it is UTF-8.
    pub fn data_as_string(&self) -> (r: Result<String, DecodeError>)
        ensures
            r is Ok <==> valid_utf8(self@.data),
            r is Ok ==> r->Ok_0@ == decode_utf8(self@.data),
    {
        match utf8_text(self.data.as_slice()) {
            Ok(s) => Ok(s.to_owned()),
            Err(_) => Err(DecodeError),
        }
    }

    /// The chunk in one line, for people to read. Its type must be UTF-8.
    pub fn to_string(&self) -> (r: String)
        requires
            valid_utf8(self@.chunk_type),
        ensures
            r@ == chunk_text(self@),
    {
        proof {
            reveal_strlit("(");
            reveal_strlit(", ");
            reveal_strlit(")");
        }
        let mut r = String::from_str("(");
        r.append(decimal(self.len).as_str());
        r.append(", ");
        r.append(self.chunk_type.to_string().as_str());
        r.append(", ");
        r.append(byte_list(self.data.as_slice()).as_str());
        r.append(", ");
        r.append(decimal(self.crc).as_str());
        r.append(")");
        assert(r@ =~= chunk_text(self@));
        r
    }

    /// The chunk as it stands in a file: twelve bytes and the payload.
    /// Read again, the bytes give this chunk.
    pub fn as_bytes(&self) -> (r: Vec<u8>)
        ensures
            r@ == self@.frame(),
            r@.len() == 12 + self@.length,
            self@.wf(),
            parse_frame(r@) == Ok::<ChunkView, PngError>(self@),
    {
        proof {
            use_type_invariant(self);
            lemma_parse_frame_of_frame(self@);
        }
        let mut out: Vec<u8> = Vec::new();
        let len = u32_to_be(self.len);
        let tag = self.chunk_type.bytes();
        let crc = u32_to_be(self.crc);
        append_bytes(&mut out, len.as_slice());
        append_bytes(&mut out, tag.as_slice());
        append_bytes(&mut out, self.data.as_slice());
        append_bytes(&mut out, crc.as_slice());
        proof {
            self.chunk_type.lemma_view_len();
            assert(out@ =~= self@.frame());
        }
        out
    }
}

impl TryFrom<&[u8]> for Chunk {
    type Error = PngError;

    /// Reads one chunk from bytes that hold exactly one. The chunk that
    /// comes out is well formed, and written again it gives `value` back.
    fn try_from(value: &[u8]) -> (r: Result<Self, PngError>)
        ensures
            match r {
                Ok(c) => parse_frame(value@) == Ok::<ChunkView, PngError>(c@) && c@.wf()
                    && c@.frame() == value@,
                Err(e) => parse_frame(value@) == Err::<ChunkView, PngError>(e),
            },
    {
        let n = value.len();
        if n < 12 {
            return Err(PngError::ChunkError);
        }
        let length = u32_from_be(value, 0);
        if n - 12 != length as usize {
            return Err(PngError::ChunkError);
        }
        let chunk_type = ChunkType::new([value[4], value[5], value[6], value[7]]);
        let data = slice_to_vec(slice_subrange(value, 8, n - 4));
        let stored = u32_from_be(value, n - 4);
        let chunk = Chunk::new(chunk_type, data);
        proof {
            assert(chunk_type@ =~= value@.subrange(4, 8));
            assert(chunk@.checked_bytes() =~= framed_body(value@));
            if parse_frame(value@) is Ok {
                lemma_frame_of_parse_frame(value@);
            }
        }
        chunk.check_crc(stored)
    }
}

/// What reading gives is said by the contract of `try_from`: a chunk owns
/// its payload, so no spec function can build one.
impl TryFromSpecImpl<&[u8]> for Chunk {
    open spec fn obeys_try_from_spec() -> bool {
        false
    }

    open spec fn try_from_spec(value: &[u8]) -> Result<Self, PngError> {
        Err(PngError::ChunkError)
    }
}

} // verus!
