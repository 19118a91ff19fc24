use vstd::prelude::*;
use vstd::string::{StrSliceExecFns, StringSliceAdditionalSpecFns};
use vstd::utf8::{decode_utf8, encode_utf8, valid_utf8};
use crate::chunk::{fresh_chunk, Chunk, ChunkView};
use crate::chunk_type::ChunkType;
use crate::error::{DecodeError, NotFoundError, PngError};
use crate::png::{
    file_bytes, first_of_type, lemma_frames_concat, lemma_frames_cons, none_of_type, parse_file,
    views, Png,
};

verus! {

/// Hides `message` in the PNG file `file_buffer`: the file that comes back
/// is the old one with one more chunk at its end, of type `chunk_type` and
/// with the bytes of `message` as its payload.
pub fn encode(file_buffer: &[u8], chunk_type: ChunkType, message: String) -> (r: Result<
    Vec<u8>,
    PngError,
>)
    requires
        encode_utf8(message@).len() <= u32::MAX,
    ensures
        match r {
            Ok(out) => {
                let hidden = fresh_chunk(chunk_type@, encode_utf8(message@));
                &&& parse_file(file_buffer@) is Ok
                &&& out@ == file_bytes(parse_file(file_buffer@)->Ok_0.push(hidden))
                &&& out@ == file_buffer@ + hidden.frame()
            },
            Err(e) => parse_file(file_buffer@) == Err::<Seq<ChunkView>, PngError>(e),
        },
{
    let mut png = match Png::try_from(file_buffer) {
        Ok(png) => png,
        Err(e) => {
            return Err(e);
        },
    };
    let ghost before = png@;
    let chunk = Chunk::new(chunk_type, message.as_str().as_bytes_vec());
    png.append_chunk(chunk);
    proof {
        let hidden = chunk@;
        assert(before.push(hidden) =~= before + seq![hidden]);
        lemma_frames_concat(before, seq![hidden]);
        lemma_frames_cons(hidden, Seq::empty());
        assert(seq![hidden] + Seq::<ChunkView>::empty() =~= seq![hidden]);
        assert(file_bytes(before.push(hidden)) =~= file_bytes(before) + hidden.frame());
    }
    Ok(png.as_bytes())
}

/// Finds the message hidden under `chunk_type`: the payload, as text, of the
/// first chunk of that type. There may be no such chunk, and its payload
/// may not be text.
pub fn decode(png: &Png, chunk_type: &ChunkType) -> (r: Result<Option<String>, DecodeError>)
    ensures
        match r {
            Ok(Some(text)) => exists|i: int|
                first_of_type(png@, chunk_type@, i) && valid_utf8(png@[i].data) && text@
                    == decode_utf8(png@[i].data),
            Ok(None) => none_of_type(png@, chunk_type@),
            Err(_) => exists|i: int|
                first_of_type(png@, chunk_type@, i) && !valid_utf8(png@[i].data),
        },
{
    let tag = chunk_type.bytes();
    match png.position(tag.as_slice()) {
        Some(i) => {
            let chunks = png.chunks();
            assert(views(chunks@)[i as int] == chunks@[i as int]@);
            match chunks[i].data_as_string() {
                Ok(text) => Ok(Some(text)),
                Err(e) => Err(e),
            }
        },
        None => Ok(None),
    }
}

/// Takes the message hidden under `chunk_type` out again: the first chunk
/// of that type leaves the container.
pub fn remove(png: &mut Png, chunk_type: &ChunkType) -> (r: Result<(), NotFoundError>)
    ensures
        match r {
            Ok(_) => exists|i: int|
                first_of_type(old(png)@, chunk_type@, i) && final(png)@ == old(png)@.remove(i),
            Err(_) => none_of_type(old(png)@, chunk_type@) && final(png)@ == old(png)@,
        },
{
    let tag = chunk_type.bytes();
    png.remove_first_tagged(tag.as_slice())
}

/// What each chunk of the container holds as text, in the order of the
/// chunks; for a payload that is not text, the failure in its place.
pub fn print(png: &Png) -> (r: Vec<Result<String, DecodeError>>)
    ensures
        r@.len() == png@.len(),
        forall|i: int|
            0 <= i < r@.len() ==> ((#[trigger] r@[i]) is Ok <==> valid_utf8(png@[i].data)),
        forall|i: int|
            0 <= i < r@.len() && (#[trigger] r@[i]) is Ok ==> r@[i]->Ok_0@ == decode_utf8(
                png@[i].data,
            ),
{
    let chunks = png.chunks();
    let mut out: Vec<Result<String, DecodeError>> = Vec::new();
    let mut i: usize = 0;
    while i < chunks.len()
        invariant
            i <= chunks@.len(),
            views(chunks@) == png@,
            out@.len() == i,
            forall|j: int| 0 <= j < i ==> ((#[trigger] out@[j]) is Ok <==> valid_utf8(png@[j].data)),
            forall|j: int|
                0 <= j < i && (#[trigger] out@[j]) is Ok ==> out@[j]->Ok_0@ == decode_utf8(
                    png@[j].data,
                ),
        decreases chunks@.len() - i,
    {
        assert(views(chunks@)[i as int] == chunks@[i as int]@);
        out.push(chunks[i].data_as_string());
        i += 1;
    }
    out
}

} // verus!
