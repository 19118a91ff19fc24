use vstd::prelude::*;
use vstd::slice::slice_subrange;
use vstd::std_specs::convert::TryFromSpecImpl;
use vstd::string::StringSliceAdditionalSpecFns;
use crate::bytes::{append_bytes, be_value, same_bytes, u32_from_be};
use crate::chunk::{
    lemma_frame_of_parse_frame, lemma_frame_prefix, lemma_parse_frame_of_frame, parse_frame, Chunk,
    ChunkView,
};
use crate::error::{NotFoundError, PngError};

verus! {

/// A PNG file in memory: the chunks that follow the signature, in order.
#[derive(Debug)]
pub struct Png {
    chunks: Vec<Chunk>,
}

/// The eight bytes that every PNG file begins with.
pub open spec fn signature() -> Seq<u8> {
    seq![137u8, 80u8, 78u8, 71u8, 13u8, 10u8, 26u8, 10u8]
}

/// The chunks of `chunks` as plain values, in the same order.
pub open spec fn views(chunks: Seq<Chunk>) -> Seq<ChunkView> {
    chunks.map_values(|c: Chunk| c@)
}

/// Every chunk of the sequence is well formed.
pub open spec fn all_wf(chunks: Seq<ChunkView>) -> bool {
    forall|i: int| 0 <= i < chunks.len() ==> (#[trigger] chunks[i]).wf()
}

/// The frames of the chunks, one after the other.
pub open spec fn frames(chunks: Seq<ChunkView>) -> Seq<u8>
    decreases chunks.len(),
{
    if chunks.len() == 0 {
        Seq::empty()
    } else {
        frames(chunks.drop_last()) + chunks.last().frame()
    }
}

/// A PNG file with these chunks: the signature, then the frames.
pub open spec fn file_bytes(chunks: Seq<ChunkView>) -> Seq<u8> {
    signature() + frames(chunks)
}

/// The result of a parse with the chunks `done` put in front of it.
pub open spec fn after(done: Seq<ChunkView>, rest: Result<Seq<ChunkView>, PngError>) -> Result<
    Seq<ChunkView>,
    PngError,
> {
    match rest {
        Ok(chunks) => Ok(done + chunks),
        Err(e) => Err(e),
    }
}

/// What reading `bytes` as a run of chunks gives. Each chunk's length field
/// says where the next one starts; the first chunk that cannot be read
/// decides the error, and nothing may be left over at the end.
pub open spec fn parse_frames(bytes: Seq<u8>) -> Result<Seq<ChunkView>, PngError>
    decreases bytes.len(),
{
    if bytes.len() == 0 {
        Ok(Seq::empty())
    } else if bytes.len() < 12 || bytes.len() < 12 + be_value(bytes.subrange(0, 4)) {
        Err(PngError::ChunkError)
    } else {
        let n = 12 + be_value(bytes.subrange(0, 4));
        match parse_frame(bytes.subrange(0, n)) {
            Ok(c) => after(seq![c], parse_frames(bytes.subrange(n, bytes.len() as int))),
            Err(e) => Err(e),
        }
    }
}

/// What reading `bytes` as a PNG file gives: its chunks, or the reason why
/// it is none.
pub open spec fn parse_file(bytes: Seq<u8>) -> Result<Seq<ChunkView>, PngError> {
    if bytes.len() < 8 || bytes.subrange(0, 8) != signature() {
        Err(PngError::ChunkHeaderError)
    } else {
        parse_frames(bytes.subrange(8, bytes.len() as int))
    }
}

/// `i` is the place of the first chunk of type `tag`.
pub open spec fn first_of_type(chunks: Seq<ChunkView>, tag: Seq<u8>, i: int) -> bool {
    &&& 0 <= i < chunks.len()
    &&& chunks[i].chunk_type == tag
    &&& forall|j: int| 0 <= j < i ==> (#[trigger] chunks[j]).chunk_type != tag
}

/// No chunk has the type `tag`.
pub open spec fn none_of_type(chunks: Seq<ChunkView>, tag: Seq<u8>) -> bool {
    forall|j: int| 0 <= j < chunks.len() ==> (#[trigger] chunks[j]).chunk_type != tag
}

/// Nothing put in front changes nothing.
proof fn lemma_after_nothing(rest: Result<Seq<ChunkView>, PngError>)
    ensures
        after(Seq::empty(), rest) == rest,
{
    if let Ok(chunks) = rest {
        assert(Seq::<ChunkView>::empty() + chunks =~= chunks);
    }
}

/// To put `done` in front of `c` and the rest is to put `done` with `c` in
/// front of the rest.
proof fn lemma_after_one_more(
    done: Seq<ChunkView>,
    c: ChunkView,
    rest: Result<Seq<ChunkView>, PngError>,
)
    ensures
        after(done, after(seq![c], rest)) == after(done.push(c), rest),
{
    if let Ok(chunks) = rest {
        assert(done + (seq![c] + chunks) =~= done.push(c) + chunks);
    }
}

/// The frames of two runs of chunks, joined, are the frames of the joined run.
pub proof fn lemma_frames_concat(a: Seq<ChunkView>, b: Seq<ChunkView>)
    ensures
        frames(a + b) == frames(a) + frames(b),
    decreases b.len(),
{
    if b.len() == 0 {
        assert(a + b =~= a);
        assert(frames(a) + frames(b) =~= frames(a));
    } else {
        assert((a + b).drop_last() =~= a + b.drop_last());
        assert((a + b).last() == b.last());
        lemma_frames_concat(a, b.drop_last());
        assert(frames(a + b) =~= frames(a) + frames(b));
    }
}

/// The frames of a run of chunks are the first one's frame, then the
/// frames of the others.
pub proof fn lemma_frames_cons(c: ChunkView, rest: Seq<ChunkView>)
    ensures
        frames(seq![c] + rest) == c.frame() + frames(rest),
{
    let one = seq![c];
    assert(one.drop_last() =~= Seq::<ChunkView>::empty());
    assert(frames(one.drop_last()) =~= Seq::<u8>::empty());
    assert(frames(one) =~= c.frame());
    lemma_frames_concat(one, rest);
}

/// Reading undoes writing, for a run of chunks.
pub proof fn lemma_parse_frames_of_frames(chunks: Seq<ChunkView>)
    requires
        all_wf(chunks),
    ensures
        parse_frames(frames(chunks)) == Ok::<Seq<ChunkView>, PngError>(chunks),
    decreases chunks.len(),
{
    if chunks.len() == 0 {
        assert(chunks =~= Seq::empty());
    } else {
        let c = chunks[0];
        let rest = chunks.drop_first();
        let tail = frames(rest);
        assert(chunks =~= seq![c] + rest);
        lemma_frames_cons(c, rest);
        lemma_frame_prefix(c, tail);
        lemma_parse_frame_of_frame(c);
        assert forall|i: int| 0 <= i < rest.len() implies (#[trigger] rest[i]).wf() by {
            assert(rest[i] == chunks[i + 1]);
        }
        lemma_parse_frames_of_frames(rest);
        assert(parse_frames(c.frame() + tail) == after(seq![c], parse_frames(tail)));
    }
}

/// A well-formed chunk in front of well-formed chunks: all are well formed.
proof fn lemma_all_wf_cons(c: ChunkView, rest: Seq<ChunkView>)
    requires
        c.wf(),
        all_wf(rest),
    ensures
        all_wf(seq![c] + rest),
{
    let all = seq![c] + rest;
    assert forall|i: int| 0 <= i < all.len() implies (#[trigger] all[i]).wf() by {
        if i > 0 {
            assert(all[i] == rest[i - 1]);
        }
    }
}

/// How a run of chunks that parses falls into its first chunk and the rest.
proof fn lemma_parse_frames_unfold(bytes: Seq<u8>)
    requires
        parse_frames(bytes) is Ok,
        bytes.len() > 0,
    ensures
        ({
            let n = 12 + be_value(bytes.subrange(0, 4));
            let head = bytes.subrange(0, n);
            let tail = bytes.subrange(n, bytes.len() as int);
            &&& n <= bytes.len()
            &&& parse_frame(head) is Ok
            &&& parse_frames(tail) is Ok
            &&& parse_frames(bytes)->Ok_0 == seq![parse_frame(head)->Ok_0] + parse_frames(tail)->Ok_0
            &&& head + tail == bytes
        }),
{
    let n = 12 + be_value(bytes.subrange(0, 4));
    assert(bytes.subrange(0, n) + bytes.subrange(n, bytes.len() as int) =~= bytes);
}

/// Writing undoes reading, for a run of chunks: bytes that parse are the
/// frames of the chunks they parse to, and those chunks are well formed.
pub proof fn lemma_frames_of_parse_frames(bytes: Seq<u8>)
    requires
        parse_frames(bytes) is Ok,
    ensures
        all_wf(parse_frames(bytes)->Ok_0),
        frames(parse_frames(bytes)->Ok_0) == bytes,
    decreases bytes.len(),
{
    if bytes.len() == 0 {
        assert(frames(Seq::<ChunkView>::empty()) =~= bytes);
    } else {
        lemma_parse_frames_unfold(bytes);
        let n = 12 + be_value(bytes.subrange(0, 4));
        let head = bytes.subrange(0, n);
        let tail = bytes.subrange(n, bytes.len() as int);
        let c = parse_frame(head)->Ok_0;
        let rest = parse_frames(tail)->Ok_0;
        lemma_frame_of_parse_frame(head);
        lemma_frames_of_parse_frames(tail);
        lemma_frames_cons(c, rest);
        lemma_all_wf_cons(c, rest);
    }
}

/// Container round trip: the file written for well-formed chunks reads back
/// as the same chunks in the same order.
pub proof fn lemma_parse_file_of_file_bytes(chunks: Seq<ChunkView>)
    requires
        all_wf(chunks),
    ensures
        parse_file(file_bytes(chunks)) == Ok::<Seq<ChunkView>, PngError>(chunks),
{
    let bytes = file_bytes(chunks);
    assert(bytes.subrange(0, 8) =~= signature());
    assert(bytes.subrange(8, bytes.len() as int) =~= frames(chunks));
    lemma_parse_frames_of_frames(chunks);
}

/// The other way round: a file that reads as chunks is the file written for
/// them, byte for byte, and the chunks are well formed.
pub proof fn lemma_file_bytes_of_parse_file(bytes: Seq<u8>)
    requires
        parse_file(bytes) is Ok,
    ensures
        all_wf(parse_file(bytes)->Ok_0),
        file_bytes(parse_file(bytes)->Ok_0) == bytes,
{
    let tail = bytes.subrange(8, bytes.len() as int);
    lemma_frames_of_parse_frames(tail);
    assert(bytes.subrange(0, 8) + tail =~= bytes);
}

impl View for Png {
    type V = Seq<ChunkView>;

    closed spec fn view(&self) -> Seq<ChunkView> {
        views(self.chunks@)
    }
}

impl Png {
    /// The signature of a PNG file.
    pub const STANDARD_HEADER: [u8; 8] = [137, 80, 78, 71, 13, 10, 26, 10];

    /// A container that holds `chunks`, in their order.
    pub fn from_chunks(chunks: Vec<Chunk>) -> (r: Self)
        ensures
            r@ == views(chunks@),
    {
        Png { chunks }
    }

    /// Adds `chunk` behind the chunks that are there.
    pub fn append_chunk(&mut self, chunk: Chunk)
        ensures
            final(self)@ == old(self)@.push(chunk@),
    {
        self.chunks.push(chunk);
        assert(views(self.chunks@) =~= views(old(self).chunks@).push(chunk@));
    }

    /// Where the first chunk stands whose type has the bytes `tag`.
    pub fn position(&self, tag: &[u8]) -> (r: Option<usize>)
        ensures
            match r {
                Some(i) => first_of_type(self@, tag@, i as int),
                None => none_of_type(self@, tag@),
            },
    {
        let mut i: usize = 0;
        while i < self.chunks.len()
            invariant
                i <= self.chunks@.len(),
                forall|j: int| 0 <= j < i ==> (#[trigger] self@[j]).chunk_type != tag@,
            decreases self.chunks@.len() - i,
        {
            let own = self.chunks[i].chunk_type().bytes();
            if same_bytes(own.as_slice(), tag) {
                return Some(i);
            }
            i += 1;
        }
        None
    }

    /// Takes out the first chunk whose type, written as text, is
    /// `chunk_type`. The chunks behind it move up; if there is none, nothing
    /// changes.
    pub fn remove_first_chunk(&mut self, chunk_type: &str) -> (r: Result<(), NotFoundError>)
        ensures
            match r {
                Ok(_) => exists|i: int|
                    first_of_type(old(self)@, chunk_type.spec_bytes(), i) && final(self)@ == old(
                        self,
                    )@.remove(i),
                Err(_) => none_of_type(old(self)@, chunk_type.spec_bytes()) && final(self)@ == old(
                    self,
                )@,
            },
    {
        self.remove_first_tagged(chunk_type.as_bytes())
    }

    /// Takes out the first chunk whose type has the bytes `tag`.
    pub fn remove_first_tagged(&mut self, tag: &[u8]) -> (r: Result<(), NotFoundError>)
        ensures
            match r {
                Ok(_) => exists|i: int|
                    first_of_type(old(self)@, tag@, i) && final(self)@ == old(self)@.remove(i),
                Err(_) => none_of_type(old(self)@, tag@) && final(self)@ == old(self)@,
            },
    {
        match self.position(tag) {
            Some(i) => {
                let _ = self.chunks.remove(i);
                assert(views(self.chunks@) =~= views(old(self).chunks@).remove(i as int));
                Ok(())
            },
            None => Err(NotFoundError),
        }
    }

    /// The signature that the file begins with.
    pub fn header(&self) -> (r: [u8; 8])
        ensures
            r@ == signature(),
    {
        let r = Png::STANDARD_HEADER;
        assert(r@ =~= signature());
        r
    }

    /// The chunks, in the order in which they stand in the file.
    pub fn chunks(&self) -> (r: &[Chunk])
        ensures
            views(r@) == self@,
    {
        self.chunks.as_slice()
    }

    /// The file: the signature, then every chunk as it is framed. Read
    /// again, the bytes give the same chunks in the same order.
    pub fn as_bytes(&self) -> (r: Vec<u8>)
        ensures
            r@ == file_bytes(self@),
            all_wf(self@),
            parse_file(r@) == Ok::<Seq<ChunkView>, PngError>(self@),
    {
        let mut out: Vec<u8> = Vec::new();
        let header = self.header();
        append_bytes(&mut out, header.as_slice());
        let mut i: usize = 0;
        assert(self@.take(0) =~= Seq::empty());
        while i < self.chunks.len()
            invariant
                i <= self.chunks@.len(),
                out@ == file_bytes(self@.take(i as int)),
                all_wf(self@.take(i as int)),
            decreases self.chunks@.len() - i,
        {
            let frame = self.chunks[i].as_bytes();
            append_bytes(&mut out, frame.as_slice());
            proof {
                let next = self@.take(i + 1);
                assert(next.drop_last() =~= self@.take(i as int));
                assert(next.last() == self@[i as int]);
                assert(out@ =~= file_bytes(next));
            }
            i += 1;
        }
        proof {
            assert(self@.take(i as int) =~= self@);
            lemma_parse_file_of_file_bytes(self@);
        }
        out
    }
}

impl TryFrom<&[u8]> for Png {
    type Error = PngError;

    /// Reads a whole PNG file. The chunks that come out are well formed,
    /// and written again they give `value` back.
    fn try_from(value: &[u8]) -> (r: Result<Self, PngError>)
        ensures
            match r {
                Ok(png) => parse_file(value@) == Ok::<Seq<ChunkView>, PngError>(png@) && all_wf(
                    png@,
                ) && file_bytes(png@) == value@,
                Err(e) => parse_file(value@) == Err::<Seq<ChunkView>, PngError>(e),
            },
    {
        let n = value.len();
        if n < 8 {
            return Err(PngError::ChunkHeaderError);
        }
        let header = Png::STANDARD_HEADER;
        assert(header@ =~= signature());
        if !same_bytes(slice_subrange(value, 0, 8), header.as_slice()) {
            return Err(PngError::ChunkHeaderError);
        }
        let mut chunks: Vec<Chunk> = Vec::new();
        let mut at: usize = 8;
        proof {
            lemma_after_nothing(parse_frames(value@.subrange(8, n as int)));
            assert(views(chunks@) =~= Seq::empty());
        }
        while at < n
            invariant
                8 <= at <= n,
                n == value@.len(),
                parse_file(value@) == after(
                    views(chunks@),
                    parse_frames(value@.subrange(at as int, n as int)),
                ),
            decreases n - at,
        {
            let ghost rest = value@.subrange(at as int, n as int);
            if n - at < 12 {
                return Err(PngError::ChunkError);
            }
            let length = u32_from_be(value, at);
            assert(value@.subrange(at as int, at + 4) =~= rest.subrange(0, 4));
            if n - at - 12 < length as usize {
                return Err(PngError::ChunkError);
            }
            let end = at + 12 + length as usize;
            assert(value@.subrange(at as int, end as int) =~= rest.subrange(0, 12 + length));
            assert(value@.subrange(end as int, n as int) =~= rest.subrange(
                12 + length,
                rest.len() as int,
            ));
            match Chunk::try_from(slice_subrange(value, at, end)) {
                Ok(chunk) => {
                    proof {
                        lemma_after_one_more(
                            views(chunks@),
                            chunk@,
                            parse_frames(value@.subrange(end as int, n as int)),
                        );
                        assert(views(chunks@.push(chunk)) =~= views(chunks@).push(chunk@));
                    }
                    chunks.push(chunk);
                    at = end;
                },
                Err(e) => {
                    return Err(e);
                },
            }
        }
        proof {
            assert(views(chunks@) + Seq::<ChunkView>::empty() =~= views(chunks@));
            lemma_file_bytes_of_parse_file(value@);
        }
        Ok(Png { chunks })
    }
}

/// What reading gives is said by the contract of `try_from`: a container
/// owns its chunks, so no spec function can build one.
impl TryFromSpecImpl<&[u8]> for Png {
    open spec fn obeys_try_from_spec() -> bool {
        false
    }

    open spec fn try_from_spec(value: &[u8]) -> Result<Self, PngError> {
        Err(PngError::ChunkHeaderError)
    }
}

} // verus!
