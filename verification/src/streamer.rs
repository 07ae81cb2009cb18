use vstd::prelude::*;

use crate::hasher::Hasher;
use crate::hasher::md5_hex;
use crate::protocol::header_line;
use crate::protocol::trailer_lines;
use crate::protocol::push_header_line;
use crate::protocol::push_trailer_lines;
use crate::protocol::push_bytes;

verus! {

/// 64 KiB: the most body bytes moved from file to outbound buffer per
/// production step.
pub const CHUNK_SIZE: usize = 64 * 1024;

/// The stages of one transfer, in the only order they may be visited.
#[derive(Clone, Copy, Debug)]
pub enum Stage {
    Header,
    Body,
    Trailing,
    Done,
}

/// The abstract state of a streamer: the size captured when the file was
/// opened, the body bytes still owed, the current stage, and the body bytes
/// produced so far (exactly the bytes fed to the checksum).
pub ghost struct StreamerModel {
    pub size: u64,
    pub remaining: u64,
    pub stage: Stage,
    pub body: Seq<u8>,
}

pub open spec fn model_inv(m: StreamerModel) -> bool {
    &&& m.remaining <= m.size
    &&& m.body.len() + m.remaining <= m.size
    &&& (m.stage is Header ==> m.remaining == m.size && m.body.len() == 0)
    &&& (m.stage is Trailing || m.stage is Done ==> m.remaining == 0)
}

/// A streamer as it is attached: everything still owed, nothing produced.
pub open spec fn fresh_streamer(size: u64) -> StreamerModel {
    StreamerModel { size, remaining: size, stage: Stage::Header, body: Seq::empty() }
}

/// How many file bytes the next production step may consume: up to one
/// chunk while body bytes are owed, nothing otherwise.
pub open spec fn spec_read_request(m: StreamerModel) -> u64 {
    if (m.stage is Header || m.stage is Body) && m.remaining > 0 {
        if m.remaining < CHUNK_SIZE as u64 {
            m.remaining
        } else {
            CHUNK_SIZE as u64
        }
    } else {
        0
    }
}

/// Header stage: emit `FILE <size>\n` once, never touching the hasher.
pub open spec fn step_header(m: StreamerModel) -> (StreamerModel, Seq<u8>) {
    if m.stage is Header {
        (StreamerModel { stage: Stage::Body, ..m }, header_line(m.remaining))
    } else {
        (m, Seq::empty())
    }
}

/// Body stage: emit the chunk read from the file and feed it to the hash;
/// a zero-length read while bytes are owed means the file was truncated, so
/// the rest is forgiven. When nothing remains, move on to Trailing.
pub open spec fn step_body(m: StreamerModel, chunk: Seq<u8>) -> (StreamerModel, Seq<u8>) {
    if m.stage is Body {
        let stepped = if m.remaining > 0 {
            if chunk.len() == 0 {
                StreamerModel { remaining: 0, ..m }
            } else {
                StreamerModel {
                    remaining: (m.remaining - chunk.len()) as u64,
                    body: m.body + chunk,
                    ..m
                }
            }
        } else {
            m
        };
        let out = if m.remaining > 0 {
            chunk
        } else {
            Seq::<u8>::empty()
        };
        if stepped.remaining == 0 {
            (StreamerModel { stage: Stage::Trailing, ..stepped }, out)
        } else {
            (stepped, out)
        }
    } else {
        (m, Seq::empty())
    }
}

/// Trailing stage: emit the bare newline and the `MD5` line. The digest is
/// taken over exactly the body bytes produced so far.
pub open spec fn step_trailing(m: StreamerModel) -> (StreamerModel, Seq<u8>) {
    if m.stage is Trailing {
        (StreamerModel { stage: Stage::Done, ..m }, trailer_lines(md5_hex(m.body)))
    } else {
        (m, Seq::empty())
    }
}

/// One production step, as one writability event drives it: the stages
/// cascade, so a streamer that finishes its body in this step also emits
/// its trailer in this step.
pub open spec fn stream_step(m: StreamerModel, chunk: Seq<u8>) -> (StreamerModel, Seq<u8>) {
    let s1 = step_header(m);
    let s2 = step_body(s1.0, chunk);
    let s3 = step_trailing(s2.0);
    (s3.0, s1.1 + s2.1 + s3.1)
}

/// Streams one open file as protocol bytes: `FILE <size>\n`, then the body
/// in bounded chunks, then a newline and `MD5 <digest>\n`. The file handle
/// itself stays with the caller, which reads at most `read_request` bytes
/// ahead of each `step`.
pub struct FileStreamer {
    size: u64,
    remaining: u64,
    stage: Stage,
    digest: Option<Vec<u8>>,
    hasher: Hasher,
}

impl View for FileStreamer {
    type V = StreamerModel;

    closed spec fn view(&self) -> StreamerModel {
        StreamerModel {
            size: self.size,
            remaining: self.remaining,
            stage: self.stage,
            body: self.hasher.bytes(),
        }
    }
}

/// A well-formed streamer satisfies the model invariant.
pub proof fn lemma_streamer_wf_inv(s: &FileStreamer)
    requires
        s.wf(),
    ensures
        model_inv(s@),
{
}

impl FileStreamer {
    pub closed spec fn wf(self) -> bool {
        &&& model_inv(self@)
        &&& match self.digest {
            Some(d) => (self.stage is Trailing || self.stage is Done) && d@ == md5_hex(
                self.hasher.bytes(),
            ),
            None => !(self.stage is Trailing || self.stage is Done),
        }
    }

    /// A streamer for a file whose size was captured at open time.
    pub fn new(size: u64) -> (s: FileStreamer)
        ensures
            s.wf(),
            s@ == fresh_streamer(size),
    {
        let s = FileStreamer {
            size,
            remaining: size,
            stage: Stage::Header,
            digest: None,
            hasher: Hasher::new(),
        };
        assert(s@ =~= fresh_streamer(size));
        s
    }

    /// How many file bytes the caller should read before the next `step`.
    pub fn read_request(&self) -> (r: u64)
        ensures
            r == spec_read_request(self@),
    {
        match self.stage {
            Stage::Header | Stage::Body => {
                if self.remaining > 0 {
                    if self.remaining < CHUNK_SIZE as u64 {
                        self.remaining
                    } else {
                        CHUNK_SIZE as u64
                    }
                } else {
                    0
                }
            },
            _ => 0,
        }
    }

    pub fn done(&self) -> (r: bool)
        ensures
            r == (self@.stage is Done),
    {
        matches!(self.stage, Stage::Done)
    }

    /// One production step. `chunk` is what the caller read from the file,
    /// at most `read_request` bytes; a zero-length chunk while bytes are
    /// owed reports a truncated file. The produced protocol bytes are
    /// appended to `out`.
    pub fn step(&mut self, chunk: &[u8], out: &mut Vec<u8>)
        requires
            old(self).wf(),
            chunk@.len() <= spec_read_request(old(self)@),
        ensures
            final(self).wf(),
            final(self)@ == stream_step(old(self)@, chunk@).0,
            final(out)@ == old(out)@ + stream_step(old(self)@, chunk@).1,
    {
        let ghost m0 = self@;
        let ghost out0 = out@;
        if matches!(self.stage, Stage::Header) {
            push_header_line(out, self.remaining);
            self.stage = Stage::Body;
        }
        let ghost m1 = self@;
        let ghost out1 = out@;
        proof {
            assert(m1 == step_header(m0).0);
            assert(out1 == out0 + step_header(m0).1);
        }
        if matches!(self.stage, Stage::Body) {
            if self.remaining > 0 {
                if chunk.len() == 0 {
                    self.remaining = 0;
                } else {
                    self.hasher.consume(chunk);
                    push_bytes(out, chunk);
                    self.remaining = self.remaining - chunk.len() as u64;
                }
            }
            if self.remaining == 0 {
                self.digest = Some(self.hasher.finalize());
                self.stage = Stage::Trailing;
            }
        }
        let ghost m2 = self@;
        let ghost out2 = out@;
        proof {
            assert(m2 == step_body(m1, chunk@).0);
            assert(out2 == out1 + step_body(m1, chunk@).1);
        }
        if matches!(self.stage, Stage::Trailing) {
            if let Some(d) = &self.digest {
                push_trailer_lines(out, d.as_slice());
            }
            self.stage = Stage::Done;
        }
        proof {
            assert(self@ == step_trailing(m2).0);
            assert(out@ == out2 + step_trailing(m2).1);
            assert(out@ =~= out0 + stream_step(m0, chunk@).1);
        }
    }
}

// ---------------------------------------------------------------------------
// Laws of a whole transfer
// ---------------------------------------------------------------------------

/// The model and output after feeding a streamer one chunk per step.
pub open spec fn run_steps(m: StreamerModel, chunks: Seq<Seq<u8>>) -> (StreamerModel, Seq<u8>)
    decreases chunks.len(),
{
    if chunks.len() == 0 {
        (m, Seq::empty())
    } else {
        let first = stream_step(m, chunks[0]);
        let rest = run_steps(first.0, chunks.skip(1));
        (rest.0, first.1 + rest.1)
    }
}

pub open spec fn concat_chunks(chunks: Seq<Seq<u8>>) -> Seq<u8>
    decreases chunks.len(),
{
    if chunks.len() == 0 {
        Seq::empty()
    } else {
        chunks[0] + concat_chunks(chunks.skip(1))
    }
}

/// Each chunk is a non-empty file read of at most what the streamer asked
/// for at that point.
pub open spec fn valid_feed(m: StreamerModel, chunks: Seq<Seq<u8>>) -> bool
    decreases chunks.len(),
{
    if chunks.len() == 0 {
        true
    } else {
        &&& 1 <= chunks[0].len() <= spec_read_request(m)
        &&& valid_feed(stream_step(m, chunks[0]).0, chunks.skip(1))
    }
}

/// Where each stage stands in the one admissible order.
pub open spec fn stage_rank(s: Stage) -> int {
    match s {
        Stage::Header => 0,
        Stage::Body => 1,
        Stage::Trailing => 2,
        Stage::Done => 3,
    }
}

/// The stage only moves forward, Header to Body to Trailing to Done,
/// never backward.
pub proof fn lemma_stage_moves_forward(m: StreamerModel, chunk: Seq<u8>)
    ensures
        stage_rank(stream_step(m, chunk).0.stage) >= stage_rank(m.stage),
{
}

/// A production step preserves the streamer invariant.
pub proof fn lemma_step_preserves_inv(m: StreamerModel, chunk: Seq<u8>)
    requires
        model_inv(m),
        chunk.len() <= spec_read_request(m),
    ensures
        model_inv(stream_step(m, chunk).0),
{
}

/// A finished streamer produces nothing more and does not change.
pub proof fn lemma_step_after_done(m: StreamerModel, chunk: Seq<u8>)
    requires
        m.stage is Done,
        chunk.len() <= spec_read_request(m),
    ensures
        stream_step(m, chunk) == (m, Seq::<u8>::empty()),
{
    assert(stream_step(m, chunk).1 =~= Seq::<u8>::empty());
}

/// The digest is taken over exactly the bytes produced in the Body stage:
/// the step that consumes the last owed byte emits those bytes and then the
/// trailer whose `MD5` line is the digest of the whole accumulated body,
/// before which no trailing byte was emitted.
pub proof fn lemma_digest_of_body(m: StreamerModel, chunk: Seq<u8>)
    requires
        model_inv(m),
        m.stage is Body,
        m.remaining > 0,
        chunk.len() == m.remaining,
        chunk.len() <= spec_read_request(m),
    ensures
        stream_step(m, chunk).0.stage is Done,
        stream_step(m, chunk).0.body == m.body + chunk,
        stream_step(m, chunk).1 == chunk + trailer_lines(md5_hex(m.body + chunk)),
{
    assert(stream_step(m, chunk).1 =~= chunk + trailer_lines(md5_hex(m.body + chunk)));
}

/// A whole transfer, starting from a streamer that still owes bytes: the
/// output is the owed bytes exactly as the file reads handed them over,
/// then the trailer with the digest of the whole body, preceded by the
/// header line if it had not yet been sent.
pub proof fn lemma_feed_run(m: StreamerModel, chunks: Seq<Seq<u8>>)
    requires
        model_inv(m),
        m.stage is Header || m.stage is Body,
        m.remaining > 0,
        valid_feed(m, chunks),
        concat_chunks(chunks).len() == m.remaining,
    ensures
        run_steps(m, chunks).0.stage is Done,
        run_steps(m, chunks).0.body == m.body + concat_chunks(chunks),
        run_steps(m, chunks).0.size == m.size,
        run_steps(m, chunks).1 == (if m.stage is Header {
            header_line(m.size)
        } else {
            Seq::<u8>::empty()
        }) + concat_chunks(chunks) + trailer_lines(md5_hex(m.body + concat_chunks(chunks))),
    decreases chunks.len(),
{
    if chunks.len() == 0 {
        assert(false);
    } else {
        let c = chunks[0];
        let first = stream_step(m, c);
        let header_part: Seq<u8> = if m.stage is Header {
            header_line(m.size)
        } else {
            Seq::<u8>::empty()
        };
        if c.len() == m.remaining {
            assert(first.0.stage is Done);
            assert(first.0.body == m.body + c);
            assert(first.1 =~= header_part + c + trailer_lines(md5_hex(m.body + c)));
            assert(concat_chunks(chunks.skip(1)).len() == 0);
            assert(valid_feed(first.0, chunks.skip(1)));
            if chunks.skip(1).len() != 0 {
                assert(spec_read_request(first.0) == 0);
                assert(1 <= chunks.skip(1)[0].len() <= spec_read_request(first.0));
                assert(false);
            }
            assert(run_steps(first.0, chunks.skip(1)) == (first.0, Seq::<u8>::empty()));
            assert(concat_chunks(chunks) =~= c);
            assert(run_steps(m, chunks).1 =~= first.1);
        } else {
            assert(first.0.stage is Body);
            assert(first.0.remaining == m.remaining - c.len());
            assert(first.0.body == m.body + c);
            lemma_feed_run(first.0, chunks.skip(1));
            assert(m.body + concat_chunks(chunks) =~= first.0.body + concat_chunks(
                chunks.skip(1)));
            assert(run_steps(m, chunks).0.body =~= m.body + concat_chunks(chunks));
            assert(run_steps(m, chunks).1 =~= header_part + concat_chunks(chunks)
                + trailer_lines(md5_hex(m.body + concat_chunks(chunks))));
        }
    }
}

/// A complete transfer of a file of `size > 0` bytes: the client receives
/// the header, then exactly the file's bytes however the reads chunked
/// them, then the newline and the `MD5` line over exactly those bytes.
pub proof fn lemma_whole_transfer(size: u64, chunks: Seq<Seq<u8>>)
    requires
        size > 0,
        valid_feed(fresh_streamer(size), chunks),
        concat_chunks(chunks).len() == size,
    ensures
        run_steps(fresh_streamer(size), chunks).0.stage is Done,
        run_steps(fresh_streamer(size), chunks).0.body == concat_chunks(chunks),
        run_steps(fresh_streamer(size), chunks).1 == header_line(size) + concat_chunks(chunks)
            + trailer_lines(md5_hex(concat_chunks(chunks))),
{
    lemma_feed_run(fresh_streamer(size), chunks);
    assert(fresh_streamer(size).body + concat_chunks(chunks) =~= concat_chunks(chunks));
    assert(run_steps(fresh_streamer(size), chunks).0.body =~= concat_chunks(chunks));
    assert(run_steps(fresh_streamer(size), chunks).1 =~= header_line(size) + concat_chunks(chunks)
        + trailer_lines(md5_hex(concat_chunks(chunks))));
}

/// A transfer of an empty file takes a single step: `FILE 0\n`, the bare
/// newline, and the `MD5` line over the empty input.
pub proof fn lemma_empty_transfer()
    ensures
        stream_step(fresh_streamer(0), Seq::empty()).0.stage is Done,
        stream_step(fresh_streamer(0), Seq::empty()).1 == header_line(0) + trailer_lines(
            md5_hex(Seq::<u8>::empty())),
{
    assert(stream_step(fresh_streamer(0), Seq::empty()).1 =~= header_line(0) + trailer_lines(
        md5_hex(Seq::<u8>::empty())));
}

} // verus!
