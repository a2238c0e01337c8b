//! Frame Assembler. The decode side turns an arbitrarily chunked byte
//! stream into the frames it carries: each frame is a 2-byte big-endian
//! length prefix followed by that many payload bytes. A declared length
//! above the configured maximum is fatal before its body is buffered, so
//! memory stays bounded whatever an adversary declares. The encode side
//! splits a payload into maximum-sized pieces.

use vstd::prelude::*;

use crate::errors::FrameTooLarge;
use crate::primitives::copy_range;
use crate::primitives::extend_bytes;
use crate::primitives::get_be16;
use crate::primitives::read16;

verus! {

/// What a byte sequence decodes to: the complete frames it holds in
/// arrival order, the unconsumed tail, and whether an oversized frame was
/// declared.
#[verifier::ext_equal]
pub struct FrameDecode {
    pub frames: Seq<Seq<u8>>,
    pub rest: Seq<u8>,
    pub oversized: bool,
}

/// Decodes every complete frame at the front of `b`, with `max` the
/// largest tolerated declared length.
pub open spec fn frames_of(b: Seq<u8>, max: u16) -> FrameDecode
    decreases b.len(),
{
    if b.len() < 2 {
        FrameDecode { frames: Seq::empty(), rest: b, oversized: false }
    } else {
        let n = read16(b[0], b[1]) as int;
        if n > max {
            FrameDecode { frames: Seq::empty(), rest: b, oversized: true }
        } else if b.len() < 2 + n {
            FrameDecode { frames: Seq::empty(), rest: b, oversized: false }
        } else {
            let r = frames_of(b.skip(2 + n), max);
            FrameDecode {
                frames: seq![b.subrange(2, 2 + n)] + r.frames,
                rest: r.rest,
                oversized: r.oversized,
            }
        }
    }
}

/// While no oversized frame was declared, the unconsumed tail is at most
/// one length prefix plus one maximal body short of a frame boundary.
pub proof fn lemma_rest_bounded(b: Seq<u8>, max: u16)
    requires
        !frames_of(b, max).oversized,
    ensures
        frames_of(b, max).rest.len() <= max + 1,
    decreases b.len(),
{
    if b.len() < 2 {
    } else {
        let n = read16(b[0], b[1]) as int;
        if n > max {
        } else if b.len() < 2 + n {
        } else {
            lemma_rest_bounded(b.skip(2 + n), max);
        }
    }
}

/// Every decoded frame consumed at least its two-byte length prefix.
pub proof fn lemma_frames_count(b: Seq<u8>, max: u16)
    ensures
        2 * frames_of(b, max).frames.len() <= b.len(),
    decreases b.len(),
{
    if b.len() < 2 {
    } else {
        let n = read16(b[0], b[1]) as int;
        if n > max {
        } else if b.len() < 2 + n {
        } else {
            lemma_frames_count(b.skip(2 + n), max);
        }
    }
}

/// Law (chunking invariance): delivering `b` and then `c` decodes to the
/// same frames as delivering `b + c` in one write. Together with `push`'s
/// contract, which says the frames an assembler has emitted are a function
/// of the concatenation of everything fed to it, this makes decoding
/// insensitive to how the transport splits the byte stream.
pub proof fn lemma_chunking_invariance(b: Seq<u8>, c: Seq<u8>, max: u16)
    requires
        !frames_of(b, max).oversized,
    ensures
        frames_of(b + c, max).frames == frames_of(b, max).frames + frames_of(
            frames_of(b, max).rest + c,
            max,
        ).frames,
        frames_of(b + c, max).rest == frames_of(frames_of(b, max).rest + c, max).rest,
        frames_of(b + c, max).oversized == frames_of(frames_of(b, max).rest + c, max).oversized,
    decreases b.len(),
{
    if b.len() < 2 {
        assert(frames_of(b, max).rest == b);
        assert(frames_of(b + c, max).frames =~= frames_of(b, max).frames + frames_of(
            frames_of(b, max).rest + c,
            max,
        ).frames);
    } else {
        let n = read16(b[0], b[1]) as int;
        if n > max {
        } else if b.len() < 2 + n {
            let bc = b + c;
            assert(bc[0] == b[0] && bc[1] == b[1]);
            assert(frames_of(b, max).rest == b);
            assert(frames_of(b + c, max).frames =~= frames_of(b, max).frames + frames_of(b + c, max).frames);
        } else {
            let bc = b + c;
            assert(bc[0] == b[0] && bc[1] == b[1]);
            assert(bc.len() >= 2 + n);
            assert(bc.subrange(2, 2 + n) =~= b.subrange(2, 2 + n));
            assert(bc.skip(2 + n) =~= b.skip(2 + n) + c);
            lemma_chunking_invariance(b.skip(2 + n), c, max);
            assert(frames_of(b + c, max).frames =~= frames_of(b, max).frames + frames_of(
                frames_of(b, max).rest + c,
                max,
            ).frames);
        }
    }
}

/// Decode-side assembler: buffers a partial frame across deliveries and
/// hands out each frame exactly once, in arrival order.
pub struct FrameAssembler {
    /// Largest tolerated declared frame length.
    pub max: u16,
    /// Bytes received but not yet part of an emitted frame.
    pub buf: Vec<u8>,
    /// Set once an oversized frame was declared; the session is over.
    pub failed: bool,
    /// Every byte ever fed in, in order.
    pub hist: Ghost<Seq<u8>>,
}

impl FrameAssembler {
    /// The assembler's invariant: its buffer is exactly the undecoded tail
    /// of everything fed so far, and is bounded by one frame.
    pub open spec fn wf(&self) -> bool {
        if self.failed {
            frames_of(self.hist@, self.max).oversized
        } else {
            &&& !frames_of(self.hist@, self.max).oversized
            &&& self.buf@ == frames_of(self.hist@, self.max).rest
            &&& self.buf@.len() <= self.max + 1
        }
    }

    /// A fresh assembler for one direction of one session.
    pub fn new(max: u16) -> (r: FrameAssembler)
        ensures
            r.wf(),
            !r.failed,
            r.max == max,
            r.hist@ == Seq::<u8>::empty(),
    {
        let r = FrameAssembler { max, buf: Vec::new(), failed: false, hist: Ghost(Seq::empty()) };
        assert(frames_of(r.hist@, max).rest =~= Seq::<u8>::empty());
        r
    }

    /// Feeds one delivery of transport bytes and returns every frame that
    /// is now complete, in arrival order. The frames emitted across all
    /// pushes are exactly the frames of the concatenation of all bytes fed,
    /// however the transport chunked them. An oversized declared length is
    /// fatal and its body is never buffered.
    #[verifier::loop_isolation(false)]
    pub fn push(&mut self, chunk: &[u8]) -> (r: Result<Vec<Vec<u8>>, FrameTooLarge>)
        requires
            old(self).wf(),
            !old(self).failed,
        ensures
            final(self).wf(),
            final(self).max == old(self).max,
            final(self).hist@ == old(self).hist@ + chunk@,
            match r {
                Ok(fs) => {
                    &&& !final(self).failed
                    &&& !frames_of(final(self).hist@, final(self).max).oversized
                    &&& fs.deep_view() == frames_of(final(self).hist@, final(self).max).frames.skip(
                        frames_of(old(self).hist@, old(self).max).frames.len() as int,
                    )
                },
                Err(_) => {
                    &&& final(self).failed
                    &&& frames_of(final(self).hist@, final(self).max).oversized
                    &&& final(self).buf@.len() == 0
                },
            },
    {
        let ghost oldhist = self.hist@;
        let ghost oldrest = self.buf@;
        let ghost oldframes = frames_of(oldhist, self.max).frames;
        let max = self.max;
        extend_bytes(&mut self.buf, chunk);
        self.hist = Ghost(oldhist + chunk@);
        let ghost start = oldrest + chunk@;
        proof {
            lemma_chunking_invariance(oldhist, chunk@, max);
            assert(frames_of(self.hist@, max).frames.skip(oldframes.len() as int) =~= frames_of(
                start,
                max,
            ).frames);
        }
        let mut out: Vec<Vec<u8>> = Vec::new();
        let mut pos: usize = 0;
        proof {
            assert(start.skip(0) =~= start);
            assert(out.deep_view() =~~= Seq::<Seq<u8>>::empty());
            assert(frames_of(start, max).frames =~= out.deep_view() + frames_of(start, max).frames);
        }
        while self.buf.len() - pos >= 2
            invariant
                self.max == max,
                self.failed == false,
                self.hist@ == oldhist + chunk@,
                self.buf@ == start,
                pos <= self.buf@.len(),
                frames_of(start, max).frames == out.deep_view() + frames_of(
                    start.skip(pos as int),
                    max,
                ).frames,
                frames_of(start, max).rest == frames_of(start.skip(pos as int), max).rest,
                frames_of(start, max).oversized == frames_of(start.skip(pos as int), max).oversized,
            decreases self.buf@.len() - pos,
        {
            let ghost rem = start.skip(pos as int);
            assert(rem.len() >= 2);
            assert(rem[0] == self.buf@[pos as int] && rem[1] == self.buf@[pos + 1]);
            let n = get_be16(self.buf.as_slice(), pos) as usize;
            if n > max as usize {
                self.failed = true;
                self.buf = Vec::new();
                return Err(FrameTooLarge);
            }
            if self.buf.len() - pos < 2 + n {
                let tail = copy_range(self.buf.as_slice(), pos, self.buf.len());
                self.buf = tail;
                proof {
                    assert(self.buf@ =~= rem);
                    assert(frames_of(rem, max).rest == rem);
                    assert(out.deep_view() =~~= frames_of(start, max).frames);
                }
                return Ok(out);
            }
            let frame = copy_range(self.buf.as_slice(), pos + 2, pos + 2 + n);
            proof {
                assert(frame@ =~= rem.subrange(2, 2 + n as int));
                assert(start.skip(pos + 2 + n) =~= rem.skip(2 + n as int));
            }
            let ghost outpre = out.deep_view();
            out.push(frame);
            pos = pos + 2 + n;
            proof {
                assert(out.deep_view() =~~= outpre + seq![frame@]);
                assert(frames_of(rem, max).frames == seq![frame@] + frames_of(
                    rem.skip(2 + n as int),
                    max,
                ).frames);
                assert(frames_of(start, max).frames =~= out.deep_view() + frames_of(
                    start.skip(pos as int),
                    max,
                ).frames);
            }
        }
        let ghost rem = start.skip(pos as int);
        assert(rem.len() < 2);
        let tail = copy_range(self.buf.as_slice(), pos, self.buf.len());
        self.buf = tail;
        proof {
            assert(self.buf@ =~= rem);
            assert(frames_of(rem, max).rest == rem);
            assert(out.deep_view() =~~= frames_of(start, max).frames);
        }
        Ok(out)
    }
}

/// Splitting a payload into pieces of at most `m` bytes, in order.
pub open spec fn chunks_of(b: Seq<u8>, m: int) -> Seq<Seq<u8>>
    decreases b.len(),
{
    if m <= 0 || b.len() == 0 {
        Seq::empty()
    } else if b.len() <= m {
        seq![b]
    } else {
        seq![b.subrange(0, m)] + chunks_of(b.skip(m), m)
    }
}

/// The concatenation of a sequence of byte sequences.
pub open spec fn concat_seqs(s: Seq<Seq<u8>>) -> Seq<u8>
    decreases s.len(),
{
    if s.len() == 0 {
        Seq::empty()
    } else {
        s[0] + concat_seqs(s.skip(1))
    }
}

/// Law: splitting loses and reorders nothing — the pieces concatenate back
/// to the payload, and each piece is nonempty and at most `m` long.
pub proof fn lemma_chunks_concat(b: Seq<u8>, m: int)
    requires
        m > 0,
    ensures
        concat_seqs(chunks_of(b, m)) == b,
        forall|i: int|
            0 <= i < chunks_of(b, m).len() ==> 0 < #[trigger] chunks_of(b, m)[i].len() <= m,
    decreases b.len(),
{
    if b.len() == 0 {
        assert(concat_seqs(chunks_of(b, m)) =~= b);
    } else if b.len() <= m {
        assert(chunks_of(b, m) == seq![b]);
        assert(chunks_of(b, m).skip(1) =~= Seq::<Seq<u8>>::empty());
        assert(concat_seqs(chunks_of(b, m)) == b + concat_seqs(chunks_of(b, m).skip(1)));
        assert(concat_seqs(Seq::<Seq<u8>>::empty()) == Seq::<u8>::empty());
        assert(concat_seqs(chunks_of(b, m)) =~= b);
    } else {
        lemma_chunks_concat(b.skip(m), m);
        assert(chunks_of(b, m).skip(1) =~= chunks_of(b.skip(m), m));
        assert(concat_seqs(chunks_of(b, m)) =~= b.subrange(0, m) + b.skip(m));
        assert(b.subrange(0, m) + b.skip(m) =~= b);
    }
}

/// Splits an outbound payload into pieces of at most `m` bytes each; an
/// empty payload yields no pieces.
#[verifier::loop_isolation(false)]
pub fn split_payload(payload: &[u8], m: usize) -> (r: Vec<Vec<u8>>)
    requires
        m > 0,
    ensures
        r.deep_view() == chunks_of(payload@, m as int),
{
    let mut out: Vec<Vec<u8>> = Vec::new();
    let mut pos: usize = 0;
    proof {
        assert(payload@.skip(0) =~= payload@);
        assert(out.deep_view() =~~= Seq::<Seq<u8>>::empty());
        assert(chunks_of(payload@, m as int) =~= out.deep_view() + chunks_of(payload@, m as int));
    }
    while pos < payload.len()
        invariant
            m > 0,
            pos <= payload@.len(),
            chunks_of(payload@, m as int) == out.deep_view() + chunks_of(
                payload@.skip(pos as int),
                m as int,
            ),
        decreases payload@.len() - pos,
    {
        let ghost rem = payload@.skip(pos as int);
        let end = if payload.len() - pos <= m {
            payload.len()
        } else {
            pos + m
        };
        let piece = copy_range(payload, pos, end);
        let ghost outpre = out.deep_view();
        proof {
            if rem.len() <= m as int {
                assert(piece@ =~= rem);
                assert(chunks_of(rem, m as int) == seq![rem]);
            } else {
                assert(piece@ =~= rem.subrange(0, m as int));
                assert(payload@.skip(end as int) =~= rem.skip(m as int));
            }
        }
        out.push(piece);
        pos = end;
        proof {
            assert(out.deep_view() =~~= outpre + seq![piece@]);
            assert(chunks_of(payload@, m as int) =~= out.deep_view() + chunks_of(
                payload@.skip(pos as int),
                m as int,
            ));
        }
    }
    proof {
        assert(payload@.skip(pos as int) =~= Seq::<u8>::empty());
        assert(out.deep_view() =~~= chunks_of(payload@, m as int));
    }
    out
}

} // verus!
