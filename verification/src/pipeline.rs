//! The per-direction frame pipelines: opening a run of received frames
//! into the byte stream they carry, and sealing an outbound payload into
//! wire frames. These connect the Frame Assembler to the Stream Cipher
//! Layer and carry the relay-fidelity laws.

use vstd::prelude::*;

use crate::assembler::chunks_of;
use crate::assembler::concat_seqs;
use crate::assembler::frames_of;
use crate::assembler::FrameDecode;
use crate::cipher::open_spec;
use crate::cipher::overhead;
use crate::cipher::seal_spec;
use crate::cipher::DirectionCipher;
use crate::cipher::MAX_SEAL_INPUT;
use crate::errors::FrameIntegrityError;
use crate::header::SecurityMode;
use crate::primitives::be16_bytes;
use crate::primitives::extend_bytes;
use crate::primitives::push_be16;
use crate::primitives::read16;

verus! {

/// A ciphertext framed for the wire: 2-byte big-endian length prefix,
/// then the ciphertext.
pub open spec fn wire_frame(ct: Seq<u8>) -> Seq<u8> {
    be16_bytes(ct.len() as u16) + ct
}

/// What a run of received ciphertext frames opens to, starting at frame
/// index `count`: the concatenated plaintext stream, or nothing as soon as
/// one frame fails its integrity check.
pub open spec fn opened_concat(
    mode: SecurityMode,
    key: Seq<u8>,
    iv: Seq<u8>,
    count: int,
    cts: Seq<Seq<u8>>,
) -> Option<Seq<u8>>
    decreases cts.len(),
{
    if cts.len() == 0 {
        Some(Seq::empty())
    } else {
        match open_spec(mode, key, iv, count as u64, cts[0]) {
            None => None,
            Some(p) => match opened_concat(mode, key, iv, count + 1, cts.skip(1)) {
                None => None,
                Some(rest) => Some(p + rest),
            },
        }
    }
}

/// Opening one more frame at the end of a run extends the stream exactly
/// when every frame before it opened.
pub proof fn lemma_opened_concat_snoc(
    mode: SecurityMode,
    key: Seq<u8>,
    iv: Seq<u8>,
    count: int,
    cts: Seq<Seq<u8>>,
    ct: Seq<u8>,
)
    ensures
        opened_concat(mode, key, iv, count, cts.push(ct)) == (match opened_concat(
            mode,
            key,
            iv,
            count,
            cts,
        ) {
            None => None::<Seq<u8>>,
            Some(acc) => match open_spec(mode, key, iv, (count + cts.len()) as u64, ct) {
                None => None::<Seq<u8>>,
                Some(p) => Some(acc + p),
            },
        }),
    decreases cts.len(),
{
    if cts.len() == 0 {
        assert(cts.push(ct)[0] == ct);
        assert(cts.push(ct).skip(1) =~= Seq::<Seq<u8>>::empty());
        match open_spec(mode, key, iv, count as u64, ct) {
            None => {},
            Some(p) => {
                assert(opened_concat(mode, key, iv, count + 1, Seq::<Seq<u8>>::empty()) == Some(
                    Seq::<u8>::empty(),
                ));
                assert(opened_concat(mode, key, iv, count, cts.push(ct)) == Some(
                    p + Seq::<u8>::empty(),
                ));
                assert(p + Seq::<u8>::empty() =~= p);
                assert(Seq::<u8>::empty() + p =~= p);
            },
        }
    } else {
        assert(cts.push(ct)[0] == cts[0]);
        assert(cts.push(ct).skip(1) =~= cts.skip(1).push(ct));
        lemma_opened_concat_snoc(mode, key, iv, count + 1, cts.skip(1), ct);
        match open_spec(mode, key, iv, count as u64, cts[0]) {
            None => {},
            Some(p0) => {
                match opened_concat(mode, key, iv, count + 1, cts.skip(1)) {
                    None => {},
                    Some(acc1) => {
                        match open_spec(mode, key, iv, (count + cts.len()) as u64, ct) {
                            None => {},
                            Some(p) => {
                                assert(p0 + (acc1 + p) =~= (p0 + acc1) + p);
                            },
                        }
                    },
                }
            },
        }
    }
}

/// Opens a run of received frames in arrival order, advancing the frame
/// counter once per frame. Terminates the run at the first integrity
/// failure, forwarding nothing from it.
#[verifier::loop_isolation(false)]
pub fn open_frames(c: &mut DirectionCipher, frames: &Vec<Vec<u8>>) -> (r: Result<
    Vec<u8>,
    FrameIntegrityError,
>)
    requires
        old(c).wf(),
        old(c).count + frames@.len() < 0xffff_ffff_ffff_ffff,
    ensures
        final(c).wf(),
        final(c).mode == old(c).mode,
        final(c).key == old(c).key,
        final(c).iv == old(c).iv,
        match r {
            Ok(p) => {
                &&& opened_concat(
                    old(c).mode,
                    old(c).key@,
                    old(c).iv@,
                    old(c).count as int,
                    frames.deep_view(),
                ) == Some(p@)
                &&& final(c).count == old(c).count + frames@.len()
            },
            Err(_) => opened_concat(
                old(c).mode,
                old(c).key@,
                old(c).iv@,
                old(c).count as int,
                frames.deep_view(),
            ) is None,
        },
{
    let ghost count0 = c.count as int;
    let ghost dv = frames.deep_view();
    let mut acc: Vec<u8> = Vec::new();
    let mut i: usize = 0;
    proof {
        assert(dv.take(0) =~= Seq::<Seq<u8>>::empty());
        assert(acc@ =~= Seq::<u8>::empty());
    }
    while i < frames.len()
        invariant
            i <= frames@.len(),
            c.wf(),
            c.mode == old(c).mode,
            c.key == old(c).key,
            c.iv == old(c).iv,
            c.count == count0 + i,
            opened_concat(c.mode, c.key@, c.iv@, count0, dv.take(i as int)) == Some(acc@),
        decreases frames@.len() - i,
    {
        let ghost accpre = acc@;
        let frame: &Vec<u8> = &frames[i];
        proof {
            assert(frame.deep_view() =~= frame@);
            assert(dv[i as int] == frame@);
        }
        match c.open(frame.as_slice()) {
            Ok(p) => {
                extend_bytes(&mut acc, p.as_slice());
                proof {
                    lemma_opened_concat_snoc(c.mode, c.key@, c.iv@, count0, dv.take(i as int), dv[i as int]);
                    assert(dv.take(i + 1) =~= dv.take(i as int).push(dv[i as int]));
                    assert(acc@ =~= accpre + p@);
                }
                i = i + 1;
            },
            Err(e) => {
                proof {
                    lemma_opened_concat_snoc(c.mode, c.key@, c.iv@, count0, dv.take(i as int), dv[i as int]);
                    assert(dv.take(i + 1) =~= dv.take(i as int).push(dv[i as int]));
                    assert(opened_concat(c.mode, c.key@, c.iv@, count0, dv.take(i + 1)) is None);
                    lemma_opened_concat_prefix_none(c.mode, c.key@, c.iv@, count0, dv, i + 1);
                }
                return Err(e);
            },
        }
    }
    proof {
        assert(dv.take(i as int) =~= dv);
    }
    Ok(acc)
}

/// Once a prefix of the run fails to open, the whole run fails to open.
pub proof fn lemma_opened_concat_prefix_none(
    mode: SecurityMode,
    key: Seq<u8>,
    iv: Seq<u8>,
    count: int,
    cts: Seq<Seq<u8>>,
    j: int,
)
    requires
        0 <= j <= cts.len(),
        opened_concat(mode, key, iv, count, cts.take(j)) is None,
    ensures
        opened_concat(mode, key, iv, count, cts) is None,
    decreases j,
{
    if j == 0 {
        assert(cts.take(0) =~= Seq::<Seq<u8>>::empty());
        assert(false);
    } else {
        assert(cts.take(j)[0] == cts[0]);
        if cts.len() > 0 {
            match open_spec(mode, key, iv, count as u64, cts[0]) {
                None => {},
                Some(p) => {
                    assert(cts.take(j).skip(1) =~= cts.skip(1).take(j - 1));
                    lemma_opened_concat_prefix_none(mode, key, iv, count + 1, cts.skip(1), j - 1);
                },
            }
        }
    }
}

/// Frames a ciphertext for the wire.
pub fn frame_for_wire(ct: &[u8]) -> (r: Vec<u8>)
    requires
        ct@.len() <= 65535,
    ensures
        r@ == wire_frame(ct@),
{
    let mut out: Vec<u8> = Vec::new();
    push_be16(&mut out, ct.len() as u16);
    extend_bytes(&mut out, ct);
    assert(out@ =~= wire_frame(ct@));
    out
}

/// The ciphertexts an outbound payload seals to: one per piece, frame
/// counter advancing per piece.
pub open spec fn sealed_cts(
    mode: SecurityMode,
    key: Seq<u8>,
    iv: Seq<u8>,
    count: int,
    pieces: Seq<Seq<u8>>,
) -> Seq<Seq<u8>> {
    Seq::new(pieces.len(), |i: int| seal_spec(mode, key, iv, (count + i) as u64, pieces[i]))
}

/// Nonempty pieces concatenate to at least one byte each.
pub proof fn lemma_concat_min_len(pieces: Seq<Seq<u8>>)
    requires
        forall|i: int| 0 <= i < pieces.len() ==> #[trigger] pieces[i].len() >= 1,
    ensures
        concat_seqs(pieces).len() >= pieces.len(),
    decreases pieces.len(),
{
    if pieces.len() == 0 {
    } else {
        assert(forall|i: int|
            0 <= i < pieces.skip(1).len() ==> #[trigger] pieces.skip(1)[i].len() >= 1);
        lemma_concat_min_len(pieces.skip(1));
    }
}

/// Seals an outbound payload as in-order wire frames: the payload is split
/// into pieces of at most `maxp` bytes, each piece sealed at the next
/// frame index and length-prefixed. The sealed run opens back to exactly
/// the payload under the same key, IV and starting index.
#[verifier::rlimit(60)]
#[verifier::loop_isolation(false)]
pub fn seal_payload(c: &mut DirectionCipher, payload: &[u8], maxp: usize) -> (r: Vec<Vec<u8>>)
    requires
        old(c).wf(),
        0 < maxp <= MAX_SEAL_INPUT,
        maxp + overhead(old(c).mode) <= 65535,
        old(c).count + payload@.len() < 0xffff_ffff_ffff_fffe,
    ensures
        final(c).wf(),
        final(c).mode == old(c).mode,
        final(c).key == old(c).key,
        final(c).iv == old(c).iv,
        final(c).count == old(c).count + chunks_of(payload@, maxp as int).len(),
        r.deep_view().len() == chunks_of(payload@, maxp as int).len(),
        (forall|i: int|
            0 <= i < chunks_of(payload@, maxp as int).len() ==> #[trigger] r.deep_view()[i]
                == wire_frame(
                sealed_cts(
                    old(c).mode,
                    old(c).key@,
                    old(c).iv@,
                    old(c).count as int,
                    chunks_of(payload@, maxp as int),
                )[i],
            )),
        opened_concat(
            old(c).mode,
            old(c).key@,
            old(c).iv@,
            old(c).count as int,
            sealed_cts(
                old(c).mode,
                old(c).key@,
                old(c).iv@,
                old(c).count as int,
                chunks_of(payload@, maxp as int),
            ),
        ) == Some(payload@),
{
    let ghost count0 = c.count as int;
    let ghost pieces = chunks_of(payload@, maxp as int);
    proof {
        crate::assembler::lemma_chunks_concat(payload@, maxp as int);
        lemma_concat_min_len(pieces);
        assert(pieces.len() <= payload@.len());
    }
    let plen: usize = payload.len();
    let chunks = crate::assembler::split_payload(payload, maxp);
    let mut out: Vec<Vec<u8>> = Vec::new();
    let mut i: usize = 0;
    let mut done: usize = 0;
    let ghost mut ctsg: Seq<Seq<u8>> = Seq::empty();
    proof {
        assert(out.deep_view() =~~= Seq::<Seq<u8>>::empty());
        assert(payload@.subrange(0, 0) =~= Seq::<u8>::empty());
        assert(pieces.take(0) =~= Seq::<Seq<u8>>::empty());
    }
    while i < chunks.len()
        invariant
            i <= chunks@.len(),
            chunks.deep_view() == pieces,
            c.wf(),
            c.mode == old(c).mode,
            c.key == old(c).key,
            c.iv == old(c).iv,
            c.count == count0 + i,
            count0 + pieces.len() < 0xffff_ffff_ffff_ffff,
            done <= payload@.len(),
            ctsg.len() == i,
            forall|j: int|
                0 <= j < i ==> #[trigger] ctsg[j] == seal_spec(
                    c.mode,
                    c.key@,
                    c.iv@,
                    (count0 + j) as u64,
                    pieces[j],
                ),
            out.deep_view().len() == i,
            forall|j: int| 0 <= j < i ==> #[trigger] out.deep_view()[j] == wire_frame(ctsg[j]),
            opened_concat(c.mode, c.key@, c.iv@, count0, ctsg) == Some(
                payload@.subrange(0, done as int),
            ),
            concat_seqs(pieces.take(i as int)) == payload@.subrange(0, done as int),
        decreases chunks@.len() - i,
    {
        let piece: &Vec<u8> = &chunks[i];
        proof {
            assert(piece.deep_view() =~= piece@);
            assert(pieces[i as int] == piece@);
            assert(0 < pieces[i as int].len() <= maxp as int);
        }
        let ghost donepre = done as int;
        let ct = c.seal(piece.as_slice());
        let wf_frame = frame_for_wire(ct.as_slice());
        let ghost outpre = out.deep_view();
        out.push(wf_frame);
        proof {
            lemma_concat_take_snoc(pieces, i as int);
            lemma_concat_take_prefix(pieces, payload@, i + 1);
            assert(donepre + piece@.len() <= payload@.len());
        }
        done = done + piece.len();
        proof {
            assert(out.deep_view() =~~= outpre.push(wf_frame@));
            lemma_opened_concat_snoc(c.mode, c.key@, c.iv@, count0, ctsg, ct@);
            assert(payload@.subrange(0, donepre) + piece@ =~= payload@.subrange(0, done as int));
            ctsg = ctsg.push(ct@);
        }
        i = i + 1;
    }
    proof {
        assert(pieces.take(i as int) =~= pieces);
        assert(payload@.subrange(0, done as int) =~= payload@);
        assert(ctsg =~= sealed_cts(old(c).mode, old(c).key@, old(c).iv@, count0, pieces));
    }
    out
}

/// Taking one more piece appends that piece to the concatenation.
pub proof fn lemma_concat_take_snoc(pieces: Seq<Seq<u8>>, i: int)
    requires
        0 <= i < pieces.len(),
    ensures
        concat_seqs(pieces.take(i + 1)) == concat_seqs(pieces.take(i)) + pieces[i],
    decreases i,
{
    if i == 0 {
        assert(pieces.take(1)[0] == pieces[0]);
        assert(pieces.take(1).skip(1) =~= Seq::<Seq<u8>>::empty());
        assert(pieces.take(0) =~= Seq::<Seq<u8>>::empty());
        assert(concat_seqs(pieces.take(1)) == pieces[0] + concat_seqs(Seq::<Seq<u8>>::empty()));
        assert(pieces[0] + Seq::<u8>::empty() =~= pieces[0]);
        assert(Seq::<u8>::empty() + pieces[0] =~= pieces[0]);
    } else {
        assert(pieces.take(i + 1)[0] == pieces[0]);
        assert(pieces.take(i)[0] == pieces[0]);
        assert(pieces.take(i + 1).skip(1) =~= pieces.skip(1).take(i));
        assert(pieces.take(i).skip(1) =~= pieces.skip(1).take(i - 1));
        assert(pieces.skip(1)[i - 1] == pieces[i]);
        lemma_concat_take_snoc(pieces.skip(1), i - 1);
        assert(pieces[0] + (concat_seqs(pieces.skip(1).take(i - 1)) + pieces[i]) =~= (pieces[0]
            + concat_seqs(pieces.skip(1).take(i - 1))) + pieces[i]);
    }
}

/// The concatenation of the first `i` pieces is a prefix of the whole.
pub proof fn lemma_concat_take_prefix(pieces: Seq<Seq<u8>>, whole: Seq<u8>, i: int)
    requires
        0 <= i <= pieces.len(),
        concat_seqs(pieces) == whole,
    ensures
        concat_seqs(pieces.take(i)).len() <= whole.len(),
        concat_seqs(pieces.take(i)) == whole.subrange(
            0,
            concat_seqs(pieces.take(i)).len() as int,
        ),
    decreases i,
{
    if i == 0 {
        assert(pieces.take(0) =~= Seq::<Seq<u8>>::empty());
        assert(whole.subrange(0, 0) =~= Seq::<u8>::empty());
    } else {
        lemma_concat_take_prefix(pieces, whole, i - 1);
        lemma_concat_take_snoc(pieces, i - 1);
        lemma_concat_suffix(pieces, i - 1);
        let pre = concat_seqs(pieces.take(i - 1));
        assert(concat_seqs(pieces.take(i)) == pre + pieces[i - 1]);
        assert(pre + pieces[i - 1] =~= whole.subrange(0, pre.len() + pieces[i - 1].len() as int));
    }
}

/// The whole concatenation is the first `i` pieces followed by the rest.
pub proof fn lemma_concat_suffix(pieces: Seq<Seq<u8>>, i: int)
    requires
        0 <= i <= pieces.len(),
    ensures
        concat_seqs(pieces) == concat_seqs(pieces.take(i)) + concat_seqs(pieces.skip(i)),
    decreases i,
{
    if i == 0 {
        assert(pieces.take(0) =~= Seq::<Seq<u8>>::empty());
        assert(pieces.skip(0) =~= pieces);
        assert(concat_seqs(pieces) =~= Seq::<u8>::empty() + concat_seqs(pieces));
    } else {
        assert(pieces.take(i)[0] == pieces[0]);
        assert(pieces.take(i).skip(1) =~= pieces.skip(1).take(i - 1));
        assert(pieces.skip(i) =~= pieces.skip(1).skip(i - 1));
        lemma_concat_suffix(pieces.skip(1), i - 1);
        assert(concat_seqs(pieces) == pieces[0] + concat_seqs(pieces.skip(1)));
        assert(pieces[0] + (concat_seqs(pieces.skip(1).take(i - 1)) + concat_seqs(
            pieces.skip(1).skip(i - 1),
        )) =~= (pieces[0] + concat_seqs(pieces.skip(1).take(i - 1))) + concat_seqs(
            pieces.skip(1).skip(i - 1),
        ));
    }
}

/// Law (wire round trip): the wire frames of a run of ciphertexts, sent as
/// one byte stream, decode back to exactly those ciphertexts with nothing
/// left over, as long as each fits the frame-size bound.
#[verifier::rlimit(60)]
pub proof fn lemma_wire_frames_decode(cts: Seq<Seq<u8>>, max: u16)
    requires
        forall|i: int| 0 <= i < cts.len() ==> #[trigger] cts[i].len() <= max,
    ensures
        frames_of(concat_seqs(Seq::new(cts.len(), |i: int| wire_frame(cts[i]))), max)
            == (FrameDecode { frames: cts, rest: Seq::<u8>::empty(), oversized: false }),
    decreases cts.len(),
{
    let ws = Seq::new(cts.len(), |i: int| wire_frame(cts[i]));
    if cts.len() == 0 {
        assert(concat_seqs(ws) == Seq::<u8>::empty());
        assert(frames_of(Seq::<u8>::empty(), max) == (FrameDecode {
            frames: Seq::<Seq<u8>>::empty(),
            rest: Seq::<u8>::empty(),
            oversized: false,
        }));
        assert(cts =~= Seq::<Seq<u8>>::empty());
    } else {
        let ct = cts[0];
        assert(cts[0].len() <= max);
        let n = ct.len() as u16;
        assert(n as int == ct.len());
        let b = concat_seqs(ws);
        assert(ws[0] == wire_frame(ct));
        assert(b == wire_frame(ct) + concat_seqs(ws.skip(1)));
        crate::primitives::lemma_read16_be16(n);
        assert(wire_frame(ct).len() == 2 + ct.len());
        assert(b.len() >= 2);
        assert(b[0] == be16_bytes(n)[0] && b[1] == be16_bytes(n)[1]);
        assert(read16(b[0], b[1]) == n);
        assert(b.len() >= 2 + n);
        assert(b.subrange(2, 2 + n as int) =~= ct);
        assert(b.skip(2 + n as int) =~= concat_seqs(ws.skip(1)));
        assert(ws.skip(1) =~= Seq::new(cts.skip(1).len(), |i: int| wire_frame(cts.skip(1)[i])));
        lemma_wire_frames_decode(cts.skip(1), max);
        assert(seq![ct] + cts.skip(1) =~= cts);
    }
}

} // verus!
