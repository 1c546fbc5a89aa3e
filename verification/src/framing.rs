//! Server-push stream framing: a header frame, then chunk frames, each a
//! four-byte big-endian length followed by that many bytes, closed by a
//! four-byte zero terminator.  A zero length never appears mid-stream.  The
//! incremental deframer below recovers exactly the framed sequence no matter
//! how the transport splits the bytes, and the bounded chunk queue models
//! the client-side backpressure buffer.
use vstd::prelude::*;

use crate::cbor::be_bytes;
use crate::cbor::be_val;
use crate::cbor::encode_be;
use crate::cbor::lemma_be_bytes_len;
use crate::cbor::lemma_be_round_trip;
use crate::cbor::lemma_pow256_8;
use crate::cbor::pow256;
use crate::cbor::read_be;

verus! {

/// Capacity of the client-side chunk queue.
pub const CHUNK_QUEUE_CAPACITY: usize = 16;

/// One frame: a four-byte big-endian length, then the payload.
pub open spec fn frame_enc(b: Seq<u8>) -> Seq<u8> {
    be_bytes(b.len(), 4) + b
}

/// The stream terminator: a zero length.
pub open spec fn terminator() -> Seq<u8> {
    be_bytes(0, 4)
}

/// The concatenated encoding of a sequence of frames.
pub open spec fn frames_enc(chunks: Seq<Seq<u8>>) -> Seq<u8>
    decreases chunks.len(),
{
    if chunks.len() == 0 {
        Seq::empty()
    } else {
        frame_enc(chunks[0]) + frames_enc(chunks.drop_first())
    }
}

/// The whole server-push stream: the header frame, the chunk frames, the
/// terminator.
pub open spec fn stream_enc(header: Seq<u8>, chunks: Seq<Seq<u8>>) -> Seq<u8> {
    frame_enc(header) + frames_enc(chunks) + terminator()
}

/// True when a frame payload is legal mid-stream: non-empty (zero is the
/// terminator) and within the four-byte length header.
pub open spec fn frame_ok(b: Seq<u8>) -> bool {
    0 < b.len() < pow256(4)
}

/// Greedy parse of a byte sequence into complete frames: the frames found,
/// the unconsumed suffix, and whether the terminator was reached.
pub open spec fn deframe(s: Seq<u8>) -> (Seq<Seq<u8>>, Seq<u8>, bool)
    decreases s.len(),
{
    if s.len() < 4 {
        (Seq::empty(), s, false)
    } else {
        let n = be_val(s.subrange(0, 4)) as int;
        if n == 0 {
            (Seq::empty(), s, true)
        } else if s.len() >= 4 + n {
            let rec = deframe(s.subrange(4 + n, s.len() as int));
            (seq![s.subrange(4, 4 + n)] + rec.0, rec.1, rec.2)
        } else {
            (Seq::empty(), s, false)
        }
    }
}

/// Feeding more bytes continues the parse exactly where it stopped: frames
/// already found stay found, and the unconsumed suffix plus the new bytes
/// parse as the continuation.  After the terminator nothing more is parsed.
pub proof fn lemma_deframe_append(s: Seq<u8>, t: Seq<u8>)
    ensures
        ({
            let first = deframe(s);
            let whole = deframe(s + t);
            if first.2 {
                whole == (first.0, first.1 + t, true)
            } else {
                let cont = deframe(first.1 + t);
                whole == (first.0 + cont.0, cont.1, cont.2)
            }
        }),
    decreases s.len(),
{
    let first = deframe(s);
    let whole = deframe(s + t);
    if s.len() < 4 {
        assert(first.1 + t =~= s + t);
        let cont = deframe(s + t);
        assert(first.0 + cont.0 =~= cont.0);
    } else {
        assert((s + t).subrange(0, 4) =~= s.subrange(0, 4));
        let n = be_val(s.subrange(0, 4)) as int;
        if n == 0 {
            assert(first.1 + t =~= s + t);
        } else if s.len() >= 4 + n {
            assert((s + t).len() >= 4 + n);
            assert((s + t).subrange(4, 4 + n) =~= s.subrange(4, 4 + n));
            let s2 = s.subrange(4 + n, s.len() as int);
            assert((s + t).subrange(4 + n, (s + t).len() as int) =~= s2 + t);
            lemma_deframe_append(s2, t);
            let rec = deframe(s2);
            if rec.2 {
                assert(whole.0 =~= first.0);
            } else {
                let cont = deframe(rec.1 + t);
                assert(seq![s.subrange(4, 4 + n)] + (rec.0 + cont.0) =~= (seq![
                    s.subrange(4, 4 + n),
                ] + rec.0) + cont.0);
            }
        } else {
            // a partial frame: nothing was consumed, so parsing s + t from
            // scratch is parsing the leftover plus the new bytes
            assert(first.1 + t =~= s + t);
            let cont = deframe(s + t);
            assert(first.0 + cont.0 =~= cont.0);
        }
    }
}

/// A terminator alone parses as a clean close.
proof fn lemma_deframe_terminator()
    ensures
        deframe(terminator()) == (Seq::<Seq<u8>>::empty(), terminator(), true),
{
    lemma_pow256_8();
    lemma_be_bytes_len(0, 4);
    lemma_be_round_trip(0, 4);
    assert(terminator().subrange(0, 4) =~= terminator());
}

/// The frame sequence of a stream parses back to exactly the header and the
/// chunks, with a clean close.
proof fn lemma_deframe_frames(chunks: Seq<Seq<u8>>)
    requires
        forall|i: int| 0 <= i < chunks.len() ==> frame_ok(#[trigger] chunks[i]),
    ensures
        deframe(frames_enc(chunks) + terminator()) == (chunks, terminator(), true),
    decreases chunks.len(),
{
    lemma_pow256_8();
    if chunks.len() == 0 {
        assert(frames_enc(chunks) + terminator() =~= terminator());
        lemma_deframe_terminator();
        assert(Seq::<Seq<u8>>::empty() =~= chunks);
    } else {
        let c0 = chunks[0];
        let rest = chunks.drop_first();
        let s = frames_enc(chunks) + terminator();
        assert(s =~= frame_enc(c0) + (frames_enc(rest) + terminator()));
        lemma_be_bytes_len(c0.len(), 4);
        lemma_be_round_trip(c0.len(), 4);
        assert(s.subrange(0, 4) =~= be_bytes(c0.len(), 4));
        let n = c0.len() as int;
        assert(s.subrange(4, 4 + n) =~= c0);
        assert(s.subrange(4 + n, s.len() as int) =~= frames_enc(rest) + terminator());
        lemma_deframe_frames(rest);
        assert(seq![c0] + rest =~= chunks);
    }
}

/// Stream framing round trip: the byte stream produced for a header and a
/// chunk sequence parses back to exactly that header followed by those
/// chunks and a clean close — and, through `Deframer`, this holds no matter
/// how the transport splits the bytes.
pub proof fn lemma_stream_round_trip(header: Seq<u8>, chunks: Seq<Seq<u8>>)
    requires
        frame_ok(header),
        forall|i: int| 0 <= i < chunks.len() ==> frame_ok(#[trigger] chunks[i]),
    ensures
        deframe(stream_enc(header, chunks)) == (seq![header] + chunks, terminator(), true),
{
    lemma_pow256_8();
    let s = stream_enc(header, chunks);
    assert(s =~= frame_enc(header) + (frames_enc(chunks) + terminator()));
    lemma_be_bytes_len(header.len(), 4);
    lemma_be_round_trip(header.len(), 4);
    assert(s.subrange(0, 4) =~= be_bytes(header.len(), 4));
    let n = header.len() as int;
    assert(s.subrange(4, 4 + n) =~= header);
    assert(s.subrange(4 + n, s.len() as int) =~= frames_enc(chunks) + terminator());
    lemma_deframe_frames(chunks);
}

/// Append a frame (length prefix, then payload) to `out`.
pub fn push_frame(out: &mut Vec<u8>, payload: &Vec<u8>)
    requires
        payload@.len() < pow256(4),
    ensures
        final(out)@ == old(out)@ + frame_enc(payload@),
{
    proof {
        lemma_pow256_8();
    }
    let mut prefix = encode_be(payload.len() as u64, 4);
    out.append(&mut prefix);
    out.extend_from_slice(payload.as_slice());
    proof {
        assert(out@ =~= old(out)@ + frame_enc(payload@));
    }
}

/// Append the stream terminator to `out`.
pub fn push_terminator(out: &mut Vec<u8>)
    ensures
        final(out)@ == old(out)@ + terminator(),
{
    proof {
        lemma_pow256_8();
    }
    let mut prefix = encode_be(0, 4);
    out.append(&mut prefix);
}

/// The byte-sequence views of a list of byte buffers.
pub open spec fn bufs_view(l: Seq<Vec<u8>>) -> Seq<Seq<u8>> {
    l.map_values(|v: Vec<u8>| v@)
}

/// Incremental parser of the receive side of a server-push stream.  Bytes
/// are fed in whatever pieces the transport delivers; complete frames come
/// out as soon as their last byte arrives.
pub struct Deframer {
    buf: Vec<u8>,
    done: bool,
    fed: Ghost<Seq<u8>>,
    delivered: Ghost<Seq<Seq<u8>>>,
}

impl Deframer {
    /// All bytes ever fed.
    pub closed spec fn fed_bytes(self) -> Seq<u8> {
        self.fed@
    }

    /// All frames delivered so far.
    pub closed spec fn frames(self) -> Seq<Seq<u8>> {
        self.delivered@
    }

    /// True once the terminator has been seen.
    pub closed spec fn is_done(self) -> bool {
        self.done
    }

    /// The deframer state is exactly the greedy parse of the fed bytes.
    pub closed spec fn wf(self) -> bool {
        deframe(self.fed@) == (self.delivered@, self.buf@, self.done)
    }

    pub fn new() -> (r: Deframer)
        ensures
            r.wf(),
            r.fed_bytes() == Seq::<u8>::empty(),
            r.frames() == Seq::<Seq<u8>>::empty(),
            !r.is_done(),
    {
        Deframer {
            buf: Vec::new(),
            done: false,
            fed: Ghost(Seq::empty()),
            delivered: Ghost(Seq::empty()),
        }
    }

    /// Whether the stream has closed cleanly.
    pub fn finished(&self) -> (r: bool)
        ensures
            r == self.is_done(),
    {
        self.done
    }

    /// Feed the next piece of bytes; returns the frames completed by it, in
    /// order.
    pub fn feed(&mut self, chunk: &Vec<u8>) -> (out: Vec<Vec<u8>>)
        requires
            old(self).wf(),
        ensures
            final(self).wf(),
            final(self).fed_bytes() == old(self).fed_bytes() + chunk@,
            final(self).frames() == old(self).frames() + bufs_view(out@),
            deframe(final(self).fed_bytes()).0 == final(self).frames(),
            deframe(final(self).fed_bytes()).2 == final(self).is_done(),
            old(self).is_done() ==> out@.len() == 0 && final(self).is_done(),
    {
        proof {
            lemma_deframe_append(self.fed@, chunk@);
        }
        self.fed = Ghost(self.fed@ + chunk@);
        let ghost oldbuf = self.buf@;
        self.buf.extend_from_slice(chunk.as_slice());
        proof {
            assert(self.buf@ =~= oldbuf + chunk@);
        }
        let mut out: Vec<Vec<u8>> = Vec::new();
        proof {
            assert(bufs_view(out@) =~= Seq::<Seq<u8>>::empty());
            assert(self.delivered@ + bufs_view(out@) =~= self.delivered@);
        }
        if self.done {
            return out;
        }
        proof {
            assert((self.delivered@ + bufs_view(out@)) + deframe(self.buf@).0 =~= self.delivered@
                + deframe(self.buf@).0);
        }
        loop
            invariant_except_break
                deframe(self.fed@).0 == (self.delivered@ + bufs_view(out@)) + deframe(
                    self.buf@,
                ).0,
                deframe(self.fed@).1 == deframe(self.buf@).1,
                deframe(self.fed@).2 == deframe(self.buf@).2,
                self.fed@ == old(self).fed@ + chunk@,
                self.delivered@ == old(self).delivered@,
                !self.done,
            ensures
                deframe(self.fed@).0 == (self.delivered@ + bufs_view(out@)) + deframe(
                    self.buf@,
                ).0,
                deframe(self.fed@).1 == deframe(self.buf@).1,
                deframe(self.fed@).2 == deframe(self.buf@).2,
                self.fed@ == old(self).fed@ + chunk@,
                self.delivered@ == old(self).delivered@,
                !self.done,
                deframe(self.buf@).0 == Seq::<Seq<u8>>::empty(),
                deframe(self.buf@).1 == self.buf@,
                deframe(self.buf@).2 == (self.buf@.len() >= 4 && be_val(
                    self.buf@.subrange(0, 4),
                ) == 0),
            decreases self.buf@.len(),
        {
            if self.buf.len() < 4 {
                break;
            }
            let n64 = read_be(&self.buf, 0, 4);
            if n64 == 0 {
                break;
            }
            let blen = self.buf.len();
            let avail = (blen - 4) as u64;
            if avail < n64 {
                break;
            }
            let n = n64 as usize;
            let frame = vstd::slice::slice_to_vec(
                vstd::slice::slice_subrange(self.buf.as_slice(), 4, 4 + n),
            );
            let tail = vstd::slice::slice_to_vec(
                vstd::slice::slice_subrange(self.buf.as_slice(), 4 + n, blen),
            );
            proof {
                let b = self.buf@;
                assert(deframe(b).0 == seq![b.subrange(4, 4 + n as int)] + deframe(
                    b.subrange(4 + n as int, b.len() as int),
                ).0);
                let old_acc = self.delivered@ + bufs_view(out@);
                assert(bufs_view(out@.push(frame)) =~= bufs_view(out@).push(frame@));
                assert(self.delivered@ + bufs_view(out@.push(frame)) =~= old_acc.push(frame@));
                assert((old_acc + (seq![frame@] + deframe(tail@).0)) =~= (old_acc.push(frame@)
                    + deframe(tail@).0));
            }
            out.push(frame);
            self.buf = tail;
        }
        if self.buf.len() >= 4 {
            let n64 = read_be(&self.buf, 0, 4);
            if n64 == 0 {
                self.done = true;
            }
        }
        proof {
            self.delivered = Ghost(self.delivered@ + bufs_view(out@));
            assert((self.delivered@) + Seq::<Seq<u8>>::empty() =~= self.delivered@);
        }
        out
    }
}

/// The bounded buffer between the stream reader and the consumer on the
/// client side.  It never holds more than its capacity; a push on a full
/// queue fails and hands the chunk back, which is what makes the reader
/// stop and exert backpressure on the sender.
pub struct ChunkQueue {
    items: Vec<Vec<u8>>,
}

impl ChunkQueue {
    pub closed spec fn view_items(self) -> Seq<Seq<u8>> {
        bufs_view(self.items@)
    }

    /// The queue never exceeds its capacity.
    pub closed spec fn wf(self) -> bool {
        self.items@.len() <= CHUNK_QUEUE_CAPACITY
    }

    pub fn new() -> (r: ChunkQueue)
        ensures
            r.wf(),
            r.view_items() == Seq::<Seq<u8>>::empty(),
    {
        ChunkQueue { items: Vec::new() }
    }

    pub fn len(&self) -> (r: usize)
        ensures
            r == self.view_items().len(),
    {
        self.items.len()
    }

    /// Push a chunk unless the queue is full; a full queue returns the
    /// chunk unchanged and keeps its contents.
    pub fn try_push(&mut self, chunk: Vec<u8>) -> (r: Option<Vec<u8>>)
        requires
            old(self).wf(),
        ensures
            final(self).wf(),
            old(self).view_items().len() < CHUNK_QUEUE_CAPACITY ==> r is None && final(self).view_items() == old(self).view_items().push(chunk@),
            old(self).view_items().len() >= CHUNK_QUEUE_CAPACITY ==> r == Some(chunk) && final(self).view_items() == old(self).view_items(),
    {
        if self.items.len() < CHUNK_QUEUE_CAPACITY {
            let ghost before = self.items@;
            self.items.push(chunk);
            proof {
                assert(bufs_view(self.items@) =~= bufs_view(before).push(self.items@.last()@));
            }
            None
        } else {
            Some(chunk)
        }
    }

    /// Take the oldest chunk, if any.
    pub fn pop_front(&mut self) -> (r: Option<Vec<u8>>)
        requires
            old(self).wf(),
        ensures
            final(self).wf(),
            old(self).view_items().len() == 0 ==> r is None && final(self).view_items() == old(self).view_items(),
            old(self).view_items().len() > 0 ==> (r matches Some(c) && c@ == old(self).view_items()[0] && final(self).view_items() == old(self).view_items().drop_first()),
    {
        if self.items.len() == 0 {
            None
        } else {
            let ghost before = self.items@;
            let c = self.items.remove(0);
            proof {
                assert(bufs_view(self.items@) =~= bufs_view(before).drop_first());
            }
            Some(c)
        }
    }
}

} // verus!
