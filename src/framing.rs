//! Splitting a TCP byte stream into length-prefixed frames.
//!
//! Each frame is a big-endian `u32` payload length followed by that many
//! payload bytes. Bytes arrive in chunks of any size; what is left of an
//! incomplete frame waits for the next chunk. A length over the limit is a
//! protocol violation that stops the reader for good.

use vstd::prelude::*;
use crate::bigendian::{be_u32, read_be_u32};
use crate::packet::push_bytes;

verus! {

/// The frames at the front of `s`, the bytes after the last of them, and
/// whether a length over `limit` stands there.
pub open spec fn split_frames(s: Seq<u8>, limit: nat) -> (Seq<Seq<u8>>, Seq<u8>, bool)
    decreases s.len(),
{
    if s.len() < 4 {
        (Seq::empty(), s, false)
    } else if be_u32(s) > limit {
        (Seq::empty(), s, true)
    } else if s.len() < 4 + be_u32(s) {
        (Seq::empty(), s, false)
    } else {
        let n = be_u32(s);
        let rest = split_frames(s.skip(4 + n), limit);
        (seq![s.subrange(4, 4 + n)] + rest.0, rest.1, rest.2)
    }
}

/// What a reader holding `pending` (stopped if `failed`) does with `chunk`:
/// the frames it hands out, the bytes it keeps, and whether it is stopped.
pub open spec fn feed(pending: Seq<u8>, failed: bool, chunk: Seq<u8>, limit: nat) -> (
    Seq<Seq<u8>>,
    Seq<u8>,
    bool,
) {
    if failed {
        (Seq::empty(), pending, true)
    } else {
        split_frames(pending + chunk, limit)
    }
}

/// Feeding the chunks one after the other: all frames handed out, and the
/// final state.
pub open spec fn feed_all(pending: Seq<u8>, failed: bool, chunks: Seq<Seq<u8>>, limit: nat) -> (
    Seq<Seq<u8>>,
    Seq<u8>,
    bool,
)
    decreases chunks.len(),
{
    if chunks.len() == 0 {
        (Seq::empty(), pending, failed)
    } else {
        let first = feed(pending, failed, chunks[0], limit);
        let rest = feed_all(first.1, first.2, chunks.drop_first(), limit);
        (first.0 + rest.0, rest.1, rest.2)
    }
}

/// Splitting a stream in two changes nothing: the frames of `p + c` are
/// those of `p` followed by those of what `p` left over with `c`.
pub proof fn lemma_split_frames_append(p: Seq<u8>, c: Seq<u8>, limit: nat)
    ensures
        ({
            let a = split_frames(p, limit);
            let b = split_frames(a.1 + c, limit);
            if a.2 {
                split_frames(p + c, limit) == (a.0, a.1 + c, true)
            } else {
                split_frames(p + c, limit) == (a.0 + b.0, b.1, b.2)
            }
        }),
    decreases p.len(),
{
    let s = p + c;
    if p.len() < 4 {
        assert(Seq::<Seq<u8>>::empty() + split_frames(s, limit).0 =~= split_frames(s, limit).0);
    } else {
        assert(s[0] == p[0] && s[1] == p[1] && s[2] == p[2] && s[3] == p[3]);
        assert(be_u32(s) == be_u32(p));
        let n = be_u32(p);
        if n > limit {
        } else if p.len() < 4 + n {
            assert(Seq::<Seq<u8>>::empty() + split_frames(s, limit).0 =~= split_frames(s, limit).0);
        } else {
            assert(s.subrange(4, 4 + n) =~= p.subrange(4, 4 + n));
            assert(s.skip(4 + n) =~= p.skip(4 + n) + c);
            lemma_split_frames_append(p.skip(4 + n), c, limit);
            let a = split_frames(p.skip(4 + n), limit);
            let b = split_frames(a.1 + c, limit);
            assert(seq![p.subrange(4, 4 + n)] + (a.0 + b.0) =~= (seq![p.subrange(4, 4 + n)] + a.0)
                + b.0);
        }
    }
}

/// A stream handed over in chunks of any sizes, down to single bytes, yields
/// the same frames and the same verdict on the lengths as the whole stream
/// handed over at once, and while no length was refused, the same bytes
/// waiting for the rest of a frame.
pub proof fn lemma_chunking_invariant(
    pending: Seq<u8>,
    failed: bool,
    chunks: Seq<Seq<u8>>,
    limit: nat,
)
    requires
        settled(pending, failed, limit),
    ensures
        ({
            let by_chunks = feed_all(pending, failed, chunks, limit);
            let at_once = feed(pending, failed, chunks.flatten(), limit);
            &&& by_chunks.0 == at_once.0
            &&& by_chunks.2 == at_once.2
            &&& !at_once.2 ==> by_chunks.1 == at_once.1
        }),
    decreases chunks.len(),
{
    if chunks.len() == 0 {
        if !failed {
            assert(pending + Seq::<u8>::empty() =~= pending);
        }
    } else {
        let c = chunks[0];
        let first = feed(pending, failed, c, limit);
        lemma_feed_settles(pending, failed, c, limit);
        lemma_chunking_invariant(first.1, first.2, chunks.drop_first(), limit);
        let tail = chunks.drop_first().flatten();
        assert(chunks.flatten() == c + tail);
        if failed {
            assert(Seq::<Seq<u8>>::empty() + Seq::<Seq<u8>>::empty() =~= Seq::<Seq<u8>>::empty());
        } else {
            assert(pending + (c + tail) =~= (pending + c) + tail);
            lemma_split_frames_append(pending + c, tail, limit);
            if first.2 {
                assert(first.0 + Seq::<Seq<u8>>::empty() =~= first.0);
            }
        }
    }
}

/// A reader is settled after every chunk.
pub proof fn lemma_feed_settles(pending: Seq<u8>, failed: bool, chunk: Seq<u8>, limit: nat)
    ensures
        ({
            let r = feed(pending, failed, chunk, limit);
            settled(r.1, r.2, limit)
        }),
{
    if !failed {
        lemma_no_frames_in_rest(pending + chunk, limit);
    }
}

/// What is left over after the frames holds no further frame and no verdict.
proof fn lemma_no_frames_in_rest(s: Seq<u8>, limit: nat)
    ensures
        !split_frames(s, limit).2 ==> split_frames(split_frames(s, limit).1, limit) == (
            Seq::<Seq<u8>>::empty(),
            split_frames(s, limit).1,
            false,
        ),
        split_frames(s, limit).2 ==> split_frames(split_frames(s, limit).1, limit).2,
    decreases s.len(),
{
    if s.len() >= 4 && be_u32(s) <= limit && s.len() >= 4 + be_u32(s) {
        lemma_no_frames_in_rest(s.skip(4 + be_u32(s)), limit);
    }
}

/// The bytes of each of `v`.
pub open spec fn bytes_of(v: Seq<Vec<u8>>) -> Seq<Seq<u8>> {
    v.map_values(|f: Vec<u8>| f@)
}

/// A state that a reader reaches: stopped, or holding no complete frame.
pub open spec fn settled(pending: Seq<u8>, failed: bool, limit: nat) -> bool {
    failed || split_frames(pending, limit) == (Seq::<Seq<u8>>::empty(), pending, false)
}

/// Reads frames out of the chunks of a TCP stream.
pub struct FrameReader {
    pending: Vec<u8>,
    failed: bool,
}

impl View for FrameReader {
    type V = (Seq<u8>, bool);

    closed spec fn view(&self) -> (Seq<u8>, bool) {
        (self.pending@, self.failed)
    }
}

impl FrameReader {
    /// A reader that has seen nothing.
    pub fn new() -> (r: FrameReader)
        ensures
            r@ == (Seq::<u8>::empty(), false),
    {
        FrameReader { pending: Vec::new(), failed: false }
    }

    /// Whether a length over the limit has stopped this reader.
    pub fn has_failed(&self) -> (r: bool)
        ensures
            r == self@.1,
    {
        self.failed
    }

    /// Takes the next chunk of the stream and hands out the frames it
    /// completes, in order; a length over `limit` stops the reader.
    pub fn push(&mut self, chunk: &[u8], limit: usize) -> (frames: Vec<Vec<u8>>)
        requires
            limit <= u32::MAX,
        ensures
            ({
                let r = feed(old(self)@.0, old(self)@.1, chunk@, limit as nat);
                &&& bytes_of(frames@) == r.0
                &&& final(self)@ == (r.1, r.2)
            }),
    {
        let mut frames: Vec<Vec<u8>> = Vec::new();
        if self.failed {
            proof {
                assert(bytes_of(frames@) =~= Seq::<Seq<u8>>::empty());
            }
            return frames;
        }
        push_bytes(&mut self.pending, chunk);
        let ghost whole = self.pending@;
        loop
            invariant_except_break
                !self.failed,
            invariant
                ({
                    let r = split_frames(self.pending@, limit as nat);
                    split_frames(whole, limit as nat) == (bytes_of(frames@) + r.0, r.1, r.2)
                }),
            ensures
                ({
                    let r = split_frames(whole, limit as nat);
                    &&& bytes_of(frames@) == r.0
                    &&& self.pending@ == r.1
                    &&& self.failed == r.2
                }),
            decreases self.pending@.len(),
        {
            if self.pending.len() < 4 {
                proof {
                    assert(bytes_of(frames@) + Seq::<Seq<u8>>::empty() =~= bytes_of(frames@));
                }
                break;
            }
            let n = read_be_u32(self.pending.as_slice());
            if n as usize > limit {
                self.failed = true;
                proof {
                    assert(bytes_of(frames@) + Seq::<Seq<u8>>::empty() =~= bytes_of(frames@));
                }
                break;
            }
            if self.pending.len() - 4 < n as usize {
                proof {
                    assert(bytes_of(frames@) + Seq::<Seq<u8>>::empty() =~= bytes_of(frames@));
                }
                break;
            }
            let ghost before = self.pending@;
            let ghost old_frames = bytes_of(frames@);
            let rest = self.pending.split_off(4 + n as usize);
            let frame = self.pending.split_off(4);
            proof {
                assert(frame@ =~= before.subrange(4, 4 + n as int));
                assert(rest@ =~= before.skip(4 + n as int));
            }
            frames.push(frame);
            self.pending = rest;
            proof {
                assert(bytes_of(frames@) =~= old_frames.push(before.subrange(4, 4 + n as int)));
                assert(old_frames.push(before.subrange(4, 4 + n as int)) =~= old_frames + seq![
                    before.subrange(4, 4 + n as int),
                ]);
                let r = split_frames(self.pending@, limit as nat);
                assert(old_frames + (seq![before.subrange(4, 4 + n as int)] + r.0) =~= bytes_of(frames@)
                    + r.0);
            }
        }
        frames
    }
}

} // verus!
