//! Splitting a chunked byte stream into blank-line-delimited frames.

use vstd::prelude::*;

verus! {

/// The byte that ends a line; two in a row end a frame.
pub const NEWLINE: u8 = 10;

/// Splits `s` at each first occurrence of two consecutive newlines, from the left.
/// The first component holds the complete frames in order (without delimiters),
/// the second what follows the last delimiter.
pub open spec fn split_frames(s: Seq<u8>) -> (Seq<Seq<u8>>, Seq<u8>)
    decreases s.len(),
{
    if s.len() < 2 {
        (Seq::empty(), s)
    } else if s[0] == NEWLINE && s[1] == NEWLINE {
        let rest = split_frames(s.skip(2));
        (seq![Seq::<u8>::empty()] + rest.0, rest.1)
    } else {
        let rest = split_frames(s.skip(1));
        if rest.0.len() == 0 {
            (Seq::empty(), s)
        } else {
            (seq![seq![s[0]] + rest.0[0]] + rest.0.skip(1), rest.1)
        }
    }
}

/// The complete frames of `s`.
pub open spec fn frames_of(s: Seq<u8>) -> Seq<Seq<u8>> {
    split_frames(s).0
}

/// What of `s` follows its last complete frame.
pub open spec fn leftover_of(s: Seq<u8>) -> Seq<u8> {
    split_frames(s).1
}

/// Whether a frame delimiter starts at index `i` of `s`.
pub open spec fn delim_at(s: Seq<u8>, i: int) -> bool {
    0 <= i && i + 1 < s.len() && s[i] == NEWLINE && s[i + 1] == NEWLINE
}

/// Feeding `chunks` in order to a decoder that holds `pending`: the frames emitted
/// and what stays pending at the end.
pub open spec fn feed_all(pending: Seq<u8>, chunks: Seq<Seq<u8>>) -> (Seq<Seq<u8>>, Seq<u8>)
    decreases chunks.len(),
{
    if chunks.len() == 0 {
        (Seq::empty(), pending)
    } else {
        let step = split_frames(pending + chunks[0]);
        let rest = feed_all(step.1, chunks.drop_first());
        (step.0 + rest.0, rest.1)
    }
}

/// The frames that a fresh decoder emits when `chunks` are delivered in order.
pub open spec fn decode_chunks(chunks: Seq<Seq<u8>>) -> Seq<Seq<u8>> {
    feed_all(Seq::empty(), chunks).0
}

/// A sequence with no complete frame is left pending whole.
pub proof fn lemma_no_frames_all_pending(s: Seq<u8>)
    requires
        frames_of(s).len() == 0,
    ensures
        leftover_of(s) == s,
    decreases s.len(),
{
    if s.len() >= 2 && !(s[0] == NEWLINE && s[1] == NEWLINE) {
        lemma_no_frames_all_pending(s.skip(1));
    }
}

/// A sequence without a delimiter holds no complete frame.
pub proof fn lemma_no_delim_no_frames(s: Seq<u8>)
    requires
        forall|j: int| !delim_at(s, j),
    ensures
        frames_of(s).len() == 0,
        leftover_of(s) == s,
    decreases s.len(),
{
    if s.len() >= 2 {
        assert(!delim_at(s, 0));
        let t = s.skip(1);
        assert forall|j: int| !delim_at(t, j) by {
            assert(!delim_at(s, j + 1));
        }
        lemma_no_delim_no_frames(t);
    }
}

/// Where the first delimiter of `s` starts at `i`, the first frame is what stands before it.
pub proof fn lemma_first_delim(s: Seq<u8>, i: int)
    requires
        delim_at(s, i),
        forall|j: int| j < i ==> !delim_at(s, j),
    ensures
        frames_of(s) == seq![s.take(i)] + frames_of(s.skip(i + 2)),
        leftover_of(s) == leftover_of(s.skip(i + 2)),
    decreases i,
{
    if i == 0 {
        assert(s.take(0) =~= Seq::<u8>::empty());
    } else {
        let t = s.skip(1);
        assert(!delim_at(s, 0));
        assert(delim_at(t, i - 1));
        assert forall|j: int| j < i - 1 implies !delim_at(t, j) by {
            assert(!delim_at(s, j + 1));
        }
        lemma_first_delim(t, i - 1);
        assert(t.skip(i + 1) =~= s.skip(i + 2));
        assert(seq![s[0]] + t.take(i - 1) =~= s.take(i));
        assert((seq![t.take(i - 1)] + frames_of(t.skip(i + 1))).skip(1) =~= frames_of(s.skip(i + 2)));
        assert(seq![s.take(i)] + frames_of(s.skip(i + 2)) =~= frames_of(s));
    }
}

/// Appending to a sequence keeps its complete frames and continues from its leftover.
pub proof fn lemma_split_append(s: Seq<u8>, c: Seq<u8>)
    ensures
        frames_of(s + c) == frames_of(s) + frames_of(leftover_of(s) + c),
        leftover_of(s + c) == leftover_of(leftover_of(s) + c),
    decreases s.len(),
{
    if s.len() < 2 {
        assert(frames_of(s) =~= Seq::<Seq<u8>>::empty());
        assert(frames_of(s) + frames_of(leftover_of(s) + c) =~= frames_of(s + c));
    } else if s[0] == NEWLINE && s[1] == NEWLINE {
        assert((s + c).skip(2) =~= s.skip(2) + c);
        lemma_split_append(s.skip(2), c);
        assert(frames_of(s + c) =~= frames_of(s) + frames_of(leftover_of(s) + c));
    } else if frames_of(s).len() == 0 {
        lemma_no_frames_all_pending(s);
        assert(frames_of(s) + frames_of(leftover_of(s) + c) =~= frames_of(s + c));
    } else {
        let s1 = s.skip(1);
        assert((s + c).skip(1) =~= s1 + c);
        lemma_split_append(s1, c);
        let f1 = frames_of(s1);
        let g = frames_of(leftover_of(s1) + c);
        assert(f1.len() > 0);
        assert((f1 + g)[0] == f1[0]);
        assert((f1 + g).skip(1) =~= f1.skip(1) + g);
        assert(frames_of(s + c) =~= frames_of(s) + frames_of(leftover_of(s) + c));
    }
}

/// What is left after the complete frames holds no complete frame.
pub proof fn lemma_leftover_has_no_frames(s: Seq<u8>)
    ensures
        frames_of(leftover_of(s)).len() == 0,
    decreases s.len(),
{
    if s.len() >= 2 {
        if s[0] == NEWLINE && s[1] == NEWLINE {
            lemma_leftover_has_no_frames(s.skip(2));
        } else {
            lemma_leftover_has_no_frames(s.skip(1));
        }
    }
}

/// Feeding chunks to a decoder whose pending bytes hold no complete frame emits exactly
/// the frames of the pending bytes followed by all chunks.
pub proof fn lemma_feed_all(pending: Seq<u8>, chunks: Seq<Seq<u8>>)
    requires
        frames_of(pending).len() == 0,
    ensures
        feed_all(pending, chunks).0 == frames_of(pending + chunks.flatten()),
        feed_all(pending, chunks).1 == leftover_of(pending + chunks.flatten()),
    decreases chunks.len(),
{
    if chunks.len() == 0 {
        assert(pending + chunks.flatten() =~= pending);
        lemma_no_frames_all_pending(pending);
    } else {
        let c0 = chunks[0];
        let rest = chunks.drop_first();
        let step = split_frames(pending + c0);
        lemma_leftover_has_no_frames(pending + c0);
        lemma_feed_all(step.1, rest);
        lemma_split_append(pending + c0, rest.flatten());
        assert(pending + chunks.flatten() =~= (pending + c0) + rest.flatten());
    }
}

/// Decoding does not depend on where the delivery chunks were cut: two chunkings of one
/// byte sequence yield the same frames.
pub proof fn lemma_chunking_irrelevant(a: Seq<Seq<u8>>, b: Seq<Seq<u8>>)
    requires
        a.flatten() == b.flatten(),
    ensures
        decode_chunks(a) == decode_chunks(b),
        decode_chunks(a) == frames_of(a.flatten()),
{
    let e = Seq::<u8>::empty();
    assert(frames_of(e) =~= Seq::<Seq<u8>>::empty());
    lemma_feed_all(e, a);
    lemma_feed_all(e, b);
    assert(e + a.flatten() =~= a.flatten());
    assert(e + b.flatten() =~= b.flatten());
}

/// The bytes `v[from..to]` as a vector of their own.
pub fn copy_range(v: &Vec<u8>, from: usize, to: usize) -> (r: Vec<u8>)
    requires
        from <= to <= v@.len(),
    ensures
        r@ == v@.subrange(from as int, to as int),
{
    let mut r: Vec<u8> = Vec::new();
    let mut k: usize = from;
    while k < to
        invariant
            from <= k <= to <= v@.len(),
            r@ == v@.subrange(from as int, k as int),
        decreases to - k,
    {
        r.push(v[k]);
        k = k + 1;
        assert(r@ =~= v@.subrange(from as int, k as int));
    }
    r
}

/// Turns byte chunks cut at arbitrary places into complete frames, in order.
pub struct FrameDecoder {
    pending: Vec<u8>,
}

impl FrameDecoder {
    /// The bytes received after the last complete frame.
    pub closed spec fn pending(&self) -> Seq<u8> {
        self.pending@
    }

    /// The pending bytes never hold a complete frame.
    pub open spec fn wf(&self) -> bool {
        frames_of(self.pending()).len() == 0
    }

    pub fn new() -> (r: Self)
        ensures
            r.pending() == Seq::<u8>::empty(),
            r.wf(),
    {
        let r = FrameDecoder { pending: Vec::new() };
        assert(frames_of(r.pending()) =~= Seq::<Seq<u8>>::empty());
        r
    }

    /// Takes the next chunk and returns the frames that it completes.
    pub fn push(&mut self, chunk: &[u8]) -> (frames: Vec<Vec<u8>>)
        ensures
            frames@.map_values(|f: Vec<u8>| f@) == frames_of(old(self).pending() + chunk@),
            final(self).pending() == leftover_of(old(self).pending() + chunk@),
            final(self).wf(),
    {
        let mut k: usize = 0;
        while k < chunk.len()
            invariant
                0 <= k <= chunk@.len(),
                self.pending@ == old(self).pending@ + chunk@.take(k as int),
            decreases chunk@.len() - k,
        {
            self.pending.push(chunk[k]);
            k = k + 1;
            assert(self.pending@ =~= old(self).pending@ + chunk@.take(k as int));
        }
        assert(chunk@.take(k as int) =~= chunk@);
        let ghost total = self.pending@;
        let n = self.pending.len();
        let mut frames: Vec<Vec<u8>> = Vec::new();
        let mut start: usize = 0;
        let mut i: usize = 0;
        assert(total.skip(0) =~= total);
        assert(frames@.map_values(|f: Vec<u8>| f@) + frames_of(total.skip(0)) =~= frames_of(total));
        while n - i >= 2
            invariant
                start <= i <= n,
                n == self.pending@.len(),
                self.pending@ == total,
                frames@.map_values(|f: Vec<u8>| f@) + frames_of(total.skip(start as int))
                    == frames_of(total),
                leftover_of(total.skip(start as int)) == leftover_of(total),
                forall|j: int| start <= j < i ==> !delim_at(total, j),
            decreases n - i,
        {
            if self.pending[i] == NEWLINE && self.pending[i + 1] == NEWLINE {
                let ghost t = total.skip(start as int);
                proof {
                    assert(delim_at(t, i - start));
                    assert forall|j: int| j < i - start implies !delim_at(t, j) by {
                        if 0 <= j {
                            assert(!delim_at(total, j + start));
                        }
                    }
                    lemma_first_delim(t, i - start);
                    assert(t.take(i - start) =~= total.subrange(start as int, i as int));
                    assert(t.skip(i - start + 2) =~= total.skip(i + 2));
                }
                let frame = copy_range(&self.pending, start, i);
                let ghost before = frames@.map_values(|f: Vec<u8>| f@);
                frames.push(frame);
                assert(frames@.map_values(|f: Vec<u8>| f@) =~= before.push(frame@));
                assert(frames@.map_values(|f: Vec<u8>| f@) + frames_of(total.skip(i + 2))
                    =~= before + frames_of(t));
                start = i + 2;
                i = i + 2;
            } else {
                assert(!delim_at(total, i as int));
                i = i + 1;
            }
        }
        let ghost t = total.skip(start as int);
        assert forall|j: int| !delim_at(t, j) by {
            if 0 <= j && j + 1 < t.len() {
                assert(!delim_at(total, j + start));
            }
        }
        proof {
            lemma_no_delim_no_frames(t);
        }
        let rest = copy_range(&self.pending, start, n);
        assert(rest@ =~= t);
        self.pending = rest;
        assert(frames@.map_values(|f: Vec<u8>| f@) =~= frames_of(total));
        proof {
            lemma_leftover_has_no_frames(total);
        }
        frames
    }
}

} // verus!
