//! Receive side of a stream: the buffer that reassembles byte ranges,
//! which arrive in any order, into the contiguous prefix that the
//! application reads.
//!
//! The bytes beyond the first gap are kept as disjoint ranges ordered by
//! offset. The buffer is proved to compute the model of
//! [`crate::reassembly`].

use vstd::prelude::*;
use vstd::slice::slice_subrange;
use vstd::slice::slice_to_vec;
use crate::error::Error;
use crate::error::Res;
use crate::reassembly::ReassemblerView;
use crate::reassembly::STREAM_MAX;
use crate::reassembly::first_gap;
use crate::reassembly::lemma_first_gap;
use crate::reassembly::lemma_first_gap_unique;

verus! {

/// A range of stream bytes that waits beyond the first gap.
#[derive(Debug)]
struct Chunk {
    start: u64,
    data: Vec<u8>,
}

/// The offset behind the last byte of the chunk.
spec fn chunk_end(c: Chunk) -> int {
    c.start + c.data@.len()
}

/// Whether the chunk holds the byte at offset `o`.
spec fn chunk_covers(c: Chunk, o: int) -> bool {
    c.start <= o < chunk_end(c)
}

/// Whether one of the first `k` chunks holds the byte at offset `o`.
spec fn covered_upto(cs: Seq<Chunk>, k: int, o: int) -> bool {
    exists|j: int| 0 <= j < k && j < cs.len() && chunk_covers(#[trigger] cs[j], o)
}

/// The index of one of the first `k` chunks that holds the byte at offset `o`.
spec fn holder_upto(cs: Seq<Chunk>, k: int, o: int) -> int {
    choose|j: int| 0 <= j < k && j < cs.len() && chunk_covers(#[trigger] cs[j], o)
}

/// Whether a chunk holds the byte at offset `o`.
spec fn covered(cs: Seq<Chunk>, o: int) -> bool {
    covered_upto(cs, cs.len() as int, o)
}

/// The index of a chunk that holds the byte at offset `o`.
spec fn holder(cs: Seq<Chunk>, o: int) -> int {
    holder_upto(cs, cs.len() as int, o)
}

/// The byte at offset `o`, as the chunk that holds it has it.
spec fn byte_at(cs: Seq<Chunk>, o: int) -> u8 {
    cs[holder(cs, o)].data@[o - cs[holder(cs, o)].start]
}

/// The bytes that the chunks hold, by offset.
spec fn chunks_map(cs: Seq<Chunk>) -> Map<int, u8> {
    Map::new(|o: int| covered(cs, o), |o: int| byte_at(cs, o))
}

/// The chunks are non-empty, start at `lo` or later, end at
/// [`STREAM_MAX`] or earlier, and each ends where the next starts or
/// before.
spec fn chunks_ok(cs: Seq<Chunk>, lo: int) -> bool {
    &&& forall|j: int|
        0 <= j < cs.len() ==> lo <= (#[trigger] cs[j]).start && cs[j].data@.len() > 0 && chunk_end(
            cs[j],
        ) <= STREAM_MAX
    &&& forall|i: int, j: int|
        0 <= i < j < cs.len() ==> chunk_end(#[trigger] cs[i]) <= (#[trigger] cs[j]).start
}

/// Receive side of a stream.
///
/// Byte ranges are inserted at any offset and in any order; the bytes that
/// are contiguous from the start of the stream are handed out by
/// [`Reassembler::read`], each byte once.
#[derive(Debug)]
pub struct Reassembler {
    next: u64,
    ready: Vec<u8>,
    chunks: Vec<Chunk>,
    fin: Option<u64>,
}

impl View for Reassembler {
    type V = ReassemblerView;

    closed spec fn view(&self) -> ReassemblerView {
        ReassemblerView {
            next_rx_offset: self.next as int,
            readable: self.ready@,
            buffered: chunks_map(self.chunks@),
            fin_offset: match self.fin {
                Some(f) => Some(f as int),
                None => None,
            },
        }
    }
}

impl Reassembler {
    /// The invariant of the buffer: the chunks are disjoint, ordered by
    /// offset, and start beyond the gap at the contiguous offset.
    pub closed spec fn wf(&self) -> bool {
        &&& self.ready@.len() <= self.next <= STREAM_MAX
        &&& chunks_ok(self.chunks@, self.next + 1)
        &&& self.fin matches Some(f) ==> {
            &&& self.next <= f <= STREAM_MAX
            &&& forall|o: int| covered(self.chunks@, o) ==> o < f
        }
    }

    /// A well-formed buffer has a well-formed model.
    pub proof fn lemma_view_wf(&self)
        requires
            self.wf(),
        ensures
            self@.wf(),
    {
    }

    /// A reassembler that has received nothing.
    pub fn new() -> (r: Reassembler)
        ensures
            r.wf(),
            r@ == ReassemblerView::empty(),
    {
        let r = Reassembler { next: 0, ready: Vec::new(), chunks: Vec::new(), fin: None };
        assert(r@.buffered =~= Map::<int, u8>::empty());
        r
    }

    /// Inserts the byte range `data` at `offset`; `fin` says that the
    /// range ends the stream.
    ///
    /// A range that starts at the contiguous offset becomes readable at
    /// once, together with the buffered ranges that continue it; a range
    /// beyond it is buffered; what lies below it is dropped. On an error
    /// the buffer is unchanged.
    pub fn insert(&mut self, offset: u64, data: &[u8], fin: bool) -> (r: Res<()>)
        requires
            old(self).wf(),
        ensures
            final(self).wf(),
            match old(self)@.insert(offset as int, data@, fin) {
                Ok(v) => r is Ok && final(self)@ == v,
                Err(e) => r == Err::<(), Error>(e) && final(self)@ == old(self)@,
            },
            final(self)@.next_rx_offset >= old(self)@.next_rx_offset,
    {
        let len: u64 = data.len() as u64;
        if offset > STREAM_MAX || len > STREAM_MAX - offset {
            return Err(Error::FinalSizeViolation);
        }
        let end: u64 = offset + len;
        match self.fin {
            Some(f) => {
                if end > f || (fin && end != f) {
                    return Err(Error::FinalSizeViolation);
                }
            },
            None => {},
        }
        if fin && self.highest_received() > end {
            return Err(Error::FinalSizeViolation);
        }
        if self.has_conflict(offset, data) {
            return Err(Error::StreamDataConflict);
        }
        let ghost v0 = self@;
        let ghost all = v0.merged(offset as int, data@);
        proof {
            self.lemma_view_wf();
        }
        if fin {
            self.fin = Some(end);
        }
        let start: u64 = if offset > self.next {
            offset
        } else {
            self.next
        };
        if start < end {
            let mut taken: Vec<Chunk> = Vec::new();
            core::mem::swap(&mut self.chunks, &mut taken);
            let d = slice_subrange(data, (start - offset) as usize, data.len());
            self.chunks = merge(taken, self.next, start, d);
        }
        proof {
            let cs1 = self.chunks@;
            assert forall|o: int| covered(cs1, o) implies byte_at(cs1, o) == all[o] by {}
            assert(chunks_map(cs1) =~= all);
        }
        self.absorb();
        proof {
            let v1 = v0.inserted(offset as int, data@, fin);
            assert(self@.buffered =~= v1.buffered);
            lemma_first_gap(all.dom(), v0.next_rx_offset);
            if self.fin is Some {
                let f = self.fin.unwrap() as int;
                if self.next > v0.next_rx_offset {
                    assert(all.dom().contains(self.next - 1));
                }
            }
        }
        Ok(())
    }

    /// Hands out the bytes that wait to be read, each byte once.
    pub fn read(&mut self) -> (out: Vec<u8>)
        requires
            old(self).wf(),
        ensures
            final(self).wf(),
            out@ == old(self)@.readable,
            final(self)@ == old(self)@.drained(),
    {
        let mut out: Vec<u8> = Vec::new();
        core::mem::swap(&mut self.ready, &mut out);
        out
    }

    /// Offset up to which the stream has been made readable.
    pub fn next_rx_offset(&self) -> (n: u64)
        ensures
            n == self@.next_rx_offset,
    {
        self.next
    }

    /// Final size of the stream, once known.
    pub fn fin_offset(&self) -> (f: Option<u64>)
        ensures
            match f {
                Some(x) => self@.fin_offset == Some(x as int),
                None => self@.fin_offset is None,
            },
    {
        self.fin
    }

    /// Number of bytes that wait to be read.
    pub fn available(&self) -> (n: usize)
        ensures
            n == self@.readable.len(),
    {
        self.ready.len()
    }

    /// Whether the whole stream, up to its final size, has been made readable.
    pub fn closed_for_reading(&self) -> (b: bool)
        ensures
            b == self@.closed_for_reading(),
    {
        match self.fin {
            Some(f) => f == self.next,
            None => false,
        }
    }

    /// The offset after the last byte received so far.
    pub fn highest_received(&self) -> (h: u64)
        requires
            self.wf(),
        ensures
            h >= self@.next_rx_offset,
            h <= STREAM_MAX,
            forall|end: int| self@.received_beyond(end) <==> h > end,
    {
        let n: usize = self.chunks.len();
        if n == 0 {
            self.next
        } else {
            let last: &Chunk = &self.chunks[n - 1];
            let h: u64 = last.start + last.data.len() as u64;
            assert forall|end: int| self@.received_beyond(end) <==> h > end by {
                if h > end {
                    if !(self.next > end) {
                        assert(self@.buffered.contains_key(h - 1));
                    }
                }
            }
            h
        }
    }
}

impl Reassembler {
    /// Whether `data` at `offset` differs from a buffered byte.
    fn has_conflict(&self, offset: u64, data: &[u8]) -> (b: bool)
        requires
            self.wf(),
            offset + data@.len() <= STREAM_MAX,
        ensures
            b == self@.conflicts(offset as int, data@),
    {
        let end: u64 = offset + data.len() as u64;
        let mut k: usize = 0;
        while k < self.chunks.len()
            invariant
                self.wf(),
                k <= self.chunks@.len(),
                end == offset + data@.len(),
                end <= STREAM_MAX,
                data@.len() <= usize::MAX,
                forall|j: int, o: int|
                    0 <= j < k && chunk_covers(#[trigger] self.chunks@[j], o) && offset <= o < end
                        ==> self.chunks@[j].data@[o - self.chunks@[j].start] == #[trigger] data@[o
                        - offset],
            decreases self.chunks@.len() - k,
        {
            let c: &Chunk = &self.chunks[k];
            let c_end: u64 = c.start + c.data.len() as u64;
            if c.start < end && offset < c_end {
                let lo: u64 = if c.start > offset {
                    c.start
                } else {
                    offset
                };
                let hi: u64 = if c_end < end {
                    c_end
                } else {
                    end
                };
                let same = same_bytes(
                    c.data.as_slice(),
                    (lo - c.start) as usize,
                    data,
                    (lo - offset) as usize,
                    (hi - lo) as usize,
                );
                if !same {
                    proof {
                        let t = choose|t: int|
                            0 <= t < hi - lo && !#[trigger] agree(
                                c.data@,
                                lo - c.start,
                                data@,
                                lo - offset,
                                t,
                            );
                        let o = lo + t;
                        lemma_byte_at(self.chunks@, self.next + 1, k as int, o);
                        assert(self@.buffered.contains_key(o));
                    }
                    return true;
                }
                assert forall|o: int|
                    chunk_covers(self.chunks@[k as int], o) && offset <= o < end implies c.data@[o
                        - c.start] == #[trigger] data@[o - offset] by {
                    assert(agree(c.data@, lo - c.start, data@, lo - offset, o - lo));
                }
            }
            k += 1;
        }
        proof {
            if self@.conflicts(offset as int, data@) {
                let o = choose|o: int| #[trigger]
                    self@.buffered.contains_key(o) && offset <= o < offset + data@.len()
                        && self@.buffered[o] != data@[o - offset];
                let j = holder(self.chunks@, o);
                lemma_byte_at(self.chunks@, self.next + 1, j, o);
            }
        }
        false
    }

    /// Moves the chunks that start at the contiguous offset, one after the
    /// other, to the readable bytes.
    fn absorb(&mut self)
        requires
            old(self).ready@.len() <= old(self).next <= STREAM_MAX,
            chunks_ok(old(self).chunks@, old(self).next as int),
        ensures
            final(self).fin == old(self).fin,
            final(self).next == first_gap(chunks_map(old(self).chunks@).dom(), old(self).next as int),
            final(self).ready@ == old(self).ready@ + Seq::new(
                (final(self).next - old(self).next) as nat,
                |i: int| chunks_map(old(self).chunks@)[old(self).next + i],
            ),
            forall|o: int|
                covered(final(self).chunks@, o) <==> covered(old(self).chunks@, o) && o
                    > final(self).next,
            forall|o: int|
                covered(final(self).chunks@, o) ==> byte_at(final(self).chunks@, o) == byte_at(
                    old(self).chunks@,
                    o,
                ),
            final(self).ready@.len() <= final(self).next <= STREAM_MAX,
            chunks_ok(final(self).chunks@, final(self).next + 1),
    {
        let ghost cs0 = self.chunks@;
        let ghost next0 = self.next as int;
        let ghost ready0 = self.ready@;
        let mut done: bool = false;
        let ghost mut k: int = 0;
        while !done
            invariant
                chunks_ok(cs0, next0),
                0 <= k <= cs0.len(),
                self.chunks@ == cs0.subrange(k, cs0.len() as int),
                self.fin == old(self).fin,
                next0 <= self.next <= STREAM_MAX,
                self.ready@.len() <= self.next,
                absorbed_upto(cs0, next0, k, self.next as int),
                self.ready@ == ready0 + absorbed_bytes(cs0, next0, self.next as int),
                done ==> (k == cs0.len() || self.next < cs0[k].start),
            decreases cs0.len() - k, (if done { 0int } else { 1int }),
        {
            if self.chunks.len() > 0 && self.chunks[0].start == self.next {
                let ghost prev_next = self.next as int;
                let mut c: Chunk = self.chunks.remove(0);
                self.next = self.next + c.data.len() as u64;
                self.ready.append(&mut c.data);
                proof {
                    lemma_absorb_step(cs0, next0, k, prev_next);
                    k = k + 1;
                }
            } else {
                done = true;
            }
        }
        proof {
            lemma_absorb_done(cs0, next0, k, self.next as int);
        }
    }
}

/// The bytes of `d`, which starts at offset `a`, from offset `from` up to
/// `to`, as a chunk.
fn piece(d: &[u8], a: u64, from: u64, to: u64) -> (c: Chunk)
    requires
        a <= from < to,
        to - a <= d@.len(),
    ensures
        c.start == from,
        c.data@ == d@.subrange(from - a, to - a),
{
    let n: usize = d.len();
    let i: usize = (from - a) as usize;
    let j: usize = (to - a) as usize;
    Chunk { start: from, data: slice_to_vec(slice_subrange(d, i, j)) }
}

/// Adds the bytes `d`, which start at offset `a`, to the chunks: the
/// bytes that no chunk holds yet are stored as new chunks between the old
/// ones, which stay as they are.
fn merge(old: Vec<Chunk>, lo: u64, a: u64, d: &[u8]) -> (out: Vec<Chunk>)
    requires
        chunks_ok(old@, lo as int),
        lo <= a,
        d@.len() > 0,
        a + d@.len() <= STREAM_MAX,
    ensures
        chunks_ok(out@, lo as int),
        forall|o: int| covered(out@, o) <==> covered(old@, o) || a <= o < a + d@.len(),
        forall|o: int|
            covered(out@, o) ==> byte_at(out@, o) == if covered(old@, o) {
                byte_at(old@, o)
            } else {
                d@[o - a]
            },
{
    let e: u64 = a + d.len() as u64;
    let mut out: Vec<Chunk> = Vec::new();
    let mut pos: u64 = a;
    for c in it: old
        invariant
            it.seq() == old@,
            chunks_ok(old@, lo as int),
            lo <= a <= pos <= e,
            e == a + d@.len(),
            e <= STREAM_MAX,
            chunks_ok(out@, lo as int),
            forall|j: int|
                0 <= j < out@.len() && it.index() < old@.len() ==> chunk_end(#[trigger] out@[j])
                    <= old@[it.index() as int].start,
            pos < e ==> forall|j: int| 0 <= j < out@.len() ==> chunk_end(#[trigger] out@[j]) <= pos,
            pos < e ==> forall|j: int|
                0 <= j < it.index() ==> chunk_end(#[trigger] old@[j]) <= pos,
            pos == e ==> forall|j: int|
                it.index() <= j < old@.len() ==> e <= chunk_end(#[trigger] old@[j]),
            forall|o: int|
                covered(out@, o) <==> covered_upto(old@, it.index() as int, o) || a <= o < pos,
            forall|o: int|
                covered(out@, o) ==> byte_at(out@, o) == if covered(old@, o) {
                    byte_at(old@, o)
                } else {
                    d@[o - a]
                },
    {
        let ghost k = it.index() as int;
        let ghost out0 = out@;
        let c_end: u64 = c.start + c.data.len() as u64;
        let mut fill: Option<Chunk> = None;
        if pos < e && c_end > pos {
            if c.start >= e {
                fill = Some(piece(d, a, pos, e));
                pos = e;
            } else {
                if c.start > pos {
                    fill = Some(piece(d, a, pos, c.start));
                }
                pos = if c_end < e {
                    c_end
                } else {
                    e
                };
            }
        }
        let ghost mid = out0;
        if let Some(f) = fill {
            proof {
                lemma_push_ok(out0, lo as int, f);
                mid = out0.push(f);
            }
            out.push(f);
        }
        proof {
            lemma_push_ok(mid, lo as int, c);
        }
        out.push(c);
        proof {
            let fin = out@;
            assert forall|o: int|
                (covered(fin, o) <==> covered_upto(old@, k + 1, o) || a <= o < pos) && (covered(
                    fin,
                    o,
                ) ==> byte_at(fin, o) == if covered(old@, o) {
                    byte_at(old@, o)
                } else {
                    d@[o - a]
                }) by {
                lemma_push_covered(mid, lo as int, c, o);
                if fill is Some {
                    lemma_push_covered(out0, lo as int, fill.unwrap(), o);
                }
                if chunk_covers(c, o) {
                    lemma_byte_at(old@, lo as int, k, o);
                }
                lemma_covered_step(old@, k, o);
            }
        }
    }
    if pos < e {
        let f = piece(d, a, pos, e);
        proof {
            lemma_push_ok(out@, lo as int, f);
            assert forall|o: int|
                (covered(out@.push(f), o) <==> covered(old@, o) || a <= o < e) && (covered(
                    out@.push(f),
                    o,
                ) ==> byte_at(out@.push(f), o) == if covered(old@, o) {
                    byte_at(old@, o)
                } else {
                    d@[o - a]
                }) by {
                lemma_push_covered(out@, lo as int, f, o);
            }
        }
        out.push(f);
    }
    out
}

/// Whether `x` from `xi` on and `y` from `yi` on hold the same byte `t`
/// places further.
spec fn agree(x: Seq<u8>, xi: int, y: Seq<u8>, yi: int, t: int) -> bool {
    x[xi + t] == y[yi + t]
}

/// Whether `x` from `xi` on and `y` from `yi` on hold the same `n` bytes.
fn same_bytes(x: &[u8], xi: usize, y: &[u8], yi: usize, n: usize) -> (b: bool)
    requires
        xi + n <= x@.len(),
        yi + n <= y@.len(),
    ensures
        b <==> forall|t: int| 0 <= t < n ==> #[trigger] agree(x@, xi as int, y@, yi as int, t),
{
    let xn: usize = x.len();
    let yn: usize = y.len();
    let mut t: usize = 0;
    while t < n
        invariant
            t <= n,
            xi + n <= x@.len() == xn,
            yi + n <= y@.len() == yn,
            forall|u: int| 0 <= u < t ==> #[trigger] agree(x@, xi as int, y@, yi as int, u),
        decreases n - t,
    {
        if x[xi + t] != y[yi + t] {
            assert(!agree(x@, xi as int, y@, yi as int, t as int));
            return false;
        }
        t += 1;
    }
    true
}

/// The bytes that the chunks hold at the offsets from `from` up to `to`.
spec fn absorbed_bytes(cs: Seq<Chunk>, from: int, to: int) -> Seq<u8> {
    Seq::new((to - from) as nat, |i: int| chunks_map(cs)[from + i])
}

/// The first `k` chunks hold exactly the offsets from `from` up to `next`.
spec fn absorbed_upto(cs: Seq<Chunk>, from: int, k: int, next: int) -> bool {
    &&& forall|j: int| 0 <= j < k ==> chunk_end(#[trigger] cs[j]) <= next
    &&& forall|o: int| from <= o < next ==> covered(cs, o)
    &&& k > 0 ==> chunk_end(cs[k - 1]) == next
    &&& k == 0 ==> next == from
}

/// One chunk more holds what the chunks before it hold and what it holds
/// itself.
proof fn lemma_covered_step(cs: Seq<Chunk>, k: int, o: int)
    requires
        0 <= k < cs.len(),
    ensures
        covered_upto(cs, k + 1, o) <==> covered_upto(cs, k, o) || chunk_covers(cs[k], o),
{
    if covered_upto(cs, k + 1, o) {
        let j = holder_upto(cs, k + 1, o);
        assert(j < k || j == k);
    }
    if covered_upto(cs, k, o) {
        let j = holder_upto(cs, k, o);
        assert(chunk_covers(cs[j], o));
    }
}

/// The byte at an offset is the byte of whichever chunk holds the offset:
/// no two chunks hold the same offset.
proof fn lemma_byte_at(cs: Seq<Chunk>, lo: int, j: int, o: int)
    requires
        chunks_ok(cs, lo),
        0 <= j < cs.len(),
        chunk_covers(cs[j], o),
    ensures
        covered(cs, o),
        byte_at(cs, o) == cs[j].data@[o - cs[j].start],
{
}

/// A chunk that starts where the others have ended can be put behind them.
proof fn lemma_push_ok(cs: Seq<Chunk>, lo: int, c: Chunk)
    requires
        chunks_ok(cs, lo),
        lo <= c.start,
        c.data@.len() > 0,
        chunk_end(c) <= STREAM_MAX,
        forall|j: int| 0 <= j < cs.len() ==> chunk_end(#[trigger] cs[j]) <= c.start,
    ensures
        chunks_ok(cs.push(c), lo),
{
    let out = cs.push(c);
}

/// What the chunks hold once a chunk was put behind them.
proof fn lemma_push_covered(cs: Seq<Chunk>, lo: int, c: Chunk, o: int)
    requires
        chunks_ok(cs.push(c), lo),
    ensures
        covered(cs.push(c), o) <==> covered(cs, o) || chunk_covers(c, o),
        covered(cs.push(c), o) ==> byte_at(cs.push(c), o) == if chunk_covers(c, o) {
            c.data@[o - c.start]
        } else {
            byte_at(cs, o)
        },
{
    let out = cs.push(c);
    assert(chunks_ok(cs, lo)) by {
        assert forall|j: int| 0 <= j < cs.len() implies lo <= (#[trigger] cs[j]).start
            && cs[j].data@.len() > 0 && chunk_end(cs[j]) <= STREAM_MAX by {
            assert(out[j] == cs[j]);
        }
        assert forall|i: int, j: int| 0 <= i < j < cs.len() implies chunk_end(#[trigger] cs[i])
            <= (#[trigger] cs[j]).start by {
            assert(out[i] == cs[i] && out[j] == cs[j]);
        }
    }
    if covered(cs, o) {
        let j = holder(cs, o);
        lemma_byte_at(out, lo, j, o);
        lemma_byte_at(cs, lo, j, o);
    }
    if chunk_covers(c, o) {
        lemma_byte_at(out, lo, cs.len() as int, o);
    }
}

/// Absorbing the chunk that starts at the contiguous offset moves the
/// offset to the end of the chunk and makes the bytes of the chunk readable.
proof fn lemma_absorb_step(cs: Seq<Chunk>, from: int, k: int, next: int)
    requires
        chunks_ok(cs, from),
        0 <= k < cs.len(),
        from <= next,
        absorbed_upto(cs, from, k, next),
        cs[k].start == next,
    ensures
        absorbed_upto(cs, from, k + 1, chunk_end(cs[k])),
        absorbed_bytes(cs, from, next) + cs[k].data@ == absorbed_bytes(cs, from, chunk_end(cs[k])),
{
}

/// Once no chunk starts at the contiguous offset, the offset is the first
/// gap, and the chunks that were not absorbed hold what lies beyond it.
proof fn lemma_absorb_done(cs: Seq<Chunk>, from: int, k: int, next: int)
    requires
        chunks_ok(cs, from),
        0 <= k <= cs.len(),
        from <= next <= STREAM_MAX,
        absorbed_upto(cs, from, k, next),
        k == cs.len() || next < cs[k].start,
    ensures
        first_gap(chunks_map(cs).dom(), from) == next,
        chunks_ok(cs.subrange(k, cs.len() as int), next + 1),
        forall|o: int|
            covered(cs.subrange(k, cs.len() as int), o) <==> covered(cs, o) && o > next,
        forall|o: int|
            covered(cs.subrange(k, cs.len() as int), o) ==> byte_at(
                cs.subrange(k, cs.len() as int),
                o,
            ) == byte_at(cs, o),
{
    let cur = cs.subrange(k, cs.len() as int);
    lemma_first_gap_unique(chunks_map(cs).dom(), from, next);
    assert forall|o: int|
        (covered(cur, o) <==> covered(cs, o) && o > next) && (covered(cur, o) ==> byte_at(cur, o)
            == byte_at(cs, o)) by {
        if covered(cur, o) {
            let j = holder(cur, o);
            lemma_byte_at(cs, from, k + j, o);
            lemma_byte_at(cur, next + 1, j, o);
        }
        if covered(cs, o) && o > next {
            let j = holder(cs, o);
            assert(chunk_covers(cur[j - k], o));
        }
    }
}

} // verus!
