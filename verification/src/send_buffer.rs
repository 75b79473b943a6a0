//! Send side of a stream: the bytes handed over for sending, kept until
//! the peer has acknowledged them.
//!
//! The model ([`SendView`]) is the set of offsets that are outstanding,
//! that is queued and not yet acknowledged, together with the bytes that
//! are retained for them. Bytes below the lowest outstanding offset are
//! released.

use vstd::prelude::*;
use vstd::slice::slice_subrange;
use vstd::slice::slice_to_vec;
use crate::error::Error;
use crate::error::Res;
use crate::reassembly::STREAM_MAX;

verus! {

/// The lowest offset from `from` on, below `end`, that `outstanding`
/// holds; `end` where there is none.
pub open spec fn next_outstanding(outstanding: Set<int>, from: int, end: int) -> int
    decreases end - from,
{
    if from < end && !outstanding.contains(from) {
        next_outstanding(outstanding, from + 1, end)
    } else {
        from
    }
}

/// The offset that [`next_outstanding`] gives is the only one at which
/// the search from `from` can stop.
pub proof fn lemma_next_outstanding(outstanding: Set<int>, from: int, end: int, at: int)
    requires
        from <= at <= end,
        forall|o: int| from <= o < at ==> !outstanding.contains(o),
        at < end ==> outstanding.contains(at),
    ensures
        next_outstanding(outstanding, from, end) == at,
    decreases at - from,
{
    if from < at {
        lemma_next_outstanding(outstanding, from + 1, end, at);
    }
}

/// The mathematical state of a send buffer.
pub struct SendView {
    /// Offset below which everything was acknowledged and released.
    pub released: int,
    /// The bytes from `released` up to the end of what was queued.
    pub retained: Seq<u8>,
    /// The offsets that were queued and not yet acknowledged.
    pub outstanding: Set<int>,
}

impl SendView {
    /// A buffer into which nothing was queued.
    pub open spec fn empty() -> SendView {
        SendView { released: 0, retained: Seq::empty(), outstanding: Set::empty() }
    }

    /// Number of bytes queued so far.
    pub open spec fn tx_offset(self) -> int {
        self.released + self.retained.len()
    }

    /// The invariant of the model: the outstanding offsets lie among the
    /// retained bytes, and the first retained byte is outstanding.
    pub open spec fn wf(self) -> bool {
        &&& 0 <= self.released <= self.tx_offset() <= STREAM_MAX
        &&& forall|o: int| #[trigger]
            self.outstanding.contains(o) ==> self.released <= o < self.tx_offset()
        &&& self.released < self.tx_offset() ==> self.outstanding.contains(self.released)
    }

    /// The state after `data` was queued behind what was queued before.
    pub open spec fn queued(self, data: Seq<u8>) -> SendView {
        SendView {
            released: self.released,
            retained: self.retained + data,
            outstanding: self.outstanding.union(
                Set::new(|o: int| self.tx_offset() <= o < self.tx_offset() + data.len()),
            ),
        }
    }

    /// The state after the offsets from `start` up to `end` were
    /// acknowledged: they leave the outstanding set, and the bytes below
    /// the lowest offset that is still outstanding are released.
    pub open spec fn acked(self, start: int, end: int) -> SendView {
        let outstanding = self.outstanding.difference(Set::new(|o: int| start <= o < end));
        let released = next_outstanding(outstanding, self.released, self.tx_offset());
        SendView {
            released,
            retained: self.retained.skip(released - self.released),
            outstanding,
        }
    }
}

/// Acknowledging leaves a well-formed state; what is outstanding only
/// shrinks and what is released only grows.
pub proof fn lemma_acked_wf(v: SendView, start: int, end: int)
    requires
        v.wf(),
    ensures
        v.acked(start, end).wf(),
        v.acked(start, end).outstanding.subset_of(v.outstanding),
        v.acked(start, end).released >= v.released,
        v.acked(start, end).tx_offset() == v.tx_offset(),
{
    let w = v.acked(start, end);
    lemma_next_outstanding_bounds(w.outstanding, v.released, v.tx_offset());
}

/// Where the search of [`next_outstanding`] stops.
pub proof fn lemma_next_outstanding_bounds(outstanding: Set<int>, from: int, end: int)
    requires
        from <= end,
    ensures
        from <= next_outstanding(outstanding, from, end) <= end,
        forall|o: int|
            from <= o < next_outstanding(outstanding, from, end) ==> !outstanding.contains(o),
        next_outstanding(outstanding, from, end) < end ==> outstanding.contains(
            next_outstanding(outstanding, from, end),
        ),
    decreases end - from,
{
    if from < end && !outstanding.contains(from) {
        lemma_next_outstanding_bounds(outstanding, from + 1, end);
    }
}

/// A range of offsets that the peer acknowledged.
#[derive(Debug)]
struct AckedRange {
    start: u64,
    end: u64,
}

/// Whether one of the ranges holds the offset `o`.
spec fn in_ranges(rs: Seq<AckedRange>, o: int) -> bool {
    exists|j: int| 0 <= j < rs.len() && (#[trigger] rs[j]).start <= o < rs[j].end
}

/// The index of a range that holds the offset `o`.
spec fn range_of(rs: Seq<AckedRange>, o: int) -> int {
    choose|j: int| 0 <= j < rs.len() && (#[trigger] rs[j]).start <= o < rs[j].end
}

/// Send side of a stream.
#[derive(Debug)]
pub struct SendBuffer {
    base: u64,
    buf: Vec<u8>,
    acked: Vec<AckedRange>,
}

impl View for SendBuffer {
    type V = SendView;

    closed spec fn view(&self) -> SendView {
        SendView {
            released: self.base as int,
            retained: self.buf@,
            outstanding: Set::new(
                |o: int| self.base <= o < self.base + self.buf@.len() && !in_ranges(self.acked@, o),
            ),
        }
    }
}

impl SendBuffer {
    /// The invariant of the buffer: the acknowledged ranges lie among the
    /// retained bytes and beyond the first of them.
    pub closed spec fn wf(&self) -> bool {
        &&& self.base + self.buf@.len() <= STREAM_MAX
        &&& forall|j: int|
            0 <= j < self.acked@.len() ==> self.base < (#[trigger] self.acked@[j]).start
                < self.acked@[j].end <= self.base + self.buf@.len()
    }

    /// A well-formed buffer has a well-formed model.
    pub proof fn lemma_view_wf(&self)
        requires
            self.wf(),
        ensures
            self@.wf(),
    {
        if self.base < self.base + self.buf@.len() {
            if in_ranges(self.acked@, self.base as int) {
                let j = range_of(self.acked@, self.base as int);
                assert(self.base < self.acked@[j].start);
            }
        }
    }

    /// A buffer into which nothing was queued.
    pub fn new() -> (b: SendBuffer)
        ensures
            b.wf(),
            b@ == SendView::empty(),
    {
        let b = SendBuffer { base: 0, buf: Vec::new(), acked: Vec::new() };
        assert(b@.outstanding =~= Set::<int>::empty());
        b
    }

    /// Number of bytes queued so far.
    pub fn tx_offset(&self) -> (n: u64)
        requires
            self.wf(),
        ensures
            n == self@.tx_offset(),
    {
        self.base + self.buf.len() as u64
    }

    /// Offset below which everything was acknowledged.
    pub fn released(&self) -> (n: u64)
        ensures
            n == self@.released,
    {
        self.base
    }

    /// Whether everything that was queued has been acknowledged.
    pub fn fully_acked(&self) -> (b: bool)
        requires
            self.wf(),
        ensures
            b == (self@.outstanding == Set::<int>::empty()),
    {
        proof {
            self.lemma_view_wf();
            if self.buf@.len() == 0 {
                assert(self@.outstanding =~= Set::<int>::empty());
            } else {
            }
        }
        self.buf.len() == 0
    }

    /// Queues `data` behind what was queued before and returns the range
    /// of offsets that it occupies, as its start and its end.
    ///
    /// Fails with [`Error::FinalSizeViolation`], changing nothing, exactly
    /// when the data would end beyond the largest stream offset.
    pub fn queue(&mut self, data: &[u8]) -> (r: Res<(u64, u64)>)
        requires
            old(self).wf(),
        ensures
            final(self).wf(),
            old(self)@.tx_offset() + data@.len() > STREAM_MAX ==> r == Err::<(u64, u64), Error>(
                Error::FinalSizeViolation,
            ) && final(self)@ == old(self)@,
            old(self)@.tx_offset() + data@.len() <= STREAM_MAX ==> r == Ok::<(u64, u64), Error>(
                (old(self)@.tx_offset() as u64, (old(self)@.tx_offset() + data@.len()) as u64),
            ) && final(self)@ == old(self)@.queued(data@),
    {
        let start: u64 = self.tx_offset();
        let len: u64 = data.len() as u64;
        if len > STREAM_MAX - start {
            return Err(Error::FinalSizeViolation);
        }
        let mut i: usize = 0;
        while i < data.len()
            invariant
                i <= data@.len(),
                self.base == old(self).base,
                self.acked == old(self).acked,
                self.buf@ == old(self).buf@ + data@.subrange(0, i as int),
            decreases data@.len() - i,
        {
            self.buf.push(data[i]);
            i += 1;
        }
        assert(data@.subrange(0, i as int) =~= data@);
        assert(self@.outstanding =~= old(self)@.queued(data@).outstanding);
        Ok((start, start + len))
    }

    /// Takes note that the peer acknowledged the offsets from `start` up
    /// to `end`, and releases the bytes below the lowest offset that is
    /// still outstanding. Offsets that are not outstanding are ignored.
    pub fn mark_acked(&mut self, start: u64, end: u64)
        requires
            old(self).wf(),
        ensures
            final(self).wf(),
            final(self)@ == old(self)@.acked(start as int, end as int),
    {
        let ghost v0 = self@;
        let ghost base0 = self.base as int;
        let ghost rs0 = self.acked@;
        let tx: u64 = self.tx_offset();
        let s: u64 = if start > self.base {
            start
        } else {
            self.base
        };
        let e: u64 = if end < tx {
            end
        } else {
            tx
        };
        if s < e {
            self.acked.push(AckedRange { start: s, end: e });
        }
        let ghost rs1 = self.acked@;
        assert forall|o: int| base0 <= o < tx implies (in_ranges(rs1, o) <==> in_ranges(rs0, o) || (
        start <= o < end)) by {
            if in_ranges(rs0, o) {
                let j = range_of(rs0, o);
                assert(rs1[j] == rs0[j]);
            }
            if start <= o < end {
                assert(rs1[rs1.len() - 1].start <= o < rs1[rs1.len() - 1].end);
            }
            if in_ranges(rs1, o) {
                let j = range_of(rs1, o);
                if j < rs0.len() {
                    assert(rs0[j] == rs1[j]);
                }
            }
        }
        // move the base past the acknowledged ranges that reach it
        let mut i: usize = 0;
        while i < self.acked.len()
            invariant
                self.buf == old(self).buf,
                tx == base0 + self.buf@.len(),
                tx <= STREAM_MAX,
                base0 <= self.base <= tx,
                i <= self.acked@.len(),
                forall|j: int|
                    0 <= j < self.acked@.len() ==> base0 <= (#[trigger] self.acked@[j]).start
                        < self.acked@[j].end <= tx,
                forall|j: int| 0 <= j < i ==> self.base < (#[trigger] self.acked@[j]).start,
                forall|o: int| base0 <= o < self.base ==> in_ranges(rs1, o),
                forall|o: int| self.base <= o ==> (in_ranges(self.acked@, o) <==> in_ranges(rs1, o)),
            decreases self.acked@.len(), self.acked@.len() - i,
        {
            let r_start: u64 = self.acked[i].start;
            let r_end: u64 = self.acked[i].end;
            if r_start <= self.base {
                let ghost before = self.acked@;
                let moved: bool = r_end > self.base;
                if moved {
                    self.base = r_end;
                }
                self.acked.swap_remove(i);
                proof {
                    let after = self.acked@;
                    assert forall|o: int| self.base <= o implies (in_ranges(after, o)
                        <==> in_ranges(rs1, o)) by {
                        if in_ranges(after, o) {
                            let j = range_of(after, o);
                            if j == i {
                                assert(after[j] == before[before.len() - 1]);
                            } else {
                                assert(after[j] == before[j]);
                            }
                        }
                        if in_ranges(before, o) {
                            let j = range_of(before, o);
                            if j == before.len() - 1 {
                                assert(after[i as int] == before[j]);
                            } else {
                                assert(after[j] == before[j]);
                            }
                        }
                    }
                }
                if moved {
                    i = 0;
                }
            } else {
                i += 1;
            }
        }
        let drop: usize = (self.base - (tx - self.buf.len() as u64)) as usize;
        let rest = self.buf.split_off(drop);
        self.buf = rest;
        proof {
            let out1 = v0.outstanding.difference(Set::new(|o: int| start <= o < end));
            if self.base < tx {
                if in_ranges(rs1, self.base as int) {
                    let j = range_of(self.acked@, self.base as int);
                    assert(self.base < self.acked@[j].start);
                }
            }
            lemma_next_outstanding(out1, base0, tx as int, self.base as int);
            assert(self@.outstanding =~= out1);
        }
    }

    /// A copy of the `len` retained bytes at `offset`, for sending them
    /// again; `None` where the range does not lie among the retained bytes.
    pub fn read_at(&self, offset: u64, len: usize) -> (r: Option<Vec<u8>>)
        requires
            self.wf(),
        ensures
            match r {
                Some(d) => self@.released <= offset && offset + len <= self@.tx_offset() && d@
                    == self@.retained.subrange(
                    offset - self@.released,
                    offset - self@.released + len,
                ),
                None => !(self@.released <= offset && offset + len <= self@.tx_offset()),
            },
    {
        if offset < self.base {
            return None;
        }
        let from: u64 = offset - self.base;
        let have: u64 = self.buf.len() as u64;
        if from > have || len as u64 > have - from {
            return None;
        }
        let i: usize = from as usize;
        Some(slice_to_vec(slice_subrange(self.buf.as_slice(), i, i + len)))
    }
}

} // verus!
