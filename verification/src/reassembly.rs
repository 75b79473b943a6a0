//! Reassembly of a stream, as mathematics: the model of a reassembler
//! and the laws of insertion.
//!
//! The model ([`ReassemblerView`]) is the offset up to which the stream is
//! contiguous, the contiguous bytes that were not read yet, the bytes
//! buffered beyond the first gap as a map from offset to byte, and the
//! final size once it is known. Insertion is stated on that model
//! ([`ReassemblerView::insert`]). The laws say that the contiguous offset
//! never moves backwards, that inserting a range twice is inserting it
//! once, and that the order of insertion does not matter.

use vstd::prelude::*;
use crate::error::Error;

verus! {

/// Largest offset that the end of stream data can have.
pub const STREAM_MAX: u64 = 0x3FFF_FFFF_FFFF_FFFF;

/// The first offset at or after `from` that `covered` does not hold (at
/// most [`STREAM_MAX`]).
pub open spec fn first_gap(covered: Set<int>, from: int) -> int
    decreases STREAM_MAX - from,
{
    if from < STREAM_MAX && covered.contains(from) {
        first_gap(covered, from + 1)
    } else {
        from
    }
}

/// Everything from `from` up to the first gap is covered, and the gap is not.
pub proof fn lemma_first_gap(covered: Set<int>, from: int)
    requires
        from <= STREAM_MAX,
    ensures
        from <= first_gap(covered, from) <= STREAM_MAX,
        forall|o: int| from <= o < first_gap(covered, from) ==> covered.contains(o),
        first_gap(covered, from) < STREAM_MAX ==> !covered.contains(first_gap(covered, from)),
    decreases STREAM_MAX - from,
{
    if from < STREAM_MAX && covered.contains(from) {
        lemma_first_gap(covered, from + 1);
    }
}

/// The first gap is the only offset that is not covered while everything
/// before it is.
pub proof fn lemma_first_gap_unique(covered: Set<int>, from: int, gap: int)
    requires
        from <= gap <= STREAM_MAX,
        forall|o: int| from <= o < gap ==> covered.contains(o),
        gap < STREAM_MAX ==> !covered.contains(gap),
    ensures
        first_gap(covered, from) == gap,
    decreases gap - from,
{
    if from < gap {
        lemma_first_gap_unique(covered, from + 1, gap);
    }
}

/// The first gap depends only on what is covered from `from` on.
pub proof fn lemma_first_gap_congruent(a: Set<int>, b: Set<int>, from: int)
    requires
        from <= STREAM_MAX,
        forall|o: int| from <= o ==> (a.contains(o) <==> b.contains(o)),
    ensures
        first_gap(a, from) == first_gap(b, from),
{
    lemma_first_gap(a, from);
    lemma_first_gap_unique(b, from, first_gap(a, from));
}

/// The mathematical state of a reassembler.
pub struct ReassemblerView {
    /// Offset up to which the stream has been made readable.
    pub next_rx_offset: int,
    /// Contiguous bytes, ending at `next_rx_offset`, that wait to be read.
    pub readable: Seq<u8>,
    /// Bytes received beyond the first gap, by offset.
    pub buffered: Map<int, u8>,
    /// Final size of the stream, once known.
    pub fin_offset: Option<int>,
}

impl ReassemblerView {
    /// A reassembler that has received nothing.
    pub open spec fn empty() -> ReassemblerView {
        ReassemblerView {
            next_rx_offset: 0,
            readable: Seq::empty(),
            buffered: Map::empty(),
            fin_offset: None,
        }
    }

    /// The invariant of the model: the readable bytes end at the
    /// contiguous offset, every buffered byte lies strictly beyond it (the
    /// byte at the offset itself is the gap), and nothing lies beyond a
    /// known final size.
    pub open spec fn wf(self) -> bool {
        &&& 0 <= self.readable.len() <= self.next_rx_offset <= STREAM_MAX
        &&& forall|o: int| #[trigger]
            self.buffered.contains_key(o) ==> self.next_rx_offset < o < STREAM_MAX
        &&& self.fin_offset matches Some(f) ==> {
            &&& self.next_rx_offset <= f <= STREAM_MAX
            &&& forall|o: int| #[trigger] self.buffered.contains_key(o) ==> o < f
        }
    }

    /// Whether a byte at offset `end` or beyond was received.
    pub open spec fn received_beyond(self, end: int) -> bool {
        self.next_rx_offset > end || exists|o: int| #[trigger]
            self.buffered.contains_key(o) && o >= end
    }

    /// Whether `data` at `offset` contradicts a buffered byte.
    pub open spec fn conflicts(self, offset: int, data: Seq<u8>) -> bool {
        exists|o: int| #[trigger]
            self.buffered.contains_key(o) && offset <= o < offset + data.len() && self.buffered[o]
                != data[o - offset]
    }

    /// The error, if any, with which the insertion of `data` at `offset`
    /// is refused:
    /// - data that ends beyond the largest stream offset, or beyond a
    ///   known final size, or a final size that differs from the known
    ///   one or lies below bytes already received, violates the final size;
    /// - data that differs from a buffered byte at the same offset is a
    ///   conflict.
    pub open spec fn insert_error(self, offset: int, data: Seq<u8>, fin: bool) -> Option<Error> {
        let end = offset + data.len();
        if end > STREAM_MAX {
            Some(Error::FinalSizeViolation)
        } else if self.fin_offset matches Some(f) && (end > f || (fin && end != f)) {
            Some(Error::FinalSizeViolation)
        } else if fin && self.received_beyond(end) {
            Some(Error::FinalSizeViolation)
        } else if self.conflicts(offset, data) {
            Some(Error::StreamDataConflict)
        } else {
            None
        }
    }

    /// The buffered bytes together with those bytes of `data` at `offset`
    /// that lie at or beyond the contiguous offset.
    pub open spec fn merged(self, offset: int, data: Seq<u8>) -> Map<int, u8> {
        Map::new(
            |o: int|
                self.buffered.contains_key(o) || (self.next_rx_offset <= o && offset <= o < offset
                    + data.len()),
            |o: int|
                if self.buffered.contains_key(o) {
                    self.buffered[o]
                } else {
                    data[o - offset]
                },
        )
    }

    /// The state after `data` at `offset` was accepted: the contiguous
    /// offset moves to the first gap of the merged bytes, the bytes up to
    /// it become readable, and the bytes beyond it stay buffered.
    pub open spec fn inserted(self, offset: int, data: Seq<u8>, fin: bool) -> ReassemblerView {
        let all = self.merged(offset, data);
        let next = first_gap(all.dom(), self.next_rx_offset);
        ReassemblerView {
            next_rx_offset: next,
            readable: self.readable + Seq::new(
                (next - self.next_rx_offset) as nat,
                |i: int| all[self.next_rx_offset + i],
            ),
            buffered: all.restrict(Set::new(|o: int| o > next)),
            fin_offset: if fin {
                Some(offset + data.len())
            } else {
                self.fin_offset
            },
        }
    }

    /// Insertion of the byte range `data` at `offset`, with `fin` set
    /// where the range ends the stream.
    pub open spec fn insert(self, offset: int, data: Seq<u8>, fin: bool) -> Result<
        ReassemblerView,
        Error,
    > {
        match self.insert_error(offset, data, fin) {
            Some(e) => Err(e),
            None => Ok(self.inserted(offset, data, fin)),
        }
    }

    /// The state after the readable bytes were handed out.
    pub open spec fn drained(self) -> ReassemblerView {
        ReassemblerView { readable: Seq::empty(), ..self }
    }

    /// Whether the whole stream, up to its final size, has been made readable.
    pub open spec fn closed_for_reading(self) -> bool {
        self.fin_offset == Some(self.next_rx_offset)
    }
}

// ---------------------------------------------------------------------
// Laws of the model
// ---------------------------------------------------------------------

/// An accepted insertion leaves a well-formed state, and the contiguous
/// offset never moves backwards.
pub proof fn lemma_inserted_wf(v: ReassemblerView, offset: int, data: Seq<u8>, fin: bool)
    requires
        v.wf(),
        0 <= offset,
        v.insert_error(offset, data, fin) is None,
    ensures
        v.inserted(offset, data, fin).wf(),
        v.inserted(offset, data, fin).next_rx_offset >= v.next_rx_offset,
        v.inserted(offset, data, fin).next_rx_offset - v.inserted(offset, data, fin).readable.len()
            == v.next_rx_offset - v.readable.len(),
{
    let all = v.merged(offset, data);
    let w = v.inserted(offset, data, fin);
    lemma_first_gap(all.dom(), v.next_rx_offset);
    if w.fin_offset is Some {
        if w.next_rx_offset > v.next_rx_offset {
            let o = w.next_rx_offset - 1;
            assert(all.contains_key(o));
        } else if fin {
            assert(!v.received_beyond(offset + data.len()));
        }
    }
}

/// One operation on a reassembler.
pub enum Operation {
    /// The insertion of the byte range `data` at `offset`.
    Insert { offset: int, data: Seq<u8>, fin: bool },
    /// A read of the readable bytes.
    Read,
}

impl ReassemblerView {
    /// The state after one operation; an insertion that is refused
    /// changes nothing.
    pub open spec fn after(self, op: Operation) -> ReassemblerView {
        match op {
            Operation::Insert { offset, data, fin } => match self.insert(offset, data, fin) {
                Ok(v) => v,
                Err(_) => self,
            },
            Operation::Read => self.drained(),
        }
    }

    /// The state after a sequence of operations.
    pub open spec fn after_all(self, ops: Seq<Operation>) -> ReassemblerView
        decreases ops.len(),
    {
        if ops.len() == 0 {
            self
        } else {
            self.after_all(ops.drop_last()).after(ops.last())
        }
    }
}

/// Monotonicity: across any sequence of insertions, accepted or refused,
/// and reads, the contiguous offset never decreases, and neither does the
/// offset up to which the stream was read. The state stays well-formed.
pub proof fn lemma_next_rx_offset_monotonic(v: ReassemblerView, ops: Seq<Operation>)
    requires
        v.wf(),
        forall|i: int| 0 <= i < ops.len() ==> (#[trigger] ops[i] matches Operation::Insert {
            offset,
            ..
        } ==> 0 <= offset),
    ensures
        v.after_all(ops).wf(),
        v.after_all(ops).next_rx_offset >= v.next_rx_offset,
        v.after_all(ops).next_rx_offset - v.after_all(ops).readable.len() >= v.next_rx_offset
            - v.readable.len(),
    decreases ops.len(),
{
    if ops.len() > 0 {
        let init = ops.drop_last();
        lemma_next_rx_offset_monotonic(v, init);
        let w = v.after_all(init);
        match ops.last() {
            Operation::Insert { offset, data, fin } => {
                if w.insert_error(offset, data, fin) is None {
                    lemma_inserted_wf(w, offset, data, fin);
                }
            },
            Operation::Read => {},
        }
    }
}

/// Idempotence: inserting a range twice leaves the state that inserting
/// it once leaves. A range that was accepted is accepted again, and a
/// range that was refused has changed nothing.
pub proof fn lemma_insert_idempotent(v: ReassemblerView, offset: int, data: Seq<u8>, fin: bool)
    requires
        v.wf(),
        0 <= offset,
    ensures
        v.after(Operation::Insert { offset, data, fin }).after(
            Operation::Insert { offset, data, fin },
        ) == v.after(Operation::Insert { offset, data, fin }),
        v.insert(offset, data, fin) matches Ok(w) ==> w.insert(offset, data, fin) == Ok::<
            ReassemblerView,
            Error,
        >(w),
{
    if v.insert_error(offset, data, fin) is None {
        lemma_insert_accepted_twice(v, offset, data, fin);
    }
}

/// A range that was accepted is accepted again, and the second insertion
/// changes nothing.
proof fn lemma_insert_accepted_twice(v: ReassemblerView, offset: int, data: Seq<u8>, fin: bool)
    requires
        v.wf(),
        0 <= offset,
        v.insert(offset, data, fin) is Ok,
    ensures
        v.insert(offset, data, fin).unwrap().insert(offset, data, fin) == v.insert(
            offset,
            data,
            fin,
        ),
{
    let all = v.merged(offset, data);
    let w = v.inserted(offset, data, fin);
    lemma_inserted_wf(v, offset, data, fin);
    lemma_first_gap(all.dom(), v.next_rx_offset);
    let all2 = w.merged(offset, data);
    lemma_first_gap_unique(all2.dom(), w.next_rx_offset, w.next_rx_offset);
    let w2 = w.inserted(offset, data, fin);
    assert(w2.buffered =~= w.buffered);
}

/// A byte range of a stream: `data` starts at `offset`.
pub struct Segment {
    pub offset: int,
    pub data: Seq<u8>,
}

impl Segment {
    /// Whether the range holds the byte at offset `o`.
    pub open spec fn covers(self, o: int) -> bool {
        self.offset <= o < self.offset + self.data.len()
    }

    /// The byte of the range at offset `o`.
    pub open spec fn byte(self, o: int) -> u8 {
        self.data[o - self.offset]
    }
}

/// Every range lies within the offsets that a stream can have.
pub open spec fn segments_valid(segs: Seq<Segment>) -> bool {
    forall|i: int|
        0 <= i < segs.len() ==> 0 <= (#[trigger] segs[i]).offset && segs[i].offset
            + segs[i].data.len() <= STREAM_MAX
}

/// Any two ranges hold the same byte wherever they overlap.
pub open spec fn segments_consistent(segs: Seq<Segment>) -> bool {
    forall|i: int, j: int, o: int|
        #![trigger segs[i].covers(o), segs[j].covers(o)]
        0 <= i < segs.len() && 0 <= j < segs.len() && segs[i].covers(o) && segs[j].covers(o)
            ==> segs[i].byte(o) == segs[j].byte(o)
}

/// Whether one of the ranges holds the byte at offset `o`.
pub open spec fn union_covers(segs: Seq<Segment>, o: int) -> bool {
    exists|i: int| 0 <= i < segs.len() && (#[trigger] segs[i]).covers(o)
}

/// The byte at offset `o` in a range that holds it.
pub open spec fn union_byte(segs: Seq<Segment>, o: int) -> u8 {
    let i = choose|i: int| 0 <= i < segs.len() && (#[trigger] segs[i]).covers(o);
    segs[i].byte(o)
}

/// The outcome of inserting the ranges one after the other, none of them
/// with the final flag; the first error ends it.
pub open spec fn insert_all(v: ReassemblerView, segs: Seq<Segment>) -> Result<
    ReassemblerView,
    Error,
>
    decreases segs.len(),
{
    if segs.len() == 0 {
        Ok(v)
    } else {
        match insert_all(v, segs.drop_last()) {
            Ok(w) => w.insert(segs.last().offset, segs.last().data, false),
            Err(e) => Err(e),
        }
    }
}

/// The state that the union of the ranges determines: the union is
/// readable up to its first gap and buffered beyond it.
pub open spec fn reassembled(segs: Seq<Segment>) -> ReassemblerView {
    let next = first_gap(Set::new(|o: int| union_covers(segs, o)), 0);
    ReassemblerView {
        next_rx_offset: next,
        readable: Seq::new(next as nat, |o: int| union_byte(segs, o)),
        buffered: Map::new(|o: int| o > next && union_covers(segs, o), |o: int| union_byte(segs, o)),
        fin_offset: None,
    }
}

/// The byte of the union at an offset is the byte of whichever range
/// holds the offset.
proof fn lemma_union_byte(segs: Seq<Segment>, i: int, o: int)
    requires
        segments_consistent(segs),
        0 <= i < segs.len(),
        segs[i].covers(o),
    ensures
        union_covers(segs, o),
        union_byte(segs, o) == segs[i].byte(o),
{
}

/// The search for the first gap can start behind what is covered.
proof fn lemma_first_gap_skip(covered: Set<int>, mid: int)
    requires
        0 <= mid <= STREAM_MAX,
        forall|o: int| 0 <= o < mid ==> covered.contains(o),
    ensures
        first_gap(covered, 0) == first_gap(covered, mid),
{
    lemma_first_gap(covered, mid);
    let g = first_gap(covered, mid);
    lemma_first_gap_unique(covered, 0, g);
}

/// The state that ranges determine is well-formed, and nothing of it
/// was read.
proof fn lemma_reassembled_wf(segs: Seq<Segment>)
    requires
        segments_valid(segs),
    ensures
        reassembled(segs).wf(),
        reassembled(segs).readable.len() == reassembled(segs).next_rx_offset,
{
    let cov = Set::new(|o: int| union_covers(segs, o));
    lemma_first_gap(cov, 0);
    let w = reassembled(segs);
}

/// Confluence, in closed form: inserting consistent ranges, in the order
/// in which they are listed, never fails and ends in the state that their
/// union determines. The readable prefix is the union of the ranges, byte
/// for byte, up to its first gap.
pub proof fn lemma_reassembly(segs: Seq<Segment>)
    requires
        segments_valid(segs),
        segments_consistent(segs),
    ensures
        insert_all(ReassemblerView::empty(), segs) == Ok::<ReassemblerView, Error>(
            reassembled(segs),
        ),
    decreases segs.len(),
{
    let cov = Set::new(|o: int| union_covers(segs, o));
    if segs.len() == 0 {
        let w = reassembled(segs);
        assert(w.readable =~= Seq::<u8>::empty());
        assert(w.buffered =~= Map::<int, u8>::empty());
    } else {
        let init = segs.drop_last();
        let last = segs.last();
        let n = init.len() as int;
        assert forall|i: int| 0 <= i < init.len() implies init[i] == segs[i] by {}
        lemma_reassembly(init);
        lemma_reassembled_wf(init);
        let w = reassembled(init);
        let cov0 = Set::new(|o: int| union_covers(init, o));
        lemma_first_gap(cov0, 0);
        // the bytes of the larger union
        assert forall|o: int| union_covers(init, o) implies union_byte(init, o) == union_byte(
            segs,
            o,
        ) by {
            let i = choose|i: int| 0 <= i < init.len() && (#[trigger] init[i]).covers(o);
            lemma_union_byte(segs, i, o);
        }
        assert forall|o: int| last.covers(o) implies last.byte(o) == union_byte(segs, o) by {
            lemma_union_byte(segs, n, o);
        }
        // the insertion gives the state of the larger union
        let all = w.merged(last.offset, last.data);
        lemma_first_gap_congruent(all.dom(), cov, w.next_rx_offset);
        assert forall|o: int| 0 <= o < w.next_rx_offset implies cov.contains(o) by {
            assert(cov0.contains(o));
        }
        lemma_first_gap_skip(cov, w.next_rx_offset);
        lemma_first_gap(cov, w.next_rx_offset);
        let got = w.inserted(last.offset, last.data, false);
        let want = reassembled(segs);
        assert(got.readable =~= want.readable) by {
            assert forall|o: int| 0 <= o < want.readable.len() implies got.readable[o]
                == want.readable[o] by {
                if o < w.next_rx_offset {
                    assert(cov0.contains(o));
                } else {
                    assert(cov.contains(o));
                }
            }
        }
        assert(got.buffered =~= want.buffered);
    }
}

/// The buffered bytes together with those bytes of two ranges that lie at
/// or beyond the contiguous offset.
pub open spec fn merged_pair(v: ReassemblerView, a: Segment, b: Segment) -> Map<int, u8> {
    Map::new(
        |o: int| v.buffered.contains_key(o) || (v.next_rx_offset <= o && (a.covers(o) || b.covers(o))),
        |o: int|
            if v.buffered.contains_key(o) {
                v.buffered[o]
            } else if a.covers(o) {
                a.byte(o)
            } else {
                b.byte(o)
            },
    )
}

/// The state that two ranges, merged with what is buffered, determine.
pub open spec fn inserted_pair(v: ReassemblerView, a: Segment, b: Segment) -> ReassemblerView {
    let all = merged_pair(v, a, b);
    let next = first_gap(all.dom(), v.next_rx_offset);
    ReassemblerView {
        next_rx_offset: next,
        readable: v.readable + Seq::new(
            (next - v.next_rx_offset) as nat,
            |i: int| all[v.next_rx_offset + i],
        ),
        buffered: all.restrict(Set::new(|o: int| o > next)),
        fin_offset: v.fin_offset,
    }
}

/// Two ranges that are each accepted, and that agree where they overlap,
/// are accepted one after the other, and leave the state that both
/// together determine.
proof fn lemma_insert_pair(v: ReassemblerView, a: Segment, b: Segment)
    requires
        v.wf(),
        0 <= a.offset,
        0 <= b.offset,
        v.insert_error(a.offset, a.data, false) is None,
        v.insert_error(b.offset, b.data, false) is None,
        forall|o: int| a.covers(o) && b.covers(o) ==> a.byte(o) == b.byte(o),
    ensures
        v.inserted(a.offset, a.data, false).insert(b.offset, b.data, false) == Ok::<
            ReassemblerView,
            Error,
        >(inserted_pair(v, a, b)),
{
    let all_a = v.merged(a.offset, a.data);
    let w = v.inserted(a.offset, a.data, false);
    lemma_inserted_wf(v, a.offset, a.data, false);
    lemma_first_gap(all_a.dom(), v.next_rx_offset);
    assert(!w.conflicts(b.offset, b.data)) by {
        if w.conflicts(b.offset, b.data) {
            let o = choose|o: int| #[trigger]
                w.buffered.contains_key(o) && b.offset <= o < b.offset + b.data.len()
                    && w.buffered[o] != b.data[o - b.offset];
            assert(all_a.contains_key(o));
            assert(b.covers(o));
            if v.buffered.contains_key(o) {
                assert(!v.conflicts(b.offset, b.data));
            } else {
                assert(a.covers(o));
            }
        }
    }
    assert(w.insert_error(b.offset, b.data, false) is None);
    let all = w.merged(b.offset, b.data);
    let both = merged_pair(v, a, b);
    assert(!all_a.dom().contains(w.next_rx_offset)) by {
        if all_a.contains_key(w.next_rx_offset) {
            assert(w.next_rx_offset == STREAM_MAX);
        }
    }
    assert forall|o: int| w.next_rx_offset <= o implies (all.dom().contains(o)
        <==> both.dom().contains(o)) by {
        if both.dom().contains(o) && !all.dom().contains(o) {
            assert(all_a.contains_key(o));
        }
    }
    lemma_first_gap_congruent(all.dom(), both.dom(), w.next_rx_offset);
    assert forall|o: int| v.next_rx_offset <= o < w.next_rx_offset implies both.dom().contains(
        o,
    ) by {
        assert(all_a.dom().contains(o));
    }
    lemma_first_gap(both.dom(), w.next_rx_offset);
    lemma_first_gap_unique(
        both.dom(),
        v.next_rx_offset,
        first_gap(both.dom(), w.next_rx_offset),
    );
    let got = w.inserted(b.offset, b.data, false);
    let want = inserted_pair(v, a, b);
    assert(got.next_rx_offset == want.next_rx_offset);
    assert(got.readable =~= want.readable) by {
        assert forall|i: int| 0 <= i < want.readable.len() implies got.readable[i]
            == want.readable[i] by {
            let o = v.next_rx_offset + (i - v.readable.len());
            if i >= v.readable.len() {
                if o < w.next_rx_offset {
                    assert(all_a.dom().contains(o));
                    assert(all_a.contains_key(o));
                } else {
                    lemma_first_gap(all.dom(), w.next_rx_offset);
                    assert(all.dom().contains(o));
                    assert(all.contains_key(o));
                    if w.buffered.contains_key(o) {
                        assert(all_a.contains_key(o));
                    }
                }
            }
        }
    }
    assert(got.buffered =~= want.buffered) by {
        assert forall|o: int| got.buffered.contains_key(o) implies got.buffered[o]
            == want.buffered[o] by {
            assert(all.contains_key(o));
            if w.buffered.contains_key(o) {
                assert(all_a.contains_key(o));
            }
        }
    }
}

/// Confluence, from any state: two ranges that are each accepted, and
/// that agree where they overlap, are accepted in either order and leave
/// the same state.
pub proof fn lemma_insert_commutes(v: ReassemblerView, a: Segment, b: Segment)
    requires
        v.wf(),
        0 <= a.offset,
        0 <= b.offset,
        v.insert(a.offset, a.data, false) is Ok,
        v.insert(b.offset, b.data, false) is Ok,
        forall|o: int| a.covers(o) && b.covers(o) ==> a.byte(o) == b.byte(o),
    ensures
        v.insert(a.offset, a.data, false).unwrap().insert(b.offset, b.data, false) is Ok,
        v.insert(a.offset, a.data, false).unwrap().insert(b.offset, b.data, false) == v.insert(
            b.offset,
            b.data,
            false,
        ).unwrap().insert(a.offset, a.data, false),
{
    lemma_insert_pair(v, a, b);
    lemma_insert_pair(v, b, a);
    let ab = merged_pair(v, a, b);
    let ba = merged_pair(v, b, a);
    assert(ab =~= ba);
}

/// Whether every range of `a` is one of `b`.
spec fn included(a: Seq<Segment>, b: Seq<Segment>) -> bool {
    forall|i: int| 0 <= i < a.len() ==> b.contains(#[trigger] a[i])
}

/// Sequences with the same elements include each other.
proof fn lemma_included(a: Seq<Segment>, b: Seq<Segment>)
    requires
        a.to_multiset() == b.to_multiset(),
    ensures
        included(a, b),
{
    assert forall|i: int| 0 <= i < a.len() implies b.contains(#[trigger] a[i]) by {
        vstd::seq_lib::to_multiset_contains(a, a[i]);
        vstd::seq_lib::to_multiset_contains(b, a[i]);
    }
}

/// Ranges taken from valid and consistent ranges are valid and consistent.
proof fn lemma_included_consistent(a: Seq<Segment>, b: Seq<Segment>)
    requires
        segments_valid(a),
        segments_consistent(a),
        included(b, a),
    ensures
        segments_valid(b),
        segments_consistent(b),
{
}

/// Confluence: the order in which consistent ranges are inserted does not
/// affect the final state.
pub proof fn lemma_reassembly_order(a: Seq<Segment>, b: Seq<Segment>)
    requires
        segments_valid(a),
        segments_consistent(a),
        a.to_multiset() == b.to_multiset(),
    ensures
        insert_all(ReassemblerView::empty(), a) == insert_all(ReassemblerView::empty(), b),
{
    lemma_included(a, b);
    lemma_included(b, a);
    lemma_included_consistent(a, b);
    lemma_reassembly(a);
    lemma_reassembly(b);
    let ca = Set::new(|o: int| union_covers(a, o));
    let cb = Set::new(|o: int| union_covers(b, o));
    assert(ca =~= cb);
    let ra = reassembled(a);
    let rb = reassembled(b);
    lemma_first_gap(ca, 0);
    assert(ra.readable =~= rb.readable) by {
        assert forall|o: int| 0 <= o < ra.readable.len() implies ra.readable[o]
            == rb.readable[o] by {
            assert(ca.contains(o));
        }
    }
    assert(ra.buffered =~= rb.buffered);
}

} // verus!
