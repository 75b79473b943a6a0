//! One stream: an ordered, reliable sequence of bytes in each direction.
//!
//! A stream joins a receive side ([`Reassembler`]) and a send side
//! ([`SendBuffer`]), each with its own flow-control budget. On the receive
//! side the budget counts the highest offset that the peer has used; on
//! the send side it counts the bytes queued.

use vstd::prelude::*;
use crate::error::Error;
use crate::error::Res;
use crate::flow::FlowController;
use crate::flow::FlowView;
use crate::reassembler::Reassembler;
use crate::reassembly::ReassemblerView;
use crate::reassembly::STREAM_MAX;
use crate::reassembly::lemma_inserted_wf;
use crate::send_buffer::SendBuffer;
use crate::send_buffer::SendView;
use crate::send_buffer::lemma_acked_wf;

verus! {

/// The mathematical state of a stream.
pub struct StreamView {
    /// Receive side.
    pub rx: ReassemblerView,
    /// Send side.
    pub tx: SendView,
    /// Credit granted to the peer, counted by the highest offset received.
    pub rx_flow: FlowView,
    /// Credit granted by the peer, counted by the bytes queued.
    pub tx_flow: FlowView,
    /// Number of bytes beyond those read that the peer may send.
    pub rx_window: int,
    /// The read side was terminated by the peer.
    pub read_closed: bool,
    /// The write side is finished or was terminated.
    pub write_closed: bool,
}

impl StreamView {
    /// A stream on which nothing happened, with `rx_window` bytes of
    /// credit granted to the peer and `tx_limit` bytes granted by it.
    pub open spec fn fresh(rx_window: int, tx_limit: int) -> StreamView {
        StreamView {
            rx: ReassemblerView::empty(),
            tx: SendView::empty(),
            rx_flow: FlowView { consumed: 0, limit: rx_window },
            tx_flow: FlowView { consumed: 0, limit: tx_limit },
            rx_window,
            read_closed: false,
            write_closed: false,
        }
    }

    /// The invariant of the model: the parts are well-formed, no credit
    /// reaches beyond the largest stream offset, and the send budget
    /// counts exactly the bytes queued.
    pub open spec fn wf(self) -> bool {
        &&& self.rx.wf()
        &&& self.tx.wf()
        &&& self.rx_flow.wf()
        &&& self.tx_flow.wf()
        &&& self.rx_flow.limit <= STREAM_MAX
        &&& self.tx_flow.limit <= STREAM_MAX
        &&& 0 <= self.rx_window <= STREAM_MAX
        &&& self.tx_flow.consumed == self.tx.tx_offset()
    }

    /// The credit that data ending at offset `end` uses up: the distance
    /// by which it passes the highest offset received so far.
    pub open spec fn inbound_credit(self, end: int) -> int {
        if end > self.rx_flow.consumed {
            end - self.rx_flow.consumed
        } else {
            0
        }
    }

    /// The error, if any, with which inbound data is refused. Data on a
    /// stream whose read side was terminated is never refused.
    pub open spec fn inbound_error(self, offset: int, data: Seq<u8>, fin: bool) -> Option<Error> {
        let end = offset + data.len();
        if self.read_closed {
            None
        } else if end > STREAM_MAX {
            Some(Error::FinalSizeViolation)
        } else if !self.rx_flow.admits(self.inbound_credit(end)) {
            Some(Error::FlowControlViolation)
        } else {
            self.rx.insert_error(offset, data, fin)
        }
    }

    /// The state after inbound data was accepted: discarded where the
    /// read side was terminated, else charged to the budget and inserted.
    pub open spec fn inbound_applied(self, offset: int, data: Seq<u8>, fin: bool) -> StreamView {
        let end = offset + data.len();
        if self.read_closed {
            self
        } else {
            StreamView {
                rx: self.rx.inserted(offset, data, fin),
                rx_flow: FlowView {
                    consumed: self.rx_flow.consumed + self.inbound_credit(end),
                    ..self.rx_flow
                },
                ..self
            }
        }
    }

    /// Whether nothing is left to read, now or later.
    pub open spec fn read_finished(self) -> bool {
        self.read_closed || (self.rx.closed_for_reading() && self.rx.readable.len() == 0)
    }

    /// The limit to which the credit of the peer is raised once the
    /// readable bytes are read: the window beyond what was read.
    pub open spec fn read_limit(self) -> int {
        let want = self.rx.next_rx_offset + self.rx_window;
        let capped = if want > STREAM_MAX {
            STREAM_MAX as int
        } else {
            want
        };
        if capped > self.rx_flow.limit {
            capped
        } else {
            self.rx_flow.limit
        }
    }

    /// The state after the readable bytes were read.
    pub open spec fn read_applied(self) -> StreamView {
        StreamView {
            rx: self.rx.drained(),
            rx_flow: FlowView { limit: self.read_limit(), ..self.rx_flow },
            ..self
        }
    }

    /// The error, if any, with which a write of `len` bytes is refused.
    pub open spec fn write_error(self, len: int) -> Option<Error> {
        if self.write_closed {
            Some(Error::StreamClosed)
        } else if !self.tx_flow.admits(len) {
            Some(Error::FlowControlViolation)
        } else {
            None
        }
    }

    /// The state after `data` was queued for sending, with `fin` where it
    /// ends the stream.
    pub open spec fn write_applied(self, data: Seq<u8>, fin: bool) -> StreamView {
        StreamView {
            tx: self.tx.queued(data),
            tx_flow: FlowView { consumed: self.tx_flow.consumed + data.len(), ..self.tx_flow },
            write_closed: fin,
            ..self
        }
    }

    /// The state after the peer advertised a send limit; a limit beyond
    /// the largest stream offset counts as that offset.
    pub open spec fn credited(self, new_limit: int) -> StreamView {
        StreamView {
            tx_flow: self.tx_flow.credit(
                if new_limit > STREAM_MAX {
                    STREAM_MAX as int
                } else {
                    new_limit
                },
            ),
            ..self
        }
    }

    /// Whether the stream has reached the end of its life: nothing is
    /// left to read, nothing more will be written, and everything written
    /// was acknowledged.
    pub open spec fn finished(self) -> bool {
        self.read_finished() && self.write_closed && self.tx.outstanding == Set::<int>::empty()
    }
}

/// The contiguous receive offset of a stream never decreases, whatever
/// arrives and whatever is read.
pub proof fn lemma_stream_rx_monotonic(v: StreamView, offset: int, data: Seq<u8>, fin: bool)
    requires
        v.wf(),
        0 <= offset,
        v.inbound_error(offset, data, fin) is None,
    ensures
        v.inbound_applied(offset, data, fin).wf(),
        v.inbound_applied(offset, data, fin).rx.next_rx_offset >= v.rx.next_rx_offset,
        v.read_applied().rx.next_rx_offset == v.rx.next_rx_offset,
        v.inbound_applied(offset, data, fin).rx_flow.consumed >= v.rx_flow.consumed,
{
    if !v.read_closed {
        lemma_inserted_wf(v.rx, offset, data, fin);
    }
}

/// One stream of a connection.
#[derive(Debug)]
pub struct Stream {
    rx: Reassembler,
    tx: SendBuffer,
    rx_flow: FlowController,
    tx_flow: FlowController,
    rx_window: u64,
    read_closed: bool,
    write_closed: bool,
}

impl View for Stream {
    type V = StreamView;

    closed spec fn view(&self) -> StreamView {
        StreamView {
            rx: self.rx@,
            tx: self.tx@,
            rx_flow: self.rx_flow@,
            tx_flow: self.tx_flow@,
            rx_window: self.rx_window as int,
            read_closed: self.read_closed,
            write_closed: self.write_closed,
        }
    }
}

/// `n`, cut down to the largest stream offset.
fn capped(n: u64) -> (r: u64)
    ensures
        r == if n > STREAM_MAX {
            STREAM_MAX
        } else {
            n
        },
{
    if n > STREAM_MAX {
        STREAM_MAX
    } else {
        n
    }
}

impl Stream {
    /// The invariant of the stream.
    pub closed spec fn wf(&self) -> bool {
        &&& self.rx.wf()
        &&& self.tx.wf()
        &&& self@.wf()
    }

    /// A well-formed stream has a well-formed model.
    pub proof fn lemma_view_wf(&self)
        requires
            self.wf(),
        ensures
            self@.wf(),
    {
    }

    /// A stream on which nothing happened. The peer may send up to
    /// `rx_window` bytes beyond what was read, and `tx_limit` bytes may be
    /// sent to it; either is cut down to the largest stream offset.
    pub fn new(rx_window: u64, tx_limit: u64) -> (s: Stream)
        ensures
            s.wf(),
            s@ == StreamView::fresh(
                if rx_window > STREAM_MAX {
                    STREAM_MAX as int
                } else {
                    rx_window as int
                },
                if tx_limit > STREAM_MAX {
                    STREAM_MAX as int
                } else {
                    tx_limit as int
                },
            ),
    {
        let w = capped(rx_window);
        let s = Stream {
            rx: Reassembler::new(),
            tx: SendBuffer::new(),
            rx_flow: FlowController::new(w),
            tx_flow: FlowController::new(capped(tx_limit)),
            rx_window: w,
            read_closed: false,
            write_closed: false,
        };
        proof {
            s.rx.lemma_view_wf();
            s.tx.lemma_view_wf();
        }
        s
    }

    /// Offset up to which the stream has been made readable.
    pub fn next_rx_offset(&self) -> (n: u64)
        ensures
            n == self@.rx.next_rx_offset,
    {
        self.rx.next_rx_offset()
    }

    /// Whether the read side was terminated by the peer.
    pub fn read_closed(&self) -> (b: bool)
        ensures
            b == self@.read_closed,
    {
        self.read_closed
    }

    /// Whether the write side is finished or was terminated.
    pub fn write_closed(&self) -> (b: bool)
        ensures
            b == self@.write_closed,
    {
        self.write_closed
    }

    /// Whether the credit that the peer granted for sending is used up.
    pub fn tx_blocked(&self) -> (b: bool)
        requires
            self.wf(),
        ensures
            b == (self@.tx_flow.available() == 0),
    {
        self.tx_flow.blocked()
    }

    /// The limit up to which the peer accepts data on this stream.
    pub fn tx_limit(&self) -> (n: u64)
        ensures
            n == self@.tx_flow.limit,
    {
        self.tx_flow.limit()
    }

    /// Whether nothing is left to read, now or later.
    pub fn read_finished(&self) -> (b: bool)
        ensures
            b == self@.read_finished(),
    {
        self.read_closed || (self.rx.closed_for_reading() && self.rx.available() == 0)
    }

    /// Whether the stream has reached the end of its life.
    pub fn finished(&self) -> (b: bool)
        requires
            self.wf(),
        ensures
            b == self@.finished(),
    {
        self.read_finished() && self.write_closed && self.tx.fully_acked()
    }

    /// The credit that data ending at offset `end` uses up.
    pub fn inbound_credit(&self, end: u64) -> (n: u64)
        ensures
            n == self@.inbound_credit(end as int),
    {
        let used = self.rx_flow.consumed();
        if end > used {
            end - used
        } else {
            0
        }
    }

    /// Takes in the byte range `data` at `offset` from the peer; `fin`
    /// says that the range ends the stream.
    ///
    /// Data on a stream whose read side was terminated is discarded. Any
    /// other data is charged to the receive budget by the distance by
    /// which it passes the highest offset received, and inserted. On an
    /// error the stream is unchanged.
    pub fn inbound(&mut self, offset: u64, data: &[u8], fin: bool) -> (r: Res<()>)
        requires
            old(self).wf(),
        ensures
            final(self).wf(),
            match old(self)@.inbound_error(offset as int, data@, fin) {
                Some(e) => r == Err::<(), Error>(e) && final(self)@ == old(self)@,
                None => r is Ok && final(self)@ == old(self)@.inbound_applied(
                    offset as int,
                    data@,
                    fin,
                ),
            },
    {
        if self.read_closed {
            return Ok(());
        }
        let len: u64 = data.len() as u64;
        if offset > STREAM_MAX || len > STREAM_MAX - offset {
            return Err(Error::FinalSizeViolation);
        }
        let need: u64 = self.inbound_credit(offset + len);
        if !self.rx_flow.admits(need) {
            return Err(Error::FlowControlViolation);
        }
        match self.rx.insert(offset, data, fin) {
            Ok(()) => {},
            Err(e) => {
                return Err(e);
            },
        }
        let _ = self.rx_flow.consume(need);
        proof {
            self.rx.lemma_view_wf();
        }
        Ok(())
    }

    /// Hands out the bytes that wait to be read and raises the credit of
    /// the peer to the window beyond what was read. Returns the bytes,
    /// and the new limit where the credit was raised.
    pub fn read(&mut self) -> (r: (Vec<u8>, Option<u64>))
        requires
            old(self).wf(),
        ensures
            final(self).wf(),
            final(self)@ == old(self)@.read_applied(),
            r.0@ == old(self)@.rx.readable,
            match r.1 {
                Some(limit) => limit == old(self)@.read_limit() && limit > old(self)@.rx_flow.limit,
                None => old(self)@.read_limit() == old(self)@.rx_flow.limit,
            },
    {
        proof {
            self.rx.lemma_view_wf();
        }
        let data = self.rx.read();
        let want: u64 = capped(self.rx.next_rx_offset() + self.rx_window);
        let raised = self.rx_flow.credit_received(want);
        let limit = if raised {
            Some(want)
        } else {
            None
        };
        proof {
            self.rx.lemma_view_wf();
        }
        (data, limit)
    }

    /// Queues `data` for sending, with `fin` where it ends the stream, and
    /// returns the range of offsets that it occupies.
    ///
    /// Fails with [`Error::StreamClosed`] where the write side is
    /// finished or was terminated, and with
    /// [`Error::FlowControlViolation`] where the data passes the credit
    /// granted by the peer; the stream is then unchanged.
    pub fn write(&mut self, data: &[u8], fin: bool) -> (r: Res<(u64, u64)>)
        requires
            old(self).wf(),
        ensures
            final(self).wf(),
            match old(self)@.write_error(data@.len() as int) {
                Some(e) => r == Err::<(u64, u64), Error>(e) && final(self)@ == old(self)@,
                None => r == Ok::<(u64, u64), Error>(
                    (
                        old(self)@.tx.tx_offset() as u64,
                        (old(self)@.tx.tx_offset() + data@.len()) as u64,
                    ),
                ) && final(self)@ == old(self)@.write_applied(data@, fin),
            },
    {
        if self.write_closed {
            return Err(Error::StreamClosed);
        }
        let len: u64 = data.len() as u64;
        if !self.tx_flow.admits(len) {
            return Err(Error::FlowControlViolation);
        }
        let range = match self.tx.queue(data) {
            Ok(x) => x,
            Err(e) => {
                return Err(e);
            },
        };
        let _ = self.tx_flow.consume(len);
        self.write_closed = fin;
        proof {
            self.tx.lemma_view_wf();
        }
        Ok(range)
    }

    /// Takes note of a send limit advertised by the peer. Returns whether
    /// the limit was raised.
    pub fn credit_received(&mut self, new_limit: u64) -> (raised: bool)
        requires
            old(self).wf(),
        ensures
            final(self).wf(),
            final(self)@ == old(self)@.credited(new_limit as int),
    {
        self.tx_flow.credit_received(capped(new_limit))
    }

    /// Terminates the read side: data that arrives from now on is discarded.
    pub fn reset_read(&mut self)
        requires
            old(self).wf(),
        ensures
            final(self).wf(),
            final(self)@ == (StreamView { read_closed: true, ..old(self)@ }),
    {
        self.read_closed = true;
    }

    /// Terminates the write side: nothing more can be written.
    pub fn stop_sending(&mut self)
        requires
            old(self).wf(),
        ensures
            final(self).wf(),
            final(self)@ == (StreamView { write_closed: true, ..old(self)@ }),
    {
        self.write_closed = true;
    }

    /// Takes note that the peer acknowledged the sent offsets from
    /// `start` up to `end`.
    pub fn mark_acked(&mut self, start: u64, end: u64)
        requires
            old(self).wf(),
        ensures
            final(self).wf(),
            final(self)@ == (StreamView {
                tx: old(self)@.tx.acked(start as int, end as int),
                ..old(self)@
            }),
    {
        proof {
            self.tx.lemma_view_wf();
            lemma_acked_wf(self.tx@, start as int, end as int);
        }
        self.tx.mark_acked(start, end);
    }
}

} // verus!
