//! Credit-based flow control.
//!
//! A controller counts what was consumed against a limit. The count only
//! grows and never passes the limit; the limit only grows. The same type
//! serves in both directions and at both scopes: for data sent against the
//! credit that the peer granted, and for data received against the credit
//! that was granted to the peer, for one stream or for the whole connection.

use vstd::prelude::*;
use crate::error::Error;
use crate::error::Res;

verus! {

/// The mathematical state of a flow controller.
pub struct FlowView {
    /// Amount consumed so far.
    pub consumed: int,
    /// Largest amount that may be consumed.
    pub limit: int,
}

impl FlowView {
    /// The budget is never overdrawn.
    pub open spec fn wf(self) -> bool {
        0 <= self.consumed <= self.limit <= u64::MAX
    }

    /// What may still be consumed.
    pub open spec fn available(self) -> int {
        self.limit - self.consumed
    }

    /// Whether `n` more can be consumed.
    pub open spec fn admits(self, n: int) -> bool {
        self.consumed + n <= self.limit
    }

    /// Consumption of `n`: refused, with the state unchanged, exactly when
    /// it would pass the limit.
    pub open spec fn consume(self, n: int) -> Result<FlowView, Error> {
        if self.admits(n) {
            Ok(FlowView { consumed: self.consumed + n, ..self })
        } else {
            Err(Error::FlowControlViolation)
        }
    }

    /// The state after an attempt to consume `n`, accepted or not.
    pub open spec fn after_consume(self, n: int) -> FlowView {
        match self.consume(n) {
            Ok(v) => v,
            Err(_) => self,
        }
    }

    /// The state after a limit of `new_limit` was advertised: a lower one
    /// is ignored.
    pub open spec fn credit(self, new_limit: int) -> FlowView {
        FlowView {
            limit: if new_limit > self.limit {
                new_limit
            } else {
                self.limit
            },
            ..self
        }
    }

    /// The state after an attempt to consume each of `amounts` in order.
    pub open spec fn after_consume_all(self, amounts: Seq<u64>) -> FlowView
        decreases amounts.len(),
    {
        if amounts.len() == 0 {
            self
        } else {
            self.after_consume_all(amounts.drop_last()).after_consume(amounts.last() as int)
        }
    }
}

/// Two consumptions in a row: one of them is refused if and only if the
/// two amounts together would pass the limit.
pub proof fn lemma_consume_twice(v: FlowView, n: u64, m: u64)
    ensures
        (v.consume(n as int) is Err || v.after_consume(n as int).consume(m as int) is Err) <==> v.consumed
            + n + m > v.limit,
{
}

/// However many consumptions are attempted, and in whatever order, the
/// limit is never passed: the count stays within it, never decreases, and
/// the limit stays as it is.
pub proof fn lemma_consume_all_bounded(v: FlowView, amounts: Seq<u64>)
    requires
        v.wf(),
    ensures
        v.after_consume_all(amounts).wf(),
        v.after_consume_all(amounts).limit == v.limit,
        v.after_consume_all(amounts).consumed >= v.consumed,
    decreases amounts.len(),
{
    if amounts.len() > 0 {
        lemma_consume_all_bounded(v, amounts.drop_last());
    }
}

/// Limits are monotonic: advertising a limit never lowers the limit, and
/// leaves the count alone.
pub proof fn lemma_credit_monotonic(v: FlowView, new_limit: u64)
    requires
        v.wf(),
    ensures
        v.credit(new_limit as int).wf(),
        v.credit(new_limit as int).limit >= v.limit,
        v.credit(new_limit as int).limit >= new_limit,
        v.credit(new_limit as int).consumed == v.consumed,
{
}

/// A flow-control budget.
#[derive(Debug, Clone, Copy)]
pub struct FlowController {
    consumed: u64,
    limit: u64,
}

impl View for FlowController {
    type V = FlowView;

    closed spec fn view(&self) -> FlowView {
        FlowView { consumed: self.consumed as int, limit: self.limit as int }
    }
}

impl FlowController {
    /// The budget is never overdrawn.
    pub open spec fn wf(&self) -> bool {
        self@.wf()
    }

    /// A controller with nothing consumed and the given limit.
    pub fn new(limit: u64) -> (f: FlowController)
        ensures
            f.wf(),
            f@ == (FlowView { consumed: 0, limit: limit as int }),
    {
        FlowController { consumed: 0, limit }
    }

    /// Amount consumed so far.
    pub fn consumed(&self) -> (n: u64)
        ensures
            n == self@.consumed,
    {
        self.consumed
    }

    /// Largest amount that may be consumed.
    pub fn limit(&self) -> (n: u64)
        ensures
            n == self@.limit,
    {
        self.limit
    }

    /// What may still be consumed.
    pub fn available(&self) -> (n: u64)
        requires
            self.wf(),
        ensures
            n == self@.available(),
    {
        self.limit - self.consumed
    }

    /// Whether the limit is reached, so that the peer is to be told that
    /// the sender is blocked.
    pub fn blocked(&self) -> (b: bool)
        requires
            self.wf(),
        ensures
            b == (self@.available() == 0),
    {
        self.limit == self.consumed
    }

    /// Whether `n` more can be consumed.
    pub fn admits(&self, n: u64) -> (b: bool)
        requires
            self.wf(),
        ensures
            b == self@.admits(n as int),
    {
        n <= self.limit - self.consumed
    }

    /// Consumes `n`, or fails with [`Error::FlowControlViolation`], leaving
    /// the budget unchanged, exactly when that would pass the limit.
    pub fn consume(&mut self, n: u64) -> (r: Res<()>)
        requires
            old(self).wf(),
        ensures
            final(self).wf(),
            match old(self)@.consume(n as int) {
                Ok(v) => r is Ok && final(self)@ == v,
                Err(e) => r == Err::<(), Error>(e) && final(self)@ == old(self)@,
            },
    {
        if n > self.limit - self.consumed {
            return Err(Error::FlowControlViolation);
        }
        self.consumed = self.consumed + n;
        Ok(())
    }

    /// Takes note of an advertised limit. A limit that is not above the
    /// current one is ignored. Returns whether the limit was raised.
    pub fn credit_received(&mut self, new_limit: u64) -> (raised: bool)
        requires
            old(self).wf(),
        ensures
            final(self).wf(),
            final(self)@ == old(self)@.credit(new_limit as int),
            raised == (new_limit > old(self)@.limit),
    {
        if new_limit > self.limit {
            self.limit = new_limit;
            true
        } else {
            false
        }
    }
}

} // verus!
