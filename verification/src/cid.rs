//! Bookkeeping of connection identifiers.
//!
//! Each endpoint issues identifiers under sequence numbers. The table
//! holds the active identifiers of both endpoints, each set unique by
//! sequence number, and remembers which sequence numbers of the peer were
//! retired, so that a retired identifier is never taken up again.

use vstd::prelude::*;
use vstd::slice::slice_to_vec;
use crate::error::Error;
use crate::error::Res;

verus! {

/// Size in bytes of a stateless reset token.
pub const RESET_TOKEN_LEN: usize = 16;

/// What is known of an identifier besides its sequence number.
pub struct IdView {
    /// The identifier itself.
    pub id: Seq<u8>,
    /// The token that resets the connection without state.
    pub reset_token: Seq<u8>,
}

/// The mathematical state of the table.
pub struct TableView {
    /// Active identifiers issued by this endpoint, by sequence number.
    pub mine: Map<u64, IdView>,
    /// Active identifiers issued by the peer, by sequence number.
    pub peer: Map<u64, IdView>,
    /// Sequence numbers of the peer that were retired.
    pub retired: Set<u64>,
    /// Largest number of identifiers of the peer that may be active at once.
    pub limit: nat,
}

impl TableView {
    /// An empty table that admits `limit` identifiers of the peer.
    pub open spec fn empty(limit: nat) -> TableView {
        TableView { mine: Map::empty(), peer: Map::empty(), retired: Set::empty(), limit }
    }

    /// The invariant of the model: no more active identifiers of the peer
    /// than the limit, and none of them retired.
    pub open spec fn wf(self) -> bool {
        &&& self.mine.dom().finite()
        &&& self.peer.dom().finite()
        &&& self.peer.dom().len() <= self.limit
        &&& forall|seq: u64| #[trigger] self.peer.contains_key(seq) ==> !self.retired.contains(seq)
    }

    /// The error, if any, with which an identifier of the peer is refused:
    /// a sequence number that is active with other contents is a
    /// duplicate; a new one beyond the limit passes the limit. A retired
    /// sequence number, and an identifier that is active as it stands, are
    /// never refused.
    pub open spec fn add_peer_error(self, seq: u64, entry: IdView) -> Option<Error> {
        if self.retired.contains(seq) {
            None
        } else if self.peer.contains_key(seq) {
            if self.peer[seq] == entry {
                None
            } else {
                Some(Error::DuplicateSequence)
            }
        } else if self.peer.dom().len() >= self.limit {
            Some(Error::ConnectionIdLimit)
        } else {
            None
        }
    }

    /// The state after an identifier of the peer was accepted: a retired
    /// sequence number is ignored, any other becomes active.
    pub open spec fn peer_added(self, seq: u64, entry: IdView) -> TableView {
        if self.retired.contains(seq) {
            self
        } else {
            TableView { peer: self.peer.insert(seq, entry), ..self }
        }
    }

    /// An identifier of the peer arrives.
    pub open spec fn add_peer_id(self, seq: u64, entry: IdView) -> Result<TableView, Error> {
        match self.add_peer_error(seq, entry) {
            Some(e) => Err(e),
            None => Ok(self.peer_added(seq, entry)),
        }
    }

    /// The state after the identifier of the peer under `seq` was retired:
    /// an active one leaves the table and stays retired for good; any
    /// other sequence number changes nothing.
    pub open spec fn peer_retired(self, seq: u64) -> TableView {
        if self.peer.contains_key(seq) {
            TableView { peer: self.peer.remove(seq), retired: self.retired.insert(seq), ..self }
        } else {
            self
        }
    }

    /// The state after this endpoint issued an identifier under `seq`,
    /// where `seq` was not active; an active one stays as it is.
    pub open spec fn local_added(self, seq: u64, entry: IdView) -> TableView {
        if self.mine.contains_key(seq) {
            self
        } else {
            TableView { mine: self.mine.insert(seq, entry), ..self }
        }
    }

    /// The state after the identifier of this endpoint under `seq` was retired.
    pub open spec fn local_retired(self, seq: u64) -> TableView {
        TableView { mine: self.mine.remove(seq), ..self }
    }
}

/// An identifier that is submitted twice as it stands is accepted both
/// times, and the second submission changes nothing.
pub proof fn lemma_add_peer_idempotent(v: TableView, seq: u64, entry: IdView)
    requires
        v.wf(),
        v.add_peer_id(seq, entry) is Ok,
    ensures
        v.add_peer_id(seq, entry).unwrap().add_peer_id(seq, entry) == v.add_peer_id(seq, entry),
{
    let w = v.peer_added(seq, entry);
    if !v.retired.contains(seq) {
        assert(w.peer.insert(seq, entry) =~= w.peer);
    }
}

/// A sequence number that is active is refused with other contents.
pub proof fn lemma_add_peer_duplicate(v: TableView, seq: u64, first: IdView, second: IdView)
    requires
        v.wf(),
        !v.retired.contains(seq),
        v.add_peer_id(seq, first) is Ok,
        first != second,
    ensures
        v.add_peer_id(seq, first).unwrap().add_peer_id(seq, second) == Err::<TableView, Error>(
            Error::DuplicateSequence,
        ),
{
}

/// Once retired, a sequence number of the peer is ignored: it is accepted
/// without effect, whatever comes with it, and retiring it again changes
/// nothing.
pub proof fn lemma_retired_ignored(v: TableView, seq: u64, entry: IdView)
    requires
        v.wf(),
        v.peer.contains_key(seq),
    ensures
        v.peer_retired(seq).wf(),
        v.peer_retired(seq).add_peer_id(seq, entry) == Ok::<TableView, Error>(v.peer_retired(seq)),
        v.peer_retired(seq).peer_retired(seq) == v.peer_retired(seq),
{
}

/// Accepting and retiring keep the table within its limit.
pub proof fn lemma_peer_added_wf(v: TableView, seq: u64, entry: IdView)
    requires
        v.wf(),
        v.add_peer_error(seq, entry) is None,
    ensures
        v.peer_added(seq, entry).wf(),
{
}

/// One entry of the table.
#[derive(Debug)]
struct Entry {
    seq: u64,
    id: Vec<u8>,
    reset_token: [u8; 16],
}

/// What an entry says of its identifier.
spec fn entry_view(e: Entry) -> IdView {
    IdView { id: e.id@, reset_token: e.reset_token@ }
}

/// Whether an entry has the sequence number `seq`.
spec fn has_seq(es: Seq<Entry>, seq: u64) -> bool {
    exists|j: int| 0 <= j < es.len() && (#[trigger] es[j]).seq == seq
}

/// The index of an entry with the sequence number `seq`.
spec fn index_of_seq(es: Seq<Entry>, seq: u64) -> int {
    choose|j: int| 0 <= j < es.len() && (#[trigger] es[j]).seq == seq
}

/// The entries, by sequence number.
spec fn entries_map(es: Seq<Entry>) -> Map<u64, IdView> {
    Map::new(|seq: u64| has_seq(es, seq), |seq: u64| entry_view(es[index_of_seq(es, seq)]))
}

/// No sequence number occurs twice.
spec fn unique(es: Seq<Entry>) -> bool {
    forall|i: int, j: int|
        0 <= i < j < es.len() ==> (#[trigger] es[i]).seq != (#[trigger] es[j]).seq
}

/// Each entry is the only one with its sequence number.
proof fn lemma_entry_at(es: Seq<Entry>, j: int)
    requires
        unique(es),
        0 <= j < es.len(),
    ensures
        has_seq(es, es[j].seq),
        index_of_seq(es, es[j].seq) == j,
        entries_map(es)[es[j].seq] == entry_view(es[j]),
{
}

/// The sequence numbers of unique entries are as many as the entries.
proof fn lemma_entries_len(es: Seq<Entry>)
    requires
        unique(es),
    ensures
        entries_map(es).dom().finite(),
        entries_map(es).dom().len() == es.len(),
    decreases es.len(),
{
    if es.len() == 0 {
        assert(entries_map(es).dom() =~= Set::<u64>::empty());
    } else {
        let init = es.drop_last();
        let last = es.last();
        assert forall|i: int| 0 <= i < init.len() implies init[i] == es[i] by {}
        lemma_entries_len(init);
        assert(entries_map(es).dom() =~= entries_map(init).dom().insert(last.seq));
    }
}

/// An entry with a new sequence number can be put behind the others.
proof fn lemma_push_entry(es: Seq<Entry>, e: Entry)
    requires
        unique(es),
        !has_seq(es, e.seq),
    ensures
        unique(es.push(e)),
        entries_map(es.push(e)) == entries_map(es).insert(e.seq, entry_view(e)),
{
    let out = es.push(e);
    assert forall|seq: u64| has_seq(out, seq) <==> has_seq(es, seq) || seq == e.seq by {
        if has_seq(es, seq) {
            let j = index_of_seq(es, seq);
            assert(out[j].seq == seq);
        }
        if seq == e.seq {
            assert(out[out.len() - 1].seq == seq);
        }
    }
}

/// Replacing an entry by the last entry removes its sequence number and
/// nothing else.
proof fn lemma_swap_remove_entry(es: Seq<Entry>, k: int)
    requires
        unique(es),
        0 <= k < es.len(),
    ensures
        unique(es.update(k, es.last()).drop_last()),
        entries_map(es.update(k, es.last()).drop_last()) == entries_map(es).remove(es[k].seq),
{
    let out = es.update(k, es.last()).drop_last();
    let n = es.len() - 1;
    assert forall|seq: u64| has_seq(out, seq) <==> has_seq(es, seq) && seq != es[k].seq by {
        if has_seq(out, seq) {
            let j = index_of_seq(out, seq);
            assert(out[j] == es[if j == k { n } else { j }]);
        }
        if has_seq(es, seq) && seq != es[k].seq {
            let j = index_of_seq(es, seq);
            if j == n {
                assert(out[k].seq == seq);
            } else {
                assert(out[j].seq == seq);
            }
        }
    }
}

/// Whether two byte strings are the same.
fn same_bytes(a: &[u8], b: &[u8]) -> (r: bool)
    ensures
        r == (a@ == b@),
{
    if a.len() != b.len() {
        return false;
    }
    let mut i: usize = 0;
    while i < a.len()
        invariant
            i <= a@.len(),
            a@.len() == b@.len(),
            a@.subrange(0, i as int) == b@.subrange(0, i as int),
        decreases a@.len() - i,
    {
        if a[i] != b[i] {
            return false;
        }
        i += 1;
    }
    assert(a@ =~= a@.subrange(0, i as int));
    assert(b@ =~= b@.subrange(0, i as int));
    true
}

/// The index of the entry with the sequence number `seq`, if there is one.
fn find(es: &Vec<Entry>, seq: u64) -> (r: Option<usize>)
    ensures
        match r {
            Some(j) => j < es@.len() && es@[j as int].seq == seq,
            None => !has_seq(es@, seq),
        },
{
    let mut i: usize = 0;
    while i < es.len()
        invariant
            i <= es@.len(),
            forall|j: int| 0 <= j < i ==> (#[trigger] es@[j]).seq != seq,
        decreases es@.len() - i,
    {
        if es[i].seq == seq {
            return Some(i);
        }
        i += 1;
    }
    None
}

/// The connection identifiers of both endpoints.
#[derive(Debug)]
pub struct ConnectionIdTable {
    mine: Vec<Entry>,
    peer: Vec<Entry>,
    retired: Vec<u64>,
    limit: usize,
}

impl View for ConnectionIdTable {
    type V = TableView;

    closed spec fn view(&self) -> TableView {
        TableView {
            mine: entries_map(self.mine@),
            peer: entries_map(self.peer@),
            retired: Set::new(|seq: u64| self.retired@.contains(seq)),
            limit: self.limit as nat,
        }
    }
}

impl ConnectionIdTable {
    /// The invariant of the table: sequence numbers are unique in each
    /// set, the peer's set is within the limit, and no retired sequence
    /// number is active.
    pub closed spec fn wf(&self) -> bool {
        &&& unique(self.mine@)
        &&& unique(self.peer@)
        &&& self.peer@.len() <= self.limit
        &&& forall|j: int|
            0 <= j < self.peer@.len() ==> !self.retired@.contains((#[trigger] self.peer@[j]).seq)
    }

    /// A well-formed table has a well-formed model.
    pub proof fn lemma_view_wf(&self)
        requires
            self.wf(),
        ensures
            self@.wf(),
    {
        self.lemma_peer_len();
    }

    /// The model has as many identifiers of the peer as the table has entries.
    proof fn lemma_peer_len(&self)
        requires
            self.wf(),
        ensures
            self@.wf(),
            self@.peer.dom().len() == self.peer@.len(),
    {
        lemma_entries_len(self.mine@);
        lemma_entries_len(self.peer@);
    }

    /// An empty table that admits `limit` identifiers of the peer at once.
    pub fn new(limit: usize) -> (t: ConnectionIdTable)
        ensures
            t.wf(),
            t@ == TableView::empty(limit as nat),
    {
        let t = ConnectionIdTable { mine: Vec::new(), peer: Vec::new(), retired: Vec::new(), limit };
        assert(t@.peer =~= Map::<u64, IdView>::empty());
        assert(t@.retired =~= Set::<u64>::empty());
        t
    }

    /// Number of active identifiers of the peer.
    pub fn active_peer_ids(&self) -> (n: usize)
        requires
            self.wf(),
        ensures
            n == self@.peer.dom().len(),
    {
        proof {
            self.lemma_peer_len();
        }
        self.peer.len()
    }

    /// Number of active identifiers of this endpoint.
    pub fn active_local_ids(&self) -> (n: usize)
        requires
            self.wf(),
        ensures
            n == self@.mine.dom().len(),
    {
        proof {
            lemma_entries_len(self.mine@);
        }
        self.mine.len()
    }

    /// Whether `seq` was retired.
    fn is_retired(&self, seq: u64) -> (b: bool)
        ensures
            b == self@.retired.contains(seq),
    {
        let mut i: usize = 0;
        while i < self.retired.len()
            invariant
                i <= self.retired@.len(),
                forall|j: int| 0 <= j < i ==> self.retired@[j] != seq,
            decreases self.retired@.len() - i,
        {
            if self.retired[i] == seq {
                return true;
            }
            i += 1;
        }
        false
    }

    /// Takes note of an identifier that the peer issued under `seq`.
    ///
    /// Fails with [`Error::DuplicateSequence`] where `seq` is active with
    /// another identifier or token, and with [`Error::ConnectionIdLimit`]
    /// where the table is full; the table is then unchanged. An identifier
    /// that is active as it stands is accepted again, and a retired
    /// sequence number is accepted and ignored.
    pub fn add_peer_id(&mut self, seq: u64, id: &[u8], reset_token: [u8; 16]) -> (r: Res<()>)
        requires
            old(self).wf(),
        ensures
            final(self).wf(),
            match old(self)@.add_peer_id(seq, IdView { id: id@, reset_token: reset_token@ }) {
                Ok(v) => r is Ok && final(self)@ == v,
                Err(e) => r == Err::<(), Error>(e) && final(self)@ == old(self)@,
            },
    {
        let ghost entry = IdView { id: id@, reset_token: reset_token@ };
        proof {
            self.lemma_peer_len();
        }
        if self.is_retired(seq) {
            return Ok(());
        }
        match find(&self.peer, seq) {
            Some(j) => {
                proof {
                    lemma_entry_at(self.peer@, j as int);
                }
                let e: &Entry = &self.peer[j];
                let same = same_bytes(e.id.as_slice(), id) && same_bytes(
                    e.reset_token.as_slice(),
                    reset_token.as_slice(),
                );
                if same {
                    assert(self@.peer.insert(seq, entry) =~= self@.peer);
                    Ok(())
                } else {
                    Err(Error::DuplicateSequence)
                }
            },
            None => {
                if self.peer.len() >= self.limit {
                    return Err(Error::ConnectionIdLimit);
                }
                let e = Entry { seq, id: slice_to_vec(id), reset_token };
                proof {
                    lemma_push_entry(self.peer@, e);
                }
                self.peer.push(e);
                Ok(())
            },
        }
    }

    /// Retires the identifier that the peer issued under `seq`. Returns
    /// whether it was active; where it was not, nothing changes.
    pub fn retire_peer_id(&mut self, seq: u64) -> (was_active: bool)
        requires
            old(self).wf(),
        ensures
            final(self).wf(),
            final(self)@ == old(self)@.peer_retired(seq),
            was_active == old(self)@.peer.contains_key(seq),
    {
        match find(&self.peer, seq) {
            Some(j) => {
                proof {
                    lemma_entry_at(self.peer@, j as int);
                    lemma_swap_remove_entry(self.peer@, j as int);
                }
                self.peer.swap_remove(j);
                self.retired.push(seq);
                proof {
                    assert forall|x: u64|
                        self.retired@.contains(x) <==> old(self).retired@.contains(x) || x
                            == seq by {
                        if old(self).retired@.contains(x) {
                            let i = choose|i: int|
                                0 <= i < old(self).retired@.len() && old(self).retired@[i] == x;
                            assert(self.retired@[i] == x);
                        }
                        if x == seq {
                            assert(self.retired@[self.retired@.len() - 1] == x);
                        }
                    }
                    assert(self@.retired =~= old(self)@.retired.insert(seq));
                }
                true
            },
            None => false,
        }
    }

    /// Records an identifier that this endpoint issued under `seq`.
    /// Returns whether it was recorded; a sequence number that is active
    /// stays as it is.
    pub fn add_local_id(&mut self, seq: u64, id: &[u8], reset_token: [u8; 16]) -> (added: bool)
        requires
            old(self).wf(),
        ensures
            final(self).wf(),
            final(self)@ == old(self)@.local_added(
                seq,
                IdView { id: id@, reset_token: reset_token@ },
            ),
            added == !old(self)@.mine.contains_key(seq),
    {
        match find(&self.mine, seq) {
            Some(_) => false,
            None => {
                let e = Entry { seq, id: slice_to_vec(id), reset_token };
                proof {
                    lemma_push_entry(self.mine@, e);
                }
                self.mine.push(e);
                true
            },
        }
    }

    /// Retires the identifier that this endpoint issued under `seq`.
    /// Returns whether it was active.
    pub fn retire_local_id(&mut self, seq: u64) -> (was_active: bool)
        requires
            old(self).wf(),
        ensures
            final(self).wf(),
            final(self)@ == old(self)@.local_retired(seq),
            was_active == old(self)@.mine.contains_key(seq),
    {
        match find(&self.mine, seq) {
            Some(j) => {
                proof {
                    lemma_entry_at(self.mine@, j as int);
                    lemma_swap_remove_entry(self.mine@, j as int);
                }
                self.mine.swap_remove(j);
                true
            },
            None => {
                assert(self@.mine.remove(seq) =~= self@.mine);
                false
            },
        }
    }

    /// The identifier that the peer issued under `seq`, where it is active.
    pub fn peer_id(&self, seq: u64) -> (r: Option<Vec<u8>>)
        requires
            self.wf(),
        ensures
            match r {
                Some(id) => self@.peer.contains_key(seq) && id@ == self@.peer[seq].id,
                None => !self@.peer.contains_key(seq),
            },
    {
        match find(&self.peer, seq) {
            Some(j) => {
                proof {
                    lemma_entry_at(self.peer@, j as int);
                }
                Some(slice_to_vec(self.peer[j].id.as_slice()))
            },
            None => None,
        }
    }
}

} // verus!
