use vstd::prelude::*;
use crate::error::CallError;
use crate::id::{IdView, RequestId};

verus! {

/// The life of the connection: `Open`, then `Closing` once a close was asked
/// for, then `Closed`. It never goes back.
#[derive(Clone, Copy, Debug, PartialEq, Eq, Structural)]
pub enum ConnState {
    Open,
    Closing,
    Closed,
}

/// Whether some pending call in `s` is registered under `k`.
pub open spec fn has_id<W>(s: Seq<(IdView, W)>, k: IdView) -> bool {
    exists|i: int| 0 <= i < s.len() && #[trigger] s[i].0 == k
}

/// No identifier is registered twice.
pub open spec fn distinct_ids<W>(s: Seq<(IdView, W)>) -> bool {
    forall|i: int, j: int|
        0 <= i < s.len() && 0 <= j < s.len() && i != j ==> #[trigger] s[i].0 != #[trigger] s[j].0
}

/// What registering a call under `id` gives, in state `st` with pending calls `s`.
pub open spec fn registration<W>(st: ConnState, s: Seq<(IdView, W)>, id: Option<IdView>) -> Result<
    (),
    CallError,
> {
    match id {
        None => Err(CallError::InvalidRequest),
        Some(k) => if st != ConnState::Open {
            Err(CallError::ConnectionClosed)
        } else if has_id(s, k) {
            Err(CallError::InvalidRequest)
        } else {
            Ok(())
        },
    }
}

/// The waiters of the pending calls `s`, in order of registration.
pub open spec fn waiters<W>(s: Seq<(IdView, W)>) -> Seq<W> {
    s.map_values(|p: (IdView, W)| p.1)
}

/// The position of the pending call registered under `k`, when there is one.
pub open spec fn index_of<W>(s: Seq<(IdView, W)>, k: IdView) -> int {
    choose|i: int| 0 <= i < s.len() && #[trigger] s[i].0 == k
}

/// The pending calls once a response carrying `id` has arrived: the call
/// registered under it is gone; a response for no pending call changes nothing.
pub open spec fn after_response<W>(s: Seq<(IdView, W)>, id: Option<IdView>) -> Seq<(IdView, W)> {
    match id {
        Some(k) => if has_id(s, k) {
            s.remove(index_of(s, k))
        } else {
            s
        },
        None => s,
    }
}

/// The waiter that a response carrying `id` resolves: none, or the one
/// registered under `id`.
pub open spec fn answered<W>(s: Seq<(IdView, W)>, id: Option<IdView>) -> Seq<W> {
    match id {
        Some(k) => if has_id(s, k) {
            seq![s[index_of(s, k)].1]
        } else {
            Seq::empty()
        },
        None => Seq::empty(),
    }
}

/// The pending calls once responses carrying `ids` have arrived, in order.
pub open spec fn settle<W>(s: Seq<(IdView, W)>, ids: Seq<Option<IdView>>) -> Seq<(IdView, W)>
    decreases ids.len(),
{
    if ids.len() == 0 {
        s
    } else {
        settle(after_response(s, ids[0]), ids.drop_first())
    }
}

/// The waiters that responses carrying `ids` resolve, in the order they arrive.
pub open spec fn settled_waiters<W>(s: Seq<(IdView, W)>, ids: Seq<Option<IdView>>) -> Seq<W>
    decreases ids.len(),
{
    if ids.len() == 0 {
        Seq::empty()
    } else {
        answered(s, ids[0]) + settled_waiters(after_response(s, ids[0]), ids.drop_first())
    }
}

/// The table of outstanding calls, keyed by request identifier. `W` is the
/// waiter of a call: whatever completes it.
pub struct OutstandingTable<W> {
    entries: Vec<(RequestId, W)>,
    state: ConnState,
}

impl<W> OutstandingTable<W> {
    /// The pending calls, in order of registration.
    pub closed spec fn pending(&self) -> Seq<(IdView, W)> {
        self.entries@.map_values(|e: (RequestId, W)| (e.0@, e.1))
    }

    /// The state of the connection.
    pub closed spec fn conn_state(&self) -> ConnState {
        self.state
    }

    /// Identifiers are unique, and nothing is pending once the connection is closed.
    pub open spec fn wf(&self) -> bool {
        &&& distinct_ids(self.pending())
        &&& self.conn_state() == ConnState::Closed ==> self.pending().len() == 0
    }

    /// An open connection with no call outstanding.
    pub fn new() -> (r: Self)
        ensures
            r.wf(),
            r.pending() == Seq::<(IdView, W)>::empty(),
            r.conn_state() == ConnState::Open,
    {
        let r = OutstandingTable { entries: Vec::new(), state: ConnState::Open };
        assert(r.pending() =~= Seq::<(IdView, W)>::empty());
        r
    }

    /// The state of the connection.
    pub fn state(&self) -> (r: ConnState)
        ensures
            r == self.conn_state(),
    {
        self.state
    }

    /// The number of outstanding calls.
    pub fn len(&self) -> (r: usize)
        ensures
            r == self.pending().len(),
    {
        self.entries.len()
    }

    /// Whether a call is outstanding under `id`.
    pub fn contains(&self, id: &RequestId) -> (r: bool)
        ensures
            r == has_id(self.pending(), id@),
    {
        self.find(id).is_some()
    }

    /// The position of the call registered under `id`.
    fn find(&self, id: &RequestId) -> (r: Option<usize>)
        ensures
            match r {
                Some(i) => i < self.pending().len() && self.pending()[i as int].0 == id@,
                None => !has_id(self.pending(), id@),
            },
    {
        let mut i: usize = 0;
        while i < self.entries.len()
            invariant
                i <= self.entries@.len(),
                forall|j: int| 0 <= j < i ==> self.pending()[j].0 != id@,
            decreases self.entries@.len() - i,
        {
            if self.entries[i].0.same_as(id) {
                return Some(i);
            }
            i = i + 1;
        }
        None
    }

    /// Registers a call under `id` with its waiter. Refused with
    /// `InvalidRequest` when there is no identifier or it is already in flight,
    /// and with `ConnectionClosed` once a close was asked for.
    pub fn register(&mut self, id: Option<RequestId>, w: W) -> (r: Result<(), CallError>)
        requires
            old(self).wf(),
        ensures
            final(self).wf(),
            r == registration(
                old(self).conn_state(),
                old(self).pending(),
                match id {
                    Some(k) => Some(k@),
                    None => None,
                },
            ),
            final(self).conn_state() == old(self).conn_state(),
            r is Ok ==> final(self).pending() == old(self).pending().push((id->Some_0@, w)),
            r is Err ==> final(self).pending() == old(self).pending(),
    {
        match id {
            None => Err(CallError::InvalidRequest),
            Some(k) => {
                if self.state != ConnState::Open {
                    return Err(CallError::ConnectionClosed);
                }
                if self.contains(&k) {
                    return Err(CallError::InvalidRequest);
                }
                let ghost kv = k@;
                self.entries.push((k, w));
                assert(self.pending() =~= old(self).pending().push((kv, w)));
                Ok(())
            },
        }
    }

    /// Removes the call registered under `id` and hands back its waiter, or
    /// `None` when no call is outstanding under `id`. This is how a response
    /// reaches its caller, and how a call that timed out is abandoned.
    pub fn take(&mut self, id: &RequestId) -> (r: Option<W>)
        requires
            old(self).wf(),
        ensures
            final(self).wf(),
            final(self).conn_state() == old(self).conn_state(),
            r is Some == has_id(old(self).pending(), id@),
            !has_id(final(self).pending(), id@),
            r is None ==> final(self).pending() == old(self).pending(),
            r is Some ==> exists|i: int|
                0 <= i < old(self).pending().len() && old(self).pending()[i].0 == id@
                    && r == Some(old(self).pending()[i].1) && final(self).pending()
                    == old(self).pending().remove(i),
    {
        match self.find(id) {
            None => None,
            Some(i) => {
                let e = self.entries.remove(i);
                assert(self.pending() =~= old(self).pending().remove(i as int));
                proof {
                    crate::guarantees::lemma_resolved_at_most_once(old(self).pending(), i as int);
                }
                Some(e.1)
            },
        }
    }

    /// Stops accepting registrations; calls already outstanding stay.
    pub fn begin_close(&mut self)
        requires
            old(self).wf(),
        ensures
            final(self).wf(),
            final(self).pending() == old(self).pending(),
            final(self).conn_state() == if old(self).conn_state() == ConnState::Open {
                ConnState::Closing
            } else {
                old(self).conn_state()
            },
    {
        if self.state == ConnState::Open {
            self.state = ConnState::Closing;
        }
    }

    /// Closes the connection's table for good and hands back the waiters of
    /// every outstanding call, to be failed with `ConnectionClosed`. Calling it
    /// again hands back nothing.
    pub fn close(&mut self) -> (r: Vec<W>)
        requires
            old(self).wf(),
        ensures
            final(self).wf(),
            final(self).conn_state() == ConnState::Closed,
            final(self).pending().len() == 0,
            r@ == waiters(old(self).pending()),
    {
        self.state = ConnState::Closed;
        let mut out: Vec<W> = Vec::new();
        let ghost all = old(self).entries@;
        while self.entries.len() > 0
            invariant
                self.state == ConnState::Closed,
                out@.len() <= all.len(),
                self.entries@ == all.subrange(out@.len() as int, all.len() as int),
                out@ == all.subrange(0, out@.len() as int).map_values(|e: (RequestId, W)| e.1),
            decreases self.entries@.len(),
        {
            let e = self.entries.remove(0);
            out.push(e.1);
            assert(out@ =~= all.subrange(0, out@.len() as int).map_values(|e: (RequestId, W)| e.1));
            assert(self.entries@ =~= all.subrange(out@.len() as int, all.len() as int));
        }
        assert(out@ =~= waiters(old(self).pending())) by {
            assert(all.subrange(0, all.len() as int) =~= all);
        }
        assert(self.pending() =~= Seq::<(IdView, W)>::empty());
        out
    }
}

} // verus!
