use vstd::prelude::*;
use crate::error::CallError;
use crate::id::IdView;
use crate::table::{
    after_response, answered, distinct_ids, has_id, index_of, registration, settle, settled_waiters,
    waiters, ConnState,
};

verus! {

/// A response reaches only the call that was registered under its
/// identifier: among pending calls with distinct identifiers, an identifier
/// picks out one call, and registering a new call keeps identifiers distinct.
pub proof fn lemma_response_matches_its_call<W>(s: Seq<(IdView, W)>, i: int, j: int, k: IdView, w: W)
    requires
        distinct_ids(s),
        0 <= i < s.len(),
        0 <= j < s.len(),
        s[i].0 == s[j].0,
    ensures
        i == j,
        registration(ConnState::Open, s, Some(k)) is Ok ==> distinct_ids(s.push((k, w))),
{
    if registration(ConnState::Open, s, Some(k)) is Ok {
        let t = s.push((k, w));
        assert forall|a: int, b: int|
            0 <= a < t.len() && 0 <= b < t.len() && a != b implies #[trigger] t[a].0
            != #[trigger] t[b].0 by {
            if a < s.len() && b < s.len() {
                assert(t[a] == s[a] && t[b] == s[b]);
            } else if a < s.len() {
                assert(t[a] == s[a]);
            } else {
                assert(t[b] == s[b]);
            }
        }
    }
}

/// A pending call is resolved at most once: once it is removed from the
/// table, by a response, a timeout or a close, nothing is left under its
/// identifier for a second resolution to find.
pub proof fn lemma_resolved_at_most_once<W>(s: Seq<(IdView, W)>, i: int)
    requires
        distinct_ids(s),
        0 <= i < s.len(),
    ensures
        !has_id(s.remove(i), s[i].0),
        distinct_ids(s.remove(i)),
{
    let t = s.remove(i);
    assert forall|j: int| 0 <= j < t.len() implies t[j].0 != s[i].0 by {
        if j < i {
            assert(t[j] == s[j]);
        } else {
            assert(t[j] == s[j + 1]);
        }
    }
    assert forall|a: int, b: int| 0 <= a < t.len() && 0 <= b < t.len() && a != b implies #[trigger] t[a].0
        != #[trigger] t[b].0 by {
        let sa = if a < i { a } else { a + 1 };
        let sb = if b < i { b } else { b + 1 };
        assert(t[a] == s[sa]);
        assert(t[b] == s[sb]);
    }
}

/// Among pending calls with distinct identifiers, the call found under an
/// identifier is the one registered under it.
pub proof fn lemma_index_of_is_the_call<W>(s: Seq<(IdView, W)>, i: int)
    requires
        distinct_ids(s),
        0 <= i < s.len(),
    ensures
        index_of(s, s[i].0) == i,
{
    let j = index_of(s, s[i].0);
    assert(0 <= j < s.len() && s[j].0 == s[i].0);
}

/// When two responses carry the identifier of one pending call, the first
/// resolves that call alone and the second finds nothing: the call is
/// answered once, and no other call is touched.
pub proof fn lemma_repeated_response_is_dropped<W>(s: Seq<(IdView, W)>, i: int)
    requires
        distinct_ids(s),
        0 <= i < s.len(),
    ensures
        settled_waiters(s, seq![Some(s[i].0), Some(s[i].0)]) == seq![s[i].1],
        settle(s, seq![Some(s[i].0), Some(s[i].0)]) == s.remove(i),
{
    let k = s[i].0;
    let ids = seq![Some(k), Some(k)];
    lemma_index_of_is_the_call(s, i);
    lemma_resolved_at_most_once(s, i);
    let t = after_response(s, Some(k));
    assert(t == s.remove(i));
    let rest = ids.drop_first();
    assert(rest.drop_first() =~= Seq::<Option<IdView>>::empty());
    assert(after_response(t, Some(k)) == t);
    assert(answered(t, Some(k)) =~= Seq::<W>::empty());
    assert(settled_waiters(t, rest.drop_first()) =~= Seq::<W>::empty());
    assert(settled_waiters(t, rest) =~= Seq::<W>::empty());
    assert(settled_waiters(s, ids) =~= seq![s[i].1]);
    assert(rest[0] == Some(k));
    assert(settle(t, rest.drop_first()) == t);
    assert(settle(t, rest) == settle(after_response(t, rest[0]), rest.drop_first()));
    assert(settle(t, rest) == t);
    assert(settle(s, ids) == settle(t, rest));
}

/// Abandoning one call after its timeout leaves every other call as it was:
/// each other call stays pending with its own waiter, and a late response
/// for the abandoned identifier finds nothing.
pub proof fn lemma_timeout_is_isolated<W>(s: Seq<(IdView, W)>, i: int, j: int)
    requires
        distinct_ids(s),
        0 <= i < s.len(),
        0 <= j < s.len(),
        j != i,
    ensures
        s.remove(i).contains(s[j]),
        has_id(s.remove(i), s[j].0),
        !has_id(s.remove(i), s[i].0),
{
    lemma_resolved_at_most_once(s, i);
    let t = s.remove(i);
    let jj = if j < i { j } else { j - 1 };
    assert(t[jj] == s[j]);
}

/// Closing fails every outstanding call: the waiters handed back are those
/// of all pending calls, one each, and afterwards every registration is
/// refused with `ConnectionClosed`.
pub proof fn lemma_close_fails_all<W>(s: Seq<(IdView, W)>, k: IdView)
    ensures
        waiters(s).len() == s.len(),
        forall|i: int| 0 <= i < s.len() ==> #[trigger] waiters(s)[i] == s[i].1,
        registration(ConnState::Closed, Seq::<(IdView, W)>::empty(), Some(k)) == Err::<(), CallError>(
            CallError::ConnectionClosed,
        ),
{
}

/// Once the connection has died or a close was asked for, every new call is
/// refused with `ConnectionClosed` before anything is sent, whatever its
/// identifier and whatever is still pending.
pub proof fn lemma_dead_connection_refuses_calls<W>(st: ConnState, s: Seq<(IdView, W)>, k: IdView)
    requires
        st != ConnState::Open,
    ensures
        registration(st, s, Some(k)) == Err::<(), CallError>(CallError::ConnectionClosed),
{
}

} // verus!
