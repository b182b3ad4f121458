use vstd::prelude::*;
use alloy_json_rpc::{Id, Response, SerializedRequest};
use crate::error::CallError;
use crate::framing::{frame_ids, ids_of, leftover, stream_broken, DecodeBuffer};
use crate::guarantees::lemma_index_of_is_the_call;
use crate::id::{opt_view, wire_id_view, IdView, RequestId};
use crate::table::{
    after_response, answered, has_id, index_of, registration, settle, settled_waiters, waiters, ConnState,
    OutstandingTable,
};

verus! {

#[verifier::external_type_specification]
#[verifier::external_body]
pub struct ExSerializedRequest(SerializedRequest);

#[verifier::external_type_specification]
#[verifier::external_body]
pub struct ExRawValue(serde_json::value::RawValue);

#[verifier::external_type_specification]
#[verifier::external_body]
#[verifier::reject_recursive_types(Payload)]
#[verifier::reject_recursive_types(ErrData)]
pub struct ExResponse<Payload, ErrData>(Response<Payload, ErrData>);

/// The identifier stored beside a serialized request.
pub uninterp spec fn request_wire_id(req: SerializedRequest) -> Id;

/// The identifier a response carries.
pub uninterp spec fn response_wire_id_of(resp: Response) -> Id;

/// The identifier a response carries, as a correlation key.
pub open spec fn resp_id(resp: Response) -> Option<IdView> {
    wire_id_view(response_wire_id_of(resp))
}

/// Relies on `SerializedRequest::id`, which reads the identifier stored
/// beside the serialized request.
pub assume_specification[ SerializedRequest::id ](req: &SerializedRequest) -> (r: &Id)
    ensures
        *r == request_wire_id(*req),
;

/// Relies on the public `id` field of `alloy_json_rpc::Response`: the
/// identifier that the peer echoed.
#[verifier::external_body]
fn response_wire_id(resp: &Response) -> (r: &Id)
    ensures
        *r == response_wire_id_of(*resp),
{
    &resp.id
}

/// Registers a call under the wire identifier `wid`, with its waiter `w`,
/// and hands back the identifier it was registered under: refused with
/// `InvalidRequest` for a null or in-flight identifier, and with
/// `ConnectionClosed` once a close was asked for.
pub fn register_wire<W>(table: &mut OutstandingTable<W>, wid: &Id, w: W) -> (r: Result<
    RequestId,
    CallError,
>)
    requires
        old(table).wf(),
    ensures
        final(table).wf(),
        final(table).conn_state() == old(table).conn_state(),
        match registration(old(table).conn_state(), old(table).pending(), wire_id_view(*wid)) {
            Ok(()) => r matches Ok(k) && wire_id_view(*wid) == Some(k@) && final(table).pending()
                == old(table).pending().push((k@, w)),
            Err(e) => r == Err::<RequestId, CallError>(e) && final(table).pending() == old(
                table,
            ).pending(),
        },
{
    match RequestId::from_wire(wid) {
        None => Err(CallError::InvalidRequest),
        Some(k) => {
            let keep = k.clone_id();
            match table.register(Some(k), w) {
                Ok(()) => Ok(keep),
                Err(e) => Err(e),
            }
        },
    }
}

/// Registers the call that `req` makes, under the request's own identifier
/// and with its waiter `w`, before anything is sent, and hands back that
/// identifier. Refused as `register_wire` refuses.
pub fn register_request<W>(table: &mut OutstandingTable<W>, req: &SerializedRequest, w: W) -> (r:
    Result<RequestId, CallError>)
    requires
        old(table).wf(),
    ensures
        final(table).wf(),
        final(table).conn_state() == old(table).conn_state(),
        match registration(
            old(table).conn_state(),
            old(table).pending(),
            wire_id_view(request_wire_id(*req)),
        ) {
            Ok(()) => r matches Ok(k) && wire_id_view(request_wire_id(*req)) == Some(k@)
                && final(table).pending() == old(table).pending().push((k@, w)),
            Err(e) => r == Err::<RequestId, CallError>(e) && final(table).pending() == old(
                table,
            ).pending(),
        },
{
    register_wire(table, req.id(), w)
}

/// Hands an incoming response to the waiter of the call registered under
/// `id`, removing that call, and hands the response back with it. A
/// response that nobody waits for is dropped.
pub fn route<W>(table: &mut OutstandingTable<W>, id: Option<RequestId>, resp: Response) -> (r:
    Option<(W, Response)>)
    requires
        old(table).wf(),
    ensures
        final(table).wf(),
        final(table).conn_state() == old(table).conn_state(),
        final(table).pending() == after_response(old(table).pending(), opt_view(id)),
        r is Some == (opt_view(id) matches Some(k) && has_id(old(table).pending(), k)),
        r matches Some(p) ==> p.1 == resp && seq![p.0] == answered(
            old(table).pending(),
            opt_view(id),
        ),
        r is None ==> answered(old(table).pending(), opt_view(id)).len() == 0,
{
    match id {
        None => None,
        Some(k) => {
            let r = table.take(&k);
            proof {
                let s = old(table).pending();
                if r is Some {
                    let i = choose|i: int|
                        0 <= i < s.len() && s[i].0 == k@ && r == Some(s[i].1) && table.pending()
                            == s.remove(i);
                    lemma_index_of_is_the_call(s, i);
                }
            }
            match r {
                Some(w) => Some((w, resp)),
                None => None,
            }
        },
    }
}

/// Abandons the call registered under `id` once its deadline has passed.
/// True when the call was still pending and is now removed, so that the
/// caller reports a timeout; false when a response or a close resolved it
/// first, in which case that resolution wins.
pub fn abandon<W>(table: &mut OutstandingTable<W>, id: &RequestId) -> (r: bool)
    requires
        old(table).wf(),
    ensures
        final(table).wf(),
        final(table).conn_state() == old(table).conn_state(),
        r == has_id(old(table).pending(), id@),
        !has_id(final(table).pending(), id@),
        !r ==> final(table).pending() == old(table).pending(),
        r ==> exists|i: int|
            0 <= i < old(table).pending().len() && old(table).pending()[i].0 == id@
                && final(table).pending() == old(table).pending().remove(i),
{
    table.take(id).is_some()
}

/// Delivers an incoming response: reads the identifier the peer echoed and
/// routes the response to the call registered under it, handing the
/// response back with that call's waiter.
pub fn dispatch<W>(table: &mut OutstandingTable<W>, resp: Response) -> (r: Option<(W, Response)>)
    requires
        old(table).wf(),
    ensures
        final(table).wf(),
        final(table).conn_state() == old(table).conn_state(),
        final(table).pending() == after_response(old(table).pending(), resp_id(resp)),
        r is Some == (resp_id(resp) matches Some(k) && has_id(old(table).pending(), k)),
        r matches Some(p) ==> p.1 == resp && seq![p.0] == answered(
            old(table).pending(),
            resp_id(resp),
        ),
        r is None ==> answered(old(table).pending(), resp_id(resp)).len() == 0,
{
    let id = RequestId::from_wire(response_wire_id(&resp));
    route(table, id, resp)
}

/// What one read from the connection settled.
pub struct ReadOutcome<W> {
    /// Waiters whose response arrived, each with its response.
    pub resolved: Vec<(W, Response)>,
    /// Waiters of the calls that the connection's death failed.
    pub failed: Vec<W>,
    /// Whether the connection is still alive.
    pub alive: bool,
}

/// The identifiers of the responses that a read of `chunk` completes, after
/// the bytes `held` from earlier reads: none on an empty read.
pub open spec fn read_ids(held: Seq<u8>, chunk: Seq<u8>) -> Seq<Option<IdView>> {
    if chunk.len() == 0 {
        Seq::empty()
    } else {
        frame_ids(held + chunk)
    }
}

/// Handles one read from the connection: decodes every response that is now
/// complete and routes each to its call, in order; each resolved waiter is
/// handed back with the very response that carries its call's identifier.
/// When the read is the peer's end of stream or holds bytes that can never
/// become a response, the connection dies: the table is closed and the
/// waiters of every call still outstanding are handed back to be failed.
pub fn on_read<W>(table: &mut OutstandingTable<W>, decoder: &mut DecodeBuffer, chunk: &[u8]) -> (r:
    ReadOutcome<W>)
    requires
        old(table).wf(),
    ensures
        final(table).wf(),
        chunk@.len() == 0 ==> final(decoder)@ == old(decoder)@,
        chunk@.len() > 0 ==> final(decoder)@ == leftover(old(decoder)@ + chunk@),
        r.alive == (chunk@.len() > 0 && !stream_broken(old(decoder)@ + chunk@)),
        r.resolved@.map_values(|p: (W, Response)| p.0) == settled_waiters(
            old(table).pending(),
            read_ids(old(decoder)@, chunk@),
        ),
        forall|i: int|
            0 <= i < r.resolved@.len() ==> exists|j: int|
                0 <= j < old(table).pending().len() && old(table).pending()[j].1
                    == #[trigger] r.resolved@[i].0 && resp_id(r.resolved@[i].1) == Some(
                    old(table).pending()[j].0,
                ),
        r.alive ==> {
            &&& r.failed@.len() == 0
            &&& final(table).conn_state() == old(table).conn_state()
            &&& final(table).pending() == settle(
                old(table).pending(),
                read_ids(old(decoder)@, chunk@),
            )
        },
        !r.alive ==> {
            &&& r.failed@ == waiters(settle(old(table).pending(), read_ids(old(decoder)@, chunk@)))
            &&& final(table).conn_state() == ConnState::Closed
            &&& final(table).pending().len() == 0
        },
{
    let (mut responses, alive) = decoder.on_read(chunk);
    let ghost ids = ids_of(responses@);
    assert(ids == read_ids(old(decoder)@, chunk@)) by {
        if chunk@.len() == 0 {
            assert(ids =~= Seq::<Option<IdView>>::empty());
        }
    }
    let mut resolved: Vec<(W, Response)> = Vec::new();
    while responses.len() > 0
        invariant
            table.wf(),
            table.conn_state() == old(table).conn_state(),
            ids_of(responses@) == ids.subrange(ids.len() - responses@.len(), ids.len() as int),
            responses@.len() <= ids.len(),
            settle(table.pending(), ids_of(responses@)) == settle(old(table).pending(), ids),
            resolved@.map_values(|p: (W, Response)| p.0) + settled_waiters(
                table.pending(),
                ids_of(responses@),
            ) == settled_waiters(old(table).pending(), ids),
            forall|e: (IdView, W)| table.pending().contains(e) ==> old(table).pending().contains(e),
            forall|i: int|
                0 <= i < resolved@.len() ==> exists|j: int|
                    0 <= j < old(table).pending().len() && old(table).pending()[j].1
                        == #[trigger] resolved@[i].0 && resp_id(resolved@[i].1) == Some(
                        old(table).pending()[j].0,
                    ),
        decreases responses@.len(),
    {
        let ghost cur = table.pending();
        let ghost rest = ids_of(responses@);
        let ghost res0 = resolved@;
        let resp = responses.remove(0);
        assert(rest[0] == resp_id(resp));
        assert(ids_of(responses@) =~= rest.drop_first());
        match dispatch(table, resp) {
            Some(p) => {
                resolved.push(p);
                proof {
                    let k = resp_id(p.1)->Some_0;
                    assert(rest[0] == Some(k));
                    assert(has_id(cur, k));
                    let x = index_of(cur, k);
                    assert(0 <= x < cur.len() && cur[x].0 == k);
                    assert(seq![p.0][0] == p.0);
                    assert(answered(cur, rest[0])[0] == cur[x].1);
                    assert(p.0 == cur[x].1);
                    assert(cur.contains(cur[x]));
                    let j = choose|j: int| 0 <= j < old(table).pending().len() && old(table).pending()[j] == cur[x];
                    assert(resolved@[resolved@.len() - 1] == p);
                    assert(old(table).pending()[j].1 == resolved@[resolved@.len() - 1].0);
                    assert(resolved@.map_values(|p: (W, Response)| p.0) =~= res0.map_values(
                        |p: (W, Response)| p.0,
                    ) + answered(cur, rest[0]));
                }
            },
            None => {
                assert(answered(cur, rest[0]) =~= Seq::<W>::empty());
            },
        }
        proof {
            assert forall|e: (IdView, W)| table.pending().contains(e) implies old(
                table,
            ).pending().contains(e) by {
                let m = choose|m: int| 0 <= m < table.pending().len() && table.pending()[m] == e;
                match rest[0] {
                    Some(k) => {
                        if has_id(cur, k) {
                            let x = index_of(cur, k);
                            let mm = if m < x { m } else { m + 1 };
                            assert(cur[mm] == e);
                        }
                        assert(cur.contains(e));
                    },
                    None => {
                        assert(cur.contains(e));
                    },
                }
            }
            assert(ids.subrange(ids.len() - responses@.len(), ids.len() as int) =~= rest.drop_first());
        }
    }
    assert(ids_of(responses@) =~= Seq::<Option<IdView>>::empty());
    let failed = if alive {
        Vec::new()
    } else {
        table.close()
    };
    ReadOutcome { resolved, failed, alive }
}

} // verus!
