use vstd::prelude::*;
use alloy_json_rpc::Response;
use crate::correlation::{resp_id, response_wire_id_of};
use crate::id::{wire_id_view, IdView};

verus! {

/// What serde_json's stream decoder finds at the start of `b`:
/// `Ok(Some((n, id)))`, a complete response in the first `n` bytes, carrying
/// `id`; `Ok(None)`, no complete value yet; `Err(())`, bytes that can never
/// become a response.
pub uninterp spec fn json_frame(b: Seq<u8>) -> Result<Option<(nat, Option<IdView>)>, ()>;

/// The length of the complete response at the start of `b`, if there is one.
pub open spec fn frame_len(b: Seq<u8>) -> Option<nat> {
    match json_frame(b) {
        Ok(Some(f)) => if 0 < f.0 <= b.len() {
            Some(f.0)
        } else {
            None
        },
        _ => None,
    }
}

/// What stays of `b` once every complete response at its start is taken.
pub open spec fn leftover(b: Seq<u8>) -> Seq<u8>
    decreases b.len(),
{
    match frame_len(b) {
        Some(n) => leftover(b.subrange(n as int, b.len() as int)),
        None => b,
    }
}

/// The identifier of the complete response at the start of `b`.
pub open spec fn frame_id(b: Seq<u8>) -> Option<IdView> {
    match json_frame(b) {
        Ok(Some(f)) => f.1,
        _ => None,
    }
}

/// The identifiers of the complete responses that stand, one after the
/// other, at the start of `b`.
pub open spec fn frame_ids(b: Seq<u8>) -> Seq<Option<IdView>>
    decreases b.len(),
{
    match frame_len(b) {
        Some(n) => seq![frame_id(b)] + frame_ids(b.subrange(n as int, b.len() as int)),
        None => Seq::empty(),
    }
}

/// The identifiers carried by `v`'s responses, in order.
pub open spec fn ids_of(v: Seq<Response>) -> Seq<Option<IdView>> {
    v.map_values(|x: Response| resp_id(x))
}

/// Whether the bytes after the complete responses of `b` are malformed.
pub open spec fn stream_broken(b: Seq<u8>) -> bool {
    json_frame(leftover(b)) is Err
}

/// The outcome of one attempt to decode a response.
pub enum Decoded {
    /// A response, and the number of bytes it took.
    Value(Response, usize),
    /// The bytes hold no complete value yet.
    NeedMore,
    /// The bytes can never become a response.
    Malformed,
}

/// Relies on serde_json's `StreamDeserializer` over `Response`: it decodes
/// the first value of `b` and reports, through `byte_offset`, where it ended
/// (past at least the value's first byte); an end-of-input error, or no value
/// at all, means that more bytes are needed.
#[verifier::external_body]
fn decode_next(b: &[u8]) -> (r: Decoded)
    ensures
        r matches Decoded::Value(v, n) ==> json_frame(b@) matches Ok(Some(f)) && f.0 == n && f.1
            == wire_id_view(response_wire_id_of(v)) && 0 < n <= b@.len(),
        r is NeedMore ==> json_frame(b@) matches Ok(None),
        r is Malformed ==> json_frame(b@) is Err,
{
    let mut it = serde_json::Deserializer::from_slice(b).into_iter::<Response>();
    match it.next() {
        None => Decoded::NeedMore,
        Some(Ok(v)) => Decoded::Value(v, it.byte_offset()),
        Some(Err(e)) => if e.is_eof() {
            Decoded::NeedMore
        } else {
            Decoded::Malformed
        },
    }
}

/// Bytes read from the connection that do not yet form a complete response.
pub struct DecodeBuffer {
    bytes: Vec<u8>,
}

impl View for DecodeBuffer {
    type V = Seq<u8>;

    closed spec fn view(&self) -> Seq<u8> {
        self.bytes@
    }
}

impl DecodeBuffer {
    /// An empty buffer.
    pub fn new() -> (r: Self)
        ensures
            r@ == Seq::<u8>::empty(),
    {
        DecodeBuffer { bytes: Vec::new() }
    }

    /// The number of bytes held.
    pub fn len(&self) -> (r: usize)
        ensures
            r == self@.len(),
    {
        self.bytes.len()
    }

    /// Appends bytes that were read.
    pub fn extend(&mut self, chunk: &[u8])
        ensures
            final(self)@ == old(self)@ + chunk@,
    {
        let mut i: usize = 0;
        while i < chunk.len()
            invariant
                i <= chunk@.len(),
                self@ == old(self)@ + chunk@.subrange(0, i as int),
            decreases chunk@.len() - i,
        {
            self.bytes.push(chunk[i]);
            i = i + 1;
            assert(self@ =~= old(self)@ + chunk@.subrange(0, i as int));
        }
        assert(chunk@.subrange(0, i as int) =~= chunk@);
    }

    /// Takes every complete response at the start of the buffer, in order,
    /// and keeps the rest for the next read. The flag tells whether the bytes
    /// that are left can never become a response.
    pub fn take_responses(&mut self) -> (r: (Vec<Response>, bool))
        ensures
            ids_of(r.0@) == frame_ids(old(self)@),
            final(self)@ == leftover(old(self)@),
            r.1 == stream_broken(old(self)@),
    {
        let mut out: Vec<Response> = Vec::new();
        loop
            invariant
                leftover(self@) == leftover(old(self)@),
                ids_of(out@) + frame_ids(self@) == frame_ids(old(self)@),
            decreases self@.len(),
        {
            match decode_next(self.bytes.as_slice()) {
                Decoded::Value(v, n) => {
                    let ghost before = self@;
                    let ghost outv = out@;
                    let rest = self.bytes.split_off(n);
                    self.bytes = rest;
                    out.push(v);
                    assert(ids_of(out@) =~= ids_of(outv) + seq![frame_id(before)]);
                    assert(ids_of(out@) + frame_ids(self@) =~= ids_of(outv) + frame_ids(before));
                },
                Decoded::NeedMore => {
                    assert(ids_of(out@) + frame_ids(self@) =~= ids_of(out@));
                    return (out, false);
                },
                Decoded::Malformed => {
                    assert(ids_of(out@) + frame_ids(self@) =~= ids_of(out@));
                    return (out, true);
                },
            }
        }
    }

    /// Handles one read from the connection: an empty read is the peer's end
    /// of stream. Hands back the responses now complete, and whether the
    /// connection is still alive: it dies at the end of stream and on bytes
    /// that can never become a response.
    pub fn on_read(&mut self, chunk: &[u8]) -> (r: (Vec<Response>, bool))
        ensures
            chunk@.len() == 0 ==> r.0@.len() == 0 && !r.1 && final(self)@ == old(self)@,
            chunk@.len() > 0 ==> {
                &&& ids_of(r.0@) == frame_ids(old(self)@ + chunk@)
                &&& final(self)@ == leftover(old(self)@ + chunk@)
                &&& r.1 == !stream_broken(old(self)@ + chunk@)
            },
    {
        if chunk.len() == 0 {
            return (Vec::new(), false);
        }
        self.extend(chunk);
        let (out, broken) = self.take_responses();
        (out, !broken)
    }
}

} // verus!
