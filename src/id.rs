use vstd::prelude::*;
use alloy_json_rpc::Id;

verus! {

#[verifier::external_type_specification]
pub struct ExId(Id);

/// A request identifier that can correlate a response with its request:
/// a number or a string (a null identifier correlates nothing).
#[derive(Debug)]
pub enum RequestId {
    Number(u64),
    Text(String),
}

/// The mathematical value of a [`RequestId`].
pub enum IdView {
    Number(u64),
    Text(Seq<char>),
}

impl View for RequestId {
    type V = IdView;

    open spec fn view(&self) -> IdView {
        match self {
            RequestId::Number(n) => IdView::Number(*n),
            RequestId::Text(s) => IdView::Text(s@),
        }
    }
}

/// The identifier that a wire identifier stands for, if it is not null.
pub open spec fn wire_id_view(w: Id) -> Option<IdView> {
    match w {
        Id::Number(n) => Some(IdView::Number(n)),
        Id::String(s) => Some(IdView::Text(s@)),
        Id::None => None,
    }
}

/// The identifier an optional identifier stands for.
pub open spec fn opt_view(id: Option<RequestId>) -> Option<IdView> {
    match id {
        Some(k) => Some(k@),
        None => None,
    }
}

impl RequestId {
    /// Whether two identifiers are the same identifier.
    pub fn same_as(&self, other: &RequestId) -> (r: bool)
        ensures
            r == (self@ == other@),
    {
        match (self, other) {
            (RequestId::Number(a), RequestId::Number(b)) => *a == *b,
            (RequestId::Text(a), RequestId::Text(b)) => {
                let r = a.eq(b);
                proof {
                    if r {
                        assert(self@ == other@);
                    }
                }
                r
            },
            _ => false,
        }
    }

    /// A copy of this identifier.
    pub fn clone_id(&self) -> (r: RequestId)
        ensures
            r@ == self@,
    {
        match self {
            RequestId::Number(n) => RequestId::Number(*n),
            RequestId::Text(s) => RequestId::Text(s.clone()),
        }
    }

    /// Reads a wire identifier; a null one gives `None`.
    pub fn from_wire(w: &Id) -> (r: Option<RequestId>)
        ensures
            r matches Some(k) ==> wire_id_view(*w) == Some(k@),
            r is None ==> wire_id_view(*w) is None,
    {
        match w {
            Id::Number(n) => Some(RequestId::Number(*n)),
            Id::String(s) => Some(RequestId::Text(s.clone())),
            Id::None => None,
        }
    }
}

} // verus!
