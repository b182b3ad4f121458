use alloy_json_rpc::{Id, Request, Response, ResponsePayload, SerializedRequest};
use reipc::correlation::{abandon, dispatch, on_read, register_request, register_wire, route};
use reipc::framing::DecodeBuffer;
use reipc::error::CallError;
use reipc::id::RequestId;
use reipc::table::{ConnState, OutstandingTable};

fn make_req(id: Id) -> SerializedRequest {
    Request::new("ping", id, ()).serialize().unwrap()
}

fn make_resp(id: u64, result: &str) -> Response {
    let text = format!("{{\"jsonrpc\":\"2.0\",\"result\":\"{}\",\"id\":{}}}", result, id);
    serde_json::from_str(&text).unwrap()
}

fn result_of(resp: &Response) -> String {
    match &resp.payload {
        ResponsePayload::Success(raw) => raw.get().to_string(),
        ResponsePayload::Failure(_) => panic!("expected a result"),
    }
}

fn id_number(r: &RequestId) -> u64 {
    match r {
        RequestId::Number(n) => *n,
        RequestId::Text(_) => panic!("expected a number"),
    }
}

#[test]
fn from_wire_reads_identifiers() {
    assert_eq!(id_number(&RequestId::from_wire(&Id::Number(9)).unwrap()), 9);
    match RequestId::from_wire(&Id::String("x".to_string())) {
        Some(RequestId::Text(s)) => assert_eq!(s, "x"),
        _ => panic!("expected a text identifier"),
    }
    assert!(RequestId::from_wire(&Id::None).is_none());
}

#[test]
fn ping_gets_its_pong() {
    let mut t = OutstandingTable::new();
    let id = register_request(&mut t, &make_req(Id::Number(1)), "caller one").unwrap();
    assert_eq!(id_number(&id), 1);
    let (w, resp) = dispatch(&mut t, make_resp(1, "pong")).unwrap();
    assert_eq!(w, "caller one");
    assert_eq!(result_of(&resp), "\"pong\"");
    assert_eq!(resp.id, Id::Number(1));
    assert_eq!(t.len(), 0);
}

#[test]
fn request_without_identifier_is_invalid() {
    let mut t = OutstandingTable::new();
    let r = register_request(&mut t, &make_req(Id::None), 1u8);
    assert_eq!(r.err(), Some(CallError::InvalidRequest));
    assert_eq!(t.len(), 0);
}

#[test]
fn duplicate_request_is_invalid() {
    let mut t = OutstandingTable::new();
    assert!(register_request(&mut t, &make_req(Id::Number(2)), 1u8).is_ok());
    let r = register_request(&mut t, &make_req(Id::Number(2)), 2u8);
    assert_eq!(r.err(), Some(CallError::InvalidRequest));
    assert_eq!(t.len(), 1);
}

#[test]
fn replies_in_reverse_order_reach_their_own_callers() {
    let mut t = OutstandingTable::new();
    assert!(register_request(&mut t, &make_req(Id::Number(1)), "first").is_ok());
    assert!(register_request(&mut t, &make_req(Id::Number(2)), "second").is_ok());
    let (w2, r2) = dispatch(&mut t, make_resp(2, "two")).unwrap();
    let (w1, r1) = dispatch(&mut t, make_resp(1, "one")).unwrap();
    assert_eq!((w2, result_of(&r2)), ("second", "\"two\"".to_string()));
    assert_eq!((w1, result_of(&r1)), ("first", "\"one\"".to_string()));
}

#[test]
fn unsolicited_response_is_dropped() {
    let mut t = OutstandingTable::new();
    assert!(register_request(&mut t, &make_req(Id::Number(1)), 1u8).is_ok());
    assert!(dispatch(&mut t, make_resp(5, "stray")).is_none());
    assert_eq!(t.len(), 1);
}

#[test]
fn route_without_identifier_drops_the_response() {
    let mut t = OutstandingTable::new();
    assert!(register_request(&mut t, &make_req(Id::Number(1)), 1u8).is_ok());
    assert!(route(&mut t, None, make_resp(1, "x")).is_none());
    assert_eq!(t.len(), 1);
}

#[test]
fn timeout_abandons_only_its_own_call() {
    let mut t = OutstandingTable::new();
    let a = register_request(&mut t, &make_req(Id::Number(2)), "slow").unwrap();
    assert!(register_request(&mut t, &make_req(Id::Number(3)), "other").is_ok());
    assert!(abandon(&mut t, &a));
    assert!(dispatch(&mut t, make_resp(2, "late")).is_none());
    let (w, _) = dispatch(&mut t, make_resp(3, "ok")).unwrap();
    assert_eq!(w, "other");
    let b = register_request(&mut t, &make_req(Id::Number(4)), "next").unwrap();
    assert_eq!(id_number(&b), 4);
}

#[test]
fn resolution_wins_over_a_late_timeout() {
    let mut t = OutstandingTable::new();
    let a = register_request(&mut t, &make_req(Id::Number(1)), 1u8).unwrap();
    assert!(dispatch(&mut t, make_resp(1, "pong")).is_some());
    assert!(!abandon(&mut t, &a));
}

#[test]
fn after_close_calls_fail_and_responses_are_dropped() {
    let mut t = OutstandingTable::new();
    assert!(register_request(&mut t, &make_req(Id::Number(1)), "pending").is_ok());
    assert_eq!(t.close(), vec!["pending"]);
    let r = register_request(&mut t, &make_req(Id::Number(2)), "late");
    assert_eq!(r.err(), Some(CallError::ConnectionClosed));
    assert!(dispatch(&mut t, make_resp(1, "pong")).is_none());
}

#[test]
fn read_routes_every_complete_response() {
    let mut t = OutstandingTable::new();
    let mut d = DecodeBuffer::new();
    assert!(register_request(&mut t, &make_req(Id::Number(1)), "a").is_ok());
    assert!(register_request(&mut t, &make_req(Id::Number(2)), "b").is_ok());
    let text = "{\"jsonrpc\":\"2.0\",\"result\":\"y\",\"id\":2}{\"jsonrpc\":\"2.0\",\"result\":\"x\",\"id\":1}";
    let out = on_read(&mut t, &mut d, text.as_bytes());
    assert!(out.alive);
    assert!(out.failed.is_empty());
    let got: Vec<(&str, String)> = out.resolved.iter().map(|(w, r)| (*w, result_of(r))).collect();
    assert_eq!(got, vec![("b", "\"y\"".to_string()), ("a", "\"x\"".to_string())]);
    assert_eq!(t.len(), 0);
}

#[test]
fn peer_closing_mid_flight_fails_the_call() {
    let mut t = OutstandingTable::new();
    let mut d = DecodeBuffer::new();
    assert!(register_request(&mut t, &make_req(Id::Number(1)), "one").is_ok());
    let text = "{\"jsonrpc\":\"2.0\",\"result\":\"pong\",\"id\":1}";
    let out = on_read(&mut t, &mut d, text.as_bytes());
    assert_eq!(out.resolved.len(), 1);
    assert_eq!(out.resolved[0].0, "one");
    assert!(register_request(&mut t, &make_req(Id::Number(2)), "two").is_ok());
    let out = on_read(&mut t, &mut d, &[]);
    assert!(!out.alive);
    assert!(out.resolved.is_empty());
    assert_eq!(out.failed, vec!["two"]);
    assert_eq!(t.state(), ConnState::Closed);
    let r = register_request(&mut t, &make_req(Id::Number(3)), "three");
    assert_eq!(r.err(), Some(CallError::ConnectionClosed));
}

#[test]
fn malformed_read_fails_everything_outstanding() {
    let mut t = OutstandingTable::new();
    let mut d = DecodeBuffer::new();
    assert!(register_request(&mut t, &make_req(Id::Number(1)), 1u8).is_ok());
    assert!(register_request(&mut t, &make_req(Id::Number(2)), 2u8).is_ok());
    let out = on_read(&mut t, &mut d, b"]");
    assert!(!out.alive);
    assert_eq!(out.failed, vec![1, 2]);
    assert_eq!(t.len(), 0);
}

#[test]
fn register_wire_follows_the_identifier() {
    let mut t = OutstandingTable::new();
    let k = register_wire(&mut t, &Id::String("abc".to_string()), 1u8).unwrap();
    assert!(k.same_as(&RequestId::Text("abc".to_string())));
    assert_eq!(register_wire(&mut t, &Id::None, 2u8).err(), Some(CallError::InvalidRequest));
    assert_eq!(
        register_wire(&mut t, &Id::String("abc".to_string()), 3u8).err(),
        Some(CallError::InvalidRequest)
    );
    t.begin_close();
    assert_eq!(register_wire(&mut t, &Id::Number(8), 4u8).err(), Some(CallError::ConnectionClosed));
    assert_eq!(t.len(), 1);
}

#[test]
fn repeated_response_resolves_the_call_once_with_the_first() {
    let mut t = OutstandingTable::new();
    let mut d = DecodeBuffer::new();
    assert!(register_request(&mut t, &make_req(Id::Number(1)), "one").is_ok());
    assert!(register_request(&mut t, &make_req(Id::Number(2)), "two").is_ok());
    let text = "{\"jsonrpc\":\"2.0\",\"result\":\"first\",\"id\":1}{\"jsonrpc\":\"2.0\",\"result\":\"second\",\"id\":1}";
    let out = on_read(&mut t, &mut d, text.as_bytes());
    assert!(out.alive);
    assert_eq!(out.resolved.len(), 1);
    assert_eq!(out.resolved[0].0, "one");
    assert_eq!(result_of(&out.resolved[0].1), "\"first\"");
    assert_eq!(t.len(), 1);
    assert!(t.contains(&RequestId::Number(2)));
}
