use stabilizer_server::codec::{AccessRequest, Request, Response};
use stabilizer_server::router::{
    read_reply, write_reply, Access, Dispatch, ReadOutcome, Registry, WriteOutcome,
};

fn text(r: &Response) -> String {
    String::from_utf8(r.encode().unwrap()).unwrap()
}

fn request(req: AccessRequest, attribute: &str, value: &str) -> Request {
    Request { req, attribute: attribute.as_bytes().to_vec(), value: value.as_bytes().to_vec() }
}

fn registry() -> Registry {
    let mut reg = Registry::new();
    assert!(reg.register(b"x", Access::ReadOnly));
    assert!(reg.register(b"w", Access::WriteOnly));
    assert!(reg.register(b"rw", Access::ReadWrite));
    reg
}

fn reply_of(d: Dispatch) -> Option<String> {
    match d {
        Dispatch::Reply(r) => Some(text(&r)),
        _ => None,
    }
}

#[test]
fn read_with_getter_encodes_success() {
    let reg = registry();
    let req = request(AccessRequest::Read, "x", "");
    assert!(matches!(reg.dispatch(&req), Dispatch::CallGetter));
    let r = read_reply(&req.attribute, &ReadOutcome::Encoded(b"{\"foo\":1}".to_vec()));
    assert_eq!(text(&r), "{\"code\":200,\"attribute\":\"x\",\"value\":\"{'foo':1}\"}\n");
}

#[test]
fn write_unknown_attribute() {
    let reg = registry();
    let req = request(AccessRequest::Write, "nope", "1");
    assert_eq!(
        reply_of(reg.dispatch(&req)).unwrap(),
        "{\"code\":400,\"attribute\":\"nope\",\"value\":\"'Unknown attribute'\"}\n"
    );
}

#[test]
fn read_of_setter_only_is_unknown() {
    let reg = registry();
    let only_setter = reply_of(reg.dispatch(&request(AccessRequest::Read, "w", ""))).unwrap();
    assert_eq!(only_setter, "{\"code\":400,\"attribute\":\"w\",\"value\":\"'Unknown attribute'\"}\n");
    let mut reg2 = Registry::new();
    assert!(reg2.register(b"other", Access::ReadWrite));
    let absent = reply_of(reg2.dispatch(&request(AccessRequest::Read, "w", ""))).unwrap();
    assert_eq!(only_setter, absent);
}

#[test]
fn write_of_getter_only_is_unknown() {
    let reg = registry();
    assert_eq!(
        reply_of(reg.dispatch(&request(AccessRequest::Write, "x", "1"))).unwrap(),
        "{\"code\":400,\"attribute\":\"x\",\"value\":\"'Unknown attribute'\"}\n"
    );
}

#[test]
fn dispatch_calls_handlers() {
    let reg = registry();
    assert!(matches!(reg.dispatch(&request(AccessRequest::Write, "w", "1")), Dispatch::CallSetter));
    assert!(matches!(reg.dispatch(&request(AccessRequest::Read, "rw", "")), Dispatch::CallGetter));
    assert!(matches!(reg.dispatch(&request(AccessRequest::Write, "rw", "1")), Dispatch::CallSetter));
    assert!(matches!(reg.dispatch(&request(AccessRequest::Read, "r", "")), Dispatch::Reply(_)));
}

#[test]
fn read_failures() {
    assert_eq!(
        text(&read_reply(b"x", &ReadOutcome::GetFailed)),
        "{\"code\":400,\"attribute\":\"x\",\"value\":\"'Failed to read attribute'\"}\n"
    );
    assert_eq!(
        text(&read_reply(b"x", &ReadOutcome::EncodeFailed)),
        "{\"code\":400,\"attribute\":\"x\",\"value\":\"'Failed to encode attribute value'\"}\n"
    );
}

#[test]
fn write_outcomes() {
    assert_eq!(
        text(&write_reply(b"w", b"{\"k\":2}", WriteOutcome::Done)),
        "{\"code\":200,\"attribute\":\"w\",\"value\":\"{'k':2}\"}\n"
    );
    assert_eq!(
        text(&write_reply(b"w", b"zz", WriteOutcome::DecodeFailed)),
        "{\"code\":400,\"attribute\":\"w\",\"value\":\"'Failed to decode value'\"}\n"
    );
    assert_eq!(
        text(&write_reply(b"w", b"1", WriteOutcome::SetFailed)),
        "{\"code\":400,\"attribute\":\"w\",\"value\":\"'Failed to set attribute'\"}\n"
    );
}

#[test]
fn register_refuses_duplicate_and_lookup() {
    let mut reg = registry();
    assert!(!reg.register(b"x", Access::WriteOnly));
    assert_eq!(reg.lookup(b"x"), Some(Access::ReadOnly));
    assert_eq!(reg.lookup(b"rw"), Some(Access::ReadWrite));
    assert_eq!(reg.lookup(b"zz"), None);
}
