use diakonos::codec::{
    decode_request, decode_response, encode_request, encode_response, escape_token,
    split_record, unescape_token,
};
use diakonos::ipc::{Request, Response};
use diakonos::service::ServiceState;

fn req_round_trip(q: Request) {
    let line = encode_request(&q);
    assert!(!line.contains('\n'));
    assert_eq!(decode_request(line.as_str()), Some(q));
}

fn resp_round_trip(r: Response) {
    let line = encode_response(&r);
    assert!(!line.contains('\n'));
    assert_eq!(decode_response(line.as_str()), Some(r));
}

#[test]
fn request_round_trips_every_variant() {
    req_round_trip(Request::Start { service: "web".to_string() });
    req_round_trip(Request::Stop { service: "db".to_string() });
    req_round_trip(Request::Restart { service: "api".to_string() });
    req_round_trip(Request::Status { service: "cache".to_string() });
    req_round_trip(Request::List);
    req_round_trip(Request::Ping);
    req_round_trip(Request::Shutdown);
}

#[test]
fn request_round_trips_awkward_names() {
    req_round_trip(Request::Start { service: "".to_string() });
    req_round_trip(Request::Start { service: "a name with spaces".to_string() });
    req_round_trip(Request::Stop { service: "line\nbreak".to_string() });
    req_round_trip(Request::Status { service: "back\\slash \\n".to_string() });
}

#[test]
fn response_round_trips_every_variant() {
    resp_round_trip(Response::Okay { message: "Service 'web' started successfully".to_string() });
    resp_round_trip(Response::Error { message: "Failed to start service 'web': boom".to_string() });
    resp_round_trip(Response::Status { service: "web".to_string(), state: ServiceState::Running });
    resp_round_trip(Response::Status { service: "web".to_string(), state: ServiceState::Stopping });
    resp_round_trip(Response::Pong);
}

#[test]
fn response_round_trips_lists() {
    resp_round_trip(Response::List { services: vec![] });
    resp_round_trip(Response::List {
        services: vec![
            ("web".to_string(), ServiceState::Running),
            ("db spaced".to_string(), ServiceState::Failed),
            ("".to_string(), ServiceState::Stopped),
        ],
    });
}

#[test]
fn escaping_is_invertible_and_token_safe() {
    let nasty = "a b\\c\nd";
    let token = escape_token(nasty);
    assert!(!token.contains(' '));
    assert!(!token.contains('\n'));
    assert_eq!(unescape_token(token.as_str()), Some(nasty.to_string()));
}

#[test]
fn malformed_tokens_do_not_decode() {
    assert_eq!(unescape_token("dangling\\"), None);
    assert_eq!(unescape_token("bad\\x"), None);
}

#[test]
fn malformed_records_do_not_decode() {
    assert_eq!(decode_request(""), None);
    assert_eq!(decode_request("bogus"), None);
    assert_eq!(decode_request("start a b"), None);
    assert_eq!(decode_request("ok done"), None);
    assert_eq!(decode_response(""), None);
    assert_eq!(decode_response("status NotAState web"), None);
    assert_eq!(decode_response("list Running"), None);
}

#[test]
fn split_keeps_empty_tokens() {
    assert_eq!(split_record("a  b"), vec!["a".to_string(), "".to_string(), "b".to_string()]);
    assert_eq!(split_record(""), vec!["".to_string()]);
}
