use rendezvous::faults::{fault_response, MiddlewareFault};

#[test]
fn timed_out_request_gets_request_timeout() {
    let (code, message) = fault_response(&MiddlewareFault::TimedOut);
    assert_eq!(code, 408);
    assert_eq!(message, "request timed out");
}

#[test]
fn shed_request_gets_service_unavailable() {
    let (code, message) = fault_response(&MiddlewareFault::Overloaded);
    assert_eq!(code, 503);
    assert_eq!(message, "service is overloaded, try again later");
}

#[test]
fn other_fault_gets_internal_server_error() {
    let (code, message) = fault_response(&MiddlewareFault::Other);
    assert_eq!(code, 500);
    assert_eq!(message, "Unhandled internal error");
}
