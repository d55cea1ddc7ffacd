use load_balancer::handler::{send_error_response, HandlerAction, HandlerError, HandlerEvent, Phase, RequestHandler};

fn selected(request: &[u8]) -> RequestHandler {
    let mut h = RequestHandler::new();
    assert_eq!(h.handle_connection_step(HandlerEvent::RequestRead(request.to_vec())), HandlerAction::SelectBackend);
    assert_eq!(
        h.handle_connection_step(HandlerEvent::BackendSelected { backend: 1, conn: 9 }),
        HandlerAction::WriteBackend { backend: 1, conn: 9 }
    );
    h
}

#[test]
fn request_bytes_pass_through_unchanged() {
    let payload = b"GET /42 HTTP/1.1\r\nHost: x\r\nX-Odd: \x00\xff\r\n\r\n";
    let h = selected(payload);
    assert_eq!(h.request().as_slice(), &payload[..]);
}

#[test]
fn response_bytes_pass_through_and_release() {
    let mut h = selected(b"GET / HTTP/1.1\r\n\r\n");
    assert_eq!(h.handle_connection_step(HandlerEvent::WriteDone), HandlerAction::ReadBackend { backend: 1, conn: 9 });
    let reply = b"HTTP/1.1 200 OK\r\n\r\nHello from a, your factors are 6".to_vec();
    assert_eq!(h.handle_connection_step(HandlerEvent::ResponseRead(reply.clone())), HandlerAction::WriteClient);
    assert_eq!(h.response(), &reply);
    assert_eq!(h.handle_connection_step(HandlerEvent::WriteDone), HandlerAction::Release { backend: 1, conn: 9 });
    assert_eq!(h.phase(), Phase::Finished);
}

#[test]
fn empty_request_is_a_disconnect() {
    let mut h = RequestHandler::new();
    assert_eq!(
        h.handle_connection_step(HandlerEvent::RequestRead(Vec::new())),
        HandlerAction::Close(HandlerError::ClientDisconnected)
    );
}

#[test]
fn read_error_is_a_disconnect() {
    let mut h = RequestHandler::new();
    assert_eq!(
        h.handle_connection_step(HandlerEvent::RequestFailed),
        HandlerAction::Close(HandlerError::ClientDisconnected)
    );
}

#[test]
fn no_backend_sends_service_unavailable() {
    let mut h = RequestHandler::new();
    h.handle_connection_step(HandlerEvent::RequestRead(b"GET / HTTP/1.1\r\n\r\n".to_vec()));
    assert_eq!(h.handle_connection_step(HandlerEvent::NoBackend), HandlerAction::WriteClient);
    let text = String::from_utf8(h.response().clone()).unwrap();
    assert!(text.starts_with("HTTP/1.1 503 Service Unavailable\r\n"));
    assert!(text.ends_with("All servers are currently unavailable"));
    assert_eq!(
        h.handle_connection_step(HandlerEvent::WriteDone),
        HandlerAction::Close(HandlerError::NoBackendAvailable)
    );
}

#[test]
fn forward_write_failure_evicts() {
    let mut h = selected(b"x");
    assert_eq!(
        h.handle_connection_step(HandlerEvent::WriteFailed),
        HandlerAction::Evict { backend: 1, conn: 9, error: HandlerError::ForwardIOError }
    );
}

#[test]
fn response_read_failure_evicts() {
    let mut h = selected(b"x");
    h.handle_connection_step(HandlerEvent::WriteDone);
    assert_eq!(
        h.handle_connection_step(HandlerEvent::ResponseFailed),
        HandlerAction::Evict { backend: 1, conn: 9, error: HandlerError::ForwardIOError }
    );
}

#[test]
fn empty_response_evicts() {
    let mut h = selected(b"x");
    h.handle_connection_step(HandlerEvent::WriteDone);
    assert_eq!(
        h.handle_connection_step(HandlerEvent::ResponseRead(Vec::new())),
        HandlerAction::Evict { backend: 1, conn: 9, error: HandlerError::EmptyBackendResponse }
    );
}

#[test]
fn relay_failure_evicts() {
    let mut h = selected(b"x");
    h.handle_connection_step(HandlerEvent::WriteDone);
    h.handle_connection_step(HandlerEvent::ResponseRead(b"y".to_vec()));
    assert_eq!(
        h.handle_connection_step(HandlerEvent::WriteFailed),
        HandlerAction::Evict { backend: 1, conn: 9, error: HandlerError::ClientWriteFailed }
    );
}

#[test]
fn unexpected_event_drops_held_connection() {
    let mut h = selected(b"x");
    assert_eq!(
        h.handle_connection_step(HandlerEvent::NoBackend),
        HandlerAction::Evict { backend: 1, conn: 9, error: HandlerError::UnexpectedEvent }
    );
    assert_eq!(
        h.handle_connection_step(HandlerEvent::WriteDone),
        HandlerAction::Close(HandlerError::UnexpectedEvent)
    );
}

#[test]
fn error_response_bytes() {
    let r = send_error_response("down");
    assert_eq!(r, b"HTTP/1.1 503 Service Unavailable\r\nContent-Type: text/plain\r\n\r\ndown".to_vec());
}
