//! What one client connection goes through: read the request, get a backend,
//! forward the request's bytes unchanged, collect the whole response, relay
//! it, and give the backend connection back to the pool or drop it.
use vstd::prelude::*;
use vstd::string::StringSliceAdditionalSpecFns;
use crate::pool::{holds_id, lemma_evict_removes, PoolModel};

verus! {

/// Status line and headers of the reply sent when no backend can be reached.
pub const UNAVAILABLE_HEAD: &'static str = "HTTP/1.1 503 Service Unavailable\r\nContent-Type: text/plain\r\n\r\n";

/// Body of the reply sent when no backend can be reached.
pub const UNAVAILABLE_MESSAGE: &'static str = "All servers are currently unavailable";

/// The bytes of the service-unavailable reply that carries `message`.
pub open spec fn unavailable_reply(message: Seq<u8>) -> Seq<u8> {
    UNAVAILABLE_HEAD.spec_bytes() + message
}

/// Builds the service-unavailable reply (a server-error status) whose body
/// is `message`.
pub fn send_error_response(message: &str) -> (r: Vec<u8>)
    ensures
        r@ == unavailable_reply(message.spec_bytes()),
{
    let mut r = vstd::slice::slice_to_vec(UNAVAILABLE_HEAD.as_bytes());
    let mut tail = vstd::slice::slice_to_vec(message.as_bytes());
    r.append(&mut tail);
    r
}

/// Where a client connection's handling stands.
#[derive(Clone, Copy, Debug, PartialEq, Eq, Structural)]
pub enum Phase {
    AwaitRequest,
    AwaitBackend,
    Forwarding,
    Collecting,
    Relaying,
    ReportingUnavailable,
    Finished,
}

/// Why the handling of a client connection ended without serving it.
#[derive(Clone, Copy, Debug, PartialEq, Eq, Structural)]
pub enum HandlerError {
    /// The client sent nothing, or reading from it failed.
    ClientDisconnected,
    /// No backend could be reached; the client was told so.
    NoBackendAvailable,
    /// Writing the request to the backend, or reading its response, failed.
    ForwardIOError,
    /// The backend closed the connection without sending anything.
    EmptyBackendResponse,
    /// Writing to the client failed.
    ClientWriteFailed,
    /// An event arrived that does not fit the current phase.
    UnexpectedEvent,
}

/// The outcome of the I/O that the handler asked for.
#[derive(Debug)]
pub enum HandlerEvent {
    /// These bytes were read from the client (none: the client closed).
    RequestRead(Vec<u8>),
    /// Reading from the client failed.
    RequestFailed,
    /// The selector chose `backend`, with connection `conn` in use.
    BackendSelected { backend: usize, conn: u64 },
    /// The selector found no reachable backend.
    NoBackend,
    /// The write asked for went through.
    WriteDone,
    /// The write asked for failed.
    WriteFailed,
    /// The backend's whole response, read until it closed.
    ResponseRead(Vec<u8>),
    /// Reading the backend's response failed.
    ResponseFailed,
}

/// `HandlerEvent` with its byte buffers as sequences.
pub enum EventModel {
    RequestRead(Seq<u8>),
    RequestFailed,
    BackendSelected { backend: usize, conn: u64 },
    NoBackend,
    WriteDone,
    WriteFailed,
    ResponseRead(Seq<u8>),
    ResponseFailed,
}

impl View for HandlerEvent {
    type V = EventModel;

    open spec fn view(&self) -> EventModel {
        match self {
            HandlerEvent::RequestRead(b) => EventModel::RequestRead(b@),
            HandlerEvent::RequestFailed => EventModel::RequestFailed,
            HandlerEvent::BackendSelected { backend, conn } => EventModel::BackendSelected {
                backend: *backend,
                conn: *conn,
            },
            HandlerEvent::NoBackend => EventModel::NoBackend,
            HandlerEvent::WriteDone => EventModel::WriteDone,
            HandlerEvent::WriteFailed => EventModel::WriteFailed,
            HandlerEvent::ResponseRead(b) => EventModel::ResponseRead(b@),
            HandlerEvent::ResponseFailed => EventModel::ResponseFailed,
        }
    }
}

/// The I/O or pool operation that the caller has to perform next.
#[derive(Clone, Copy, Debug, PartialEq, Eq, Structural)]
pub enum HandlerAction {
    /// Run a backend selection.
    SelectBackend,
    /// Write the request bytes (`request()`) to connection `conn`.
    WriteBackend { backend: usize, conn: u64 },
    /// Read from connection `conn` until the backend closes it.
    ReadBackend { backend: usize, conn: u64 },
    /// Write the reply bytes (`response()`) to the client and flush.
    WriteClient,
    /// Done, the client is served: give connection `conn` back to the pool.
    Release { backend: usize, conn: u64 },
    /// Done, with an error: drop connection `conn` from the pool.
    Evict { backend: usize, conn: u64, error: HandlerError },
    /// Done, with an error; no backend connection is held.
    Close(HandlerError),
}

/// What the handler looks like to a reader.
pub struct HandlerModel {
    pub phase: Phase,
    pub request: Seq<u8>,
    pub response: Seq<u8>,
    pub backend: usize,
    pub conn: u64,
}

impl HandlerModel {
    /// Whether a backend connection is held in this phase.
    pub open spec fn holds_conn(self) -> bool {
        self.phase == Phase::Forwarding || self.phase == Phase::Collecting || self.phase == Phase::Relaying
    }

    /// Ending on an event that does not fit: a held connection is dropped.
    pub open spec fn abort(self) -> (HandlerModel, HandlerAction) {
        if self.holds_conn() {
            (
                HandlerModel { phase: Phase::Finished, ..self },
                HandlerAction::Evict { backend: self.backend, conn: self.conn, error: HandlerError::UnexpectedEvent },
            )
        } else {
            (HandlerModel { phase: Phase::Finished, ..self }, HandlerAction::Close(HandlerError::UnexpectedEvent))
        }
    }

    pub open spec fn finish(self, a: HandlerAction) -> (HandlerModel, HandlerAction) {
        (HandlerModel { phase: Phase::Finished, ..self }, a)
    }

    pub open spec fn drop_conn(self, e: HandlerError) -> (HandlerModel, HandlerAction) {
        self.finish(HandlerAction::Evict { backend: self.backend, conn: self.conn, error: e })
    }

    /// One step of handling a client connection.
    pub open spec fn handle_next(self, ev: EventModel) -> (HandlerModel, HandlerAction) {
        match (self.phase, ev) {
            (Phase::AwaitRequest, EventModel::RequestRead(b)) => {
                if b.len() == 0 {
                    self.finish(HandlerAction::Close(HandlerError::ClientDisconnected))
                } else {
                    (HandlerModel { phase: Phase::AwaitBackend, request: b, ..self }, HandlerAction::SelectBackend)
                }
            },
            (Phase::AwaitRequest, EventModel::RequestFailed) => self.finish(
                HandlerAction::Close(HandlerError::ClientDisconnected),
            ),
            (Phase::AwaitBackend, EventModel::BackendSelected { backend, conn }) => (
                HandlerModel { phase: Phase::Forwarding, backend, conn, ..self },
                HandlerAction::WriteBackend { backend, conn },
            ),
            (Phase::AwaitBackend, EventModel::NoBackend) => (
                HandlerModel {
                    phase: Phase::ReportingUnavailable,
                    response: unavailable_reply(UNAVAILABLE_MESSAGE.spec_bytes()),
                    ..self
                },
                HandlerAction::WriteClient,
            ),
            (Phase::Forwarding, EventModel::WriteDone) => (
                HandlerModel { phase: Phase::Collecting, ..self },
                HandlerAction::ReadBackend { backend: self.backend, conn: self.conn },
            ),
            (Phase::Forwarding, EventModel::WriteFailed) => self.drop_conn(HandlerError::ForwardIOError),
            (Phase::Collecting, EventModel::ResponseRead(b)) => {
                if b.len() == 0 {
                    self.drop_conn(HandlerError::EmptyBackendResponse)
                } else {
                    (HandlerModel { phase: Phase::Relaying, response: b, ..self }, HandlerAction::WriteClient)
                }
            },
            (Phase::Collecting, EventModel::ResponseFailed) => self.drop_conn(HandlerError::ForwardIOError),
            (Phase::Relaying, EventModel::WriteDone) => self.finish(
                HandlerAction::Release { backend: self.backend, conn: self.conn },
            ),
            (Phase::Relaying, EventModel::WriteFailed) => self.drop_conn(HandlerError::ClientWriteFailed),
            (Phase::ReportingUnavailable, EventModel::WriteDone) => self.finish(
                HandlerAction::Close(HandlerError::NoBackendAvailable),
            ),
            (Phase::ReportingUnavailable, EventModel::WriteFailed) => self.finish(
                HandlerAction::Close(HandlerError::ClientWriteFailed),
            ),
            _ => self.abort(),
        }
    }
}

/// Byte-exact passthrough, client to backend: the bytes read from the
/// client are the bytes that the handler asks to write to the selected
/// backend, with no framing and no change.
pub proof fn lemma_request_passthrough(h: HandlerModel, req: Seq<u8>, backend: usize, conn: u64)
    requires
        h.phase == Phase::AwaitRequest,
        req.len() > 0,
    ensures
        ({
            let (h1, a1) = h.handle_next(EventModel::RequestRead(req));
            let (h2, a2) = h1.handle_next(EventModel::BackendSelected { backend, conn });
            &&& a1 == HandlerAction::SelectBackend
            &&& a2 == (HandlerAction::WriteBackend { backend, conn })
            &&& h2.request == req
        }),
{
}

/// Byte-exact passthrough, backend to client: the whole response read from
/// the backend is what the handler asks to write to the client, and once
/// that write is done the connection goes back to the pool.
pub proof fn lemma_response_passthrough(h: HandlerModel, resp: Seq<u8>)
    requires
        h.phase == Phase::Collecting,
        resp.len() > 0,
    ensures
        ({
            let (h1, a1) = h.handle_next(EventModel::ResponseRead(resp));
            let (h2, a2) = h1.handle_next(EventModel::WriteDone);
            &&& a1 == HandlerAction::WriteClient
            &&& h1.response == resp
            &&& a2 == (HandlerAction::Release { backend: h.backend, conn: h.conn })
        }),
{
}

/// No leak on a failed forward: when writing the request or reading the
/// response fails, the handler drops its connection from the pool, and the
/// connection is then nowhere in the pool, so that no later acquisition can
/// hand it out (see `lemma_gone_stays_gone`).
pub proof fn lemma_forward_failure_evicts(h: HandlerModel, ev: EventModel, p: PoolModel)
    requires
        h.phase == Phase::Forwarding && ev == EventModel::WriteFailed
            || h.phase == Phase::Collecting && ev == EventModel::ResponseFailed,
        p.wf(),
        forall|k: int| 0 <= k < p.conns.len() && (#[trigger] p.conns[k]).id == h.conn ==> p.conns[k].backend == h.backend,
    ensures
        h.handle_next(ev).1 == (HandlerAction::Evict {
            backend: h.backend,
            conn: h.conn,
            error: HandlerError::ForwardIOError,
        }),
        !holds_id(p.evict(h.backend, h.conn).conns, h.conn),
        p.evict(h.backend, h.conn).wf(),
        h.conn < p.next_id ==> h.conn < p.evict(h.backend, h.conn).next_id,
{
    lemma_evict_removes(p, h.backend, h.conn);
}

/// All backends down, client side: when selection finds no backend, the
/// client is sent the service-unavailable reply, and the handler holds no
/// backend connection.
pub proof fn lemma_unavailable_reply(h: HandlerModel)
    requires
        h.phase == Phase::AwaitBackend,
    ensures
        ({
            let (h1, a1) = h.handle_next(EventModel::NoBackend);
            &&& a1 == HandlerAction::WriteClient
            &&& h1.response == unavailable_reply(UNAVAILABLE_MESSAGE.spec_bytes())
            &&& !h1.holds_conn()
        }),
{
}

/// The handling of one client connection.
pub struct RequestHandler {
    phase: Phase,
    request: Vec<u8>,
    response: Vec<u8>,
    backend: usize,
    conn: u64,
}

impl View for RequestHandler {
    type V = HandlerModel;

    closed spec fn view(&self) -> HandlerModel {
        HandlerModel {
            phase: self.phase,
            request: self.request@,
            response: self.response@,
            backend: self.backend,
            conn: self.conn,
        }
    }
}

impl RequestHandler {
    /// A handler waiting for the client's request.
    pub fn new() -> (r: RequestHandler)
        ensures
            r@.phase == Phase::AwaitRequest,
            r@.request.len() == 0,
            r@.response.len() == 0,
    {
        RequestHandler { phase: Phase::AwaitRequest, request: Vec::new(), response: Vec::new(), backend: 0, conn: 0 }
    }

    pub fn phase(&self) -> (r: Phase)
        ensures
            r == self@.phase,
    {
        self.phase
    }

    /// The bytes read from the client, to be written to the backend as they are.
    pub fn request(&self) -> (r: &Vec<u8>)
        ensures
            r@ == self@.request,
    {
        &self.request
    }

    /// The bytes to be written to the client.
    pub fn response(&self) -> (r: &Vec<u8>)
        ensures
            r@ == self@.response,
    {
        &self.response
    }

    fn finish(&mut self, a: HandlerAction) -> (r: HandlerAction)
        ensures
            (final(self)@, r) == old(self)@.finish(a),
    {
        self.phase = Phase::Finished;
        a
    }

    fn drop_conn(&mut self, e: HandlerError) -> (r: HandlerAction)
        ensures
            (final(self)@, r) == old(self)@.drop_conn(e),
    {
        let a = HandlerAction::Evict { backend: self.backend, conn: self.conn, error: e };
        self.finish(a)
    }

    fn abort(&mut self) -> (r: HandlerAction)
        ensures
            (final(self)@, r) == old(self)@.abort(),
    {
        if self.phase == Phase::Forwarding || self.phase == Phase::Collecting || self.phase == Phase::Relaying {
            self.drop_conn(HandlerError::UnexpectedEvent)
        } else {
            self.finish(HandlerAction::Close(HandlerError::UnexpectedEvent))
        }
    }

    /// One step of handling a client connection: takes the outcome of the
    /// last action and says what to do next. The request is forwarded byte
    /// for byte, and the backend's response relayed byte for byte. A
    /// connection whose forward or collect step failed, or that produced an
    /// empty response, is dropped from the pool; only a fully relayed
    /// exchange gives it back.
    pub fn handle_connection_step(&mut self, event: HandlerEvent) -> (r: HandlerAction)
        ensures
            (final(self)@, r) == old(self)@.handle_next(event@),
    {
        match event {
            HandlerEvent::RequestRead(b) => {
                if self.phase != Phase::AwaitRequest {
                    self.abort()
                } else if b.len() == 0 {
                    self.finish(HandlerAction::Close(HandlerError::ClientDisconnected))
                } else {
                    self.request = b;
                    self.phase = Phase::AwaitBackend;
                    HandlerAction::SelectBackend
                }
            },
            HandlerEvent::RequestFailed => {
                if self.phase != Phase::AwaitRequest {
                    self.abort()
                } else {
                    self.finish(HandlerAction::Close(HandlerError::ClientDisconnected))
                }
            },
            HandlerEvent::BackendSelected { backend, conn } => {
                if self.phase != Phase::AwaitBackend {
                    self.abort()
                } else {
                    self.phase = Phase::Forwarding;
                    self.backend = backend;
                    self.conn = conn;
                    HandlerAction::WriteBackend { backend, conn }
                }
            },
            HandlerEvent::NoBackend => {
                if self.phase != Phase::AwaitBackend {
                    self.abort()
                } else {
                    self.phase = Phase::ReportingUnavailable;
                    self.response = send_error_response(UNAVAILABLE_MESSAGE);
                    HandlerAction::WriteClient
                }
            },
            HandlerEvent::WriteDone => {
                if self.phase == Phase::Forwarding {
                    self.phase = Phase::Collecting;
                    HandlerAction::ReadBackend { backend: self.backend, conn: self.conn }
                } else if self.phase == Phase::Relaying {
                    let a = HandlerAction::Release { backend: self.backend, conn: self.conn };
                    self.finish(a)
                } else if self.phase == Phase::ReportingUnavailable {
                    self.finish(HandlerAction::Close(HandlerError::NoBackendAvailable))
                } else {
                    self.abort()
                }
            },
            HandlerEvent::WriteFailed => {
                if self.phase == Phase::Forwarding {
                    self.drop_conn(HandlerError::ForwardIOError)
                } else if self.phase == Phase::Relaying {
                    self.drop_conn(HandlerError::ClientWriteFailed)
                } else if self.phase == Phase::ReportingUnavailable {
                    self.finish(HandlerAction::Close(HandlerError::ClientWriteFailed))
                } else {
                    self.abort()
                }
            },
            HandlerEvent::ResponseRead(b) => {
                if self.phase != Phase::Collecting {
                    self.abort()
                } else if b.len() == 0 {
                    self.drop_conn(HandlerError::EmptyBackendResponse)
                } else {
                    self.response = b;
                    self.phase = Phase::Relaying;
                    HandlerAction::WriteClient
                }
            },
            HandlerEvent::ResponseFailed => {
                if self.phase != Phase::Collecting {
                    self.abort()
                } else {
                    self.drop_conn(HandlerError::ForwardIOError)
                }
            },
        }
    }
}

} // verus!
