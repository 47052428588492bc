//! One connection, from the first read to the close, as a state machine.
//!
//! The session does no I/O. It says what is to be done next; the program that
//! owns the sockets does it and reports how it went. A report that does not
//! answer what the session asked for changes nothing.
use vstd::prelude::*;
use vstd::slice::slice_to_vec;
use vstd::string::StringSliceAdditionalSpecFns;
use vstd::utf8::{decode_utf8, valid_utf8};
use crate::capture::{lemma_empty_holds_no_terminator, terminator, CaptureState, CaptureStatus};
use crate::capture::{HeadCapture, DEFAULT_CAPACITY};
use crate::error::ProxyError;
use crate::request::{Request, RequestView};
use crate::search::{contains, lemma_first_occurrence_none};
use crate::target::{classified, classify, Mode, Target, TargetView};
use crate::text::lossy_text;

verus! {

/// How far a connection has come.
#[derive(Clone, Copy, Debug, PartialEq, Eq, Structural)]
pub enum Stage {
    /// The request head is being read.
    Capturing,
    /// The upstream is being connected.
    Connecting,
    /// The handshake is being written.
    Handshaking,
    /// Bytes are relayed in both directions.
    Relaying,
    /// The connection is over.
    Closed,
}

/// What the driver reports to the session.
#[derive(Clone, Copy, Debug)]
pub enum Event<'a> {
    /// A read from the client returned these bytes, none where the client
    /// closed the stream.
    Read(&'a [u8]),
    /// The upstream is connected.
    Connected,
    /// The handshake is written in full.
    Written,
    /// The relay has ended, because a stream ended or because one failed.
    RelayEnded,
    /// What the session asked for failed.
    Failed,
}

/// The mathematical value of an [`Event`].
pub enum EventView {
    Read(Seq<u8>),
    Connected,
    Written,
    RelayEnded,
    Failed,
}

impl<'a> View for Event<'a> {
    type V = EventView;

    open spec fn view(&self) -> EventView {
        match self {
            Event::Read(bytes) => EventView::Read(bytes@),
            Event::Connected => EventView::Connected,
            Event::Written => EventView::Written,
            Event::RelayEnded => EventView::RelayEnded,
            Event::Failed => EventView::Failed,
        }
    }
}

/// What the session asks the driver to do.
#[derive(Debug, PartialEq, Eq)]
pub enum Action {
    /// Read from the client, at most `max` bytes, and report what came.
    Read { max: usize },
    /// Connect to the upstream at `address`.
    Connect { address: String },
    /// Write `bytes` to the client, all of them.
    WriteClient { bytes: Vec<u8> },
    /// Write `bytes` to the upstream, all of them.
    WriteUpstream { bytes: Vec<u8> },
    /// Copy bytes between client and upstream, in both directions, until
    /// either direction ends or fails.
    Relay,
    /// Close what is open. `failure` says why the connection was given up,
    /// where it was.
    Close { failure: Option<ProxyError> },
}

/// The mathematical value of an [`Action`].
pub enum ActionView {
    Read { max: usize },
    Connect { address: Seq<char> },
    WriteClient { bytes: Seq<u8> },
    WriteUpstream { bytes: Seq<u8> },
    Relay,
    Close { failure: Option<ProxyError> },
}

impl View for Action {
    type V = ActionView;

    open spec fn view(&self) -> ActionView {
        match self {
            Action::Read { max } => ActionView::Read { max: *max },
            Action::Connect { address } => ActionView::Connect { address: address@ },
            Action::WriteClient { bytes } => ActionView::WriteClient { bytes: bytes@ },
            Action::WriteUpstream { bytes } => ActionView::WriteUpstream { bytes: bytes@ },
            Action::Relay => ActionView::Relay,
            Action::Close { failure } => ActionView::Close { failure: *failure },
        }
    }
}

/// What a client that asked for a tunnel is told once the upstream is
/// connected: the bytes of this text.
pub open spec fn tunnel_reply() -> Seq<u8> {
    "HTTP/1.1 200 Connection established\r\n\r\n".spec_bytes()
}

/// The mathematical state of a [`Session`].
pub struct SessionView {
    pub capture: CaptureState,
    pub stage: Stage,
    pub request: Option<RequestView>,
    pub target: Option<TargetView>,
    pub failure: Option<ProxyError>,
}

impl SessionView {
    /// The parts of the state agree with the stage.
    pub open spec fn valid(self) -> bool {
        &&& self.capture.valid()
        &&& match self.stage {
            Stage::Capturing => {
                &&& self.capture.status is Reading
                &&& self.request is None
                &&& self.target is None
                &&& self.failure is None
            },
            Stage::Connecting | Stage::Handshaking | Stage::Relaying => {
                &&& self.capture.status is Complete
                &&& self.request is Some
                &&& self.target is Some
                &&& self.failure is None
            },
            Stage::Closed => true,
        }
    }

    /// A session before its first read.
    pub open spec fn start(capacity: usize) -> SessionView {
        SessionView {
            capture: CaptureState::start(capacity),
            stage: if capacity == 0 {
                Stage::Closed
            } else {
                Stage::Capturing
            },
            request: None,
            target: None,
            failure: if capacity == 0 {
                Some(ProxyError::HeadTooLarge)
            } else {
                None
            },
        }
    }

    /// The session, closed.
    pub open spec fn closed(self, failure: Option<ProxyError>) -> SessionView {
        SessionView { stage: Stage::Closed, failure, ..self }
    }

    /// What the handshake writes, and to whom.
    pub open spec fn handshake(mode: Mode, captured: Seq<u8>) -> ActionView {
        match mode {
            Mode::Tunnel => ActionView::WriteClient { bytes: tunnel_reply() },
            Mode::Forward => ActionView::WriteUpstream { bytes: captured },
        }
    }

    /// What the session is waiting for.
    pub open spec fn pending(self) -> ActionView {
        match self.stage {
            Stage::Capturing => ActionView::Read { max: self.capture.room() as usize },
            Stage::Connecting => ActionView::Connect { address: self.target->0.address },
            Stage::Handshaking => SessionView::handshake(self.target->0.mode, self.capture.data),
            Stage::Relaying => ActionView::Relay,
            Stage::Closed => ActionView::Close { failure: self.failure },
        }
    }

    /// The state after a read during the capture. While the head is
    /// incomplete the session goes on reading. A stream that the client
    /// closed ends the session without a failure; a full buffer ends it with
    /// one. A complete head is classified: the session goes on to connect, or
    /// ends with what the classification failed on.
    pub open spec fn after_read(self, chunk: Seq<u8>) -> SessionView {
        let capture = self.capture.feed(chunk);
        let fed = SessionView { capture, ..self };
        match capture.status {
            CaptureStatus::Reading => fed,
            CaptureStatus::Closed => fed.closed(None),
            CaptureStatus::Overflow => fed.closed(Some(ProxyError::HeadTooLarge)),
            CaptureStatus::Complete { .. } => match classified(capture.head()->0) {
                Err(e) => fed.closed(Some(e)),
                Ok(pair) => SessionView {
                    stage: Stage::Connecting,
                    request: Some(pair.0),
                    target: Some(pair.1),
                    ..fed
                },
            },
        }
    }

    /// The state after `event`.
    pub open spec fn after(self, event: EventView) -> SessionView {
        match (self.stage, event) {
            (Stage::Capturing, EventView::Read(chunk)) => self.after_read(chunk),
            (Stage::Capturing, EventView::Failed) => self.closed(Some(ProxyError::ClientRead)),
            (Stage::Connecting, EventView::Connected) => SessionView {
                stage: Stage::Handshaking,
                ..self
            },
            (Stage::Connecting, EventView::Failed) => self.closed(
                Some(ProxyError::UpstreamConnect),
            ),
            (Stage::Handshaking, EventView::Written) => SessionView {
                stage: Stage::Relaying,
                ..self
            },
            (Stage::Handshaking, EventView::Failed) => self.closed(
                Some(ProxyError::HandshakeWrite),
            ),
            (Stage::Relaying, EventView::RelayEnded) => self.closed(None),
            (Stage::Relaying, EventView::Failed) => self.closed(None),
            _ => self,
        }
    }
}

impl SessionView {
    /// The state after `events`, in that order.
    pub open spec fn after_all(self, events: Seq<EventView>) -> SessionView
        decreases events.len(),
    {
        if events.len() == 0 {
            self
        } else {
            self.after(events.first()).after_all(events.drop_first())
        }
    }

    /// The reads that returned `chunks`, as events.
    pub open spec fn reads(chunks: Seq<Seq<u8>>) -> Seq<EventView> {
        Seq::new(chunks.len(), |i: int| EventView::Read(chunks[i]))
    }

    /// Every event leaves a valid session valid.
    pub proof fn lemma_after_valid(self, event: EventView)
        requires
            self.valid(),
        ensures
            self.after(event).valid(),
    {
        if let EventView::Read(chunk) = event {
            self.capture.lemma_feed_valid(chunk);
        }
    }

    /// A session that is over stays as it is, whatever is reported to it.
    pub proof fn lemma_closed_stays(self, event: EventView)
        requires
            self.stage is Closed,
        ensures
            self.after(event) == self,
    {
    }

    /// The stages are passed in order, each on the one event that answers
    /// it. In particular no byte is relayed before the upstream is connected
    /// and the handshake is written in full.
    pub proof fn lemma_stages_in_order(self, event: EventView)
        requires
            self.valid(),
            self.after(event).stage != self.stage,
        ensures
            match self.after(event).stage {
                Stage::Capturing => false,
                Stage::Connecting => self.stage is Capturing && event is Read,
                Stage::Handshaking => self.stage is Connecting && event is Connected,
                Stage::Relaying => self.stage is Handshaking && event is Written,
                Stage::Closed => true,
            },
    {
    }

    /// Once the upstream of a tunnel is connected, the client is sent the
    /// fixed reply and the upstream nothing; once the upstream of any other
    /// request is connected, it is sent all that was captured, as it came.
    /// When that is written, and not before, the relay starts.
    pub proof fn lemma_handshake(self)
        requires
            self.valid(),
            self.stage is Connecting,
        ensures
            self.target->0.mode is Tunnel ==> self.after(EventView::Connected).pending()
                == (ActionView::WriteClient { bytes: tunnel_reply() }),
            self.target->0.mode is Forward ==> self.after(EventView::Connected).pending()
                == (ActionView::WriteUpstream { bytes: self.capture.data }),
            self.after(EventView::Connected).after(EventView::Written).pending()
                == ActionView::Relay,
    {
    }

    /// An upstream that cannot be connected ends the session with that failure.
    pub proof fn lemma_refused_upstream(self)
        requires
            self.stage is Connecting,
        ensures
            self.after(EventView::Failed).pending() == (ActionView::Close {
                failure: Some(ProxyError::UpstreamConnect),
            }),
    {
    }

    /// Reads do not move a session that no longer captures.
    pub proof fn lemma_reads_after_capture(self, chunks: Seq<Seq<u8>>)
        requires
            !(self.stage is Capturing),
        ensures
            self.after_all(SessionView::reads(chunks)) == self,
        decreases chunks.len(),
    {
        let events = SessionView::reads(chunks);
        if chunks.len() > 0 {
            assert(events.drop_first() =~= SessionView::reads(chunks.drop_first()));
            self.lemma_reads_after_capture(chunks.drop_first());
        }
    }

    /// What a session comes to does not depend on how the client's stream is
    /// cut into reads: it is in the same stage, with the same request, the
    /// same upstream and the same failure, as after one read of the whole.
    pub proof fn lemma_fragmentation(self, chunks: Seq<Seq<u8>>)
        requires
            self.valid(),
            chunks.len() > 0,
            forall|i: int| 0 <= i < chunks.len() ==> (#[trigger] chunks[i]).len() > 0,
        ensures
            ({
                let apart = self.after_all(SessionView::reads(chunks));
                let whole = self.after(EventView::Read(chunks.flatten()));
                &&& apart.stage == whole.stage
                &&& apart.request == whole.request
                &&& apart.target == whole.target
                &&& apart.failure == whole.failure
                &&& apart.capture.status == whole.capture.status
                &&& apart.capture.head() == whole.capture.head()
            }),
        decreases chunks.len(),
    {
        let events = SessionView::reads(chunks);
        let rest = chunks.drop_first();
        let next = self.after(events.first());
        assert(events.drop_first() =~= SessionView::reads(rest));
        assert(chunks.flatten() == chunks.first() + rest.flatten());
        if !(self.stage is Capturing) {
            self.lemma_reads_after_capture(chunks);
        } else if rest.len() == 0 {
            assert(chunks.flatten() =~= chunks.first());
        } else {
            self.lemma_after_valid(events.first());
            assert forall|i: int| 0 <= i < rest.len() implies (#[trigger] rest[i]).len() > 0 by {
                assert(rest[i] == chunks[i + 1]);
            }
            next.capture.lemma_fragmentation(rest);
            self.capture.lemma_feed_split(chunks.first(), rest.flatten());
            if next.stage is Capturing {
                next.lemma_fragmentation(rest);
            } else {
                next.lemma_reads_after_capture(rest);
            }
        }
    }

    /// A stream whose first `capacity` bytes hold no terminator ends the
    /// session with the failure of a head too large, however it is cut into
    /// reads.
    pub proof fn lemma_overflow(capacity: usize, chunks: Seq<Seq<u8>>)
        requires
            chunks.len() > 0,
            forall|i: int| 0 <= i < chunks.len() ==> (#[trigger] chunks[i]).len() > 0,
            chunks.flatten().len() >= capacity,
            !contains(chunks.flatten().take(capacity as int), terminator()),
        ensures
            SessionView::start(capacity).after_all(SessionView::reads(chunks)).pending()
                == (ActionView::Close { failure: Some(ProxyError::HeadTooLarge) }),
    {
        let start = SessionView::start(capacity);
        lemma_empty_holds_no_terminator();
        lemma_first_occurrence_none(Seq::<u8>::empty(), terminator());
        if capacity == 0 {
            start.lemma_reads_after_capture(chunks);
        } else {
            CaptureState::lemma_overflow(capacity, chunks);
            start.capture.lemma_fragmentation(chunks);
            start.lemma_fragmentation(chunks);
        }
    }
}

/// One connection of the proxy.
pub struct Session {
    capture: HeadCapture,
    stage: Stage,
    request: Option<Request>,
    target: Option<Target>,
    failure: Option<ProxyError>,
}

impl View for Session {
    type V = SessionView;

    closed spec fn view(&self) -> SessionView {
        SessionView {
            capture: self.capture@,
            stage: self.stage,
            request: match self.request {
                Some(request) => Some(request@),
                None => None,
            },
            target: match self.target {
                Some(target) => Some(target@),
                None => None,
            },
            failure: self.failure,
        }
    }
}

/// The bytes that tell a client that its tunnel stands.
pub fn tunnel_reply_bytes() -> (bytes: Vec<u8>)
    ensures
        bytes@ == tunnel_reply(),
{
    slice_to_vec("HTTP/1.1 200 Connection established\r\n\r\n".as_bytes())
}

impl Session {
    /// Of a head that is valid UTF-8, the text that the session read it as is
    /// the one that it encodes.
    pub open spec fn head_text_known(&self) -> bool {
        match self@.capture.head() {
            Some(head) => valid_utf8(head) ==> lossy_text(head) == decode_utf8(head),
            None => true,
        }
    }

    /// The invariant of a session: the parts of its state agree with its
    /// stage, and the text of its head is known as far as std documents it.
    pub open spec fn wf(&self) -> bool {
        &&& self@.valid()
        &&& self.head_text_known()
    }

    /// A session whose head may take up to [`DEFAULT_CAPACITY`] bytes.
    pub fn new() -> (session: Session)
        ensures
            session.wf(),
            session@ == SessionView::start(DEFAULT_CAPACITY),
    {
        Session::with_capacity(DEFAULT_CAPACITY)
    }

    /// A session whose head may take up to `capacity` bytes.
    pub fn with_capacity(capacity: usize) -> (session: Session)
        ensures
            session.wf(),
            session@ == SessionView::start(capacity),
    {
        let capture = HeadCapture::with_capacity(capacity);
        if capacity == 0 {
            Session {
                capture,
                stage: Stage::Closed,
                request: None,
                target: None,
                failure: Some(ProxyError::HeadTooLarge),
            }
        } else {
            Session { capture, stage: Stage::Capturing, request: None, target: None, failure: None }
        }
    }

    /// How far the connection has come.
    pub fn stage(&self) -> (stage: Stage)
        ensures
            stage == self@.stage,
    {
        self.stage
    }

    /// Why the connection was given up, where it was.
    pub fn failure(&self) -> (failure: Option<ProxyError>)
        ensures
            failure == self@.failure,
    {
        self.failure
    }

    /// The request line, once the head is classified.
    pub fn request_line(&self) -> (line: Option<&str>)
        ensures
            match line {
                Some(text) => self@.request is Some && text@ == self@.request->0.line,
                None => self@.request is None,
            },
    {
        match &self.request {
            Some(request) => Some(request.line.as_str()),
            None => None,
        }
    }

    /// What the session is waiting for.
    pub fn pending(&self) -> (action: Action)
        requires
            self.wf(),
        ensures
            action@ == self@.pending(),
    {
        match self.stage {
            Stage::Capturing => Action::Read { max: self.capture.room() },
            Stage::Connecting => match &self.target {
                Some(target) => Action::Connect { address: target.address.clone() },
                None => Action::Close { failure: self.failure },
            },
            Stage::Handshaking => match &self.target {
                Some(target) => match target.mode {
                    Mode::Tunnel => Action::WriteClient { bytes: tunnel_reply_bytes() },
                    Mode::Forward => Action::WriteUpstream {
                        bytes: slice_to_vec(self.capture.captured()),
                    },
                },
                None => Action::Close { failure: self.failure },
            },
            Stage::Relaying => Action::Relay,
            Stage::Closed => Action::Close { failure: self.failure },
        }
    }

    /// Takes in what the driver reports and says what is to be done next.
    pub fn step(&mut self, event: Event<'_>) -> (action: Action)
        requires
            old(self).wf(),
        ensures
            final(self).wf(),
            final(self)@ == old(self)@.after(event@),
            action@ == final(self)@.pending(),
    {
        match (self.stage, event) {
            (Stage::Capturing, Event::Read(chunk)) => {
                self.read(chunk);
            },
            (Stage::Capturing, Event::Failed) => {
                self.close(Some(ProxyError::ClientRead));
            },
            (Stage::Connecting, Event::Connected) => {
                self.stage = Stage::Handshaking;
            },
            (Stage::Connecting, Event::Failed) => {
                self.close(Some(ProxyError::UpstreamConnect));
            },
            (Stage::Handshaking, Event::Written) => {
                self.stage = Stage::Relaying;
            },
            (Stage::Handshaking, Event::Failed) => {
                self.close(Some(ProxyError::HandshakeWrite));
            },
            (Stage::Relaying, Event::RelayEnded) => {
                self.close(None);
            },
            (Stage::Relaying, Event::Failed) => {
                self.close(None);
            },
            _ => {},
        }
        self.pending()
    }

    /// Ends the session.
    fn close(&mut self, failure: Option<ProxyError>)
        requires
            old(self)@.capture.valid(),
            old(self).head_text_known(),
        ensures
            final(self)@ == old(self)@.closed(failure),
            final(self).wf(),
    {
        self.stage = Stage::Closed;
        self.failure = failure;
    }

    /// Takes in a read during the capture.
    fn read(&mut self, chunk: &[u8])
        requires
            old(self).wf(),
            old(self)@.stage is Capturing,
        ensures
            final(self).wf(),
            final(self)@ == old(self)@.after_read(chunk@),
    {
        let status = self.capture.feed(chunk);
        match status {
            CaptureStatus::Reading => {},
            CaptureStatus::Closed => {
                self.close(None);
            },
            CaptureStatus::Overflow => {
                self.close(Some(ProxyError::HeadTooLarge));
            },
            CaptureStatus::Complete { .. } => {
                let found = match self.capture.head() {
                    Some(head) => classify(head),
                    None => Err(ProxyError::MissingRequestLine),
                };
                match found {
                    Err(e) => {
                        self.close(Some(e));
                    },
                    Ok(pair) => {
                        self.stage = Stage::Connecting;
                        self.request = Some(pair.0);
                        self.target = Some(pair.1);
                    },
                }
            },
        }
    }
}

} // verus!
